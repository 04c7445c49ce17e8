use vstd::prelude::*;
use crate::aabb::{surrounding_box, union_box, AABB};
use crate::fixed::in_lim;
use crate::hittable::{good_record, HitRecord, Hittable};
use crate::ray::Ray;

verus! {

/// A collection of objects hit as one: the nearest hit wins.
#[derive(Debug)]
pub struct HittableList {
    pub objects: Vec<Hittable>,
}

/// The hit reported after trying the first `n` objects in order, each over
/// `(t_min, closest so far)`.
pub open spec fn list_hit(objs: Seq<Hittable>, r: Ray, t_min: int, t_max: int, n: int) -> Option<
    HitRecord,
>
    decreases n,
{
    if n <= 0 {
        None
    } else {
        let prev = list_hit(objs, r, t_min, t_max, n - 1);
        let closest = match prev {
            Some(rec) => rec.t as int,
            None => t_max,
        };
        match objs[n - 1].spec_hit(r, t_min, closest) {
            Some(rec) => Some(rec),
            None => prev,
        }
    }
}

/// The union of the boxes of the first `n` objects (`n >= 1`), or none where
/// one of them has no box.
pub open spec fn list_box(objs: Seq<Hittable>, n: int) -> Option<AABB>
    decreases n,
{
    if n <= 1 {
        objs[0].spec_bbox()
    } else {
        match (list_box(objs, n - 1), objs[n - 1].spec_bbox()) {
            (Some(a), Some(b)) => Some(union_box(a, b)),
            _ => None,
        }
    }
}

impl HittableList {
    pub open spec fn wf(self) -> bool {
        forall|i: int| 0 <= i < self.objects@.len() ==> #[trigger] self.objects@[i].wf()
    }

    pub open spec fn spec_hit(self, r: Ray, t_min: int, t_max: int) -> Option<HitRecord> {
        list_hit(self.objects@, r, t_min, t_max, self.objects@.len() as int)
    }

    pub fn new() -> (l: HittableList)
        ensures
            l.objects@.len() == 0,
    {
        HittableList { objects: Vec::new() }
    }

    pub fn add(&mut self, object: Hittable)
        ensures
            final(self).objects@ == old(self).objects@.push(object),
    {
        self.objects.push(object);
    }

    /// The nearest hit over all objects within `(t_min, t_max)`.
    pub fn hit(&self, r: &Ray, t_min: i64, t_max: i64) -> (res: Option<HitRecord>)
        requires
            self.wf(),
            r.bounded(),
            in_lim(t_min as int),
            in_lim(t_max as int),
        ensures
            res == self.spec_hit(*r, t_min as int, t_max as int),
            res matches Some(rec) ==> good_record(*r, t_min as int, t_max as int, rec),
    {
        let mut final_rec: Option<HitRecord> = None;
        let mut closest_so_far: i64 = t_max;
        let mut i: usize = 0;
        while i < self.objects.len()
            invariant
                self.wf(),
                r.bounded(),
                in_lim(t_min as int),
                in_lim(t_max as int),
                i <= self.objects@.len(),
                final_rec == list_hit(self.objects@, *r, t_min as int, t_max as int, i as int),
                closest_so_far == (match final_rec {
                    Some(rec) => rec.t,
                    None => t_max,
                }),
                final_rec matches Some(rec) ==> good_record(*r, t_min as int, t_max as int, rec),
            decreases self.objects@.len() - i,
        {
            let ghost gi = i as int;
            assert(self.objects@[gi].wf());
            match self.objects[i].hit(r, t_min, closest_so_far) {
                Some(rec) => {
                    closest_so_far = rec.t;
                    final_rec = Some(rec);
                },
                None => {},
            }
            i = i + 1;
        }
        final_rec
    }

    /// The box enclosing every object; none for an empty list or where an object has no box.
    pub fn bounding_box(&self) -> (res: Option<AABB>)
        requires
            self.wf(),
        ensures
            self.objects@.len() == 0 ==> res.is_none(),
            self.objects@.len() > 0 ==> res == list_box(self.objects@, self.objects@.len() as int),
    {
        if self.objects.len() == 0 {
            return None;
        }
        assert(self.objects@[0].wf());
        let mut acc = match self.objects[0].bounding_box() {
            Some(b) => b,
            None => {
                proof {
                    lemma_list_box_none(self.objects@, 1, self.objects@.len() as int);
                }
                return None;
            },
        };
        let mut i: usize = 1;
        while i < self.objects.len()
            invariant
                self.wf(),
                1 <= i <= self.objects@.len(),
                list_box(self.objects@, i as int) == Some(acc),
            decreases self.objects@.len() - i,
        {
            let ghost gi = i as int;
            assert(self.objects@[gi].wf());
            match self.objects[i].bounding_box() {
                Some(b) => {
                    acc = surrounding_box(acc, b);
                },
                None => {
                    assert(list_box(self.objects@, i + 1).is_none());
                    assert forall|n: int| i + 1 <= n <= self.objects@.len() implies list_box(
                        self.objects@,
                        n,
                    ).is_none() by {
                        lemma_list_box_none(self.objects@, i + 1, n);
                    }
                    return None;
                },
            }
            i = i + 1;
        }
        Some(acc)
    }
}

proof fn lemma_list_box_none(objs: Seq<Hittable>, m: int, n: int)
    requires
        1 <= m <= n,
        list_box(objs, m).is_none(),
    ensures
        list_box(objs, n).is_none(),
    decreases n - m,
{
    if m < n {
        lemma_list_box_none(objs, m, n - 1);
    }
}

} // verus!
