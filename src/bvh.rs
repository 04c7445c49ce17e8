use vstd::prelude::*;
use rand::rngs::StdRng;
use crate::aabb::{lemma_surrounding_box_contains, surrounding_box, union_box, AABB};
use crate::hittable::Hittable;
use crate::hittable_list::HittableList;
use crate::rng::random_below;

verus! {

broadcast use vstd::seq_lib::group_to_multiset_ensures;

/// An inner node of a bounding-volume hierarchy: two children and a box holding both.
#[derive(Debug)]
pub struct BVHNode {
    pub left: Box<Hittable>,
    pub right: Box<Hittable>,
    pub bbox: AABB,
}

/// Why a hierarchy could not be built.
#[derive(Clone, Copy, Debug, PartialEq, Eq, Structural)]
pub enum BvhError {
    /// There were no objects.
    Empty,
    /// An object has no bounding box.
    MissingBox,
}

/// The object is well formed and has a bounding box.
pub open spec fn boxed(h: Hittable) -> bool {
    h.wf() && h.spec_bbox().is_some()
}

/// The object's box, or the empty default where it has none.
pub open spec fn box_of(h: Hittable) -> AABB {
    match h.spec_bbox() {
        Some(b) => b,
        None => AABB { min: crate::vec3::Vec3 { x: 0, y: 0, z: 0 }, max: crate::vec3::Vec3 { x: 0, y: 0, z: 0 } },
    }
}

/// The lower corner of the object's box on `axis`: the sort key of the split.
pub open spec fn box_key(h: Hittable, axis: int) -> int {
    box_of(h).min.at(axis)
}

/// Every object of `s` is well formed and has a box.
pub open spec fn all_boxed(s: Seq<Hittable>) -> bool {
    forall|i: int| 0 <= i < s.len() ==> #[trigger] boxed(s[i])
}

/// `o` is one of the children of `node` or, below it, of a node of the hierarchy.
pub open spec fn holds(node: BVHNode, o: Hittable) -> bool
    decreases node,
{
    ||| *node.left == o
    ||| *node.right == o
    ||| (match *node.left {
        Hittable::Bvh(l) => holds(l, o),
        _ => false,
    })
    ||| (match *node.right {
        Hittable::Bvh(r) => holds(r, o),
        _ => false,
    })
}

/// Every child of `node`, and below it of its hierarchy nodes, is one of
/// `objs` or a hierarchy node built over them.
pub open spec fn only_from(node: BVHNode, objs: Seq<Hittable>) -> bool
    decreases node,
{
    &&& (objs.contains(*node.left) || match *node.left {
        Hittable::Bvh(l) => only_from(l, objs),
        _ => false,
    })
    &&& (objs.contains(*node.right) || match *node.right {
        Hittable::Bvh(r) => only_from(r, objs),
        _ => false,
    })
}

proof fn lemma_only_from_widen(node: BVHNode, a: Seq<Hittable>, b: Seq<Hittable>)
    requires
        only_from(node, a),
        forall|x: Hittable| a.contains(x) ==> b.contains(x),
    ensures
        only_from(node, b),
    decreases node,
{
    if !a.contains(*node.left) {
        if let Hittable::Bvh(l) = *node.left {
            lemma_only_from_widen(l, a, b);
        }
    }
    if !a.contains(*node.right) {
        if let Hittable::Bvh(r) = *node.right {
            lemma_only_from_widen(r, a, b);
        }
    }
}

proof fn lemma_contains_trans(a: AABB, b: AABB, c: AABB)
    requires
        a.contains(b),
        b.contains(c),
    ensures
        a.contains(c),
{
}

/// Sorts the objects by the lower corner of their boxes on `axis`.
fn sort_by_axis(objects: Vec<Hittable>, axis: usize) -> (sorted: Vec<Hittable>)
    requires
        axis < 3,
        all_boxed(objects@),
    ensures
        sorted@.to_multiset() == objects@.to_multiset(),
        sorted@.len() == objects@.len(),
        all_boxed(sorted@),
        forall|i: int, j: int|
            0 <= i <= j < sorted@.len() ==> box_key(sorted@[i], axis as int) <= box_key(
                sorted@[j],
                axis as int,
            ),
{
    let mut rest = objects;
    let mut sorted: Vec<Hittable> = Vec::new();
    let mut keys: Vec<i64> = Vec::new();
    while rest.len() > 0
        invariant
            axis < 3,
            all_boxed(rest@),
            all_boxed(sorted@),
            sorted@.to_multiset().add(rest@.to_multiset()) == objects@.to_multiset(),
            sorted@.len() + rest@.len() == objects@.len(),
            keys@.len() == sorted@.len(),
            forall|i: int| 0 <= i < keys@.len() ==> keys@[i] == box_key(sorted@[i], axis as int),
            forall|i: int, j: int| 0 <= i <= j < keys@.len() ==> keys@[i] <= keys@[j],
        decreases rest@.len(),
    {
        let ghost old_rest = rest@;
        let ghost old_sorted = sorted@;
        let obj = rest.pop().unwrap();
        assert(old_rest == rest@.push(obj));
        assert(boxed(old_rest[old_rest.len() - 1]));
        let b = match obj.bounding_box() {
            Some(b) => b,
            None => {
                proof {
                    assert(false);
                }
                AABB::default()
            },
        };
        let k = b.min.axis(axis);
        let mut j: usize = 0;
        while j < keys.len() && keys[j] <= k
            invariant
                j <= keys@.len(),
                forall|i: int| 0 <= i < j ==> keys@[i] <= k,
            decreases keys@.len() - j,
        {
            j = j + 1;
        }
        sorted.insert(j, obj);
        keys.insert(j, k);
        proof {
            assert(sorted@ == old_sorted.insert(j as int, obj));
            assert(sorted@.to_multiset() == old_sorted.to_multiset().insert(obj));
            assert(old_rest.to_multiset() == rest@.to_multiset().insert(obj));
            broadcast use vstd::multiset::group_multiset_properties;
            assert(sorted@.to_multiset().add(rest@.to_multiset()) =~= old_sorted.to_multiset().add(
                old_rest.to_multiset(),
            ));
            assert forall|i: int| 0 <= i < sorted@.len() implies #[trigger] boxed(sorted@[i]) by {
                if i < j {
                    assert(sorted@[i] == old_sorted[i]);
                } else if i > j {
                    assert(sorted@[i] == old_sorted[i - 1]);
                }
            }
            assert forall|i: int| 0 <= i < rest@.len() implies #[trigger] boxed(rest@[i]) by {
                assert(rest@[i] == old_rest[i]);
            }
        }
    }
    assert forall|i: int, j: int| 0 <= i <= j < sorted@.len() implies box_key(
        sorted@[i],
        axis as int,
    ) <= box_key(sorted@[j], axis as int) by {
        assert(keys@[i] <= keys@[j]);
    }
    sorted
}

impl BVHNode {
    /// Builds the hierarchy over `objects`: each node splits its objects,
    /// sorted along a randomly chosen axis, at the median.
    fn build(objects: Vec<Hittable>, rng: &mut StdRng) -> (node: BVHNode)
        requires
            objects@.len() >= 1,
            all_boxed(objects@),
        ensures
            Hittable::Bvh(node).wf(),
            forall|i: int|
                0 <= i < objects@.len() ==> node.bbox.contains(#[trigger] box_of(objects@[i])),
            forall|i: int| 0 <= i < objects@.len() ==> #[trigger] holds(node, objects@[i]),
            only_from(node, objects@),
        decreases objects@.len(),
    {
        let axis = random_below(rng, 3) as usize;
        let n = objects.len();
        let mut objects = objects;
        let ghost orig = objects@;
        if n == 1 {
            let obj = objects.pop().unwrap();
            assert(obj == orig[0]);
            assert(boxed(orig[0]));
            let b = match obj.bounding_box() {
                Some(b) => b,
                None => {
                    proof {
                        assert(false);
                    }
                    AABB::default()
                },
            };
            let dup = obj.duplicate();
            let bbox = surrounding_box(b, b);
            proof {
                lemma_surrounding_box_contains(b, b);
            }
            assert(orig.contains(obj));
            return BVHNode { left: Box::new(obj), right: Box::new(dup), bbox };
        }
        let mut sorted = sort_by_axis(objects, axis);
        let ghost srt = sorted@;
        let left: Hittable;
        let right: Hittable;
        if n == 2 {
            let second = sorted.pop().unwrap();
            let first = sorted.pop().unwrap();
            assert(first == srt[0] && second == srt[1]);
            assert(boxed(srt[0]) && boxed(srt[1]));
            assert(srt.contains(srt[0]) && srt.contains(srt[1]));
            assert(srt.to_multiset().count(srt[0]) > 0 && srt.to_multiset().count(srt[1]) > 0);
            assert(orig.contains(first) && orig.contains(second));
            left = first;
            right = second;
        } else {
            let mid = n / 2;
            let upper = sorted.split_off(mid);
            assert(all_boxed(sorted@)) by {
                assert forall|i: int| 0 <= i < sorted@.len() implies #[trigger] boxed(sorted@[i]) by {
                    assert(sorted@[i] == srt[i]);
                }
            }
            assert(all_boxed(upper@)) by {
                assert forall|i: int| 0 <= i < upper@.len() implies #[trigger] boxed(upper@[i]) by {
                    assert(upper@[i] == srt[i + mid]);
                }
            }
            let ghost lo_s = sorted@;
            let ghost hi_s = upper@;
            let l = BVHNode::build(sorted, rng);
            let r = BVHNode::build(upper, rng);
            proof {
                assert forall|x: Hittable| lo_s.contains(x) implies orig.contains(x) by {
                    let k = choose|k: int| 0 <= k < lo_s.len() && lo_s[k] == x;
                    assert(srt[k] == x);
                    assert(srt.contains(x));
                    assert(srt.to_multiset().count(x) > 0);
                }
                assert forall|x: Hittable| hi_s.contains(x) implies orig.contains(x) by {
                    let k = choose|k: int| 0 <= k < hi_s.len() && hi_s[k] == x;
                    assert(srt[k + mid] == x);
                    assert(srt.contains(x));
                    assert(srt.to_multiset().count(x) > 0);
                }
                lemma_only_from_widen(l, lo_s, orig);
                lemma_only_from_widen(r, hi_s, orig);
            }
            assert forall|k: int| 0 <= k < srt.len() implies (l.bbox.contains(box_of(srt[k]))
                && holds(l, srt[k])) || (r.bbox.contains(box_of(srt[k])) && holds(r, srt[k])) by {
                if k < mid {
                    assert(srt[k] == lo_s[k]);
                } else {
                    assert(srt[k] == hi_s[k - mid]);
                }
            }
            left = Hittable::Bvh(l);
            right = Hittable::Bvh(r);
        }
        let bl = match left.bounding_box() {
            Some(b) => b,
            None => {
                proof {
                    assert(false);
                }
                AABB::default()
            },
        };
        let br = match right.bounding_box() {
            Some(b) => b,
            None => {
                proof {
                    assert(false);
                }
                AABB::default()
            },
        };
        let bbox = surrounding_box(bl, br);
        proof {
            lemma_surrounding_box_contains(bl, br);
            assert forall|i: int| 0 <= i < orig.len() implies bbox.contains(
                #[trigger] box_of(orig[i]),
            ) by {
                let o = orig[i];
                assert(orig.contains(o));
                assert(orig.to_multiset().count(o) > 0);
                assert(srt.contains(o));
                let k = choose|k: int| 0 <= k < srt.len() && srt[k] == o;
                if n == 2 {
                    assert(k == 0 || k == 1);
                    assert(box_of(srt[0]) == bl);
                    assert(box_of(srt[1]) == br);
                } else {
                    if bl.contains(box_of(srt[k])) {
                        lemma_contains_trans(bbox, bl, box_of(o));
                    } else {
                        lemma_contains_trans(bbox, br, box_of(o));
                    }
                }
            }
            let node = BVHNode { left: Box::new(left), right: Box::new(right), bbox };
            assert forall|i: int| 0 <= i < orig.len() implies #[trigger] holds(node, orig[i]) by {
                let o = orig[i];
                assert(orig.contains(o));
                assert(orig.to_multiset().count(o) > 0);
                assert(srt.contains(o));
                let k = choose|k: int| 0 <= k < srt.len() && srt[k] == o;
                if n == 2 {
                    assert(k == 0 || k == 1);
                }
            }
        }
        BVHNode { left: Box::new(left), right: Box::new(right), bbox }
    }

    /// Builds a hierarchy over `objects`. Fails on an empty list, or where an
    /// object has no bounding box.
    pub fn new(objects: Vec<Hittable>, rng: &mut StdRng) -> (res: Result<BVHNode, BvhError>)
        requires
            forall|i: int| 0 <= i < objects@.len() ==> #[trigger] objects@[i].wf(),
        ensures
            objects@.len() == 0 ==> res == Err::<BVHNode, BvhError>(BvhError::Empty),
            objects@.len() > 0 && !all_boxed(objects@) ==> res == Err::<BVHNode, BvhError>(
                BvhError::MissingBox,
            ),
            objects@.len() > 0 && all_boxed(objects@) ==> res is Ok,
            res matches Ok(node) ==> Hittable::Bvh(node).wf() && (forall|i: int|
                0 <= i < objects@.len() ==> node.bbox.contains(#[trigger] box_of(objects@[i])))
                && (forall|i: int| 0 <= i < objects@.len() ==> #[trigger] holds(node, objects@[i]))
                && only_from(node, objects@),
    {
        if objects.len() == 0 {
            return Err(BvhError::Empty);
        }
        let mut i: usize = 0;
        while i < objects.len()
            invariant
                i <= objects@.len(),
                forall|j: int| 0 <= j < objects@.len() ==> #[trigger] objects@[j].wf(),
                forall|j: int| 0 <= j < i ==> #[trigger] boxed(objects@[j]),
            decreases objects@.len() - i,
        {
            let ghost gi = i as int;
            assert(objects@[gi].wf());
            if objects[i].bounding_box().is_none() {
                assert(!boxed(objects@[gi]));
                return Err(BvhError::MissingBox);
            }
            i = i + 1;
        }
        Ok(BVHNode::build(objects, rng))
    }

    /// Builds a hierarchy over the objects of `list`.
    pub fn new_with_list(list: HittableList, rng: &mut StdRng) -> (res: Result<BVHNode, BvhError>)
        requires
            list.wf(),
        ensures
            list.objects@.len() == 0 ==> res == Err::<BVHNode, BvhError>(BvhError::Empty),
            list.objects@.len() > 0 && !all_boxed(list.objects@) ==> res == Err::<
                BVHNode,
                BvhError,
            >(BvhError::MissingBox),
            list.objects@.len() > 0 && all_boxed(list.objects@) ==> res is Ok,
            res matches Ok(node) ==> Hittable::Bvh(node).wf() && (forall|i: int|
                0 <= i < list.objects@.len() ==> node.bbox.contains(
                    #[trigger] box_of(list.objects@[i]),
                )) && (forall|i: int|
                0 <= i < list.objects@.len() ==> #[trigger] holds(node, list.objects@[i]))
                && only_from(node, list.objects@),
    {
        BVHNode::new(list.objects, rng)
    }
}

/// In a well-formed hierarchy, a node's box contains the boxes of both children.
pub proof fn lemma_node_contains_children(node: BVHNode)
    requires
        Hittable::Bvh(node).wf(),
    ensures
        node.left.spec_bbox() matches Some(bl) && node.bbox.contains(bl),
        node.right.spec_bbox() matches Some(br) && node.bbox.contains(br),
{
}

} // verus!
