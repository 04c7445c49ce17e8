use vstd::prelude::*;
use crate::vec3::{Color, Point3};

verus! {

/// A texture of one colour everywhere.
#[derive(Clone, Copy, Debug, PartialEq, Eq, Structural)]
pub struct SolidColor {
    pub color_value: Color,
}

impl SolidColor {
    pub fn new(color_value: Color) -> (t: SolidColor)
        ensures
            t.color_value == color_value,
    {
        SolidColor { color_value }
    }

    /// The colour at surface coordinates `(u, v)` and point `p`: always the same.
    pub fn value(&self, _u: i64, _v: i64, _p: Point3) -> (c: Color)
        ensures
            c == self.color_value,
    {
        self.color_value
    }
}

} // verus!
