use vstd::prelude::*;

verus! {

/// Extent of a 3-D grid (or a position in it): `x` is the fastest-varying axis.
#[derive(Debug)]
pub struct Shape {
    pub x: i32,
    pub y: i32,
    pub z: i32,
}

} // verus!
