use vstd::prelude::*;
use crate::shape::Shape;

verus! {

/// Distance, in elements, between neighbours along each axis of a grid stored
/// with `x` fastest, then `y`, then `z`: `(1, shape.x, shape.x * shape.y)`.
pub fn calculate_dims(shape: &Shape) -> (dims: Shape)
    requires
        i32::MIN <= shape.x * shape.y <= i32::MAX,
    ensures
        dims.x == 1,
        dims.y == shape.x,
        dims.z == shape.x * shape.y,
{
    let dx: i32 = 1;
    let dy: i32 = dx * shape.x;
    let dz: i32 = dy * shape.y;
    Shape { x: dx, y: dy, z: dz }
}

/// The linear index, as an `i32`, of position `pos` in a grid of extent `shape`.
pub open spec fn linear_index(shape: Shape, pos: Shape) -> int {
    shape.x * shape.y * pos.z + shape.x * pos.y + pos.x
}

/// Every partial sum of `linear_index` fits in an `i32`.
pub open spec fn offset_fits(shape: Shape, pos: Shape) -> bool {
    &&& i32::MIN <= shape.x * shape.y <= i32::MAX
    &&& i32::MIN <= shape.x * shape.y * pos.z <= i32::MAX
    &&& i32::MIN <= shape.x * pos.y <= i32::MAX
    &&& i32::MIN <= shape.x * shape.y * pos.z + shape.x * pos.y <= i32::MAX
    &&& i32::MIN <= linear_index(shape, pos) <= i32::MAX
}

/// Offset of position `pos` from the origin of a grid of extent `shape`,
/// computed in `i32` and then converted to `usize` (a negative offset wraps).
pub fn calculate_offset(shape: &Shape, pos: &Shape) -> (offset: usize)
    requires
        offset_fits(*shape, *pos),
    ensures
        offset == linear_index(*shape, *pos) as usize,
{
    let agg_dims = calculate_dims(shape);
    let result: i32 = agg_dims.z * pos.z + agg_dims.y * pos.y + agg_dims.x * pos.x;
    result as usize
}

/// Offsets are linear in the position: moving by `(dx, dy, dz)` moves the offset by
/// `dx + shape.x * dy + shape.x * shape.y * dz`, and the origin has offset 0.
pub proof fn lemma_linear_index_steps(shape: Shape, a: Shape, b: Shape)
    ensures
        linear_index(shape, Shape { x: 0, y: 0, z: 0 }) == 0,
        linear_index(shape, b) - linear_index(shape, a) == (b.x - a.x) + shape.x * (b.y - a.y)
            + shape.x * shape.y * (b.z - a.z),
{
    assert(shape.x * (b.y - a.y) == shape.x * b.y - shape.x * a.y) by (nonlinear_arith);
    assert(shape.x * shape.y * (b.z - a.z) == shape.x * shape.y * b.z - shape.x * shape.y * a.z)
        by (nonlinear_arith);
    assert(shape.x * shape.y * 0 == 0) by (nonlinear_arith);
    assert(shape.x * 0 == 0) by (nonlinear_arith);
}

} // verus!
