use vstd::prelude::*;

use crate::grid::WallRect;

verus! {

/// Where the collider of one rectangle stands in world units. Every value is
/// twice the world quantity, so that it stays a whole number: half the box's
/// width is `twice_half_width / 2`, the center's x is `twice_center_x / 2`.
#[derive(Clone, Copy, Debug, PartialEq, Eq, Structural)]
pub struct ColliderBox {
    pub twice_half_width: i64,
    pub twice_half_height: i64,
    pub twice_center_x: i64,
    pub twice_center_y: i64,
}

/// Whether `b` is the collider box of `r` in a grid of `cell_size` world
/// units per cell.
pub open spec fn is_box_of(b: ColliderBox, r: WallRect, cell_size: int) -> bool {
    &&& b.twice_half_width == (r.right - r.left + 1) * cell_size
    &&& b.twice_half_height == (r.top - r.bottom + 1) * cell_size
    &&& b.twice_center_x == (r.left + r.right + 1) * cell_size
    &&& b.twice_center_y == (r.bottom + r.top + 1) * cell_size
}

/// Whether `r` lies in the quadrant of non-negative grid coordinates, with
/// its bounds in order.
pub open spec fn is_placed(r: WallRect) -> bool {
    0 <= r.left <= r.right && 0 <= r.bottom <= r.top
}

/// The box of the collider for `r` in a grid of `cell_size` world units per
/// cell: half-extents `((right - left + 1) * cell_size / 2, (top - bottom + 1)
/// * cell_size / 2)` and center `((left + right + 1) * cell_size / 2, (bottom
/// + top + 1) * cell_size / 2)`, each held at twice its value.
pub fn collider_box(r: WallRect, cell_size: i32) -> (b: ColliderBox)
    requires
        is_placed(r),
        0 <= cell_size,
    ensures
        is_box_of(b, r, cell_size as int),
{
    let cell = cell_size as i64;
    let across = r.right as i64 - r.left as i64 + 1;
    let up = r.top as i64 - r.bottom as i64 + 1;
    let mid_x = r.left as i64 + r.right as i64 + 1;
    let mid_y = r.bottom as i64 + r.top as i64 + 1;
    assert(0 <= across * cell <= 0xffff_ffff * 0x7fff_ffff) by (nonlinear_arith)
        requires
            0 <= across <= 0x8000_0000,
            0 <= cell <= 0x7fff_ffff,
    ;
    assert(0 <= up * cell <= 0xffff_ffff * 0x7fff_ffff) by (nonlinear_arith)
        requires
            0 <= up <= 0x8000_0000,
            0 <= cell <= 0x7fff_ffff,
    ;
    assert(0 <= mid_x * cell <= 0xffff_ffff * 0x7fff_ffff) by (nonlinear_arith)
        requires
            0 <= mid_x <= 0xffff_ffff,
            0 <= cell <= 0x7fff_ffff,
    ;
    assert(0 <= mid_y * cell <= 0xffff_ffff * 0x7fff_ffff) by (nonlinear_arith)
        requires
            0 <= mid_y <= 0xffff_ffff,
            0 <= cell <= 0x7fff_ffff,
    ;
    ColliderBox {
        twice_half_width: across * cell,
        twice_half_height: up * cell,
        twice_center_x: mid_x * cell,
        twice_center_y: mid_y * cell,
    }
}

/// The collider boxes of `rects`, one for each rectangle, in the same order.
pub fn colliders_of(rects: &Vec<WallRect>, cell_size: i32) -> (boxes: Vec<ColliderBox>)
    requires
        forall|i: int| 0 <= i < rects.len() ==> is_placed(#[trigger] rects@[i]),
        0 <= cell_size,
    ensures
        boxes.len() == rects.len(),
        forall|i: int| 0 <= i < rects.len() ==> is_box_of(#[trigger] boxes@[i], rects@[i], cell_size as int),
{
    let mut boxes: Vec<ColliderBox> = Vec::new();
    let mut k: usize = 0;
    while k < rects.len()
        invariant
            k <= rects.len(),
            0 <= cell_size,
            forall|i: int| 0 <= i < rects.len() ==> is_placed(#[trigger] rects@[i]),
            boxes.len() == k,
            forall|i: int| 0 <= i < k ==> is_box_of(#[trigger] boxes@[i], rects@[i], cell_size as int),
        decreases rects.len() - k,
    {
        boxes.push(collider_box(rects[k], cell_size));
        k = k + 1;
    }
    boxes
}

} // verus!
