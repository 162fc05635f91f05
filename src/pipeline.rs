use vstd::prelude::*;

use crate::collider::{colliders_of, is_box_of, is_placed, ColliderBox};
use crate::grid::{is_run, Plate, WallRect, WallSet};
use crate::plates::{is_row_plates, lemma_row_plates_contain, row_plates};
use crate::rects::{is_stacked_rect, merge_plates, row_at, row_has, rows_distinct};

verus! {

/// Whether `r` is one of the rectangles that cover the walls of a grid
/// `width` by `height`: each of its rows `bottom..=top` has its column
/// interval as a maximal run, and neither the row below nor the row above
/// (inside the grid) does.
pub open spec fn is_wall_rect(walls: Set<(int, int)>, width: int, height: int, r: WallRect) -> bool {
    &&& 0 <= r.bottom <= r.top < height
    &&& forall|y: int| r.bottom <= y <= r.top ==> #[trigger] is_run(walls, width, y, r.plate())
    &&& (r.bottom == 0 || !is_run(walls, width, r.bottom - 1, r.plate()))
    &&& (r.top == height - 1 || !is_run(walls, width, r.top + 1, r.plate()))
}

/// Whether `rects` lists each rectangle of [`is_wall_rect`] exactly once,
/// and nothing else.
pub open spec fn is_wall_rects(walls: Set<(int, int)>, width: int, height: int, rects: Seq<WallRect>) -> bool {
    &&& forall|r: WallRect| #[trigger] rects.contains(r) <==> is_wall_rect(walls, width, height, r)
    &&& rects.no_duplicates()
}

/// Whether `stack` holds, for each row `0..height` in order, the plates of
/// that row.
pub open spec fn is_plate_stack(walls: Set<(int, int)>, width: int, height: int, stack: Seq<Vec<Plate>>) -> bool {
    &&& stack.len() == height
    &&& forall|y: int| 0 <= y < height ==> is_row_plates(walls, width, y, (#[trigger] stack[y])@)
}

/// The plates of every row of a grid `width` by `height`, bottom row first.
pub fn plate_stack(walls: &WallSet, width: i32, height: i32) -> (stack: Vec<Vec<Plate>>)
    requires
        0 <= width < i32::MAX,
        0 <= height,
    ensures
        is_plate_stack(walls@, width as int, height as int, stack@),
{
    let mut stack: Vec<Vec<Plate>> = Vec::new();
    let mut y: i32 = 0;
    while y < height
        invariant
            0 <= width < i32::MAX,
            0 <= y <= height,
            is_plate_stack(walls@, width as int, y as int, stack@),
        decreases height - y,
    {
        let row = row_plates(walls, width, y);
        let ghost before = stack@;
        stack.push(row);
        assert forall|k: int| 0 <= k < y + 1 implies is_row_plates(walls@, width as int, k, (#[trigger] stack@[k])@) by {
            if k < y {
                assert(stack@[k] == before[k]);
            }
        }
        y = y + 1;
    }
    stack
}

/// A stack of row plates lists a plate in a row of the grid exactly when it
/// is a maximal run there, and lists no plate twice.
proof fn lemma_stack_runs(walls: Set<(int, int)>, width: int, height: int, stack: Seq<Vec<Plate>>)
    requires
        is_plate_stack(walls, width, height, stack),
    ensures
        rows_distinct(stack),
        forall|y: int, p: Plate|
            #![trigger row_has(stack, y, p)]
            #![trigger is_run(walls, width, y, p)]
            0 <= y < height ==> (row_has(stack, y, p) <==> is_run(walls, width, y, p)),
{
    assert forall|y: int, p: Plate| 0 <= y < height implies (row_has(stack, y, p) <==> is_run(walls, width, y, p)) by {
        assert(row_at(stack, y) == stack[y]@);
        lemma_row_plates_contain(walls, width, y, stack[y]@, p);
    }
    assert forall|y: int| 0 <= y < stack.len() implies (#[trigger] stack[y])@.no_duplicates() by {
        let ps = stack[y]@;
        assert(is_row_plates(walls, width, y, ps));
        assert forall|i: int, j: int| 0 <= i < ps.len() && 0 <= j < ps.len() && i != j implies ps[i] != ps[j] by {
            assert(is_run(walls, width, y, ps[i]));
            assert(is_run(walls, width, y, ps[j]));
        }
    }
}

/// The rectangles that cover the walls of a grid `width` by `height`: the
/// plates of each row, stacked across rows wherever consecutive rows hold a
/// plate of the same extent. Cells outside the grid are ignored.
pub fn wall_rects(walls: &WallSet, width: i32, height: i32) -> (rects: Vec<WallRect>)
    requires
        0 <= width < i32::MAX,
        0 <= height < i32::MAX,
    ensures
        is_wall_rects(walls@, width as int, height as int, rects@),
{
    let stack = plate_stack(walls, width, height);
    proof {
        lemma_stack_runs(walls@, width as int, height as int, stack@);
    }
    let rects = merge_plates(&stack);
    proof {
        assert forall|r: WallRect| is_stacked_rect(stack@, r) <==> is_wall_rect(walls@, width as int, height as int, r) by {
            if is_stacked_rect(stack@, r) {
                assert forall|y: int| r.bottom <= y <= r.top implies #[trigger] is_run(walls@, width as int, y, r.plate()) by {
                    assert(row_has(stack@, y, r.plate()));
                }
                if r.bottom != 0 {
                    assert(!row_has(stack@, r.bottom - 1, r.plate()));
                }
                if r.top != height - 1 {
                    assert(!row_has(stack@, r.top + 1, r.plate()));
                }
            }
            if is_wall_rect(walls@, width as int, height as int, r) {
                assert forall|y: int| r.bottom <= y <= r.top implies #[trigger] row_has(stack@, y, r.plate()) by {
                    assert(is_run(walls@, width as int, y, r.plate()));
                }
                if r.bottom != 0 {
                    assert(!is_run(walls@, width as int, r.bottom - 1, r.plate()));
                }
                if r.top != height - 1 {
                    assert(!is_run(walls@, width as int, r.top + 1, r.plate()));
                }
            }
        }
    }
    rects
}

/// The collider boxes for the walls of one level, a grid `width` by
/// `height` with `cell_size` world units per cell: one box for each
/// rectangle of [`wall_rects`].
pub fn level_colliders(walls: &WallSet, width: i32, height: i32, cell_size: i32) -> (boxes: Vec<ColliderBox>)
    requires
        0 <= width < i32::MAX,
        0 <= height < i32::MAX,
        0 <= cell_size,
    ensures
        exists|rects: Seq<WallRect>|
            #![trigger is_wall_rects(walls@, width as int, height as int, rects)]
            is_wall_rects(walls@, width as int, height as int, rects) && boxes.len() == rects.len() && forall|i: int|
                0 <= i < rects.len() ==> is_box_of(#[trigger] boxes@[i], rects[i], cell_size as int),
{
    let rects = wall_rects(walls, width, height);
    assert forall|i: int| 0 <= i < rects.len() implies is_placed(#[trigger] rects@[i]) by {
        assert(rects@.contains(rects@[i]));
        assert(is_run(walls@, width as int, rects@[i].bottom as int, rects@[i].plate()));
    }
    colliders_of(&rects, cell_size)
}

} // verus!
