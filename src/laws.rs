use vstd::prelude::*;

use crate::grid::{in_grid, is_run, lemma_runs_meet, Plate, WallRect};
use crate::pipeline::{is_wall_rect, is_wall_rects};
use crate::plates::{is_row_plates, lemma_row_plates_contain};

verus! {

/// The first column of the run of walls in row `y` that reaches column `x`
/// from the left.
pub open spec fn run_start(walls: Set<(int, int)>, y: int, x: int) -> int
    decreases x,
{
    if x > 0 && walls.contains((x - 1, y)) {
        run_start(walls, y, x - 1)
    } else {
        x
    }
}

/// The last column of the run of walls in row `y` that reaches column `x`
/// from the right, inside a grid `width` cells wide.
pub open spec fn run_end(walls: Set<(int, int)>, width: int, y: int, x: int) -> int
    decreases width - x,
{
    if x + 1 < width && walls.contains((x + 1, y)) {
        run_end(walls, width, y, x + 1)
    } else {
        x
    }
}

/// The lowest row of the stack of rows, reaching row `y` from below, in
/// which `p` is a maximal run.
pub open spec fn stack_start(walls: Set<(int, int)>, width: int, p: Plate, y: int) -> int
    decreases y,
{
    if y > 0 && is_run(walls, width, y - 1, p) {
        stack_start(walls, width, p, y - 1)
    } else {
        y
    }
}

/// The highest row of the stack of rows, reaching row `y` from above, in
/// which `p` is a maximal run, inside a grid `height` rows tall.
pub open spec fn stack_end(walls: Set<(int, int)>, width: int, height: int, p: Plate, y: int) -> int
    decreases height - y,
{
    if y + 1 < height && is_run(walls, width, y + 1, p) {
        stack_end(walls, width, height, p, y + 1)
    } else {
        y
    }
}

proof fn lemma_run_start(walls: Set<(int, int)>, y: int, x: int)
    requires
        0 <= x,
        walls.contains((x, y)),
    ensures
        0 <= run_start(walls, y, x) <= x,
        forall|z: int| run_start(walls, y, x) <= z <= x ==> #[trigger] walls.contains((z, y)),
        run_start(walls, y, x) == 0 || !walls.contains((run_start(walls, y, x) - 1, y)),
    decreases x,
{
    if x > 0 && walls.contains((x - 1, y)) {
        lemma_run_start(walls, y, x - 1);
    }
}

proof fn lemma_run_end(walls: Set<(int, int)>, width: int, y: int, x: int)
    requires
        x < width,
        walls.contains((x, y)),
    ensures
        x <= run_end(walls, width, y, x) < width,
        forall|z: int| x <= z <= run_end(walls, width, y, x) ==> #[trigger] walls.contains((z, y)),
        run_end(walls, width, y, x) == width - 1 || !walls.contains((run_end(walls, width, y, x) + 1, y)),
    decreases width - x,
{
    if x + 1 < width && walls.contains((x + 1, y)) {
        lemma_run_end(walls, width, y, x + 1);
    }
}

proof fn lemma_stack_start(walls: Set<(int, int)>, width: int, p: Plate, y: int)
    requires
        0 <= y,
        is_run(walls, width, y, p),
    ensures
        0 <= stack_start(walls, width, p, y) <= y,
        forall|z: int| stack_start(walls, width, p, y) <= z <= y ==> #[trigger] is_run(walls, width, z, p),
        stack_start(walls, width, p, y) == 0 || !is_run(walls, width, stack_start(walls, width, p, y) - 1, p),
    decreases y,
{
    if y > 0 && is_run(walls, width, y - 1, p) {
        lemma_stack_start(walls, width, p, y - 1);
    }
}

proof fn lemma_stack_end(walls: Set<(int, int)>, width: int, height: int, p: Plate, y: int)
    requires
        y < height,
        is_run(walls, width, y, p),
    ensures
        y <= stack_end(walls, width, height, p, y) < height,
        forall|z: int| y <= z <= stack_end(walls, width, height, p, y) ==> #[trigger] is_run(walls, width, z, p),
        stack_end(walls, width, height, p, y) == height - 1 || !is_run(walls, width, stack_end(walls, width, height, p, y) + 1, p),
    decreases height - y,
{
    if y + 1 < height && is_run(walls, width, y + 1, p) {
        lemma_stack_end(walls, width, height, p, y + 1);
    }
}

/// Every wall cell inside the grid lies in one of the rectangles.
proof fn lemma_wall_covered(walls: Set<(int, int)>, width: int, height: int, rects: Seq<WallRect>, x: int, y: int)
    requires
        width <= i32::MAX,
        height <= i32::MAX,
        is_wall_rects(walls, width, height, rects),
        in_grid(width, height, x, y),
        walls.contains((x, y)),
    ensures
        exists|i: int| 0 <= i < rects.len() && (#[trigger] rects[i]).covers(x, y),
{
    lemma_run_start(walls, y, x);
    lemma_run_end(walls, width, y, x);
    let p = Plate { left: run_start(walls, y, x) as i32, right: run_end(walls, width, y, x) as i32 };
    assert(is_run(walls, width, y, p));
    lemma_stack_start(walls, width, p, y);
    lemma_stack_end(walls, width, height, p, y);
    let r = WallRect {
        left: p.left,
        right: p.right,
        top: stack_end(walls, width, height, p, y) as i32,
        bottom: stack_start(walls, width, p, y) as i32,
    };
    assert(r.plate() == p);
    assert(is_wall_rect(walls, width, height, r));
    assert(rects.contains(r));
    let i = rects.index_of(r);
    assert(rects[i].covers(x, y));
}

/// Whether some rectangle of `rects` holds the cell `(x, y)`.
pub open spec fn covered_by(rects: Seq<WallRect>, x: int, y: int) -> bool {
    exists|i: int| 0 <= i < rects.len() && (#[trigger] rects[i]).covers(x, y)
}

/// Coverage: the cells of the rectangles together are exactly the wall
/// cells inside the grid, with no cell left out and no cell added.
pub proof fn lemma_coverage(walls: Set<(int, int)>, width: int, height: int, rects: Seq<WallRect>)
    requires
        width <= i32::MAX,
        height <= i32::MAX,
        is_wall_rects(walls, width, height, rects),
    ensures
        forall|x: int, y: int|
            #[trigger] covered_by(rects, x, y) <==> (in_grid(width, height, x, y) && walls.contains((x, y))),
{
    assert forall|x: int, y: int|
        #[trigger] covered_by(rects, x, y) <==> (in_grid(width, height, x, y) && walls.contains((x, y))) by {
        if covered_by(rects, x, y) {
            let i = choose|i: int| 0 <= i < rects.len() && (#[trigger] rects[i]).covers(x, y);
            assert(rects.contains(rects[i]));
            assert(is_run(walls, width, y, rects[i].plate()));
        }
        if in_grid(width, height, x, y) && walls.contains((x, y)) {
            lemma_wall_covered(walls, width, height, rects, x, y);
        }
    }
}

/// Disjointness: no cell lies in two of the rectangles.
pub proof fn lemma_disjoint(walls: Set<(int, int)>, width: int, height: int, rects: Seq<WallRect>)
    requires
        is_wall_rects(walls, width, height, rects),
    ensures
        forall|i: int, j: int, x: int, y: int|
            #![trigger rects[i].covers(x, y), rects[j].covers(x, y)]
            0 <= i < rects.len() && 0 <= j < rects.len() && i != j && rects[i].covers(x, y)
                ==> !rects[j].covers(x, y),
{
    assert forall|i: int, j: int, x: int, y: int|
        #![trigger rects[i].covers(x, y), rects[j].covers(x, y)]
        0 <= i < rects.len() && 0 <= j < rects.len() && i != j && rects[i].covers(x, y)
            implies !rects[j].covers(x, y) by {
        if rects[j].covers(x, y) {
            let a = rects[i];
            let b = rects[j];
            assert(rects.contains(a));
            assert(rects.contains(b));
            assert(is_run(walls, width, y, a.plate()));
            assert(is_run(walls, width, y, b.plate()));
            lemma_runs_meet(walls, width, y, a.plate(), b.plate(), x);
            if a.bottom < b.bottom {
                assert(is_run(walls, width, b.bottom - 1, a.plate()));
            }
            if b.bottom < a.bottom {
                assert(is_run(walls, width, a.bottom - 1, b.plate()));
            }
            if a.top < b.top {
                assert(is_run(walls, width, a.top + 1, b.plate()));
            }
            if b.top < a.top {
                assert(is_run(walls, width, b.top + 1, a.plate()));
            }
            assert(a == b);
        }
    }
}

/// Horizontal maximality: each row of each rectangle is exactly one of the
/// plates of that row, so it cannot be widened to either side without
/// taking in a cell that is not a wall or leaving the grid.
pub proof fn lemma_rows_are_plates(
    walls: Set<(int, int)>,
    width: int,
    height: int,
    rects: Seq<WallRect>,
    r: WallRect,
    y: int,
    row: Seq<Plate>,
)
    requires
        is_wall_rects(walls, width, height, rects),
        rects.contains(r),
        r.bottom <= y <= r.top,
        is_row_plates(walls, width, y, row),
    ensures
        row.contains(r.plate()),
        r.left == 0 || !walls.contains((r.left - 1, y)),
        r.right == width - 1 || !walls.contains((r.right + 1, y)),
{
    assert(is_run(walls, width, y, r.plate()));
    lemma_row_plates_contain(walls, width, y, row, r.plate());
}

/// Idempotence: any two results for the same walls and grid hold the same
/// rectangles, whatever their order.
pub proof fn lemma_same_rects(walls: Set<(int, int)>, width: int, height: int, a: Seq<WallRect>, b: Seq<WallRect>)
    requires
        is_wall_rects(walls, width, height, a),
        is_wall_rects(walls, width, height, b),
    ensures
        a.to_set() == b.to_set(),
{
    assert(a.to_set() =~= b.to_set());
}

/// A run of walls that reaches the rightmost column ends in a plate whose
/// right bound is that column.
pub proof fn lemma_right_edge_closes(walls: Set<(int, int)>, width: int, y: int, row: Seq<Plate>)
    requires
        0 < width,
        is_row_plates(walls, width, y, row),
        walls.contains((width - 1, y)),
    ensures
        exists|i: int| 0 <= i < row.len() && (#[trigger] row[i]).right == width - 1,
{
    let i = choose|i: int| #![trigger row[i]] 0 <= i < row.len() && row[i].left <= width - 1 <= row[i].right;
    assert(is_run(walls, width, y, row[i]));
}

/// A wall cell of the topmost row lies in a rectangle that ends on that row,
/// and one of the bottom row in a rectangle that starts on it.
pub proof fn lemma_edge_rows_close(walls: Set<(int, int)>, width: int, height: int, rects: Seq<WallRect>, x: int)
    requires
        width <= i32::MAX,
        height <= i32::MAX,
        0 < height,
        0 <= x < width,
        is_wall_rects(walls, width, height, rects),
    ensures
        walls.contains((x, height - 1)) ==> exists|i: int|
            0 <= i < rects.len() && (#[trigger] rects[i]).covers(x, height - 1) && rects[i].top == height - 1,
        walls.contains((x, 0)) ==> exists|i: int|
            0 <= i < rects.len() && (#[trigger] rects[i]).covers(x, 0) && rects[i].bottom == 0,
{
    if walls.contains((x, height - 1)) {
        lemma_wall_covered(walls, width, height, rects, x, height - 1);
        let i = choose|i: int| 0 <= i < rects.len() && (#[trigger] rects[i]).covers(x, height - 1);
        assert(rects.contains(rects[i]));
    }
    if walls.contains((x, 0)) {
        lemma_wall_covered(walls, width, height, rects, x, 0);
        let i = choose|i: int| 0 <= i < rects.len() && (#[trigger] rects[i]).covers(x, 0);
        assert(rects.contains(rects[i]));
    }
}

} // verus!
