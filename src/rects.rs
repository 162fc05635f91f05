use vstd::prelude::*;

use crate::grid::{Plate, WallRect};

verus! {

/// The plates of row `y` of a stack, and no plates for any row outside it.
pub open spec fn row_at(stack: Seq<Vec<Plate>>, y: int) -> Seq<Plate> {
    if 0 <= y < stack.len() {
        stack[y]@
    } else {
        Seq::empty()
    }
}

/// Whether row `y` of the stack holds the plate `p`.
pub open spec fn row_has(stack: Seq<Vec<Plate>>, y: int, p: Plate) -> bool {
    row_at(stack, y).contains(p)
}

/// Whether no row of the stack lists a plate twice.
pub open spec fn rows_distinct(stack: Seq<Vec<Plate>>) -> bool {
    forall|y: int| 0 <= y < stack.len() ==> (#[trigger] stack[y])@.no_duplicates()
}

/// Whether every row from `bottom` to `top` holds the plate `p`.
pub open spec fn rows_hold(stack: Seq<Vec<Plate>>, p: Plate, bottom: int, top: int) -> bool {
    forall|y: int| bottom <= y <= top ==> #[trigger] row_has(stack, y, p)
}

/// Whether `r` is a rectangle that stacks rows `bottom..=top` up to row `y`,
/// where its plate appears in every one of those rows and not in the row
/// just below.
pub open spec fn is_open_rect(stack: Seq<Vec<Plate>>, r: WallRect, y: int) -> bool {
    &&& r.top == y
    &&& 0 <= r.bottom <= r.top
    &&& rows_hold(stack, r.plate(), r.bottom as int, r.top as int)
    &&& !row_has(stack, r.bottom - 1, r.plate())
}

/// Whether `r` is a maximal vertical stack of one plate: the plate appears in
/// every row from `r.bottom` to `r.top`, and in neither the row below nor the
/// row above.
pub open spec fn is_stacked_rect(stack: Seq<Vec<Plate>>, r: WallRect) -> bool {
    &&& r.top < stack.len()
    &&& is_open_rect(stack, r, r.top as int)
    &&& !row_has(stack, r.top + 1, r.plate())
}

/// Two stacks of the same plate that end on the same row start on the same row.
pub proof fn lemma_same_bottom(stack: Seq<Vec<Plate>>, p: Plate, b1: int, b2: int, t: int)
    requires
        b1 <= t,
        b2 <= t,
        rows_hold(stack, p, b1, t),
        rows_hold(stack, p, b2, t),
        !row_has(stack, b1 - 1, p),
        !row_has(stack, b2 - 1, p),
    ensures
        b1 == b2,
{
    if b1 < b2 {
        assert(row_has(stack, b2 - 1, p));
    }
    if b2 < b1 {
        assert(row_has(stack, b1 - 1, p));
    }
}

/// The index of the rectangle whose plate is `p`, if there is one.
fn find_rect(rects: &Vec<WallRect>, p: Plate) -> (r: Option<usize>)
    ensures
        match r {
            Some(k) => k < rects.len() && rects@[k as int].plate() == p,
            None => forall|k: int| 0 <= k < rects.len() ==> (#[trigger] rects@[k]).plate() != p,
        },
{
    let mut k: usize = 0;
    while k < rects.len()
        invariant
            k <= rects.len(),
            forall|m: int| 0 <= m < k ==> (#[trigger] rects@[m]).plate() != p,
        decreases rects.len() - k,
    {
        if rects[k].left == p.left && rects[k].right == p.right {
            return Some(k);
        }
        k = k + 1;
    }
    None
}

/// Whether `plates` lists `p`.
fn has_plate(plates: &Vec<Plate>, p: Plate) -> (r: bool)
    ensures
        r == plates@.contains(p),
{
    let mut k: usize = 0;
    while k < plates.len()
        invariant
            k <= plates.len(),
            forall|m: int| 0 <= m < k ==> #[trigger] plates@[m] != p,
        decreases plates.len() - k,
    {
        if plates[k] == p {
            return true;
        }
        k = k + 1;
    }
    false
}

/// Merges a stack of plate rows (row index = position in the stack) into
/// rectangles: each run of consecutive rows that all hold the same plate
/// becomes one rectangle. A plate is identified by its two bounds alone,
/// and plates of different extent are never merged.
pub fn merge_plates(stack: &Vec<Vec<Plate>>) -> (rects: Vec<WallRect>)
    requires
        stack.len() < i32::MAX,
        rows_distinct(stack@),
    ensures
        forall|r: WallRect| rects@.contains(r) <==> is_stacked_rect(stack@, r),
        rects@.no_duplicates(),
{
    let n = stack.len();
    let no_plates: Vec<Plate> = Vec::new();
    let mut rects: Vec<WallRect> = Vec::new();
    let mut previous: Vec<WallRect> = Vec::new();
    let mut y: usize = 0;
    // one pass more than there are rows: the empty row past the last one
    // closes every rectangle that reaches the top
    while y <= n
        invariant
            n == stack.len(),
            n < i32::MAX,
            no_plates@ == Seq::<Plate>::empty(),
            rows_distinct(stack@),
            y <= n + 1,
            previous.len() == row_at(stack@, y - 1).len(),
            forall|i: int|
                0 <= i < previous.len() ==> is_open_rect(stack@, #[trigger] previous@[i], y - 1)
                    && previous@[i].plate() == row_at(stack@, y - 1)[i],
            forall|r: WallRect|
                #![trigger rects@.contains(r)]
                #![trigger is_stacked_rect(stack@, r)]
                rects@.contains(r) <==> (is_stacked_rect(stack@, r) && r.top < y - 1),
            rects@.no_duplicates(),
        decreases n + 1 - y,
    {
        let row: &Vec<Plate> = if y < n {
            &stack[y]
        } else {
            &no_plates
        };
        assert(row@ == row_at(stack@, y as int));

        // rectangles whose plate does not recur in this row are finished
        let mut i: usize = 0;
        while i < previous.len()
            invariant
                n == stack.len(),
                n < i32::MAX,
                rows_distinct(stack@),
                y <= n,
                row@ == row_at(stack@, y as int),
                i <= previous.len(),
                previous.len() == row_at(stack@, y - 1).len(),
                forall|k: int|
                    0 <= k < previous.len() ==> is_open_rect(stack@, #[trigger] previous@[k], y - 1)
                        && previous@[k].plate() == row_at(stack@, y - 1)[k],
                forall|r: WallRect|
                    #![trigger rects@.contains(r)]
                    rects@.contains(r) <==> ((is_stacked_rect(stack@, r) && r.top < y - 1) || exists|k: int|
                        #![trigger previous@[k]]
                        0 <= k < i && r == previous@[k] && !row_has(stack@, y as int, previous@[k].plate())),
                rects@.no_duplicates(),
            decreases previous.len() - i,
        {
            let done = previous[i];
            if !has_plate(row, Plate { left: done.left, right: done.right }) {
                proof {
                    if rects@.contains(done) {
                        let k = choose|k: int|
                            #![trigger previous@[k]]
                            0 <= k < i && done == previous@[k] && !row_has(stack@, y as int, previous@[k].plate());
                        assert(row_at(stack@, y - 1)[k] == row_at(stack@, y - 1)[i as int]);
                        assert(stack@[y - 1]@.no_duplicates());
                    }
                }
                let ghost before = rects@;
                rects.push(done);
                proof {
                    assert forall|r: WallRect|
                        #![trigger rects@.contains(r)]
                        rects@.contains(r) <==> ((is_stacked_rect(stack@, r) && r.top < y - 1) || exists|k: int|
                            #![trigger previous@[k]]
                            0 <= k < i + 1 && r == previous@[k] && !row_has(stack@, y as int, previous@[k].plate())) by {
                        if r == done {
                            assert(previous@[i as int] == done);
                            assert(rects@[before.len() as int] == done);
                        }
                        if before.contains(r) {
                            let m = before.index_of(r);
                            assert(rects@[m] == r);
                        }
                        if rects@.contains(r) && r != done {
                            let m = rects@.index_of(r);
                            assert(before[m] == r);
                        }
                    }
                }
            }
            i = i + 1;
        }
        proof {
            assert forall|r: WallRect|
                #![trigger rects@.contains(r)]
                rects@.contains(r) <==> (is_stacked_rect(stack@, r) && r.top < y) by {
                if is_stacked_rect(stack@, r) && r.top == y - 1 {
                    let k = row_at(stack@, y - 1).index_of(r.plate());
                    assert(row_has(stack@, y - 1, r.plate()));
                    assert(previous@[k].plate() == r.plate());
                    lemma_same_bottom(stack@, r.plate(), r.bottom as int, previous@[k].bottom as int, y - 1);
                    assert(r == previous@[k]);
                }
            }
        }

        // each plate of this row extends the rectangle of the row below, or
        // starts a new one
        let mut current: Vec<WallRect> = Vec::new();
        let mut j: usize = 0;
        while j < row.len()
            invariant
                n == stack.len(),
                n < i32::MAX,
                y <= n,
                row@ == row_at(stack@, y as int),
                j <= row.len(),
                current.len() == j,
                previous.len() == row_at(stack@, y - 1).len(),
                forall|k: int|
                    0 <= k < previous.len() ==> is_open_rect(stack@, #[trigger] previous@[k], y - 1)
                        && previous@[k].plate() == row_at(stack@, y - 1)[k],
                forall|m: int|
                    0 <= m < j ==> is_open_rect(stack@, #[trigger] current@[m], y as int)
                        && current@[m].plate() == row@[m],
            decreases row.len() - j,
        {
            let p = row[j];
            assert(row_has(stack@, y as int, p));
            match find_rect(&previous, p) {
                Some(k) => {
                    let below = previous[k];
                    current.push(WallRect { left: below.left, right: below.right, top: below.top + 1, bottom: below.bottom });
                },
                None => {
                    proof {
                        if row_has(stack@, y - 1, p) {
                            let k = row_at(stack@, y - 1).index_of(p);
                            assert(previous@[k].plate() == p);
                        }
                    }
                    current.push(WallRect { left: p.left, right: p.right, top: y as i32, bottom: y as i32 });
                },
            }
            j = j + 1;
        }
        previous = current;
        y = y + 1;
    }
    rects
}

} // verus!
