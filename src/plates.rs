use vstd::prelude::*;

use crate::grid::{is_run, lemma_runs_meet, Plate, WallSet};

verus! {

/// Whether `ps` lists the maximal runs of row `y`, each once, from left to
/// right: every entry is a maximal run, entries are ordered and apart, and
/// every wall cell of the row inside the grid lies in one of them.
pub open spec fn is_row_plates(walls: Set<(int, int)>, width: int, y: int, ps: Seq<Plate>) -> bool {
    &&& forall|i: int| 0 <= i < ps.len() ==> is_run(walls, width, y, #[trigger] ps[i])
    &&& forall|i: int, j: int| #![trigger ps[i], ps[j]] 0 <= i < j < ps.len() ==> ps[i].right + 1 < ps[j].left
    &&& forall|x: int|
        0 <= x < width && #[trigger] walls.contains((x, y)) ==> exists|i: int| #![trigger ps[i]]
            0 <= i < ps.len() && ps[i].left <= x <= ps[i].right
}

/// In a row's plate list, a plate appears exactly when it is a maximal run.
pub proof fn lemma_row_plates_contain(walls: Set<(int, int)>, width: int, y: int, ps: Seq<Plate>, p: Plate)
    requires
        is_row_plates(walls, width, y, ps),
    ensures
        ps.contains(p) <==> is_run(walls, width, y, p),
{
    if ps.contains(p) {
        let i = choose|i: int| #![trigger ps[i]] 0 <= i < ps.len() && ps[i] == p;
        assert(is_run(walls, width, y, ps[i]));
    }
    if is_run(walls, width, y, p) {
        let x = p.left as int;
        assert(walls.contains((x, y)));
        let i = choose|i: int| #![trigger ps[i]] 0 <= i < ps.len() && ps[i].left <= x <= ps[i].right;
        assert(is_run(walls, width, y, ps[i]));
        lemma_runs_meet(walls, width, y, ps[i], p, x);
        assert(ps[i] == p);
    }
}

/// The plates of row `y`: its maximal horizontal runs of wall cells inside a
/// grid `width` cells wide, from left to right. Column `width`, one past the
/// last, counts as open floor, so a run that reaches the right edge closes
/// there.
pub fn row_plates(walls: &WallSet, width: i32, y: i32) -> (plates: Vec<Plate>)
    requires
        0 <= width < i32::MAX,
    ensures
        is_row_plates(walls@, width as int, y as int, plates@),
{
    let mut plates: Vec<Plate> = Vec::new();
    let mut plate_start: Option<i32> = None;
    let mut x: i32 = 0;
    while x <= width
        invariant
            0 <= width < i32::MAX,
            0 <= x <= width + 1,
            forall|i: int| 0 <= i < plates.len() ==> is_run(walls@, width as int, y as int, #[trigger] plates[i]),
            forall|i: int, j: int| #![trigger plates[i], plates[j]] 0 <= i < j < plates.len() ==> plates[i].right + 1 < plates[j].left,
            forall|i: int| 0 <= i < plates.len() ==> #[trigger] plates[i].right < x,
            match plate_start {
                Some(s) => {
                    &&& 0 <= s < x
                    &&& x <= width
                    &&& forall|z: int| s <= z < x ==> #[trigger] walls@.contains((z, y as int))
                    &&& (s == 0 || !walls@.contains((s - 1, y as int)))
                    &&& forall|i: int| 0 <= i < plates.len() ==> #[trigger] plates[i].right + 1 < s
                },
                None => x == 0 || x - 1 == width || !walls@.contains((x - 1, y as int)),
            },
            forall|z: int|
                0 <= z < x && z < width && #[trigger] walls@.contains((z, y as int)) && (match plate_start {
                    Some(s) => z < s,
                    None => true,
                }) ==> exists|i: int| #![trigger plates[i]] 0 <= i < plates.len() && plates[i].left <= z <= plates[i].right,
        decreases width + 1 - x,
    {
        let is_wall = x < width && walls.contains(x, y);
        match plate_start {
            Some(s) => {
                if !is_wall {
                    let ghost old_plates = plates@;
                    plates.push(Plate { left: s, right: x - 1 });
                    plate_start = None;
                    assert forall|i: int| 0 <= i < plates.len() implies is_run(walls@, width as int, y as int, #[trigger] plates[i]) by {
                        if i < old_plates.len() {
                            assert(plates[i] == old_plates[i]);
                        }
                    }
                    assert forall|z: int|
                        0 <= z < x + 1 && z < width && #[trigger] walls@.contains((z, y as int)) implies exists|i: int| #![trigger plates[i]] 0 <= i < plates.len() && plates[i].left <= z <= plates[i].right by {
                        if z < s {
                            let i = choose|i: int| #![trigger old_plates[i]] 0 <= i < old_plates.len() && old_plates[i].left <= z <= old_plates[i].right;
                            assert(plates[i] == old_plates[i]);
                        } else {
                            assert(plates[plates.len() - 1].left <= z <= plates[plates.len() - 1].right);
                        }
                    }
                }
            },
            None => {
                if is_wall {
                    plate_start = Some(x);
                }
            },
        }
        x = x + 1;
    }
    plates
}

} // verus!
