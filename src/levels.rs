use std::collections::HashMap;
use vstd::prelude::*;

use crate::grid::WallSet;

verus! {

/// A newly added wall tile: its grid coordinate and the level that owns it,
/// if its chain of owners led to one.
#[derive(Clone, Copy, Debug, PartialEq, Eq, Structural)]
pub struct WallTile {
    pub level: Option<u64>,
    pub x: i32,
    pub y: i32,
}

/// Whether some tile of `tiles` belongs to `level`.
pub open spec fn has_level(tiles: Seq<WallTile>, level: u64) -> bool {
    exists|i: int| 0 <= i < tiles.len() && (#[trigger] tiles[i]).level == Some(level)
}

/// The coordinates of the tiles of `tiles` that belong to `level`.
pub open spec fn level_walls(tiles: Seq<WallTile>, level: u64) -> Set<(int, int)> {
    Set::new(
        |c: (int, int)|
            exists|i: int|
                0 <= i < tiles.len() && (#[trigger] tiles[i]).level == Some(level) && c == (
                    tiles[i].x as int,
                    tiles[i].y as int,
                ),
    )
}

/// Whether `groups` maps each level that owns a tile of `tiles` to the
/// walls of that level, and holds no other level.
pub open spec fn is_grouping(tiles: Seq<WallTile>, groups: Map<u64, WallSet>) -> bool {
    &&& forall|l: u64| #[trigger] groups.contains_key(l) <==> has_level(tiles, l)
    &&& forall|l: u64| #[trigger] groups.contains_key(l) ==> groups[l]@ == level_walls(tiles, l)
}

/// Groups wall tiles by the level that owns them. A tile whose level is
/// unknown is left out.
pub fn group_by_level(tiles: &Vec<WallTile>) -> (groups: HashMap<u64, WallSet>)
    ensures
        is_grouping(tiles@, groups@),
{
    let mut groups: HashMap<u64, WallSet> = HashMap::new();
    let mut k: usize = 0;
    while k < tiles.len()
        invariant
            k <= tiles.len(),
            is_grouping(tiles@.take(k as int), groups@),
        decreases tiles.len() - k,
    {
        let tile = tiles[k];
        let ghost seen = tiles@.take(k as int);
        let ghost next = tiles@.take(k + 1);
        assert(next == seen.push(tile));
        match tile.level {
            Some(level) => {
                let mut walls = match groups.remove(&level) {
                    Some(walls) => walls,
                    None => WallSet::new(),
                };
                walls.insert(tile.x, tile.y);
                groups.insert(level, walls);
                assert forall|l: u64| #[trigger] groups@.contains_key(l) <==> has_level(next, l) by {
                    if l == level {
                        assert(next[k as int] == tile);
                    } else if has_level(next, l) {
                        let i = choose|i: int| 0 <= i < next.len() && (#[trigger] next[i]).level == Some(l);
                        assert(seen[i] == next[i]);
                    }
                    if has_level(seen, l) {
                        let i = choose|i: int| 0 <= i < seen.len() && (#[trigger] seen[i]).level == Some(l);
                        assert(seen[i] == next[i]);
                    }
                }
                assert forall|l: u64| #[trigger] groups@.contains_key(l) implies groups@[l]@ == level_walls(next, l) by {
                    assert forall|c: (int, int)| level_walls(next, l).contains(c) implies #[trigger] groups@[l]@.contains(c) by {
                        let i = choose|i: int|
                            0 <= i < next.len() && (#[trigger] next[i]).level == Some(l) && c == (next[i].x as int, next[i].y as int);
                        if i < k {
                            assert(seen[i] == next[i]);
                            assert(level_walls(seen, l).contains(c));
                        }
                    }
                    assert forall|c: (int, int)| #[trigger] groups@[l]@.contains(c) implies level_walls(next, l).contains(c) by {
                        if l == level && c == (tile.x as int, tile.y as int) {
                            assert(next[k as int] == tile);
                        } else {
                            assert(level_walls(seen, l).contains(c));
                            let i = choose|i: int|
                                0 <= i < seen.len() && (#[trigger] seen[i]).level == Some(l) && c == (seen[i].x as int, seen[i].y as int);
                            assert(seen[i] == next[i]);
                        }
                    }
                    assert(groups@[l]@ =~= level_walls(next, l));
                }
            },
            None => {
                assert forall|l: u64| #[trigger] groups@.contains_key(l) <==> has_level(next, l) by {
                    if has_level(next, l) {
                        let i = choose|i: int| 0 <= i < next.len() && (#[trigger] next[i]).level == Some(l);
                        assert(seen[i] == next[i]);
                    }
                    if has_level(seen, l) {
                        let i = choose|i: int| 0 <= i < seen.len() && (#[trigger] seen[i]).level == Some(l);
                        assert(seen[i] == next[i]);
                    }
                }
                assert forall|l: u64| #[trigger] groups@.contains_key(l) implies groups@[l]@ == level_walls(next, l) by {
                    assert forall|c: (int, int)| level_walls(next, l).contains(c) implies #[trigger] groups@[l]@.contains(c) by {
                        let i = choose|i: int|
                            0 <= i < next.len() && (#[trigger] next[i]).level == Some(l) && c == (next[i].x as int, next[i].y as int);
                        assert(i < k);
                        assert(seen[i] == next[i]);
                        assert(level_walls(seen, l).contains(c));
                    }
                    assert forall|c: (int, int)| #[trigger] groups@[l]@.contains(c) implies level_walls(next, l).contains(c) by {
                        assert(level_walls(seen, l).contains(c));
                        let i = choose|i: int|
                            0 <= i < seen.len() && (#[trigger] seen[i]).level == Some(l) && c == (seen[i].x as int, seen[i].y as int);
                        assert(seen[i] == next[i]);
                    }
                    assert(groups@[l]@ =~= level_walls(next, l));
                }
            },
        }
        k = k + 1;
    }
    assert(tiles@.take(tiles.len() as int) == tiles@);
    groups
}

} // verus!
