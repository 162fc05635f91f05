use std::collections::HashMap;
use std::collections::HashSet;
use vstd::prelude::*;

verus! {

/// A horizontal run of wall cells in one row, as an inclusive column interval.
/// Two plates are the same plate exactly when both bounds match.
#[derive(Clone, Copy, Debug, PartialEq, Eq, Hash, Structural)]
pub struct Plate {
    pub left: i32,
    pub right: i32,
}

/// A rectangle of wall cells in grid units, all four bounds inclusive.
/// `bottom` is the lowest row index and `top` the highest.
#[derive(Clone, Copy, Debug, PartialEq, Eq, Hash, Structural)]
pub struct WallRect {
    pub left: i32,
    pub right: i32,
    pub top: i32,
    pub bottom: i32,
}

impl WallRect {
    /// The column interval of this rectangle, as a plate.
    pub open spec fn plate(self) -> Plate {
        Plate { left: self.left, right: self.right }
    }

    /// Whether the cell `(x, y)` lies inside this rectangle.
    pub open spec fn covers(self, x: int, y: int) -> bool {
        self.left <= x <= self.right && self.bottom <= y <= self.top
    }
}

/// The set of wall cells of one level, keyed by grid coordinate `(x, y)`.
pub struct WallSet {
    rows: HashMap<i32, HashSet<i32>>,
}

impl WallSet {
    /// Whether the set holds the cell `(x, y)`.
    pub closed spec fn has(self, x: int, y: int) -> bool {
        &&& i32::MIN <= x <= i32::MAX
        &&& i32::MIN <= y <= i32::MAX
        &&& self.rows@.contains_key(y as i32)
        &&& self.rows@[y as i32]@.contains(x as i32)
    }
}

impl View for WallSet {
    type V = Set<(int, int)>;

    closed spec fn view(&self) -> Set<(int, int)> {
        Set::new(|c: (int, int)| self.has(c.0, c.1))
    }
}

impl WallSet {
    /// An empty set of walls.
    pub fn new() -> (r: WallSet)
        ensures
            r@ == Set::<(int, int)>::empty(),
    {
        let r = WallSet { rows: HashMap::new() };
        assert(r@ =~= Set::<(int, int)>::empty());
        r
    }

    /// Adds the cell `(x, y)`.
    pub fn insert(&mut self, x: i32, y: i32)
        ensures
            final(self)@ == old(self)@.insert((x as int, y as int)),
    {
        let mut row = match self.rows.remove(&y) {
            Some(row) => row,
            None => HashSet::new(),
        };
        row.insert(x);
        self.rows.insert(y, row);
        assert(self@ =~= old(self)@.insert((x as int, y as int)));
    }

    /// Whether the cell `(x, y)` is a wall.
    pub fn contains(&self, x: i32, y: i32) -> (r: bool)
        ensures
            r == self@.contains((x as int, y as int)),
    {
        match self.rows.get(&y) {
            Some(row) => row.contains(&x),
            None => false,
        }
    }
}

/// Whether the cell `(x, y)` lies inside a grid of `width` by `height` cells.
pub open spec fn in_grid(width: int, height: int, x: int, y: int) -> bool {
    0 <= x < width && 0 <= y < height
}

/// Whether the columns of `p` in row `y` form a maximal run of wall
/// cells inside a grid `width` cells wide: every cell of the interval is a
/// wall, and the cells just outside it are not (or lie past the grid's edge).
pub open spec fn is_run(walls: Set<(int, int)>, width: int, y: int, p: Plate) -> bool {
    &&& 0 <= p.left <= p.right < width
    &&& forall|x: int| p.left <= x <= p.right ==> #[trigger] walls.contains((x, y))
    &&& (p.left == 0 || !walls.contains((p.left - 1, y)))
    &&& (p.right == width - 1 || !walls.contains((p.right + 1, y)))
}

/// Two maximal runs of one row that share a cell are the same run.
pub proof fn lemma_runs_meet(
    walls: Set<(int, int)>,
    width: int,
    y: int,
    p1: Plate,
    p2: Plate,
    x: int,
)
    requires
        is_run(walls, width, y, p1),
        is_run(walls, width, y, p2),
        p1.left <= x <= p1.right,
        p2.left <= x <= p2.right,
    ensures
        p1 == p2,
{
    let (l1, r1, l2, r2) = (p1.left as int, p1.right as int, p2.left as int, p2.right as int);
    if l1 < l2 {
        assert(walls.contains((l2 - 1, y)));
    }
    if l2 < l1 {
        assert(walls.contains((l1 - 1, y)));
    }
    if r1 < r2 {
        assert(walls.contains((r1 + 1, y)));
    }
    if r2 < r1 {
        assert(walls.contains((r2 + 1, y)));
    }
}

} // verus!
