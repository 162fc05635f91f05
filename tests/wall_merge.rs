use std::collections::HashSet;

use wall_colliders::collider::{collider_box, colliders_of, ColliderBox};
use wall_colliders::grid::{Plate, WallRect, WallSet};
use wall_colliders::levels::{group_by_level, WallTile};
use wall_colliders::pipeline::{level_colliders, plate_stack, wall_rects};
use wall_colliders::plates::row_plates;
use wall_colliders::play::{goal_side, key_direction, next_frame, ContactSide, LayerGroups};
use wall_colliders::rects::merge_plates;

fn walls_of(cells: &[(i32, i32)]) -> WallSet {
    let mut walls = WallSet::new();
    for &(x, y) in cells {
        walls.insert(x, y);
    }
    walls
}

fn rect(left: i32, right: i32, bottom: i32, top: i32) -> WallRect {
    WallRect { left, right, top, bottom }
}

fn as_set(rects: &[WallRect]) -> HashSet<WallRect> {
    rects.iter().copied().collect()
}

fn cells_of(rects: &[WallRect]) -> Vec<(i32, i32)> {
    let mut cells = Vec::new();
    for r in rects {
        for y in r.bottom..=r.top {
            for x in r.left..=r.right {
                cells.push((x, y));
            }
        }
    }
    cells.sort();
    cells
}

#[test]
fn block_of_four_is_one_rect() {
    let walls = walls_of(&[(0, 0), (1, 0), (0, 1), (1, 1)]);
    let rects = wall_rects(&walls, 2, 2);
    assert_eq!(rects, vec![rect(0, 1, 0, 1)]);
}

#[test]
fn gap_in_a_row_gives_two_cells() {
    let walls = walls_of(&[(0, 0), (2, 0)]);
    let rects = wall_rects(&walls, 3, 1);
    assert_eq!(rects.len(), 2);
    assert_eq!(as_set(&rects), as_set(&[rect(0, 0, 0, 0), rect(2, 2, 0, 0)]));
}

#[test]
fn vertical_pair_is_one_rect() {
    let walls = walls_of(&[(0, 0), (0, 1)]);
    let rects = wall_rects(&walls, 1, 2);
    assert_eq!(rects, vec![rect(0, 0, 0, 1)]);
}

#[test]
fn no_walls_no_rects() {
    let walls = WallSet::new();
    assert!(wall_rects(&walls, 4, 3).is_empty());
    assert!(wall_rects(&walls, 0, 0).is_empty());
}

#[test]
fn wall_set_insert_and_contains() {
    let mut walls = WallSet::new();
    assert!(!walls.contains(3, -2));
    walls.insert(3, -2);
    walls.insert(3, -2);
    walls.insert(4, -2);
    assert!(walls.contains(3, -2));
    assert!(walls.contains(4, -2));
    assert!(!walls.contains(-2, 3));
    assert!(!walls.contains(5, -2));
}

#[test]
fn row_plates_are_maximal_runs() {
    let walls = walls_of(&[(0, 0), (1, 0), (3, 0), (4, 0), (5, 0), (1, 1)]);
    let row = row_plates(&walls, 7, 0);
    assert_eq!(row, vec![Plate { left: 0, right: 1 }, Plate { left: 3, right: 5 }]);
    assert_eq!(row_plates(&walls, 7, 1), vec![Plate { left: 1, right: 1 }]);
    assert!(row_plates(&walls, 7, 2).is_empty());
}

#[test]
fn run_at_right_edge_closes() {
    let walls = walls_of(&[(2, 0), (3, 0)]);
    assert_eq!(row_plates(&walls, 4, 0), vec![Plate { left: 2, right: 3 }]);
    let rects = wall_rects(&walls, 4, 1);
    assert_eq!(rects, vec![rect(2, 3, 0, 0)]);
}

#[test]
fn cells_past_the_grid_are_ignored() {
    let walls = walls_of(&[(0, 0), (1, 0), (2, 0), (0, 5)]);
    assert_eq!(row_plates(&walls, 2, 0), vec![Plate { left: 0, right: 1 }]);
    assert_eq!(wall_rects(&walls, 2, 1), vec![rect(0, 1, 0, 0)]);
}

#[test]
fn rects_touching_top_and_bottom_rows_close() {
    let walls = walls_of(&[(1, 0), (1, 1), (1, 2), (0, 2)]);
    let rects = wall_rects(&walls, 3, 3);
    assert_eq!(as_set(&rects), as_set(&[rect(1, 1, 0, 1), rect(0, 1, 2, 2)]));
}

#[test]
fn different_extents_are_not_merged() {
    // an L shape: a larger rectangle would fit, but plates of different
    // extent stay apart
    let walls = walls_of(&[(0, 0), (1, 0), (0, 1)]);
    let rects = wall_rects(&walls, 2, 2);
    assert_eq!(as_set(&rects), as_set(&[rect(0, 1, 0, 0), rect(0, 0, 1, 1)]));
}

#[test]
fn plate_that_comes_back_starts_a_new_rect() {
    let walls = walls_of(&[(0, 0), (0, 2)]);
    let rects = wall_rects(&walls, 1, 3);
    assert_eq!(as_set(&rects), as_set(&[rect(0, 0, 0, 0), rect(0, 0, 2, 2)]));
}

#[test]
fn rects_cover_walls_once() {
    let cells = [
        (0, 0), (1, 0), (2, 0), (4, 0),
        (0, 1), (1, 1), (2, 1), (4, 1), (5, 1),
        (1, 2), (2, 2), (3, 2), (4, 2), (5, 2),
        (0, 3), (5, 3),
    ];
    let walls = walls_of(&cells);
    let rects = wall_rects(&walls, 6, 4);
    let mut expected: Vec<(i32, i32)> = cells.to_vec();
    expected.sort();
    // every wall cell once, nothing else: coverage and disjointness
    assert_eq!(cells_of(&rects), expected);
    // each row of a rectangle is a whole plate of that row
    for r in &rects {
        for y in r.bottom..=r.top {
            assert!(row_plates(&walls, 6, y).contains(&Plate { left: r.left, right: r.right }));
        }
    }
}

#[test]
fn same_walls_same_rects() {
    let walls = walls_of(&[(0, 0), (1, 0), (1, 1), (3, 1), (3, 2), (2, 2)]);
    let first = wall_rects(&walls, 4, 3);
    let second = wall_rects(&walls, 4, 3);
    assert_eq!(first.len(), second.len());
    assert_eq!(as_set(&first), as_set(&second));
}

#[test]
fn plate_stack_has_one_row_per_grid_row() {
    let walls = walls_of(&[(0, 0), (1, 1)]);
    let stack = plate_stack(&walls, 2, 3);
    assert_eq!(
        stack,
        vec![vec![Plate { left: 0, right: 0 }], vec![Plate { left: 1, right: 1 }], vec![]]
    );
}

#[test]
fn merge_plates_stacks_equal_plates() {
    let a = Plate { left: 0, right: 2 };
    let b = Plate { left: 4, right: 4 };
    let stack = vec![vec![a], vec![a, b], vec![b], vec![]];
    let rects = merge_plates(&stack);
    assert_eq!(as_set(&rects), as_set(&[rect(0, 2, 0, 1), rect(4, 4, 1, 2)]));
    assert!(merge_plates(&Vec::new()).is_empty());
}

#[test]
fn collider_box_of_block() {
    let b = collider_box(rect(0, 1, 0, 1), 16);
    assert_eq!(
        b,
        ColliderBox { twice_half_width: 32, twice_half_height: 32, twice_center_x: 32, twice_center_y: 32 }
    );
}

#[test]
fn collider_box_of_offset_strip() {
    // columns 2..=4 of row 3 with cells of 8 units: half-extents (12, 4),
    // center (28, 28)
    let b = collider_box(rect(2, 4, 3, 3), 8);
    assert_eq!(b.twice_half_width, 24);
    assert_eq!(b.twice_half_height, 8);
    assert_eq!(b.twice_center_x, 56);
    assert_eq!(b.twice_center_y, 56);
}

#[test]
fn colliders_follow_rect_order() {
    let rects = vec![rect(0, 0, 0, 0), rect(1, 3, 2, 5)];
    let boxes = colliders_of(&rects, 2);
    assert_eq!(boxes.len(), 2);
    assert_eq!(boxes[0], collider_box(rects[0], 2));
    assert_eq!(
        boxes[1],
        ColliderBox { twice_half_width: 6, twice_half_height: 8, twice_center_x: 10, twice_center_y: 16 }
    );
}

#[test]
fn level_colliders_of_block() {
    let walls = walls_of(&[(0, 0), (1, 0), (0, 1), (1, 1)]);
    let boxes = level_colliders(&walls, 2, 2, 16);
    assert_eq!(
        boxes,
        vec![ColliderBox { twice_half_width: 32, twice_half_height: 32, twice_center_x: 32, twice_center_y: 32 }]
    );
}

#[test]
fn tiles_grouped_by_level() {
    let tiles = vec![
        WallTile { level: Some(7), x: 0, y: 0 },
        WallTile { level: Some(9), x: 1, y: 1 },
        WallTile { level: None, x: 5, y: 5 },
        WallTile { level: Some(7), x: 1, y: 0 },
        WallTile { level: Some(7), x: 1, y: 0 },
    ];
    let groups = group_by_level(&tiles);
    assert_eq!(groups.len(), 2);
    let seven = groups.get(&7).unwrap();
    assert!(seven.contains(0, 0));
    assert!(seven.contains(1, 0));
    assert!(!seven.contains(1, 1));
    assert!(!seven.contains(5, 5));
    let nine = groups.get(&9).unwrap();
    assert!(nine.contains(1, 1));
    assert!(!nine.contains(0, 0));
    assert_eq!(wall_rects(seven, 2, 1), vec![rect(0, 1, 0, 0)]);
}

#[test]
fn no_tiles_no_levels() {
    assert!(group_by_level(&Vec::new()).is_empty());
}

#[test]
fn goal_reached_when_player_meets_goal() {
    let player = LayerGroups { player: true, win: false };
    let goal = LayerGroups { player: false, win: true };
    let both = LayerGroups { player: true, win: true };
    let none = LayerGroups { player: false, win: false };
    assert_eq!(goal_side(player, goal), Some(ContactSide::Second));
    assert_eq!(goal_side(goal, player), None);
    assert_eq!(goal_side(player, both), None);
    assert_eq!(goal_side(both, goal), None);
    assert_eq!(goal_side(player, none), None);
    assert_eq!(goal_side(none, none), None);
}

#[test]
fn frames_advance_wrap_and_reset() {
    assert_eq!(next_frame(0, 6, true, true), 1);
    assert_eq!(next_frame(5, 6, true, true), 0);
    assert_eq!(next_frame(3, 6, false, true), 3);
    assert_eq!(next_frame(3, 6, true, false), 0);
    assert_eq!(next_frame(3, 6, false, false), 0);
    assert_eq!(next_frame(0, 1, true, true), 0);
    assert_eq!(next_frame(usize::MAX, 4, true, true), 0);
}

#[test]
fn keys_give_direction() {
    assert_eq!(key_direction(false, false, false, false), (0, 0));
    assert_eq!(key_direction(true, false, false, false), (0, 1));
    assert_eq!(key_direction(false, true, false, false), (-1, 0));
    assert_eq!(key_direction(false, false, true, true), (1, -1));
    assert_eq!(key_direction(true, true, true, true), (0, 0));
}
