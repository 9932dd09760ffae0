use battleship::grid::cell_index;
use battleship::{PlacementError, PlacementKey, PlacementSession, Shade, Ship, ShipPlacement};

#[test]
fn horizontal_ship_covers_a_row_run() {
    let s = Ship::create_with_pos_and_rotation(2, 3, 4, false).unwrap();
    assert_eq!(s.pos, vec![32, 33, 34, 35]);
    assert_eq!(s.hits, vec![false; 4]);
    assert!(!s.sunk());
}

#[test]
fn vertical_ship_covers_a_column_run() {
    let s = Ship::create_with_pos_and_rotation(9, 5, 5, true).unwrap();
    assert_eq!(s.pos, vec![59, 69, 79, 89, 99]);
}

#[test]
fn ship_leaving_the_grid_is_refused() {
    assert!(Ship::create_with_pos_and_rotation(6, 0, 5, false).is_none());
    assert!(Ship::create_with_pos_and_rotation(0, 6, 5, true).is_none());
    assert!(Ship::create_with_pos_and_rotation(10, 0, 1, false).is_none());
    assert!(Ship::create_with_pos_and_rotation(0, 10, 1, true).is_none());
    assert!(Ship::create_with_pos_and_rotation(5, 0, 5, false).is_some());
    assert!(Ship::create_with_pos_and_rotation(0, 5, 5, true).is_some());
}

#[test]
fn placed_ship_has_length_distinct_cells() {
    for len in 1u8..=5 {
        for down in [false, true] {
            let s = Ship::place(3, 4, len, down, &Vec::new()).unwrap();
            assert_eq!(s.pos.len(), len as usize);
            for i in 0..s.pos.len() {
                assert!(s.pos[i] < 100);
                let step = if down { 10 } else { 1 };
                assert_eq!(s.pos[i], 43 + i * step);
            }
        }
    }
}

#[test]
fn place_reports_out_of_bounds_before_overlap() {
    let a = Ship::place(0, 0, 5, false, &Vec::new()).unwrap();
    let placed = vec![a];
    assert_eq!(Ship::place(8, 0, 3, false, &placed).unwrap_err(), PlacementError::OutOfBounds);
    assert_eq!(Ship::place(0, 9, 2, true, &placed).unwrap_err(), PlacementError::OutOfBounds);
}

#[test]
fn overlap_is_refused_in_either_order() {
    let a = Ship::place(2, 2, 4, false, &Vec::new()).unwrap();
    let b = Ship::place(4, 0, 3, true, &Vec::new()).unwrap();
    assert!(a.intersects_ship(&b));
    assert!(b.intersects_ship(&a));
    assert_eq!(Ship::place(4, 0, 3, true, &vec![a]).unwrap_err(), PlacementError::Overlap);
    assert_eq!(Ship::place(2, 2, 4, false, &vec![b]).unwrap_err(), PlacementError::Overlap);
}

#[test]
fn ships_side_by_side_do_not_overlap() {
    let a = Ship::place(0, 0, 5, false, &Vec::new()).unwrap();
    let placed = vec![a];
    let b = Ship::place(0, 1, 5, false, &placed).unwrap();
    assert!(!placed[0].intersects_ship(&b));
}

#[test]
fn placement_validity_follows_orientation() {
    let p = ShipPlacement::new(3, [false; 100]);
    assert_eq!(p.pos, (0, 0));
    assert!(!p.rotated);
    assert!(p.valid(7, 9, false));
    assert!(!p.valid(8, 9, false));
    assert!(!p.valid(7, 10, false));
    assert!(p.valid(9, 7, true));
    assert!(!p.valid(9, 8, true));
    assert!(!p.valid(10, 7, true));
}

#[test]
fn inship_and_shade_follow_the_cursor_ship() {
    let mut occupied = [false; 100];
    occupied[cell_index(5, 5)] = true;
    let mut p = ShipPlacement::new(3, occupied);
    p.pos = (1, 2);
    assert!(p.inship(1, 2) && p.inship(3, 2));
    assert!(!p.inship(4, 2) && !p.inship(1, 3));
    assert_eq!(p.shade(1, 2), Shade::Origin);
    assert_eq!(p.shade(2, 2), Shade::Body);
    assert_eq!(p.shade(4, 4), Shade::Taken);
    assert_eq!(p.shade(0, 0), Shade::Plain);
    p.rotated = true;
    assert!(p.inship(1, 4) && !p.inship(2, 2));
}

#[test]
fn nudge_stays_within_the_grid() {
    let mut p = ShipPlacement::new(4, [false; 100]);
    p.nudge(PlacementKey::Up);
    p.nudge(PlacementKey::Left);
    assert_eq!(p.pos, (0, 0));
    for _ in 0..10 {
        p.nudge(PlacementKey::Right);
    }
    assert_eq!(p.pos, (6, 0));
    p.nudge(PlacementKey::Rotate);
    assert!(p.rotated);
    for _ in 0..10 {
        p.nudge(PlacementKey::Down);
    }
    assert_eq!(p.pos, (6, 6));
    p.nudge(PlacementKey::Rotate);
    assert!(!p.rotated);
    p.nudge(PlacementKey::Down);
    assert_eq!(p.pos, (6, 7));
}

#[test]
fn create_ship_marks_its_cells() {
    let mut grid = [false; 100];
    let mut p = ShipPlacement::new(3, grid);
    p.pos = (2, 1);
    p.rotated = true;
    let s = p.create_ship(&mut grid).unwrap();
    assert_eq!(s.pos, vec![12, 22, 32]);
    assert!(grid[12] && grid[22] && grid[32]);
    assert_eq!(grid.iter().filter(|c| **c).count(), 3);
    let mut q = ShipPlacement::new(2, grid);
    q.pos = (1, 2);
    let before = grid;
    assert!(q.create_ship(&mut grid).is_none());
    assert_eq!(grid, before);
}

#[test]
fn session_places_a_whole_fleet() {
    let mut session = PlacementSession::new();
    let lengths: Vec<usize> = session.placements.iter().map(|p| p.length).collect();
    assert_eq!(lengths, vec![2, 3, 3, 4, 5]);
    // Carrier along the top row.
    assert!(session.handle_key(PlacementKey::Confirm));
    // Battleship on the same spot is refused, then moved down a row.
    assert!(!session.handle_key(PlacementKey::Confirm));
    assert_eq!(session.ships.len(), 1);
    assert!(!session.handle_key(PlacementKey::Down));
    assert!(session.handle_key(PlacementKey::Confirm));
    for row in 2..5 {
        for _ in 0..row {
            session.handle_key(PlacementKey::Down);
        }
        assert!(session.handle_key(PlacementKey::Confirm));
    }
    assert!(session.is_complete());
    let board = session.into_board();
    assert_eq!(board.ships.len(), 5);
    assert_eq!(board.ships[4].pos, vec![40, 41]);
    assert_eq!(board.ships[0].pos, vec![0, 1, 2, 3, 4]);
}
