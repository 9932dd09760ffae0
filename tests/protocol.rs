use battleship::board::render_row;
use battleship::grid::cell_index;
use battleship::protocol::OPENING_MOVE;
use battleship::{AttackResult, Board, Game, Mark, Phase, ProtocolError, Ship, Status};

/// Five ships along the left of rows 1 to 5: lengths 5, 4, 3, 3 and 2.
fn fleet_on_rows() -> Board {
    let mut ships: Vec<Ship> = Vec::new();
    for (row, len) in [(0u8, 5u8), (1, 4), (2, 3), (3, 3), (4, 2)] {
        let s = Ship::place(0, row, len, false, &ships).unwrap();
        ships.push(s);
    }
    Board::from_ships(ships).unwrap()
}

/// Five ships down columns 6 to 10: lengths 5, 4, 3, 3 from the top row,
/// and 2 ending in the bottom right corner.
fn fleet_on_columns() -> Board {
    let mut ships: Vec<Ship> = Vec::new();
    for (col, row, len) in [(5u8, 0u8, 5u8), (6, 0, 4), (7, 0, 3), (8, 0, 3), (9, 8, 2)] {
        let s = Ship::place(col, row, len, true, &ships).unwrap();
        ships.push(s);
    }
    Board::from_ships(ships).unwrap()
}

#[test]
fn board_needs_five_disjoint_ships() {
    let a = Ship::place(0, 0, 5, false, &Vec::new()).unwrap();
    assert!(Board::from_ships(vec![a]).is_none());
    let mut ships: Vec<Ship> = Vec::new();
    for row in 0..5u8 {
        ships.push(Ship::place(0, row, 2, false, &Vec::new()).unwrap());
    }
    ships[4] = Ship::place(1, 0, 2, true, &Vec::new()).unwrap();
    assert!(Board::from_ships(ships).is_none());
    let b = fleet_on_rows();
    assert!(b.pending_attack.is_none());
    assert!(b.your_attacks.iter().all(|m| *m == Mark::Unknown));
    assert!(b.enemy_attacks.iter().all(|m| *m == Mark::Unknown));
}

#[test]
fn attack_misses_open_water() {
    let mut b = fleet_on_rows();
    assert_eq!(b.attack(10, 10), AttackResult::Miss);
    assert_eq!(b.enemy_attacks[99], Mark::Unknown);
    assert!(b.ships.iter().all(|s| s.hits.iter().all(|h| !*h)));
}

#[test]
fn attack_hits_then_sinks() {
    let mut b = fleet_on_rows();
    assert_eq!(b.attack(1, 3), AttackResult::Hit);
    assert_eq!(b.enemy_attacks[20], Mark::Hit);
    assert_eq!(b.attack(2, 3), AttackResult::Hit);
    assert_eq!(b.attack(3, 3), AttackResult::Sunk);
    assert!(b.ships[2].sunk());
    assert!(!b.all_ships_sunk());
}

#[test]
fn second_attack_on_a_cell_does_not_count() {
    let mut b = fleet_on_rows();
    assert_eq!(b.attack(1, 5), AttackResult::Hit);
    assert_eq!(b.attack(1, 5), AttackResult::Miss);
    assert_eq!(b.attack(1, 5), AttackResult::Miss);
    assert!(!b.ships[4].sunk());
    assert_eq!(b.ships[4].hits, vec![true, false]);
    assert_eq!(b.attack(2, 5), AttackResult::Sunk);
}

#[test]
fn ship_sinks_on_its_last_distinct_hit() {
    let mut b = fleet_on_rows();
    let order = [3u8, 1, 5, 2];
    for (n, x) in order.iter().enumerate() {
        assert_eq!(b.attack(*x, 1), AttackResult::Hit, "hit {}", n);
        assert!(!b.ships[0].sunk());
    }
    assert_eq!(b.attack(4, 1), AttackResult::Sunk);
    assert!(b.ships[0].sunk());
}

#[test]
fn last_ship_sunk_wins() {
    let mut b = fleet_on_rows();
    let lens = [5u8, 4, 3, 3, 2];
    let mut last = AttackResult::Miss;
    for (row, len) in lens.iter().enumerate() {
        for x in 1..=*len {
            last = b.attack(x, row as u8 + 1);
        }
        if row < 4 {
            assert_eq!(last, AttackResult::Sunk);
        }
    }
    assert_eq!(last, AttackResult::Win);
    assert!(b.all_ships_sunk());
}

#[test]
fn result_codes_on_the_wire() {
    assert_eq!(AttackResult::Miss.code(), 0);
    assert_eq!(AttackResult::Hit.code(), 1);
    assert_eq!(AttackResult::Sunk.code(), 2);
    assert_eq!(AttackResult::Win.code(), 3);
}

#[test]
fn make_move_refuses_repeats() {
    let mut b = fleet_on_rows();
    assert!(b.can_attack(4, 4));
    assert!(b.make_move(4, 4));
    assert_eq!(b.pending_attack, Some((4, 4)));
    assert!(!b.can_attack(4, 4));
    assert!(!b.make_move(4, 4));
    b.update_pending(Mark::Miss);
    assert_eq!(b.pending_attack, None);
    assert_eq!(b.your_attacks[cell_index(4, 4)], Mark::Miss);
    assert!(!b.can_attack(4, 4));
    assert!(!b.can_attack(0, 4));
    assert!(!b.can_attack(4, 11));
}

#[test]
fn grid_rows_render_marks() {
    let mut grid = [Mark::Unknown; 100];
    grid[20] = Mark::Hit;
    grid[29] = Mark::Miss;
    let row: String = render_row(&grid, 2).into_iter().collect();
    assert_eq!(row, "X........#");
    let row: String = render_row(&grid, 0).into_iter().collect();
    assert_eq!(row, "..........");
}

#[test]
fn corner_coordinate_maps_to_last_cell() {
    assert_eq!(cell_index(10, 10), 99);
    assert_eq!(cell_index(1, 1), 0);
    assert_eq!(cell_index(10, 1), 9);
    assert_eq!(cell_index(1, 10), 90);
}

#[test]
fn out_of_range_coordinates_are_refused_before_attack() {
    let mut g = Game::join(fleet_on_columns());
    g.receive_first_move(0).unwrap();
    g.receive_status(OPENING_MOVE).unwrap();
    assert_eq!(g.phase, Phase::AwaitingAttack);
    assert_eq!(g.receive_attack(0, 4), Err(ProtocolError::CoordinateOutOfRange(0, 4)));
    assert_eq!(g.receive_attack(11, 4), Err(ProtocolError::CoordinateOutOfRange(11, 4)));
    assert_eq!(g.receive_attack(4, 0), Err(ProtocolError::CoordinateOutOfRange(4, 0)));
    assert!(g.board.enemy_attacks.iter().all(|m| *m == Mark::Unknown));
    assert_eq!(g.phase, Phase::AwaitingAttack);
    assert_eq!(g.receive_attack(10, 10), Ok(AttackResult::Hit));
    assert_eq!(g.board.enemy_attacks[99], Mark::Hit);
    assert_eq!(g.phase, Phase::ChoosingAttack);
}

#[test]
fn malformed_status_byte_is_fatal() {
    let mut g = Game::join(fleet_on_rows());
    g.receive_first_move(1).unwrap();
    g.choose_attack(3, 3).unwrap();
    assert_eq!(g.receive_status(5), Err(ProtocolError::MalformedStatus(5)));
    assert_eq!(g.receive_status(200), Err(ProtocolError::MalformedStatus(200)));
    assert_eq!(g.phase, Phase::AwaitingStatus);
    assert_eq!(g.board.pending_attack, Some((3, 3)));
}

#[test]
fn status_out_of_turn_is_fatal() {
    let mut g = Game::join(fleet_on_rows());
    g.receive_first_move(0).unwrap();
    assert_eq!(g.receive_status(1), Err(ProtocolError::UnexpectedStatus(1)));
    let mut h = Game::join(fleet_on_rows());
    h.receive_first_move(1).unwrap();
    h.choose_attack(1, 1).unwrap();
    assert_eq!(h.receive_status(OPENING_MOVE), Err(ProtocolError::UnexpectedStatus(4)));
}

#[test]
fn malformed_first_move_flag_is_fatal() {
    let mut g = Game::join(fleet_on_rows());
    assert_eq!(g.receive_first_move(2), Err(ProtocolError::MalformedFirstMove(2)));
    assert_eq!(g.phase, Phase::AwaitingFirstMove);
}

#[test]
fn first_move_flag_one_makes_joiner_attack_first() {
    let (host, to_joiner) = Game::host(fleet_on_columns(), false);
    assert_eq!(to_joiner, vec![1]);
    assert_eq!(host.phase, Phase::AwaitingStatus);
    let mut joiner = Game::join(fleet_on_rows());
    let sent = joiner.receive_first_move(to_joiner[0]).unwrap();
    assert_eq!(sent, vec![OPENING_MOVE]);
    assert_eq!(joiner.phase, Phase::ChoosingAttack);
    let attack = joiner.choose_attack(6, 1).unwrap();
    assert_eq!(attack, vec![6, 1]);
    assert_eq!(joiner.phase, Phase::AwaitingStatus);
}

#[test]
fn host_moving_first_sends_marker_then_attack() {
    let (mut host, sent) = Game::host(fleet_on_columns(), true);
    assert_eq!(sent, vec![0, OPENING_MOVE]);
    assert_eq!(host.phase, Phase::ChoosingAttack);
    assert_eq!(host.choose_attack(2, 2), Some(vec![2, 2]));
    let mut joiner = Game::join(fleet_on_rows());
    assert_eq!(joiner.receive_first_move(sent[0]), Ok(vec![]));
    assert_eq!(joiner.phase, Phase::AwaitingStatus);
    joiner.receive_status(sent[1]).unwrap();
    assert_eq!(joiner.phase, Phase::AwaitingAttack);
}

#[test]
fn random_host_opening_is_one_of_two() {
    for _ in 0..20 {
        let (g, sent) = Game::host_random(fleet_on_rows());
        assert!(
            (sent == vec![0, OPENING_MOVE] && g.phase == Phase::ChoosingAttack)
                || (sent == vec![1] && g.phase == Phase::AwaitingStatus)
        );
    }
}

#[test]
fn choose_attack_refuses_cells_already_attacked() {
    let mut g = Game::join(fleet_on_rows());
    g.receive_first_move(1).unwrap();
    assert_eq!(g.choose_attack(0, 3), None);
    assert_eq!(g.choose_attack(3, 11), None);
    assert_eq!(g.choose_attack(3, 3), Some(vec![3, 3]));
    g.receive_status(0).unwrap();
    assert_eq!(g.board.your_attacks[cell_index(3, 3)], Mark::Miss);
    g.receive_attack(9, 9).unwrap();
    assert_eq!(g.choose_attack(3, 3), None);
    assert_eq!(g.phase, Phase::ChoosingAttack);
}

/// Lets one peer act on what it has received, if it can. Result bytes that
/// answer its own attacks go to `results`.
fn step(
    g: &mut Game,
    inbox: &mut Vec<u8>,
    outbox: &mut Vec<u8>,
    moves: &[(u8, u8)],
    next: &mut usize,
    results: &mut Vec<AttackResult>,
) -> bool {
    match g.phase {
        Phase::AwaitingFirstMove if !inbox.is_empty() => {
            let flag = inbox.remove(0);
            outbox.extend(g.receive_first_move(flag).unwrap());
            true
        }
        Phase::AwaitingStatus if !inbox.is_empty() => {
            let byte = inbox.remove(0);
            if byte != OPENING_MOVE {
                results.push(match byte {
                    0 => AttackResult::Miss,
                    1 => AttackResult::Hit,
                    2 => AttackResult::Sunk,
                    _ => AttackResult::Win,
                });
            }
            g.receive_status(byte).unwrap();
            true
        }
        Phase::AwaitingAttack if inbox.len() >= 2 => {
            let (x, y) = (inbox.remove(0), inbox.remove(0));
            let r = g.receive_attack(x, y).unwrap();
            outbox.push(r.code());
            true
        }
        Phase::ChoosingAttack if *next < moves.len() => {
            let (x, y) = moves[*next];
            *next += 1;
            outbox.extend(g.choose_attack(x, y).unwrap());
            true
        }
        _ => false,
    }
}

/// Runs the exchange between two peers in memory until neither can act.
/// `a_moves` and `b_moves` are the cells each peer attacks, in order;
/// returns the two final phases and the results that `b`'s attacks got.
fn play(
    mut a: Game,
    mut b: Game,
    a_opening: Vec<u8>,
    a_moves: &[(u8, u8)],
    b_moves: &[(u8, u8)],
) -> (Phase, Phase, Vec<AttackResult>) {
    let mut to_b: Vec<u8> = a_opening;
    let mut to_a: Vec<u8> = Vec::new();
    let (mut ai, mut bi) = (0, 0);
    let mut a_results = Vec::new();
    let mut b_results = Vec::new();
    loop {
        let pa = step(&mut a, &mut to_a, &mut to_b, a_moves, &mut ai, &mut a_results);
        let pb = step(&mut b, &mut to_b, &mut to_a, b_moves, &mut bi, &mut b_results);
        if !pa && !pb {
            break;
        }
    }
    (a.phase, b.phase, b_results)
}

#[test]
fn peers_sink_patrol_boat_with_hit_then_sunk() {
    // A hosts and moves first; B fires at A's patrol boat, cells 41 and 42.
    let (a, opening) = Game::host(fleet_on_rows(), true);
    let b = Game::join(fleet_on_columns());
    let a_moves = [(1, 10), (2, 10)];
    let b_moves = [(1, 5), (2, 5)];
    let (pa, pb, results) = play(a, b, opening, &a_moves, &b_moves);
    assert_eq!(results, vec![AttackResult::Hit, AttackResult::Sunk]);
    assert_eq!(pa, Phase::ChoosingAttack);
    assert_eq!(pb, Phase::AwaitingAttack);
}

#[test]
fn peers_agree_on_the_winner() {
    let (a, opening) = Game::host(fleet_on_rows(), false);
    let b = Game::join(fleet_on_columns());
    let mut b_moves = Vec::new();
    for (row, len) in [(1u8, 5u8), (2, 4), (3, 3), (4, 3), (5, 2)] {
        for x in 1..=len {
            b_moves.push((x, row));
        }
    }
    let a_moves: Vec<(u8, u8)> = (1..=10).flat_map(|y| [(1u8, y), (2u8, y)]).collect();
    let (pa, pb, results) = play(a, b, opening, &a_moves, &b_moves);
    assert_eq!(pa, Phase::Over(Status::Loss));
    assert_eq!(pb, Phase::Over(Status::Won));
    assert_eq!(results.last(), Some(&AttackResult::Win));
    assert_eq!(results.iter().filter(|r| **r == AttackResult::Sunk).count(), 4);
}
