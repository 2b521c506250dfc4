use battle_arena::actions::Action;
use battle_arena::hex::HexCoord;
use battle_arena::movement::{is_occupied, resolve_movement};
use battle_arena::units::{HexPosition, Team, Unit, UnitEntry, UnitType};

fn unit(id: u32, team: Team, q: i32, r: i32) -> UnitEntry {
    UnitEntry {
        id,
        unit: Unit { team, unit_type: UnitType::Fighter, health: 100, max_health: 100 },
        pos: HexPosition { coord: HexCoord { q, r } },
    }
}

fn coords(units: &[UnitEntry]) -> Vec<(i32, i32)> {
    units.iter().map(|u| (u.pos.coord.q, u.pos.coord.r)).collect()
}

#[test]
fn first_claimant_wins_contested_hex() {
    let mut units = vec![unit(0, Team::Red, 0, -1), unit(1, Team::Blue, 1, 0)];
    let actions = vec![Action::Move(0, 1), Action::Move(-1, 0)];
    resolve_movement(&mut units, &actions, 20, 15);
    assert_eq!(coords(&units), vec![(0, 0), (1, 0)]);
}

#[test]
fn contested_hex_order_reversed() {
    let mut units = vec![unit(1, Team::Blue, 1, 0), unit(0, Team::Red, 0, -1)];
    let actions = vec![Action::Move(-1, 0), Action::Move(0, 1)];
    resolve_movement(&mut units, &actions, 20, 15);
    assert_eq!(coords(&units), vec![(0, 0), (0, -1)]);
}

#[test]
fn vacated_hex_can_be_taken_later_in_the_turn() {
    let mut units = vec![unit(0, Team::Red, 0, 0), unit(1, Team::Red, 1, 0)];
    let actions = vec![Action::Move(-1, 0), Action::Move(-1, 0)];
    resolve_movement(&mut units, &actions, 20, 15);
    assert_eq!(coords(&units), vec![(-1, 0), (0, 0)]);
}

#[test]
fn hex_vacated_later_is_not_available_earlier() {
    let mut units = vec![unit(0, Team::Red, 1, 0), unit(1, Team::Red, 0, 0)];
    let actions = vec![Action::Move(-1, 0), Action::Move(-1, 0)];
    resolve_movement(&mut units, &actions, 20, 15);
    assert_eq!(coords(&units), vec![(1, 0), (-1, 0)]);
}

#[test]
fn invalid_delta_is_treated_as_stay() {
    let mut units = vec![unit(0, Team::Red, 0, 0)];
    for a in [Action::Move(2, 0), Action::Move(1, 1), Action::Move(0, 0), Action::Move(-3, 7)] {
        resolve_movement(&mut units, &vec![a], 20, 15);
        assert_eq!(coords(&units), vec![(0, 0)]);
    }
}

#[test]
fn moves_must_stay_strictly_inside_map() {
    // width 20 admits |q| < 10, height 15 admits |r| < 7
    let mut units = vec![unit(0, Team::Red, 9, 0), unit(1, Team::Red, 0, -6), unit(2, Team::Red, 8, 0)];
    let actions = vec![Action::Move(1, 0), Action::Move(0, -1), Action::Move(1, 0)];
    resolve_movement(&mut units, &actions, 20, 15);
    assert_eq!(coords(&units), vec![(9, 0), (0, -6), (8, 0)]);
}

#[test]
fn move_inside_map_succeeds() {
    let mut units = vec![unit(0, Team::Red, 8, 0)];
    resolve_movement(&mut units, &vec![Action::Move(1, -1)], 20, 15);
    assert_eq!(coords(&units), vec![(9, -1)]);
}

#[test]
fn nonpositive_map_admits_no_move() {
    let mut units = vec![unit(0, Team::Red, 0, 0)];
    resolve_movement(&mut units, &vec![Action::Move(1, 0)], 0, 15);
    assert_eq!(coords(&units), vec![(0, 0)]);
    resolve_movement(&mut units, &vec![Action::Move(1, 0)], -20, 15);
    assert_eq!(coords(&units), vec![(0, 0)]);
}

#[test]
fn stay_keeps_position_and_state() {
    let mut units = vec![unit(7, Team::Blue, 3, 3)];
    resolve_movement(&mut units, &vec![Action::Stay], 20, 15);
    assert_eq!(units[0], unit(7, Team::Blue, 3, 3));
}

#[test]
fn occupancy_lookup() {
    let units = vec![unit(0, Team::Red, 1, 2), unit(1, Team::Blue, -3, 4)];
    assert!(is_occupied(&units, 1, 2));
    assert!(is_occupied(&units, -3, 4));
    assert!(!is_occupied(&units, 2, 1));
}

#[test]
fn no_shared_hex_after_crowded_movement() {
    let mut units = Vec::new();
    for i in 0..9 {
        units.push(unit(i, if i % 2 == 0 { Team::Red } else { Team::Blue }, (i as i32) % 3, (i as i32) / 3));
    }
    let actions: Vec<Action> = (0..9).map(|i| match i % 3 { 0 => Action::Move(1, 0), 1 => Action::Move(-1, 0), _ => Action::Move(0, 1) }).collect();
    resolve_movement(&mut units, &actions, 20, 15);
    let c = coords(&units);
    for a in 0..c.len() {
        for b in 0..c.len() {
            if a != b {
                assert_ne!(c[a], c[b]);
            }
        }
    }
}
