use battle_arena::actions::Action;
use battle_arena::ai::{
    best_step_toward, choose_action, hex_directions, nearest_enemy, position_in, take_snapshot,
    AITeam, AiController, RandomAi, WorldSnapshot,
};
use battle_arena::hex::{is_hex_step, HexCoord};
use battle_arena::units::{HexPosition, Team, Unit, UnitEntry, UnitType};

fn c(q: i32, r: i32) -> HexCoord {
    HexCoord { q, r }
}

fn snapshot(rows: &[(u32, Team, i32, i32)]) -> WorldSnapshot {
    WorldSnapshot { units: rows.iter().map(|&(id, t, q, r)| (id, t, c(q, r))).collect() }
}

fn fighter(team: Team) -> Unit {
    Unit { team, unit_type: UnitType::Fighter, health: 100, max_health: 100 }
}

#[test]
fn snapshot_lists_units_in_order() {
    let units = vec![
        UnitEntry { id: 3, unit: fighter(Team::Red), pos: HexPosition { coord: c(1, 2) } },
        UnitEntry { id: 9, unit: fighter(Team::Blue), pos: HexPosition { coord: c(-1, 0) } },
    ];
    let s = take_snapshot(&units);
    assert_eq!(s.units, vec![(3, Team::Red, c(1, 2)), (9, Team::Blue, c(-1, 0))]);
}

#[test]
fn position_lookup() {
    let s = snapshot(&[(1, Team::Red, 0, 0), (2, Team::Blue, 4, -2)]);
    assert_eq!(position_in(&s, 2), Some(c(4, -2)));
    assert_eq!(position_in(&s, 5), None);
}

#[test]
fn nearest_enemy_first_found_on_ties() {
    let s = snapshot(&[
        (0, Team::Red, 0, 0),
        (1, Team::Blue, 2, 0),
        (2, Team::Blue, 0, 2),
        (3, Team::Red, 1, 0),
        (4, Team::Blue, 5, 5),
    ]);
    assert_eq!(nearest_enemy(&s, Team::Red, c(0, 0)), Some(c(2, 0)));
    assert_eq!(nearest_enemy(&s, Team::Blue, c(2, 0)), Some(c(1, 0)));
    assert_eq!(nearest_enemy(&snapshot(&[(0, Team::Red, 0, 0)]), Team::Red, c(0, 0)), None);
}

#[test]
fn greedy_step_first_minimum_in_direction_order() {
    // target straight along +q: only (1,0) reaches distance 2
    assert_eq!(best_step_toward(c(0, 0), c(3, 0)), (1, 0));
    // target at (0,3): only (0,1) reaches distance 2
    assert_eq!(best_step_toward(c(0, 0), c(0, 3)), (0, 1));
    // target at (1,1): (1,0) and (0,1) both reach distance 1; (1,0) comes first
    assert_eq!(best_step_toward(c(0, 0), c(1, 1)), (1, 0));
    // target at (2,-2): (1,-1) is the only step to distance 1
    assert_eq!(best_step_toward(c(0, 0), c(2, -2)), (1, -1));
}

#[test]
fn policy_stays_without_enemies() {
    let s = snapshot(&[(0, Team::Red, 0, 0), (1, Team::Red, 1, 0)]);
    assert_eq!(choose_action(&s, Team::Red, c(0, 0), true, (0, 1)), Action::Stay);
    let mut ai = RandomAi::new();
    assert_eq!(ai.decide(0, &fighter(Team::Red), &s), Action::Stay);
}

#[test]
fn policy_explores_or_chases() {
    let s = snapshot(&[(0, Team::Red, 0, 0), (1, Team::Blue, 3, 0)]);
    assert_eq!(choose_action(&s, Team::Red, c(0, 0), true, (0, -1)), Action::Move(0, -1));
    assert_eq!(choose_action(&s, Team::Red, c(0, 0), false, (0, -1)), Action::Move(1, 0));
}

#[test]
fn never_exploring_ai_always_chases() {
    let s = snapshot(&[(0, Team::Red, 0, 0), (1, Team::Blue, 0, 3)]);
    let mut ai = RandomAi::with_seed(7, 0, 10).unwrap();
    for _ in 0..50 {
        assert_eq!(ai.decide(0, &fighter(Team::Red), &s), Action::Move(0, 1));
    }
}

#[test]
fn always_exploring_ai_takes_random_unit_steps() {
    let s = snapshot(&[(0, Team::Red, 0, 0), (1, Team::Blue, 0, 3)]);
    let mut ai = RandomAi::with_seed(11, 5, 5).unwrap();
    let mut seen = std::collections::HashSet::new();
    for _ in 0..200 {
        match ai.decide(0, &fighter(Team::Red), &s) {
            Action::Move(dq, dr) => {
                assert!(is_hex_step(dq, dr));
                seen.insert((dq, dr));
            }
            Action::Stay => panic!("an enemy is in sight"),
        }
    }
    assert!(seen.len() > 1);
}

#[test]
fn same_seed_same_decisions() {
    let s = snapshot(&[(0, Team::Red, 0, 0), (1, Team::Blue, 4, -1)]);
    let mut a = RandomAi::with_seed(42, 3, 10).unwrap();
    let mut b = RandomAi::with_seed(42, 3, 10).unwrap();
    for _ in 0..100 {
        assert_eq!(a.decide(0, &fighter(Team::Red), &s), b.decide(0, &fighter(Team::Red), &s));
    }
}

#[test]
fn improper_exploration_ratio_is_refused() {
    assert!(RandomAi::with_seed(1, 1, 0).is_none());
    assert!(RandomAi::with_seed(1, 4, 3).is_none());
    assert!(RandomAi::with_seed(1, 0, 1).is_some());
}

#[test]
fn six_directions_listed() {
    assert_eq!(hex_directions(), vec![(1, 0), (1, -1), (0, -1), (-1, 0), (-1, 1), (0, 1)]);
}

#[test]
fn ai_team_record() {
    let t = AITeam::new(2, "blue squad".to_string(), 6);
    assert_eq!(t.id, 2);
    assert_eq!(t.name, "blue squad");
    assert_eq!(t.ai_count, 6);
}
