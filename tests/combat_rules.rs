use battle_arena::combat::{check_combat, resolve_combat};
use battle_arena::hex::HexCoord;
use battle_arena::units::{HexPosition, Team, Unit, UnitEntry, UnitType};
use battle_arena::victory::{team_counts, GameOver};

fn unit(id: u32, team: Team, health: i32, q: i32, r: i32) -> UnitEntry {
    UnitEntry {
        id,
        unit: Unit { team, unit_type: UnitType::Fighter, health, max_health: 100 },
        pos: HexPosition { coord: HexCoord { q, r } },
    }
}

#[test]
fn adjacent_pair_both_take_one_blow_and_game_continues() {
    let units = vec![unit(0, Team::Red, 100, 0, -1), unit(1, Team::Blue, 100, 0, 0)];
    let (alive, fallen) = resolve_combat(&units, 1, 35);
    assert_eq!(alive.len(), 2);
    assert_eq!(alive[0].unit.health, 65);
    assert_eq!(alive[1].unit.health, 65);
    assert!(fallen.is_empty());
    let (red, blue) = team_counts(&alive);
    let mut over = GameOver::new();
    over.check_victory(1, 100, red, blue);
    assert!(!over.over);
    assert_eq!(over.outcome, None);
}

#[test]
fn damage_is_simultaneous_whatever_the_order() {
    let ab = vec![unit(0, Team::Red, 50, 0, 0), unit(1, Team::Blue, 50, 1, 0)];
    let ba = vec![unit(1, Team::Blue, 50, 1, 0), unit(0, Team::Red, 50, 0, 0)];
    let (x, _) = resolve_combat(&ab, 1, 20);
    let (y, _) = resolve_combat(&ba, 1, 20);
    assert_eq!(x[0].unit.health, 30);
    assert_eq!(x[1].unit.health, 30);
    assert_eq!(y[0].unit.health, 30);
    assert_eq!(y[1].unit.health, 30);
}

#[test]
fn both_fall_together_after_dealing_damage() {
    let units = vec![unit(0, Team::Red, 30, 0, 0), unit(1, Team::Blue, 35, 0, 1)];
    let (alive, fallen) = resolve_combat(&units, 1, 35);
    assert!(alive.is_empty());
    assert_eq!(fallen, vec![0, 1]);
}

#[test]
fn unit_surrounded_takes_one_blow_per_enemy() {
    let units = vec![
        unit(0, Team::Red, 100, 0, 0),
        unit(1, Team::Blue, 100, 1, 0),
        unit(2, Team::Blue, 100, 0, 1),
        unit(3, Team::Blue, 100, -1, 0),
    ];
    let (alive, fallen) = resolve_combat(&units, 1, 35);
    assert_eq!(fallen, vec![0]);
    assert_eq!(alive.len(), 3);
    for u in &alive {
        assert_eq!(u.unit.health, 65);
    }
}

#[test]
fn same_team_and_distant_units_do_not_fight() {
    let units = vec![unit(0, Team::Red, 10, 0, 0), unit(1, Team::Red, 10, 1, 0), unit(2, Team::Blue, 10, 3, 0)];
    let (alive, fallen) = resolve_combat(&units, 1, 35);
    assert_eq!(alive, units);
    assert!(fallen.is_empty());
    assert!(check_combat(&units, 1).is_empty());
}

#[test]
fn larger_range_reaches_further() {
    let units = vec![unit(0, Team::Red, 100, 0, 0), unit(1, Team::Blue, 100, 2, 0)];
    assert!(check_combat(&units, 1).is_empty());
    assert_eq!(check_combat(&units, 2), vec![(0, 1)]);
    let (alive, _) = resolve_combat(&units, 2, 10);
    assert_eq!(alive[0].unit.health, 90);
}

#[test]
fn pairs_listed_once_in_order() {
    let units = vec![
        unit(4, Team::Red, 100, 0, 0),
        unit(5, Team::Blue, 100, 1, 0),
        unit(6, Team::Red, 100, 1, -1),
        unit(7, Team::Blue, 100, 9, 9),
    ];
    assert_eq!(check_combat(&units, 1), vec![(4, 5), (5, 6)]);
}

#[test]
fn zero_damage_changes_nothing() {
    let units = vec![unit(0, Team::Red, 1, 0, 0), unit(1, Team::Blue, 1, 1, 0)];
    let (alive, fallen) = resolve_combat(&units, 1, 0);
    assert_eq!(alive, units);
    assert!(fallen.is_empty());
}

#[test]
fn survivors_keep_health_within_bounds() {
    let units = vec![unit(0, Team::Red, 100, 0, 0), unit(1, Team::Blue, 36, 1, 0), unit(2, Team::Blue, 35, 0, 1)];
    let (alive, fallen) = resolve_combat(&units, 1, 35);
    assert_eq!(fallen, vec![2]);
    for u in &alive {
        assert!(u.unit.health > 0 && u.unit.health <= u.unit.max_health);
    }
    assert_eq!(alive[0].unit.health, 30);
    assert_eq!(alive[1].unit.health, 1);
}
