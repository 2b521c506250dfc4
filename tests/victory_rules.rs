use battle_arena::victory::{outcome_of_counts, team_counts, GameOutcome, GameOver};
use battle_arena::hex::HexCoord;
use battle_arena::units::{HexPosition, Team, Unit, UnitEntry, UnitType};

#[test]
fn red_eliminated_gives_blue_win() {
    let mut g = GameOver::new();
    g.check_victory(7, 100, 0, 3);
    assert!(g.over);
    assert_eq!(g.outcome, Some(GameOutcome::BlueWins));
}

#[test]
fn blue_eliminated_gives_red_win() {
    let mut g = GameOver::new();
    g.check_victory(7, 100, 2, 0);
    assert!(g.over);
    assert_eq!(g.outcome, Some(GameOutcome::RedWins));
}

#[test]
fn both_eliminated_is_a_draw() {
    let mut g = GameOver::new();
    g.check_victory(7, 100, 0, 0);
    assert!(g.over);
    assert_eq!(g.outcome, Some(GameOutcome::Draw));
}

#[test]
fn turn_limit_with_both_sides_standing_is_a_draw() {
    let mut g = GameOver::new();
    g.check_victory(99, 100, 4, 5);
    assert!(!g.over);
    g.check_victory(100, 100, 4, 5);
    assert!(g.over);
    assert_eq!(g.outcome, Some(GameOutcome::Draw));
}

#[test]
fn outcome_is_sticky_once_over() {
    let mut g = GameOver::new();
    g.check_victory(3, 100, 0, 3);
    let first = g;
    g.check_victory(4, 100, 5, 0);
    g.check_victory(200, 100, 0, 0);
    g.check_victory(5, 100, 1, 1);
    assert_eq!(g, first);
    assert_eq!(g.outcome, Some(GameOutcome::BlueWins));
}

#[test]
fn running_game_stays_running() {
    let mut g = GameOver::new();
    g.check_victory(1, 100, 1, 1);
    assert_eq!(g, GameOver { over: false, outcome: None });
}

#[test]
fn outcome_of_counts_table() {
    assert_eq!(outcome_of_counts(0, 0), GameOutcome::Draw);
    assert_eq!(outcome_of_counts(0, 3), GameOutcome::BlueWins);
    assert_eq!(outcome_of_counts(3, 0), GameOutcome::RedWins);
    assert_eq!(outcome_of_counts(2, 5), GameOutcome::Draw);
}

#[test]
fn counting_teams() {
    let mk = |id: u32, team: Team| UnitEntry {
        id,
        unit: Unit { team, unit_type: UnitType::Fighter, health: 1, max_health: 1 },
        pos: HexPosition { coord: HexCoord { q: id as i32, r: 0 } },
    };
    let units = vec![mk(0, Team::Red), mk(1, Team::Blue), mk(2, Team::Blue), mk(3, Team::Blue)];
    assert_eq!(team_counts(&units), (1, 3));
    assert_eq!(team_counts(&Vec::new()), (0, 0));
}

#[test]
fn banners_and_tags() {
    assert_eq!(GameOutcome::RedWins.banner(), "RED TEAM WINS!");
    assert_eq!(GameOutcome::BlueWins.banner(), "BLUE TEAM WINS!");
    assert_eq!(GameOutcome::Draw.banner(), "DRAW!");
    assert_eq!(Team::Red.tag(), "[RED]");
    assert_eq!(Team::Blue.tag(), "[BLUE]");
}
