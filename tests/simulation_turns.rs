use battle_arena::actions::Action;
use battle_arena::ai::{AiController, RandomAi, WorldSnapshot};
use battle_arena::config::{GameConfig, SimulationConfig, SimulationMode};
use battle_arena::batch::{run_single_game, BatchGameConfig};
use battle_arena::simulation::Simulation;
use battle_arena::units::{Team, Unit};
use battle_arena::victory::GameOutcome;

struct AlwaysStay;

impl AiController for AlwaysStay {
    fn decide(&mut self, _unit_id: u32, _self_state: &Unit, _world: &WorldSnapshot) -> Action {
        Action::Stay
    }
}

fn check_invariants(sim: &Simulation) {
    let units = sim.units();
    for u in units.iter() {
        assert!(u.unit.health > 0 && u.unit.health <= u.unit.max_health);
    }
    for a in 0..units.len() {
        for b in 0..units.len() {
            if a != b {
                assert_ne!(units[a].pos.coord, units[b].pos.coord);
                assert_ne!(units[a].id, units[b].id);
            }
        }
    }
}

#[test]
fn new_game_starts_running_at_turn_zero() {
    let sim = Simulation::new(GameConfig::default(), &SimulationConfig::default(), 1);
    let snaps = sim.states().snapshots();
    assert_eq!(snaps.len(), 1);
    assert_eq!(snaps[0].turn, 0);
    assert_eq!(snaps[0].units.len(), 12);
    assert_eq!(snaps[0].units[6].position, (-8, 5));
    assert_eq!(sim.units().len(), 12);
    assert_eq!(sim.turn_state().turn, 0);
    assert!(!sim.game_over().over);
    assert_eq!(sim.counts(), (6, 6));
}

#[test]
fn zero_turn_limit_ends_at_once_in_a_draw() {
    let mut cfg = GameConfig::default();
    cfg.game.max_turns = 0;
    let sim = Simulation::new(cfg, &SimulationConfig::default(), 1);
    assert!(sim.game_over().over);
    assert_eq!(sim.game_over().outcome, Some(GameOutcome::Draw));
}

#[test]
fn turn_limit_with_both_teams_standing_is_a_draw() {
    let mut cfg = GameConfig::default();
    cfg.game.max_turns = 3;
    let mut sim = Simulation::new(cfg, &SimulationConfig::default(), 1);
    let mut ai = AlwaysStay;
    let (outcome, turns) = sim.run_to_end(&mut ai);
    assert_eq!(outcome, GameOutcome::Draw);
    assert_eq!(turns, 3);
    assert!(sim.game_over().over);
    assert_eq!(sim.counts(), (6, 6));
}

#[test]
fn turns_fire_on_the_interval_only() {
    let mut sim = Simulation::new(GameConfig::default(), &SimulationConfig::default(), 1);
    let mut ai = AlwaysStay;
    assert!(!sim.fire_turn(499_999, &mut ai));
    assert_eq!(sim.turn_state().turn, 0);
    assert!(sim.fire_turn(500_000, &mut ai));
    assert_eq!(sim.turn_state().turn, 1);
    assert_eq!(sim.turn_state().time_us, 500_000);
    assert!(!sim.fire_turn(900_000, &mut ai));
    assert!(!sim.fire_turn(100, &mut ai));
    assert!(sim.fire_turn(1_000_000, &mut ai));
    assert_eq!(sim.turn_state().turn, 2);
}

#[test]
fn headless_interval_follows_fixed_clock() {
    let mut s = SimulationConfig::default();
    s.modes.default = SimulationMode::Headless;
    let mut sim = Simulation::new(GameConfig::default(), &s, 1);
    let mut ai = AlwaysStay;
    assert!(!sim.fire_turn(999, &mut ai));
    assert!(sim.fire_turn(1_000, &mut ai));
}

#[test]
fn each_turn_is_recorded_for_replay() {
    let mut sim = Simulation::new(GameConfig::default(), &SimulationConfig::default(), 77);
    let mut ai = AlwaysStay;
    sim.step_turn(&mut ai);
    sim.step_turn(&mut ai);
    let file = sim.replay().replay_file(
        battle_arena::replay::ReplayMapConfig { width: 20, height: 15, units_per_team: 6 },
        None,
    );
    assert_eq!(file.initial_seed, 77);
    assert_eq!(file.frames.len(), 2);
    assert_eq!(file.frames[0].turn, 1);
    assert_eq!(file.frames[1].turn, 2);
    assert_eq!(file.frames[0].actions.len(), 12);
    for (i, a) in file.frames[1].actions.iter().enumerate() {
        assert_eq!(a.entity_id, i as u32);
        assert_eq!(a.team, if i < 6 { Team::Red } else { Team::Blue });
        assert_eq!(a.action, Action::Stay);
    }
}

#[test]
fn state_snapshot_every_tenth_turn() {
    let mut sim = Simulation::new(GameConfig::default(), &SimulationConfig::default(), 1);
    let mut ai = AlwaysStay;
    for _ in 0..25 {
        sim.step_turn(&mut ai);
    }
    let snaps = sim.states().snapshots();
    assert_eq!(snaps.len(), 3);
    assert_eq!(snaps[0].turn, 0);
    assert_eq!(snaps[0].time_us, 0);
    assert_eq!(snaps[1].turn, 10);
    assert_eq!(snaps[2].turn, 20);
    assert_eq!(snaps[1].units.len(), 12);
    assert_eq!(snaps[1].units[0].position, (-8, -5));
    assert_eq!(snaps[1].units[0].health, 100);
}

#[test]
fn random_games_keep_invariants_every_turn() {
    for seed in 0..5u64 {
        let mut sim = Simulation::new(GameConfig::default(), &SimulationConfig::default(), seed);
        let mut ai = RandomAi::with_seed(seed, 3, 10).unwrap();
        let mut turns = 0;
        while !sim.game_over().over {
            sim.step_turn(&mut ai);
            check_invariants(&sim);
            turns += 1;
        }
        assert!(turns <= 500);
        let (red, blue) = sim.counts();
        let expected = if red == 0 && blue == 0 {
            GameOutcome::Draw
        } else if red == 0 {
            GameOutcome::BlueWins
        } else if blue == 0 {
            GameOutcome::RedWins
        } else {
            GameOutcome::Draw
        };
        assert_eq!(sim.game_over().outcome, Some(expected));
    }
}

#[test]
fn headless_batch_game_runs_to_completion() {
    let cfg = BatchGameConfig {
        game_config: GameConfig::default(),
        sim_config: SimulationConfig::default(),
        num_games: 1,
        parallel_games: 1,
    };
    let (outcome, turns, sim) = run_single_game(&cfg, 3);
    assert!(turns >= 1 && turns <= 500);
    assert_eq!(turns, sim.turn_state().turn);
    assert!(sim.game_over().over);
    assert_eq!(sim.game_over().outcome, Some(outcome));
    let (red, blue) = sim.counts();
    if turns < 500 {
        assert!(red == 0 || blue == 0);
    }
}

#[test]
fn headless_batch_game_without_units_is_a_draw_in_zero_turns() {
    let mut game_config = GameConfig::default();
    game_config.game.units_per_team = 0;
    let cfg = BatchGameConfig { game_config, sim_config: SimulationConfig::default(), num_games: 1, parallel_games: 1 };
    let (outcome, turns, _) = run_single_game(&cfg, 3);
    assert_eq!((outcome, turns), (GameOutcome::Draw, 0));
    game_config.game.units_per_team = 6;
    game_config.game.max_turns = 0;
    let cfg = BatchGameConfig { game_config, sim_config: SimulationConfig::default(), num_games: 1, parallel_games: 1 };
    let (outcome, turns, _) = run_single_game(&cfg, 3);
    assert_eq!((outcome, turns), (GameOutcome::Draw, 0));
}

#[test]
fn finished_game_ignores_further_ticks() {
    let mut cfg = GameConfig::default();
    cfg.game.max_turns = 1;
    let mut sim = Simulation::new(cfg, &SimulationConfig::default(), 1);
    let mut ai = AlwaysStay;
    assert!(sim.fire_turn(500_000, &mut ai));
    assert!(sim.game_over().over);
    let outcome = sim.game_over().outcome;
    for t in 2..6u64 {
        assert!(!sim.fire_turn(t * 500_000, &mut ai));
        assert_eq!(sim.game_over().outcome, outcome);
        assert_eq!(sim.turn_state().turn, 1);
    }
}

#[test]
fn empty_line_up_is_an_immediate_draw() {
    let mut cfg = GameConfig::default();
    cfg.game.units_per_team = 0;
    let mut sim = Simulation::new(cfg, &SimulationConfig::default(), 1);
    assert!(sim.game_over().over);
    assert_eq!(sim.game_over().outcome, Some(GameOutcome::Draw));
    let mut ai = AlwaysStay;
    assert_eq!(sim.run_to_end(&mut ai), (GameOutcome::Draw, 0));
}

#[test]
fn mutual_elimination_is_a_draw() {
    let mut cfg = GameConfig::default();
    cfg.game.units_per_team = 1;
    cfg.combat.base_damage = 100;
    let mut sim = Simulation::new(cfg, &SimulationConfig::default(), 1);
    let mut ai = RandomAi::with_seed(5, 0, 1).unwrap();
    let (outcome, turns) = sim.run_to_end(&mut ai);
    // the two fighters close in and fall together in the same pass
    assert_eq!(outcome, GameOutcome::Draw);
    assert_eq!(sim.counts(), (0, 0));
    assert!(turns < 500);
}
