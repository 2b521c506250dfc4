use battle_arena::batch::{tally_outcomes, total_turns, thread_count, thread_share, BatchGameConfig, BatchRunner};
use battle_arena::config::{
    in_headless_mode, in_visual_mode, is_headless_mode, turn_interval_us, GameConfig, SimulationConfig,
    SimulationMode,
};
use battle_arena::hex::{HexCoord, HexGrid, HexTile};
use battle_arena::misc::{GameLoop, Metrics, Resource};
use battle_arena::spatial::{update_spatial_index, SpatialIndex};
use battle_arena::state::should_record_state;
use battle_arena::units::{spawn_initial_units, HexPosition, Team, Unit, UnitEntry, UnitType};
use battle_arena::victory::GameOutcome;

#[test]
fn initial_line_up() {
    let v = spawn_initial_units(10, 100);
    assert_eq!(v.len(), 20);
    let coords: Vec<(u32, Team, i32, i32)> = v.iter().map(|u| (u.id, u.unit.team, u.pos.coord.q, u.pos.coord.r)).collect();
    assert_eq!(coords[0], (0, Team::Red, -8, -5));
    assert_eq!(coords[1], (1, Team::Red, -6, -5));
    assert_eq!(coords[7], (7, Team::Red, 6, -5));
    assert_eq!(coords[8], (8, Team::Red, -8, -6));
    assert_eq!(coords[9], (9, Team::Red, -6, -6));
    assert_eq!(coords[10], (10, Team::Blue, -8, 5));
    assert_eq!(coords[18], (18, Team::Blue, -8, 6));
    for u in &v {
        assert_eq!(u.unit.unit_type, UnitType::Fighter);
        assert_eq!(u.unit.health, 100);
        assert_eq!(u.unit.max_health, 100);
    }
    for a in 0..v.len() {
        for b in 0..v.len() {
            if a != b {
                assert_ne!(v[a].pos.coord, v[b].pos.coord);
            }
        }
    }
}

#[test]
fn empty_line_up() {
    assert!(spawn_initial_units(0, 100).is_empty());
}

#[test]
fn default_settings() {
    let g = GameConfig::default();
    assert_eq!(g.game.tick_rate_us, 500_000);
    assert_eq!(g.game.map_width, 20);
    assert_eq!(g.game.map_height, 15);
    assert_eq!(g.game.units_per_team, 6);
    assert_eq!(g.combat.base_damage, 35);
    assert_eq!(g.combat.attack_range, 1);
    assert_eq!(g.units.base_health, 100);
    assert_eq!(g.performance.target_tps, 1000);
    assert!(g.is_valid());
    let s = SimulationConfig::default();
    assert_eq!(s.modes.default, SimulationMode::Visual);
    assert_eq!(s.headless.timestep_hz, 1000);
    assert_eq!(s.visual.frame_cap, 60);
}

#[test]
fn invalid_settings_detected() {
    let mut g = GameConfig::default();
    g.units.base_health = 0;
    assert!(!g.is_valid());
}

#[test]
fn modes_and_turn_interval() {
    let g = GameConfig::default();
    let mut s = SimulationConfig::default();
    assert!(in_visual_mode(&s));
    assert!(!in_headless_mode(&s));
    assert_eq!(turn_interval_us(&s, &g), 500_000);
    s.modes.default = SimulationMode::Headless;
    assert!(is_headless_mode(&s));
    assert!(!in_visual_mode(&s));
    assert_eq!(turn_interval_us(&s, &g), 1_000);
    s.headless.timestep_hz = 0;
    assert_eq!(turn_interval_us(&s, &g), u64::MAX);
}

#[test]
fn snapshot_every_tenth_turn() {
    assert!(should_record_state(0));
    assert!(should_record_state(10));
    assert!(should_record_state(30));
    assert!(!should_record_state(9));
    assert!(!should_record_state(11));
}

#[test]
fn batch_split_across_workers() {
    assert_eq!(thread_count(10, 4), 4);
    assert_eq!(thread_count(3, 4), 3);
    assert_eq!(thread_share(10, 4, 0), (0, 3));
    assert_eq!(thread_share(10, 4, 1), (3, 3));
    assert_eq!(thread_share(10, 4, 2), (6, 2));
    assert_eq!(thread_share(10, 4, 3), (8, 2));
    assert_eq!(thread_share(8, 4, 3), (6, 2));
}

#[test]
fn batch_tally() {
    let v = vec![GameOutcome::RedWins, GameOutcome::Draw, GameOutcome::RedWins, GameOutcome::BlueWins];
    assert_eq!(tally_outcomes(&v), (2, 1, 1));
    assert_eq!(tally_outcomes(&Vec::new()), (0, 0, 0));
}

#[test]
fn batch_runner_holds_config() {
    let cfg = BatchGameConfig {
        game_config: GameConfig::default(),
        sim_config: SimulationConfig::default(),
        num_games: 4,
        parallel_games: 2,
    };
    let r = BatchRunner::new(cfg);
    assert_eq!(r.config, cfg);
}

fn entry(id: u32, q: i32, r: i32) -> UnitEntry {
    UnitEntry {
        id,
        unit: Unit { team: Team::Red, unit_type: UnitType::Fighter, health: 1, max_health: 1 },
        pos: HexPosition { coord: HexCoord { q, r } },
    }
}

#[test]
fn spatial_neighbors_scan_square_in_order() {
    let mut idx = SpatialIndex::new();
    idx.insert(HexCoord { q: 1, r: 1 }, 5);
    idx.insert(HexCoord { q: 0, r: 0 }, 6);
    idx.insert(HexCoord { q: 1, r: 1 }, 7);
    idx.insert(HexCoord { q: -1, r: 0 }, 8);
    idx.insert(HexCoord { q: 3, r: 0 }, 9);
    assert_eq!(idx.get_neighbors(HexCoord { q: 0, r: 0 }, 1), vec![8, 6, 5, 7]);
    assert_eq!(idx.get_neighbors(HexCoord { q: 0, r: 0 }, 0), vec![6]);
    assert!(idx.get_neighbors(HexCoord { q: 0, r: 0 }, -1).is_empty());
    idx.clear();
    assert!(idx.get_neighbors(HexCoord { q: 0, r: 0 }, 3).is_empty());
}

#[test]
fn spatial_index_rebuilt_from_units() {
    let mut idx = SpatialIndex::new();
    idx.insert(HexCoord { q: 0, r: 0 }, 99);
    update_spatial_index(&mut idx, &vec![entry(1, 0, 0), entry(2, 0, 1)]);
    assert_eq!(idx.get_neighbors(HexCoord { q: 0, r: 0 }, 1), vec![1, 2]);
}

#[test]
fn small_records() {
    let r = Resource::new();
    assert_eq!((r.energy, r.metal, r.knowledge), (100, 100, 0));
    assert_eq!(GameLoop::new(60).tick_rate(), 60);
    assert_eq!(Metrics::new().tick_count, 0);
    let g = HexGrid { width: 20, height: 15 };
    assert_eq!((g.width, g.height), (20, 15));
    let t = HexTile { coord: HexCoord { q: 1, r: 2 } };
    assert_eq!(t.coord.q + t.coord.r, 3);
}

#[test]
fn batch_turn_total() {
    assert_eq!(total_turns(&vec![3, 500, 17]), 520);
    assert_eq!(total_turns(&Vec::new()), 0);
    assert_eq!(total_turns(&vec![u32::MAX, u32::MAX]), 2 * u32::MAX as u128);
}
