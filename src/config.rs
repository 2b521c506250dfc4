//! Game and simulation settings, with their defaults.

use vstd::prelude::*;
use crate::units::MAX_UNITS_PER_TEAM;

verus! {

/// Map, cadence and size of a game.
#[derive(Clone, Copy, Debug, PartialEq, Eq, Structural)]
pub struct GameSettings {
    /// Time between two turns in visual mode, in microseconds.
    pub tick_rate_us: u64,
    pub map_width: i32,
    pub map_height: i32,
    pub units_per_team: usize,
    pub max_turns: u32,
}

/// Damage dealt per blow and the reach of a blow.
#[derive(Clone, Copy, Debug, PartialEq, Eq, Structural)]
pub struct CombatSettings {
    pub base_damage: u32,
    pub attack_range: i32,
}

/// Starting health and movement reach of a unit.
#[derive(Clone, Copy, Debug, PartialEq, Eq, Structural)]
pub struct UnitSettings {
    pub base_health: i32,
    pub movement_range: i32,
}

/// Throughput target and metrics reporting.
#[derive(Clone, Copy, Debug, PartialEq, Eq, Structural)]
pub struct PerformanceSettings {
    pub target_tps: u32,
    pub enable_metrics: bool,
    /// Time between two metrics reports, in microseconds.
    pub metrics_interval_us: u64,
}

/// The settings of one game.
#[derive(Clone, Copy, Debug, PartialEq, Eq, Structural)]
pub struct GameConfig {
    pub game: GameSettings,
    pub combat: CombatSettings,
    pub units: UnitSettings,
    pub performance: PerformanceSettings,
}

impl GameConfig {
    /// Settings a game can start from: units spawn alive and the line-up
    /// fits in memory and ids.
    pub open spec fn valid(&self) -> bool {
        self.units.base_health > 0 && self.game.units_per_team <= MAX_UNITS_PER_TEAM
    }

    /// Whether a game can start from these settings.
    pub fn is_valid(&self) -> (b: bool)
        ensures
            b == self.valid(),
    {
        self.units.base_health > 0 && self.game.units_per_team <= MAX_UNITS_PER_TEAM
    }
}

impl Default for GameConfig {
    /// Half a second a turn on a 20 x 15 map, six fighters a side of 100
    /// health dealing 35 at range 1. The turn limit of 500 is a cap of this
    /// library's choosing, so that a run with no winner still ends.
    fn default() -> (c: GameConfig)
        ensures
            c.game == (GameSettings {
                tick_rate_us: 500_000,
                map_width: 20,
                map_height: 15,
                units_per_team: 6,
                max_turns: 500,
            }),
            c.combat == (CombatSettings { base_damage: 35, attack_range: 1 }),
            c.units == (UnitSettings { base_health: 100, movement_range: 1 }),
            c.performance == (PerformanceSettings {
                target_tps: 1000,
                enable_metrics: true,
                metrics_interval_us: 5_000_000,
            }),
            c.valid(),
    {
        GameConfig {
            game: GameSettings {
                tick_rate_us: 500_000,
                map_width: 20,
                map_height: 15,
                units_per_team: 6,
                max_turns: 500,
            },
            combat: CombatSettings { base_damage: 35, attack_range: 1 },
            units: UnitSettings { base_health: 100, movement_range: 1 },
            performance: PerformanceSettings {
                target_tps: 1000,
                enable_metrics: true,
                metrics_interval_us: 5_000_000,
            },
        }
    }
}

/// Whether the game is drawn on screen or run as fast as a fixed clock allows.
#[derive(Clone, Copy, Debug, PartialEq, Eq, Structural, Hash)]
pub enum SimulationMode {
    Visual,
    Headless,
}

/// Which mode a run uses.
#[derive(Clone, Copy, Debug, PartialEq, Eq, Structural)]
pub struct ModeSettings {
    pub default: SimulationMode,
}

/// Settings of the visual mode.
#[derive(Clone, Copy, Debug, PartialEq, Eq, Structural)]
pub struct VisualModeSettings {
    pub enable_rendering: bool,
    pub enable_ui: bool,
    pub vsync: bool,
    pub frame_cap: u32,
}

/// Settings of the headless mode.
#[derive(Clone, Copy, Debug, PartialEq, Eq, Structural)]
pub struct HeadlessModeSettings {
    pub enable_rendering: bool,
    pub enable_ui: bool,
    pub fixed_timestep: bool,
    pub timestep_hz: u32,
}

/// The settings of a run.
#[derive(Clone, Copy, Debug, PartialEq, Eq, Structural)]
pub struct SimulationConfig {
    pub modes: ModeSettings,
    pub visual: VisualModeSettings,
    pub headless: HeadlessModeSettings,
}

impl Default for SimulationConfig {
    /// Visual mode at up to 60 frames a second; headless at 1000 Hz.
    fn default() -> (c: SimulationConfig)
        ensures
            c.modes.default == SimulationMode::Visual,
            c.visual == (VisualModeSettings {
                enable_rendering: true,
                enable_ui: true,
                vsync: true,
                frame_cap: 60,
            }),
            c.headless == (HeadlessModeSettings {
                enable_rendering: false,
                enable_ui: false,
                fixed_timestep: true,
                timestep_hz: 1000,
            }),
    {
        SimulationConfig {
            modes: ModeSettings { default: SimulationMode::Visual },
            visual: VisualModeSettings {
                enable_rendering: true,
                enable_ui: true,
                vsync: true,
                frame_cap: 60,
            },
            headless: HeadlessModeSettings {
                enable_rendering: false,
                enable_ui: false,
                fixed_timestep: true,
                timestep_hz: 1000,
            },
        }
    }
}

/// Whether the run is in visual mode.
pub fn in_visual_mode(sim_config: &SimulationConfig) -> (b: bool)
    ensures
        b == (sim_config.modes.default == SimulationMode::Visual),
{
    sim_config.modes.default == SimulationMode::Visual
}

/// Whether the run is in headless mode.
pub fn in_headless_mode(sim_config: &SimulationConfig) -> (b: bool)
    ensures
        b == (sim_config.modes.default == SimulationMode::Headless),
{
    sim_config.modes.default == SimulationMode::Headless
}

/// Whether the run is in headless mode.
pub fn is_headless_mode(sim_config: &SimulationConfig) -> (b: bool)
    ensures
        b == (sim_config.modes.default == SimulationMode::Headless),
{
    in_headless_mode(sim_config)
}

/// The time between two turns, in microseconds.
pub open spec fn spec_turn_interval(sim_config: SimulationConfig, config: GameConfig) -> u64 {
    if sim_config.modes.default == SimulationMode::Headless {
        if sim_config.headless.timestep_hz == 0 {
            u64::MAX
        } else {
            (1_000_000int / sim_config.headless.timestep_hz as int) as u64
        }
    } else {
        config.game.tick_rate_us
    }
}

/// The time between two turns, in microseconds: one step of the fixed clock
/// in headless mode (the largest interval when its rate is 0, so no turn
/// comes), the configured tick rate otherwise.
pub fn turn_interval_us(sim_config: &SimulationConfig, config: &GameConfig) -> (us: u64)
    ensures
        us == spec_turn_interval(*sim_config, *config),
{
    if sim_config.modes.default == SimulationMode::Headless {
        if sim_config.headless.timestep_hz == 0 {
            u64::MAX
        } else {
            1_000_000 / sim_config.headless.timestep_hz as u64
        }
    } else {
        config.game.tick_rate_us
    }
}

} // verus!
