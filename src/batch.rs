//! Splitting a batch of independent games across workers, playing one
//! headless game, and tallying outcomes.

use vstd::prelude::*;
use crate::ai::RandomAi;
use crate::config::{GameConfig, SimulationConfig};
use crate::actions::Action;
use crate::simulation::{turn_trace, Simulation, TurnState};
use crate::units::{spawn_entry, Team};
use crate::victory::{lemma_count_positive, spec_outcome, team_count, GameOutcome};

verus! {

/// The settings of a batch of games.
#[derive(Clone, Copy, Debug, PartialEq, Eq, Structural)]
pub struct BatchGameConfig {
    pub game_config: GameConfig,
    pub sim_config: SimulationConfig,
    pub num_games: usize,
    pub parallel_games: usize,
}

/// Runs a batch of games.
#[derive(Clone, Copy, Debug)]
pub struct BatchRunner {
    pub config: BatchGameConfig,
}

impl BatchRunner {
    /// A runner for the batch `config`.
    pub fn new(config: BatchGameConfig) -> (r: BatchRunner)
        ensures
            r.config == config,
    {
        BatchRunner { config }
    }
}

/// The number of workers: as many as asked, but no more than games.
pub fn thread_count(num_games: usize, parallel_games: usize) -> (n: usize)
    ensures
        n == if parallel_games < num_games {
            parallel_games
        } else {
            num_games
        },
{
    if parallel_games < num_games {
        parallel_games
    } else {
        num_games
    }
}

/// The first game of worker `t` and how many games it plays, when
/// `num_games` games are shared by `num_threads` workers: each gets
/// `num_games / num_threads`, and the first `num_games % num_threads` one
/// more.
pub open spec fn spec_share(num_games: int, num_threads: int, t: int) -> (int, int) {
    let per = num_games / num_threads;
    let rem = num_games % num_threads;
    (t * per + if t < rem {
        t
    } else {
        rem
    }, if t < rem {
        per + 1
    } else {
        per
    })
}

/// The first game of worker `thread_id` and how many games it plays.
pub fn thread_share(num_games: usize, num_threads: usize, thread_id: usize) -> (r: (usize, usize))
    requires
        0 < num_threads,
        thread_id < num_threads,
    ensures
        r.0 == spec_share(num_games as int, num_threads as int, thread_id as int).0,
        r.1 == spec_share(num_games as int, num_threads as int, thread_id as int).1,
        r.0 + r.1 <= num_games,
{
    let per = num_games / num_threads;
    let rem = num_games % num_threads;
    proof {
        assert(num_games == num_threads * per + rem && 0 <= rem < num_threads) by (nonlinear_arith)
            requires
                per == num_games / num_threads,
                rem == num_games % num_threads,
                0 < num_threads,
        ;
        assert((thread_id + 1) * per <= num_threads * per) by (nonlinear_arith)
            requires
                thread_id < num_threads,
                per >= 0,
        ;
        assert((thread_id + 1) * per == thread_id * per + per) by (nonlinear_arith);
    }
    let extra = if thread_id < rem {
        thread_id
    } else {
        rem
    };
    let start = thread_id * per + extra;
    let count = if thread_id < rem {
        per + 1
    } else {
        per
    };
    (start, count)
}

/// The number of games among the first `k` of `outcomes` that ended in `o`.
pub open spec fn outcome_count(outcomes: Seq<GameOutcome>, o: GameOutcome, k: nat) -> nat
    decreases k,
{
    if k == 0 {
        0
    } else {
        outcome_count(outcomes, o, (k - 1) as nat) + if outcomes[k - 1] == o {
            1nat
        } else {
            0nat
        }
    }
}

/// Red wins, blue wins and draws among `outcomes`.
pub fn tally_outcomes(outcomes: &Vec<GameOutcome>) -> (r: (usize, usize, usize))
    ensures
        r.0 == outcome_count(outcomes@, GameOutcome::RedWins, outcomes@.len()),
        r.1 == outcome_count(outcomes@, GameOutcome::BlueWins, outcomes@.len()),
        r.2 == outcome_count(outcomes@, GameOutcome::Draw, outcomes@.len()),
        r.0 + r.1 + r.2 == outcomes@.len(),
{
    let mut red: usize = 0;
    let mut blue: usize = 0;
    let mut draw: usize = 0;
    let mut i: usize = 0;
    while i < outcomes.len()
        invariant
            i <= outcomes@.len(),
            red == outcome_count(outcomes@, GameOutcome::RedWins, i as nat),
            blue == outcome_count(outcomes@, GameOutcome::BlueWins, i as nat),
            draw == outcome_count(outcomes@, GameOutcome::Draw, i as nat),
            red + blue + draw == i,
        decreases outcomes@.len() - i,
    {
        match outcomes[i] {
            GameOutcome::RedWins => red = red + 1,
            GameOutcome::BlueWins => blue = blue + 1,
            GameOutcome::Draw => draw = draw + 1,
        }
        i = i + 1;
    }
    (red, blue, draw)
}

/// The sum of the first `k` entries of `turns`.
pub open spec fn turns_sum(turns: Seq<u32>, k: nat) -> nat
    decreases k,
{
    if k == 0 {
        0
    } else {
        turns_sum(turns, (k - 1) as nat) + turns[k - 1] as nat
    }
}

/// The total number of turns of a batch's games.
pub fn total_turns(turns: &Vec<u32>) -> (t: u128)
    ensures
        t == turns_sum(turns@, turns@.len()),
{
    let mut total: u128 = 0;
    let mut i: usize = 0;
    while i < turns.len()
        invariant
            i <= turns@.len(),
            total == turns_sum(turns@, i as nat),
            total <= i * 0x1_0000_0000,
        decreases turns@.len() - i,
    {
        assert(i * 0x1_0000_0000 + 0x1_0000_0000 <= usize::MAX as int * 0x1_0000_0000 + 0x1_0000_0000)
            by (nonlinear_arith)
            requires
                i < usize::MAX,
        ;
        assert((i + 1) * 0x1_0000_0000 == i * 0x1_0000_0000 + 0x1_0000_0000) by (nonlinear_arith);
        total = total + turns[i] as u128;
        i = i + 1;
    }
    total
}

/// Plays one headless game of the batch to its end, recording from `seed`.
/// Returns the outcome, the number of turns played and the finished game:
/// the outcome is the one its remaining units give, the game stopped short
/// of the turn limit only with a side wiped out, and a game with no units or
/// no turns to play is a draw after 0 turns, while any other plays at least
/// one turn.
pub fn run_single_game(config: &BatchGameConfig, seed: u64) -> (r: (GameOutcome, u32, Simulation))
    requires
        config.game_config.valid(),
    ensures
        r.2.wf(),
        r.2.settings() == config.game_config,
        r.2.over_state().over,
        r.2.over_state().outcome == Some(r.0),
        r.0 == spec_outcome(
            team_count(r.2.living(), Team::Red) as int,
            team_count(r.2.living(), Team::Blue) as int,
        ),
        r.1 == r.2.clock().turn,
        r.1 <= config.game_config.game.max_turns,
        r.1 < config.game_config.game.max_turns ==> team_count(r.2.living(), Team::Red) == 0
            || team_count(r.2.living(), Team::Blue) == 0,
        config.game_config.game.units_per_team > 0 && config.game_config.game.max_turns > 0 ==> r.1
            >= 1,
        config.game_config.game.units_per_team == 0 || config.game_config.game.max_turns == 0
            ==> r.0 == GameOutcome::Draw && r.1 == 0,
        exists|games: Seq<Simulation>, actions: Seq<Seq<Action>>|
            #![trigger turn_trace::<RandomAi>(games, actions)]
            turn_trace::<RandomAi>(games, actions) && games.last() == r.2 && games[0].settings()
                == config.game_config && games[0].clock() == (TurnState { turn: 0, time_us: 0 })
                && games[0].living().len() == 2 * config.game_config.game.units_per_team && (
            forall|k: int|
                0 <= k < games[0].living().len() ==> #[trigger] games[0].living()[k] == spawn_entry(
                    config.game_config.game.units_per_team as int,
                    config.game_config.units.base_health,
                    k,
                )),
{
    let mut sim = Simulation::new(config.game_config, &config.sim_config, seed);
    let n = config.game_config.game.units_per_team;
    proof {
        let h = config.game_config.units.base_health;
        if n > 0 {
            assert(sim.living()[0] == spawn_entry(n as int, h, 0));
            lemma_count_positive(sim.living(), Team::Red, 0);
            assert(sim.living()[n as int] == spawn_entry(n as int, h, n as int));
            lemma_count_positive(sim.living(), Team::Blue, n as int);
        } else {
            assert(team_count(sim.living(), Team::Red) == 0);
            assert(team_count(sim.living(), Team::Blue) == 0);
        }
    }
    let mut ai = RandomAi::new();
    let (outcome, turns) = sim.run_to_end(&mut ai);
    (outcome, turns, sim)
}

} // verus!
