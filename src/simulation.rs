//! The simulation context: one game's world, clock, flags and recorders,
//! advanced one turn at a time.

use vstd::prelude::*;
use crate::actions::Action;
use crate::ai::{listed, snapshot_row, take_snapshot, AiController};
use crate::combat::{lemma_survivors_from, resolve_combat, survivors};
use crate::config::{turn_interval_us, spec_turn_interval, GameConfig, SimulationConfig};
use crate::hex::HexCoord;
use crate::movement::{
    distinct_positions,
    lemma_move_prefix_keeps,
    move_all,
    resolve_movement,
    same_but_position,
};
use crate::replay::{record_decisions, spec_end_turn, RecorderView, ReplayRecorder};
use crate::state::{should_record_state, unit_snapshot, StateRecorder, SNAPSHOT_INTERVAL, UnitSnapshot};
use crate::units::{
    all_alive,
    distinct_ids,
    spawn_entry,
    spawn_initial_units,
    Team,
    UnitEntry,
    MAX_UNITS_PER_TEAM,
};
use crate::victory::{next_victory, spec_outcome, team_count, team_counts, GameOutcome, GameOver};

verus! {

/// The turn counter and the time the last turn fired, in microseconds.
#[derive(Clone, Copy, Debug, PartialEq, Eq, Structural)]
pub struct TurnState {
    pub turn: u32,
    pub time_us: u64,
}

/// The living units after a turn in which `units` asked for `actions`:
/// movement resolved in order, then one combat pass.
pub open spec fn turn_result(units: Seq<UnitEntry>, actions: Seq<Action>, config: GameConfig) -> Seq<
    UnitEntry,
> {
    survivors(
        move_all(units, actions, config.game.map_width, config.game.map_height),
        config.combat.attack_range as int,
        config.combat.base_damage as int,
    )
}

/// The decisions of a turn as recorded: `(id, team, action)` per unit.
pub open spec fn decisions(units: Seq<UnitEntry>, actions: Seq<Action>) -> Seq<(u32, Team, Action)> {
    Seq::new(units.len(), |i: int| (units[i].id, units[i].unit.team, actions[i]))
}

/// The invariants of the world hold at the end of every turn, whatever the
/// units asked for: after movement no two units share a hex, and after
/// combat every remaining unit has `0 < health <= max_health`, no two share
/// a hex and none shares an id.
pub proof fn lemma_turn_keeps_invariants(units: Seq<UnitEntry>, actions: Seq<Action>, config: GameConfig)
    requires
        actions.len() == units.len(),
        all_alive(units),
        distinct_ids(units),
        distinct_positions(units),
    ensures
        distinct_positions(move_all(units, actions, config.game.map_width, config.game.map_height)),
        all_alive(turn_result(units, actions, config)),
        distinct_ids(turn_result(units, actions, config)),
        distinct_positions(turn_result(units, actions, config)),
{
    let w = config.game.map_width;
    let h = config.game.map_height;
    let moved = move_all(units, actions, w, h);
    lemma_move_prefix_keeps(units, actions, w, h, units.len());
    assert forall|i: int| 0 <= i < moved.len() implies (#[trigger] moved[i]).unit.alive() by {
        assert(moved[i].unit == units[i].unit);
    }
    assert forall|a: int, b: int|
        0 <= a < moved.len() && 0 <= b < moved.len() && a != b implies #[trigger] moved[a].id
        != #[trigger] moved[b].id by {
        assert(moved[a].id == units[a].id && moved[b].id == units[b].id);
    }
    lemma_survivors_from(
        moved,
        config.combat.attack_range as int,
        config.combat.base_damage as int,
        moved.len(),
    );
}

/// The snapshot rows of `units`.
pub open spec fn snapshot_rows(units: Seq<UnitEntry>) -> Seq<(u32, Team, HexCoord)> {
    units.map_values(|e: UnitEntry| snapshot_row(e))
}

/// `actions` holds one action per unit of `units`, in order, each one that
/// a controller of type `A` may choose for that unit when it sees the
/// snapshot of all of `units`.
pub open spec fn chosen_by<A: AiController>(units: Seq<UnitEntry>, actions: Seq<Action>) -> bool {
    &&& actions.len() == units.len()
    &&& forall|i: int|
        0 <= i < units.len() ==> #[trigger] A::may_choose(
            units[i].id,
            units[i].unit,
            snapshot_rows(units),
            actions[i],
        )
}

/// `games` is a run of turns: each game after the first is the one before
/// it after a turn, stamped at the earlier game's time, in which the units
/// did the actions `actions[i]`, each chosen as a controller of type `A` may
/// choose.
pub open spec fn turn_trace<A: AiController>(games: Seq<Simulation>, actions: Seq<Seq<Action>>) -> bool {
    &&& games.len() == actions.len() + 1
    &&& forall|i: int|
        0 <= i < actions.len() ==> chosen_by::<A>(games[i].living(), #[trigger] actions[i])
            && games[i].played(games[i + 1], actions[i], games[i].clock().time_us)
}

/// One game in progress.
pub struct Simulation {
    config: GameConfig,
    units: Vec<UnitEntry>,
    turn_state: TurnState,
    last_turn_us: u64,
    interval_us: u64,
    game_over: GameOver,
    replay: ReplayRecorder,
    states: StateRecorder,
}

impl Simulation {
    /// The living units, in creation order.
    pub closed spec fn living(&self) -> Seq<UnitEntry> {
        self.units@
    }

    /// The turn counter and the time of the last turn.
    pub closed spec fn clock(&self) -> TurnState {
        self.turn_state
    }

    /// The time a turn last fired (0 before the first).
    pub closed spec fn last_fired(&self) -> u64 {
        self.last_turn_us
    }

    /// The time between two turns.
    pub closed spec fn interval(&self) -> u64 {
        self.interval_us
    }

    /// The game-over flag and outcome.
    pub closed spec fn over_state(&self) -> GameOver {
        self.game_over
    }

    /// The settings of the game.
    pub closed spec fn settings(&self) -> GameConfig {
        self.config
    }

    /// The replay recorder's state.
    pub closed spec fn replay_view(&self) -> RecorderView {
        self.replay.view_state()
    }

    /// The state snapshots taken so far.
    pub closed spec fn snapshots_taken(&self) -> Seq<(u32, u64, Seq<UnitSnapshot>)> {
        self.states.taken()
    }

    /// `next` is this game after one more turn in which the units asked for
    /// `actions`, the turn being stamped `time_us` in a state snapshot: the
    /// counter advances, the units move and fight, the victory check runs,
    /// the decisions are closed into a replay frame, and every tenth turn a
    /// snapshot is taken; the invariants hold afterwards.
    pub open spec fn played(self, next: Simulation, actions: Seq<Action>, time_us: u64) -> bool {
        &&& next.wf()
        &&& next.settings() == self.settings()
        &&& next.clock().turn == self.clock().turn + 1
        &&& next.living() == turn_result(self.living(), actions, self.settings())
        &&& next.over_state() == next_victory(
            self.over_state(),
            self.clock().turn + 1,
            self.settings().game.max_turns as int,
            team_count(next.living(), Team::Red) as int,
            team_count(next.living(), Team::Blue) as int,
        )
        &&& next.replay_view() == spec_end_turn(
            record_decisions(
                self.replay_view(),
                decisions(self.living(), actions),
                self.living().len(),
            ),
            (self.clock().turn + 1) as u32,
            0,
        )
        &&& next.snapshots_taken() == if (self.clock().turn + 1) % (SNAPSHOT_INTERVAL as int) == 0 {
            self.snapshots_taken().push(
                (
                    (self.clock().turn + 1) as u32,
                    time_us,
                    next.living().map_values(|e: UnitEntry| unit_snapshot(e)),
                ),
            )
        } else {
            self.snapshots_taken()
        }
    }

    /// The recorders are consistent, the outcome is set exactly when the game
    /// is over, and a running game is below its turn limit.
    pub closed spec fn inner_wf(&self) -> bool {
        &&& self.replay.wf()
        &&& self.states.wf()
        &&& self.game_over.wf()
        &&& (!self.game_over.over ==> self.turn_state.turn < self.config.game.max_turns)
    }

    /// Every unit is alive, and no two share an id or a hex; a game is over
    /// only at its turn limit or with a side wiped out, and its outcome is
    /// the one the remaining units give.
    pub open spec fn wf(&self) -> bool {
        &&& self.inner_wf()
        &&& all_alive(self.living())
        &&& distinct_ids(self.living())
        &&& distinct_positions(self.living())
        &&& self.over_state().over ==> self.over_state().outcome == Some(
            spec_outcome(
                team_count(self.living(), Team::Red) as int,
                team_count(self.living(), Team::Blue) as int,
            ),
        )
        &&& self.over_state().over ==> (self.clock().turn >= self.settings().game.max_turns
            || team_count(self.living(), Team::Red) == 0 || team_count(self.living(), Team::Blue)
            == 0)
    }

    /// A game with the initial line-up of `config`, turn 0, recording from
    /// `seed`, with a state snapshot of the line-up at turn 0; it is over at
    /// once if the turn limit is 0 or a side is empty.
    pub fn new(config: GameConfig, sim_config: &SimulationConfig, seed: u64) -> (s: Simulation)
        requires
            config.valid(),
        ensures
            s.wf(),
            s.settings() == config,
            s.living().len() == 2 * config.game.units_per_team,
            forall|k: int|
                0 <= k < s.living().len() ==> s.living()[k] == spawn_entry(
                    config.game.units_per_team as int,
                    config.units.base_health,
                    k,
                ),
            s.clock() == (TurnState { turn: 0, time_us: 0 }),
            s.last_fired() == 0,
            s.interval() == spec_turn_interval(*sim_config, config),
            s.over_state() == next_victory(
                GameOver { over: false, outcome: None },
                0,
                config.game.max_turns as int,
                team_count(s.living(), Team::Red) as int,
                team_count(s.living(), Team::Blue) as int,
            ),
            s.replay_view().0.len() == 0,
            s.replay_view().1.len() == 0,
            s.replay_view().2.len() == 0,
            s.snapshots_taken() == seq![
                (0u32, 0u64, s.living().map_values(|e: UnitEntry| unit_snapshot(e))),
            ],
    {
        let units = spawn_initial_units(config.game.units_per_team, config.units.base_health);
        assert forall|a: int, b: int|
            0 <= a < units@.len() && 0 <= b < units@.len() && a != b implies #[trigger] units@[a].id
            != #[trigger] units@[b].id by {
            assert(units@[a] == spawn_entry(config.game.units_per_team as int, config.units.base_health, a));
            assert(units@[b] == spawn_entry(config.game.units_per_team as int, config.units.base_health, b));
        }
        assert forall|i: int| 0 <= i < units@.len() implies (#[trigger] units@[i]).unit.alive() by {
            assert(units@[i] == spawn_entry(config.game.units_per_team as int, config.units.base_health, i));
        }
        let (red, blue) = team_counts(&units);
        let mut game_over = GameOver::new();
        game_over.check_victory(0, config.game.max_turns, red, blue);
        let turn_state = TurnState { turn: 0, time_us: 0 };
        let mut states = StateRecorder::new();
        states.record_snapshot(&turn_state, &units);
        assert(states.taken() =~= seq![
            (0u32, 0u64, units@.map_values(|e: UnitEntry| unit_snapshot(e))),
        ]);
        Simulation {
            config,
            units,
            turn_state,
            last_turn_us: 0,
            interval_us: turn_interval_us(sim_config, &config),
            game_over,
            replay: ReplayRecorder::new(seed),
            states,
        }
    }

    /// Plays out a turn in which the units, in order, asked for `actions`:
    /// the turn counter advances; each decision is recorded; movement is
    /// resolved in order; one combat pass removes the fallen; the victory
    /// check runs; the turn's frame is closed; every tenth turn a state
    /// snapshot is taken.
    pub fn play_turn(&mut self, actions: &Vec<Action>)
        requires
            old(self).wf(),
            !old(self).over_state().over,
            actions@.len() == old(self).living().len(),
        ensures
            final(self).wf(),
            final(self).settings() == old(self).settings(),
            final(self).clock().turn == old(self).clock().turn + 1,
            final(self).clock().time_us == old(self).clock().time_us,
            final(self).last_fired() == old(self).last_fired(),
            final(self).interval() == old(self).interval(),
            final(self).living() == turn_result(old(self).living(), actions@, old(self).settings()),
            final(self).over_state() == next_victory(
                old(self).over_state(),
                old(self).clock().turn + 1,
                old(self).settings().game.max_turns as int,
                team_count(final(self).living(), Team::Red) as int,
                team_count(final(self).living(), Team::Blue) as int,
            ),
            final(self).replay_view() == spec_end_turn(
                record_decisions(
                    old(self).replay_view(),
                    decisions(old(self).living(), actions@),
                    old(self).living().len(),
                ),
                (old(self).clock().turn + 1) as u32,
                0,
            ),
            final(self).snapshots_taken() == if (old(self).clock().turn + 1) % (
            SNAPSHOT_INTERVAL as int) == 0 {
                old(self).snapshots_taken().push(
                    (
                        (old(self).clock().turn + 1) as u32,
                        old(self).clock().time_us,
                        final(self).living().map_values(|e: UnitEntry| unit_snapshot(e)),
                    ),
                )
            } else {
                old(self).snapshots_taken()
            },
            old(self).played(*final(self), actions@, old(self).clock().time_us),
    {
        let ghost start = self.units@;
        let ghost rec0 = self.replay.view_state();
        self.turn_state.turn = self.turn_state.turn + 1;
        let n = self.units.len();
        let mut i: usize = 0;
        while i < n
            invariant
                n == self.units@.len(),
                self.units@ == start,
                actions@.len() == n,
                i <= n,
                self.replay.wf(),
                self.states.wf(),
                self.states.taken() == old(self).states.taken(),
                self.config == old(self).config,
                self.game_over == old(self).game_over,
                self.turn_state == (TurnState {
                    turn: (old(self).turn_state.turn + 1) as u32,
                    time_us: old(self).turn_state.time_us,
                }),
                self.last_turn_us == old(self).last_turn_us,
                self.interval_us == old(self).interval_us,
                self.replay.view_state() == record_decisions(
                    rec0,
                    decisions(start, actions@),
                    i as nat,
                ),
            decreases n - i,
        {
            let e = self.units[i];
            self.replay.record_action(e.id, e.unit.team, actions[i]);
            i = i + 1;
        }
        resolve_movement(&mut self.units, actions, self.config.game.map_width, self.config.game.map_height);
        let ghost moved = self.units@;
        assert(all_alive(moved)) by {
            assert forall|i: int| 0 <= i < moved.len() implies (#[trigger] moved[i]).unit.alive() by {
                assert(moved[i].unit == start[i].unit);
            }
        }
        assert(distinct_ids(moved)) by {
            assert forall|a: int, b: int|
                0 <= a < moved.len() && 0 <= b < moved.len() && a != b implies #[trigger] moved[a].id
                != #[trigger] moved[b].id by {
                assert(moved[a].id == start[a].id && moved[b].id == start[b].id);
            }
        }
        let (alive, _fallen) = resolve_combat(
            &self.units,
            self.config.combat.attack_range,
            self.config.combat.base_damage,
        );
        self.units = alive;
        let (red, blue) = team_counts(&self.units);
        self.game_over.check_victory(self.turn_state.turn, self.config.game.max_turns, red, blue);
        self.replay.end_turn(self.turn_state.turn, 0);
        if should_record_state(self.turn_state.turn) {
            self.states.record_snapshot(&self.turn_state, &self.units);
        }
    }

    /// Asks `ai` for one action per living unit, in order, all against the
    /// same snapshot of the living units, taken before the first decision.
    pub fn decide_all<A: AiController>(&self, ai: &mut A) -> (actions: Vec<Action>)
        ensures
            chosen_by::<A>(self.living(), actions@),
    {
        let snapshot = take_snapshot(&self.units);
        let mut actions: Vec<Action> = Vec::new();
        let mut i: usize = 0;
        while i < self.units.len()
            invariant
                i <= self.units@.len(),
                actions@.len() == i,
                snapshot.units@ == self.units@.map_values(|e: UnitEntry| snapshot_row(e)),
                forall|k: int|
                    0 <= k < i ==> #[trigger] A::may_choose(
                        self.units@[k].id,
                        self.units@[k].unit,
                        snapshot_rows(self.units@),
                        actions@[k],
                    ),
            decreases self.units@.len() - i,
        {
            let e = self.units[i];
            assert(snapshot.units@[i as int].0 == e.id);
            assert(listed(snapshot.units@, e.id));
            let a = ai.decide(e.id, &e.unit, &snapshot);
            actions.push(a);
            i = i + 1;
        }
        actions
    }

    /// Runs one whole turn now, whatever the clock says: decisions, then
    /// [`Simulation::play_turn`].
    pub fn step_turn<A: AiController>(&mut self, ai: &mut A)
        requires
            old(self).wf(),
            !old(self).over_state().over,
        ensures
            final(self).clock().time_us == old(self).clock().time_us,
            final(self).last_fired() == old(self).last_fired(),
            final(self).interval() == old(self).interval(),
            exists|actions: Seq<Action>|
                chosen_by::<A>(old(self).living(), actions) && #[trigger] old(self).played(
                    *final(self),
                    actions,
                    old(self).clock().time_us,
                ),
    {
        let actions = self.decide_all(ai);
        self.play_turn(&actions);
        assert(old(self).played(*self, actions@, old(self).clock().time_us));
    }

    /// Fires a turn if the game is running and at least the turn interval
    /// has passed since the last turn; `now_us` is the current time. Returns
    /// whether a turn fired; if none did, nothing changes. A fired turn is
    /// stamped `now_us`.
    pub fn fire_turn<A: AiController>(&mut self, now_us: u64, ai: &mut A) -> (fired: bool)
        requires
            old(self).wf(),
        ensures
            final(self).wf(),
            fired == (!old(self).over_state().over && now_us >= old(self).last_fired() && now_us
                - old(self).last_fired() >= old(self).interval()),
            !fired ==> *final(self) == *old(self) && *final(ai) == *old(ai),
            fired ==> final(self).clock() == (TurnState {
                turn: (old(self).clock().turn + 1) as u32,
                time_us: now_us,
            }) && final(self).last_fired() == now_us && final(self).interval() == old(
                self,
            ).interval(),
            fired ==> exists|actions: Seq<Action>|
                chosen_by::<A>(old(self).living(), actions) && #[trigger] old(self).played(
                    *final(self),
                    actions,
                    now_us,
                ),
    {
        if self.game_over.over || now_us < self.last_turn_us || now_us - self.last_turn_us
            < self.interval_us {
            return false;
        }
        self.last_turn_us = now_us;
        self.turn_state.time_us = now_us;
        let ghost mid = *self;
        let actions = self.decide_all(ai);
        self.play_turn(&actions);
        assert(mid.played(*self, actions@, now_us));
        assert(old(self).played(*self, actions@, now_us));
        true
    }

    /// Plays turns until the game is over; returns the outcome and the
    /// number of turns played in all. A game already over is left as it is;
    /// otherwise at least one more turn is played.
    pub fn run_to_end<A: AiController>(&mut self, ai: &mut A) -> (r: (GameOutcome, u32))
        requires
            old(self).wf(),
        ensures
            final(self).wf(),
            final(self).settings() == old(self).settings(),
            final(self).over_state().over,
            final(self).over_state().outcome == Some(r.0),
            r.0 == spec_outcome(
                team_count(final(self).living(), Team::Red) as int,
                team_count(final(self).living(), Team::Blue) as int,
            ),
            r.1 == final(self).clock().turn,
            r.1 <= old(self).settings().game.max_turns || r.1 == old(self).clock().turn,
            old(self).over_state().over ==> *final(self) == *old(self),
            !old(self).over_state().over ==> r.1 > old(self).clock().turn,
            exists|games: Seq<Simulation>, actions: Seq<Seq<Action>>|
                #![trigger turn_trace::<A>(games, actions)]
                turn_trace::<A>(games, actions) && games[0] == *old(self) && games.last()
                    == *final(self),
    {
        let ghost max = self.config.game.max_turns;
        let ghost t0 = self.turn_state.turn;
        let ghost s0 = *self;
        let ghost mut games: Seq<Simulation> = seq![*self];
        let ghost mut acts: Seq<Seq<Action>> = Seq::empty();
        while !self.game_over.over
            invariant
                turn_trace::<A>(games, acts),
                games[0] == s0,
                games.last() == *self,
                self.wf(),
                self.config == s0.config,
                self.config.game.max_turns == max,
                self.turn_state.turn == t0 || self.turn_state.turn <= max,
                self.turn_state.turn >= t0,
                self.turn_state.turn == t0 ==> *self == s0,
                s0.game_over.over ==> *self == s0,
            decreases max - self.turn_state.turn,
        {
            let ghost before = *self;
            self.step_turn(ai);
            proof {
                let a = choose|a: Seq<Action>|
                    chosen_by::<A>(before.living(), a) && #[trigger] before.played(
                        *self,
                        a,
                        before.clock().time_us,
                    );
                let g2 = games.push(*self);
                let a2 = acts.push(a);
                assert forall|i: int| 0 <= i < a2.len() implies chosen_by::<A>(
                    g2[i].living(),
                    #[trigger] a2[i],
                ) && g2[i].played(g2[i + 1], a2[i], g2[i].clock().time_us) by {
                    if i < acts.len() {
                        assert(a2[i] == acts[i]);
                        assert(g2[i] == games[i] && g2[i + 1] == games[i + 1]);
                    } else {
                        assert(g2[i] == before && g2[i + 1] == *self && a2[i] == a);
                    }
                }
                games = g2;
                acts = a2;
            }
        }
        assert(turn_trace::<A>(games, acts));
        let outcome = match self.game_over.outcome {
            Some(o) => o,
            None => GameOutcome::Draw,
        };
        (outcome, self.turn_state.turn)
    }

    /// The living units, in creation order.
    pub fn units(&self) -> (u: &Vec<UnitEntry>)
        ensures
            u@ == self.living(),
    {
        &self.units
    }

    /// The turn counter and the time of the last turn.
    pub fn turn_state(&self) -> (t: TurnState)
        ensures
            t == self.clock(),
    {
        self.turn_state
    }

    /// The game-over flag and outcome.
    pub fn game_over(&self) -> (g: GameOver)
        ensures
            g == self.over_state(),
    {
        self.game_over
    }

    /// The settings of the game.
    pub fn config(&self) -> (c: GameConfig)
        ensures
            c == self.settings(),
    {
        self.config
    }

    /// The number of living red and blue units.
    pub fn counts(&self) -> (c: (usize, usize))
        ensures
            c.0 == team_count(self.living(), Team::Red),
            c.1 == team_count(self.living(), Team::Blue),
    {
        team_counts(&self.units)
    }

    /// The replay recorder.
    pub fn replay(&self) -> (r: &ReplayRecorder)
        ensures
            r.view_state() == self.replay_view(),
    {
        &self.replay
    }

    /// The state recorder.
    pub fn states(&self) -> (r: &StateRecorder)
        ensures
            r.taken() == self.snapshots_taken(),
    {
        &self.states
    }
}

} // verus!
