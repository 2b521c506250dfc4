//! Periodic snapshots of the whole game state.

use vstd::prelude::*;
use crate::simulation::TurnState;
use crate::units::{Team, UnitEntry};

verus! {

/// Turns between two state snapshots.
pub const SNAPSHOT_INTERVAL: u32 = 10;

/// One living unit in a state snapshot.
#[derive(Clone, Copy, Debug)]
pub struct UnitSnapshot {
    pub team: Team,
    pub health: i32,
    pub position: (i32, i32),
}

/// The living units at one turn.
#[derive(Clone, Debug)]
pub struct GameSnapshot {
    pub turn: u32,
    pub time_us: u64,
    pub units: Vec<UnitSnapshot>,
}

impl View for GameSnapshot {
    type V = (u32, u64, Seq<UnitSnapshot>);

    open spec fn view(&self) -> (u32, u64, Seq<UnitSnapshot>) {
        (self.turn, self.time_us, self.units@)
    }
}

/// The snapshot row of a unit.
pub open spec fn unit_snapshot(e: UnitEntry) -> UnitSnapshot {
    UnitSnapshot {
        team: e.unit.team,
        health: e.unit.health,
        position: (e.pos.coord.q, e.pos.coord.r),
    }
}

/// Whether a snapshot is taken at turn `turn`.
pub fn should_record_state(turn: u32) -> (b: bool)
    ensures
        b == (turn % SNAPSHOT_INTERVAL == 0),
{
    turn % SNAPSHOT_INTERVAL == 0
}

/// Collects state snapshots.
pub struct StateRecorder {
    snapshots: Vec<GameSnapshot>,
    recording: bool,
}

impl StateRecorder {
    /// The snapshots taken so far, oldest first.
    pub closed spec fn taken(&self) -> Seq<(u32, u64, Seq<UnitSnapshot>)> {
        self.snapshots@.map_values(|g: GameSnapshot| g@)
    }

    /// Recording is on.
    pub closed spec fn wf(&self) -> bool {
        self.recording
    }

    /// An empty recorder.
    pub fn new() -> (r: StateRecorder)
        ensures
            r.wf(),
            r.taken() == Seq::<(u32, u64, Seq<UnitSnapshot>)>::empty(),
    {
        let r = StateRecorder { snapshots: Vec::new(), recording: true };
        assert(r.taken() =~= Seq::empty());
        r
    }

    /// Adds a snapshot of `units` at `turn_state`.
    pub fn record_snapshot(&mut self, turn_state: &TurnState, units: &Vec<UnitEntry>)
        requires
            old(self).wf(),
        ensures
            final(self).wf(),
            final(self).taken() == old(self).taken().push(
                (turn_state.turn, turn_state.time_us, units@.map_values(|e: UnitEntry| unit_snapshot(e))),
            ),
    {
        let mut rows: Vec<UnitSnapshot> = Vec::new();
        let mut i: usize = 0;
        while i < units.len()
            invariant
                i <= units@.len(),
                rows@ == units@.take(i as int).map_values(|e: UnitEntry| unit_snapshot(e)),
            decreases units@.len() - i,
        {
            let e = units[i];
            rows.push(
                UnitSnapshot {
                    team: e.unit.team,
                    health: e.unit.health,
                    position: (e.pos.coord.q, e.pos.coord.r),
                },
            );
            assert(units@.take(i + 1) == units@.take(i as int).push(e));
            assert(rows@ =~= units@.take(i + 1).map_values(|e: UnitEntry| unit_snapshot(e)));
            i = i + 1;
        }
        assert(units@.take(units@.len() as int) == units@);
        let g = GameSnapshot { turn: turn_state.turn, time_us: turn_state.time_us, units: rows };
        let ghost before = self.snapshots@;
        self.snapshots.push(g);
        assert(self.taken() =~= before.map_values(|g: GameSnapshot| g@).push(g@));
    }

    /// The snapshots taken so far, oldest first.
    pub fn snapshots(&self) -> (s: &Vec<GameSnapshot>)
        ensures
            s@.map_values(|g: GameSnapshot| g@) == self.taken(),
    {
        &self.snapshots
    }
}

} // verus!
