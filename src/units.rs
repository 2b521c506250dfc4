//! Units, teams and the initial line-up.

use vstd::prelude::*;
use crate::hex::HexCoord;

verus! {

/// One of the two sides.
#[derive(Clone, Copy, Debug, PartialEq, Eq, Structural, Hash)]
pub enum Team {
    Red,
    Blue,
}

/// The kind of a unit; only fighters are spawned.
#[derive(Clone, Copy, Debug, PartialEq, Eq, Structural, Hash)]
pub enum UnitType {
    Worker,
    Fighter,
    Scout,
}

impl Team {
    /// Short tag used in logs.
    pub fn tag(&self) -> (s: &'static str)
        ensures
            *self == Team::Red ==> s@ == "[RED]"@,
            *self == Team::Blue ==> s@ == "[BLUE]"@,
    {
        match self {
            Team::Red => "[RED]",
            Team::Blue => "[BLUE]",
        }
    }
}

/// The state of one unit: side, kind and hit points.
#[derive(Clone, Copy, Debug, PartialEq, Eq, Structural)]
pub struct Unit {
    pub team: Team,
    pub unit_type: UnitType,
    pub health: i32,
    pub max_health: i32,
}

impl Unit {
    /// A living unit has `0 < health <= max_health`.
    pub open spec fn alive(self) -> bool {
        0 < self.health <= self.max_health
    }
}

/// Where a unit stands.
#[derive(Clone, Copy, Debug, PartialEq, Eq, Structural)]
pub struct HexPosition {
    pub coord: HexCoord,
}

/// A unit in the world: its stable id, its state and its position.
#[derive(Clone, Copy, Debug, PartialEq, Eq, Structural)]
pub struct UnitEntry {
    pub id: u32,
    pub unit: Unit,
    pub pos: HexPosition,
}

/// Column of the `i`-th unit of a side in the initial line-up.
pub open spec fn spawn_q(i: int) -> int {
    -8 + (i % 8) * 2
}

/// Row of the `i`-th unit of a side in the initial line-up.
pub open spec fn spawn_r(team: Team, i: int) -> int {
    match team {
        Team::Red => -5 - i / 8,
        Team::Blue => 5 + i / 8,
    }
}

/// The `k`-th entry of the initial line-up of `n` fighters a side with
/// `health` hit points: reds first, then blues, ids `0 .. 2n`.
pub open spec fn spawn_entry(n: int, health: i32, k: int) -> UnitEntry {
    let team = if k < n {
        Team::Red
    } else {
        Team::Blue
    };
    let i = if k < n {
        k
    } else {
        k - n
    };
    UnitEntry {
        id: k as u32,
        unit: Unit { team, unit_type: UnitType::Fighter, health, max_health: health },
        pos: HexPosition { coord: HexCoord { q: spawn_q(i) as i32, r: spawn_r(team, i) as i32 } },
    }
}

/// The largest line-up a side can have: the whole line-up is indexable by
/// `usize` on every target and its ids fit in `u32`.
pub const MAX_UNITS_PER_TEAM: usize = 0x4000_0000;

proof fn lemma_spawn_coords_distinct(t1: Team, i: int, t2: Team, j: int)
    requires
        0 <= i,
        0 <= j,
        (t1, i) != (t2, j),
    ensures
        spawn_q(i) != spawn_q(j) || spawn_r(t1, i) != spawn_r(t2, j),
{
    if t1 == t2 {
        assert(i == 8 * (i / 8) + i % 8) by (nonlinear_arith);
        assert(j == 8 * (j / 8) + j % 8) by (nonlinear_arith);
    }
}

/// Builds the initial line-up: `units_per_team` fighters a side with full
/// health, reds at `(-8 + (i % 8) * 2, -5 - i / 8)`, blues at
/// `(-8 + (i % 8) * 2, 5 + i / 8)`; no two share a hex.
pub fn spawn_initial_units(units_per_team: usize, health: i32) -> (v: Vec<UnitEntry>)
    requires
        units_per_team <= MAX_UNITS_PER_TEAM,
    ensures
        v@.len() == 2 * units_per_team,
        forall|k: int| 0 <= k < v@.len() ==> v@[k] == spawn_entry(units_per_team as int, health, k),
        forall|a: int, b: int|
            0 <= a < v@.len() && 0 <= b < v@.len() && a != b ==> v@[a].pos.coord
                != v@[b].pos.coord,
{
    let mut v: Vec<UnitEntry> = Vec::new();
    let n = units_per_team;
    let mut k: usize = 0;
    while k < 2 * n
        invariant
            n <= MAX_UNITS_PER_TEAM,
            k <= 2 * n,
            v@.len() == k,
            forall|x: int| 0 <= x < k ==> v@[x] == spawn_entry(n as int, health, x),
        decreases 2 * n - k,
    {
        let team = if k < n {
            Team::Red
        } else {
            Team::Blue
        };
        let i: usize = if k < n {
            k
        } else {
            k - n
        };
        let q: i32 = -8 + ((i % 8) as i32) * 2;
        let row: i32 = (i / 8) as i32;
        let r: i32 = if k < n {
            -5 - row
        } else {
            5 + row
        };
        let e = UnitEntry {
            id: k as u32,
            unit: Unit { team, unit_type: UnitType::Fighter, health, max_health: health },
            pos: HexPosition { coord: HexCoord { q, r } },
        };
        assert(e == spawn_entry(n as int, health, k as int));
        v.push(e);
        k = k + 1;
    }
    assert forall|a: int, b: int|
        0 <= a < v@.len() && 0 <= b < v@.len() && a != b implies v@[a].pos.coord
        != v@[b].pos.coord by {
        let ea = spawn_entry(n as int, health, a);
        let eb = spawn_entry(n as int, health, b);
        let ia = if a < n { a } else { a - n };
        let ib = if b < n { b } else { b - n };
        lemma_spawn_coords_distinct(ea.unit.team, ia, eb.unit.team, ib);
    }
    v
}

} // verus!

verus! {

/// No two units carry the same id.
pub open spec fn distinct_ids(units: Seq<UnitEntry>) -> bool {
    forall|a: int, b: int|
        0 <= a < units.len() && 0 <= b < units.len() && a != b ==> #[trigger] units[a].id
            != #[trigger] units[b].id
}

/// Every unit is alive: `0 < health <= max_health`.
pub open spec fn all_alive(units: Seq<UnitEntry>) -> bool {
    forall|i: int| 0 <= i < units.len() ==> (#[trigger] units[i]).unit.alive()
}

} // verus!
