//! Per-unit decision making against a frozen snapshot of the world.

use vstd::prelude::*;
use rand::rngs::SmallRng;
use rand::seq::SliceRandom;
use rand::Rng;
use rand::SeedableRng;
use crate::actions::Action;
use crate::hex::{axial_dist, direction, is_step, spec_direction, HexCoord};
use crate::units::{Team, Unit, UnitEntry};

verus! {

#[verifier::external_type_specification]
#[verifier::external_body]
pub struct ExSmallRng(rand::rngs::SmallRng);

/// Relies on `SeedableRng::from_entropy` for `SmallRng`: a generator seeded
/// from the operating system.
#[verifier::external_body]
fn entropy_rng() -> SmallRng {
    SmallRng::from_entropy()
}

/// Relies on `SeedableRng::seed_from_u64` for `SmallRng`: a generator
/// seeded from `seed`.
#[verifier::external_body]
fn seeded_rng(seed: u64) -> SmallRng {
    SmallRng::seed_from_u64(seed)
}

/// Relies on `Rng::gen_ratio`: `true` with probability
/// `numerator / denominator`, always `false` for `0`, always `true` when the
/// two are equal; it panics on `denominator == 0` or
/// `numerator > denominator`.
#[verifier::external_body]
fn draw_ratio(rng: &mut SmallRng, numerator: u32, denominator: u32) -> (b: bool)
    requires
        0 < denominator,
        numerator <= denominator,
    ensures
        numerator == 0 ==> !b,
        numerator == denominator ==> b,
{
    rng.gen_ratio(numerator, denominator)
}

/// Relies on `SliceRandom::choose`: one element of a non-empty slice, picked
/// uniformly (it returns `None` only for an empty slice).
#[verifier::external_body]
fn draw_element(rng: &mut SmallRng, items: &[(i32, i32)]) -> (x: (i32, i32))
    requires
        items@.len() > 0,
    ensures
        items@.contains(x),
{
    *items.choose(rng).unwrap()
}

/// Read-only view of the living units, taken once per turn before any
/// decision: `(unit id, team, position)` in world order.
#[derive(Clone, Debug)]
pub struct WorldSnapshot {
    pub units: Vec<(u32, Team, HexCoord)>,
}

/// The snapshot row of a unit.
pub open spec fn snapshot_row(e: UnitEntry) -> (u32, Team, HexCoord) {
    (e.id, e.unit.team, e.pos.coord)
}

/// Takes the snapshot of `units`.
pub fn take_snapshot(units: &Vec<UnitEntry>) -> (s: WorldSnapshot)
    ensures
        s.units@ == units@.map_values(|e: UnitEntry| snapshot_row(e)),
{
    let mut rows: Vec<(u32, Team, HexCoord)> = Vec::new();
    let mut i: usize = 0;
    while i < units.len()
        invariant
            i <= units@.len(),
            rows@ == units@.take(i as int).map_values(|e: UnitEntry| snapshot_row(e)),
        decreases units@.len() - i,
    {
        let e = units[i];
        rows.push((e.id, e.unit.team, e.pos.coord));
        assert(units@.take(i + 1) == units@.take(i as int).push(e));
        assert(rows@ == units@.take(i + 1).map_values(|e: UnitEntry| snapshot_row(e)));
        i = i + 1;
    }
    assert(units@.take(units@.len() as int) == units@);
    WorldSnapshot { units: rows }
}

/// Whether unit `id` appears in the snapshot rows.
pub open spec fn listed(rows: Seq<(u32, Team, HexCoord)>, id: u32) -> bool {
    exists|i: int| 0 <= i < rows.len() && (#[trigger] rows[i]).0 == id
}

/// Chooses one action for one unit.
pub trait AiController {
    /// Whether `a` is an action this controller may choose for unit
    /// `unit_id`, whose state is `self_state`, when it sees the snapshot rows
    /// `rows`. A controller that promises nothing leaves every action open.
    open spec fn may_choose(unit_id: u32, self_state: Unit, rows: Seq<(u32, Team, HexCoord)>, a: Action) -> bool {
        true
    }

    /// Decides what unit `unit_id`, whose state is `self_state`, does this
    /// turn, given the snapshot `world` in which it appears.
    fn decide(&mut self, unit_id: u32, self_state: &Unit, world: &WorldSnapshot) -> (a: Action)
        requires
            listed(world.units@, unit_id),
        ensures
            Self::may_choose(unit_id, *self_state, world.units@, a),
    ;
}

/// The position of the first row of `rows` among the first `k` that
/// carries `id`.
pub open spec fn position_upto(rows: Seq<(u32, Team, HexCoord)>, id: u32, k: nat) -> Option<
    HexCoord,
>
    decreases k,
{
    if k == 0 {
        None
    } else {
        let prev = position_upto(rows, id, (k - 1) as nat);
        if prev is Some {
            prev
        } else if rows[k - 1].0 == id {
            Some(rows[k - 1].2)
        } else {
            None
        }
    }
}

/// The position of unit `id` in the snapshot rows (its first row).
pub open spec fn position_of(rows: Seq<(u32, Team, HexCoord)>, id: u32) -> Option<HexCoord> {
    position_upto(rows, id, rows.len())
}

/// The nearest position to `from` of a unit not on `team` among the first
/// `k` rows; of several at the least distance, the first.
pub open spec fn nearest_upto(
    rows: Seq<(u32, Team, HexCoord)>,
    team: Team,
    from: HexCoord,
    k: nat,
) -> Option<HexCoord>
    decreases k,
{
    if k == 0 {
        None
    } else {
        let prev = nearest_upto(rows, team, from, (k - 1) as nat);
        let p = rows[k - 1].2;
        if rows[k - 1].1 != team && (prev is None || axial_dist(
            from.q as int,
            from.r as int,
            p.q as int,
            p.r as int,
        ) < axial_dist(from.q as int, from.r as int, prev.unwrap().q as int, prev.unwrap().r as int)) {
            Some(p)
        } else {
            prev
        }
    }
}

/// The nearest enemy position to `from`, first in snapshot order on ties.
pub open spec fn nearest(rows: Seq<(u32, Team, HexCoord)>, team: Team, from: HexCoord) -> Option<
    HexCoord,
> {
    nearest_upto(rows, team, from, rows.len())
}

/// The distance to `target` after taking step `i` from `from`.
pub open spec fn step_dist(from: HexCoord, i: int, target: HexCoord) -> int {
    axial_dist(
        from.q + spec_direction(i).0,
        from.r + spec_direction(i).1,
        target.q as int,
        target.r as int,
    )
}

/// Among the first `k` (at least one) steps, the index of the one that
/// ends nearest to `target`; of several, the first.
pub open spec fn best_upto(from: HexCoord, target: HexCoord, k: nat) -> int
    decreases k,
{
    if k <= 1 {
        0
    } else {
        let b = best_upto(from, target, (k - 1) as nat);
        if step_dist(from, k - 1, target) < step_dist(from, b, target) {
            k - 1
        } else {
            b
        }
    }
}

/// The step from `from` that ends nearest to `target`, first in direction
/// order on ties.
pub open spec fn best_step(from: HexCoord, target: HexCoord) -> (i32, i32) {
    spec_direction(best_upto(from, target, 6))
}

/// The action of the nearest-enemy policy: stay when there is no enemy;
/// otherwise, when exploring, take `random_step`, else the step that ends
/// nearest to the nearest enemy.
pub open spec fn policy_action(
    rows: Seq<(u32, Team, HexCoord)>,
    team: Team,
    from: HexCoord,
    explore: bool,
    random_step: (i32, i32),
) -> Action {
    match nearest(rows, team, from) {
        None => Action::Stay,
        Some(target) => if explore {
            Action::Move(random_step.0, random_step.1)
        } else {
            Action::Move(best_step(from, target).0, best_step(from, target).1)
        },
    }
}

/// The distance from `from` to `p`.
pub open spec fn dist_from(from: HexCoord, p: HexCoord) -> int {
    axial_dist(from.q as int, from.r as int, p.q as int, p.r as int)
}

/// Row `i` is an enemy row nearest to `from` among the first `k`, and the
/// first such.
pub open spec fn first_nearest(rows: Seq<(u32, Team, HexCoord)>, team: Team, from: HexCoord, k: int, i: int) -> bool {
    &&& 0 <= i < k
    &&& rows[i].1 != team
    &&& forall|j: int|
        0 <= j < k && rows[j].1 != team ==> dist_from(from, rows[i].2) <= dist_from(
            from,
            #[trigger] rows[j].2,
        )
    &&& forall|j: int|
        0 <= j < i && rows[j].1 != team ==> dist_from(from, #[trigger] rows[j].2) > dist_from(
            from,
            rows[i].2,
        )
}

proof fn lemma_nearest_upto_first_minimum(
    rows: Seq<(u32, Team, HexCoord)>,
    team: Team,
    from: HexCoord,
    k: nat,
)
    requires
        k <= rows.len(),
    ensures
        nearest_upto(rows, team, from, k) is None <==> forall|j: int|
            0 <= j < k ==> (#[trigger] rows[j]).1 == team,
        nearest_upto(rows, team, from, k) is Some ==> exists|i: int|
            first_nearest(rows, team, from, k as int, i) && rows[i].2 == nearest_upto(
                rows,
                team,
                from,
                k,
            ).unwrap(),
    decreases k,
{
    if k > 0 {
        lemma_nearest_upto_first_minimum(rows, team, from, (k - 1) as nat);
        let prev = nearest_upto(rows, team, from, (k - 1) as nat);
        let row = rows[k - 1];
        let cur = nearest_upto(rows, team, from, k);
        if row.1 != team && (prev is None || dist_from(from, row.2) < dist_from(from, prev.unwrap())) {
            if prev is Some {
                let i0 = choose|i: int|
                    first_nearest(rows, team, from, k - 1, i) && rows[i].2 == prev.unwrap();
                assert(first_nearest(rows, team, from, k as int, k - 1));
            } else {
                assert(first_nearest(rows, team, from, k as int, k - 1));
            }
        } else if prev is Some {
            let i0 = choose|i: int|
                first_nearest(rows, team, from, k - 1, i) && rows[i].2 == prev.unwrap();
            assert(first_nearest(rows, team, from, k as int, i0));
        } else {
            assert(row.1 == team);
            assert forall|j: int| 0 <= j < k implies (#[trigger] rows[j]).1 == team by {
                if j < k - 1 {
                    assert(rows[j].1 == team);
                }
            }
        }
    }
}

/// The nearest enemy is the first of the least distance: there is none
/// exactly when no row is an enemy; otherwise it is the position of an enemy
/// row that no enemy row is nearer than, and every enemy row before it is
/// farther.
pub proof fn lemma_nearest_first_minimum(rows: Seq<(u32, Team, HexCoord)>, team: Team, from: HexCoord)
    ensures
        nearest(rows, team, from) is None <==> forall|j: int|
            0 <= j < rows.len() ==> (#[trigger] rows[j]).1 == team,
        nearest(rows, team, from) is Some ==> exists|i: int|
            first_nearest(rows, team, from, rows.len() as int, i) && rows[i].2 == nearest(
                rows,
                team,
                from,
            ).unwrap(),
{
    lemma_nearest_upto_first_minimum(rows, team, from, rows.len());
}

proof fn lemma_best_upto_first_minimum(from: HexCoord, target: HexCoord, k: nat)
    requires
        1 <= k <= 6,
    ensures
        0 <= best_upto(from, target, k) < k,
        forall|i: int|
            0 <= i < k ==> step_dist(from, best_upto(from, target, k), target) <= #[trigger] step_dist(
                from,
                i,
                target,
            ),
        forall|i: int|
            0 <= i < best_upto(from, target, k) ==> #[trigger] step_dist(from, i, target) > step_dist(
                from,
                best_upto(from, target, k),
                target,
            ),
    decreases k,
{
    if k > 1 {
        lemma_best_upto_first_minimum(from, target, (k - 1) as nat);
    }
}

/// The greedy step is the first of the least distance: of the six steps in
/// their fixed order, none ends nearer to `target`, and every step before it
/// ends farther.
pub proof fn lemma_best_step_first_minimum(from: HexCoord, target: HexCoord)
    ensures
        0 <= best_upto(from, target, 6) < 6,
        best_step(from, target) == spec_direction(best_upto(from, target, 6)),
        forall|i: int|
            0 <= i < 6 ==> step_dist(from, best_upto(from, target, 6), target) <= #[trigger] step_dist(
                from,
                i,
                target,
            ),
        forall|i: int|
            0 <= i < best_upto(from, target, 6) ==> #[trigger] step_dist(from, i, target) > step_dist(
                from,
                best_upto(from, target, 6),
                target,
            ),
{
    lemma_best_upto_first_minimum(from, target, 6);
}

/// Axial distance over `i64` for coordinates of at most 33 bits.
fn distance_i64(aq: i64, ar: i64, bq: i64, br: i64) -> (d: i64)
    requires
        -0x2_0000_0000 <= aq <= 0x2_0000_0000,
        -0x2_0000_0000 <= ar <= 0x2_0000_0000,
        -0x2_0000_0000 <= bq <= 0x2_0000_0000,
        -0x2_0000_0000 <= br <= 0x2_0000_0000,
    ensures
        d == axial_dist(aq as int, ar as int, bq as int, br as int),
{
    let dq: i64 = aq - bq;
    let dr: i64 = ar - br;
    let ds: i64 = dq + dr;
    let x: i64 = if dq < 0 { -dq } else { dq };
    let y: i64 = if dr < 0 { -dr } else { dr };
    let z: i64 = if ds < 0 { -ds } else { ds };
    (x + z + y) / 2
}

/// The position of unit `id` in the snapshot (its first row).
pub fn position_in(world: &WorldSnapshot, id: u32) -> (p: Option<HexCoord>)
    ensures
        p == position_of(world.units@, id),
        p is Some <==> listed(world.units@, id),
{
    let mut i: usize = 0;
    while i < world.units.len()
        invariant
            i <= world.units@.len(),
            position_upto(world.units@, id, i as nat) is None,
            forall|k: int| 0 <= k < i ==> (#[trigger] world.units@[k]).0 != id,
        decreases world.units@.len() - i,
    {
        if world.units[i].0 == id {
            proof {
                lemma_position_settled(world.units@, id, (i + 1) as nat, world.units@.len());
            }
            return Some(world.units[i].2);
        }
        i = i + 1;
    }
    None
}

proof fn lemma_position_settled(rows: Seq<(u32, Team, HexCoord)>, id: u32, k: nat, m: nat)
    requires
        k <= m <= rows.len(),
        position_upto(rows, id, k) is Some,
    ensures
        position_upto(rows, id, m) == position_upto(rows, id, k),
    decreases m,
{
    if m > k {
        lemma_position_settled(rows, id, k, (m - 1) as nat);
    }
}

/// The nearest position to `from` of a unit not on `team`, first in
/// snapshot order on ties; `None` when there is no such unit.
pub fn nearest_enemy(world: &WorldSnapshot, team: Team, from: HexCoord) -> (p: Option<HexCoord>)
    ensures
        p == nearest(world.units@, team, from),
{
    let mut best: Option<HexCoord> = None;
    let mut best_d: i64 = 0;
    let mut i: usize = 0;
    while i < world.units.len()
        invariant
            i <= world.units@.len(),
            best == nearest_upto(world.units@, team, from, i as nat),
            best is Some ==> best_d == axial_dist(
                from.q as int,
                from.r as int,
                best.unwrap().q as int,
                best.unwrap().r as int,
            ),
        decreases world.units@.len() - i,
    {
        let (_, t, p) = world.units[i];
        if t != team {
            let d = distance_i64(from.q as i64, from.r as i64, p.q as i64, p.r as i64);
            if best.is_none() || d < best_d {
                best = Some(p);
                best_d = d;
            }
        }
        i = i + 1;
    }
    best
}

/// The step from `from` that ends nearest to `target`, first in the fixed
/// direction order on ties.
pub fn best_step_toward(from: HexCoord, target: HexCoord) -> (s: (i32, i32))
    ensures
        s == best_step(from, target),
        is_step(s.0, s.1),
{
    let mut best: usize = 0;
    let d0 = direction(0);
    let mut best_d: i64 = distance_i64(
        from.q as i64 + d0.0 as i64,
        from.r as i64 + d0.1 as i64,
        target.q as i64,
        target.r as i64,
    );
    let mut i: usize = 1;
    while i < 6
        invariant
            1 <= i <= 6,
            best as int == best_upto(from, target, i as nat),
            best < 6,
            best_d == step_dist(from, best as int, target),
        decreases 6 - i,
    {
        let d = direction(i);
        let di = distance_i64(
            from.q as i64 + d.0 as i64,
            from.r as i64 + d.1 as i64,
            target.q as i64,
            target.r as i64,
        );
        if di < best_d {
            best = i;
            best_d = di;
        }
        i = i + 1;
    }
    direction(best)
}

/// The action of the nearest-enemy policy for a unit of `team` at `from`:
/// stay when the snapshot holds no enemy; otherwise `random_step` when
/// `explore` is set, else the step that ends nearest to the nearest enemy.
pub fn choose_action(
    world: &WorldSnapshot,
    team: Team,
    from: HexCoord,
    explore: bool,
    random_step: (i32, i32),
) -> (a: Action)
    ensures
        a == policy_action(world.units@, team, from, explore, random_step),
{
    match nearest_enemy(world, team, from) {
        None => Action::Stay,
        Some(target) => {
            if explore {
                Action::Move(random_step.0, random_step.1)
            } else {
                let s = best_step_toward(from, target);
                Action::Move(s.0, s.1)
            }
        },
    }
}

/// The six unit steps in the fixed direction order.
pub fn hex_directions() -> (v: Vec<(i32, i32)>)
    ensures
        v@.len() == 6,
        forall|i: int| 0 <= i < 6 ==> v@[i] == spec_direction(i),
        forall|x: (i32, i32)| v@.contains(x) ==> is_step(x.0, x.1),
{
    let v = vec![(1, 0), (1, -1), (0, -1), (-1, 0), (-1, 1), (0, 1)];
    assert forall|x: (i32, i32)| v@.contains(x) implies is_step(x.0, x.1) by {
        let i = choose|i: int| 0 <= i < v@.len() && v@[i] == x;
    }
    v
}

/// The nearest-enemy policy with random exploration: with probability
/// `explore_numerator / explore_denominator` a unit that sees an enemy
/// takes a uniformly random step instead of the greedy one.
pub struct RandomAi {
    rng: SmallRng,
    explore_numerator: u32,
    explore_denominator: u32,
}

impl RandomAi {
    /// Whether the exploration probability is a proper ratio.
    pub closed spec fn wf(&self) -> bool {
        0 < self.explore_denominator && self.explore_numerator <= self.explore_denominator
    }

    /// The exploration probability as numerator and denominator.
    pub closed spec fn explore_ratio(&self) -> (u32, u32) {
        (self.explore_numerator, self.explore_denominator)
    }

    /// A policy seeded from the operating system that explores three times
    /// in ten.
    pub fn new() -> (ai: RandomAi)
        ensures
            ai.wf(),
            ai.explore_ratio() == (3u32, 10u32),
    {
        RandomAi { rng: entropy_rng(), explore_numerator: 3, explore_denominator: 10 }
    }

    /// A reproducible policy seeded with `seed`, exploring with probability
    /// `numerator / denominator`; `None` when that is not a probability.
    pub fn with_seed(seed: u64, numerator: u32, denominator: u32) -> (ai: Option<RandomAi>)
        ensures
            ai is Some <==> (0 < denominator && numerator <= denominator),
            ai is Some ==> ai.unwrap().wf() && ai.unwrap().explore_ratio() == (
                numerator,
                denominator,
            ),
    {
        if denominator == 0 || numerator > denominator {
            None
        } else {
            Some(
                RandomAi {
                    rng: seeded_rng(seed),
                    explore_numerator: numerator,
                    explore_denominator: denominator,
                },
            )
        }
    }
}

impl AiController for RandomAi {
    /// The nearest-enemy policy's action for some exploration outcome and
    /// some unit step.
    open spec fn may_choose(unit_id: u32, self_state: Unit, rows: Seq<(u32, Team, HexCoord)>, a: Action) -> bool {
        exists|explore: bool, step: (i32, i32)|
            #![trigger policy_action(rows, self_state.team, position_of(rows, unit_id).unwrap(), explore, step)]
            is_step(step.0, step.1) && a == policy_action(
                rows,
                self_state.team,
                position_of(rows, unit_id).unwrap(),
                explore,
                step,
            )
    }

    /// Locates the unit in the snapshot, then follows the nearest-enemy
    /// policy; exploration and its step are drawn from the generator only
    /// when an enemy is in the snapshot.
    fn decide(&mut self, unit_id: u32, self_state: &Unit, world: &WorldSnapshot) -> (a: Action)
        ensures
            final(self).explore_ratio() == old(self).explore_ratio(),
            old(self).wf() ==> final(self).wf(),
            old(self).wf() && old(self).explore_ratio().0 == 0 ==> a == policy_action(
                world.units@,
                self_state.team,
                position_of(world.units@, unit_id).unwrap(),
                false,
                (1i32, 0i32),
            ),
    {
        let from = match position_in(world, unit_id) {
            Some(p) => p,
            None => {
                return Action::Stay;
            },
        };
        let team = self_state.team;
        if nearest_enemy(world, team, from).is_none() {
            assert(policy_action(world.units@, team, from, false, (1i32, 0i32)) == Action::Stay);
            return Action::Stay;
        }
        if self.explore_denominator == 0 || self.explore_numerator > self.explore_denominator {
            return choose_action(world, team, from, false, (1, 0));
        }
        let explore = draw_ratio(&mut self.rng, self.explore_numerator, self.explore_denominator);
        let mut step: (i32, i32) = (1, 0);
        if explore {
            let dirs = hex_directions();
            step = draw_element(&mut self.rng, dirs.as_slice());
        }
        choose_action(world, team, from, explore, step)
    }
}

/// A named group of AI-controlled units.
#[derive(Clone, Debug)]
pub struct AITeam {
    pub id: u32,
    pub name: String,
    pub ai_count: usize,
}

impl AITeam {
    /// A group with the given id, name and size.
    pub fn new(id: u32, name: String, ai_count: usize) -> (t: AITeam)
        ensures
            t.id == id,
            t.name@ == name@,
            t.ai_count == ai_count,
    {
        AITeam { id, name, ai_count }
    }
}

} // verus!
