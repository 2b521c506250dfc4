//! Simultaneous combat between adjacent opposing units.

use vstd::prelude::*;
use crate::hex::{dist, hex_distance};
use crate::movement::distinct_positions;
use crate::units::{all_alive, distinct_ids, Unit, UnitEntry};

verus! {

/// `x` and `y` fight: they are on opposing sides and within `range`.
pub open spec fn engaged(x: UnitEntry, y: UnitEntry, range: int) -> bool {
    x.unit.team != y.unit.team && dist(x.pos.coord, y.pos.coord) <= range
}

/// How many of the first `k` units of `units` fight `x`.
pub open spec fn hits_upto(units: Seq<UnitEntry>, x: UnitEntry, range: int, k: nat) -> nat
    decreases k,
{
    if k == 0 {
        0
    } else {
        hits_upto(units, x, range, (k - 1) as nat) + if engaged(x, units[k - 1], range) {
            1nat
        } else {
            0nat
        }
    }
}

/// How many units of `units` fight `x`: each deals one blow to it.
pub open spec fn hits(units: Seq<UnitEntry>, x: UnitEntry, range: int) -> nat {
    hits_upto(units, x, range, units.len())
}

/// The health of `x` once every blow of the pass has landed.
pub open spec fn health_after(units: Seq<UnitEntry>, x: UnitEntry, range: int, damage: int) -> int {
    x.unit.health - hits(units, x, range) * damage
}

/// `x` with its health after the pass.
pub open spec fn wounded(units: Seq<UnitEntry>, x: UnitEntry, range: int, damage: int) -> UnitEntry {
    UnitEntry {
        unit: Unit { health: health_after(units, x, range, damage) as i32, ..x.unit },
        ..x
    }
}

/// The units among the first `k` that live through the pass, in order, with
/// their new health.
pub open spec fn survivors_upto(units: Seq<UnitEntry>, range: int, damage: int, k: nat) -> Seq<
    UnitEntry,
>
    decreases k,
{
    if k == 0 {
        Seq::empty()
    } else {
        let prev = survivors_upto(units, range, damage, (k - 1) as nat);
        let x = units[k - 1];
        if health_after(units, x, range, damage) > 0 {
            prev.push(wounded(units, x, range, damage))
        } else {
            prev
        }
    }
}

/// The ids of the units among the first `k` that fall in the pass, in order.
pub open spec fn defeated_upto(units: Seq<UnitEntry>, range: int, damage: int, k: nat) -> Seq<u32>
    decreases k,
{
    if k == 0 {
        Seq::empty()
    } else {
        let prev = defeated_upto(units, range, damage, (k - 1) as nat);
        let x = units[k - 1];
        if health_after(units, x, range, damage) > 0 {
            prev
        } else {
            prev.push(x.id)
        }
    }
}

/// The units that live through the combat pass.
pub open spec fn survivors(units: Seq<UnitEntry>, range: int, damage: int) -> Seq<UnitEntry> {
    survivors_upto(units, range, damage, units.len())
}

/// The ids of the units that fall in the combat pass.
pub open spec fn defeated(units: Seq<UnitEntry>, range: int, damage: int) -> Seq<u32> {
    defeated_upto(units, range, damage, units.len())
}

/// The fighting pairs `(i, j)`, `i < j`, whose first index is below `i_end`,
/// row by row, and within row `i_end` those whose second index is below `j_end`.
pub open spec fn pairs_row(units: Seq<UnitEntry>, range: int, i: int, j_end: int) -> Seq<(u32, u32)>
    decreases j_end - i,
{
    if j_end <= i + 1 {
        Seq::empty()
    } else {
        let prev = pairs_row(units, range, i, j_end - 1);
        let j = j_end - 1;
        if engaged(units[i], units[j], range) {
            prev.push((units[i].id, units[j].id))
        } else {
            prev
        }
    }
}

/// The ids of all fighting pairs `(i, j)` with `i < j < units.len()` and
/// `i < k`, ordered by `i`, then by `j`.
pub open spec fn pairs_upto(units: Seq<UnitEntry>, range: int, k: nat) -> Seq<(u32, u32)>
    decreases k,
{
    if k == 0 {
        Seq::empty()
    } else {
        pairs_upto(units, range, (k - 1) as nat) + pairs_row(
            units,
            range,
            k - 1,
            units.len() as int,
        )
    }
}

proof fn lemma_hits_upto_mono(units: Seq<UnitEntry>, x: UnitEntry, range: int, k: nat, m: nat)
    requires
        k <= m <= units.len(),
    ensures
        hits_upto(units, x, range, k) <= hits_upto(units, x, range, m),
    decreases m,
{
    if m > k {
        lemma_hits_upto_mono(units, x, range, k, (m - 1) as nat);
    }
}

/// The survivors of a pass over living units are alive, each one a unit of
/// `units` at its old place, and keep ids and hexes unshared.
pub proof fn lemma_survivors_from(units: Seq<UnitEntry>, range: int, damage: int, k: nat)
    requires
        k <= units.len(),
        damage >= 0,
        all_alive(units),
    ensures
        forall|s: int|
            #![trigger survivors_upto(units, range, damage, k)[s]]
            0 <= s < survivors_upto(units, range, damage, k).len() ==> exists|j: int|
                0 <= j < k && survivors_upto(units, range, damage, k)[s].id == units[j].id
                    && survivors_upto(units, range, damage, k)[s].pos == units[j].pos,
        all_alive(survivors_upto(units, range, damage, k)),
        distinct_ids(units) ==> distinct_ids(survivors_upto(units, range, damage, k)),
        distinct_positions(units) ==> distinct_positions(survivors_upto(units, range, damage, k)),
    decreases k,
{
    if k > 0 {
        let prev = survivors_upto(units, range, damage, (k - 1) as nat);
        lemma_survivors_from(units, range, damage, (k - 1) as nat);
        let x = units[k - 1];
        let h = health_after(units, x, range, damage);
        if h > 0 {
            let cur = survivors_upto(units, range, damage, k);
            assert(cur == prev.push(wounded(units, x, range, damage)));
            assert(x.unit.alive());
            assert(hits(units, x, range) * damage >= 0) by (nonlinear_arith)
                requires
                    damage >= 0,
            ;
            assert(cur[cur.len() - 1].unit.alive());
            assert forall|s: int| 0 <= s < cur.len() implies (#[trigger] cur[s]).unit.alive() by {
                if s < prev.len() {
                    assert(cur[s] == prev[s]);
                }
            }
            assert forall|s: int|
                #![trigger cur[s]]
                0 <= s < cur.len() implies exists|j: int|
                    0 <= j < k && cur[s].id == units[j].id && cur[s].pos == units[j].pos by {
                if s < prev.len() {
                    assert(cur[s] == prev[s]);
                    let j = choose|j: int|
                        0 <= j < k - 1 && prev[s].id == units[j].id && prev[s].pos == units[j].pos;
                } else {
                    assert(cur[s].id == units[k - 1].id);
                }
            }
            if distinct_ids(units) {
                assert forall|a: int, b: int|
                    0 <= a < cur.len() && 0 <= b < cur.len() && a != b implies #[trigger] cur[a].id
                    != #[trigger] cur[b].id by {
                    if a < prev.len() && b < prev.len() {
                        assert(cur[a] == prev[a] && cur[b] == prev[b]);
                    } else if a < prev.len() {
                        assert(cur[a] == prev[a]);
                        let j = choose|j: int|
                            0 <= j < k - 1 && prev[a].id == units[j].id && prev[a].pos
                                == units[j].pos;
                        assert(units[j].id != units[k - 1].id);
                    } else {
                        assert(cur[b] == prev[b]);
                        let j = choose|j: int|
                            0 <= j < k - 1 && prev[b].id == units[j].id && prev[b].pos
                                == units[j].pos;
                        assert(units[j].id != units[k - 1].id);
                    }
                }
            }
            if distinct_positions(units) {
                assert forall|a: int, b: int|
                    0 <= a < cur.len() && 0 <= b < cur.len() && a != b implies #[trigger] cur[a].pos.coord
                    != #[trigger] cur[b].pos.coord by {
                    if a < prev.len() && b < prev.len() {
                        assert(cur[a] == prev[a] && cur[b] == prev[b]);
                    } else if a < prev.len() {
                        assert(cur[a] == prev[a]);
                        let j = choose|j: int|
                            0 <= j < k - 1 && prev[a].id == units[j].id && prev[a].pos
                                == units[j].pos;
                        assert(units[j].pos.coord != units[k - 1].pos.coord);
                    } else {
                        assert(cur[b] == prev[b]);
                        let j = choose|j: int|
                            0 <= j < k - 1 && prev[b].id == units[j].id && prev[b].pos
                                == units[j].pos;
                        assert(units[j].pos.coord != units[k - 1].pos.coord);
                    }
                }
            }
        } else {
            assert forall|s: int|
                #![trigger prev[s]]
                0 <= s < prev.len() implies exists|j: int|
                    0 <= j < k && prev[s].id == units[j].id && prev[s].pos == units[j].pos by {
                let j = choose|j: int|
                    0 <= j < k - 1 && prev[s].id == units[j].id && prev[s].pos == units[j].pos;
            }
        }
    }
}

/// Whether `x` and `y` fight.
fn fights(x: &UnitEntry, y: &UnitEntry, range: i32) -> (b: bool)
    ensures
        b == engaged(*x, *y, range as int),
{
    x.unit.team != y.unit.team && hex_distance(x.pos.coord, y.pos.coord) <= range as i64
}

/// The ids of all pairs of units on opposing sides within `range` of each
/// other, each unordered pair once, as `(units[i].id, units[j].id)` with
/// `i < j`, ordered by `i`, then by `j`.
pub fn check_combat(units: &Vec<UnitEntry>, range: i32) -> (pairs: Vec<(u32, u32)>)
    ensures
        pairs@ == pairs_upto(units@, range as int, units@.len()),
{
    let n = units.len();
    let mut pairs: Vec<(u32, u32)> = Vec::new();
    let mut i: usize = 0;
    while i < n
        invariant
            n == units@.len(),
            i <= n,
            pairs@ == pairs_upto(units@, range as int, i as nat),
        decreases n - i,
    {
        let ghost before = pairs@;
        let mut j: usize = i + 1;
        while j < n
            invariant
                n == units@.len(),
                i < n,
                i + 1 <= j <= n,
                pairs@ == before + pairs_row(units@, range as int, i as int, j as int),
            decreases n - j,
        {
            if fights(&units[i], &units[j], range) {
                pairs.push((units[i].id, units[j].id));
            }
            assert(pairs@ == before + pairs_row(units@, range as int, i as int, (j + 1) as int));
            j = j + 1;
        }
        i = i + 1;
    }
    pairs
}

/// Whether `x` lives through the pass, and its health then: `x` takes
/// `damage` from every opposing unit of `units` within `range`.
fn health_after_pass(units: &Vec<UnitEntry>, x: &UnitEntry, range: i32, damage: u32) -> (r: (
    bool,
    i32,
))
    requires
        x.unit.alive(),
    ensures
        r.0 == (health_after(units@, *x, range as int, damage as int) > 0),
        r.0 ==> r.1 == health_after(units@, *x, range as int, damage as int),
{
    let h: i64 = x.unit.health as i64;
    let mut taken: i64 = 0;
    let mut j: usize = 0;
    assert(hits_upto(units@, *x, range as int, 0) == 0);
    assert(0 * (damage as int) == 0);
    while j < units.len()
        invariant
            j <= units@.len(),
            h == x.unit.health,
            0 < h <= i32::MAX,
            0 <= taken < h,
            taken == hits_upto(units@, *x, range as int, j as nat) * damage,
        decreases units@.len() - j,
    {
        let ghost a = hits_upto(units@, *x, range as int, j as nat);
        assert((a + 1) * damage == a * damage + damage) by (nonlinear_arith);
        if fights(x, &units[j], range) {
            taken = taken + damage as i64;
            if taken >= h {
                proof {
                    let k = (j + 1) as nat;
                    lemma_hits_upto_mono(units@, *x, range as int, k, units@.len());
                    let b = hits(units@, *x, range as int);
                    assert((a + 1) * damage <= b * damage) by (nonlinear_arith)
                        requires
                            a + 1 <= b,
                            damage >= 0,
                    ;
                }
                return (false, 0);
            }
        }
        j = j + 1;
    }
    (true, (h - taken) as i32)
}

/// The combat pass over the living units: every unit takes `damage` from
/// each opposing unit within `range`, all blows computed from the state
/// before the pass; the units whose health drops to zero or below are
/// removed. Returns the survivors in their order, with their new health,
/// and the ids of the fallen in their order.
pub fn resolve_combat(units: &Vec<UnitEntry>, range: i32, damage: u32) -> (r: (
    Vec<UnitEntry>,
    Vec<u32>,
))
    requires
        all_alive(units@),
    ensures
        r.0@ == survivors(units@, range as int, damage as int),
        r.1@ == defeated(units@, range as int, damage as int),
        all_alive(r.0@),
        distinct_ids(units@) ==> distinct_ids(r.0@),
        distinct_positions(units@) ==> distinct_positions(r.0@),
{
    let n = units.len();
    let mut alive: Vec<UnitEntry> = Vec::new();
    let mut fallen: Vec<u32> = Vec::new();
    let mut i: usize = 0;
    while i < n
        invariant
            n == units@.len(),
            i <= n,
            all_alive(units@),
            alive@ == survivors_upto(units@, range as int, damage as int, i as nat),
            fallen@ == defeated_upto(units@, range as int, damage as int, i as nat),
        decreases n - i,
    {
        let x = units[i];
        let (lives, h) = health_after_pass(units, &x, range, damage);
        if lives {
            alive.push(UnitEntry { unit: Unit { health: h, ..x.unit }, ..x });
        } else {
            fallen.push(x.id);
        }
        i = i + 1;
    }
    proof {
        lemma_survivors_from(units@, range as int, damage as int, n as nat);
    }
    (alive, fallen)
}

/// `x` with health `h`.
pub open spec fn with_health(x: UnitEntry, h: int) -> UnitEntry {
    UnitEntry { unit: Unit { health: h as i32, ..x.unit }, ..x }
}

/// Combat is simultaneous within a pass: two adjacent opposing units that
/// face no one else each take exactly one blow, whichever of them comes
/// first; the damage one takes does not change the damage it deals.
pub proof fn lemma_simultaneous_blows(a: UnitEntry, b: UnitEntry, range: int, damage: int)
    requires
        a.unit.team != b.unit.team,
        dist(a.pos.coord, b.pos.coord) <= range,
    ensures
        health_after(seq![a, b], a, range, damage) == a.unit.health - damage,
        health_after(seq![a, b], b, range, damage) == b.unit.health - damage,
        health_after(seq![b, a], a, range, damage) == a.unit.health - damage,
        health_after(seq![b, a], b, range, damage) == b.unit.health - damage,
        a.unit.health - damage > 0 && b.unit.health - damage > 0 ==> survivors(
            seq![a, b],
            range,
            damage,
        ) == seq![with_health(a, a.unit.health - damage), with_health(b, b.unit.health - damage)],
        a.unit.health - damage <= 0 && b.unit.health - damage <= 0 ==> survivors(
            seq![a, b],
            range,
            damage,
        ).len() == 0 && defeated(seq![a, b], range, damage) == seq![a.id, b.id],
{
    let ab = seq![a, b];
    let ba = seq![b, a];
    assert(dist(b.pos.coord, a.pos.coord) == dist(a.pos.coord, b.pos.coord));
    assert(ab[0] == a && ab[1] == b && ab.len() == 2);
    assert(ba[0] == b && ba[1] == a && ba.len() == 2);
    assert(hits_upto(ab, a, range, 0) == 0 && hits_upto(ab, b, range, 0) == 0);
    assert(hits_upto(ba, a, range, 0) == 0 && hits_upto(ba, b, range, 0) == 0);
    assert(hits(ab, a, range) == 1) by {
        assert(hits_upto(ab, a, range, 1) == 0);
    }
    assert(hits(ab, b, range) == 1) by {
        assert(hits_upto(ab, b, range, 1) == 1);
    }
    assert(hits(ba, a, range) == 1) by {
        assert(hits_upto(ba, a, range, 1) == 1);
    }
    assert(hits(ba, b, range) == 1) by {
        assert(hits_upto(ba, b, range, 1) == 0);
    }
    assert(health_after(ab, a, range, damage) == a.unit.health - damage);
    assert(health_after(ab, b, range, damage) == b.unit.health - damage);
    let s0 = survivors_upto(ab, range, damage, 0);
    let s1 = survivors_upto(ab, range, damage, 1);
    let s2 = survivors_upto(ab, range, damage, 2);
    let d0 = defeated_upto(ab, range, damage, 0);
    let d1 = defeated_upto(ab, range, damage, 1);
    let d2 = defeated_upto(ab, range, damage, 2);
    if a.unit.health - damage > 0 && b.unit.health - damage > 0 {
        assert(s1 == s0.push(wounded(ab, a, range, damage)));
        assert(s2 == s1.push(wounded(ab, b, range, damage)));
        assert(s2 =~= seq![
            with_health(a, a.unit.health - damage),
            with_health(b, b.unit.health - damage),
        ]);
    }
    if a.unit.health - damage <= 0 && b.unit.health - damage <= 0 {
        assert(s2 == s1 && s1 == s0);
        assert(d1 == d0.push(a.id));
        assert(d2 == d1.push(b.id));
        assert(d2 =~= seq![a.id, b.id]);
    }
}

/// One if `y` fights `x`, else zero.
pub open spec fn blow(x: UnitEntry, y: UnitEntry, range: int) -> nat {
    if engaged(x, y, range) {
        1
    } else {
        0
    }
}

proof fn lemma_hits_prefix(s1: Seq<UnitEntry>, s2: Seq<UnitEntry>, x: UnitEntry, range: int, k: nat)
    requires
        k <= s1.len(),
        k <= s2.len(),
        forall|i: int| 0 <= i < k ==> s1[i] == s2[i],
    ensures
        hits_upto(s1, x, range, k) == hits_upto(s2, x, range, k),
    decreases k,
{
    if k > 0 {
        lemma_hits_prefix(s1, s2, x, range, (k - 1) as nat);
    }
}

proof fn lemma_hits_concat(a: Seq<UnitEntry>, b: Seq<UnitEntry>, x: UnitEntry, range: int)
    ensures
        hits(a + b, x, range) == hits(a, x, range) + hits(b, x, range),
    decreases b.len(),
{
    if b.len() == 0 {
        assert(a + b =~= a);
    } else {
        let b1 = b.drop_last();
        let y = b.last();
        let ab = a + b;
        let ab1 = a + b1;
        lemma_hits_concat(a, b1, x, range);
        assert(ab[ab.len() - 1] == y);
        lemma_hits_prefix(ab, ab1, x, range, ab1.len());
        lemma_hits_prefix(b, b1, x, range, b1.len());
    }
}

proof fn lemma_hits_single(y: UnitEntry, x: UnitEntry, range: int)
    ensures
        hits(seq![y], x, range) == blow(x, y, range),
{
    assert(hits_upto(seq![y], x, range, 0) == 0);
}

proof fn lemma_hits_remove(s: Seq<UnitEntry>, j: int, x: UnitEntry, range: int)
    requires
        0 <= j < s.len(),
    ensures
        hits(s, x, range) == hits(s.remove(j), x, range) + blow(x, s[j], range),
{
    let pre = s.take(j);
    let post = s.skip(j + 1);
    assert(s =~= pre + seq![s[j]] + post);
    assert(s.remove(j) =~= pre + post);
    lemma_hits_concat(pre + seq![s[j]], post, x, range);
    lemma_hits_concat(pre, seq![s[j]], x, range);
    lemma_hits_concat(pre, post, x, range);
    lemma_hits_single(s[j], x, range);
}

proof fn lemma_hits_permutation(s1: Seq<UnitEntry>, s2: Seq<UnitEntry>, x: UnitEntry, range: int)
    requires
        s1.to_multiset() == s2.to_multiset(),
    ensures
        hits(s1, x, range) == hits(s2, x, range),
    decreases s1.len(),
{
    broadcast use vstd::seq_lib::group_to_multiset_ensures, vstd::multiset::group_multiset_axioms;

    s1.to_multiset_ensures();
    s2.to_multiset_ensures();
    if s1.len() == 0 {
        assert(s2.len() == 0);
    } else {
        let a = s1.last();
        let s1r = s1.drop_last();
        assert(s1 =~= s1r.push(a));
        s1r.to_multiset_ensures();
        assert(s1.to_multiset() == s1r.to_multiset().insert(a));
        assert(s2.to_multiset().count(a) > 0);
        assert(s2.contains(a));
        let j = choose|j: int| 0 <= j < s2.len() && s2[j] == a;
        let s2r = s2.remove(j);
        assert(s2r.to_multiset() == s2.to_multiset().remove(a));
        assert(s1r.to_multiset() =~= s1r.to_multiset().insert(a).remove(a));
        lemma_hits_permutation(s1r, s2r, x, range);
        lemma_hits_remove(s2, j, x, range);
        lemma_hits_remove(s1, s1.len() - 1, x, range);
        assert(s1.remove(s1.len() - 1) =~= s1r);
    }
}

/// Combat does not depend on the order in which units, or the pairs they
/// form, are taken: two lists of the same units in any order give every
/// unit the same health after the pass, hence the same survivors and the
/// same fallen.
pub proof fn lemma_combat_order_free(
    s1: Seq<UnitEntry>,
    s2: Seq<UnitEntry>,
    x: UnitEntry,
    range: int,
    damage: int,
)
    requires
        s1.to_multiset() == s2.to_multiset(),
    ensures
        health_after(s1, x, range, damage) == health_after(s2, x, range, damage),
{
    lemma_hits_permutation(s1, s2, x, range);
}

/// `p` is the id pair of units `i < j` of `units` that fight.
pub open spec fn fighting_pair(units: Seq<UnitEntry>, range: int, i: int, j: int, p: (u32, u32)) -> bool {
    &&& 0 <= i < j < units.len()
    &&& engaged(units[i], units[j], range)
    &&& p == (units[i].id, units[j].id)
}

/// `p` is the id pair of unit `i` and a unit `j < j_end` that it fights.
pub open spec fn in_row(units: Seq<UnitEntry>, range: int, i: int, j_end: int, p: (u32, u32)) -> bool {
    exists|j: int| j < j_end && #[trigger] fighting_pair(units, range, i, j, p)
}

/// `p` is the id pair of units `i < k` and `j` that fight.
pub open spec fn in_rows(units: Seq<UnitEntry>, range: int, k: int, p: (u32, u32)) -> bool {
    exists|i: int, j: int| i < k && #[trigger] fighting_pair(units, range, i, j, p)
}

proof fn lemma_pairs_row_members(units: Seq<UnitEntry>, range: int, i: int, j_end: int)
    requires
        0 <= i < units.len(),
        j_end <= units.len(),
    ensures
        forall|j: int|
            i < j < j_end && #[trigger] engaged(units[i], units[j], range) ==> pairs_row(
                units,
                range,
                i,
                j_end,
            ).contains((units[i].id, units[j].id)),
        forall|n: int|
            0 <= n < pairs_row(units, range, i, j_end).len() ==> in_row(
                units,
                range,
                i,
                j_end,
                #[trigger] pairs_row(units, range, i, j_end)[n],
            ),
    decreases j_end - i,
{
    if j_end > i + 1 {
        lemma_pairs_row_members(units, range, i, j_end - 1);
        let prev = pairs_row(units, range, i, j_end - 1);
        let cur = pairs_row(units, range, i, j_end);
        let j = j_end - 1;
        assert forall|n: int| 0 <= n < prev.len() implies in_row(units, range, i, j_end, #[trigger] prev[n]) by {
            assert(in_row(units, range, i, j_end - 1, prev[n]));
            let j2 = choose|j2: int| j2 < j_end - 1 && #[trigger] fighting_pair(units, range, i, j2, prev[n]);
            assert(fighting_pair(units, range, i, j2, prev[n]));
        }
        if engaged(units[i], units[j], range) {
            assert(cur == prev.push((units[i].id, units[j].id)));
            assert forall|j2: int|
                i < j2 < j_end && #[trigger] engaged(units[i], units[j2], range) implies cur.contains(
                (units[i].id, units[j2].id),
            ) by {
                if j2 < j {
                    let n = choose|n: int| 0 <= n < prev.len() && prev[n] == (units[i].id, units[j2].id);
                    assert(cur[n] == prev[n]);
                } else {
                    assert(cur[cur.len() - 1] == (units[i].id, units[j].id));
                }
            }
            assert forall|n: int| 0 <= n < cur.len() implies in_row(units, range, i, j_end, #[trigger] cur[n]) by {
                if n < prev.len() {
                    assert(cur[n] == prev[n]);
                } else {
                    assert(fighting_pair(units, range, i, j, cur[n]));
                }
            }
        } else {
            assert(cur == prev);
        }
    }
}

proof fn lemma_pairs_upto_members(units: Seq<UnitEntry>, range: int, k: nat)
    requires
        k <= units.len(),
    ensures
        forall|i: int, j: int|
            0 <= i < k && i < j < units.len() && #[trigger] engaged(units[i], units[j], range) ==> pairs_upto(
                units,
                range,
                k,
            ).contains((units[i].id, units[j].id)),
        forall|n: int|
            0 <= n < pairs_upto(units, range, k).len() ==> in_rows(
                units,
                range,
                k as int,
                #[trigger] pairs_upto(units, range, k)[n],
            ),
    decreases k,
{
    if k > 0 {
        lemma_pairs_upto_members(units, range, (k - 1) as nat);
        let i = k - 1;
        lemma_pairs_row_members(units, range, i, units.len() as int);
        let prev = pairs_upto(units, range, (k - 1) as nat);
        let row = pairs_row(units, range, i, units.len() as int);
        let cur = pairs_upto(units, range, k);
        assert(cur == prev + row);
        assert forall|i2: int, j: int|
            0 <= i2 < k && i2 < j < units.len() && #[trigger] engaged(units[i2], units[j], range) implies cur.contains(
            (units[i2].id, units[j].id),
        ) by {
            if i2 < i {
                let n = choose|n: int| 0 <= n < prev.len() && prev[n] == (units[i2].id, units[j].id);
                assert(cur[n] == prev[n]);
            } else {
                assert(row.contains((units[i2].id, units[j].id)));
                let n = choose|n: int| 0 <= n < row.len() && row[n] == (units[i2].id, units[j].id);
                assert(cur[prev.len() + n] == row[n]);
            }
        }
        assert forall|n: int| 0 <= n < cur.len() implies in_rows(units, range, k as int, #[trigger] cur[n]) by {
            if n < prev.len() {
                assert(cur[n] == prev[n]);
                assert(in_rows(units, range, k - 1, prev[n]));
                let (i2, j) = choose|i2: int, j: int|
                    i2 < k - 1 && #[trigger] fighting_pair(units, range, i2, j, prev[n]);
                assert(fighting_pair(units, range, i2, j, cur[n]));
            } else {
                assert(cur[n] == row[n - prev.len()]);
                assert(in_row(units, range, i, units.len() as int, row[n - prev.len()]));
                let j = choose|j: int|
                    j < units.len() && #[trigger] fighting_pair(units, range, i, j, row[n - prev.len()]);
                assert(fighting_pair(units, range, i, j, cur[n]));
            }
        }
    }
}

/// The fighting pairs are exactly the opposing units within range: the ids
/// of every pair of units `i < j` that fight are listed, and every listed
/// pair is the ids of such units.
pub proof fn lemma_pairs_members(units: Seq<UnitEntry>, range: int)
    ensures
        forall|i: int, j: int|
            0 <= i < j < units.len() && #[trigger] engaged(units[i], units[j], range) ==> pairs_upto(
                units,
                range,
                units.len(),
            ).contains((units[i].id, units[j].id)),
        forall|n: int|
            0 <= n < pairs_upto(units, range, units.len()).len() ==> in_rows(
                units,
                range,
                units.len() as int,
                #[trigger] pairs_upto(units, range, units.len())[n],
            ),
{
    lemma_pairs_upto_members(units, range, units.len());
}

} // verus!
