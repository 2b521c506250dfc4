//! Sequential movement resolution with single occupancy per hex.

use vstd::prelude::*;
use crate::actions::Action;
use crate::hex::{abs, is_hex_step, is_step, HexCoord};
use crate::units::{HexPosition, UnitEntry};

verus! {

/// Half the extent of a map side; a side of width `w` admits coordinates
/// with `|x| < w / 2` (none when `w <= 0`).
pub open spec fn half_extent(w: i32) -> int {
    if w > 0 {
        w as int / 2
    } else {
        0
    }
}

/// Whether the integer coordinate `p` lies strictly inside the map.
pub open spec fn in_map(p: (int, int), width: i32, height: i32) -> bool {
    abs(p.0) < half_extent(width) && abs(p.1) < half_extent(height)
}

/// Whether some unit of `units` stands on `p`.
pub open spec fn occupied(units: Seq<UnitEntry>, p: (int, int)) -> bool {
    exists|j: int|
        0 <= j < units.len() && #[trigger] units[j].pos.coord.q == p.0 && units[j].pos.coord.r
            == p.1
}

/// The hex that `a` asks `e` to step onto, if `a` is a legal step.
pub open spec fn requested_target(e: UnitEntry, a: Action) -> Option<(int, int)> {
    match a {
        Action::Stay => None,
        Action::Move(dq, dr) => if is_step(dq, dr) {
            Some((e.pos.coord.q + dq, e.pos.coord.r + dr))
        } else {
            None
        },
    }
}

/// Whether unit `i` of `units` may carry out `a`: a legal step onto a free
/// hex inside the map.
pub open spec fn may_move(units: Seq<UnitEntry>, i: int, a: Action, width: i32, height: i32) -> bool {
    match requested_target(units[i], a) {
        Some(t) => in_map(t, width, height) && !occupied(units, t),
        None => false,
    }
}

/// `e` moved onto `t`.
pub open spec fn relocated(e: UnitEntry, t: (int, int)) -> UnitEntry {
    UnitEntry { pos: HexPosition { coord: HexCoord { q: t.0 as i32, r: t.1 as i32 } }, ..e }
}

/// One step of resolution: unit `i` carries out `a` if it may, else stays.
pub open spec fn move_one(units: Seq<UnitEntry>, i: int, a: Action, width: i32, height: i32) -> Seq<
    UnitEntry,
> {
    if may_move(units, i, a, width, height) {
        units.update(i, relocated(units[i], requested_target(units[i], a).unwrap()))
    } else {
        units
    }
}

/// The first `k` units resolved in order, each against the positions left by
/// the ones before it.
pub open spec fn move_prefix(
    units: Seq<UnitEntry>,
    actions: Seq<Action>,
    width: i32,
    height: i32,
    k: nat,
) -> Seq<UnitEntry>
    decreases k,
{
    if k == 0 {
        units
    } else {
        move_one(
            move_prefix(units, actions, width, height, (k - 1) as nat),
            k - 1,
            actions[k - 1],
            width,
            height,
        )
    }
}

/// All units resolved in order.
pub open spec fn move_all(units: Seq<UnitEntry>, actions: Seq<Action>, width: i32, height: i32) -> Seq<
    UnitEntry,
> {
    move_prefix(units, actions, width, height, units.len())
}

/// No two units share a hex.
pub open spec fn distinct_positions(units: Seq<UnitEntry>) -> bool {
    forall|a: int, b: int|
        0 <= a < units.len() && 0 <= b < units.len() && a != b ==> #[trigger] units[a].pos.coord
            != #[trigger] units[b].pos.coord
}

/// Movement changes positions only.
pub open spec fn same_but_position(x: Seq<UnitEntry>, y: Seq<UnitEntry>) -> bool {
    &&& x.len() == y.len()
    &&& forall|i: int|
        0 <= i < x.len() ==> (#[trigger] x[i]).id == y[i].id && x[i].unit == y[i].unit
}

proof fn lemma_move_one_keeps(
    units: Seq<UnitEntry>,
    i: int,
    a: Action,
    width: i32,
    height: i32,
)
    requires
        0 <= i < units.len(),
    ensures
        same_but_position(units, move_one(units, i, a, width, height)),
        distinct_positions(units) ==> distinct_positions(move_one(units, i, a, width, height)),
        forall|j: int|
            0 <= j < units.len() && j != i ==> (#[trigger] move_one(
                units,
                i,
                a,
                width,
                height,
            )[j]) == units[j],
{
    let next = move_one(units, i, a, width, height);
    if may_move(units, i, a, width, height) {
        let t = requested_target(units[i], a).unwrap();
        assert(abs(t.0) < half_extent(width) && abs(t.1) < half_extent(height));
        if distinct_positions(units) {
            assert forall|x: int, y: int|
                0 <= x < next.len() && 0 <= y < next.len() && x != y implies #[trigger] next[x].pos.coord
                != #[trigger] next[y].pos.coord by {
                if x == i {
                    assert(next[x].pos.coord.q == t.0 && next[x].pos.coord.r == t.1);
                    assert(next[y] == units[y]);
                } else if y == i {
                    assert(next[y].pos.coord.q == t.0 && next[y].pos.coord.r == t.1);
                    assert(next[x] == units[x]);
                }
            }
        }
    }
}

/// Resolving any prefix keeps ids and unit states, and keeps hexes unshared.
pub proof fn lemma_move_prefix_keeps(
    units: Seq<UnitEntry>,
    actions: Seq<Action>,
    width: i32,
    height: i32,
    k: nat,
)
    requires
        k <= units.len(),
    ensures
        same_but_position(units, move_prefix(units, actions, width, height, k)),
        distinct_positions(units) ==> distinct_positions(
            move_prefix(units, actions, width, height, k),
        ),
    decreases k,
{
    if k > 0 {
        let prev = move_prefix(units, actions, width, height, (k - 1) as nat);
        lemma_move_prefix_keeps(units, actions, width, height, (k - 1) as nat);
        lemma_move_one_keeps(prev, k - 1, actions[k - 1], width, height);
    }
}

/// Steps `k .. m` of the resolution touch only units `k .. m`.
proof fn lemma_untouched(
    units: Seq<UnitEntry>,
    actions: Seq<Action>,
    width: i32,
    height: i32,
    k: nat,
    m: nat,
    j: int,
)
    requires
        k <= m <= units.len(),
        0 <= j < units.len(),
        j < k || j >= m,
    ensures
        move_prefix(units, actions, width, height, m)[j] == move_prefix(
            units,
            actions,
            width,
            height,
            k,
        )[j],
    decreases m,
{
    if m > k {
        let prev = move_prefix(units, actions, width, height, (m - 1) as nat);
        lemma_untouched(units, actions, width, height, k, (m - 1) as nat, j);
        lemma_move_prefix_keeps(units, actions, width, height, (m - 1) as nat);
        lemma_move_one_keeps(prev, m - 1, actions[m - 1], width, height);
    }
}

/// Movement is sequential, not an all-or-nothing commit: when unit `a` is
/// resolved before unit `b` and both ask for the same hex `d`, and `d` lies
/// inside the map and is free when `a`'s turn to move comes, then `a` ends on
/// `d` and `b` ends where it stood.
pub proof fn lemma_first_claim_wins(
    units: Seq<UnitEntry>,
    actions: Seq<Action>,
    width: i32,
    height: i32,
    a: int,
    b: int,
    d: (int, int),
)
    requires
        0 <= a < b < units.len(),
        actions.len() == units.len(),
        requested_target(units[a], actions[a]) == Some(d),
        requested_target(units[b], actions[b]) == Some(d),
        in_map(d, width, height),
        !occupied(move_prefix(units, actions, width, height, a as nat), d),
    ensures
        move_all(units, actions, width, height)[a].pos.coord.q == d.0,
        move_all(units, actions, width, height)[a].pos.coord.r == d.1,
        move_all(units, actions, width, height)[b] == units[b],
{
    let n = units.len();
    let pa = move_prefix(units, actions, width, height, a as nat);
    let pa1 = move_prefix(units, actions, width, height, (a + 1) as nat);
    let pb = move_prefix(units, actions, width, height, b as nat);
    let pb1 = move_prefix(units, actions, width, height, (b + 1) as nat);
    lemma_move_prefix_keeps(units, actions, width, height, a as nat);
    lemma_move_prefix_keeps(units, actions, width, height, b as nat);
    lemma_untouched(units, actions, width, height, 0, a as nat, a);
    assert(pa[a] == units[a]);
    assert(may_move(pa, a, actions[a], width, height));
    assert(pa1[a].pos.coord.q == d.0 && pa1[a].pos.coord.r == d.1);
    lemma_untouched(units, actions, width, height, (a + 1) as nat, b as nat, a);
    lemma_untouched(units, actions, width, height, 0, b as nat, b);
    assert(pb[b] == units[b]);
    assert(pb[a].pos.coord.q == d.0 && pb[a].pos.coord.r == d.1);
    assert(occupied(pb, d));
    assert(!may_move(pb, b, actions[b], width, height));
    assert(pb1 == pb);
    lemma_untouched(units, actions, width, height, (a + 1) as nat, n, a);
    lemma_untouched(units, actions, width, height, (b + 1) as nat, n, b);
}

/// Whether a unit stands on `(q, r)`.
pub fn is_occupied(units: &Vec<UnitEntry>, q: i64, r: i64) -> (b: bool)
    ensures
        b == occupied(units@, (q as int, r as int)),
{
    let mut j: usize = 0;
    while j < units.len()
        invariant
            j <= units@.len(),
            forall|x: int|
                0 <= x < j ==> !(#[trigger] units@[x].pos.coord.q == q && units@[x].pos.coord.r
                    == r),
        decreases units@.len() - j,
    {
        let c = units[j].pos.coord;
        if c.q as i64 == q && c.r as i64 == r {
            return true;
        }
        j = j + 1;
    }
    false
}

/// Resolves the requested actions of all units, one after another in the
/// order of `units`. A unit moves only on a legal unit step onto a hex that
/// lies strictly within the half-extents of the map and that no unit holds
/// at that moment; otherwise it stays. Units hold no shared hex afterwards if
/// they held none before.
pub fn resolve_movement(units: &mut Vec<UnitEntry>, actions: &Vec<Action>, map_width: i32, map_height: i32)
    requires
        actions@.len() == old(units)@.len(),
    ensures
        final(units)@ == move_all(old(units)@, actions@, map_width, map_height),
        same_but_position(old(units)@, final(units)@),
        distinct_positions(old(units)@) ==> distinct_positions(final(units)@),
{
    let ghost start = units@;
    let half_w: i64 = if map_width > 0 {
        (map_width / 2) as i64
    } else {
        0
    };
    let half_h: i64 = if map_height > 0 {
        (map_height / 2) as i64
    } else {
        0
    };
    let n = units.len();
    let mut i: usize = 0;
    while i < n
        invariant
            n == start.len(),
            n == actions@.len(),
            i <= n,
            half_w == half_extent(map_width),
            half_h == half_extent(map_height),
            units@ == move_prefix(start, actions@, map_width, map_height, i as nat),
        decreases n - i,
    {
        proof {
            lemma_move_prefix_keeps(start, actions@, map_width, map_height, i as nat);
        }
        let e = units[i];
        match actions[i] {
            Action::Stay => {},
            Action::Move(dq, dr) => {
                if is_hex_step(dq, dr) {
                    let tq: i64 = e.pos.coord.q as i64 + dq as i64;
                    let tr: i64 = e.pos.coord.r as i64 + dr as i64;
                    let aq: i64 = if tq < 0 { -tq } else { tq };
                    let ar: i64 = if tr < 0 { -tr } else { tr };
                    if aq < half_w && ar < half_h && !is_occupied(units, tq, tr) {
                        let moved = UnitEntry {
                            pos: HexPosition { coord: HexCoord { q: tq as i32, r: tr as i32 } },
                            ..e
                        };
                        units.set(i, moved);
                    }
                }
            },
        }
        assert(units@ == move_prefix(start, actions@, map_width, map_height, (i + 1) as nat));
        i = i + 1;
    }
    proof {
        lemma_move_prefix_keeps(start, actions@, map_width, map_height, n as nat);
    }
}

} // verus!
