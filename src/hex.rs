//! Axial hex coordinates: distance, neighbours and the six unit steps.

use vstd::prelude::*;

verus! {

/// An axial hex coordinate `(q, r)`.
#[derive(Clone, Copy, Debug, PartialEq, Eq, Structural, Hash)]
pub struct HexCoord {
    pub q: i32,
    pub r: i32,
}

/// Absolute value over mathematical integers.
pub open spec fn abs(x: int) -> int {
    if x < 0 {
        -x
    } else {
        x
    }
}

/// Axial hex distance between `(aq, ar)` and `(bq, br)`:
/// `(|dq| + |dq + dr| + |dr|) / 2`.
pub open spec fn axial_dist(aq: int, ar: int, bq: int, br: int) -> int {
    (abs(aq - bq) + abs(aq + ar - bq - br) + abs(ar - br)) / 2
}

/// Axial hex distance between two coordinates.
pub open spec fn dist(a: HexCoord, b: HexCoord) -> int {
    axial_dist(a.q as int, a.r as int, b.q as int, b.r as int)
}

/// The `i`-th unit step, in the fixed order
/// `[(1,0), (1,-1), (0,-1), (-1,0), (-1,1), (0,1)]`.
pub open spec fn spec_direction(i: int) -> (i32, i32) {
    if i == 0 {
        (1i32, 0i32)
    } else if i == 1 {
        (1i32, -1i32)
    } else if i == 2 {
        (0i32, -1i32)
    } else if i == 3 {
        (-1i32, 0i32)
    } else if i == 4 {
        (-1i32, 1i32)
    } else {
        (0i32, 1i32)
    }
}

/// Whether `(dq, dr)` is one of the six unit steps.
pub open spec fn is_step(dq: i32, dr: i32) -> bool {
    ||| (dq == 1 && dr == 0)
    ||| (dq == 1 && dr == -1)
    ||| (dq == 0 && dr == -1)
    ||| (dq == -1 && dr == 0)
    ||| (dq == -1 && dr == 1)
    ||| (dq == 0 && dr == 1)
}

/// The coordinate one step `(dq, dr)` away from `c`, over integers.
pub open spec fn offset(c: HexCoord, dq: int, dr: int) -> (int, int) {
    (c.q + dq, c.r + dr)
}

/// Hex distance between two coordinates (never negative).
pub fn hex_distance(a: HexCoord, b: HexCoord) -> (d: i64)
    ensures
        d == dist(a, b),
        d >= 0,
{
    let dq: i64 = a.q as i64 - b.q as i64;
    let dr: i64 = a.r as i64 - b.r as i64;
    let ds: i64 = dq + dr;
    let aq: i64 = if dq < 0 { -dq } else { dq };
    let ar: i64 = if dr < 0 { -dr } else { dr };
    let as_: i64 = if ds < 0 { -ds } else { ds };
    (aq + as_ + ar) / 2
}

/// The `i`-th unit step of the fixed direction order.
pub fn direction(i: usize) -> (d: (i32, i32))
    requires
        i < 6,
    ensures
        d == spec_direction(i as int),
        is_step(d.0, d.1),
{
    if i == 0 {
        (1, 0)
    } else if i == 1 {
        (1, -1)
    } else if i == 2 {
        (0, -1)
    } else if i == 3 {
        (-1, 0)
    } else if i == 4 {
        (-1, 1)
    } else {
        (0, 1)
    }
}

/// Whether `(dq, dr)` is one of the six unit steps.
pub fn is_hex_step(dq: i32, dr: i32) -> (b: bool)
    ensures
        b == is_step(dq, dr),
{
    (dq == 1 && dr == 0) || (dq == 1 && dr == -1) || (dq == 0 && dr == -1) || (dq == -1 && dr
        == 0) || (dq == -1 && dr == 1) || (dq == 0 && dr == 1)
}

/// The six neighbours of `c`, in the fixed direction order.
pub fn neighbors(c: HexCoord) -> (v: Vec<HexCoord>)
    requires
        i32::MIN < c.q < i32::MAX,
        i32::MIN < c.r < i32::MAX,
    ensures
        v@.len() == 6,
        forall|i: int|
            0 <= i < 6 ==> v@[i].q == c.q + spec_direction(i).0 && v@[i].r == c.r
                + spec_direction(i).1,
        forall|i: int| 0 <= i < 6 ==> dist(c, #[trigger] v@[i]) == 1,
{
    let mut v: Vec<HexCoord> = Vec::new();
    let mut i: usize = 0;
    while i < 6
        invariant
            i <= 6,
            v@.len() == i,
            i32::MIN < c.q < i32::MAX,
            i32::MIN < c.r < i32::MAX,
            forall|k: int|
                0 <= k < i ==> v@[k].q == c.q + spec_direction(k).0 && v@[k].r == c.r
                    + spec_direction(k).1,
        decreases 6 - i,
    {
        let (dq, dr) = direction(i);
        v.push(HexCoord { q: c.q + dq, r: c.r + dr });
        i = i + 1;
    }
    assert forall|i: int| 0 <= i < 6 implies dist(c, #[trigger] v@[i]) == 1 by {
        assert(0 <= i < 6);
    }
    v
}

/// A rectangular board of `width` x `height` axial coordinates.
#[derive(Clone, Copy, Debug, PartialEq, Eq, Structural)]
pub struct HexGrid {
    pub width: i32,
    pub height: i32,
}

/// One tile of the board.
#[derive(Clone, Copy, Debug, PartialEq, Eq, Structural)]
pub struct HexTile {
    pub coord: HexCoord,
}

} // verus!
