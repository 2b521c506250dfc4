//! A spatial index from hexes to the units on them.

use vstd::prelude::*;
use crate::hex::HexCoord;
use crate::units::UnitEntry;

verus! {

/// The ids filed under hex `(q, r)` among the first `k` entries, in the
/// order they were filed.
pub open spec fn ids_at(entries: Seq<(HexCoord, u32)>, q: int, r: int, k: nat) -> Seq<u32>
    decreases k,
{
    if k == 0 {
        Seq::empty()
    } else {
        let prev = ids_at(entries, q, r, (k - 1) as nat);
        let e = entries[k - 1];
        if e.0.q == q && e.0.r == r {
            prev.push(e.1)
        } else {
            prev
        }
    }
}

/// The ids filed under hex `(q, r)`, in the order they were filed.
pub open spec fn cell(entries: Seq<(HexCoord, u32)>, q: int, r: int) -> Seq<u32> {
    ids_at(entries, q, r, entries.len())
}

/// The ids under the hexes `(c.q + dq, c.r + dr)` for `dr` from `-range` up
/// to, not including, `dr_end`, hex after hex.
pub open spec fn row_ids(entries: Seq<(HexCoord, u32)>, c: HexCoord, range: int, dq: int, dr_end: int) -> Seq<
    u32,
>
    decreases dr_end + range,
{
    if dr_end <= -range {
        Seq::empty()
    } else {
        row_ids(entries, c, range, dq, dr_end - 1) + cell(entries, c.q + dq, c.r + dr_end - 1)
    }
}

/// The ids under the hexes `(c.q + dq, c.r + dr)` with `-range <= dr <= range`
/// and `dq` from `-range` up to, not including, `dq_end`, by `dq`, then `dr`.
pub open spec fn square_ids(entries: Seq<(HexCoord, u32)>, c: HexCoord, range: int, dq_end: int) -> Seq<
    u32,
>
    decreases dq_end + range,
{
    if dq_end <= -range {
        Seq::empty()
    } else {
        square_ids(entries, c, range, dq_end - 1) + row_ids(entries, c, range, dq_end - 1, range + 1)
    }
}

/// Which units stand on which hex, in the order they were filed.
pub struct SpatialIndex {
    entries: Vec<(HexCoord, u32)>,
}

impl SpatialIndex {
    /// The filed `(hex, id)` pairs, oldest first.
    pub closed spec fn filed(&self) -> Seq<(HexCoord, u32)> {
        self.entries@
    }

    /// An empty index.
    pub fn new() -> (s: SpatialIndex)
        ensures
            s.filed().len() == 0,
    {
        SpatialIndex { entries: Vec::new() }
    }

    /// Empties the index.
    pub fn clear(&mut self)
        ensures
            final(self).filed().len() == 0,
    {
        self.entries.clear();
    }

    /// Files unit `id` under hex `coord`.
    pub fn insert(&mut self, coord: HexCoord, id: u32)
        ensures
            final(self).filed() == old(self).filed().push((coord, id)),
    {
        self.entries.push((coord, id));
    }

    /// Appends the ids filed under `(q, r)` to `out`.
    fn append_cell(&self, q: i64, r: i64, out: &mut Vec<u32>)
        ensures
            final(out)@ == old(out)@ + cell(self.filed(), q as int, r as int),
    {
        let ghost start = out@;
        let mut k: usize = 0;
        while k < self.entries.len()
            invariant
                k <= self.entries@.len(),
                out@ == start + ids_at(self.entries@, q as int, r as int, k as nat),
            decreases self.entries@.len() - k,
        {
            let (c, id) = self.entries[k];
            if c.q as i64 == q && c.r as i64 == r {
                out.push(id);
            }
            proof {
                let prev = ids_at(self.entries@, q as int, r as int, k as nat);
                assert(start + prev.push(id) =~= (start + prev).push(id));
            }
            k = k + 1;
        }
    }

    /// The ids filed under the hexes `(coord.q + dq, coord.r + dr)` with
    /// `-range <= dq, dr <= range`, by `dq`, then by `dr`, each hex's ids in
    /// the order they were filed; none when `range < 0`.
    pub fn get_neighbors(&self, coord: HexCoord, range: i32) -> (v: Vec<u32>)
        ensures
            v@ == square_ids(self.filed(), coord, range as int, range + 1),
    {
        let mut out: Vec<u32> = Vec::new();
        let lo: i64 = -(range as i64);
        let hi: i64 = range as i64;
        let mut dq: i64 = lo;
        proof {
            assert(square_ids(self.filed(), coord, range as int, lo as int) =~= Seq::empty());
        }
        while dq <= hi
            invariant
                lo == -range,
                hi == range,
                lo <= dq <= hi + 1 || (dq == lo && hi < lo),
                out@ == square_ids(self.filed(), coord, range as int, dq as int),
            decreases hi + 1 - dq,
        {
            let ghost before = out@;
            let mut dr: i64 = lo;
            assert(row_ids(self.filed(), coord, range as int, dq as int, lo as int) =~= Seq::empty());
            while dr <= hi
                invariant
                    lo == -range,
                    hi == range,
                    lo <= dq <= hi,
                    lo <= dr <= hi + 1,
                    out@ == before + row_ids(self.filed(), coord, range as int, dq as int, dr as int),
                decreases hi + 1 - dr,
            {
                self.append_cell(coord.q as i64 + dq, coord.r as i64 + dr, &mut out);
                assert(before + row_ids(self.filed(), coord, range as int, dq as int, dr + 1) =~= before
                    + row_ids(self.filed(), coord, range as int, dq as int, dr as int) + cell(
                    self.filed(),
                    coord.q + dq,
                    coord.r + dr,
                ));
                dr = dr + 1;
            }
            dq = dq + 1;
        }
        if hi < lo {
            assert(range + 1 <= -range);
        }
        out
    }
}

/// Refiles every unit of `units` under its hex, in order, after emptying
/// the index.
pub fn update_spatial_index(index: &mut SpatialIndex, units: &Vec<UnitEntry>)
    ensures
        final(index).filed() == units@.map_values(|e: UnitEntry| (e.pos.coord, e.id)),
{
    index.clear();
    let mut i: usize = 0;
    while i < units.len()
        invariant
            i <= units@.len(),
            index.filed() == units@.take(i as int).map_values(|e: UnitEntry| (e.pos.coord, e.id)),
        decreases units@.len() - i,
    {
        let e = units[i];
        index.insert(e.pos.coord, e.id);
        assert(units@.take(i + 1) == units@.take(i as int).push(e));
        assert(index.filed() =~= units@.take(i + 1).map_values(|e: UnitEntry| (e.pos.coord, e.id)));
        i = i + 1;
    }
    assert(units@.take(units@.len() as int) == units@);
}

} // verus!
