//! Win/tie oracle: decides from a 9-bit occupancy mask whether a 3x3
//! sub-board is won (one of the eight line patterns fully set) or tied
//! (all nine cells set).  Both a direct check and a precomputed lookup
//! table are provided; their contracts prove that they agree on every
//! mask.

use vstd::prelude::*;

verus! {

/// Bitmask with all nine cells of a 3x3 grid set.
pub const ALL_FIELDS: u16 = 0o777;

/// A 9-bit occupancy mask contains a full line: one of the three rows,
/// three columns, or two diagonals of the 3x3 grid.
pub open spec fn line_won(mask: u16) -> bool {
    ||| mask & 0o700 == 0o700
    ||| mask & 0o070 == 0o070
    ||| mask & 0o007 == 0o007
    ||| mask & 0o444 == 0o444
    ||| mask & 0o222 == 0o222
    ||| mask & 0o111 == 0o111
    ||| mask & 0o421 == 0o421
    ||| mask & 0o124 == 0o124
}

/// Direct check of the eight line patterns.
pub fn is_won(field: u16) -> (r: bool)
    ensures
        r == line_won(field),
{
    (field & 0o700 == 0o700) || (field & 0o070 == 0o070) || (field & 0o007 == 0o007)
        || (field & 0o444 == 0o444) || (field & 0o222 == 0o222) || (field & 0o111 == 0o111)
        || (field & 0o421 == 0o421) || (field & 0o124 == 0o124)
}

/// A sub-board is tied exactly when all nine of its cells are occupied.
pub fn is_tied(field: u16) -> (r: bool)
    ensures
        r == (field == ALL_FIELDS),
{
    field == ALL_FIELDS
}

/// Win oracle backed by a table over all 512 possible 9-bit masks,
/// built once at construction.  Its invariant states that every entry
/// agrees with the direct line check, so `WinTable::is_won` and the
/// free function `is_won` provably return the same answer on every
/// mask.
pub struct WinTable {
    table: Vec<bool>,
}

impl WinTable {
    /// Every table entry equals the direct check `line_won`.
    pub closed spec fn wf(&self) -> bool {
        &&& self.table@.len() == 512
        &&& forall|m: int| 0 <= m < 512 ==> self.table@[m] == line_won(m as u16)
    }

    /// Precompute the win test for all 512 masks.
    pub fn new() -> (t: WinTable)
        ensures
            t.wf(),
    {
        let mut table: Vec<bool> = Vec::new();
        let mut m: u16 = 0;
        while m < 512
            invariant
                m <= 512,
                table@.len() == m as int,
                forall|i: int| 0 <= i < m as int ==> table@[i] == line_won(i as u16),
            decreases 512 - m,
        {
            table.push(is_won(m));
            m = m + 1;
        }
        WinTable { table }
    }

    /// Table lookup; agrees with the direct check on every 9-bit mask.
    pub fn is_won(&self, mask: u16) -> (r: bool)
        requires
            self.wf(),
            mask < 512,
        ensures
            r == line_won(mask),
    {
        self.table[mask as usize]
    }
}

} // verus!
