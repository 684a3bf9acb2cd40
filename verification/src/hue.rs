//! The hue circle in six sectors.
//!
//! A hue, scaled by six, falls into one of six sectors. Turning hue, saturation
//! and value into red, green and blue takes four candidate intensities (slot 0
//! is the value itself, slot 1 the value at full desaturation, slots 2 and 3 the
//! two intensities in between, the first falling and the second rising with the
//! position in the sector) and hands three of them to the three channels. Which
//! slot goes to which channel depends on the sector alone. That table, and
//! the selection by it, are what this module holds; the arithmetic that makes
//! the candidates is the caller's.

use vstd::prelude::*;

verus! {

/// The number of sectors of the hue circle.
pub const SECTORS: usize = 6;

/// The number of candidate intensities.
pub const SLOTS: usize = 4;

/// The slots that go to red, green and blue in the given sector. Sectors
/// outside `0..6` have no row.
pub open spec fn slot_row(sector: int) -> Seq<int> {
    if sector == 0 {
        seq![0, 3, 1]
    } else if sector == 1 {
        seq![2, 0, 1]
    } else if sector == 2 {
        seq![1, 0, 3]
    } else if sector == 3 {
        seq![1, 2, 0]
    } else if sector == 4 {
        seq![3, 1, 0]
    } else if sector == 5 {
        seq![0, 1, 2]
    } else {
        Seq::empty()
    }
}

/// The sector that an index of any size stands for: the circle closes, so
/// indices wrap around after the sixth sector.
pub open spec fn wrapped(sector: int) -> int {
    sector % 6
}

/// Red, green and blue as chosen from the candidates in the given sector.
pub open spec fn arranged<T>(sector: int, candidates: Seq<T>) -> Seq<T> {
    let row = slot_row(wrapped(sector));
    seq![candidates[row[0]], candidates[row[1]], candidates[row[2]]]
}

/// The channel (0 red, 1 green, 2 blue) that gets slot 0 in a sector.
pub open spec fn peak_channel(sector: int) -> int {
    ((sector + 1) / 2) % 3
}

/// The channel (0 red, 1 green, 2 blue) that gets slot 1 in a sector.
pub open spec fn floor_channel(sector: int) -> int {
    (sector / 2 + 2) % 3
}

/// The slots for red, green and blue in sector `sector`, counted around the
/// circle.
pub fn slots(sector: usize) -> (row: [usize; 3])
    ensures
        row@.len() == 3,
        forall|k: int| 0 <= k < 3 ==> row@[k] == slot_row(wrapped(sector as int))[k],
        forall|k: int| 0 <= k < 3 ==> row@[k] < SLOTS,
{
    let s: usize = sector % SECTORS;
    if s == 0 {
        [0, 3, 1]
    } else if s == 1 {
        [2, 0, 1]
    } else if s == 2 {
        [1, 0, 3]
    } else if s == 3 {
        [1, 2, 0]
    } else if s == 4 {
        [3, 1, 0]
    } else {
        [0, 1, 2]
    }
}

/// Chooses red, green and blue from the four candidates as sector `sector`,
/// counted around the circle, prescribes.
pub fn arrange<T: Copy>(sector: usize, candidates: [T; 4]) -> (rgb: [T; 3])
    ensures
        rgb@ == arranged(sector as int, candidates@),
{
    let row = slots(sector);
    [candidates[row[0]], candidates[row[1]], candidates[row[2]]]
}

/// Every row hands out slot 0 and slot 1, each to the channel that the closed
/// forms `peak_channel` and `floor_channel` name, and gives the channel that is
/// left the rising candidate (slot 3) in even sectors and the falling one
/// (slot 2) in odd sectors.
pub proof fn lemma_row_shape(sector: int)
    requires
        0 <= sector < 6,
    ensures
        slot_row(sector).len() == 3,
        slot_row(sector)[peak_channel(sector)] == 0,
        slot_row(sector)[floor_channel(sector)] == 1,
        peak_channel(sector) != floor_channel(sector),
        slot_row(sector)[3 - peak_channel(sector) - floor_channel(sector)] == if sector % 2 == 0 {
            3int
        } else {
            2int
        },
{
}

/// Where the four candidates are one and the same intensity, all three
/// channels get it, whatever the sector: a colour without saturation is gray
/// at every hue.
pub proof fn lemma_arranged_gray<T>(sector: int, candidates: Seq<T>, c: T)
    requires
        candidates.len() == 4,
        forall|k: int| 0 <= k < 4 ==> candidates[k] == c,
    ensures
        arranged(sector, candidates) == seq![c, c, c],
{
}

} // verus!
