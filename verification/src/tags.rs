//! The correlation index space.
//!
//! Every in-flight query is keyed by a 32-bit index composed of two small
//! fields that also ride in the outgoing packet: the sub-tag (the low two
//! decimal digits of the DNS transaction id, `0..=99`) and the slot (the UDP
//! source port, `10001..=60000`). The index is `sub_tag * 60000 + slot`, so
//! every legal index lies below 6 000 000.

use vstd::prelude::*;

verus! {

/// Width of one sub-tag band in the index space: one more than the largest
/// slot value, so that distinct `(sub_tag, slot)` pairs map to distinct
/// indices.
pub const SLOT_SPAN: u32 = 60000;

/// Smallest slot handed out by the allocator.
pub const SLOT_MIN: u16 = 10001;

/// Largest slot handed out by the allocator.
pub const SLOT_MAX: u16 = 60000;

/// Number of distinct sub-tags (`0..=99`).
pub const SUB_TAG_COUNT: u16 = 100;

/// The index that a `(sub_tag, slot)` pair is filed under.
pub open spec fn spec_map_index(flag_id2: int, index: int) -> int {
    flag_id2 * 60000 + index
}

/// The sub-tag encoded in a correlation index.
pub open spec fn spec_sub_tag(index: int) -> int {
    index / 60000
}

/// The slot encoded in a correlation index.
pub open spec fn spec_slot(index: int) -> int {
    index % 60000
}

/// A pair within the bounds that the allocator maintains.
pub open spec fn valid_pair(flag_id2: int, slot: int) -> bool {
    &&& 0 <= flag_id2 < SUB_TAG_COUNT
    &&& SLOT_MIN <= slot <= SLOT_MAX
}

/// Whether a released index may be recycled: its slot component must land
/// back in the allocator's range and its sub-tag below the count. An index
/// whose slot was the band's top value decomposes to slot zero of the next
/// band, so it is left out and reclaimed only at scan end.
pub open spec fn good_free_entry(index: int) -> bool {
    &&& SLOT_MIN <= index % (SLOT_SPAN as int)
    &&& index / (SLOT_SPAN as int) < SUB_TAG_COUNT
}

/// Checks whether a released index may be recycled.
pub fn is_good_free_entry(index: usize) -> (r: bool)
    ensures
        r == good_free_entry(index as int),
{
    index % 60000 >= 10001 && index / 60000 < 100
}

/// Builds the unique table key for a `(sub_tag, slot)` pair.
pub fn generate_map_index(flag_id2: u16, index: u16) -> (r: i32)
    requires
        flag_id2 < SUB_TAG_COUNT,
    ensures
        r == spec_map_index(flag_id2 as int, index as int),
        0 <= r < 6065536,
{
    (flag_id2 as i32) * 60000 + (index as i32)
}

/// Recovers the `(sub_tag, slot)` pair from a table key.
pub fn generate_flag_index_from_map(index: usize) -> (r: (u16, u16))
    requires
        index < 6065536,
    ensures
        r.0 == spec_sub_tag(index as int),
        r.1 == spec_slot(index as int),
{
    let flag2: usize = index / 60000;
    let index2: usize = index % 60000;
    (flag2 as u16, index2 as u16)
}

/// The two encodings are inverse to each other: packing a pair and then
/// splitting the key gives the pair back, for every slot strictly below the
/// band width. (The topmost slot, 60000, packs onto the same key as slot 0
/// of the next sub-tag, so the split does not recover it; the key itself is
/// still unique among allocator pairs, see `lemma_map_index_injective`.)
pub proof fn lemma_map_index_round_trip(flag_id2: int, slot: int)
    requires
        0 <= flag_id2,
        0 <= slot < SLOT_SPAN,
    ensures
        spec_sub_tag(spec_map_index(flag_id2, slot)) == flag_id2,
        spec_slot(spec_map_index(flag_id2, slot)) == slot,
{
    assert((flag_id2 * 60000 + slot) / 60000 == flag_id2 && (flag_id2 * 60000 + slot) % 60000
        == slot) by (nonlinear_arith)
        requires
            0 <= flag_id2,
            0 <= slot < 60000,
    ;
}

/// Every index built from an allocator pair lies in the scan's index space:
/// positive, and at most `100 * 60000` (the top value is reached only by the
/// pair of the largest sub-tag with the largest slot).
pub proof fn lemma_index_in_space(flag_id2: int, slot: int)
    requires
        valid_pair(flag_id2, slot),
    ensures
        0 < spec_map_index(flag_id2, slot) <= 6000000,
{
    assert(0 < flag_id2 * 60000 + slot <= 6000000) by (nonlinear_arith)
        requires
            0 <= flag_id2 < 100,
            0 < slot <= 60000,
    ;
}

/// Distinct allocator pairs always receive distinct keys, so a live index
/// identifies at most one query.
pub proof fn lemma_map_index_injective(f1: int, s1: int, f2: int, s2: int)
    requires
        valid_pair(f1, s1),
        valid_pair(f2, s2),
        spec_map_index(f1, s1) == spec_map_index(f2, s2),
    ensures
        f1 == f2,
        s1 == s2,
{
    assert(f1 == f2 && s1 == s2) by (nonlinear_arith)
        requires
            0 <= f1 < 100,
            0 <= f2 < 100,
            10001 <= s1 <= 60000,
            10001 <= s2 <= 60000,
            f1 * 60000 + s1 == f2 * 60000 + s2,
    ;
}

} // verus!
