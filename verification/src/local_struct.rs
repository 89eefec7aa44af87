//! The correlation table: the in-flight store mapping each issued index to
//! its pending query record.
//!
//! Entries are kept in append order. Because every record is stamped when it
//! is (re)sent, the stored times are non-decreasing in practice, and the
//! timeout scan only ever needs to look at a prefix.

use crate::model::StatusTable;
use vstd::prelude::*;

verus! {

/// A query is considered expired this many seconds after its last emission.
pub const TIMEOUT_SECS: u64 = 5;

#[derive(Debug)]
struct LocalNode {
    v: StatusTable,
    index: u32,
}

/// One table entry handed back to a caller: the record together with the
/// correlation index it was filed under.
#[derive(Debug)]
pub struct LocalRetryStruct {
    /// The pending query record.
    pub v: StatusTable,
    /// The correlation index of the entry.
    pub index: u32,
}

/// The correlation table. Its view is the stored sequence of
/// `(index, record)` pairs, oldest first.
#[derive(Debug)]
pub struct LocalStruct {
    items: Vec<LocalNode>,
}

/// Whether an entry stored at `index` exists in the table contents `s`.
pub open spec fn table_contains_index(s: Seq<(u32, StatusTable)>, index: u32) -> bool {
    exists|i: int| 0 <= i < s.len() && (#[trigger] s[i]).0 == index
}

/// Position of the first entry stored at `index`, or the length of `s` when
/// there is none.
pub open spec fn first_index_pos(s: Seq<(u32, StatusTable)>, index: u32) -> int
    decreases s.len(),
{
    if s.len() == 0 {
        0
    } else if s[0].0 == index {
        0
    } else {
        1 + first_index_pos(s.skip(1), index)
    }
}

/// An entry has expired `TIMEOUT_SECS` after its last emission.
pub open spec fn entry_expired(e: (u32, StatusTable), now: u64) -> bool {
    e.1.time + TIMEOUT_SECS <= now
}

/// How many entries the timeout scan takes: the length of the longest prefix
/// of expired entries, capped at `max`.
pub open spec fn timeout_take(s: Seq<(u32, StatusTable)>, max: int, now: u64) -> int
    decreases s.len(),
{
    if s.len() == 0 || max <= 0 || !entry_expired(s[0], now) {
        0
    } else {
        1 + timeout_take(s.skip(1), max - 1, now)
    }
}

/// The scan's count never exceeds the cap nor the table length.
pub proof fn lemma_timeout_take_bounds(s: Seq<(u32, StatusTable)>, max: int, now: u64)
    requires
        max >= 0,
    ensures
        0 <= timeout_take(s, max, now) <= max,
        timeout_take(s, max, now) <= s.len(),
    decreases s.len(),
{
    if s.len() != 0 && max > 0 && entry_expired(s[0], now) {
        lemma_timeout_take_bounds(s.skip(1), max - 1, now);
    }
}

/// On a table whose send times never decrease — the order the scan appends
/// in — one timeout scan with a covering cap takes every expired entry, so
/// together with `lemma_timeout_take_split` it takes all and only the
/// entries older than the timeout.
pub proof fn lemma_sorted_scan_complete(s: Seq<(u32, StatusTable)>, max: int, now: u64)
    requires
        max >= s.len(),
        forall|i: int, j: int|
            0 <= i <= j < s.len() ==> (#[trigger] s[i]).1.time <= (#[trigger] s[j]).1.time,
    ensures
        forall|i: int|
            0 <= i < s.len() && entry_expired(#[trigger] s[i], now) ==> i < timeout_take(
                s,
                max,
                now,
            ),
{
    lemma_timeout_take_bounds(s, max, now);
    lemma_timeout_take_split(s, max, now);
    let k = timeout_take(s, max, now);
    assert forall|i: int| 0 <= i < s.len() && entry_expired(#[trigger] s[i], now) implies i
        < k by {
        if i >= k {
            assert(!entry_expired(s[k], now));
            assert(s[k].1.time <= s[i].1.time);
        }
    }
}

/// A table whose entries have all expired is emptied by one scan whose cap
/// covers it: nothing older than the timeout stays behind, so the table of
/// a scan with no further work reads empty as soon as its last entries are
/// five seconds old and one scan has run.
pub proof fn lemma_scan_clears_expired(s: Seq<(u32, StatusTable)>, max: int, now: u64)
    requires
        max >= s.len(),
        forall|i: int| 0 <= i < s.len() ==> entry_expired(#[trigger] s[i], now),
    ensures
        timeout_take(s, max, now) == s.len(),
        s.skip(timeout_take(s, max, now)) =~= Seq::<(u32, StatusTable)>::empty(),
{
    lemma_timeout_take_exact(s, max, now, s.len() as int);
}

/// Every entry the scan takes is expired, and the first entry it leaves
/// behind (if the cap was not hit) is not.
pub proof fn lemma_timeout_take_split(s: Seq<(u32, StatusTable)>, max: int, now: u64)
    requires
        max >= 0,
    ensures
        forall|i: int|
            0 <= i < timeout_take(s, max, now) ==> entry_expired(#[trigger] s[i], now),
        timeout_take(s, max, now) < max && timeout_take(s, max, now) < s.len() ==> !entry_expired(
            s[timeout_take(s, max, now)],
            now,
        ),
    decreases s.len(),
{
    lemma_timeout_take_bounds(s, max, now);
    if s.len() != 0 && max > 0 && entry_expired(s[0], now) {
        lemma_timeout_take_bounds(s.skip(1), max - 1, now);
        lemma_timeout_take_split(s.skip(1), max - 1, now);
        assert forall|i: int| 0 <= i < timeout_take(s, max, now) implies entry_expired(
            #[trigger] s[i],
            now,
        ) by {
            if i > 0 {
                assert(s.skip(1)[i - 1] == s[i]);
            }
        }
        let k = timeout_take(s, max, now);
        if k < max && k < s.len() {
            assert(s.skip(1)[k - 1] == s[k]);
        }
    }
}

impl View for LocalStruct {
    type V = Seq<(u32, StatusTable)>;

    closed spec fn view(&self) -> Seq<(u32, StatusTable)> {
        self.items@.map_values(|n: LocalNode| (n.index, n.v))
    }
}

impl LocalStruct {
    /// An empty table.
    pub fn new() -> (r: Self)
        ensures
            r@ == Seq::<(u32, StatusTable)>::empty(),
    {
        LocalStruct { items: Vec::new() }
    }

    /// Number of live entries.
    pub fn len(&self) -> (r: usize)
        ensures
            r == self@.len(),
    {
        self.items.len()
    }

    /// Whether an entry is filed under `index`.
    #[verifier::loop_isolation(false)]
    pub fn contains_index(&self, index: u32) -> (r: bool)
        ensures
            r == table_contains_index(self@, index),
    {
        let mut i: usize = 0;
        while i < self.items.len()
            invariant
                0 <= i <= self.items.len(),
                forall|j: int| 0 <= j < i ==> (#[trigger] self@[j]).0 != index,
            decreases self.items.len() - i,
        {
            if self.items[i].index == index {
                proof {
                    assert(self@[i as int] == (self.items@[i as int].index,
                    self.items@[i as int].v));
                }
                return true;
            }
            proof {
                assert(self@[i as int] == (self.items@[i as int].index,
                self.items@[i as int].v));
            }
            i = i + 1;
        }
        false
    }

    /// True when no query is in flight.
    pub fn empty(&self) -> (r: bool)
        ensures
            r == (self@.len() == 0),
    {
        self.len() == 0
    }

    /// Files a record under `index`, at the end of the table. The caller
    /// keeps indices unique: the index must not be live.
    pub fn append(&mut self, node: StatusTable, index: u32)
        requires
            !table_contains_index(old(self)@, index),
        ensures
            final(self)@ == old(self)@.push((index, node)),
    {
        let new_node = LocalNode { v: node, index };
        self.items.push(new_node);
    }

    /// Removes the first entry filed under `index` and hands it back;
    /// `None` when no entry carries that index (the table is unchanged).
    #[verifier::loop_isolation(false)]
    pub fn search_from_index_and_delete(&mut self, index: u32) -> (r: Option<LocalRetryStruct>)
        ensures
            table_contains_index(old(self)@, index) ==> {
                let pos = first_index_pos(old(self)@, index);
                &&& r matches Some(found)
                &&& found.index == index
                &&& found.v == old(self)@[pos].1
                &&& old(self)@[pos].0 == index
                &&& final(self)@ == old(self)@.remove(pos)
            },
            !table_contains_index(old(self)@, index) ==> r is None && final(self)@ == old(self)@,
    {
        let ghost s0 = self@;
        let mut i: usize = 0;
        while i < self.items.len()
            invariant
                0 <= i <= self.items.len(),
                self@ == s0,
                forall|j: int| 0 <= j < i ==> (#[trigger] s0[j]).0 != index,
            decreases self.items.len() - i,
        {
            if self.items[i].index == index {
                proof {
                    assert(s0[i as int] == (self.items@[i as int].index,
                    self.items@[i as int].v));
                    lemma_first_index_pos_here(s0, index, i as int);
                }
                let node = self.items.remove(i);
                proof {
                    assert(self@ =~= s0.remove(i as int));
                }
                return Some(LocalRetryStruct { v: node.v, index });
            }
            i = i + 1;
        }
        proof {
            assert(!table_contains_index(s0, index));
        }
        None
    }

    /// The timeout scan: removes and returns the expired entries at the head
    /// of the table, oldest first, at most `max` of them. It stops at the
    /// first entry that has not yet expired, so on a table whose times are
    /// non-decreasing it returns exactly the expired entries (up to the cap).
    #[verifier::loop_isolation(false)]
    pub fn get_timeout_data(&mut self, max: usize, now: u64) -> (r: Vec<LocalRetryStruct>)
        ensures
            ({
                let k = timeout_take(old(self)@, max as int, now);
                &&& r@.len() == k
                &&& forall|i: int|
                    0 <= i < k ==> (#[trigger] r@[i]).index == old(self)@[i].0 && r@[i].v == old(
                        self,
                    )@[i].1
                &&& final(self)@ == old(self)@.skip(k)
            }),
    {
        let ghost s0 = self@;
        let mut tables: Vec<LocalRetryStruct> = Vec::new();
        let mut count: usize = 0;
        proof {
            lemma_timeout_take_bounds(s0, max as int, now);
            lemma_timeout_take_split(s0, max as int, now);
        }
        let ghost k = timeout_take(s0, max as int, now);
        let mut stop = false;
        while !stop && count < self.items.len() && count < max
            invariant
                self@ == s0,
                0 <= count <= self.items.len(),
                count <= max,
                tables@.len() == count,
                forall|i: int|
                    0 <= i < count ==> (#[trigger] tables@[i]).index == s0[i].0 && tables@[i].v
                        == s0[i].1,
                forall|i: int| 0 <= i < count ==> entry_expired(#[trigger] s0[i], now),
                stop ==> count == k,
            decreases self.items.len() - count, if stop { 0int } else { 1int },
        {
            let node = &self.items[count];
            proof {
                assert(s0[count as int] == (self.items@[count as int].index,
                self.items@[count as int].v));
            }
            if node.v.time <= now && now - node.v.time >= TIMEOUT_SECS {
                proof {
                    lemma_timeout_take_step(s0, max as int, now, count as int);
                }
                tables.push(LocalRetryStruct { v: node.v.clone(), index: node.index });
                count = count + 1;
            } else {
                proof {
                    lemma_timeout_take_exact(s0, max as int, now, count as int);
                }
                stop = true;
            }
        }
        proof {
            if !stop {
                lemma_timeout_take_exact(s0, max as int, now, count as int);
            }
        }
        let rest = self.items.split_off(count);
        self.items = rest;
        proof {
            assert(self@ =~= s0.skip(count as int));
        }
        tables
    }
}

/// If the first `p` entries do not carry `index` and the entry at `p` does,
/// then `p` is the first position of `index`.
proof fn lemma_first_index_pos_here(s: Seq<(u32, StatusTable)>, index: u32, p: int)
    requires
        0 <= p < s.len(),
        s[p].0 == index,
        forall|j: int| 0 <= j < p ==> (#[trigger] s[j]).0 != index,
    ensures
        first_index_pos(s, index) == p,
        table_contains_index(s, index),
    decreases p,
{
    if p > 0 {
        assert(s.skip(1)[p - 1] == s[p]);
        assert forall|j: int| 0 <= j < p - 1 implies (#[trigger] s.skip(1)[j]).0 != index by {
            assert(s.skip(1)[j] == s[j + 1]);
        }
        lemma_first_index_pos_here(s.skip(1), index, p - 1);
    }
}

/// While the scan is still inside the expired prefix, one more entry is
/// taken.
proof fn lemma_timeout_take_step(s: Seq<(u32, StatusTable)>, max: int, now: u64, c: int)
    requires
        0 <= c < s.len(),
        c < max,
        forall|i: int| 0 <= i <= c ==> entry_expired(#[trigger] s[i], now),
    ensures
        timeout_take(s, max, now) > c,
    decreases c,
{
    assert(entry_expired(s[0], now));
    assert(timeout_take(s, max, now) == 1 + timeout_take(s.skip(1), max - 1, now));
    if c == 0 {
        lemma_timeout_take_bounds(s.skip(1), max - 1, now);
    } else {
        assert forall|i: int| 0 <= i <= c - 1 implies entry_expired(#[trigger] s.skip(1)[i], now) by {
            assert(s.skip(1)[i] == s[i + 1]);
        }
        lemma_timeout_take_step(s.skip(1), max - 1, now, c - 1);
    }
}

/// When the scan stops — at the cap, at the end of the table, or at the
/// first entry that is not expired — it has taken exactly the prefix count.
proof fn lemma_timeout_take_exact(s: Seq<(u32, StatusTable)>, max: int, now: u64, c: int)
    requires
        0 <= c <= s.len(),
        c <= max,
        forall|i: int| 0 <= i < c ==> entry_expired(#[trigger] s[i], now),
        c == s.len() || c == max || !entry_expired(s[c], now),
    ensures
        timeout_take(s, max, now) == c,
    decreases c,
{
    if c == 0 {
    } else {
        assert(entry_expired(s[0], now));
        assert forall|i: int| 0 <= i < c - 1 implies entry_expired(#[trigger] s.skip(1)[i], now) by {
            assert(s.skip(1)[i] == s[i + 1]);
        }
        if c < s.len() {
            assert(s.skip(1)[c - 1] == s[c]);
        }
        lemma_timeout_take_exact(s.skip(1), max - 1, now, c - 1);
    }
}

} // verus!
