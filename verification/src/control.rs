//! The timeout/retry policy and the drain phase of the scan controller.
//!
//! The timeout loop hands every expired entry to `handle_timeout_entry`:
//! a record under the retry cap goes back into the table with a fresh
//! resolver and becomes one retry command; a record at the cap is dropped.
//! The drain phase counts consecutive empty probes of the table and
//! declares the scan done at five.

use crate::local_struct::{table_contains_index, LocalRetryStruct};
use crate::model::StatusTable;
use crate::state::BruteForceState;
use crate::structs::RetryStruct;
use vstd::prelude::*;

verus! {

/// A query is retried at most this many times after its first emission.
pub const RETRY_CAP: isize = 5;

/// The drain phase ends after this many consecutive empty probes.
pub const DRAIN_PROBES: u8 = 5;

/// How many more retry commands a record with `retry` retries behind it
/// will produce if no response ever arrives.
pub open spec fn retries_left(retry: int) -> int
    decreases 5 - retry,
{
    if retry >= 5 || retry < 0 {
        0
    } else {
        1 + retries_left(retry + 1)
    }
}

/// The retry cap: a fresh query that never gets an answer produces exactly
/// five retry commands, so with its first emission it is put on the wire
/// six times, and a record at the cap produces none.
pub proof fn lemma_retry_cap()
    ensures
        retries_left(0) == 5,
        1 + retries_left(0) == 6,
        retries_left(5) == 0,
{
    assert(retries_left(5) == 0);
    assert(retries_left(4) == 1);
    assert(retries_left(3) == 2);
    assert(retries_left(2) == 3);
    assert(retries_left(1) == 4);
    assert(retries_left(0) == 5);
}

/// Decides one expired entry. At the cap the record is dropped: no retry
/// command, nothing reinserted, the slot left for the scan's end. Below
/// the cap the record goes back into the table under its old index with
/// the fresh resolver, its retry count one higher and its send time `now`,
/// and the matching retry command is handed back, carrying the preserved
/// index split into UDP source port and transaction-id digits.
pub fn handle_timeout_entry(
    entry: &LocalRetryStruct,
    dns: String,
    now: u64,
    state: &mut BruteForceState,
) -> (r: Option<RetryStruct>)
    requires
        entry.index < 6065536,
        !table_contains_index(old(state).local_status@, entry.index),
    ensures
        final(state).discovered_domains@ == old(state).discovered_domains@,
        final(state).verification_results@ == old(state).verification_results@,
        final(state).local_stack@ == old(state).local_stack@,
        entry.v.retry >= RETRY_CAP ==> r is None && final(state).local_status@ == old(
            state,
        ).local_status@,
        entry.v.retry < RETRY_CAP ==> ({
            &&& r matches Some(cmd)
            &&& cmd.domain@ == entry.v.domain@
            &&& cmd.dns@ == dns@
            &&& cmd.src_port == entry.index as int % 60000
            &&& cmd.flag_id == entry.index as int / 60000
            &&& cmd.domain_level == entry.v.domain_level as usize
            &&& final(state).local_status@.len() == old(state).local_status@.len() + 1
            &&& final(state).local_status@ == old(state).local_status@.push(
                final(state).local_status@.last(),
            )
            &&& final(state).local_status@.last().0 == entry.index
            &&& final(state).local_status@.last().1.domain@ == entry.v.domain@
            &&& final(state).local_status@.last().1.dns@ == dns@
            &&& final(state).local_status@.last().1.time == now
            &&& final(state).local_status@.last().1.retry == entry.v.retry + 1
            &&& final(state).local_status@.last().1.domain_level == entry.v.domain_level
        }),
{
    if entry.v.retry >= RETRY_CAP {
        return None;
    }
    let pair = crate::tags::generate_flag_index_from_map(entry.index as usize);
    let record = StatusTable {
        domain: entry.v.domain.clone(),
        dns: dns.clone(),
        time: now,
        retry: entry.v.retry + 1,
        domain_level: entry.v.domain_level,
    };
    state.append_status(record, entry.index);
    Some(
        RetryStruct {
            domain: entry.v.domain.clone(),
            dns,
            src_port: pair.1,
            flag_id: pair.0,
            domain_level: #[verifier::truncate] (entry.v.domain_level as usize),
        },
    )
}

/// One probe of the drain phase: an empty table raises the count of
/// consecutive empty probes, a non-empty one resets it; the scan is done
/// once five probes in a row found the table empty.
pub fn drain_step(consecutive_empty: u8, table_empty: bool) -> (r: (u8, bool))
    requires
        consecutive_empty < DRAIN_PROBES,
    ensures
        table_empty ==> r.0 == consecutive_empty + 1,
        !table_empty ==> r.0 == 0,
        r.1 == (table_empty && consecutive_empty + 1 >= DRAIN_PROBES),
{
    if table_empty {
        let c = consecutive_empty + 1;
        (c, c >= DRAIN_PROBES)
    } else {
        (0, false)
    }
}

/// The drain counter after `k` probes that all found the table empty,
/// starting from `c` consecutive empty probes.
pub open spec fn drain_count_after(c: int, k: nat) -> int
    decreases k,
{
    if k == 0 {
        c
    } else {
        drain_count_after(c, (k - 1) as nat) + 1
    }
}

/// Quiescence is declared promptly: once the table stays empty, the drain
/// phase finishes within five probes — after `k` consecutive empty probes
/// the counter stands at `c + k`, so from any starting count it reaches
/// the threshold by the fifth probe.
pub proof fn lemma_drain_completes(c: int, k: nat)
    requires
        0 <= c,
    ensures
        drain_count_after(c, k) == c + k,
        k >= 5 ==> drain_count_after(c, k) >= DRAIN_PROBES,
    decreases k,
{
    if k > 0 {
        lemma_drain_completes(c, (k - 1) as nat);
    }
}

} // verus!
