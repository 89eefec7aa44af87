//! The scan's shared state: discoveries, probe outcomes, the correlation
//! table, and the free list of released indices. Each scan owns one
//! instance; the send and receive paths work on it through the methods
//! here.

use crate::handle::{DiscoveredDomain, VerificationResult};
use crate::local_struct::{table_contains_index, first_index_pos, LocalRetryStruct, LocalStruct, timeout_take};
use crate::model::StatusTable;
use crate::stack::Stack;
use vstd::prelude::*;

verus! {

/// The free list never grows beyond this many entries; pushes over the
/// bound are dropped.
pub const FREE_LIST_BOUND: usize = 50000;

/// The state of one scan.
#[derive(Debug)]
pub struct BruteForceState {
    /// Names discovered so far.
    pub discovered_domains: Vec<DiscoveredDomain>,
    /// Probe outcomes gathered so far.
    pub verification_results: Vec<VerificationResult>,
    /// The in-flight correlation table.
    pub local_status: LocalStruct,
    /// Released correlation indices, available for reuse.
    pub local_stack: Stack<usize>,
}

impl BruteForceState {
    /// A fresh state: nothing discovered, nothing in flight, nothing free.
    pub fn new() -> (r: Self)
        ensures
            r.discovered_domains@.len() == 0,
            r.verification_results@.len() == 0,
            r.local_status@.len() == 0,
            r.local_stack@.len() == 0,
    {
        BruteForceState {
            discovered_domains: Vec::new(),
            verification_results: Vec::new(),
            local_status: LocalStruct::new(),
            local_stack: Stack::new(),
        }
    }

    /// Records one discovery.
    pub fn add_discovered_domain(&mut self, domain: DiscoveredDomain)
        ensures
            final(self).discovered_domains@ == old(self).discovered_domains@.push(domain),
            final(self).verification_results@ == old(self).verification_results@,
            final(self).local_status@ == old(self).local_status@,
            final(self).local_stack@ == old(self).local_stack@,
    {
        self.discovered_domains.push(domain);
    }

    /// Hands back a copy of the discoveries.
    pub fn get_discovered_domains(&self) -> (r: Vec<DiscoveredDomain>)
        ensures
            r@ == self.discovered_domains@,
    {
        crate::handle::get_discovered_domains(&self.discovered_domains)
    }

    /// Forgets all discoveries.
    pub fn clear_discovered_domains(&mut self)
        ensures
            final(self).discovered_domains@.len() == 0,
            final(self).verification_results@ == old(self).verification_results@,
            final(self).local_status@ == old(self).local_status@,
            final(self).local_stack@ == old(self).local_stack@,
    {
        self.discovered_domains.clear();
    }

    /// Records one probe outcome.
    pub fn add_verification_result(&mut self, result: VerificationResult)
        ensures
            final(self).verification_results@ == old(self).verification_results@.push(result),
            final(self).discovered_domains@ == old(self).discovered_domains@,
            final(self).local_status@ == old(self).local_status@,
            final(self).local_stack@ == old(self).local_stack@,
    {
        self.verification_results.push(result);
    }

    /// Hands back a copy of the probe outcomes.
    pub fn get_verification_results(&self) -> (r: Vec<VerificationResult>)
        ensures
            r@ == self.verification_results@,
    {
        crate::handle::get_verification_results(&self.verification_results)
    }

    /// Forgets all probe outcomes.
    pub fn clear_verification_results(&mut self)
        ensures
            final(self).verification_results@.len() == 0,
            final(self).discovered_domains@ == old(self).discovered_domains@,
            final(self).local_status@ == old(self).local_status@,
            final(self).local_stack@ == old(self).local_stack@,
    {
        self.verification_results.clear();
    }

    /// True when no query is in flight: the scan has quiesced.
    pub fn is_local_status_empty(&self) -> (r: bool)
        ensures
            r == (self.local_status@.len() == 0),
    {
        self.local_status.empty()
    }

    /// Removes and returns the expired head entries of the correlation
    /// table, at most `max_length` of them.
    pub fn get_timeout_data(&mut self, max_length: usize, now: u64) -> (r: Vec<LocalRetryStruct>)
        ensures
            ({
                let k = timeout_take(old(self).local_status@, max_length as int, now);
                &&& r@.len() == k
                &&& forall|i: int|
                    0 <= i < k ==> (#[trigger] r@[i]).index == old(self).local_status@[i].0
                        && r@[i].v == old(self).local_status@[i].1
                &&& final(self).local_status@ == old(self).local_status@.skip(k)
            }),
            final(self).discovered_domains@ == old(self).discovered_domains@,
            final(self).verification_results@ == old(self).verification_results@,
            final(self).local_stack@ == old(self).local_stack@,
    {
        self.local_status.get_timeout_data(max_length, now)
    }

    /// Removes the first correlation entry filed under `index`; `None` when
    /// no entry carries that index.
    pub fn search_from_index_and_delete(&mut self, index: u32) -> (r: Option<LocalRetryStruct>)
        ensures
            table_contains_index(old(self).local_status@, index) ==> {
                let pos = first_index_pos(old(self).local_status@, index);
                &&& r matches Some(found)
                &&& found.index == index
                &&& found.v == old(self).local_status@[pos].1
                &&& final(self).local_status@ == old(self).local_status@.remove(pos)
            },
            !table_contains_index(old(self).local_status@, index) ==> (r is None)
                && final(self).local_status@ == old(self).local_status@,
            final(self).discovered_domains@ == old(self).discovered_domains@,
            final(self).verification_results@ == old(self).verification_results@,
            final(self).local_stack@ == old(self).local_stack@,
    {
        self.local_status.search_from_index_and_delete(index)
    }

    /// Files a record in the correlation table under `index`, which must
    /// not be live.
    pub fn append_status(&mut self, value: StatusTable, index: u32)
        requires
            !table_contains_index(old(self).local_status@, index),
        ensures
            final(self).local_status@ == old(self).local_status@.push((index, value)),
            final(self).discovered_domains@ == old(self).discovered_domains@,
            final(self).verification_results@ == old(self).verification_results@,
            final(self).local_stack@ == old(self).local_stack@,
    {
        self.local_status.append(value, index);
    }

    /// Returns a released index to the free list; over the bound the push
    /// is dropped.
    pub fn push_to_stack(&mut self, index: usize)
        ensures
            old(self).local_stack@.len() < FREE_LIST_BOUND ==> final(self).local_stack@ == old(
                self,
            ).local_stack@.push(index),
            old(self).local_stack@.len() >= FREE_LIST_BOUND ==> final(self).local_stack@ == old(
                self,
            ).local_stack@,
            final(self).discovered_domains@ == old(self).discovered_domains@,
            final(self).verification_results@ == old(self).verification_results@,
            final(self).local_status@ == old(self).local_status@,
    {
        if self.local_stack.len() < FREE_LIST_BOUND {
            self.local_stack.push(index);
        }
    }
}

impl Default for BruteForceState {
    /// The default state is a fresh one.
    fn default() -> (r: Self)
        ensures
            r.discovered_domains@.len() == 0,
            r.verification_results@.len() == 0,
            r.local_status@.len() == 0,
            r.local_stack@.len() == 0,
    {
        Self::new()
    }
}

} // verus!
