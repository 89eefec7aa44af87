//! The send engine: resolver choice, index allocation, query registration,
//! and the frame for one emission.
//!
//! The allocator first sweeps the index space once — slot `10001 ..= 60000`
//! for each sub-tag `0 ..= 99` — and then lives off the free list of
//! released indices. The caller emits the returned frame; nothing here
//! touches the wire.

use crate::bytes::spec_parse_ipv4;
use crate::codec::{
    build_dns_query, build_query_frame, lemma_dns_query_len, spec_dns_query, spec_query_frame,
};
use crate::local_struct::table_contains_index;
use crate::model::{EthTable, StatusTable};
use crate::state::BruteForceState;
use crate::tags::{good_free_entry, spec_map_index, valid_pair, SLOT_SPAN};
use crate::util::rand_below;
use vstd::prelude::*;
use vstd::string::StringSliceAdditionalSpecFns;

verus! {

/// The allocator's ghost image: the slot cursor, the sub-tag cursor, and
/// whether the first monotonic sweep is still running.
pub struct AllocModel {
    /// The slot cursor.
    pub slot: int,
    /// The sub-tag cursor.
    pub sub: int,
    /// True while the first sweep of the index space is running.
    pub mono: bool,
}

/// A well-formed allocator: the cursors sit inside the space they sweep,
/// and the slot cursor rests on the band's top value only while a band
/// below the last is being swept.
pub open spec fn alloc_wf(m: AllocModel) -> bool {
    &&& 10000 <= m.slot <= 60000
    &&& 0 <= m.sub <= 100
    &&& (m.slot == 60000 ==> m.sub < 100)
}

/// One allocation step. Wraps the slot cursor at the band's end, leaves the
/// monotonic sweep once the sub-tag cursor has crossed its last band, and
/// after that feeds on the free list: a popped index that decomposes into a
/// pair in range is reissued, anything else is dropped and the step yields
/// nothing (the caller backs off and retries).
pub open spec fn spec_alloc_step(m: AllocModel, stack: Seq<usize>) -> (
    AllocModel,
    Seq<usize>,
    Option<(int, int)>,
) {
    let m1 = if m.slot >= 60000 {
        AllocModel { slot: 10000, sub: m.sub + 1, mono: m.mono }
    } else {
        m
    };
    let m2 = AllocModel { slot: m1.slot, sub: m1.sub, mono: m1.mono && !(m1.sub > 99) };
    if m2.mono {
        (
            AllocModel { slot: m2.slot + 1, sub: m2.sub, mono: m2.mono },
            stack,
            Some((m2.sub, m2.slot + 1)),
        )
    } else if stack.len() == 0 {
        (m2, stack, None)
    } else {
        let v = stack.last() as int;
        let rest = stack.drop_last();
        if good_free_entry(v) {
            (
                AllocModel { slot: v % (SLOT_SPAN as int), sub: v / (SLOT_SPAN as int), mono: m2.mono },
                rest,
                Some((v / (SLOT_SPAN as int), v % (SLOT_SPAN as int))),
            )
        } else {
            (m2, rest, None)
        }
    }
}

/// Every pair the allocator issues is a valid one: the sub-tag below 100,
/// the slot within `10001 ..= 60000` — whatever the free list held.
pub proof fn lemma_alloc_step_valid(m: AllocModel, stack: Seq<usize>)
    requires
        alloc_wf(m),
    ensures
        alloc_wf(spec_alloc_step(m, stack).0),
        spec_alloc_step(m, stack).2 matches Some(p) ==> valid_pair(p.0, p.1),
{
}

/// The send engine of one scan: the interface binding, the resolver set,
/// the scan tag, and the index allocator.
pub struct SendDog {
    ether: EthTable,
    dns: Vec<String>,
    index: u16,
    increate_index: bool,
    flag_id: u16,
    flag_id2: u16,
}

impl SendDog {
    /// The allocator's ghost image.
    pub closed spec fn alloc_model(&self) -> AllocModel {
        AllocModel { slot: self.index as int, sub: self.flag_id2 as int, mono: self.increate_index }
    }

    /// The scan tag this engine stamps into every transaction id.
    pub closed spec fn spec_flag_id(&self) -> u16 {
        self.flag_id
    }

    /// The interface binding the frames are built from.
    pub closed spec fn spec_ether(&self) -> EthTable {
        self.ether
    }

    /// The resolver set, one dotted quad per entry.
    pub closed spec fn spec_dns(&self) -> Seq<String> {
        self.dns@
    }

    /// A well-formed engine: the scan tag in its range, the allocator in
    /// bounds, at least one resolver.
    pub open spec fn wf(&self) -> bool {
        &&& 400 <= self.spec_flag_id() < 655
        &&& alloc_wf(self.alloc_model())
        &&& self.spec_dns().len() > 0
    }

    /// A new engine for one scan: allocation starts at the bottom of the
    /// space, and an empty resolver list falls back to the built-in set of
    /// six public resolvers.
    pub fn new(ether: EthTable, dns: Vec<String>, flag_id: u16) -> (r: SendDog)
        requires
            400 <= flag_id < 655,
        ensures
            r.wf(),
            r.spec_flag_id() == flag_id,
            r.spec_ether() == ether,
            r.alloc_model() == (AllocModel { slot: 10000int, sub: 0int, mono: true }),
            dns@.len() > 0 ==> r.spec_dns() == dns@,
            dns@.len() == 0 ==> r.spec_dns().len() == 6,
    {
        let default_dns: Vec<String>;
        if dns.len() == 0 {
            let mut d: Vec<String> = Vec::new();
            d.push(String::from_str("223.5.5.5"));
            d.push(String::from_str("223.6.6.6"));
            d.push(String::from_str("180.76.76.76"));
            d.push(String::from_str("119.29.29.29"));
            d.push(String::from_str("182.254.116.116"));
            d.push(String::from_str("114.114.114.115"));
            default_dns = d;
        } else {
            default_dns = dns;
        }
        SendDog {
            ether,
            dns: default_dns,
            flag_id,
            index: 10000,
            increate_index: true,
            flag_id2: 0,
        }
    }

    /// Picks one resolver from the set, uniformly at random.
    pub fn chose_dns(&self) -> (r: String)
        requires
            self.wf(),
        ensures
            exists|i: int| 0 <= i < self.spec_dns().len() && r@ == self.spec_dns()[i]@,
    {
        let index = rand_below(self.dns.len());
        let picked = self.dns[index].clone();
        proof {
            assert(picked@ == self.spec_dns()[index as int]@);
        }
        picked
    }

    /// Takes the next index, registers the query under it, and hands back
    /// the `(sub_tag, slot)` pair for the emission: the sub-tag goes into
    /// the low digits of the transaction id, the slot becomes the UDP
    /// source port.
    ///
    /// `None` means no index was issued this time — the free list was empty
    /// or held an index out of range, or the issued key was already live —
    /// and the registration did not happen; the caller backs off and calls
    /// again.
    pub fn build_status_table(
        &mut self,
        domain: &str,
        dns: &str,
        domain_level: isize,
        now: u64,
        state: &mut BruteForceState,
    ) -> (r: Option<(u16, u16)>)
        requires
            old(self).wf(),
        ensures
            final(self).wf(),
            final(self).spec_flag_id() == old(self).spec_flag_id(),
            final(self).spec_ether() == old(self).spec_ether(),
            final(self).spec_dns() == old(self).spec_dns(),
            final(state).discovered_domains@ == old(state).discovered_domains@,
            final(state).verification_results@ == old(state).verification_results@,
            ({
                let step = spec_alloc_step(old(self).alloc_model(), old(state).local_stack@);
                &&& final(self).alloc_model() == step.0
                &&& final(state).local_stack@ == step.1
                &&& (step.2 is None ==> r is None && final(state).local_status@ == old(
                    state,
                ).local_status@)
                &&& (step.2 matches Some(p) ==> {
                    let key = spec_map_index(p.0, p.1);
                    &&& (table_contains_index(old(state).local_status@, key as u32) ==> (r
                        is None) && final(state).local_status@ == old(state).local_status@)
                    &&& (!table_contains_index(old(state).local_status@, key as u32) ==> {
                        &&& r == Some(((p.0 as u16), (p.1 as u16)))
                        &&& valid_pair(p.0, p.1)
                        &&& final(state).local_status@ == old(state).local_status@.push(
                            (
                                key as u32,
                                (StatusTable {
                                    domain: final(state).local_status@.last().1.domain,
                                    dns: final(state).local_status@.last().1.dns,
                                    time: now,
                                    retry: 0,
                                    domain_level,
                                }),
                            ),
                        )
                        &&& final(state).local_status@.last().1.domain@ == domain@
                        &&& final(state).local_status@.last().1.dns@ == dns@
                    })
                })
            }),
    {
        proof {
            lemma_alloc_step_valid(old(self).alloc_model(), old(state).local_stack@);
        }
        if self.index >= 60000 {
            self.flag_id2 = self.flag_id2 + 1;
            self.index = 10000;
        }
        if self.flag_id2 > 99 {
            self.increate_index = false;
        }
        if self.increate_index {
            self.index = self.index + 1;
        } else {
            match state.local_stack.pop() {
                Some(v) => {
                    if !crate::tags::is_good_free_entry(v) {
                        return None;
                    }
                    let pair = crate::tags::generate_flag_index_from_map(v);
                    self.flag_id2 = pair.0;
                    self.index = pair.1;
                },
                None => {
                    return None;
                },
            }
        }
        let index = crate::tags::generate_map_index(self.flag_id2, self.index);
        if state.local_status.contains_index(index as u32) {
            return None;
        }
        let status = StatusTable {
            domain: domain.to_owned(),
            dns: dns.to_owned(),
            time: now,
            retry: 0,
            domain_level,
        };
        state.append_status(status, index as u32);
        Some((self.flag_id2, self.index))
    }

    /// Builds the frame for one emission: a DNS A query for `domain` with
    /// transaction id `scan_tag * 100 + flag_id`, sent from the slot as UDP
    /// source port to port 53 of the resolver. `None` when the resolver
    /// string is not a dotted quad — nothing is emitted for it.
    pub fn send(&self, domain: String, dnsname: String, src_port: u16, flag_id: u16) -> (r: Option<
        Vec<u8>,
    >)
        requires
            self.wf(),
            flag_id <= 100,
            vstd::utf8::encode_utf8(domain@).len() <= 60000,
        ensures
            (r is Some) == (spec_parse_ipv4(vstd::utf8::encode_utf8(dnsname@)) is Some),
            (r matches Some(frame) ==> spec_parse_ipv4(vstd::utf8::encode_utf8(dnsname@))
                matches Some(ip) && frame@ == spec_query_frame(
                self.spec_ether(),
                ip,
                src_port as int,
                spec_dns_query(
                    vstd::utf8::encode_utf8(domain@),
                    self.spec_flag_id() * 100 + flag_id,
                ),
            )),
    {
        let ip = match crate::bytes::parse_ipv4(dnsname.as_str()) {
            Some(ip) => ip,
            None => {
                return None;
            },
        };
        let tid: u16 = self.flag_id * 100 + flag_id;
        let query = build_dns_query(domain.as_str(), tid);
        proof {
            lemma_dns_query_len(vstd::utf8::encode_utf8(domain@), tid as int);
        }
        Some(build_query_frame(&self.ether, &ip, src_port, &query))
    }
}

} // verus!
