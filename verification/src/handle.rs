//! Response dispatch: data carried out of the scan, rendering of answer
//! records to text, and the per-packet processing that feeds discoveries
//! into the scan state and releases correlation entries.

use crate::bytes::{all_ascii, ascii_chars_of, be16, dec_digits, lossy_string};
use crate::codec::{
    answer_view, parse_dns_answers, parse_name_at, spec_dns_ancount, spec_dns_answers,
    spec_dns_first_qname, spec_dns_tid, spec_parse_name, spec_scan_response, DnsAnswer,
    NAME_JUMP_BUDGET,
};
use crate::local_struct::{first_index_pos, table_contains_index};
use crate::state::{BruteForceState, FREE_LIST_BOUND};
use crate::tags::{good_free_entry, is_good_free_entry, spec_map_index};
use vstd::prelude::*;
use vstd::string::StringExecFns;

verus! {

/// One discovery: a name seen in an answer record, the text of that
/// record's data, the record type, and when it was observed.
#[derive(Debug)]
pub struct DiscoveredDomain {
    /// The queried name the answer belongs to.
    pub domain: String,
    /// The record's data rendered as text (an address, a name, or a
    /// priority-and-name pair).
    pub ip: String,
    /// The record type: `A`, `CNAME`, `NS`, `MX` or `TXT`.
    pub record_type: String,
    /// Epoch seconds when the answer was seen.
    pub timestamp: u64,
}

impl Clone for DiscoveredDomain {
    /// A cloned discovery equals the original, field for field.
    fn clone(&self) -> (r: Self)
        ensures
            r == *self,
    {
        DiscoveredDomain {
            domain: self.domain.clone(),
            ip: self.ip.clone(),
            record_type: self.record_type.clone(),
            timestamp: self.timestamp,
        }
    }
}

/// The liveness probe outcome for one discovered name.
#[derive(Debug)]
pub struct VerificationResult {
    /// The name that was probed.
    pub domain: String,
    /// The address it resolved to.
    pub ip: String,
    /// HTTP status, when the plain request got an answer.
    pub http_status: Option<u16>,
    /// HTTPS status, when the TLS request got an answer.
    pub https_status: Option<u16>,
    /// Page title, when one was read.
    pub title: Option<String>,
    /// The server header, when one was present.
    pub server: Option<String>,
    /// Whether either probe found the name alive.
    pub is_alive: bool,
}

impl Clone for VerificationResult {
    /// A cloned result equals the original, field for field.
    fn clone(&self) -> (r: Self)
        ensures
            r == *self,
    {
        VerificationResult {
            domain: self.domain.clone(),
            ip: self.ip.clone(),
            http_status: self.http_status,
            https_status: self.https_status,
            title: match &self.title {
                Some(t) => Some(t.clone()),
                None => None,
            },
            server: match &self.server {
                Some(s) => Some(s.clone()),
                None => None,
            },
            is_alive: self.is_alive,
        }
    }
}

/// Counts over a finished scan: how many names were found, the distinct
/// addresses, the addresses grouped by /24 range, the count per record
/// type, and the probe totals.
#[derive(Debug)]
pub struct SummaryStats {
    /// Number of discoveries.
    pub total_domains: usize,
    /// The distinct addresses among the discoveries, each once.
    pub unique_ips: Vec<String>,
    /// For each /24 range, the addresses that fell into it.
    pub ip_ranges: Vec<(String, Vec<String>)>,
    /// For each record type seen, how many discoveries carried it.
    pub record_types: Vec<(String, usize)>,
    /// Number of names probed.
    pub verified_domains: usize,
    /// Number of names found alive.
    pub alive_domains: usize,
}

/// Appends one probe outcome to a result list.
pub fn add_verification_result(results: &mut Vec<VerificationResult>, result: VerificationResult)
    ensures
        final(results)@ == old(results)@.push(result),
{
    results.push(result);
}

/// Hands back a copy of the discovery list.
pub fn get_discovered_domains(domains: &Vec<DiscoveredDomain>) -> (r: Vec<DiscoveredDomain>)
    ensures
        r@ == domains@,
{
    let r = domains.clone();
    proof {
        assert forall|i: int| 0 <= i < r@.len() implies r@[i] == domains@[i] by {
            assert(cloned::<DiscoveredDomain>(domains@[i], r@[i]));
        }
        assert(r@ =~= domains@);
    }
    r
}

/// Hands back a copy of the probe outcomes.
pub fn get_verification_results(results: &Vec<VerificationResult>) -> (r: Vec<VerificationResult>)
    ensures
        r@ == results@,
{
    let r = results.clone();
    proof {
        assert forall|i: int| 0 <= i < r@.len() implies r@[i] == results@[i] by {
            assert(cloned::<VerificationResult>(results@[i], r@[i]));
        }
        assert(r@ =~= results@);
    }
    r
}

/// Empties a discovery list.
pub fn clear_discovered_domains(domains: &mut Vec<DiscoveredDomain>)
    ensures
        final(domains)@.len() == 0,
{
    domains.clear();
}

/// Empties a probe outcome list.
pub fn clear_verification_results(results: &mut Vec<VerificationResult>)
    ensures
        final(results)@.len() == 0,
{
    results.clear();
}

/// An address as one element of the distinct-address list: appended only
/// when not yet present.
pub open spec fn spec_add_unique(acc: Seq<Seq<char>>, ip: Seq<char>) -> Seq<Seq<char>> {
    if acc.contains(ip) {
        acc
    } else {
        acc.push(ip)
    }
}

/// An address filed under its /24 range: the first row with that key
/// grows by the address, a missing key starts a new row at the end.
pub open spec fn spec_add_range(
    acc: Seq<(Seq<char>, Seq<Seq<char>>)>,
    range: Seq<char>,
    ip: Seq<char>,
) -> Seq<(Seq<char>, Seq<Seq<char>>)>
    decreases acc.len(),
{
    if acc.len() == 0 {
        seq![(range, seq![ip])]
    } else if acc[0].0 == range {
        seq![(acc[0].0, acc[0].1.push(ip))] + acc.skip(1)
    } else {
        seq![acc[0]] + spec_add_range(acc.skip(1), range, ip)
    }
}

/// A record type counted: the first row with that label counts one more,
/// a missing label starts at one.
pub open spec fn spec_add_type(acc: Seq<(Seq<char>, int)>, rt: Seq<char>) -> Seq<
    (Seq<char>, int),
>
    decreases acc.len(),
{
    if acc.len() == 0 {
        seq![(rt, 1int)]
    } else if acc[0].0 == rt {
        seq![(acc[0].0, acc[0].1 + 1)] + acc.skip(1)
    } else {
        seq![acc[0]] + spec_add_type(acc.skip(1), rt)
    }
}

/// The /24 range of an address, as text: its first three octets and `.0/24`.
pub open spec fn spec_range_chars(ip: [u8; 4]) -> Seq<char> {
    crate::bytes::dec_chars(ip[0] as int) + seq!['.'] + crate::bytes::dec_chars(ip[1] as int)
        + seq!['.'] + crate::bytes::dec_chars(ip[2] as int) + ".0/24"@
}

/// The three address groupings of the summary, folded over the
/// discoveries in order: the distinct addresses, the addresses by /24
/// range (only discoveries whose text parses as a dotted quad count), and
/// the count per record type (every discovery counts).
pub open spec fn spec_summary_fold(
    ds: Seq<DiscoveredDomain>,
    uips: Seq<Seq<char>>,
    ranges: Seq<(Seq<char>, Seq<Seq<char>>)>,
    types: Seq<(Seq<char>, int)>,
) -> (Seq<Seq<char>>, Seq<(Seq<char>, Seq<Seq<char>>)>, Seq<(Seq<char>, int)>)
    decreases ds.len(),
{
    if ds.len() == 0 {
        (uips, ranges, types)
    } else {
        let d = ds[0];
        let parsed = crate::bytes::spec_parse_ipv4(vstd::utf8::encode_utf8(d.ip@));
        if parsed is Some {
            spec_summary_fold(
                ds.skip(1),
                spec_add_unique(uips, d.ip@),
                spec_add_range(ranges, spec_range_chars(parsed.unwrap()), d.ip@),
                spec_add_type(types, d.record_type@),
            )
        } else {
            spec_summary_fold(ds.skip(1), uips, ranges, spec_add_type(types, d.record_type@))
        }
    }
}

/// How many probe outcomes found their name alive.
pub open spec fn count_alive(vs: Seq<VerificationResult>) -> int
    decreases vs.len(),
{
    if vs.len() == 0 {
        0
    } else {
        (if vs[0].is_alive {
            1int
        } else {
            0int
        }) + count_alive(vs.skip(1))
    }
}

/// The view of the range rows.
pub open spec fn ranges_view(v: Seq<(String, Vec<String>)>) -> Seq<(Seq<char>, Seq<Seq<char>>)> {
    v.map_values(|r: (String, Vec<String>)| (r.0@, r.1@.map_values(|s: String| s@)))
}

/// The view of the record-type rows.
pub open spec fn types_view(v: Seq<(String, usize)>) -> Seq<(Seq<char>, int)> {
    v.map_values(|r: (String, usize)| (r.0@, r.1 as int))
}

/// Appends an address to the distinct list when it is not yet there.
#[verifier::loop_isolation(false)]
fn note_unique(list: &mut Vec<String>, ip: &String)
    ensures
        final(list)@.map_values(|s: String| s@) == spec_add_unique(
            old(list)@.map_values(|s: String| s@),
            ip@,
        ),
{
    let ghost acc = list@.map_values(|s: String| s@);
    let mut i: usize = 0;
    while i < list.len()
        invariant
            0 <= i <= list@.len(),
            acc == list@.map_values(|s: String| s@),
            forall|j: int| 0 <= j < i ==> (#[trigger] acc[j]) != ip@,
        decreases list@.len() - i,
    {
        if crate::wildcard::str_eq(list[i].as_str(), ip.as_str()) {
            proof {
                assert(acc[i as int] == list@[i as int]@);
                assert(acc.contains(ip@));
            }
            return ;
        }
        proof {
            assert(acc[i as int] == list@[i as int]@);
        }
        i = i + 1;
    }
    proof {
        if acc.contains(ip@) {
            let w = choose|w: int| 0 <= w < acc.len() && acc[w] == ip@;
            assert(acc[w] != ip@);
        }
    }
    list.push(ip.clone());
    proof {
        assert(final(list)@.map_values(|s: String| s@) =~= acc.push(ip@));
    }
}

/// Files an address under its range row, starting the row when the range
/// is new.
#[verifier::loop_isolation(false)]
fn note_range(list: &mut Vec<(String, Vec<String>)>, range: String, ip: &String)
    ensures
        ranges_view(final(list)@) == spec_add_range(ranges_view(old(list)@), range@, ip@),
{
    let ghost acc = ranges_view(list@);
    let mut i: usize = 0;
    while i < list.len()
        invariant
            0 <= i <= list@.len(),
            acc == ranges_view(list@),
            forall|j: int| 0 <= j < i ==> (#[trigger] acc[j]).0 != range@,
        decreases list@.len() - i,
    {
        proof {
            assert(acc[i as int] == (list@[i as int].0@, list@[i as int].1@.map_values(
                |s: String| s@,
            )));
        }
        if crate::wildcard::str_eq(list[i].0.as_str(), range.as_str()) {
            let ghost row0 = list@[i as int];
            let mut row = (list[i].0.clone(), get_verification_strings(&list[i].1));
            row.1.push(ip.clone());
            list.set(i, row);
            proof {
                lemma_add_range_at(acc, range@, ip@, i as int);
                assert(ranges_view(list@) =~~= acc.update(
                    i as int,
                    (acc[i as int].0, acc[i as int].1.push(ip@)),
                ));
            }
            return ;
        }
        i = i + 1;
    }
    let mut fresh: Vec<String> = Vec::new();
    fresh.push(ip.clone());
    list.push((range, fresh));
    proof {
        lemma_add_range_none(acc, range@, ip@);
        assert(ranges_view(list@) =~~= acc.push((range@, seq![ip@])));
    }
}

/// Counts a record type, starting its row at one when the label is new.
#[verifier::loop_isolation(false)]
fn note_type(list: &mut Vec<(String, usize)>, rt: &String)
    requires
        forall|j: int| 0 <= j < old(list)@.len() ==> (#[trigger] old(list)@[j]).1 < usize::MAX,
    ensures
        types_view(final(list)@) == spec_add_type(types_view(old(list)@), rt@),
{
    let ghost acc = types_view(list@);
    let mut i: usize = 0;
    while i < list.len()
        invariant
            0 <= i <= list@.len(),
            acc == types_view(list@),
            forall|j: int| 0 <= j < i ==> (#[trigger] acc[j]).0 != rt@,
        decreases list@.len() - i,
    {
        proof {
            assert(acc[i as int] == (list@[i as int].0@, list@[i as int].1 as int));
        }
        if crate::wildcard::str_eq(list[i].0.as_str(), rt.as_str()) {
            let n = list[i].1;
            let label = list[i].0.clone();
            list.set(i, (label, n + 1));
            proof {
                lemma_add_type_at(acc, rt@, i as int);
                assert(types_view(list@) =~= acc.update(
                    i as int,
                    (acc[i as int].0, acc[i as int].1 + 1),
                ));
            }
            return ;
        }
        i = i + 1;
    }
    list.push((rt.clone(), 1));
    proof {
        lemma_add_type_none(acc, rt@);
        assert(types_view(list@) =~= acc.push((rt@, 1int)));
    }
}

/// Counting one record type raises no count by more than one.
proof fn lemma_add_type_bound(acc: Seq<(Seq<char>, int)>, rt: Seq<char>, b: int)
    requires
        b >= 0,
        forall|j: int| 0 <= j < acc.len() ==> (#[trigger] acc[j]).1 <= b,
    ensures
        forall|j: int|
            0 <= j < spec_add_type(acc, rt).len() ==> (#[trigger] spec_add_type(acc, rt)[j]).1 <= b
                + 1,
    decreases acc.len(),
{
    if acc.len() > 0 && acc[0].0 == rt {
        assert forall|j: int| 0 <= j < spec_add_type(acc, rt).len() implies (
        #[trigger] spec_add_type(acc, rt)[j]).1 <= b + 1 by {
            if j > 0 {
                assert(spec_add_type(acc, rt)[j] == acc.skip(1)[j - 1]);
                assert(acc.skip(1)[j - 1] == acc[j]);
            }
        }
    } else if acc.len() > 0 {
        assert forall|j: int| 0 <= j < acc.skip(1).len() implies (#[trigger] acc.skip(1)[j]).1
            <= b by {
            assert(acc.skip(1)[j] == acc[j + 1]);
        }
        lemma_add_type_bound(acc.skip(1), rt, b);
        assert forall|j: int| 0 <= j < spec_add_type(acc, rt).len() implies (#[trigger] spec_add_type(
            acc,
            rt,
        )[j]).1 <= b + 1 by {
            if j > 0 {
                assert(spec_add_type(acc, rt)[j] == spec_add_type(acc.skip(1), rt)[j - 1]);
            }
        }
    }
}

/// A row whose key matches, with no earlier match, is the one the filing
/// updates.
proof fn lemma_add_range_at(
    acc: Seq<(Seq<char>, Seq<Seq<char>>)>,
    range: Seq<char>,
    ip: Seq<char>,
    p: int,
)
    requires
        0 <= p < acc.len(),
        acc[p].0 == range,
        forall|j: int| 0 <= j < p ==> (#[trigger] acc[j]).0 != range,
    ensures
        spec_add_range(acc, range, ip) =~= acc.update(p, (acc[p].0, acc[p].1.push(ip))),
    decreases p,
{
    if p > 0 {
        assert(acc.skip(1)[p - 1] == acc[p]);
        assert forall|j: int| 0 <= j < p - 1 implies (#[trigger] acc.skip(1)[j]).0 != range by {
            assert(acc.skip(1)[j] == acc[j + 1]);
        }
        lemma_add_range_at(acc.skip(1), range, ip, p - 1);
        assert(acc.skip(1).update(p - 1, (acc[p].0, acc[p].1.push(ip))) =~= acc.update(
            p,
            (acc[p].0, acc[p].1.push(ip)),
        ).skip(1));
    }
}

/// With no matching key the filing appends a fresh row.
proof fn lemma_add_range_none(acc: Seq<(Seq<char>, Seq<Seq<char>>)>, range: Seq<char>, ip: Seq<
    char,
>)
    requires
        forall|j: int| 0 <= j < acc.len() ==> (#[trigger] acc[j]).0 != range,
    ensures
        spec_add_range(acc, range, ip) =~= acc.push((range, seq![ip])),
    decreases acc.len(),
{
    if acc.len() > 0 {
        assert forall|j: int| 0 <= j < acc.skip(1).len() implies (#[trigger] acc.skip(1)[j]).0
            != range by {
            assert(acc.skip(1)[j] == acc[j + 1]);
        }
        lemma_add_range_none(acc.skip(1), range, ip);
    }
}

/// A row whose label matches, with no earlier match, is the one the count
/// raises.
proof fn lemma_add_type_at(acc: Seq<(Seq<char>, int)>, rt: Seq<char>, p: int)
    requires
        0 <= p < acc.len(),
        acc[p].0 == rt,
        forall|j: int| 0 <= j < p ==> (#[trigger] acc[j]).0 != rt,
    ensures
        spec_add_type(acc, rt) =~= acc.update(p, (acc[p].0, acc[p].1 + 1)),
    decreases p,
{
    if p > 0 {
        assert(acc.skip(1)[p - 1] == acc[p]);
        assert forall|j: int| 0 <= j < p - 1 implies (#[trigger] acc.skip(1)[j]).0 != rt by {
            assert(acc.skip(1)[j] == acc[j + 1]);
        }
        lemma_add_type_at(acc.skip(1), rt, p - 1);
        assert(acc.skip(1).update(p - 1, (acc[p].0, acc[p].1 + 1)) =~= acc.update(
            p,
            (acc[p].0, acc[p].1 + 1),
        ).skip(1));
    }
}

/// With no matching label the count starts a fresh row at one.
proof fn lemma_add_type_none(acc: Seq<(Seq<char>, int)>, rt: Seq<char>)
    requires
        forall|j: int| 0 <= j < acc.len() ==> (#[trigger] acc[j]).0 != rt,
    ensures
        spec_add_type(acc, rt) =~= acc.push((rt, 1int)),
    decreases acc.len(),
{
    if acc.len() > 0 {
        assert forall|j: int| 0 <= j < acc.skip(1).len() implies (#[trigger] acc.skip(1)[j]).0
            != rt by {
            assert(acc.skip(1)[j] == acc[j + 1]);
        }
        lemma_add_type_none(acc.skip(1), rt);
    }
}

/// The /24 range of an address as a string.
fn make_range_string(ip: &[u8; 4]) -> (r: String)
    ensures
        r@ == spec_range_chars(*ip),
{
    let mut s = crate::bytes::u64_to_string(ip[0] as u64);
    proof {
        reveal_strlit(".");
        assert("."@ =~= seq!['.']);
    }
    s.append(".");
    let part = crate::bytes::u64_to_string(ip[1] as u64);
    s.append(part.as_str());
    s.append(".");
    let part = crate::bytes::u64_to_string(ip[2] as u64);
    s.append(part.as_str());
    s.append(".0/24");
    proof {
        assert(s@ =~= spec_range_chars(*ip));
    }
    s
}

/// Builds the summary of a finished scan: how many names were found, the
/// distinct addresses among the parseable discovery texts, those
/// addresses grouped by /24 range, the count per record type, and the
/// probe totals.
#[verifier::loop_isolation(false)]
pub fn generate_summary(
    discovered: &Vec<DiscoveredDomain>,
    verified: &Vec<VerificationResult>,
) -> (r: SummaryStats)
    ensures
        r.total_domains == discovered@.len(),
        r.verified_domains == verified@.len(),
        r.alive_domains == count_alive(verified@),
        ({
            let f = spec_summary_fold(
                discovered@,
                Seq::empty(),
                Seq::empty(),
                Seq::empty(),
            );
            &&& r.unique_ips@.map_values(|s: String| s@) == f.0
            &&& ranges_view(r.ip_ranges@) == f.1
            &&& types_view(r.record_types@) == f.2
        }),
{
    let mut unique_ips: Vec<String> = Vec::new();
    let mut ip_ranges: Vec<(String, Vec<String>)> = Vec::new();
    let mut record_types: Vec<(String, usize)> = Vec::new();
    let ghost full = spec_summary_fold(
        discovered@,
        Seq::empty(),
        Seq::empty(),
        Seq::empty(),
    );
    let mut i: usize = 0;
    proof {
        assert(discovered@.skip(0) =~= discovered@);
        assert(unique_ips@.map_values(|s: String| s@) =~= Seq::<Seq<char>>::empty());
        assert(ranges_view(ip_ranges@) =~= Seq::<(Seq<char>, Seq<Seq<char>>)>::empty());
        assert(types_view(record_types@) =~= Seq::<(Seq<char>, int)>::empty());
    }
    while i < discovered.len()
        invariant
            0 <= i <= discovered@.len(),
            spec_summary_fold(
                discovered@.skip(i as int),
                unique_ips@.map_values(|s: String| s@),
                ranges_view(ip_ranges@),
                types_view(record_types@),
            ) == full,
            forall|j: int|
                0 <= j < types_view(record_types@).len() ==> (#[trigger] types_view(
                    record_types@,
                )[j]).1 <= i,
        decreases discovered@.len() - i,
    {
        proof {
            assert(discovered@.skip(i as int)[0] == discovered@[i as int]);
            assert(discovered@.skip(i as int).skip(1) =~= discovered@.skip(i as int + 1));
            assert forall|j: int|
                0 <= j < record_types@.len() implies (#[trigger] record_types@[j]).1
                < usize::MAX by {
                assert(types_view(record_types@)[j].1 <= i);
            }
            lemma_add_type_bound(types_view(record_types@), discovered@[i as int].record_type@, i as int);
        }
        let d = &discovered[i];
        match crate::bytes::parse_ipv4(d.ip.as_str()) {
            Some(ip) => {
                note_unique(&mut unique_ips, &d.ip);
                let range = make_range_string(&ip);
                note_range(&mut ip_ranges, range, &d.ip);
                note_type(&mut record_types, &d.record_type);
            },
            None => {
                note_type(&mut record_types, &d.record_type);
            },
        }
        i = i + 1;
    }
    proof {
        assert(discovered@.skip(i as int) =~= Seq::<DiscoveredDomain>::empty());
    }
    let mut alive: usize = 0;
    let mut k: usize = 0;
    proof {
        assert(verified@.skip(0) =~= verified@);
    }
    while k < verified.len()
        invariant
            0 <= k <= verified@.len(),
            alive <= k,
            count_alive(verified@) == alive + count_alive(verified@.skip(k as int)),
        decreases verified@.len() - k,
    {
        proof {
            assert(verified@.skip(k as int)[0] == verified@[k as int]);
            assert(verified@.skip(k as int).skip(1) =~= verified@.skip(k as int + 1));
        }
        if verified[k].is_alive {
            alive = alive + 1;
        }
        k = k + 1;
    }
    proof {
        assert(verified@.skip(k as int) =~= Seq::<VerificationResult>::empty());
    }
    SummaryStats {
        total_domains: discovered.len(),
        unique_ips,
        ip_ranges,
        record_types,
        verified_domains: verified.len(),
        alive_domains: alive,
    }
}

/// Hands back copies of the addresses of one range row.
fn get_verification_strings(v: &Vec<String>) -> (r: Vec<String>)
    ensures
        r@ == v@,
{
    let r = v.clone();
    proof {
        assert forall|i: int| 0 <= i < r@.len() implies r@[i] == v@[i] by {
            assert(cloned::<String>(v@[i], r@[i]));
        }
        assert(r@ =~= v@);
    }
    r
}

/// The text of a raw data field rendered byte by byte: each byte in
/// decimal, dot-joined. On the four bytes of an A record this is the
/// dotted quad.
pub open spec fn spec_dotted_bytes(b: Seq<u8>) -> Seq<u8>
    decreases b.len(),
{
    if b.len() == 0 {
        Seq::empty()
    } else if b.len() == 1 {
        dec_digits(b[0] as int)
    } else {
        dec_digits(b[0] as int) + seq![46u8] + spec_dotted_bytes(b.skip(1))
    }
}

/// Dot-joined decimal text is ASCII.
pub proof fn lemma_dotted_bytes_ascii(b: Seq<u8>)
    ensures
        all_ascii(spec_dotted_bytes(b)),
    decreases b.len(),
{
    if b.len() > 0 {
        crate::bytes::lemma_dec_digits_ascii(b[0] as int);
        lemma_dotted_bytes_ascii(b.skip(1));
    }
}

/// Renders a data field byte by byte in decimal, dot-joined.
#[verifier::loop_isolation(false)]
pub fn render_dotted(b: &[u8]) -> (r: Vec<u8>)
    ensures
        r@ == spec_dotted_bytes(b@),
{
    let mut out: Vec<u8> = Vec::new();
    let mut i: usize = 0;
    proof {
        assert(b@.skip(0) =~= b@);
    }
    while i < b.len()
        invariant
            0 <= i <= b@.len(),
            spec_dotted_bytes(b@) =~= out@ + spec_dotted_bytes(b@.skip(i as int)),
        decreases b@.len() - i,
    {
        let ghost tail = b@.skip(i as int);
        proof {
            assert(tail[0] == b@[i as int]);
            assert(tail.skip(1) =~= b@.skip(i as int + 1));
        }
        let mut digits = crate::bytes::u64_to_dec_bytes(b[i] as u64);
        out.append(&mut digits);
        if i + 1 < b.len() {
            out.push(46);
        }
        i = i + 1;
    }
    proof {
        assert(b@.skip(i as int) =~= Seq::<u8>::empty());
        assert(out@ =~= spec_dotted_bytes(b@));
    }
    out
}

/// The text of a TXT record: its character-strings in order, separated by
/// one space wherever more data follows a string, stopping at a zero
/// length or a string cut short.
pub open spec fn spec_txt_bytes(data: Seq<u8>) -> Seq<u8>
    decreases data.len(),
{
    if data.len() == 0 {
        Seq::empty()
    } else {
        let l = data[0] as int;
        if l == 0 || 1 + l > data.len() {
            Seq::empty()
        } else {
            let chunk = data.subrange(1, 1 + l);
            let rest = data.skip(1 + l);
            if rest.len() == 0 {
                chunk
            } else {
                chunk + seq![32u8] + spec_txt_bytes(rest)
            }
        }
    }
}

/// Renders a TXT record's character-strings as bytes.
#[verifier::loop_isolation(false)]
pub fn txt_record_bytes(data: &[u8]) -> (r: Vec<u8>)
    ensures
        r@ == spec_txt_bytes(data@),
{
    let mut out: Vec<u8> = Vec::new();
    let mut i: usize = 0;
    let mut stop = false;
    proof {
        assert(data@.skip(0) =~= data@);
    }
    while !stop && i < data.len()
        invariant
            0 <= i <= data@.len(),
            !stop ==> spec_txt_bytes(data@) =~= out@ + spec_txt_bytes(data@.skip(i as int)),
            stop ==> out@ =~= spec_txt_bytes(data@),
        decreases data@.len() - i, if stop {
            0int
        } else {
            1int
        },
    {
        let ghost tail = data@.skip(i as int);
        proof {
            assert(tail[0] == data@[i as int]);
        }
        let l = data[i] as usize;
        if l == 0 || l >= data.len() - i {
            proof {
                assert(spec_txt_bytes(tail) =~= Seq::<u8>::empty());
            }
            stop = true;
        } else {
            let ghost out0 = out@;
            let mut j: usize = i + 1;
            while j < i + 1 + l
                invariant
                    i + 1 <= j <= i + 1 + l <= data@.len(),
                    out@ =~= out0 + data@.subrange(i as int + 1, j as int),
                decreases i + 1 + l - j,
            {
                out.push(data[j]);
                j = j + 1;
            }
            proof {
                assert(tail.subrange(1, 1 + l as int) =~= data@.subrange(
                    i as int + 1,
                    i as int + 1 + l as int,
                ));
                assert(tail.skip(1 + l as int) =~= data@.skip(i as int + 1 + l as int));
            }
            i = i + 1 + l;
            if i < data.len() {
                out.push(32);
            }
        }
    }
    proof {
        if !stop {
            assert(data@.skip(i as int) =~= Seq::<u8>::empty());
            assert(out@ =~= spec_txt_bytes(data@));
        }
    }
    out
}

/// Renders a TXT record's character-strings as text.
pub fn parse_txt_record(data: &[u8]) -> (r: String)
    ensures
        all_ascii(spec_txt_bytes(data@)) ==> r@ == ascii_chars_of(spec_txt_bytes(data@)),
{
    let bytes = txt_record_bytes(data);
    lossy_string(bytes.as_slice())
}

/// The text of a name found at `pos` of message `m`: the dotted name, or
/// nothing when it is malformed.
pub open spec fn spec_name_text(m: Seq<u8>, pos: int) -> Seq<u8> {
    match spec_parse_name(m, pos, NAME_JUMP_BUDGET as int) {
        Some(r) => r.0,
        None => Seq::empty(),
    }
}

/// The bytes of the name at `pos` of message `m`; empty when malformed.
pub fn name_text_bytes(m: &[u8], pos: usize) -> (r: Vec<u8>)
    requires
        m@.len() <= 65535,
    ensures
        r@ == spec_name_text(m@, pos as int),
{
    match parse_name_at(m, pos, NAME_JUMP_BUDGET) {
        Some(p) => p.0,
        None => Vec::new(),
    }
}

/// Parses a DNS name laid out at the start of `data`, following
/// compression pointers only within `data` itself; malformed names render
/// as empty text.
pub fn parse_dns_name(data: &[u8]) -> (r: String)
    requires
        data@.len() <= 65535,
    ensures
        all_ascii(spec_name_text(data@, 0)) ==> r@ == ascii_chars_of(spec_name_text(data@, 0)),
{
    let bytes = name_text_bytes(data, 0);
    lossy_string(bytes.as_slice())
}

/// What one answer record contributes to the discoveries: its type label
/// and its rendered text. Nothing for record types the scan does not
/// surface, nor for an MX record too short to carry a priority.
pub open spec fn spec_answer_text(d: Seq<u8>, a: (int, int, int)) -> Option<(Seq<u8>, Seq<u8>)> {
    let rdata = d.subrange(a.1, a.1 + a.2);
    if a.0 == 1 {
        Some((seq![65u8], spec_dotted_bytes(rdata)))
    } else if a.0 == 5 {
        Some((seq![67u8, 78u8, 65u8, 77u8, 69u8], spec_name_text(d, a.1)))
    } else if a.0 == 2 {
        Some((seq![78u8, 83u8], spec_name_text(d, a.1)))
    } else if a.0 == 15 {
        if a.2 >= 2 {
            Some(
                (
                    seq![77u8, 88u8],
                    dec_digits(be16(d[a.1], d[a.1 + 1])) + seq![32u8] + spec_name_text(
                        d,
                        a.1 + 2,
                    ),
                ),
            )
        } else {
            None
        }
    } else if a.0 == 16 {
        Some((seq![84u8, 88u8, 84u8], spec_txt_bytes(rdata)))
    } else {
        None
    }
}

/// The type labels and rendered texts of all surfaced answer records, in
/// answer order.
pub open spec fn spec_render_answers(d: Seq<u8>, answers: Seq<(int, int, int)>) -> Seq<
    (Seq<u8>, Seq<u8>),
>
    decreases answers.len(),
{
    if answers.len() == 0 {
        Seq::empty()
    } else {
        match spec_answer_text(d, answers[0]) {
            Some(t) => seq![t] + spec_render_answers(d, answers.skip(1)),
            None => spec_render_answers(d, answers.skip(1)),
        }
    }
}

/// The discoveries one response message yields: for each surfaced answer,
/// the first question's name, the type label, and the record text. A
/// message without answers, without a readable question, or with a
/// malformed answer section yields none.
pub open spec fn spec_discoveries(d: Seq<u8>) -> Seq<(Seq<u8>, Seq<u8>, Seq<u8>)> {
    if d.len() >= 12 && spec_dns_ancount(d) > 0 {
        match (spec_dns_first_qname(d), spec_dns_answers(d)) {
            (Some(q), Some(ans)) => spec_render_answers(d, ans).map_values(
                |t: (Seq<u8>, Seq<u8>)| (q, t.0, t.1),
            ),
            _ => Seq::empty(),
        }
    } else {
        Seq::empty()
    }
}

/// How an exec discovery corresponds to its model `(domain, type label,
/// text)`: the timestamp is the observation time, the type label matches
/// exactly, and the two rendered texts match wherever they are ASCII (a
/// byte outside ASCII passes through the replacement decoding of the
/// rendering, about which nothing further is claimed).
pub open spec fn discovery_matches(
    dd: DiscoveredDomain,
    m: (Seq<u8>, Seq<u8>, Seq<u8>),
    now: u64,
) -> bool {
    &&& dd.timestamp == now
    &&& dd.record_type@ == ascii_chars_of(m.1)
    &&& (all_ascii(m.0) ==> dd.domain@ == ascii_chars_of(m.0))
    &&& (all_ascii(m.2) ==> dd.ip@ == ascii_chars_of(m.2))
}

/// Renders the surfaced answer records of one response message into
/// discoveries stamped `now`.
#[verifier::loop_isolation(false)]
#[verifier::rlimit(60)]
pub fn collect_discoveries(d: &[u8], now: u64) -> (r: Vec<DiscoveredDomain>)
    requires
        12 <= d@.len() <= 65535,
    ensures
        r@.len() == spec_discoveries(d@).len(),
        forall|i: int|
            0 <= i < r@.len() ==> discovery_matches(#[trigger] r@[i], spec_discoveries(d@)[i], now),
{
    let mut out: Vec<DiscoveredDomain> = Vec::new();
    let an = crate::codec::join_be16_at(d, 6);
    if an == 0 {
        return out;
    }
    let qname_bytes = match parse_name_at(d, 12, NAME_JUMP_BUDGET) {
        Some(p) => p.0,
        None => {
            return out;
        },
    };
    let answers = match parse_dns_answers(d) {
        Some(v) => v,
        None => {
            return out;
        },
    };
    let qname = lossy_string(qname_bytes.as_slice());
    let ghost av = answers@.map_values(|a: DnsAnswer| answer_view(a));
    let ghost models = spec_discoveries(d@);
    let ghost rendered = spec_render_answers(d@, av);
    proof {
        assert(models =~= rendered.map_values(
            |t: (Seq<u8>, Seq<u8>)| (qname_bytes@, t.0, t.1),
        ));
        assert(av.skip(0) =~= av);
    }
    let mut i: usize = 0;
    while i < answers.len()
        invariant
            0 <= i <= answers@.len(),
            rendered.skip(out@.len() as int) =~= spec_render_answers(d@, av.skip(i as int)),
            out@.len() <= rendered.len(),
            forall|j: int|
                0 <= j < out@.len() ==> discovery_matches(#[trigger] out@[j], models[j], now),
        decreases answers@.len() - i,
    {
        let ghost k = out@.len() as int;
        proof {
            assert(av.skip(i as int)[0] == av[i as int]);
            assert(av.skip(i as int).skip(1) =~= av.skip(i as int + 1));
        }
        let a = answers[i];
        let text: Option<(String, Vec<u8>)> = if a.rtype == 1 {
            let bytes = render_dotted(&d[a.roff..a.roff + a.rdlen]);
            Some((String::from_str("A"), bytes))
        } else if a.rtype == 5 {
            let bytes = name_text_bytes(d, a.roff);
            Some((String::from_str("CNAME"), bytes))
        } else if a.rtype == 2 {
            let bytes = name_text_bytes(d, a.roff);
            Some((String::from_str("NS"), bytes))
        } else if a.rtype == 15 {
            if a.rdlen >= 2 {
                let pref = crate::codec::join_be16_at(d, a.roff);
                let mut bytes = crate::bytes::u64_to_dec_bytes(pref as u64);
                bytes.push(32);
                let mut name = name_text_bytes(d, a.roff + 2);
                bytes.append(&mut name);
                Some((String::from_str("MX"), bytes))
            } else {
                None
            }
        } else if a.rtype == 16 {
            let bytes = txt_record_bytes(&d[a.roff..a.roff + a.rdlen]);
            Some((String::from_str("TXT"), bytes))
        } else {
            None
        };
        match text {
            Some(rt_text) => {
                let (rt, text_bytes) = rt_text;
                let ghost t = spec_answer_text(d@, av[i as int]).unwrap();
                proof {
                    reveal_strlit("A");
                    reveal_strlit("CNAME");
                    reveal_strlit("NS");
                    reveal_strlit("MX");
                    reveal_strlit("TXT");
                    assert(spec_answer_text(d@, av[i as int]) is Some);
                    assert(t.1 =~= text_bytes@);
                    assert(ascii_chars_of(t.0) =~= rt@);
                    assert(rendered.skip(k)[0] == t);
                    assert(rendered[k] == t);
                    assert(rendered.skip(k).skip(1) =~= rendered.skip(k + 1));
                    assert(rendered.skip(k + 1) =~= spec_render_answers(
                        d@,
                        av.skip(i as int + 1),
                    ));
                    assert(models[k] == (qname_bytes@, t.0, t.1));
                }
                let ip = lossy_string(text_bytes.as_slice());
                out.push(
                    DiscoveredDomain {
                        domain: qname.clone(),
                        ip,
                        record_type: rt,
                        timestamp: now,
                    },
                );
            },
            None => {
                proof {
                    assert(spec_answer_text(d@, av[i as int]) is None);
                    assert(rendered.skip(k) =~= spec_render_answers(d@, av.skip(i as int + 1)));
                }
            },
        }
        i = i + 1;
    }
    proof {
        assert(av.skip(i as int) =~= Seq::<(int, int, int)>::empty());
        assert(out@.len() == rendered.len());
    }
    out
}

/// Handles one inbound IPv4 packet against the scan state.
///
/// A packet that is not this scan's response — not UDP from port 53, not a
/// DNS response, or a transaction id whose high digits differ from the scan
/// tag — changes nothing. A matching response appends its discoveries,
/// releases the correlation entry keyed by its low tid digits and UDP
/// destination port, and returns the released index to the free list when
/// that index decomposes back into a pair in the allocator's range.
/// Returns how many discoveries the packet yielded.
pub fn process_dns_response(
    ipv4_packet: &[u8],
    flag_id: u16,
    now: u64,
    state: &mut BruteForceState,
) -> (n: usize)
    requires
        ipv4_packet@.len() <= 65535,
    ensures
        final(state).verification_results@ == old(state).verification_results@,
        spec_scan_response(ipv4_packet@, flag_id) is None ==> final(state).discovered_domains@
            == old(state).discovered_domains@ && final(state).local_status@ == old(
            state,
        ).local_status@ && final(state).local_stack@ == old(state).local_stack@ && n == 0,
        spec_scan_response(ipv4_packet@, flag_id) matches Some(resp) ==> ({
            let d = resp.0;
            let idx = spec_map_index(spec_dns_tid(d) % 100, resp.1);
            let models = spec_discoveries(d);
            let olds = old(state).discovered_domains@;
            &&& n == models.len()
            &&& final(state).discovered_domains@.len() == olds.len() + models.len()
            &&& (forall|j: int|
                0 <= j < olds.len() ==> final(state).discovered_domains@[j] == olds[j])
            &&& (forall|i: int|
                0 <= i < models.len() ==> discovery_matches(
                    #[trigger] final(state).discovered_domains@[olds.len() + i],
                    models[i],
                    now,
                ))
            &&& (table_contains_index(old(state).local_status@, idx as u32) ==> ({
                &&& final(state).local_status@ == old(state).local_status@.remove(
                    first_index_pos(old(state).local_status@, idx as u32),
                )
                &&& (good_free_entry(idx) && old(state).local_stack@.len() < FREE_LIST_BOUND
                    ==> final(state).local_stack@ == old(state).local_stack@.push(
                    idx as usize,
                ))
                &&& (!(good_free_entry(idx) && old(state).local_stack@.len() < FREE_LIST_BOUND)
                    ==> final(state).local_stack@ == old(state).local_stack@)
            }))
            &&& (!table_contains_index(old(state).local_status@, idx as u32)
                ==> final(state).local_status@ == old(state).local_status@
                && final(state).local_stack@ == old(state).local_stack@)
        }),
{
    let resp = crate::codec::extract_scan_response(ipv4_packet, flag_id);
    match resp {
        None => 0,
        Some(dp) => {
            let (d, port) = dp;
            let discs = collect_discoveries(d, now);
            let n = discs.len();
            let ghost olds = state.discovered_domains@;
            let mut k: usize = 0;
            while k < discs.len()
                invariant
                    0 <= k <= discs@.len(),
                    state.discovered_domains@ =~= olds + discs@.subrange(0, k as int),
                    state.verification_results@ == old(state).verification_results@,
                    state.local_status@ == old(state).local_status@,
                    state.local_stack@ == old(state).local_stack@,
                decreases discs@.len() - k,
            {
                state.discovered_domains.push(discs[k].clone());
                k = k + 1;
            }
            proof {
                assert(discs@.subrange(0, discs@.len() as int) =~= discs@);
            }
            let tid = crate::codec::join_be16_at(d, 0);
            let idx = crate::tags::generate_map_index(tid % 100, port);
            let idxu = idx as usize;
            match state.search_from_index_and_delete(idx as u32) {
                Some(_) => {
                    if is_good_free_entry(idxu) {
                        state.push_to_stack(idxu);
                    }
                },
                None => {},
            }
            proof {
                assert(state.discovered_domains@ == olds + discs@);
                assert forall|i: int| 0 <= i < discs@.len() implies discovery_matches(
                    #[trigger] state.discovered_domains@[olds.len() + i],
                    spec_discoveries(d@)[i],
                    now,
                ) by {
                    assert(state.discovered_domains@[olds.len() + i] == discs@[i]);
                    assert(discovery_matches(discs@[i], spec_discoveries(d@)[i], now));
                }
                assert forall|j: int| 0 <= j < olds.len() implies state.discovered_domains@[j]
                    == olds[j] by {}
            }
            n
        },
    }
}

} // verus!
