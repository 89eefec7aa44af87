//! Wildcard-DNS detection and suppression.
//!
//! A root domain that answers random labels is a wildcard: its phantom
//! address set is cached, and any A-record discovery whose address is in
//! the cache for its root is dropped from the results.

use crate::bytes::spec_parse_ipv4;
use crate::gen::split_dots;
use crate::handle::DiscoveredDomain;
use crate::util::rand_below;
use vstd::prelude::*;
use vstd::string::{StrSliceExecFns, StringExecFns};

verus! {

/// The last two labels of a name, joined; a name of fewer labels stands
/// for itself.
pub open spec fn spec_root_domain(d: Seq<char>) -> Seq<char> {
    let parts = split_dots(d);
    if parts.len() >= 2 {
        parts[parts.len() - 2] + seq!['.'] + parts[parts.len() - 1]
    } else {
        d
    }
}

/// The cached wildcard addresses of a root, if any: the first cache row
/// with that key.
pub open spec fn cache_lookup(cache: Seq<(Seq<char>, Seq<[u8; 4]>)>, root: Seq<char>) -> Option<
    Seq<[u8; 4]>,
>
    decreases cache.len(),
{
    if cache.len() == 0 {
        None
    } else if cache[0].0 == root {
        Some(cache[0].1)
    } else {
        cache_lookup(cache.skip(1), root)
    }
}

/// Whether a discovery is a wildcard phantom: an A record whose text is a
/// dotted quad that the cache lists for the discovery's root domain.
pub open spec fn suppressed(cache: Seq<(Seq<char>, Seq<[u8; 4]>)>, dd: DiscoveredDomain) -> bool {
    &&& dd.record_type@ == seq!['A']
    &&& spec_parse_ipv4(vstd::utf8::encode_utf8(dd.ip@)) matches Some(ip)
        && (cache_lookup(cache, spec_root_domain(dd.domain@)) matches Some(ips) && ips.contains(
        ip,
    ))
}

/// The discoveries with the wildcard phantoms dropped, order kept.
pub open spec fn suppress_seq(
    cache: Seq<(Seq<char>, Seq<[u8; 4]>)>,
    items: Seq<DiscoveredDomain>,
) -> Seq<DiscoveredDomain>
    decreases items.len(),
{
    if items.len() == 0 {
        Seq::empty()
    } else if suppressed(cache, items[0]) {
        suppress_seq(cache, items.skip(1))
    } else {
        seq![items[0]] + suppress_seq(cache, items.skip(1))
    }
}

/// Suppression is idempotent: filtering an already-filtered discovery set
/// gives the same set back.
pub proof fn lemma_suppress_idempotent(
    cache: Seq<(Seq<char>, Seq<[u8; 4]>)>,
    items: Seq<DiscoveredDomain>,
)
    ensures
        suppress_seq(cache, suppress_seq(cache, items)) == suppress_seq(cache, items),
    decreases items.len(),
{
    if items.len() > 0 {
        lemma_suppress_idempotent(cache, items.skip(1));
        if !suppressed(cache, items[0]) {
            let rest = suppress_seq(cache, items.skip(1));
            assert((seq![items[0]] + rest).skip(1) =~= rest);
            assert(suppress_seq(cache, seq![items[0]] + rest) =~= seq![items[0]]
                + suppress_seq(cache, rest));
        }
    }
}

/// The wildcard cache of one scan: for each root domain found to be a
/// wildcard, the phantom addresses its random labels resolved to.
#[derive(Debug)]
pub struct WildcardDetector {
    /// The cache rows, one root domain each.
    pub wildcard_cache: Vec<(String, Vec<[u8; 4]>)>,
}

/// The ghost image of the cache rows.
pub open spec fn cache_view(c: Seq<(String, Vec<[u8; 4]>)>) -> Seq<(Seq<char>, Seq<[u8; 4]>)> {
    c.map_values(|row: (String, Vec<[u8; 4]>)| (row.0@, row.1@))
}

impl WildcardDetector {
    /// An empty cache.
    pub fn new() -> (r: Self)
        ensures
            r.wildcard_cache@.len() == 0,
    {
        WildcardDetector { wildcard_cache: Vec::new() }
    }

    /// The last two labels of a name, joined; a shorter name stands for
    /// itself.
    pub fn extract_root_domain(&self, domain: &str) -> (r: String)
        ensures
            r@ == spec_root_domain(domain@),
    {
        let parts = crate::gen::split_dots_str(domain);
        let n = parts.len();
        proof {
            assert(parts.deep_view().len() >= 1);
        }
        if n >= 2 {
            let mut out = parts[n - 2].clone();
            proof {
                reveal_strlit(".");
                assert("."@ =~= seq!['.']);
                assert(parts.deep_view()[n - 2] == parts@[n - 2]@);
                assert(parts.deep_view()[n - 1] == parts@[n - 1]@);
            }
            out.append(".");
            out.append(parts[n - 1].as_str());
            out
        } else {
            domain.to_owned()
        }
    }

    /// Judges the outcome of the wildcard probe for one domain: the
    /// addresses that its random labels resolved to. Two or more answers
    /// that all name one address make the domain a wildcard: that address
    /// is cached for the domain's root, replacing any earlier row, and
    /// `true` comes back. Anything else changes nothing.
    #[verifier::loop_isolation(false)]
    pub fn detect_wildcard(&mut self, domain: &str, probe_ips: &Vec<[u8; 4]>) -> (r: bool)
        ensures
            r == (probe_ips@.len() >= 2 && (forall|i: int|
                0 <= i < probe_ips@.len() ==> #[trigger] probe_ips@[i] == probe_ips@[0])),
            r ==> cache_lookup(cache_view(final(self).wildcard_cache@), spec_root_domain(domain@))
                == Some(seq![probe_ips@[0]]),
            !r ==> final(self).wildcard_cache@ == old(self).wildcard_cache@,
    {
        if probe_ips.len() < 2 {
            return false;
        }
        let first = probe_ips[0];
        let mut i: usize = 1;
        while i < probe_ips.len()
            invariant
                1 <= i <= probe_ips@.len(),
                forall|j: int| 0 <= j < i ==> #[trigger] probe_ips@[j] == probe_ips@[0],
            decreases probe_ips@.len() - i,
        {
            if !ip_eq(&probe_ips[i], &first) {
                proof {
                    assert(probe_ips@[i as int] != probe_ips@[0]);
                }
                return false;
            }
            i = i + 1;
        }
        let root = self.extract_root_domain(domain);
        let mut ips: Vec<[u8; 4]> = Vec::new();
        ips.push(first);
        let ghost rv = root@;
        let mut k: usize = 0;
        let ghost cache0 = self.wildcard_cache@;
        while k < self.wildcard_cache.len()
            invariant
                0 <= k <= self.wildcard_cache@.len(),
                self.wildcard_cache@ == cache0,
                forall|j: int|
                    0 <= j < k ==> (#[trigger] cache_view(cache0)[j]).0 != rv,
            decreases self.wildcard_cache@.len() - k,
        {
            let hit = str_eq(self.wildcard_cache[k].0.as_str(), root.as_str());
            if hit {
                self.wildcard_cache.set(k, (root, ips));
                proof {
                    let cvn = cache_view(self.wildcard_cache@);
                    assert forall|j: int| 0 <= j < k implies (#[trigger] cvn[j]).0 != rv by {
                        assert(self.wildcard_cache@[j] == cache0[j]);
                        assert(cvn[j] == (cache0[j].0@, cache0[j].1@));
                        assert(cache_view(cache0)[j] == (cache0[j].0@, cache0[j].1@));
                    }
                    assert(cvn[k as int].0 == rv);
                    lemma_cache_lookup_at(cvn, rv, k as int);
                    assert(cvn[k as int].1 =~= seq![probe_ips@[0]]);
                }
                return true;
            }
            proof {
                assert(cache_view(cache0)[k as int].0 == cache0[k as int].0@);
            }
            k = k + 1;
        }
        self.wildcard_cache.push((root, ips));
        proof {
            let cv = cache_view(self.wildcard_cache@);
            assert(cv.len() == cache0.len() + 1);
            assert forall|j: int| 0 <= j < cv.len() - 1 implies (#[trigger] cv[j]).0 != rv by {
                assert(cv[j] == (cache0[j].0@, cache0[j].1@));
                assert(cache_view(cache0)[j] == (cache0[j].0@, cache0[j].1@));
            }
            lemma_cache_lookup_at(cv, rv, cv.len() as int - 1);
            assert(cv[cv.len() - 1].1 =~= seq![probe_ips@[0]]);
        }
        true
    }

    /// Whether a name-and-address pair is a wildcard phantom: the address
    /// is cached for the name's root domain.
    #[verifier::loop_isolation(false)]
    pub fn is_wildcard_result(&self, domain: &str, ip: &[u8; 4]) -> (r: bool)
        ensures
            r == (cache_lookup(cache_view(self.wildcard_cache@), spec_root_domain(domain@))
                matches Some(ips) && ips.contains(*ip)),
    {
        let root = self.extract_root_domain(domain);
        let ghost cv = cache_view(self.wildcard_cache@);
        let mut k: usize = 0;
        proof {
            assert(cv.skip(0) =~= cv);
        }
        while k < self.wildcard_cache.len()
            invariant
                0 <= k <= self.wildcard_cache@.len(),
                cv == cache_view(self.wildcard_cache@),
                cache_lookup(cv, spec_root_domain(domain@)) == cache_lookup(
                    cv.skip(k as int),
                    spec_root_domain(domain@),
                ),
            decreases self.wildcard_cache@.len() - k,
        {
            proof {
                assert(cv.skip(k as int)[0] == cv[k as int]);
                assert(cv.skip(k as int).skip(1) =~= cv.skip(k as int + 1));
                assert(cv[k as int] == (self.wildcard_cache@[k as int].0@,
                self.wildcard_cache@[k as int].1@));
            }
            let hit = str_eq(self.wildcard_cache[k].0.as_str(), root.as_str());
            if hit {
                let row = &self.wildcard_cache[k];
                let mut j: usize = 0;
                while j < row.1.len()
                    invariant
                        0 <= j <= row.1@.len(),
                        row == self.wildcard_cache@[k as int],
                        k < self.wildcard_cache@.len(),
                        forall|t: int| 0 <= t < j ==> (#[trigger] row.1@[t]) != *ip,
                    decreases row.1@.len() - j,
                {
                    if ip_eq(&row.1[j], ip) {
                        proof {
                            assert(cv[k as int].1.contains(*ip));
                        }
                        return true;
                    }
                    j = j + 1;
                }
                proof {
                    assert(!cv[k as int].1.contains(*ip));
                }
                return false;
            }
            k = k + 1;
        }
        proof {
            assert(cv.skip(k as int) =~= Seq::<(Seq<char>, Seq<[u8; 4]>)>::empty());
        }
        false
    }

    /// Makes `count` probe names: ten random characters drawn from the
    /// lower-case letters and digits, a dot, then the domain.
    #[verifier::loop_isolation(false)]
    pub fn generate_test_subdomains(&self, domain: &str, count: usize) -> (r: Vec<String>)
        ensures
            r@.len() == count,
            forall|i: int|
                0 <= i < r@.len() ==> (#[trigger] r@[i])@.len() == 11 + domain@.len() && r@[i]@.skip(
                    10,
                ) == seq!['.'] + domain@,
    {
        let charset = "abcdefghijklmnopqrstuvwxyz0123456789";
        proof {
            reveal_strlit("abcdefghijklmnopqrstuvwxyz0123456789");
            reveal_strlit(".");
            assert("."@ =~= seq!['.']);
        }
        let mut out: Vec<String> = Vec::new();
        let mut i: usize = 0;
        while i < count
            invariant
                0 <= i <= count,
                out@.len() == i,
                forall|t: int|
                    0 <= t < out@.len() ==> (#[trigger] out@[t])@.len() == 11 + domain@.len()
                        && out@[t]@.skip(10) == seq!['.'] + domain@,
            decreases count - i,
        {
            let mut name = String::new();
            let mut j: usize = 0;
            while j < 10
                invariant
                    0 <= j <= 10,
                    name@.len() == j,
                decreases 10 - j,
            {
                let d = rand_below(36);
                let c = charset.substring_char(d, d + 1);
                name.append(c);
                j = j + 1;
            }
            proof {
                reveal_strlit(".");
                assert("."@ =~= seq!['.']);
            }
            name.append(".");
            name.append(domain);
            proof {
                assert(name@.skip(10) =~= seq!['.'] + domain@);
            }
            out.push(name);
            i = i + 1;
        }
        out
    }
}

/// The row at `p` is the first with key `root` when no earlier row has it.
proof fn lemma_cache_lookup_at(c: Seq<(Seq<char>, Seq<[u8; 4]>)>, root: Seq<char>, p: int)
    requires
        0 <= p < c.len(),
        c[p].0 == root,
        forall|j: int| 0 <= j < p ==> (#[trigger] c[j]).0 != root,
    ensures
        cache_lookup(c, root) == Some(c[p].1),
    decreases p,
{
    if p > 0 {
        assert(c.skip(1)[p - 1] == c[p]);
        assert forall|j: int| 0 <= j < p - 1 implies (#[trigger] c.skip(1)[j]).0 != root by {
            assert(c.skip(1)[j] == c[j + 1]);
        }
        lemma_cache_lookup_at(c.skip(1), root, p - 1);
    }
}

/// Compares two addresses.
fn ip_eq(a: &[u8; 4], b: &[u8; 4]) -> (r: bool)
    ensures
        r == (*a == *b),
{
    let r = a[0] == b[0] && a[1] == b[1] && a[2] == b[2] && a[3] == b[3];
    proof {
        if r {
            assert(a@ =~= b@);
            assert(*a =~= *b);
        }
    }
    r
}

/// Compares two strings character for character.
#[verifier::loop_isolation(false)]
pub(crate) fn str_eq(a: &str, b: &str) -> (r: bool)
    ensures
        r == (a@ == b@),
{
    let al = a.unicode_len();
    let bl = b.unicode_len();
    if al != bl {
        return false;
    }
    let mut i: usize = 0;
    while i < al
        invariant
            0 <= i <= al,
            al == a@.len() == b@.len(),
            forall|j: int| 0 <= j < i ==> a@[j] == b@[j],
        decreases al - i,
    {
        if a.get_char(i) != b.get_char(i) {
            return false;
        }
        i = i + 1;
    }
    proof {
        assert(a@ =~= b@);
    }
    true
}

/// Drops the wildcard phantoms from a discovery list: every A record whose
/// address the cache lists for its root domain.
#[verifier::loop_isolation(false)]
pub fn filter_wildcards(detector: &WildcardDetector, items: &Vec<DiscoveredDomain>) -> (r: Vec<
    DiscoveredDomain,
>)
    ensures
        r@ == suppress_seq(cache_view(detector.wildcard_cache@), items@),
{
    let ghost cv = cache_view(detector.wildcard_cache@);
    let mut out: Vec<DiscoveredDomain> = Vec::new();
    let mut i: usize = 0;
    proof {
        assert(items@.skip(0) =~= items@);
    }
    while i < items.len()
        invariant
            0 <= i <= items@.len(),
            suppress_seq(cv, items@) =~= out@ + suppress_seq(cv, items@.skip(i as int)),
        decreases items@.len() - i,
    {
        proof {
            assert(items@.skip(i as int)[0] == items@[i as int]);
            assert(items@.skip(i as int).skip(1) =~= items@.skip(i as int + 1));
        }
        let dd = &items[i];
        let is_a = str_eq(dd.record_type.as_str(), "A");
        proof {
            reveal_strlit("A");
            assert("A"@ =~= seq!['A']);
        }
        let drop = if is_a {
            match crate::bytes::parse_ipv4(dd.ip.as_str()) {
                Some(ip) => detector.is_wildcard_result(dd.domain.as_str(), &ip),
                None => false,
            }
        } else {
            false
        };
        proof {
            assert(drop == suppressed(cv, items@[i as int]));
        }
        if !drop {
            out.push(dd.clone());
        }
        i = i + 1;
    }
    proof {
        assert(items@.skip(i as int) =~= Seq::<DiscoveredDomain>::empty());
        assert(out@ =~= suppress_seq(cv, items@));
    }
    out
}

} // verus!
