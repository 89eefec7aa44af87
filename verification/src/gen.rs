//! Candidate-name generation: strips a known suffix from seen names and
//! recombines the remaining labels in every order-preserving selection.

use itertools::Itertools;
use vstd::prelude::*;
use vstd::string::{StrSliceExecFns, StringExecFns};

verus! {

/// Whether the needle occurs in the haystack starting at `i`.
pub open spec fn match_at(h: Seq<char>, n: Seq<char>, i: int) -> bool {
    0 <= i && i + n.len() <= h.len() && h.subrange(i, i + n.len()) == n
}

/// The first position where the needle occurs in the haystack, scanning
/// left to right.
pub open spec fn first_occ(h: Seq<char>, n: Seq<char>) -> Option<int>
    decreases h.len(),
{
    if n.len() == 0 {
        Some(0)
    } else if h.len() < n.len() {
        None
    } else if h.take(n.len() as int) == n {
        Some(0)
    } else {
        match first_occ(h.skip(1), n) {
            Some(j) => Some(j + 1),
            None => None,
        }
    }
}

/// The first occurrence is an occurrence, and nothing matches before it.
pub proof fn lemma_first_occ(h: Seq<char>, n: Seq<char>)
    ensures
        first_occ(h, n) matches Some(i) ==> match_at(h, n, i) && (forall|j: int|
            0 <= j < i ==> !match_at(h, n, j)),
        first_occ(h, n) is None ==> forall|j: int| !match_at(h, n, j),
    decreases h.len(),
{
    if n.len() == 0 {
        assert(h.subrange(0, 0) =~= n);
    } else if h.len() < n.len() {
        assert forall|j: int| !match_at(h, n, j) by {
            assert(j + n.len() > h.len() || j < 0);
        }
    } else if h.take(n.len() as int) == n {
        assert(h.subrange(0, n.len() as int) == h.take(n.len() as int));
    } else {
        lemma_first_occ(h.skip(1), n);
        assert forall|j: int| 1 <= j implies (match_at(h, n, j) == match_at(
            h.skip(1),
            n,
            j - 1,
        )) by {
            if 0 <= j - 1 && j - 1 + n.len() <= h.skip(1).len() {
                assert(h.skip(1).subrange(j - 1, j - 1 + n.len()) =~= h.subrange(
                    j,
                    j + n.len(),
                ));
            }
        }
        assert(!match_at(h, n, 0)) by {
            if match_at(h, n, 0) {
                assert(h.subrange(0, n.len() as int) =~= h.take(n.len() as int));
            }
        }
    }
}

/// The haystack with every occurrence of the needle removed, scanning left
/// to right past each removal; a string is left whole by an empty needle.
pub open spec fn remove_all(h: Seq<char>, n: Seq<char>) -> Seq<char>
    decreases h.len(),
    via remove_all_decreases
{
    if n.len() == 0 {
        h
    } else {
        match first_occ(h, n) {
            None => h,
            Some(i) => h.take(i) + remove_all(h.skip(i + n.len()), n),
        }
    }
}

#[via_fn]
proof fn remove_all_decreases(h: Seq<char>, n: Seq<char>) {
    lemma_first_occ(h, n);
}

/// Position of the first dot in a name, or its length when there is none.
pub open spec fn first_dot_char(s: Seq<char>) -> int
    decreases s.len(),
{
    if s.len() == 0 {
        0
    } else if s[0] == '.' {
        0
    } else {
        1 + first_dot_char(s.skip(1))
    }
}

/// The first dot lies within the name, and everything before it is not a
/// dot.
pub proof fn lemma_first_dot_char(s: Seq<char>)
    ensures
        0 <= first_dot_char(s) <= s.len(),
        first_dot_char(s) < s.len() ==> s[first_dot_char(s)] == '.',
        forall|j: int| 0 <= j < first_dot_char(s) ==> (#[trigger] s[j]) != '.',
    decreases s.len(),
{
    if s.len() > 0 && s[0] != '.' {
        lemma_first_dot_char(s.skip(1));
        assert forall|j: int| 0 <= j < first_dot_char(s) implies (#[trigger] s[j]) != '.' by {
            if j > 0 {
                assert(s.skip(1)[j - 1] == s[j]);
            }
        }
        if first_dot_char(s) < s.len() {
            assert(s.skip(1)[first_dot_char(s) - 1] == s[first_dot_char(s)]);
        }
    }
}

/// The dot-separated parts of a name, in order; dots themselves are
/// dropped, and an empty stretch between two dots is an empty part.
pub open spec fn split_dots(s: Seq<char>) -> Seq<Seq<char>>
    decreases s.len(),
    via split_dots_decreases
{
    let k = first_dot_char(s);
    if k >= s.len() {
        seq![s]
    } else {
        seq![s.take(k)] + split_dots(s.skip(k + 1))
    }
}

#[via_fn]
proof fn split_dots_decreases(s: Seq<char>) {
    lemma_first_dot_char(s);
}

/// The parts joined back with single dots.
pub open spec fn join_dots(parts: Seq<Seq<char>>) -> Seq<char>
    decreases parts.len(),
{
    if parts.len() == 0 {
        Seq::empty()
    } else if parts.len() == 1 {
        parts[0]
    } else {
        parts[0] + seq!['.'] + join_dots(parts.skip(1))
    }
}

/// What remains of a seen name once the suffix list is applied: each
/// listed suffix that occurs in the name replaces the name-so-far with the
/// name stripped of every occurrence, so the last matching suffix wins,
/// and a name matching no suffix is left empty.
pub open spec fn strip_suffixes(d: Seq<char>, sufs: Seq<Seq<char>>) -> Seq<char>
    decreases sufs.len(),
{
    if sufs.len() == 0 {
        Seq::empty()
    } else {
        let rest = strip_suffixes(d, sufs.drop_last());
        let suf = sufs.last();
        if suf.len() == 0 || first_occ(d, suf) is Some {
            remove_all(d, suf)
        } else {
            rest
        }
    }
}

/// All order-preserving selections of `k` of the given labels, in the
/// order the underlying combination enumeration yields them. What exactly
/// that sequence is stays unspecified here; it is pinned only by the
/// enumeration itself.
pub uninterp spec fn label_combinations(parts: Seq<Seq<char>>, k: int) -> Seq<Seq<Seq<char>>>;

/// Relies on itertools' `combinations`: every yielded item is a `k`-length
/// selection of the input elements, and the enumeration is deterministic,
/// so its outcome is a function of the inputs alone.
#[verifier::external_body]
fn combinations_of(parts: &Vec<String>, k: usize) -> (r: Vec<Vec<String>>)
    ensures
        r.deep_view() == label_combinations(parts.deep_view(), k as int),
        forall|i: int| 0 <= i < r@.len() ==> (#[trigger] r@[i])@.len() == k,
{
    parts.iter().cloned().combinations(k).collect()
}

/// Finds the first occurrence of the needle in the haystack.
#[verifier::loop_isolation(false)]
fn find_str(h: &str, n: &str) -> (r: Option<usize>)
    ensures
        ({
            let f = first_occ(h@, n@);
            &&& (r is Some) == (f is Some)
            &&& (r matches Some(i) ==> f matches Some(j) && i == j)
        }),
{
    let hl = h.unicode_len();
    let nl = n.unicode_len();
    proof {
        lemma_first_occ(h@, n@);
    }
    if hl < nl {
        return None;
    }
    let mut i: usize = 0;
    while i <= hl - nl
        invariant
            0 <= i <= hl - nl + 1,
            nl <= hl,
            hl == h@.len(),
            nl == n@.len(),
            forall|j: int| 0 <= j < i ==> !match_at(h@, n@, j),
        decreases hl - nl + 1 - i,
    {
        let mut m: usize = 0;
        let mut ok = true;
        while m < nl
            invariant
                0 <= m <= nl,
                i + nl <= hl,
                ok ==> h@.subrange(i as int, i as int + m as int) =~= n@.take(m as int),
                !ok ==> !match_at(h@, n@, i as int),
            decreases nl - m,
        {
            if ok {
                if h.get_char(i + m) != n.get_char(m) {
                    proof {
                        if match_at(h@, n@, i as int) {
                            assert(h@.subrange(i as int, i as int + nl as int)[m as int]
                                == n@[m as int]);
                        }
                    }
                    ok = false;
                } else {
                    proof {
                        assert(h@.subrange(i as int, i as int + m as int + 1) =~= h@.subrange(
                            i as int,
                            i as int + m as int,
                        ).push(h@[i as int + m as int]));
                        assert(n@.take(m as int + 1) =~= n@.take(m as int).push(n@[m as int]));
                    }
                }
            }
            m = m + 1;
        }
        if ok {
            proof {
                assert(h@.subrange(i as int, i as int + nl as int) =~= n@);
                assert(match_at(h@, n@, i as int));
                lemma_first_occ_at(h@, n@, i as int);
            }
            return Some(i);
        }
        i = i + 1;
    }
    proof {
        let f = first_occ(h@, n@);
        if f is Some {
            assert(!match_at(h@, n@, f.unwrap()));
            assert(false);
        }
    }
    None
}

/// A matching position before which nothing matches is the first
/// occurrence.
proof fn lemma_first_occ_at(h: Seq<char>, n: Seq<char>, p: int)
    requires
        match_at(h, n, p),
        forall|j: int| 0 <= j < p ==> !match_at(h, n, j),
    ensures
        first_occ(h, n) == Some(p),
{
    lemma_first_occ(h, n);
    let f = first_occ(h, n);
    if f is Some {
        let q = f.unwrap();
        if q < p {
            assert(!match_at(h, n, q));
        }
        if p < q {
            assert(!match_at(h, n, p));
        }
    }
}

/// Removes every occurrence of the needle from the haystack, scanning left
/// to right.
#[verifier::loop_isolation(false)]
fn remove_all_str(h: &str, n: &str) -> (r: String)
    ensures
        r@ == remove_all(h@, n@),
    decreases h@.len(),
{
    if n.unicode_len() == 0 {
        return h.to_owned();
    }
    match find_str(h, n) {
        None => h.to_owned(),
        Some(i) => {
            proof {
                lemma_first_occ(h@, n@);
                assert(match_at(h@, n@, i as int));
            }
            let nl = n.unicode_len();
            let hl = h.unicode_len();
            proof {
                assert(i + nl <= h@.len());
            }
            let mut out = h.substring_char(0, i).to_owned();
            let rest = h.substring_char(i + nl, hl);
            let tail = remove_all_str(rest, n);
            out.append(tail.as_str());
            proof {
                assert(rest@ =~= h@.skip(i as int + n@.len() as int));
                assert(out@ =~= remove_all(h@, n@));
            }
            out
        },
    }
}

/// Splits a name at its dots.
#[verifier::loop_isolation(false)]
pub(crate) fn split_dots_str(s: &str) -> (r: Vec<String>)
    ensures
        r.deep_view() == split_dots(s@),
    decreases s@.len(),
{
    proof {
        lemma_first_dot_char(s@);
    }
    let l = s.unicode_len();
    let mut k: usize = 0;
    while k < l
        invariant
            0 <= k <= l,
            l == s@.len(),
            k <= first_dot_char(s@),
            forall|j: int| 0 <= j < k ==> (#[trigger] s@[j]) != '.',
        decreases l - k,
    {
        if s.get_char(k) == '.' {
            proof {
                lemma_first_dot_char_at(s@, k as int);
            }
            break ;
        }
        proof {
            if k == first_dot_char(s@) {
                assert(false);
            }
        }
        k = k + 1;
    }
    proof {
        if k == l {
            lemma_first_dot_char_none(s@);
        }
        assert(k == first_dot_char(s@));
    }
    if k == l {
        let mut r: Vec<String> = Vec::new();
        r.push(s.to_owned());
        proof {
            assert(r.deep_view() =~= split_dots(s@));
        }
        r
    } else {
        let head = s.substring_char(0, k).to_owned();
        let rest = s.substring_char(k + 1, l);
        proof {
            assert(rest@ =~= s@.skip(k as int + 1));
        }
        let mut r: Vec<String> = Vec::new();
        r.push(head);
        let mut tail = split_dots_str(rest);
        let ghost tail0 = tail.deep_view();
        r.append(&mut tail);
        proof {
            assert(r.deep_view() =~= seq![s@.take(k as int)] + tail0);
            assert(r.deep_view() =~= split_dots(s@));
        }
        r
    }
}

/// A dot before which no dot occurs is the first dot.
proof fn lemma_first_dot_char_at(s: Seq<char>, p: int)
    requires
        0 <= p < s.len(),
        s[p] == '.',
        forall|j: int| 0 <= j < p ==> (#[trigger] s[j]) != '.',
    ensures
        first_dot_char(s) == p,
    decreases p,
{
    if p > 0 {
        assert(s.skip(1)[p - 1] == s[p]);
        assert forall|j: int| 0 <= j < p - 1 implies (#[trigger] s.skip(1)[j]) != '.' by {
            assert(s.skip(1)[j] == s[j + 1]);
        }
        lemma_first_dot_char_at(s.skip(1), p - 1);
    }
}

/// A name without any dot has its first dot at the end.
proof fn lemma_first_dot_char_none(s: Seq<char>)
    requires
        forall|j: int| 0 <= j < s.len() ==> (#[trigger] s[j]) != '.',
    ensures
        first_dot_char(s) == s.len(),
    decreases s.len(),
{
    if s.len() > 0 {
        assert forall|j: int| 0 <= j < s.skip(1).len() implies (#[trigger] s.skip(1)[j])
            != '.' by {
            assert(s.skip(1)[j] == s[j + 1]);
        }
        lemma_first_dot_char_none(s.skip(1));
    }
}

/// Joins parts with single dots.
#[verifier::loop_isolation(false)]
fn join_dots_str(parts: &Vec<String>) -> (r: String)
    ensures
        r@ == join_dots(parts.deep_view()),
{
    let mut out = String::new();
    if parts.len() == 0 {
        return out;
    }
    let ghost pv = parts.deep_view();
    let mut i: usize = 0;
    while i < parts.len()
        invariant
            0 <= i <= pv.len(),
            pv.len() == parts@.len(),
            pv.len() > 0,
            i > 0 ==> join_dots(pv) =~= out@ + seq!['.'] + join_dots(pv.skip(i as int)),
            i == 0 ==> out@.len() == 0,
            i < pv.len(),
        decreases pv.len() - i,
    {
        proof {
            assert(pv.skip(i as int)[0] == pv[i as int]);
            assert(pv.skip(i as int).skip(1) =~= pv.skip(i as int + 1));
            assert(pv[i as int] == parts@[i as int]@);
        }
        if i > 0 {
            proof {
                reveal_strlit(".");
                assert("."@ =~= seq!['.']);
            }
            out.append(".");
        }
        out.append(parts[i].as_str());
        i = i + 1;
        if i == parts.len() {
            proof {
                assert(join_dots(pv.skip(i as int - 1)) =~= pv[i as int - 1]);
            }
            break ;
        }
        proof {
            assert(join_dots(pv.skip(i as int - 1)) =~= pv[i as int - 1] + seq!['.'] + join_dots(
                pv.skip(i as int),
            ));
        }
    }
    proof {
        assert(out@ =~= join_dots(pv));
    }
    out
}

/// All candidate names drawn from the seen names: each name is stripped of
/// the listed suffixes, split at its dots, and every order-preserving
/// selection of one or more of its labels is joined back with dots, in
/// enumeration order, names in input order.
#[verifier::loop_isolation(false)]
#[verifier::rlimit(60)]
pub fn generate_subdomains(domains: &[&str], suffix: Vec<&str>) -> (r: Vec<String>)
    ensures
        r.deep_view() == spec_subdomains(
            domains@.map_values(|d: &str| d@),
            suffix@.map_values(|s: &str| s@),
        ),
{
    let ghost dv = domains@.map_values(|d: &str| d@);
    let ghost sv = suffix@.map_values(|s: &str| s@);
    let mut subdomains: Vec<String> = Vec::new();
    let mut di: usize = 0;
    proof {
        assert(spec_subdomains(dv.take(0), sv) =~= Seq::<Seq<char>>::empty());
        assert(subdomains.deep_view() =~= Seq::<Seq<char>>::empty());
    }
    while di < domains.len()
        invariant
            0 <= di <= dv.len(),
            dv.len() == domains@.len(),
            sv.len() == suffix@.len(),
            subdomains.deep_view() == spec_subdomains(dv.take(di as int), sv),
        decreases dv.len() - di,
    {
        let domain: &str = domains[di];
        let ghost base = subdomains.deep_view();
        let stripped = strip_suffixes_str(domain, &suffix);
        let parts = split_dots_str(stripped.as_str());
        let ghost pv = split_dots(strip_suffixes(dv[di as int], sv));
        proof {
            assert(parts.deep_view() == pv);
        }
        let mut c: usize = 0;
        proof {
            assert(subdomains.deep_view() =~= base + combos_from(pv, 1, 1).map_values(
                |x: Seq<Seq<char>>| join_dots(x),
            ));
        }
        while c < parts.len()
            invariant
                0 <= c <= parts@.len(),
                parts.deep_view() == pv,
                subdomains.deep_view() =~= base + combos_from(pv, 1, c as int + 1).map_values(
                    |x: Seq<Seq<char>>| join_dots(x),
                ),
            decreases parts@.len() - c,
        {
            let size = c + 1;
            let combos = combinations_of(&parts, size);
            let ghost cs = label_combinations(pv, size as int);
            let mut ci: usize = 0;
            proof {
                assert(cs.take(0) =~= Seq::<Seq<Seq<char>>>::empty());
                assert(combos_from(pv, 1, size as int) + cs.take(0) =~= combos_from(
                    pv,
                    1,
                    size as int,
                ));
            }
            while ci < combos.len()
                invariant
                    0 <= ci <= combos@.len(),
                    combos.deep_view() == cs,
                    cs.len() == combos@.len(),
                    size == c + 1,
                    parts.deep_view() == pv,
                    subdomains.deep_view() =~= base + (combos_from(pv, 1, size as int)
                        + cs.take(ci as int)).map_values(|x: Seq<Seq<char>>| join_dots(x)),
                decreases combos@.len() - ci,
            {
                let joined = join_dots_str(&combos[ci]);
                let ghost sd0 = subdomains.deep_view();
                subdomains.push(joined);
                proof {
                    assert(subdomains.deep_view() =~= sd0.push(joined@));
                    assert(combos@[ci as int].deep_view() == cs[ci as int]);
                    assert(cs.take(ci as int + 1) =~= cs.take(ci as int).push(cs[ci as int]));
                    assert((combos_from(pv, 1, size as int) + cs.take(ci as int + 1)) =~= (
                    combos_from(pv, 1, size as int) + cs.take(ci as int)).push(cs[ci as int]));
                    assert((combos_from(pv, 1, size as int) + cs.take(ci as int + 1)).map_values(
                        |x: Seq<Seq<char>>| join_dots(x),
                    ) =~= (combos_from(pv, 1, size as int) + cs.take(ci as int)).map_values(
                        |x: Seq<Seq<char>>| join_dots(x),
                    ).push(join_dots(cs[ci as int])));
                }
                ci = ci + 1;
            }
            proof {
                assert(cs.take(cs.len() as int) =~= cs);
                lemma_combos_snoc(pv, 1, size as int);
            }
            c = c + 1;
        }
        proof {
            assert(dv.take(di as int + 1) =~= dv.take(di as int).push(dv[di as int]));
            lemma_spec_subdomains_step(dv.take(di as int + 1), sv);
            assert(dv.take(di as int + 1).drop_last() =~= dv.take(di as int));
        }
        di = di + 1;
    }
    proof {
        assert(dv.take(di as int) =~= dv);
    }
    subdomains
}

/// The combinations of sizes `lo ..< hi` of the given labels, in size
/// order, each size in enumeration order.
pub open spec fn combos_from(parts: Seq<Seq<char>>, lo: int, hi: int) -> Seq<Seq<Seq<char>>>
    decreases hi - lo,
{
    if lo >= hi {
        Seq::empty()
    } else {
        label_combinations(parts, lo) + combos_from(parts, lo + 1, hi)
    }
}

/// Extending the size range by one at the top appends that size's
/// combinations at the end.
proof fn lemma_combos_snoc(parts: Seq<Seq<char>>, lo: int, hi: int)
    requires
        lo <= hi,
    ensures
        combos_from(parts, lo, hi + 1) =~= combos_from(parts, lo, hi) + label_combinations(
            parts,
            hi,
        ),
    decreases hi - lo,
{
    if lo == hi {
        assert(combos_from(parts, lo, hi) =~= Seq::<Seq<Seq<char>>>::empty());
        assert(combos_from(parts, hi + 1, hi + 1) =~= Seq::<Seq<Seq<char>>>::empty());
        assert(combos_from(parts, lo, hi + 1) =~= label_combinations(parts, hi));
    } else {
        lemma_combos_snoc(parts, lo + 1, hi);
    }
}

/// The candidate names of all the given seen names, in order.
pub open spec fn spec_subdomains(ds: Seq<Seq<char>>, sufs: Seq<Seq<char>>) -> Seq<Seq<char>>
    decreases ds.len(),
{
    if ds.len() == 0 {
        Seq::empty()
    } else {
        let parts = split_dots(strip_suffixes(ds.last(), sufs));
        spec_subdomains(ds.drop_last(), sufs) + combos_from(
            parts,
            1,
            parts.len() as int + 1,
        ).map_values(|c: Seq<Seq<char>>| join_dots(c))
    }
}

/// One unfolding of `spec_subdomains` at the end of the name list.
proof fn lemma_spec_subdomains_step(ds: Seq<Seq<char>>, sufs: Seq<Seq<char>>)
    requires
        ds.len() > 0,
    ensures
        spec_subdomains(ds, sufs) == spec_subdomains(ds.drop_last(), sufs) + ({
            let parts = split_dots(strip_suffixes(ds.last(), sufs));
            combos_from(parts, 1, parts.len() as int + 1).map_values(
                |c: Seq<Seq<char>>| join_dots(c),
            )
        }),
{
}

/// Applies the suffix list to one name: the last listed suffix that occurs
/// in the name decides, and the name with its occurrences removed is the
/// result; a name matching none comes out empty.
#[verifier::loop_isolation(false)]
fn strip_suffixes_str(domain: &str, suffix: &Vec<&str>) -> (r: String)
    ensures
        r@ == strip_suffixes(domain@, suffix@.map_values(|s: &str| s@)),
{
    let ghost sv = suffix@.map_values(|s: &str| s@);
    let mut out = String::new();
    let mut i: usize = 0;
    while i < suffix.len()
        invariant
            0 <= i <= sv.len(),
            sv.len() == suffix@.len(),
            out@ == strip_suffixes(domain@, sv.take(i as int)),
        decreases sv.len() - i,
    {
        let suf: &str = suffix[i];
        proof {
            assert(sv.take(i as int + 1) =~= sv.take(i as int).push(suf@));
            assert(sv.take(i as int + 1).drop_last() =~= sv.take(i as int));
        }
        let hit = if suf.unicode_len() == 0 {
            true
        } else {
            match find_str(domain, suf) {
                Some(_) => true,
                None => false,
            }
        };
        if hit {
            out = remove_all_str(domain, suf);
        }
        i = i + 1;
    }
    proof {
        assert(sv.take(i as int) =~= sv);
    }
    out
}

} // verus!
