//! Byte-level helpers shared by the packet codec and the text output:
//! big-endian 16-bit fields, decimal rendering, and dotted-quad IPv4
//! addresses.

use vstd::prelude::*;
use vstd::string::StringSliceAdditionalSpecFns;

verus! {

/// The 16-bit value formed by two bytes in network (big-endian) order.
pub open spec fn be16(hi: u8, lo: u8) -> int {
    hi * 256 + lo
}

/// Whether every byte is ASCII.
pub open spec fn all_ascii(v: Seq<u8>) -> bool {
    forall|i: int| 0 <= i < v.len() ==> (#[trigger] v[i]) < 128
}

/// The characters that a sequence of ASCII bytes spells.
pub open spec fn ascii_chars_of(v: Seq<u8>) -> Seq<char> {
    v.map_values(|b: u8| b as char)
}

/// Joins two network-order bytes into the 16-bit value they encode.
pub fn join_be16(hi: u8, lo: u8) -> (r: u16)
    ensures
        r == be16(hi, lo),
{
    (hi as u16) * 256 + (lo as u16)
}

/// The decimal digits of a non-negative number, as ASCII bytes, most
/// significant first, with no leading zeros (`0` itself is one digit).
pub open spec fn dec_digits(n: int) -> Seq<u8>
    decreases n,
{
    if n < 0 {
        Seq::empty()
    } else if n < 10 {
        seq![(48 + n) as u8]
    } else {
        dec_digits(n / 10).push((48 + n % 10) as u8)
    }
}

/// The decimal digits of a non-negative number, as characters.
pub open spec fn dec_chars(n: int) -> Seq<char> {
    ascii_chars_of(dec_digits(n))
}

/// Decimal digits are ASCII.
pub proof fn lemma_dec_digits_ascii(n: int)
    ensures
        all_ascii(dec_digits(n)),
        dec_digits(n).len() >= 1 || n < 0,
    decreases n,
{
    if n >= 10 {
        lemma_dec_digits_ascii(n / 10);
    }
}

/// Renders a number in decimal, most significant digit first.
pub fn u64_to_dec_bytes(n: u64) -> (r: Vec<u8>)
    ensures
        r@ == dec_digits(n as int),
{
    let mut out: Vec<u8> = Vec::new();
    let mut m = n;
    if m == 0 {
        out.push(48);
        proof {
            assert(out@ =~= dec_digits(0));
        }
        return out;
    }
    while m > 0
        invariant
            m > 0 ==> dec_digits(n as int) =~= dec_digits(m as int) + out@,
            m == 0 ==> dec_digits(n as int) =~= out@,
        decreases m,
    {
        let d: u8 = 48 + #[verifier::truncate] ((m % 10) as u8);
        let ghost m0 = m as int;
        let ghost out0 = out@;
        out.insert(0, d);
        m = m / 10;
        proof {
            if m > 0 {
                assert(dec_digits(m0) == dec_digits(m0 / 10).push(d));
                assert(dec_digits(m0 / 10) + out@ =~= dec_digits(m0 / 10).push(d) + out0);
            } else {
                assert(dec_digits(m0) =~= seq![d]);
                assert(dec_digits(m0) + out0 =~= out@);
            }
        }
    }
    out
}

/// Relies on `String::from_utf8_lossy`: a well-formed UTF-8 input decodes to
/// its own characters, so ASCII bytes come back one character per byte.
#[verifier::external_body]
pub(crate) fn lossy_string(v: &[u8]) -> (r: String)
    ensures
        all_ascii(v@) ==> r@ == ascii_chars_of(v@),
{
    String::from_utf8_lossy(v).into_owned()
}

/// Renders a number in decimal as a string.
pub fn u64_to_string(n: u64) -> (r: String)
    ensures
        r@ == dec_chars(n as int),
{
    let bytes = u64_to_dec_bytes(n);
    proof {
        lemma_dec_digits_ascii(n as int);
    }
    lossy_string(bytes.as_slice())
}

/// The dotted-quad spelling of an IPv4 address, as ASCII bytes.
pub open spec fn ipv4_bytes(ip: [u8; 4]) -> Seq<u8> {
    dec_digits(ip[0] as int) + seq![46u8] + dec_digits(ip[1] as int) + seq![46u8] + dec_digits(
        ip[2] as int,
    ) + seq![46u8] + dec_digits(ip[3] as int)
}

/// The dotted-quad spelling of an IPv4 address, as characters.
pub open spec fn ipv4_chars(ip: [u8; 4]) -> Seq<char> {
    ascii_chars_of(ipv4_bytes(ip))
}

/// Renders an IPv4 address as its dotted quad.
pub fn format_ipv4(ip: &[u8; 4]) -> (r: String)
    ensures
        r@ == ipv4_chars(*ip),
{
    let mut out = u64_to_dec_bytes(ip[0] as u64);
    let mut rest = u64_to_dec_bytes(ip[1] as u64);
    out.push(46);
    out.append(&mut rest);
    let mut rest = u64_to_dec_bytes(ip[2] as u64);
    out.push(46);
    out.append(&mut rest);
    let mut rest = u64_to_dec_bytes(ip[3] as u64);
    out.push(46);
    out.append(&mut rest);
    proof {
        assert(out@ =~= ipv4_bytes(*ip));
        lemma_dec_digits_ascii(ip[0] as int);
        lemma_dec_digits_ascii(ip[1] as int);
        lemma_dec_digits_ascii(ip[2] as int);
        lemma_dec_digits_ascii(ip[3] as int);
        assert(all_ascii(out@));
    }
    lossy_string(out.as_slice())
}

/// One step of the dotted-quad parser: consumes the input byte by byte,
/// carrying the octet being read (`acc`, its digit count in `digits`) and
/// the octets already completed. An octet has one to three digits and a
/// value of at most 255; exactly four octets separated by single dots make
/// an address.
pub open spec fn parse_ipv4_rec(s: Seq<u8>, acc: int, digits: int, done: Seq<int>) -> Option<
    [u8; 4],
>
    decreases s.len(),
{
    if s.len() == 0 {
        if digits >= 1 && done.len() == 3 {
            Some(
                [
                    done[0] as u8,
                    done[1] as u8,
                    done[2] as u8,
                    acc as u8,
                ],
            )
        } else {
            None
        }
    } else if 48 <= s[0] <= 57 {
        if digits >= 3 || acc * 10 + (s[0] - 48) > 255 {
            None
        } else {
            parse_ipv4_rec(s.skip(1), acc * 10 + (s[0] - 48), digits + 1, done)
        }
    } else if s[0] == 46 {
        if digits >= 1 && done.len() < 3 {
            parse_ipv4_rec(s.skip(1), 0, 0, done.push(acc))
        } else {
            None
        }
    } else {
        None
    }
}

/// What a byte string means as a dotted-quad IPv4 address, if anything.
pub open spec fn spec_parse_ipv4(s: Seq<u8>) -> Option<[u8; 4]> {
    parse_ipv4_rec(s, 0, 0, Seq::empty())
}

/// Parses a dotted-quad IPv4 address from bytes.
#[verifier::loop_isolation(false)]
pub fn parse_ipv4_bytes(s: &[u8]) -> (r: Option<[u8; 4]>)
    ensures
        r == spec_parse_ipv4(s@),
{
    let mut acc: u16 = 0;
    let mut digits: u8 = 0;
    let mut done: Vec<u8> = Vec::new();
    let mut i: usize = 0;
    proof {
        assert(s@.skip(0) =~= s@);
        assert(done@.map_values(|b: u8| b as int) =~= Seq::<int>::empty());
    }
    while i < s.len()
        invariant
            0 <= i <= s@.len(),
            acc <= 255,
            0 <= digits <= 3,
            done@.len() <= 3,
            spec_parse_ipv4(s@) == parse_ipv4_rec(
                s@.skip(i as int),
                acc as int,
                digits as int,
                done@.map_values(|b: u8| b as int),
            ),
        decreases s@.len() - i,
    {
        let ghost tail = s@.skip(i as int);
        proof {
            assert(tail[0] == s@[i as int]);
            assert(tail.skip(1) =~= s@.skip(i as int + 1));
        }
        let b = s[i];
        if 48 <= b && b <= 57 {
            if digits >= 3 || acc * 10 + ((b - 48) as u16) > 255 {
                return None;
            }
            acc = acc * 10 + ((b - 48) as u16);
            digits = digits + 1;
        } else if b == 46 {
            if digits >= 1 && done.len() < 3 {
                let ghost done0 = done@;
                done.push(acc as u8);
                proof {
                    assert(done@.map_values(|x: u8| x as int) =~= done0.map_values(
                        |x: u8| x as int,
                    ).push(acc as int));
                }
                acc = 0;
                digits = 0;
            } else {
                return None;
            }
        } else {
            return None;
        }
        i = i + 1;
    }
    proof {
        assert(s@.skip(i as int) =~= Seq::<u8>::empty());
    }
    if digits >= 1 && done.len() == 3 {
        Some([done[0], done[1], done[2], acc as u8])
    } else {
        None
    }
}

/// Parses a dotted-quad IPv4 address from a string.
pub fn parse_ipv4(s: &str) -> (r: Option<[u8; 4]>)
    ensures
        r == spec_parse_ipv4(s.spec_bytes()),
{
    parse_ipv4_bytes(s.as_bytes())
}

/// An octet's decimal spelling has one digit below ten, two below one
/// hundred, and never more than three.
proof fn lemma_dec_digits_count(v: int)
    requires
        0 <= v <= 255,
    ensures
        1 <= dec_digits(v).len() <= 3,
        v < 10 ==> dec_digits(v).len() == 1,
        10 <= v < 100 ==> dec_digits(v).len() == 2,
        100 <= v ==> dec_digits(v).len() == 3,
        pow10_of(dec_digits(v).len() as int) > v,
    decreases v,
{
    assert(pow10_of(0) == 1);
    assert(pow10_of(1) == 10 * pow10_of(0));
    assert(pow10_of(2) == 10 * pow10_of(1));
    assert(pow10_of(3) == 10 * pow10_of(2));
    if v >= 10 {
        lemma_dec_digits_count(v / 10);
    }
}

/// Ten to the `d`, for the digit-count argument.
pub open spec fn pow10_of(d: int) -> int
    decreases d,
{
    if d <= 0 {
        1
    } else {
        10 * pow10_of(d - 1)
    }
}

/// Reading an octet's decimal digits advances the dotted-quad parser as if
/// the whole octet had been read at once.
proof fn lemma_parse_octet(v: int, acc: int, digits: int, rest: Seq<u8>, done: Seq<int>)
    requires
        0 <= v <= 255,
        0 <= acc,
        0 <= digits,
        acc * pow10_of(dec_digits(v).len() as int) + v <= 255,
        digits + dec_digits(v).len() <= 3,
    ensures
        parse_ipv4_rec(dec_digits(v) + rest, acc, digits, done) == parse_ipv4_rec(
            rest,
            acc * pow10_of(dec_digits(v).len() as int) + v,
            digits + dec_digits(v).len() as int,
            done,
        ),
    decreases v,
{
    lemma_dec_digits_count(v);
    assert(pow10_of(0) == 1);
    assert(pow10_of(1) == 10 * pow10_of(0));
    assert(pow10_of(2) == 10 * pow10_of(1));
    assert(pow10_of(3) == 10 * pow10_of(2));
    if v < 10 {
        let s = dec_digits(v) + rest;
        assert(s[0] == (48 + v) as u8);
        assert(48 <= s[0] <= 57);
        assert(acc * 10 + (s[0] - 48) == acc * 10 + v);
        assert(s.skip(1) =~= rest);
    } else {
        let hi = v / 10;
        let lo = v % 10;
        lemma_dec_digits_count(hi);
        assert(dec_digits(v) =~= dec_digits(hi) + seq![(48 + lo) as u8]);
        assert(dec_digits(v) + rest =~= dec_digits(hi) + (seq![(48 + lo) as u8] + rest));
        let p_hi = pow10_of(dec_digits(hi).len() as int);
        assert(pow10_of(dec_digits(v).len() as int) == 10 * p_hi);
        assert(acc * (10 * p_hi) == (acc * p_hi) * 10) by (nonlinear_arith);
        assert((acc * p_hi) * 10 + 10 * hi <= acc * (10 * p_hi) + v);
        assert(acc * p_hi + hi <= 25) by (nonlinear_arith)
            requires
                (acc * p_hi + hi) * 10 <= acc * (10 * p_hi) + v,
                acc * (10 * p_hi) + v <= 255,
                (acc * p_hi) * 10 == acc * (10 * p_hi),
        ;
        lemma_parse_octet(hi, acc, digits, seq![(48 + lo) as u8] + rest, done);
        let acc2 = acc * p_hi + hi;
        let s2 = seq![(48 + lo) as u8] + rest;
        assert(s2[0] == (48 + lo) as u8);
        assert(48 <= s2[0] <= 57);
        assert(acc2 * 10 + lo == acc * (10 * p_hi) + v) by (nonlinear_arith)
            requires
                acc2 == acc * p_hi + hi,
                v == 10 * hi + lo,
        ;
        assert(s2.skip(1) =~= rest);
    }
}

/// The dotted-quad codec round-trips: the spelling of every address
/// parses back to that address.
pub proof fn lemma_ipv4_round_trip(ip: [u8; 4])
    ensures
        spec_parse_ipv4(ipv4_bytes(ip)) == Some(ip),
{
    let a = ip[0] as int;
    let b = ip[1] as int;
    let c = ip[2] as int;
    let d = ip[3] as int;
    let r1 = seq![46u8] + dec_digits(b) + seq![46u8] + dec_digits(c) + seq![46u8] + dec_digits(d);
    let r2 = seq![46u8] + dec_digits(c) + seq![46u8] + dec_digits(d);
    let r3 = seq![46u8] + dec_digits(d);
    lemma_dec_digits_count(a);
    lemma_dec_digits_count(b);
    lemma_dec_digits_count(c);
    lemma_dec_digits_count(d);
    assert(ipv4_bytes(ip) =~= dec_digits(a) + r1);
    lemma_parse_octet(a, 0, 0, r1, Seq::empty());
    assert(r1[0] == 46 && r1.skip(1) =~= dec_digits(b) + r2);
    lemma_parse_octet(b, 0, 0, r2, Seq::empty().push(a));
    assert(r2[0] == 46 && r2.skip(1) =~= dec_digits(c) + r3);
    lemma_parse_octet(c, 0, 0, r3, Seq::empty().push(a).push(b));
    assert(r3[0] == 46 && r3.skip(1) =~= dec_digits(d) + Seq::<u8>::empty());
    lemma_parse_octet(d, 0, 0, Seq::empty(), Seq::empty().push(a).push(b).push(c));
    assert(parse_ipv4_rec(
        Seq::empty(),
        d,
        dec_digits(d).len() as int,
        Seq::empty().push(a).push(b).push(c),
    ) == Some(ip));
}

} // verus!
