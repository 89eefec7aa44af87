//! The configuration surface: the bandwidth string, the output format, and
//! the option set a caller hands to the scan.

use vstd::prelude::*;
use vstd::string::StringExecFns;

verus! {

/// The formats a result file can be written in.
#[derive(Debug, Clone, Copy, PartialEq, Eq, Structural)]
pub enum OutputFormat {
    /// JSON object with all sections.
    Json,
    /// XML document.
    Xml,
    /// Comma-separated rows.
    Csv,
    /// Plain-text report.
    Txt,
}

/// Everything a scan can be asked to do. The caller fills it; the library
/// only reads it.
#[derive(Debug)]
pub struct Opts {
    /// Domains to scan.
    pub domain: Vec<String>,
    /// Whether to list the network interfaces instead of scanning.
    pub list_network: bool,
    /// Resolvers to query; the built-in set when empty.
    pub resolvers: Vec<String>,
    /// Print only bare names.
    pub slient: bool,
    /// Path of a dictionary file, when one is used.
    pub file: Option<String>,
    /// Probe for wildcard DNS and drop its phantom answers.
    pub skip_wildcard: bool,
    /// Whether to run the network speed test instead of scanning.
    pub network_test: bool,
    /// Target address of the speed test.
    pub target_ip: String,
    /// Bandwidth budget, as a human string such as `3M`.
    pub bandwidth: String,
    /// Probe discovered names over HTTP and HTTPS.
    pub verify: bool,
    /// Look up the records of discovered names afterwards.
    pub resolve_records: bool,
    /// Interface to bind, when chosen by hand.
    pub device: Option<String>,
    /// Path of the result file, when one is written.
    pub output: Option<String>,
    /// Format of the result file.
    pub format: String,
    /// Print summary statistics at the end.
    pub summary: bool,
}

/// The byte multiplier of a bandwidth suffix, case-insensitive: `K`, `M`
/// or `G`, 1024-based.
pub open spec fn bw_unit(b: u8) -> Option<u64> {
    if b == 75 || b == 107 {
        Some(1024u64)
    } else if b == 77 || b == 109 {
        Some(1048576u64)
    } else if b == 71 || b == 103 {
        Some(1073741824u64)
    } else {
        None
    }
}

/// Ten to the `d`.
pub open spec fn pow10(d: int) -> int
    decreases d,
{
    if d <= 0 {
        1
    } else {
        10 * pow10(d - 1)
    }
}

/// Reads the number before the suffix: digits with at most one dot between
/// them. Yields all digits read as one integer together with how many of
/// them were fraction digits. A number with no digits, a dot at the start
/// or end, a second dot, more than nineteen significant digits, or more
/// than thirty fraction digits is malformed.
pub open spec fn bw_number_rec(s: Seq<u8>, n: int, d: int, seen_dot: bool, any: bool) -> Option<
    (int, int),
>
    decreases s.len(),
{
    if s.len() == 0 {
        if any && !(seen_dot && d == 0) {
            Some((n, d))
        } else {
            None
        }
    } else if 48 <= s[0] <= 57 {
        if n * 10 + (s[0] - 48) > u64::MAX || (seen_dot && d >= 30) {
            None
        } else {
            bw_number_rec(
                s.skip(1),
                n * 10 + (s[0] - 48),
                if seen_dot {
                    d + 1
                } else {
                    d
                },
                seen_dot,
                true,
            )
        }
    } else if s[0] == 46 {
        if seen_dot || !any {
            None
        } else {
            bw_number_rec(s.skip(1), n, d, true, any)
        }
    } else {
        None
    }
}

/// The number before the suffix, from a clean start.
pub open spec fn spec_bw_number(s: Seq<u8>) -> Option<(int, int)> {
    bw_number_rec(s, 0, 0, false, false)
}

/// What a bandwidth string is worth in bytes per second: the number before
/// the suffix times the suffix's multiplier, fraction digits divided back
/// out. `None` when the string has no `K`/`M`/`G` suffix or no well-formed
/// number before it.
pub open spec fn spec_bandwidth_value(s: Seq<u8>) -> Option<int> {
    if s.len() >= 1 && bw_unit(s.last()) is Some {
        match spec_bw_number(s.drop_last()) {
            Some(nd) => Some(nd.0 * bw_unit(s.last()).unwrap() / pow10(nd.1)),
            None => None,
        }
    } else {
        None
    }
}

/// Ten to the `d`, executable.
fn pow10_u128(d: u32) -> (r: u128)
    requires
        d <= 30,
    ensures
        r == pow10(d as int),
        r >= 1,
    decreases d,
{
    if d == 0 {
        1
    } else {
        let rest = pow10_u128(d - 1);
        proof {
            lemma_pow10_bound(d as int - 1);
        }
        10 * rest
    }
}

/// Ten to the `d` is positive.
pub proof fn lemma_pow10_pos(d: int)
    ensures
        pow10(d) >= 1,
    decreases (if d > 0 {
        d
    } else {
        0
    }),
{
    if d > 0 {
        lemma_pow10_pos(d - 1);
    }
}

/// Ten to the `d` stays comfortably inside 128 bits while `d` is at most
/// thirty.
pub proof fn lemma_pow10_bound(d: int)
    requires
        d <= 30,
    ensures
        pow10(d) >= 1,
        pow10(d) <= 1000000000000000000000000000000,
    decreases 30 - d,
{
    lemma_pow10_pos(d);
    if d == 30 {
        assert(pow10(0) == 1);
        assert(pow10(1) == 10 * pow10(0));
        assert(pow10(2) == 10 * pow10(1));
        assert(pow10(3) == 10 * pow10(2));
        assert(pow10(4) == 10 * pow10(3));
        assert(pow10(5) == 10 * pow10(4));
        assert(pow10(6) == 10 * pow10(5));
        assert(pow10(7) == 10 * pow10(6));
        assert(pow10(8) == 10 * pow10(7));
        assert(pow10(9) == 10 * pow10(8));
        assert(pow10(10) == 10 * pow10(9));
        assert(pow10(11) == 10 * pow10(10));
        assert(pow10(12) == 10 * pow10(11));
        assert(pow10(13) == 10 * pow10(12));
        assert(pow10(14) == 10 * pow10(13));
        assert(pow10(15) == 10 * pow10(14));
        assert(pow10(16) == 10 * pow10(15));
        assert(pow10(17) == 10 * pow10(16));
        assert(pow10(18) == 10 * pow10(17));
        assert(pow10(19) == 10 * pow10(18));
        assert(pow10(20) == 10 * pow10(19));
        assert(pow10(21) == 10 * pow10(20));
        assert(pow10(22) == 10 * pow10(21));
        assert(pow10(23) == 10 * pow10(22));
        assert(pow10(24) == 10 * pow10(23));
        assert(pow10(25) == 10 * pow10(24));
        assert(pow10(26) == 10 * pow10(25));
        assert(pow10(27) == 10 * pow10(26));
        assert(pow10(28) == 10 * pow10(27));
        assert(pow10(29) == 10 * pow10(28));
        assert(pow10(30) == 10 * pow10(29));
    } else if 0 <= d < 30 {
        lemma_pow10_bound(d + 1);
        assert(pow10(d + 1) == 10 * pow10(d));
    }
}

/// Parses a bandwidth string such as `3M` into bytes per second: an
/// integer or decimal number followed by `K`, `M` or `G` (1024-based,
/// case-insensitive). A missing suffix, a malformed number, or a value
/// beyond 64 bits is an error.
#[verifier::loop_isolation(false)]
pub fn parse_bandwidth(bandwidth: &str) -> (r: Result<u64, String>)
    ensures
        ({
            let s = vstd::utf8::encode_utf8(bandwidth@);
            &&& (spec_bandwidth_value(s) matches Some(v) ==> (0 <= v <= u64::MAX ==> (r
                matches Ok(x) && x == v)))
            &&& (!(s.len() >= 1 && bw_unit(s.last()) is Some) ==> (r matches Err(e) && e@
                == "Invalid bandwidth format. Use K, M, or G suffix."@))
            &&& ((s.len() >= 1 && bw_unit(s.last()) is Some && (spec_bw_number(s.drop_last())
                is None || (spec_bandwidth_value(s) matches Some(v) && v > u64::MAX))) ==> (r
                matches Err(e) && e@ == "Invalid number in bandwidth"@))
        }),
{
    let b = bandwidth.as_bytes_vec();
    let ghost s = vstd::utf8::encode_utf8(bandwidth@);
    proof {
        assert(b@ == s);
    }
    if b.len() == 0 {
        return Err(String::from_str("Invalid bandwidth format. Use K, M, or G suffix."));
    }
    let last = b[b.len() - 1];
    let unit: u64 = if last == 75 || last == 107 {
        1024
    } else if last == 77 || last == 109 {
        1048576
    } else if last == 71 || last == 103 {
        1073741824
    } else {
        return Err(String::from_str("Invalid bandwidth format. Use K, M, or G suffix."));
    };
    let ghost body = s.drop_last();
    let mut n: u128 = 0;
    let mut d: u32 = 0;
    let mut seen_dot = false;
    let mut any = false;
    let mut i: usize = 0;
    proof {
        assert(body.skip(0) =~= body);
    }
    while i + 1 < b.len()
        invariant
            0 <= i < b@.len(),
            n <= u64::MAX,
            d <= 30,
            seen_dot || d == 0,
            spec_bw_number(body) == bw_number_rec(
                body.skip(i as int),
                n as int,
                d as int,
                seen_dot,
                any,
            ),
        decreases b@.len() - i,
    {
        let ghost tail = body.skip(i as int);
        proof {
            assert(tail.len() == body.len() - i);
            assert(tail[0] == body[i as int]);
            assert(body[i as int] == s[i as int]);
            assert(tail.skip(1) =~= body.skip(i as int + 1));
        }
        let c = b[i];
        if 48 <= c && c <= 57 {
            let cand: u128 = n * 10 + ((c - 48) as u128);
            if cand > (u64::MAX as u128) || (seen_dot && d >= 30) {
                return Err(String::from_str("Invalid number in bandwidth"));
            }
            n = cand;
            if seen_dot {
                d = d + 1;
            }
            any = true;
        } else if c == 46 {
            if seen_dot || !any {
                return Err(String::from_str("Invalid number in bandwidth"));
            }
            seen_dot = true;
        } else {
            return Err(String::from_str("Invalid number in bandwidth"));
        }
        i = i + 1;
    }
    proof {
        assert(body.skip(i as int) =~= Seq::<u8>::empty());
    }
    if !any || (seen_dot && d == 0) {
        return Err(String::from_str("Invalid number in bandwidth"));
    }
    let p10 = pow10_u128(d);
    proof {
        lemma_pow10_bound(d as int);
    }
    let value: u128 = n * (unit as u128) / p10;
    if value > (u64::MAX as u128) {
        return Err(String::from_str("Invalid number in bandwidth"));
    }
    Ok(value as u64)
}

/// Reads an output format name, any letter case: `json`, `xml`, `csv` or
/// `txt`.
pub fn parse_output_format(s: &str) -> (r: Result<OutputFormat, String>)
    ensures
        lower_bytes(vstd::utf8::encode_utf8(s@)) == "json"@.map_values(|c: char| c as u8) ==> (r
            matches Ok(f) && f == OutputFormat::Json),
        lower_bytes(vstd::utf8::encode_utf8(s@)) == "xml"@.map_values(|c: char| c as u8) ==> (r
            matches Ok(f) && f == OutputFormat::Xml),
        lower_bytes(vstd::utf8::encode_utf8(s@)) == "csv"@.map_values(|c: char| c as u8) ==> (r
            matches Ok(f) && f == OutputFormat::Csv),
        lower_bytes(vstd::utf8::encode_utf8(s@)) == "txt"@.map_values(|c: char| c as u8) ==> (r
            matches Ok(f) && f == OutputFormat::Txt),
{
    let b = s.as_bytes_vec();
    proof {
        reveal_strlit("json");
        reveal_strlit("xml");
        reveal_strlit("csv");
        reveal_strlit("txt");
        assert("json"@.map_values(|c: char| c as u8) =~= seq![106u8, 115u8, 111u8, 110u8]);
        assert("xml"@.map_values(|c: char| c as u8) =~= seq![120u8, 109u8, 108u8]);
        assert("csv"@.map_values(|c: char| c as u8) =~= seq![99u8, 115u8, 118u8]);
        assert("txt"@.map_values(|c: char| c as u8) =~= seq![116u8, 120u8, 116u8]);
    }
    if eq_lower(&b, 106, 115, 111, 110) {
        Ok(OutputFormat::Json)
    } else if eq_lower3(&b, 120, 109, 108) {
        Ok(OutputFormat::Xml)
    } else if eq_lower3(&b, 99, 115, 118) {
        Ok(OutputFormat::Csv)
    } else if eq_lower3(&b, 116, 120, 116) {
        Ok(OutputFormat::Txt)
    } else {
        let mut msg = String::from_str("unsupported output format: ");
        msg.append(s);
        msg.append(". supported formats: json, xml, csv, txt");
        Err(msg)
    }
}

impl core::str::FromStr for OutputFormat {
    type Err = String;

    /// Reads an output format name, any letter case.
    fn from_str(s: &str) -> Result<OutputFormat, String> {
        parse_output_format(s)
    }
}

/// An ASCII byte with upper-case letters folded to lower case.
pub open spec fn lower_byte(b: u8) -> u8 {
    if 65 <= b <= 90 {
        (b + 32) as u8
    } else {
        b
    }
}

/// A byte string with upper-case letters folded to lower case.
pub open spec fn lower_bytes(s: Seq<u8>) -> Seq<u8> {
    s.map_values(|b: u8| lower_byte(b))
}

/// Whether `b` spells the given four lower-case letters, any case.
fn eq_lower(b: &Vec<u8>, c0: u8, c1: u8, c2: u8, c3: u8) -> (r: bool)
    requires
        96 < c0 < 123 && 96 < c1 < 123 && 96 < c2 < 123 && 96 < c3 < 123,
    ensures
        r == (lower_bytes(b@) =~= seq![c0, c1, c2, c3]),
{
    let r = b.len() == 4 && fold_at(b, 0) == c0 && fold_at(b, 1) == c1 && fold_at(b, 2) == c2
        && fold_at(b, 3) == c3;
    proof {
        if r {
            assert(lower_bytes(b@) =~= seq![c0, c1, c2, c3]);
        } else {
            if lower_bytes(b@) =~= seq![c0, c1, c2, c3] {
                assert(b@.len() == 4);
                assert(false);
            }
        }
    }
    r
}

/// Whether `b` spells the given three lower-case letters, any case.
fn eq_lower3(b: &Vec<u8>, c0: u8, c1: u8, c2: u8) -> (r: bool)
    requires
        96 < c0 < 123 && 96 < c1 < 123 && 96 < c2 < 123,
    ensures
        r == (lower_bytes(b@) =~= seq![c0, c1, c2]),
{
    let r = b.len() == 3 && fold_at(b, 0) == c0 && fold_at(b, 1) == c1 && fold_at(b, 2) == c2;
    proof {
        if r {
            assert(lower_bytes(b@) =~= seq![c0, c1, c2]);
        } else {
            if lower_bytes(b@) =~= seq![c0, c1, c2] {
                assert(b@.len() == 3);
                assert(false);
            }
        }
    }
    r
}

/// The byte at `i`, lower-cased.
fn fold_at(b: &Vec<u8>, i: usize) -> (r: u8)
    requires
        i < b@.len(),
    ensures
        r == lower_byte(b@[i as int]),
{
    let c = b[i];
    if 65 <= c && c <= 90 {
        c + 32
    } else {
        c
    }
}

} // verus!
