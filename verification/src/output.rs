//! Result export: the flattened record types and the three hand-built
//! text formats. (The JSON format is serialized outside the library, from
//! copies of these types.)

use crate::bytes::dec_chars;
use crate::handle::{DiscoveredDomain, SummaryStats, VerificationResult};
use vstd::prelude::*;
use vstd::string::{StrSliceExecFns, StringExecFns};

verus! {

/// A discovery flattened for export, with its time rendered as text.
#[derive(Debug)]
pub struct SerializableDiscoveredDomain {
    /// The queried name.
    pub domain: String,
    /// The record text.
    pub ip: String,
    /// The record type.
    pub record_type: String,
    /// Epoch seconds of the observation.
    pub timestamp: u64,
    /// The observation time as `year-month-day hour:minute:second`.
    pub formatted_time: String,
}

/// A probe outcome flattened for export.
#[derive(Debug)]
pub struct SerializableVerificationResult {
    /// The probed name.
    pub domain: String,
    /// The address it resolved to.
    pub ip: String,
    /// HTTP status, when one came back.
    pub http_status: Option<u16>,
    /// HTTPS status, when one came back.
    pub https_status: Option<u16>,
    /// The page title, when one was read.
    pub title: Option<String>,
    /// The server header, when one was present.
    pub server: Option<String>,
    /// Whether either probe found the name alive.
    pub is_alive: bool,
}

/// Summary counts flattened for export.
#[derive(Debug)]
pub struct SerializableSummaryStats {
    /// Number of discoveries.
    pub total_domains: usize,
    /// The distinct addresses, each once.
    pub unique_ips: Vec<String>,
    /// For each /24 range, the addresses that fell into it.
    pub ip_ranges: Vec<(String, Vec<String>)>,
    /// For each record type seen, how many discoveries carried it.
    pub record_types: Vec<(String, usize)>,
    /// Number of names probed.
    pub verified_domains: usize,
    /// Number of names found alive.
    pub alive_domains: usize,
}

/// Everything one export writes: the discoveries, the probe outcomes, the
/// summary, and when the export was made.
#[derive(Debug)]
pub struct ExportData {
    /// The discoveries.
    pub discovered_domains: Vec<SerializableDiscoveredDomain>,
    /// The probe outcomes.
    pub verification_results: Vec<SerializableVerificationResult>,
    /// The summary counts.
    pub summary: SerializableSummaryStats,
    /// When the export was made, as text.
    pub export_time: String,
}

/// The text that chrono renders a timestamp to, with the
/// `year-month-day hour:minute:second` layout: a function of the timestamp
/// alone.
pub uninterp spec fn utc_time_text(ts: u64) -> Seq<char>;

/// Relies on chrono's `DateTime::from_timestamp` and its formatting: both
/// compute from the timestamp alone, so equal timestamps render equally.
#[verifier::external_body]
fn format_utc(ts: u64) -> (r: String)
    ensures
        r@ == utc_time_text(ts),
{
    chrono::DateTime::from_timestamp(ts as i64, 0).unwrap_or_default().format(
        "%Y-%m-%d %H:%M:%S",
    ).to_string()
}

impl SerializableDiscoveredDomain {
    /// Flattens one discovery, rendering its timestamp to text.
    pub fn from_discovered(d: &DiscoveredDomain) -> (r: Self)
        ensures
            r.domain@ == d.domain@,
            r.ip@ == d.ip@,
            r.record_type@ == d.record_type@,
            r.timestamp == d.timestamp,
            r.formatted_time@ == utc_time_text(d.timestamp),
    {
        SerializableDiscoveredDomain {
            domain: d.domain.clone(),
            ip: d.ip.clone(),
            record_type: d.record_type.clone(),
            timestamp: d.timestamp,
            formatted_time: format_utc(d.timestamp),
        }
    }
}

impl SerializableVerificationResult {
    /// Flattens one probe outcome.
    pub fn from_result(v: &VerificationResult) -> (r: Self)
        ensures
            r.domain@ == v.domain@,
            r.ip@ == v.ip@,
            r.http_status == v.http_status,
            r.https_status == v.https_status,
            r.title == v.title,
            r.server == v.server,
            r.is_alive == v.is_alive,
    {
        SerializableVerificationResult {
            domain: v.domain.clone(),
            ip: v.ip.clone(),
            http_status: v.http_status,
            https_status: v.https_status,
            title: crate::api::clone_opt(&v.title),
            server: crate::api::clone_opt(&v.server),
            is_alive: v.is_alive,
        }
    }
}

impl SerializableSummaryStats {
    /// Flattens the summary counts.
    pub fn from_stats(s: SummaryStats) -> (r: Self)
        ensures
            r.total_domains == s.total_domains,
            r.unique_ips == s.unique_ips,
            r.ip_ranges == s.ip_ranges,
            r.record_types == s.record_types,
            r.verified_domains == s.verified_domains,
            r.alive_domains == s.alive_domains,
    {
        SerializableSummaryStats {
            total_domains: s.total_domains,
            unique_ips: s.unique_ips,
            ip_ranges: s.ip_ranges,
            record_types: s.record_types,
            verified_domains: s.verified_domains,
            alive_domains: s.alive_domains,
        }
    }
}

/// How one character reads inside XML text: the five special characters
/// become entities, everything else stands for itself.
pub open spec fn xml_escape_char(c: char) -> Seq<char> {
    if c == '&' {
        "&amp;"@
    } else if c == '<' {
        "&lt;"@
    } else if c == '>' {
        "&gt;"@
    } else if c == '"' {
        "&quot;"@
    } else if c == '\'' {
        "&apos;"@
    } else {
        seq![c]
    }
}

/// A string with its XML special characters escaped.
pub open spec fn spec_escape_xml(s: Seq<char>) -> Seq<char>
    decreases s.len(),
{
    if s.len() == 0 {
        Seq::empty()
    } else {
        xml_escape_char(s[0]) + spec_escape_xml(s.skip(1))
    }
}

/// Escapes the XML special characters of a string.
#[verifier::loop_isolation(false)]
pub fn escape_xml(s: &str) -> (r: String)
    ensures
        r@ == spec_escape_xml(s@),
{
    let mut out = String::new();
    let l = s.unicode_len();
    let mut i: usize = 0;
    proof {
        assert(s@.skip(0) =~= s@);
    }
    while i < l
        invariant
            0 <= i <= l,
            l == s@.len(),
            spec_escape_xml(s@) =~= out@ + spec_escape_xml(s@.skip(i as int)),
        decreases l - i,
    {
        proof {
            assert(s@.skip(i as int)[0] == s@[i as int]);
            assert(s@.skip(i as int).skip(1) =~= s@.skip(i as int + 1));
        }
        let c = s.get_char(i);
        if c == '&' {
            out.append("&amp;");
        } else if c == '<' {
            out.append("&lt;");
        } else if c == '>' {
            out.append("&gt;");
        } else if c == '"' {
            out.append("&quot;");
        } else if c == '\'' {
            out.append("&apos;");
        } else {
            let piece = s.substring_char(i, i + 1);
            proof {
                assert(piece@ =~= seq![c]);
            }
            out.append(piece);
        }
        i = i + 1;
    }
    proof {
        assert(s@.skip(i as int) =~= Seq::<char>::empty());
        assert(out@ =~= spec_escape_xml(s@));
    }
    out
}

/// Whether a CSV field must be quoted: it holds a comma, a double quote,
/// or a line break.
pub open spec fn csv_needs_quoting(s: Seq<char>) -> bool {
    exists|i: int| 0 <= i < s.len() && ((#[trigger] s[i]) == ',' || s[i] == '"' || s[i] == '\n')
}

/// A string with each double quote doubled.
pub open spec fn spec_double_quotes(s: Seq<char>) -> Seq<char>
    decreases s.len(),
{
    if s.len() == 0 {
        Seq::empty()
    } else if s[0] == '"' {
        seq!['"', '"'] + spec_double_quotes(s.skip(1))
    } else {
        seq![s[0]] + spec_double_quotes(s.skip(1))
    }
}

/// How a string reads as one CSV field: quoted with inner quotes doubled
/// when it holds a comma, a quote or a line break, itself otherwise.
pub open spec fn spec_escape_csv(s: Seq<char>) -> Seq<char> {
    if csv_needs_quoting(s) {
        seq!['"'] + spec_double_quotes(s) + seq!['"']
    } else {
        s
    }
}

/// Escapes a string for use as one CSV field.
#[verifier::loop_isolation(false)]
pub fn escape_csv(s: &str) -> (r: String)
    ensures
        r@ == spec_escape_csv(s@),
{
    let l = s.unicode_len();
    let mut needs = false;
    let mut i: usize = 0;
    while i < l
        invariant
            0 <= i <= l,
            l == s@.len(),
            needs == (exists|j: int|
                0 <= j < i && ((#[trigger] s@[j]) == ',' || s@[j] == '"' || s@[j] == '\n')),
        decreases l - i,
    {
        let c = s.get_char(i);
        if c == ',' || c == '"' || c == '\n' {
            needs = true;
        }
        i = i + 1;
    }
    if !needs {
        return s.to_owned();
    }
    let mut out = String::new();
    out.append("\"");
    let ghost quote = seq!['"'];
    proof {
        reveal_strlit("\"");
        assert("\""@ =~= quote);
        assert(s@.skip(0) =~= s@);
    }
    let mut k: usize = 0;
    while k < l
        invariant
            0 <= k <= l,
            l == s@.len(),
            quote + spec_double_quotes(s@) =~= out@ + spec_double_quotes(s@.skip(k as int)),
        decreases l - k,
    {
        proof {
            assert(s@.skip(k as int)[0] == s@[k as int]);
            assert(s@.skip(k as int).skip(1) =~= s@.skip(k as int + 1));
        }
        let c = s.get_char(k);
        if c == '"' {
            proof {
                reveal_strlit("\"\"");
                assert("\"\""@ =~= seq!['"', '"']);
            }
            out.append("\"\"");
        } else {
            let piece = s.substring_char(k, k + 1);
            proof {
                assert(piece@ =~= seq![c]);
            }
            out.append(piece);
        }
        k = k + 1;
    }
    proof {
        assert(s@.skip(k as int) =~= Seq::<char>::empty());
        reveal_strlit("\"");
    }
    out.append("\"");
    proof {
        assert(out@ =~= spec_escape_csv(s@));
    }
    out
}

/// An optional status code as text: the number, or `N/A`.
pub open spec fn status_chars(o: Option<u16>) -> Seq<char> {
    match o {
        Some(v) => dec_chars(v as int),
        None => "N/A"@,
    }
}

/// An optional text with `N/A` standing in for nothing.
pub open spec fn opt_chars(o: Option<String>) -> Seq<char> {
    match o {
        Some(s) => s@,
        None => "N/A"@,
    }
}

/// A truth value as text.
pub open spec fn bool_chars(b: bool) -> Seq<char> {
    if b {
        "true"@
    } else {
        "false"@
    }
}

/// Appends an optional status code: the number, or `N/A`.
fn push_status(out: &mut String, o: &Option<u16>)
    ensures
        final(out)@ == old(out)@ + status_chars(*o),
{
    match o {
        Some(v) => {
            let t = crate::bytes::u64_to_string(*v as u64);
            out.append(t.as_str());
        },
        None => {
            out.append("N/A");
        },
    }
}

/// Appends an optional text, `N/A` for nothing, escaped for XML.
fn push_opt_xml(out: &mut String, o: &Option<String>)
    ensures
        final(out)@ == old(out)@ + spec_escape_xml(opt_chars(*o)),
{
    match o {
        Some(s) => {
            let t = escape_xml(s.as_str());
            out.append(t.as_str());
        },
        None => {
            let t = escape_xml("N/A");
            out.append(t.as_str());
        },
    }
}

/// Appends a number in decimal.
fn push_num(out: &mut String, n: u64)
    ensures
        final(out)@ == old(out)@ + dec_chars(n as int),
{
    let t = crate::bytes::u64_to_string(n);
    out.append(t.as_str());
}

/// One discovery as an XML element.
pub open spec fn xml_domain_row(d: SerializableDiscoveredDomain) -> Seq<char> {
    "    <domain>\n      <name>"@ + spec_escape_xml(d.domain@) + "</name>\n      <ip>"@
        + spec_escape_xml(d.ip@) + "</ip>\n      <record_type>"@ + spec_escape_xml(
        d.record_type@,
    ) + "</record_type>\n      <timestamp>"@ + dec_chars(d.timestamp as int)
        + "</timestamp>\n      <formatted_time>"@ + spec_escape_xml(d.formatted_time@)
        + "</formatted_time>\n    </domain>\n"@
}

/// One probe outcome as an XML element.
pub open spec fn xml_result_row(v: SerializableVerificationResult) -> Seq<char> {
    "    <result>\n      <domain>"@ + spec_escape_xml(v.domain@) + "</domain>\n      <ip>"@
        + spec_escape_xml(v.ip@) + "</ip>\n      <http_status>"@ + status_chars(v.http_status)
        + "</http_status>\n      <https_status>"@ + status_chars(v.https_status)
        + "</https_status>\n      <title>"@ + spec_escape_xml(opt_chars(v.title))
        + "</title>\n      <server>"@ + spec_escape_xml(opt_chars(v.server))
        + "</server>\n      <is_alive>"@ + bool_chars(v.is_alive)
        + "</is_alive>\n    </result>\n"@
}

/// The concatenation of a row rendering over a list.
pub open spec fn concat_map<T>(items: Seq<T>, f: spec_fn(T) -> Seq<char>) -> Seq<char>
    decreases items.len(),
{
    if items.len() == 0 {
        Seq::empty()
    } else {
        f(items[0]) + concat_map(items.skip(1), f)
    }
}

/// Extending the list by one row appends that row's text.
pub proof fn lemma_concat_map_snoc<T>(items: Seq<T>, f: spec_fn(T) -> Seq<char>)
    requires
        items.len() > 0,
    ensures
        concat_map(items, f) =~= concat_map(items.drop_last(), f) + f(items.last()),
    decreases items.len(),
{
    if items.len() == 1 {
        assert(concat_map(items.skip(1), f) =~= Seq::<char>::empty());
        assert(concat_map(items.drop_last(), f) =~= Seq::<char>::empty());
    } else {
        lemma_concat_map_snoc(items.skip(1), f);
        assert(items.skip(1).drop_last() =~= items.drop_last().skip(1));
        assert(items.skip(1).last() == items.last());
    }
}

/// The whole XML document of one export./// The document head of the XML export, up to the first discovery row.
pub open spec fn xml_head_chars(data: ExportData) -> Seq<char> {
    "<?xml version=\"1.0\" encoding=\"UTF-8\"?>\n<rsubdomain_results>\n  <export_time>"@
        + data.export_time@ + "</export_time>\n  <summary>\n    <total_domains>"@ + dec_chars(
        data.summary.total_domains as int,
    ) + "</total_domains>\n    <unique_ips_count>"@ + dec_chars(
        data.summary.unique_ips@.len() as int,
    ) + "</unique_ips_count>\n    <verified_domains>"@ + dec_chars(
        data.summary.verified_domains as int,
    ) + "</verified_domains>\n    <alive_domains>"@ + dec_chars(
        data.summary.alive_domains as int,
    ) + "</alive_domains>\n  </summary>\n  <discovered_domains>\n"@
}

/// The whole XML document of one export.
pub open spec fn spec_export_xml(data: ExportData) -> Seq<char> {
    xml_head_chars(data) + concat_map(
        data.discovered_domains@,
        |d: SerializableDiscoveredDomain| xml_domain_row(d),
    ) + "  </discovered_domains>\n  <verification_results>\n"@ + concat_map(
        data.verification_results@,
        |v: SerializableVerificationResult| xml_result_row(v),
    ) + "  </verification_results>\n</rsubdomain_results>\n"@
}

/// Appends the XML document head.
fn push_xml_head(out: &mut String, data: &ExportData)
    ensures
        final(out)@ == old(out)@ + xml_head_chars(*data),
{
    out.append("<?xml version=\"1.0\" encoding=\"UTF-8\"?>\n<rsubdomain_results>\n  <export_time>");
    out.append(data.export_time.as_str());
    out.append("</export_time>\n  <summary>\n    <total_domains>");
    push_num(out, data.summary.total_domains as u64);
    out.append("</total_domains>\n    <unique_ips_count>");
    push_num(out, data.summary.unique_ips.len() as u64);
    out.append("</unique_ips_count>\n    <verified_domains>");
    push_num(out, data.summary.verified_domains as u64);
    out.append("</verified_domains>\n    <alive_domains>");
    push_num(out, data.summary.alive_domains as u64);
    out.append("</alive_domains>\n  </summary>\n  <discovered_domains>\n");
    proof {
        assert(out@ =~= old(out)@ + xml_head_chars(*data));
    }
}

/// Appends one discovery as an XML element.
fn push_xml_domain_row(out: &mut String, d: &SerializableDiscoveredDomain)
    ensures
        final(out)@ == old(out)@ + xml_domain_row(*d),
{
    out.append("    <domain>\n      <name>");
    let e = escape_xml(d.domain.as_str());
    out.append(e.as_str());
    out.append("</name>\n      <ip>");
    let e = escape_xml(d.ip.as_str());
    out.append(e.as_str());
    out.append("</ip>\n      <record_type>");
    let e = escape_xml(d.record_type.as_str());
    out.append(e.as_str());
    out.append("</record_type>\n      <timestamp>");
    push_num(out, d.timestamp);
    out.append("</timestamp>\n      <formatted_time>");
    let e = escape_xml(d.formatted_time.as_str());
    out.append(e.as_str());
    out.append("</formatted_time>\n    </domain>\n");
    proof {
        assert(out@ =~= old(out)@ + xml_domain_row(*d));
    }
}

/// Appends one probe outcome as an XML element.
fn push_xml_result_row(out: &mut String, v: &SerializableVerificationResult)
    ensures
        final(out)@ == old(out)@ + xml_result_row(*v),
{
    out.append("    <result>\n      <domain>");
    let e = escape_xml(v.domain.as_str());
    out.append(e.as_str());
    out.append("</domain>\n      <ip>");
    let e = escape_xml(v.ip.as_str());
    out.append(e.as_str());
    out.append("</ip>\n      <http_status>");
    push_status(out, &v.http_status);
    out.append("</http_status>\n      <https_status>");
    push_status(out, &v.https_status);
    out.append("</https_status>\n      <title>");
    push_opt_xml(out, &v.title);
    out.append("</title>\n      <server>");
    push_opt_xml(out, &v.server);
    out.append("</server>\n      <is_alive>");
    if v.is_alive {
        out.append("true");
    } else {
        out.append("false");
    }
    out.append("</is_alive>\n    </result>\n");
    proof {
        assert(out@ =~= old(out)@ + xml_result_row(*v));
    }
}

/// Renders one export as an XML document.
#[verifier::loop_isolation(false)]
#[verifier::rlimit(60)]
pub fn export_to_xml(data: &ExportData) -> (r: String)
    ensures
        r@ == spec_export_xml(*data),
{
    let mut out = String::new();
    push_xml_head(&mut out, data);
    let mut i: usize = 0;
    proof {
        assert(data.discovered_domains@.take(0) =~= Seq::<SerializableDiscoveredDomain>::empty());
    }
    while i < data.discovered_domains.len()
        invariant
            0 <= i <= data.discovered_domains@.len(),
            out@ =~= xml_head_chars(*data) + concat_map(
                data.discovered_domains@.take(i as int),
                |d: SerializableDiscoveredDomain| xml_domain_row(d),
            ),
        decreases data.discovered_domains@.len() - i,
    {
        push_xml_domain_row(&mut out, &data.discovered_domains[i]);
        proof {
            let items = data.discovered_domains@;
            assert(items.take(i as int + 1).drop_last() =~= items.take(i as int));
            assert(items.take(i as int + 1).last() == items[i as int]);
            lemma_concat_map_snoc(
                items.take(i as int + 1),
                |d: SerializableDiscoveredDomain| xml_domain_row(d),
            );
        }
        i = i + 1;
    }
    proof {
        assert(data.discovered_domains@.take(i as int) =~= data.discovered_domains@);
    }
    out.append("  </discovered_domains>\n  <verification_results>\n");
    let ghost mid = out@;
    let mut k: usize = 0;
    proof {
        assert(data.verification_results@.take(0) =~= Seq::<
            SerializableVerificationResult,
        >::empty());
    }
    while k < data.verification_results.len()
        invariant
            0 <= k <= data.verification_results@.len(),
            out@ =~= mid + concat_map(
                data.verification_results@.take(k as int),
                |v: SerializableVerificationResult| xml_result_row(v),
            ),
        decreases data.verification_results@.len() - k,
    {
        push_xml_result_row(&mut out, &data.verification_results[k]);
        proof {
            let items = data.verification_results@;
            assert(items.take(k as int + 1).drop_last() =~= items.take(k as int));
            assert(items.take(k as int + 1).last() == items[k as int]);
            lemma_concat_map_snoc(
                items.take(k as int + 1),
                |v: SerializableVerificationResult| xml_result_row(v),
            );
        }
        k = k + 1;
    }
    proof {
        assert(data.verification_results@.take(k as int) =~= data.verification_results@);
    }
    out.append("  </verification_results>\n</rsubdomain_results>\n");
    proof {
        assert(out@ =~= spec_export_xml(*data));
    }
    out
}

/// One discovery as a CSV row.
pub open spec fn csv_domain_row(d: SerializableDiscoveredDomain) -> Seq<char> {
    spec_escape_csv(d.domain@) + seq![','] + spec_escape_csv(d.ip@) + seq![','] + spec_escape_csv(
        d.record_type@,
    ) + seq![','] + dec_chars(d.timestamp as int) + seq![','] + spec_escape_csv(
        d.formatted_time@,
    ) + seq!['\n']
}

/// One probe outcome as a CSV row.
pub open spec fn csv_result_row(v: SerializableVerificationResult) -> Seq<char> {
    spec_escape_csv(v.domain@) + seq![','] + spec_escape_csv(v.ip@) + seq![','] + status_chars(
        v.http_status,
    ) + seq![','] + status_chars(v.https_status) + seq![','] + spec_escape_csv(opt_chars(v.title))
        + seq![','] + spec_escape_csv(opt_chars(v.server)) + seq![','] + bool_chars(v.is_alive)
        + seq!['\n']
}

/// The whole CSV text of one export: the discovery table, then the probe
/// table.
pub open spec fn spec_export_csv(data: ExportData) -> Seq<char> {
    "# 发现的域名\nDomain,IP,RecordType,Timestamp,FormattedTime\n"@ + concat_map(
        data.discovered_domains@,
        |d: SerializableDiscoveredDomain| csv_domain_row(d),
    ) + "\n# 验证结果\nDomain,IP,HTTPStatus,HTTPSStatus,Title,Server,IsAlive\n"@ + concat_map(
        data.verification_results@,
        |v: SerializableVerificationResult| csv_result_row(v),
    )
}

/// Appends an optional text, `N/A` for nothing, escaped for CSV.
fn push_opt_csv(out: &mut String, o: &Option<String>)
    ensures
        final(out)@ == old(out)@ + spec_escape_csv(opt_chars(*o)),
{
    match o {
        Some(s) => {
            let t = escape_csv(s.as_str());
            out.append(t.as_str());
        },
        None => {
            let t = escape_csv("N/A");
            out.append(t.as_str());
        },
    }
}

/// Appends one discovery as a CSV row.
fn push_csv_domain_row(out: &mut String, d: &SerializableDiscoveredDomain)
    ensures
        final(out)@ == old(out)@ + csv_domain_row(*d),
{
    proof {
        reveal_strlit(",");
        reveal_strlit("\n");
        assert(","@ =~= seq![',']);
        assert("\n"@ =~= seq!['\n']);
    }
    let e = escape_csv(d.domain.as_str());
    out.append(e.as_str());
    out.append(",");
    let e = escape_csv(d.ip.as_str());
    out.append(e.as_str());
    out.append(",");
    let e = escape_csv(d.record_type.as_str());
    out.append(e.as_str());
    out.append(",");
    push_num(out, d.timestamp);
    out.append(",");
    let e = escape_csv(d.formatted_time.as_str());
    out.append(e.as_str());
    out.append("\n");
    proof {
        assert(out@ =~= old(out)@ + csv_domain_row(*d));
    }
}

/// Appends one probe outcome as a CSV row.
fn push_csv_result_row(out: &mut String, v: &SerializableVerificationResult)
    ensures
        final(out)@ == old(out)@ + csv_result_row(*v),
{
    proof {
        reveal_strlit(",");
        reveal_strlit("\n");
        assert(","@ =~= seq![',']);
        assert("\n"@ =~= seq!['\n']);
    }
    let e = escape_csv(v.domain.as_str());
    out.append(e.as_str());
    out.append(",");
    let e = escape_csv(v.ip.as_str());
    out.append(e.as_str());
    out.append(",");
    push_status(out, &v.http_status);
    out.append(",");
    push_status(out, &v.https_status);
    out.append(",");
    push_opt_csv(out, &v.title);
    out.append(",");
    push_opt_csv(out, &v.server);
    out.append(",");
    if v.is_alive {
        out.append("true");
    } else {
        out.append("false");
    }
    out.append("\n");
    proof {
        assert(out@ =~= old(out)@ + csv_result_row(*v));
    }
}

/// Renders one export as CSV.
#[verifier::loop_isolation(false)]
#[verifier::rlimit(60)]
pub fn export_to_csv(data: &ExportData) -> (r: String)
    ensures
        r@ == spec_export_csv(*data),
{
    let mut out = String::new();
    out.append("# 发现的域名\nDomain,IP,RecordType,Timestamp,FormattedTime\n");
    let ghost base = out@;
    let mut i: usize = 0;
    proof {
        assert(data.discovered_domains@.take(0) =~= Seq::<SerializableDiscoveredDomain>::empty());
    }
    while i < data.discovered_domains.len()
        invariant
            0 <= i <= data.discovered_domains@.len(),
            out@ =~= base + concat_map(
                data.discovered_domains@.take(i as int),
                |d: SerializableDiscoveredDomain| csv_domain_row(d),
            ),
        decreases data.discovered_domains@.len() - i,
    {
        push_csv_domain_row(&mut out, &data.discovered_domains[i]);
        proof {
            let items = data.discovered_domains@;
            assert(items.take(i as int + 1).drop_last() =~= items.take(i as int));
            assert(items.take(i as int + 1).last() == items[i as int]);
            lemma_concat_map_snoc(
                items.take(i as int + 1),
                |d: SerializableDiscoveredDomain| csv_domain_row(d),
            );
        }
        i = i + 1;
    }
    proof {
        assert(data.discovered_domains@.take(i as int) =~= data.discovered_domains@);
    }
    out.append("\n# 验证结果\nDomain,IP,HTTPStatus,HTTPSStatus,Title,Server,IsAlive\n");
    let ghost mid = out@;
    let mut k: usize = 0;
    proof {
        assert(data.verification_results@.take(0) =~= Seq::<
            SerializableVerificationResult,
        >::empty());
    }
    while k < data.verification_results.len()
        invariant
            0 <= k <= data.verification_results@.len(),
            out@ =~= mid + concat_map(
                data.verification_results@.take(k as int),
                |v: SerializableVerificationResult| csv_result_row(v),
            ),
        decreases data.verification_results@.len() - k,
    {
        push_csv_result_row(&mut out, &data.verification_results[k]);
        proof {
            let items = data.verification_results@;
            assert(items.take(k as int + 1).drop_last() =~= items.take(k as int));
            assert(items.take(k as int + 1).last() == items[k as int]);
            lemma_concat_map_snoc(
                items.take(k as int + 1),
                |v: SerializableVerificationResult| csv_result_row(v),
            );
        }
        k = k + 1;
    }
    proof {
        assert(data.verification_results@.take(k as int) =~= data.verification_results@);
    }
    proof {
        assert(out@ =~= spec_export_csv(*data));
    }
    out
}

/// So many of one character.
pub open spec fn repeat_char(c: char, n: int) -> Seq<char>
    decreases n,
{
    if n <= 0 {
        Seq::empty()
    } else {
        seq![c] + repeat_char(c, n - 1)
    }
}

/// A text padded with spaces on the right to at least the given width.
pub open spec fn pad_to(s: Seq<char>, w: int) -> Seq<char> {
    s + repeat_char(' ', w - s.len())
}

/// Appends a text padded on the right to at least the given width.
#[verifier::loop_isolation(false)]
fn push_padded(out: &mut String, s: &str, w: usize)
    ensures
        final(out)@ == old(out)@ + pad_to(s@, w as int),
{
    out.append(s);
    let l = s.unicode_len();
    let mut need: usize = if l < w {
        w - l
    } else {
        0
    };
    proof {
        reveal_strlit(" ");
        assert(" "@ =~= seq![' ']);
        if l >= w {
            assert(repeat_char(' ', w - s@.len()) =~= Seq::<char>::empty());
        }
    }
    while need > 0
        invariant
            out@ + repeat_char(' ', need as int) =~= old(out)@ + pad_to(s@, w as int),
        decreases need,
    {
        out.append(" ");
        proof {
            assert(repeat_char(' ', need as int) =~= seq![' '] + repeat_char(
                ' ',
                need as int - 1,
            ));
        }
        need = need - 1;
    }
}

/// Appends so many of one rule character, given as a one-character string.
#[verifier::loop_isolation(false)]
fn push_repeat(out: &mut String, piece: &str, n: usize)
    requires
        piece@.len() == 1,
    ensures
        final(out)@ == old(out)@ + repeat_char(piece@[0], n as int),
{
    let mut k: usize = n;
    while k > 0
        invariant
            out@ + repeat_char(piece@[0], k as int) =~= old(out)@ + repeat_char(
                piece@[0],
                n as int,
            ),
        decreases k,
    {
        out.append(piece);
        proof {
            assert(repeat_char(piece@[0], k as int) =~= seq![piece@[0]] + repeat_char(
                piece@[0],
                k as int - 1,
            ));
        }
        k = k - 1;
    }
}

/// One discovery as a plain-text table row.
pub open spec fn txt_domain_row(d: SerializableDiscoveredDomain) -> Seq<char> {
    pad_to(d.domain@, 30) + seq![' '] + pad_to(d.ip@, 15) + seq![' '] + pad_to(d.record_type@, 10)
        + seq![' '] + pad_to(d.formatted_time@, 20) + seq!['\n']
}

/// One probe outcome as a plain-text table row.
pub open spec fn txt_result_row(v: SerializableVerificationResult) -> Seq<char> {
    pad_to(v.domain@, 30) + seq![' '] + pad_to(v.ip@, 15) + seq![' '] + pad_to(
        status_chars(v.http_status),
        6,
    ) + seq![' '] + pad_to(status_chars(v.https_status), 6) + seq![' '] + pad_to(
        opt_chars(v.title),
        20,
    ) + seq![' '] + pad_to(
        if v.is_alive {
            "YES"@
        } else {
            "NO"@
        },
        10,
    ) + seq!['\n']
}

/// One record-type count as a plain-text line.
pub open spec fn txt_type_row(t: (String, usize)) -> Seq<char> {
    "  "@ + t.0@ + ": "@ + dec_chars(t.1 as int) + seq!['\n']
}

/// The report head of the plain-text export, up to the record-type lines.
pub open spec fn txt_head_chars(data: ExportData) -> Seq<char> {
    "rsubdomain 扫描结果报告\n导出时间: "@ + data.export_time@ + seq!['\n'] + repeat_char(
        '=',
        60,
    ) + "\n\n汇总统计:\n  发现域名总数: "@ + dec_chars(data.summary.total_domains as int)
        + "\n  唯一IP数量: "@ + dec_chars(data.summary.unique_ips@.len() as int)
        + "\n  已验证域名: "@ + dec_chars(data.summary.verified_domains as int)
        + "\n  存活域名: "@ + dec_chars(data.summary.alive_domains as int)
        + "\n\n记录类型分布:\n"@
}

/// The discovery table's heading lines.
pub open spec fn txt_table_head_chars() -> Seq<char> {
    "\n发现的域名:\n"@ + pad_to("域名"@, 30) + seq![' '] + pad_to("IP地址"@, 15) + seq![' ']
        + pad_to("记录类型"@, 10) + seq![' '] + pad_to("时间"@, 20) + seq!['\n'] + repeat_char(
        '-',
        80,
    ) + seq!['\n']
}

/// The probe table's heading lines.
pub open spec fn txt_results_head_chars() -> Seq<char> {
    "验证结果:\n"@ + pad_to("域名"@, 30) + seq![' '] + pad_to("IP地址"@, 15) + seq![' ']
        + pad_to("HTTP"@, 6) + seq![' '] + pad_to("HTTPS"@, 6) + seq![' '] + pad_to("标题"@, 20)
        + seq![' '] + pad_to("存活"@, 10) + seq!['\n'] + repeat_char('-', 90) + seq!['\n']
}

/// The whole plain-text report of one export.
pub open spec fn spec_export_txt(data: ExportData) -> Seq<char> {
    txt_head_chars(data) + concat_map(
        data.summary.record_types@,
        |t: (String, usize)| txt_type_row(t),
    ) + txt_table_head_chars() + concat_map(
        data.discovered_domains@,
        |d: SerializableDiscoveredDomain| txt_domain_row(d),
    ) + seq!['\n'] + (if data.verification_results@.len() > 0 {
        txt_results_head_chars() + concat_map(
            data.verification_results@,
            |v: SerializableVerificationResult| txt_result_row(v),
        )
    } else {
        Seq::<char>::empty()
    })
}

/// Appends the report head.
fn push_txt_head(out: &mut String, data: &ExportData)
    ensures
        final(out)@ == old(out)@ + txt_head_chars(*data),
{
    proof {
        reveal_strlit("\n");
        assert("\n"@ =~= seq!['\n']);
        reveal_strlit("=");
        assert("="@ =~= seq!['=']);
    }
    out.append("rsubdomain 扫描结果报告\n导出时间: ");
    out.append(data.export_time.as_str());
    out.append("\n");
    push_repeat(out, "=", 60);
    out.append("\n\n汇总统计:\n  发现域名总数: ");
    push_num(out, data.summary.total_domains as u64);
    out.append("\n  唯一IP数量: ");
    push_num(out, data.summary.unique_ips.len() as u64);
    out.append("\n  已验证域名: ");
    push_num(out, data.summary.verified_domains as u64);
    out.append("\n  存活域名: ");
    push_num(out, data.summary.alive_domains as u64);
    out.append("\n\n记录类型分布:\n");
    proof {
        assert(out@ =~= old(out)@ + txt_head_chars(*data));
    }
}

/// Appends one record-type count line.
fn push_txt_type_row(out: &mut String, t: &(String, usize))
    ensures
        final(out)@ == old(out)@ + txt_type_row(*t),
{
    proof {
        reveal_strlit("\n");
        assert("\n"@ =~= seq!['\n']);
    }
    out.append("  ");
    out.append(t.0.as_str());
    out.append(": ");
    push_num(out, t.1 as u64);
    out.append("\n");
    proof {
        assert(out@ =~= old(out)@ + txt_type_row(*t));
    }
}

/// Appends the discovery table's heading lines.
fn push_txt_table_head(out: &mut String)
    ensures
        final(out)@ == old(out)@ + txt_table_head_chars(),
{
    proof {
        reveal_strlit(" ");
        reveal_strlit("\n");
        reveal_strlit("-");
        assert(" "@ =~= seq![' ']);
        assert("\n"@ =~= seq!['\n']);
        assert("-"@ =~= seq!['-']);
    }
    out.append("\n发现的域名:\n");
    push_padded(out, "域名", 30);
    out.append(" ");
    push_padded(out, "IP地址", 15);
    out.append(" ");
    push_padded(out, "记录类型", 10);
    out.append(" ");
    push_padded(out, "时间", 20);
    out.append("\n");
    push_repeat(out, "-", 80);
    out.append("\n");
    proof {
        assert(out@ =~= old(out)@ + txt_table_head_chars());
    }
}

/// Appends the probe table's heading lines.
fn push_txt_results_head(out: &mut String)
    ensures
        final(out)@ == old(out)@ + txt_results_head_chars(),
{
    proof {
        reveal_strlit(" ");
        reveal_strlit("\n");
        reveal_strlit("-");
        assert(" "@ =~= seq![' ']);
        assert("\n"@ =~= seq!['\n']);
        assert("-"@ =~= seq!['-']);
    }
    out.append("验证结果:\n");
    push_padded(out, "域名", 30);
    out.append(" ");
    push_padded(out, "IP地址", 15);
    out.append(" ");
    push_padded(out, "HTTP", 6);
    out.append(" ");
    push_padded(out, "HTTPS", 6);
    out.append(" ");
    push_padded(out, "标题", 20);
    out.append(" ");
    push_padded(out, "存活", 10);
    out.append("\n");
    push_repeat(out, "-", 90);
    out.append("\n");
    proof {
        assert(out@ =~= old(out)@ + txt_results_head_chars());
    }
}

/// Appends one discovery as a plain-text table row.
fn push_txt_domain_row(out: &mut String, d: &SerializableDiscoveredDomain)
    ensures
        final(out)@ == old(out)@ + txt_domain_row(*d),
{
    proof {
        reveal_strlit(" ");
        reveal_strlit("\n");
        assert(" "@ =~= seq![' ']);
        assert("\n"@ =~= seq!['\n']);
    }
    push_padded(out, d.domain.as_str(), 30);
    out.append(" ");
    push_padded(out, d.ip.as_str(), 15);
    out.append(" ");
    push_padded(out, d.record_type.as_str(), 10);
    out.append(" ");
    push_padded(out, d.formatted_time.as_str(), 20);
    out.append("\n");
    proof {
        assert(out@ =~= old(out)@ + txt_domain_row(*d));
    }
}

/// Appends one probe outcome as a plain-text table row.
fn push_txt_result_row(out: &mut String, v: &SerializableVerificationResult)
    ensures
        final(out)@ == old(out)@ + txt_result_row(*v),
{
    proof {
        reveal_strlit(" ");
        reveal_strlit("\n");
        assert(" "@ =~= seq![' ']);
        assert("\n"@ =~= seq!['\n']);
    }
    push_padded(out, v.domain.as_str(), 30);
    out.append(" ");
    push_padded(out, v.ip.as_str(), 15);
    out.append(" ");
    let st = status_string(&v.http_status);
    push_padded(out, st.as_str(), 6);
    out.append(" ");
    let st = status_string(&v.https_status);
    push_padded(out, st.as_str(), 6);
    out.append(" ");
    let ti = opt_string(&v.title);
    push_padded(out, ti.as_str(), 20);
    out.append(" ");
    if v.is_alive {
        push_padded(out, "YES", 10);
    } else {
        push_padded(out, "NO", 10);
    }
    out.append("\n");
    proof {
        assert(out@ =~= old(out)@ + txt_result_row(*v));
    }
}

/// Renders one export as a plain-text report.
#[verifier::loop_isolation(false)]
#[verifier::rlimit(60)]
pub fn export_to_txt(data: &ExportData) -> (r: String)
    ensures
        r@ == spec_export_txt(*data),
{
    let mut out = String::new();
    push_txt_head(&mut out, data);
    let ghost base = out@;
    let mut t: usize = 0;
    proof {
        assert(data.summary.record_types@.take(0) =~= Seq::<(String, usize)>::empty());
    }
    while t < data.summary.record_types.len()
        invariant
            0 <= t <= data.summary.record_types@.len(),
            out@ =~= base + concat_map(
                data.summary.record_types@.take(t as int),
                |x: (String, usize)| txt_type_row(x),
            ),
        decreases data.summary.record_types@.len() - t,
    {
        push_txt_type_row(&mut out, &data.summary.record_types[t]);
        proof {
            let items = data.summary.record_types@;
            assert(items.take(t as int + 1).drop_last() =~= items.take(t as int));
            assert(items.take(t as int + 1).last() == items[t as int]);
            lemma_concat_map_snoc(items.take(t as int + 1), |x: (String, usize)| txt_type_row(x));
        }
        t = t + 1;
    }
    proof {
        assert(data.summary.record_types@.take(t as int) =~= data.summary.record_types@);
    }
    push_txt_table_head(&mut out);
    let ghost base2 = out@;
    let mut i: usize = 0;
    proof {
        assert(data.discovered_domains@.take(0) =~= Seq::<SerializableDiscoveredDomain>::empty());
    }
    while i < data.discovered_domains.len()
        invariant
            0 <= i <= data.discovered_domains@.len(),
            out@ =~= base2 + concat_map(
                data.discovered_domains@.take(i as int),
                |d: SerializableDiscoveredDomain| txt_domain_row(d),
            ),
        decreases data.discovered_domains@.len() - i,
    {
        push_txt_domain_row(&mut out, &data.discovered_domains[i]);
        proof {
            let items = data.discovered_domains@;
            assert(items.take(i as int + 1).drop_last() =~= items.take(i as int));
            assert(items.take(i as int + 1).last() == items[i as int]);
            lemma_concat_map_snoc(
                items.take(i as int + 1),
                |d: SerializableDiscoveredDomain| txt_domain_row(d),
            );
        }
        i = i + 1;
    }
    proof {
        assert(data.discovered_domains@.take(i as int) =~= data.discovered_domains@);
        reveal_strlit("\n");
        assert("\n"@ =~= seq!['\n']);
    }
    out.append("\n");
    if data.verification_results.len() > 0 {
        push_txt_results_head(&mut out);
        let ghost base3 = out@;
        let mut k: usize = 0;
        proof {
            assert(data.verification_results@.take(0) =~= Seq::<
                SerializableVerificationResult,
            >::empty());
        }
        while k < data.verification_results.len()
            invariant
                0 <= k <= data.verification_results@.len(),
                out@ =~= base3 + concat_map(
                    data.verification_results@.take(k as int),
                    |v: SerializableVerificationResult| txt_result_row(v),
                ),
            decreases data.verification_results@.len() - k,
        {
            push_txt_result_row(&mut out, &data.verification_results[k]);
            proof {
                let items = data.verification_results@;
                assert(items.take(k as int + 1).drop_last() =~= items.take(k as int));
                assert(items.take(k as int + 1).last() == items[k as int]);
                lemma_concat_map_snoc(
                    items.take(k as int + 1),
                    |v: SerializableVerificationResult| txt_result_row(v),
                );
            }
            k = k + 1;
        }
        proof {
            assert(data.verification_results@.take(k as int) =~= data.verification_results@);
        }
    }
    proof {
        assert(out@ =~= spec_export_txt(*data));
    }
    out
}

/// An optional status code as an owned string.
fn status_string(o: &Option<u16>) -> (r: String)
    ensures
        r@ == status_chars(*o),
{
    match o {
        Some(v) => crate::bytes::u64_to_string(*v as u64),
        None => String::from_str("N/A"),
    }
}

/// An optional text as an owned string, `N/A` for nothing.
fn opt_string(o: &Option<String>) -> (r: String)
    ensures
        r@ == opt_chars(*o),
{
    match o {
        Some(s) => s.clone(),
        None => String::from_str("N/A"),
    }
}

} // verus!
