//! The caller-facing configuration and result types of one scan.

use vstd::prelude::*;
use vstd::string::StringExecFns;

verus! {

/// Everything a scan can be configured with; unset options fall back to
/// the defaults.
#[derive(Debug)]
pub struct SubdomainBruteConfig {
    /// Target domains.
    pub domains: Vec<String>,
    /// Resolvers to query; the built-in set when empty.
    pub resolvers: Vec<String>,
    /// Path of a dictionary file.
    pub dictionary_file: Option<String>,
    /// In-memory dictionary; takes precedence over the file.
    pub dictionary: Option<Vec<String>>,
    /// Probe for wildcard DNS and drop its phantom answers.
    pub skip_wildcard: bool,
    /// Bandwidth budget, as a human string such as `3M`.
    pub bandwidth_limit: Option<String>,
    /// Probe discovered names over HTTP and HTTPS afterwards.
    pub verify_mode: bool,
    /// Look up the records of discovered names afterwards.
    pub resolve_records: bool,
    /// Print only bare names.
    pub silent: bool,
    /// Interface to bind, when chosen by hand.
    pub device: Option<String>,
}

impl Default for SubdomainBruteConfig {
    /// The default scan: no targets yet, built-in resolvers and
    /// dictionary, wildcard filtering on, a three-megabyte budget, no
    /// probing, full output, automatic interface choice.
    fn default() -> (r: Self)
        ensures
            r.domains@.len() == 0,
            r.resolvers@.len() == 0,
            r.dictionary_file is None,
            r.dictionary is None,
            r.skip_wildcard,
            r.bandwidth_limit matches Some(b) && b@ == "3M"@,
            !r.verify_mode,
            !r.resolve_records,
            !r.silent,
            r.device is None,
    {
        SubdomainBruteConfig {
            domains: Vec::new(),
            resolvers: Vec::new(),
            dictionary_file: None,
            dictionary: None,
            skip_wildcard: true,
            bandwidth_limit: Some(String::from_str("3M")),
            verify_mode: false,
            resolve_records: false,
            silent: false,
            device: None,
        }
    }
}

/// The liveness probe outcome for one name.
#[derive(Debug)]
pub struct VerifyResult {
    /// The probed name.
    pub domain: String,
    /// HTTP status, when the plain request got an answer.
    pub http_status: Option<u16>,
    /// HTTPS status, when the TLS request got an answer.
    pub https_status: Option<u16>,
    /// Whether the plain probe found the name alive.
    pub http_alive: bool,
    /// Whether the TLS probe found the name alive.
    pub https_alive: bool,
    /// Where a redirect pointed, when one came back.
    pub redirect_url: Option<String>,
    /// The server header, when one was present.
    pub server_header: Option<String>,
    /// The page title, when one was read.
    pub title: Option<String>,
}

impl Clone for VerifyResult {
    /// A cloned outcome equals the original, field for field.
    fn clone(&self) -> (r: Self)
        ensures
            r == *self,
    {
        VerifyResult {
            domain: self.domain.clone(),
            http_status: self.http_status,
            https_status: self.https_status,
            http_alive: self.http_alive,
            https_alive: self.https_alive,
            redirect_url: clone_opt(&self.redirect_url),
            server_header: clone_opt(&self.server_header),
            title: clone_opt(&self.title),
        }
    }
}

/// A copy of an optional string, equal to the original.
pub fn clone_opt(o: &Option<String>) -> (r: Option<String>)
    ensures
        r == *o,
{
    match o {
        Some(s) => Some(s.clone()),
        None => None,
    }
}

/// One record seen for a name during post-scan record lookup.
#[derive(Debug)]
pub enum DnsRecord {
    /// IPv4 address.
    A(String),
    /// IPv6 address.
    AAAA(String),
    /// Alias target.
    CNAME(String),
    /// Name server.
    NS(String),
    /// Mail exchanger: priority and host.
    MX(u16, String),
    /// Text record.
    TXT(String),
    /// Start of authority: primary server and contact.
    SOA(String),
    /// Pointer record.
    PTR(String),
}

impl Clone for DnsRecord {
    /// A cloned record equals the original.
    fn clone(&self) -> (r: Self)
        ensures
            r == *self,
    {
        match self {
            DnsRecord::A(s) => DnsRecord::A(s.clone()),
            DnsRecord::AAAA(s) => DnsRecord::AAAA(s.clone()),
            DnsRecord::CNAME(s) => DnsRecord::CNAME(s.clone()),
            DnsRecord::NS(s) => DnsRecord::NS(s.clone()),
            DnsRecord::MX(p, s) => DnsRecord::MX(*p, s.clone()),
            DnsRecord::TXT(s) => DnsRecord::TXT(s.clone()),
            DnsRecord::SOA(s) => DnsRecord::SOA(s.clone()),
            DnsRecord::PTR(s) => DnsRecord::PTR(s.clone()),
        }
    }
}

/// The records found for one name, grouped by record-type label, in the
/// order the lookups answered.
#[derive(Debug)]
pub struct DnsResolveResult {
    /// The looked-up name.
    pub domain: String,
    /// For each record-type label, the records of that type.
    pub records: Vec<(String, Vec<DnsRecord>)>,
    /// Whether any record was found.
    pub has_records: bool,
}

/// One entry of a finished scan's result list.
#[derive(Debug)]
pub struct SubdomainResult {
    /// The discovered name.
    pub domain: String,
    /// The record text it was discovered with.
    pub ip: String,
    /// The record type of the discovery.
    pub record_type: String,
    /// The probe outcome, when probing ran.
    pub verified: Option<VerifyResult>,
    /// The record lookup outcome, when lookup ran.
    pub dns_records: Option<DnsResolveResult>,
}

} // verus!
