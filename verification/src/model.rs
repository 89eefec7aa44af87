//! Plain data carried through the scan.

use vstd::prelude::*;

verus! {

/// The layer-2 binding of one scan: source IPv4 address, interface name, and
/// the two MAC addresses that frame every outgoing packet. Fixed for the
/// life of a scan.
#[derive(Debug)]
pub struct EthTable {
    /// Source IPv4 address, one octet per entry.
    pub src_ip: [u8; 4],
    /// Interface name the scan is bound to.
    pub device: String,
    /// MAC address of the interface.
    pub src_mac: [u8; 6],
    /// MAC address of the next hop.
    pub dst_mac: [u8; 6],
}

/// One in-flight query: what was asked, whom, when, how often it was retried,
/// and the domain-depth hint for the retry policy.
#[derive(Debug)]
pub struct StatusTable {
    /// Fully qualified name being queried.
    pub domain: String,
    /// Resolver the query was last sent to, as a dotted quad.
    pub dns: String,
    /// Epoch seconds of the last emission.
    pub time: u64,
    /// Retries so far; a fresh query starts at zero.
    pub retry: isize,
    /// Domain level of the queried name.
    pub domain_level: isize,
}

impl Clone for EthTable {
    /// A cloned binding equals the original, field for field.
    fn clone(&self) -> (r: Self)
        ensures
            r == *self,
    {
        EthTable {
            src_ip: self.src_ip,
            device: self.device.clone(),
            src_mac: self.src_mac,
            dst_mac: self.dst_mac,
        }
    }
}

impl Clone for StatusTable {
    /// A cloned record equals the original, field for field.
    fn clone(&self) -> (r: Self)
        ensures
            r == *self,
    {
        StatusTable {
            domain: self.domain.clone(),
            dns: self.dns.clone(),
            time: self.time,
            retry: self.retry,
            domain_level: self.domain_level,
        }
    }
}

} // verus!
