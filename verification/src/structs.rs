//! The retry command and the scan's progress counters.

use vstd::prelude::*;

verus! {

/// Everything the re-emission path needs for one retry: the exact tuple of
/// the original emission, so no new index is allocated.
#[derive(Debug)]
pub struct RetryStruct {
    /// The name to query again.
    pub domain: String,
    /// The resolver chosen for this retry.
    pub dns: String,
    /// The UDP source port: the slot of the preserved index.
    pub src_port: u16,
    /// The low digits of the transaction id: the sub-tag of the preserved
    /// index.
    pub flag_id: u16,
    /// Domain level of the queried name.
    pub domain_level: usize,
}

/// Coarse progress counters of one scan.
#[derive(Debug, Default)]
pub struct ScanCounters {
    /// Packets received.
    pub recv_index: u8,
    /// Queries given up on.
    pub faild_index: u8,
    /// Queries sent.
    pub send_index: u8,
    /// Queries answered.
    pub success_index: u8,
}

impl ScanCounters {
    /// All counters at zero.
    pub fn new() -> (r: Self)
        ensures
            r.recv_index == 0 && r.faild_index == 0 && r.send_index == 0 && r.success_index == 0,
    {
        ScanCounters { recv_index: 0, faild_index: 0, send_index: 0, success_index: 0 }
    }

    /// Reads the receive counter.
    pub fn get_recv_index(&self) -> (r: u8)
        ensures
            r == self.recv_index,
    {
        self.recv_index
    }

    /// Sets the receive counter.
    pub fn set_recv_index(&mut self, value: u8)
        ensures
            final(self).recv_index == value,
            final(self).faild_index == old(self).faild_index,
            final(self).send_index == old(self).send_index,
            final(self).success_index == old(self).success_index,
    {
        self.recv_index = value;
    }

    /// Reads the failure counter.
    pub fn get_faild_index(&self) -> (r: u8)
        ensures
            r == self.faild_index,
    {
        self.faild_index
    }

    /// Sets the failure counter.
    pub fn set_faild_index(&mut self, value: u8)
        ensures
            final(self).faild_index == value,
            final(self).recv_index == old(self).recv_index,
            final(self).send_index == old(self).send_index,
            final(self).success_index == old(self).success_index,
    {
        self.faild_index = value;
    }

    /// Reads the send counter.
    pub fn get_send_index(&self) -> (r: u8)
        ensures
            r == self.send_index,
    {
        self.send_index
    }

    /// Sets the send counter.
    pub fn set_send_index(&mut self, value: u8)
        ensures
            final(self).send_index == value,
            final(self).recv_index == old(self).recv_index,
            final(self).faild_index == old(self).faild_index,
            final(self).success_index == old(self).success_index,
    {
        self.send_index = value;
    }

    /// Reads the success counter.
    pub fn get_success_index(&self) -> (r: u8)
        ensures
            r == self.success_index,
    {
        self.success_index
    }

    /// Sets the success counter.
    pub fn set_success_index(&mut self, value: u8)
        ensures
            final(self).success_index == value,
            final(self).recv_index == old(self).recv_index,
            final(self).faild_index == old(self).faild_index,
            final(self).send_index == old(self).send_index,
    {
        self.success_index = value;
    }
}

} // verus!
