//! The bandwidth pacer and the speed-test result arithmetic.

use vstd::prelude::*;

verus! {

/// One wall-clock window of the pacer, in milliseconds.
pub const WINDOW_MS: u64 = 1000;

/// The outcome of a speed test: averaged packet and byte rates.
#[derive(Debug)]
pub struct SpeedTestResult {
    /// Packets sent per second.
    pub send_rate: u64,
    /// Packets received per second.
    pub recv_rate: u64,
    /// Bytes sent per second.
    pub bandwidth_usage: u64,
}

/// Averages raw counters over the elapsed seconds; a zero duration counts
/// as one second.
pub fn compute_speed_result(sent: u64, recv: u64, bytes: u64, elapsed_secs: u64) -> (r:
    SpeedTestResult)
    ensures
        ({
            let e = if elapsed_secs == 0 {
                1u64
            } else {
                elapsed_secs
            };
            &&& r.send_rate == sent / e
            &&& r.recv_rate == recv / e
            &&& r.bandwidth_usage == bytes / e
        }),
{
    let e = if elapsed_secs == 0 {
        1
    } else {
        elapsed_secs
    };
    SpeedTestResult { send_rate: sent / e, recv_rate: recv / e, bandwidth_usage: bytes / e }
}

/// The byte budget of one scan: so many bytes each wall-clock second, a
/// running count of what this second has consumed, and when the current
/// second began.
#[derive(Debug)]
pub struct BandwidthLimiter {
    /// The budget: bytes admitted per second.
    pub max_bytes_per_sec: u64,
    /// Bytes admitted in the current window.
    pub bytes_sent: u64,
    /// When the current window began, in epoch milliseconds.
    pub window_start_ms: u64,
}

/// The pacer's books balance: what the window has consumed never exceeds
/// the budget.
pub open spec fn limiter_wf(b: BandwidthLimiter) -> bool {
    b.bytes_sent <= b.max_bytes_per_sec
}

/// One admission decision, as a pure function of the pacer and the clock:
/// a window older than one second is closed and a fresh one opened at
/// `now`, then the packet is admitted exactly when the window still has
/// room for it below the budget.
pub open spec fn spec_admit(b: BandwidthLimiter, size: u64, now_ms: u64) -> (
    BandwidthLimiter,
    bool,
) {
    let w = if now_ms >= b.window_start_ms + WINDOW_MS {
        BandwidthLimiter {
            max_bytes_per_sec: b.max_bytes_per_sec,
            bytes_sent: 0,
            window_start_ms: now_ms,
        }
    } else {
        b
    };
    if w.bytes_sent + size < w.max_bytes_per_sec {
        (
            BandwidthLimiter {
                max_bytes_per_sec: w.max_bytes_per_sec,
                bytes_sent: (w.bytes_sent + size) as u64,
                window_start_ms: w.window_start_ms,
            },
            true,
        )
    } else {
        (w, false)
    }
}

impl BandwidthLimiter {
    /// A fresh pacer with the given budget; the first call opens the first
    /// window.
    pub fn new(max_bytes_per_sec: u64) -> (r: Self)
        ensures
            r.max_bytes_per_sec == max_bytes_per_sec,
            r.bytes_sent == 0,
            r.window_start_ms == 0,
            limiter_wf(r),
    {
        BandwidthLimiter { max_bytes_per_sec, bytes_sent: 0, window_start_ms: 0 }
    }

    /// Asks to send `packet_size` bytes at `now_ms`: `true` accounts the
    /// bytes against the current window and admits the packet, `false`
    /// denies this attempt (the caller sleeps briefly and may ask again).
    pub fn can_send(&mut self, packet_size: u64, now_ms: u64) -> (r: bool)
        requires
            limiter_wf(*old(self)),
        ensures
            (*final(self), r) == spec_admit(*old(self), packet_size, now_ms),
            limiter_wf(*final(self)),
    {
        if now_ms >= self.window_start_ms && now_ms - self.window_start_ms >= WINDOW_MS {
            self.bytes_sent = 0;
            self.window_start_ms = now_ms;
        }
        if packet_size < self.max_bytes_per_sec && self.bytes_sent < self.max_bytes_per_sec
            - packet_size {
            self.bytes_sent = self.bytes_sent + packet_size;
            true
        } else {
            false
        }
    }
}

/// The pacer's one-second law: within one window — no request observes a
/// clock one second past the window's start — the admitted requests
/// consume exactly the growth of the byte count, so everything admitted in
/// the window sums to at most the budget.
pub open spec fn run_bucket(b: BandwidthLimiter, reqs: Seq<(u64, u64)>) -> (BandwidthLimiter, int)
    decreases reqs.len(),
{
    if reqs.len() == 0 {
        (b, 0)
    } else {
        let step = spec_admit(b, reqs[0].0, reqs[0].1);
        let rest = run_bucket(step.0, reqs.skip(1));
        (
            rest.0,
            rest.1 + if step.1 {
                reqs[0].0 as int
            } else {
                0
            },
        )
    }
}

/// In any run of requests whose clocks stay inside the pacer's current
/// window, the admitted byte counts sum to at most the budget minus what
/// the window had already consumed — so never more than the budget.
pub proof fn lemma_window_budget(b: BandwidthLimiter, reqs: Seq<(u64, u64)>)
    requires
        limiter_wf(b),
        forall|i: int|
            0 <= i < reqs.len() ==> b.window_start_ms <= (#[trigger] reqs[i]).1
                < b.window_start_ms + WINDOW_MS,
    ensures
        run_bucket(b, reqs).1 <= b.max_bytes_per_sec - b.bytes_sent,
        run_bucket(b, reqs).1 >= 0,
    decreases reqs.len(),
{
    if reqs.len() > 0 {
        let step = spec_admit(b, reqs[0].0, reqs[0].1);
        assert(step.0.window_start_ms == b.window_start_ms);
        assert(step.0.max_bytes_per_sec == b.max_bytes_per_sec);
        assert forall|i: int|
            0 <= i < reqs.skip(1).len() implies step.0.window_start_ms <= (#[trigger] reqs.skip(
            1,
        )[i]).1 < step.0.window_start_ms + WINDOW_MS by {
            assert(reqs.skip(1)[i] == reqs[i + 1]);
        }
        lemma_window_budget(step.0, reqs.skip(1));
    }
}

} // verus!
