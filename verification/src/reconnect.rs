use vstd::prelude::*;

verus! {

/// The first wait before restarting a helper that stopped taking audio, in nanoseconds.
pub const RETRY_DELAY_NS: u64 = 500_000_000;

/// The longest wait between restarts, in nanoseconds.
pub const MAX_RETRY_DELAY_NS: u64 = 5_000_000_000;

/// Bytes a connection has to take (one second of stereo 16-bit audio at 44.1 kHz) before
/// the wait between restarts goes back to the first one.
pub const RECOVERED_BYTES: usize = 44_100 * 4;

/// When the audio helper may next be restarted, with instants in nanoseconds of a monotonic
/// clock.
#[derive(Clone, Copy, Debug, PartialEq, Eq)]
pub struct RetrySchedule {
    pub retry_at: u64,
    pub retry_delay: u64,
}

pub open spec fn min_u64(a: u64, b: u64) -> u64 {
    if a <= b { a } else { b }
}

impl RetrySchedule {
    /// The wait between restarts stays between its first and its longest value.
    pub open spec fn wf(&self) -> bool {
        RETRY_DELAY_NS <= self.retry_delay <= MAX_RETRY_DELAY_NS
    }

    /// The schedule of a helper started at `now`.
    pub fn new(now: u64) -> (s: Self)
        ensures
            s.wf(),
            s.retry_at == now,
            s.retry_delay == RETRY_DELAY_NS,
    {
        RetrySchedule { retry_at: now, retry_delay: RETRY_DELAY_NS }
    }

    /// Whether to try starting the helper before a write at `now`: only while disconnected,
    /// and not before the wait is over.
    pub fn should_reconnect(&self, connected: bool, now: u64) -> (r: bool)
        ensures
            r == (!connected && now >= self.retry_at),
    {
        !connected && now >= self.retry_at
    }

    /// The helper was lost at `now`: wait the current delay, and double the next one up to
    /// the longest.
    pub fn disconnected(&mut self, now: u64)
        requires
            old(self).wf(),
            now + old(self).retry_delay <= u64::MAX,
        ensures
            final(self).wf(),
            final(self).retry_at == now + old(self).retry_delay,
            final(self).retry_delay == min_u64((2 * old(self).retry_delay) as u64, MAX_RETRY_DELAY_NS),
    {
        self.retry_at = now + self.retry_delay;
        let doubled = self.retry_delay * 2;
        self.retry_delay = if doubled <= MAX_RETRY_DELAY_NS { doubled } else { MAX_RETRY_DELAY_NS };
    }

    /// A write went through on a connection that has taken `bytes_written` bytes: once that
    /// is a second of audio the wait goes back to the first one. Returns whether the output
    /// recovered from a longer wait.
    pub fn wrote(&mut self, bytes_written: usize) -> (recovered: bool)
        requires
            old(self).wf(),
        ensures
            final(self).wf(),
            final(self).retry_at == old(self).retry_at,
            bytes_written >= RECOVERED_BYTES ==> final(self).retry_delay == RETRY_DELAY_NS && recovered
                == (old(self).retry_delay > RETRY_DELAY_NS),
            bytes_written < RECOVERED_BYTES ==> final(self).retry_delay == old(self).retry_delay && !recovered,
    {
        if bytes_written >= RECOVERED_BYTES {
            let recovered = self.retry_delay > RETRY_DELAY_NS;
            self.retry_delay = RETRY_DELAY_NS;
            return recovered;
        }
        false
    }
}

/// The wait after `n` failures in a row from the first one: doubling, up to the longest.
pub open spec fn delay_after(n: nat) -> u64
    decreases n,
{
    if n == 0 {
        RETRY_DELAY_NS
    } else {
        min_u64((2 * delay_after((n - 1) as nat)) as u64, MAX_RETRY_DELAY_NS)
    }
}

/// After `n` failed restarts in a row the wait is `min(0.5 s * 2^n, 5 s)`: it reaches the
/// longest wait after four failures and stays there.
pub proof fn law_backoff_is_capped(n: nat)
    ensures
        RETRY_DELAY_NS <= delay_after(n) <= MAX_RETRY_DELAY_NS,
        n >= 4 ==> delay_after(n) == MAX_RETRY_DELAY_NS,
    decreases n,
{
    reveal_with_fuel(delay_after, 5);
    if n > 0 {
        law_backoff_is_capped((n - 1) as nat);
    }
    if n > 4 {
        law_backoff_is_capped((n - 1) as nat);
    }
}

} // verus!
