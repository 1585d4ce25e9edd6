use vstd::prelude::*;

verus! {

/// Ten seconds, in nanoseconds: the span a cadence report covers at least.
pub const REPORT_PERIOD_NS: u64 = 10_000_000_000;

/// Output cadence of the audio mixer, with instants given in nanoseconds of a monotonic clock.
pub struct Cadence {
    pub started: Option<u64>,
    pub frames: usize,
    pub max_mix: u64,
    pub max_write: u64,
}

/// Frames written over an elapsed span, with the longest mix and the longest output wait of
/// any block in it.
#[derive(Clone, Copy, Debug, PartialEq, Eq, Structural)]
pub struct CadenceReport {
    pub frames: usize,
    pub elapsed_ns: u64,
    pub max_mix_ns: u64,
    pub max_write_ns: u64,
}

/// `later - earlier`, or zero where `later` comes first.
pub open spec fn since(later: u64, earlier: u64) -> u64 {
    if later >= earlier { (later - earlier) as u64 } else { 0 }
}

pub open spec fn max_u64(a: u64, b: u64) -> u64 {
    if a >= b { a } else { b }
}

impl Default for Cadence {
    fn default() -> (c: Self)
        ensures
            c.started is None && c.frames == 0 && c.max_mix == 0 && c.max_write == 0,
    {
        Cadence { started: None, frames: 0, max_mix: 0, max_write: 0 }
    }
}

impl Cadence {
    /// Forgets everything recorded, as after deliberate idle time.
    pub fn reset(&mut self)
        ensures
            final(self).started is None,
            final(self).frames == 0,
            final(self).max_mix == 0,
            final(self).max_write == 0,
    {
        *self = Self::default();
    }

    /// Records one block that started mixing at `start`, finished mixing at `mixed` and was
    /// written at `written`. Once ten seconds have passed since the first block recorded, it
    /// returns the report and starts the next span at `written`.
    pub fn record(&mut self, start: u64, mixed: u64, written: u64, frames: usize) -> (report: Option<CadenceReport>)
        requires
            old(self).frames + frames <= usize::MAX,
        ensures
            ({
                let started = match old(self).started {
                    Some(s) => s,
                    None => start,
                };
                let total = (old(self).frames + frames) as usize;
                let max_mix = max_u64(old(self).max_mix, since(mixed, start));
                let max_write = max_u64(old(self).max_write, since(written, mixed));
                let elapsed = since(written, started);
                if elapsed < REPORT_PERIOD_NS {
                    &&& report is None
                    &&& final(self).started == Some(started)
                    &&& final(self).frames == total
                    &&& final(self).max_mix == max_mix
                    &&& final(self).max_write == max_write
                } else {
                    &&& report == Some(
                        CadenceReport { frames: total, elapsed_ns: elapsed, max_mix_ns: max_mix, max_write_ns: max_write },
                    )
                    &&& final(self).started == Some(written)
                    &&& final(self).frames == 0
                    &&& final(self).max_mix == 0
                    &&& final(self).max_write == 0
                }
            }),
    {
        let started = match self.started {
            Some(s) => s,
            None => {
                self.started = Some(start);
                start
            },
        };
        self.frames += frames;
        let mix = if mixed >= start { mixed - start } else { 0 };
        let write = if written >= mixed { written - mixed } else { 0 };
        if mix > self.max_mix {
            self.max_mix = mix;
        }
        if write > self.max_write {
            self.max_write = write;
        }
        let elapsed = if written >= started { written - started } else { 0 };
        if elapsed < REPORT_PERIOD_NS {
            return None;
        }
        let report = CadenceReport {
            frames: self.frames,
            elapsed_ns: elapsed,
            max_mix_ns: self.max_mix,
            max_write_ns: self.max_write,
        };
        self.reset();
        self.started = Some(written);
        Some(report)
    }
}

} // verus!
