use vstd::prelude::*;

verus! {

/// Frames the mixer produces per block.
pub const MIX_FRAMES: u64 = 256;

/// Output sample rate.
pub const OUTPUT_RATE: u64 = 44_100;

/// The span a statistics report covers at least, in nanoseconds.
pub const STATS_PERIOD_NS: u64 = 5_000_000_000;

/// Mixer statistics over a span: blocks mixed, blocks whose work took longer than the audio
/// they produced, summed and longest times (nanoseconds), and peak counts.
#[derive(Clone, Copy, Debug, PartialEq, Eq)]
pub struct MetricsReport {
    pub blocks: usize,
    pub late: usize,
    pub work_ns: u64,
    pub commands_ns: u64,
    pub decode_ns: u64,
    pub max_work_ns: u64,
    pub voices: usize,
    pub silent_streams: usize,
    pub subnormal_volumes: usize,
}

/// Mixer statistics being gathered, when enabled, since `started` (nanoseconds of a
/// monotonic clock).
pub struct AudioMetrics {
    pub enabled: bool,
    pub started: u64,
    pub current: MetricsReport,
}

pub open spec fn max_usize(a: usize, b: usize) -> usize {
    if a >= b { a } else { b }
}

pub open spec fn max_u64(a: u64, b: u64) -> u64 {
    if a >= b { a } else { b }
}

/// Work on a block is late when it takes longer than the block plays: `MIX_FRAMES /
/// OUTPUT_RATE` seconds.
pub open spec fn is_late(work_ns: u64) -> bool {
    work_ns * OUTPUT_RATE > MIX_FRAMES * 1_000_000_000
}

pub open spec fn empty_report() -> MetricsReport {
    MetricsReport {
        blocks: 0,
        late: 0,
        work_ns: 0,
        commands_ns: 0,
        decode_ns: 0,
        max_work_ns: 0,
        voices: 0,
        silent_streams: 0,
        subnormal_volumes: 0,
    }
}

/// The statistics after one more block.
pub open spec fn with_block(
    r: MetricsReport,
    work: u64,
    commands: u64,
    decode: u64,
    voices: usize,
    silent_streams: usize,
    subnormal_volumes: usize,
) -> MetricsReport {
    MetricsReport {
        blocks: (r.blocks + 1) as usize,
        late: (r.late + if is_late(work) { 1int } else { 0int }) as usize,
        work_ns: (r.work_ns + work) as u64,
        commands_ns: (r.commands_ns + commands) as u64,
        decode_ns: (r.decode_ns + decode) as u64,
        max_work_ns: max_u64(r.max_work_ns, work),
        voices: max_usize(r.voices, voices),
        silent_streams: max_usize(r.silent_streams, silent_streams),
        subnormal_volumes: max_usize(r.subnormal_volumes, subnormal_volumes),
    }
}

impl AudioMetrics {
    /// No more blocks are late than were mixed.
    pub open spec fn wf(&self) -> bool {
        self.current.late <= self.current.blocks
    }

    /// Statistics starting at `now`, gathered only when `enabled`.
    pub fn new(enabled: bool, now: u64) -> (m: Self)
        ensures
            m.wf(),
            m.enabled == enabled,
            m.started == now,
            m.current == empty_report(),
    {
        AudioMetrics {
            enabled,
            started: now,
            current: MetricsReport {
                blocks: 0,
                late: 0,
                work_ns: 0,
                commands_ns: 0,
                decode_ns: 0,
                max_work_ns: 0,
                voices: 0,
                silent_streams: 0,
                subnormal_volumes: 0,
            },
        }
    }

    /// Records a mixed block at `now`. When enabled and five seconds have passed since the
    /// span started, returns the span's statistics and starts the next span at `now`.
    pub fn record(
        &mut self,
        now: u64,
        work: u64,
        commands: u64,
        decode: u64,
        voices: usize,
        silent_streams: usize,
        subnormal_volumes: usize,
    ) -> (report: Option<MetricsReport>)
        requires
            old(self).wf(),
            old(self).current.blocks < usize::MAX,
            old(self).current.work_ns + work <= u64::MAX,
            old(self).current.commands_ns + commands <= u64::MAX,
            old(self).current.decode_ns + decode <= u64::MAX,
        ensures
            final(self).wf(),
            final(self).enabled == old(self).enabled,
            !old(self).enabled ==> report is None && final(self).current == old(self).current
                && final(self).started == old(self).started,
            old(self).enabled ==> ({
                let next = with_block(old(self).current, work, commands, decode, voices, silent_streams, subnormal_volumes);
                if now >= old(self).started && now - old(self).started >= STATS_PERIOD_NS {
                    &&& report == Some(next)
                    &&& final(self).current == empty_report()
                    &&& final(self).started == now
                } else {
                    &&& report is None
                    &&& final(self).current == next
                    &&& final(self).started == old(self).started
                }
            }),
    {
        if !self.enabled {
            return None;
        }
        // `work * OUTPUT_RATE > MIX_FRAMES * 10^9` exactly when `work` is over the quotient,
        // 5_804_988, which cannot overflow.
        let late = work > 5_804_988;
        assert(late == is_late(work));
        let c = self.current;
        let next = MetricsReport {
            blocks: c.blocks + 1,
            late: if late { c.late + 1 } else { c.late },
            work_ns: c.work_ns + work,
            commands_ns: c.commands_ns + commands,
            decode_ns: c.decode_ns + decode,
            max_work_ns: if c.max_work_ns >= work { c.max_work_ns } else { work },
            voices: if c.voices >= voices { c.voices } else { voices },
            silent_streams: if c.silent_streams >= silent_streams { c.silent_streams } else { silent_streams },
            subnormal_volumes: if c.subnormal_volumes >= subnormal_volumes {
                c.subnormal_volumes
            } else {
                subnormal_volumes
            },
        };
        if now >= self.started && now - self.started >= STATS_PERIOD_NS {
            self.started = now;
            self.current = MetricsReport {
                blocks: 0,
                late: 0,
                work_ns: 0,
                commands_ns: 0,
                decode_ns: 0,
                max_work_ns: 0,
                voices: 0,
                silent_streams: 0,
                subnormal_volumes: 0,
            };
            Some(next)
        } else {
            self.current = next;
            None
        }
    }
}

} // verus!
