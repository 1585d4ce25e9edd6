use love_api::cadence::{Cadence, CadenceReport};

const MS: u64 = 1_000_000;

fn block(cadence: &mut Cadence, at: u64, duration: u64) -> Option<CadenceReport> {
    cadence.record(at, at + MS, at + duration, 441)
}

fn frames_per_second(report: &CadenceReport) -> f64 {
    report.frames as f64 / (report.elapsed_ns as f64 / 1e9)
}

#[test]
fn reports_sample_cadence_and_separates_mixing_from_output_wait() {
    let start = 5_000 * MS;
    let period = 10 * MS;
    let mut cadence = Cadence::default();
    for i in 0..999 {
        assert!(block(&mut cadence, start + period * i, period).is_none());
    }
    let report = block(&mut cadence, start + period * 999, period).unwrap();
    assert_eq!(frames_per_second(&report), 44_100.0);
    assert_eq!(report.max_mix_ns, MS);
    assert_eq!(report.max_write_ns, 9 * MS);
    for i in 0..499 {
        assert!(block(&mut cadence, start + 10_000 * MS + period * i * 2, period * 2).is_none());
    }
    let report = block(&mut cadence, start + 19_980 * MS, period * 2).unwrap();
    assert_eq!(frames_per_second(&report), 22_050.0);
}

#[test]
fn deliberate_idle_time_is_not_reported_as_slow_playback() {
    let start = 5_000 * MS;
    let mut cadence = Cadence::default();
    block(&mut cadence, start, 10 * MS);
    cadence.reset();
    assert!(block(&mut cadence, start + 60_000 * MS, 10 * MS).is_none());
}
