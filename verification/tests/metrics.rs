use love_api::metrics::AudioMetrics;

const MS: u64 = 1_000_000;

#[test]
fn disabled_metrics_record_nothing() {
    let mut metrics = AudioMetrics::new(false, 0);
    assert!(metrics.record(10_000 * MS, MS, 0, 0, 3, 0, 0).is_none());
    assert_eq!(metrics.current.blocks, 0);
}

#[test]
fn metrics_report_every_five_seconds_and_count_late_blocks() {
    let mut metrics = AudioMetrics::new(true, 0);
    assert!(metrics.record(1_000 * MS, 5 * MS, MS, 2 * MS, 4, 1, 0).is_none());
    assert!(metrics.record(2_000 * MS, 6 * MS, MS, 0, 2, 3, 1).is_none());
    let report = metrics.record(5_000 * MS, 2 * MS, 0, 0, 1, 0, 0).unwrap();
    assert_eq!(report.blocks, 3);
    assert_eq!(report.late, 1);
    assert_eq!(report.work_ns, 13 * MS);
    assert_eq!(report.commands_ns, 2 * MS);
    assert_eq!(report.decode_ns, 2 * MS);
    assert_eq!(report.max_work_ns, 6 * MS);
    assert_eq!((report.voices, report.silent_streams, report.subnormal_volumes), (4, 3, 1));
    assert_eq!(metrics.current.blocks, 0);
    assert_eq!(metrics.started, 5_000 * MS);
}

#[test]
fn work_just_over_a_block_is_late() {
    let mut metrics = AudioMetrics::new(true, 0);
    // 256 frames at 44.1 kHz last 5804988.6... ns.
    metrics.record(1, 5_804_988, 0, 0, 0, 0, 0);
    metrics.record(2, 5_804_989, 0, 0, 0, 0, 0);
    assert_eq!(metrics.current.late, 1);
}
