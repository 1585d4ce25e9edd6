use love_api::render_waits::{RenderWaits, CAPACITY};

const MS: u64 = 1_000_000;

#[test]
fn waits_are_grouped_by_file_and_line() {
    let mut waits = RenderWaits::new();
    waits.record("draw.rs", 7, 3 * MS);
    waits.record("draw.rs", 7, 5 * MS);
    waits.record("draw.rs", 8, 2 * MS);
    waits.record("present.rs", 7, MS);
    assert_eq!(waits.entry(0).calls, 2);
    assert_eq!(waits.entry(0).elapsed_ns, 8 * MS);
    assert_eq!(waits.entry(0).longest_ns, 5 * MS);
    assert_eq!(waits.entry(1).calls, 1);
    assert_eq!(waits.entry(2).calls, 1);
    assert_eq!(waits.dropped(), 0);
}

#[test]
fn a_full_report_keeps_existing_callers() {
    let mut waits = RenderWaits::new();
    for line in 0..CAPACITY as u32 + 2 {
        waits.record("draw.rs", line, MS);
    }
    waits.record("draw.rs", 0, 4 * MS);
    assert_eq!(waits.dropped(), 2);
    assert_eq!(waits.entry(0).calls, 2);
    assert_eq!(waits.entry(0).elapsed_ns, 5 * MS);
    assert_eq!(waits.entry(CAPACITY - 1).calls, 1);
}

#[test]
fn report_lists_only_used_slots_in_order() {
    let mut waits = RenderWaits::new();
    assert!(waits.active().is_empty());
    waits.record("a.rs", 1, MS);
    waits.record("b.rs", 2, 2 * MS);
    let active = waits.active();
    assert_eq!(active.len(), 2);
    assert_eq!((active[0].file, active[0].line), ("a.rs", 1));
    assert_eq!((active[1].file, active[1].line, active[1].elapsed_ns), ("b.rs", 2, 2 * MS));
}
