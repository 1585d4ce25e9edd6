use love_api::profile::{take_draw_profile, DrawCounter, DrawCounters, DrawProfile, ProfileTimer};

#[test]
fn disabled_profiling_counts_nothing() {
    let mut counters = DrawCounters::new(false);
    let timer = ProfileTimer::start(&mut counters, DrawCounter::DrawCalls, DrawCounter::DrawNs, 100);
    timer.finish(&mut counters, 500);
    assert_eq!(counters.current, DrawProfile::zero());
    assert_eq!(take_draw_profile(&mut counters), None);
}

#[test]
fn taking_a_profile_returns_the_counts_and_restarts_them() {
    let mut counters = DrawCounters::new(true);
    for now in [100u64, 1_000] {
        let timer = ProfileTimer::start(&mut counters, DrawCounter::LineCalls, DrawCounter::LineNs, now);
        timer.finish(&mut counters, now + 250);
    }
    let profile = take_draw_profile(&mut counters).unwrap();
    assert_eq!(profile.line_calls, 2);
    assert_eq!(profile.line_ns, 500);
    assert_eq!(profile.draw_calls, 0);
    assert_eq!(take_draw_profile(&mut counters), Some(DrawProfile::zero()));
}
