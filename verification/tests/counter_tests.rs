use framewatch::counter::EventRateCounter;

/// After the first feed the window holds the seed and the new timestamp.
#[test]
fn window_keeps_two() {
    let mut c = EventRateCounter::new(0);
    assert_eq!(c.count(), 1);
    c.feed(10);
    assert_eq!(c.count(), 2);
    assert_eq!(c.total_duration(), 10);
}

/// With at least two distinct timestamps the rate is defined and positive.
#[test]
fn rate_positive_after_distinct_feeds() {
    let mut c = EventRateCounter::new(0);
    c.feed(500);
    c.feed(1_000);
    assert_eq!(c.count(), 3);
    assert_eq!(c.total_duration(), 1_000);
    let rate = c.get_event_rate_milli_per_second().unwrap();
    assert_eq!(rate, 3_000);
    assert!(rate > 0);
}

/// With all timestamps equal the span is zero and no rate is defined.
#[test]
fn rate_none_when_all_equal() {
    let mut c = EventRateCounter::new(5);
    c.feed(5);
    assert_eq!(c.total_duration(), 0);
    assert!(c.get_event_rate_milli_per_second().is_none());
}

/// Two timestamps always stay, even when their span exceeds the window.
#[test]
fn eviction_never_drops_below_two() {
    let mut c = EventRateCounter::new(0);
    c.feed(70_000);
    assert_eq!(c.count(), 2);
    assert_eq!(c.total_duration(), 70_000);
    c.feed(140_000);
    assert_eq!(c.count(), 2);
    assert_eq!(c.total_duration(), 70_000);
}

/// Old timestamps leave the window once the span reaches one minute.
#[test]
fn eviction_respects_window() {
    let mut c = EventRateCounter::new(0);
    c.feed(10_000);
    c.feed(20_000);
    c.feed(30_000);
    assert_eq!(c.count(), 4);
    c.feed(61_000);
    assert_eq!(c.count(), 4);
    assert_eq!(c.total_duration(), 51_000);
}
