use framewatch::debounce::DebounceRisingEdge;

/// Cooldown of five seconds: a true at t=0 fires, trues during the cooldown
/// do not, and a true after the cooldown has passed since the last accepted
/// edge fires again.
#[test]
fn cooldown_scenario() {
    let mut d = DebounceRisingEdge::new();
    assert!(d.feed(true, 0));
    assert!(!d.feed(true, 1_000));
    assert!(!d.feed(true, 2_000));
    assert!(!d.feed(true, 3_000));
    assert!(!d.feed(true, 4_000));
    assert!(d.feed(true, 6_000));
}

/// A false sample never fires and does not move the cooldown: after an edge
/// at t=0, falses change nothing and the next true exactly one period later
/// is accepted.
#[test]
fn false_never_fires() {
    let mut d = DebounceRisingEdge::new();
    assert!(!d.feed(false, 0));
    assert!(!d.feed(false, 100));
    assert!(d.feed(true, 200));
    assert!(!d.feed(false, 3_000));
    assert!(!d.feed(false, 5_100));
    assert!(d.feed(true, 5_200));
}

/// A suppressed true does not extend the cooldown: the period is measured
/// from the last accepted edge.
#[test]
fn suppressed_true_does_not_extend() {
    let mut d = DebounceRisingEdge::new();
    assert!(d.feed(true, 0));
    assert!(!d.feed(true, 4_999));
    assert!(d.feed(true, 5_000));
}

/// The very first true after construction always fires, whatever the clock
/// reads.
#[test]
fn first_true_fires() {
    let mut d = DebounceRisingEdge::new();
    assert!(!d.feed(false, 3));
    assert!(d.feed(true, 4));
}

/// A caller-chosen cooldown period is honoured exactly.
#[test]
fn custom_period() {
    let mut d = DebounceRisingEdge::with_period(10);
    assert!(d.feed(true, 0));
    assert!(!d.feed(true, 9));
    assert!(d.feed(true, 10));
    assert!(!d.feed(true, 19));
    assert!(d.feed(true, 20));
}
