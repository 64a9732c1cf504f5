use simulation::time::{Duration, Instant, MockClock};

#[test]
fn duration_constructors_count_nanoseconds() {
    assert_eq!(Duration::zero().as_nanos(), 0);
    assert_eq!(Duration::from_nanos(17).as_nanos(), 17);
    assert_eq!(Duration::from_micros(3).as_nanos(), 3_000);
    assert_eq!(Duration::from_millis(100).as_nanos(), 100_000_000);
    assert_eq!(Duration::from_secs(5).as_nanos(), 5_000_000_000);
    assert_eq!(Duration::from_secs(u32::MAX).as_nanos(), 4_294_967_295_000_000_000);
}

#[test]
fn duration_rounds_down_to_whole_units() {
    let d = Duration::from_nanos(2_999_999_999);
    assert_eq!(d.as_secs(), 2);
    assert_eq!(d.as_millis(), 2_999);
}

#[test]
fn duration_checked_add_detects_overflow() {
    let a = Duration::from_nanos(u64::MAX - 1);
    assert_eq!(a.checked_add(Duration::from_nanos(1)), Some(Duration::from_nanos(u64::MAX)));
    assert_eq!(a.checked_add(Duration::from_nanos(2)), None);
}

#[test]
fn instant_arithmetic() {
    let t = Instant::from_nanos(10);
    assert_eq!(Instant::epoch().as_nanos(), 0);
    assert_eq!(t.plus(Duration::from_nanos(5)), Instant::from_nanos(15));
    assert_eq!(t.checked_add(Duration::from_nanos(5)), Some(Instant::from_nanos(15)));
    assert_eq!(Instant::from_nanos(u64::MAX).checked_add(Duration::from_nanos(1)), None);
    assert_eq!(
        Instant::from_nanos(15).saturating_duration_since(t),
        Duration::from_nanos(5)
    );
    assert_eq!(t.saturating_duration_since(Instant::from_nanos(15)), Duration::zero());
    assert!(t.is_at_or_after(t));
    assert!(!t.is_at_or_after(Instant::from_nanos(11)));
    assert!(Instant::from_nanos(3) < Instant::from_nanos(4));
}

#[test]
fn clock_starts_at_epoch_and_only_moves_forward() {
    let mut clock = MockClock::new();
    assert_eq!(clock.now(), Instant::epoch());
    assert!(clock.advance_to(Instant::from_nanos(100)));
    assert_eq!(clock.now(), Instant::from_nanos(100));
    assert!(!clock.advance_to(Instant::from_nanos(100)));
    assert_eq!(clock.now(), Instant::from_nanos(100));
    assert!(!clock.advance_to(Instant::from_nanos(40)));
    assert_eq!(clock.now(), Instant::from_nanos(100));
}

#[test]
fn successive_readings_never_decrease() {
    let mut clock = MockClock::new();
    let targets = [5u64, 3, 9, 9, 0, 20, 19, 21];
    let mut last = clock.now();
    for t in targets {
        clock.advance_to(Instant::from_nanos(t));
        assert!(clock.now() >= last);
        last = clock.now();
    }
    assert_eq!(last, Instant::from_nanos(21));
}
