use simulation::fault::{maybe_random_delay, FaultConfig};
use simulation::rng::{Probability, SeededRng};
use simulation::time::{Duration, Instant};

#[test]
fn splitmix_seed_zero_matches_reference_vectors() {
    let mut rng = SeededRng::new(0);
    assert_eq!(rng.next_u64(), 0xE220_A839_7B1D_CDAF);
    assert_eq!(rng.next_u64(), 0x6E78_9E6A_A1B9_65F4);
    assert_eq!(rng.next_u64(), 0x06C4_5D18_8009_454F);
}

#[test]
fn splitmix_other_seeds() {
    assert_eq!(SeededRng::new(1).next_u64(), 0x910A_2DEC_8902_5CC1);
    assert_eq!(SeededRng::new(22).next_u64(), 0xC80D_E0F9_D4D6_0E0A);
    assert_eq!(SeededRng::new(u64::MAX).next_u64(), 0xE4D9_7177_1B65_2C20);
}

#[test]
fn same_seed_gives_same_draws() {
    let mut a = SeededRng::new(22);
    let mut b = SeededRng::new(22);
    for _ in 0..1000 {
        assert_eq!(a.next_u64(), b.next_u64());
    }
}

#[test]
fn next_bool_never_and_always() {
    let mut rng = SeededRng::new(7);
    for _ in 0..200 {
        assert!(!rng.next_bool(Probability::never()));
        assert!(rng.next_bool(Probability::always()));
    }
}

#[test]
fn next_bool_compares_the_word_with_the_threshold() {
    // The first word of seed 0 is 607535 modulo one million.
    assert!(SeededRng::new(0).next_bool(Probability::from_ppm(607_536)));
    assert!(!SeededRng::new(0).next_bool(Probability::from_ppm(607_535)));
    assert!(!SeededRng::new(0).next_bool(Probability::from_percent(60)));
    assert!(SeededRng::new(0).next_bool(Probability::from_percent(61)));
}

#[test]
fn next_bool_consumes_one_word_whatever_the_probability() {
    let mut a = SeededRng::new(5);
    let mut b = SeededRng::new(5);
    a.next_bool(Probability::never());
    b.next_u64();
    assert_eq!(a.next_u64(), b.next_u64());
}

#[test]
fn next_in_range_is_offset_plus_remainder() {
    // The first word of seed 0 is 5 modulo 10.
    assert_eq!(SeededRng::new(0).next_in_range(10, 20), 15);
    assert_eq!(SeededRng::new(0).next_in_range(20, 10), 20);
    assert_eq!(SeededRng::new(0).next_in_range(7, 7), 7);
    assert_eq!(SeededRng::new(0).next_in_range(0, 1), 0);
}

#[test]
fn next_duration_stays_in_range() {
    let mut rng = SeededRng::new(u64::MAX);
    let lo = Duration::from_millis(100);
    let hi = Duration::from_millis(10_000);
    for _ in 0..1000 {
        let d = rng.next_duration(lo, hi);
        assert!(lo <= d && d < hi);
    }
    assert_eq!(rng.next_duration(hi, lo), hi);
    assert_eq!(rng.next_duration(lo, lo), lo);
}

#[test]
fn injector_draws_coin_then_duration() {
    let f = FaultConfig::standard();
    // Seed 9: the coin says yes (32228 < 100000) and the delay is 8942155106 ns.
    let mut rng = SeededRng::new(9);
    let deadline = maybe_random_delay(
        &mut rng,
        Instant::from_nanos(1_000),
        f.accept_delay_probability,
        f.accept_delay_min,
        f.accept_delay_max,
    );
    assert_eq!(deadline, Some(Instant::from_nanos(8_942_155_106 + 1_000)));
    let mut twice = SeededRng::new(9);
    twice.next_u64();
    twice.next_u64();
    assert_eq!(rng.next_u64(), twice.next_u64());
}

#[test]
fn injector_that_says_no_draws_once() {
    let f = FaultConfig::standard();
    // Seed 1: the coin says no (822465 >= 100000).
    let mut rng = SeededRng::new(1);
    let deadline = maybe_random_delay(
        &mut rng,
        Instant::epoch(),
        f.accept_delay_probability,
        f.accept_delay_min,
        f.accept_delay_max,
    );
    assert_eq!(deadline, None);
    let mut once = SeededRng::new(1);
    once.next_u64();
    assert_eq!(rng.next_u64(), once.next_u64());
}

#[test]
fn fault_configurations() {
    let f = FaultConfig::standard();
    assert_eq!(f.accept_delay_probability, Probability::from_percent(10));
    assert_eq!(f.accept_delay_min, Duration::from_millis(100));
    assert_eq!(f.accept_delay_max, Duration::from_secs(10));
    let n = FaultConfig::none();
    assert_eq!(n.accept_delay_probability, Probability::never());
    let mut rng = SeededRng::new(9);
    assert_eq!(
        maybe_random_delay(
            &mut rng,
            Instant::epoch(),
            n.accept_delay_probability,
            n.accept_delay_min,
            n.accept_delay_max
        ),
        None
    );
}
