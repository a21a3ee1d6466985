use conquer_util::backoff::{INIT_POW, SPIN_LIMIT_POW};
use conquer_util::{BackOff, SeedSource};

#[test]
fn spin_full_const() {
    let mut backoff = BackOff::new();
    let mut steps: u32 = 1;
    while !backoff.advise_yield() {
        backoff.spin();
        steps += 1;
    }

    assert_eq!(steps, SPIN_LIMIT_POW);
}

#[test]
fn spin_full_random() {
    let mut seeds = SeedSource::new();
    let mut backoff = BackOff::random(&mut seeds);
    let mut steps: u32 = 1;
    while !backoff.advise_yield() {
        backoff.spin();
        steps += 1;
    }

    assert_eq!(steps, SPIN_LIMIT_POW);
}

#[test]
fn yield_advised_on_sixth_spin() {
    let mut backoff = BackOff::new();
    for _ in 0..5 {
        backoff.spin();
        assert!(!backoff.advise_yield());
    }
    backoff.spin();
    assert!(backoff.advise_yield());
    backoff.spin();
    assert!(backoff.advise_yield());
    backoff.reset();
    assert!(!backoff.advise_yield());
}

#[test]
fn yield_advice_persists_until_reset() {
    let mut backoff = BackOff::random_with_seed(7);
    while !backoff.advise_yield() {
        backoff.spin();
    }
    for _ in 0..20 {
        backoff.spin();
        assert!(backoff.advise_yield());
    }
    backoff.reset();
    assert!(!backoff.advise_yield());
    assert_eq!(INIT_POW, 1);
}

#[test]
fn fresh_backoff_does_not_advise_yield() {
    assert!(!BackOff::new().advise_yield());
    assert!(!BackOff::default().advise_yield());
    assert!(!BackOff::random_with_seed(0).advise_yield());
}

#[test]
fn seeds_move_on_by_increment() {
    let mut seeds = SeedSource::new();
    assert_eq!(seeds.take_seed(), 0xd1dc_dceb_2fb4_70f3);
    assert_eq!(seeds.take_seed(), 0xd1dc_dceb_2fb4_70f3 + 51);
    let mut last = SeedSource::starting_at(u64::MAX - 1);
    assert_eq!(last.take_seed(), u64::MAX - 1);
    assert_eq!(last.take_seed(), 49);
}

#[test]
fn random_takes_a_seed() {
    let mut seeds = SeedSource::starting_at(5);
    let _a = BackOff::random(&mut seeds);
    let _b = BackOff::random(&mut seeds);
    assert_eq!(seeds.take_seed(), 5 + 2 * 51);
}

#[test]
fn spin_cycles_double_up_to_limit() {
    let mut backoff = BackOff::new();
    let cycles: Vec<u32> = (0..8).map(|_| backoff.spin()).collect();
    assert_eq!(cycles, vec![2, 4, 8, 16, 32, 64, 128, 128]);
    backoff.reset();
    assert_eq!(backoff.spin(), 2);
}

#[test]
fn random_spin_cycles_stay_in_range() {
    let mut backoff = BackOff::random_with_seed(12345);
    let mut low = 1;
    for _ in 0..10 {
        let cycles = backoff.spin();
        assert!(low <= cycles && cycles < 2 * low, "cycles {} outside {}..{}", cycles, low, 2 * low);
        if low < 64 {
            low *= 2;
        }
    }
}

#[test]
fn same_seed_same_cycles() {
    let mut a = BackOff::random_with_seed(99);
    let mut b = BackOff::random_with_seed(99);
    for _ in 0..10 {
        assert_eq!(a.spin(), b.spin());
    }
}

#[test]
fn reset_keeps_generator() {
    let mut a = BackOff::random_with_seed(5);
    let mut b = BackOff::random_with_seed(5);
    for _ in 0..3 {
        a.spin();
        b.spin();
    }
    a.reset();
    b.reset();
    assert_eq!(a.spin(), b.spin());
    let mut c = a.clone();
    assert_eq!(a.spin(), c.spin());
}

#[test]
fn describe_advice() {
    let mut backoff = BackOff::new();
    assert_eq!(backoff.describe(), "advise yield: false");
    while !backoff.advise_yield() {
        backoff.spin();
    }
    assert_eq!(backoff.describe(), "advise yield: true");
    assert_eq!(backoff.clone().describe(), "advise yield: true");
}
