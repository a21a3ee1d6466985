use conquer_util::counter::{Counter, RegistryError, ThreadCounter};
use conquer_util::InvalidCapacity;

#[test]
fn with_buffer() {
    let mut buffer = [Counter::new(), Counter::new(), Counter::new(), Counter::new()];
    let counter = ThreadCounter::with_buffer(&mut buffer);
    assert!(counter.is_ok());
}

fn total(counter: ThreadCounter<'_>) -> usize {
    let mut it = counter.into_iter();
    let mut sum = 0;
    while let Some(v) = it.next() {
        sum += v;
    }
    sum
}

#[test]
fn sum() {
    let counter = ThreadCounter::new(8).unwrap();
    let sum: usize = total(counter);
    assert_eq!(sum, 0usize);
}

#[test]
fn sum_after_join() {
    const THREADS: usize = 4;

    let mut counter = ThreadCounter::new(THREADS).unwrap();
    for id in 0..THREADS {
        let token = counter.register_thread().unwrap();
        counter.update(token, |_| id);
    }

    assert_eq!((0..THREADS).sum::<usize>(), total(counter));
}

#[test]
fn counter_construction_needs_capacity() {
    assert_eq!(ThreadCounter::new(0).err(), Some(InvalidCapacity));
    let mut empty: [Counter; 0] = [];
    assert_eq!(ThreadCounter::with_buffer(&mut empty).err(), Some(InvalidCapacity));
}

#[test]
fn counter_registration_past_capacity_fails() {
    let mut counter = ThreadCounter::new(2).unwrap();
    assert!(counter.register_thread().is_ok());
    assert!(counter.register_thread().is_ok());
    assert_eq!(counter.register_thread().err(), Some(RegistryError));
    assert_eq!(counter.register_thread().err(), Some(RegistryError));
}

#[test]
fn counter_updates_and_iter() {
    let mut buffer = [Counter::default(), Counter::new(), Counter::new()];
    let mut counter = ThreadCounter::with_buffer(&mut buffer).unwrap();
    let a = counter.register_thread().unwrap();
    let b = counter.register_thread().unwrap();
    assert!(counter.is_issued_here(a));
    assert!(counter.is_issued_here(b));
    counter.update(a, |c| c + 5);
    counter.update(b, |c| c + 2);
    counter.update(a, |c| c * 3);
    let mut it = counter.iter();
    assert_eq!(it.next(), Some(15));
    assert_eq!(it.next(), Some(2));
    assert_eq!(it.next(), Some(0));
    assert_eq!(it.next(), None);
    assert_eq!(it.next(), None);
}

#[test]
fn token_of_other_counter_not_issued_here() {
    let mut counter_a = ThreadCounter::new(1).unwrap();
    let mut counter_b = ThreadCounter::new(3).unwrap();
    let _ = counter_b.register_thread().unwrap();
    let _ = counter_b.register_thread().unwrap();
    let token_b = counter_b.register_thread().unwrap();
    let _ = counter_a.register_thread().unwrap();
    assert!(!counter_a.is_issued_here(token_b));
}

#[test]
fn registry_error_message() {
    assert_eq!(RegistryError.message(), "exceeded the number of counters of a `ThreadCounter`");
}

#[test]
fn counter_len_and_registration_count() {
    let mut counter = ThreadCounter::new(2).unwrap();
    assert_eq!(counter.len(), 2);
    assert_eq!(counter.registration_count(), 0);
    let _ = counter.register_thread();
    let _ = counter.register_thread();
    let _ = counter.register_thread();
    assert_eq!(counter.registration_count(), 3);
    assert_eq!(counter.len(), 2);
}
