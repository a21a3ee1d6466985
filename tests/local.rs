use conquer_util::{
    BoundedThreadLocal, BoundsError, ConcurrentAccessErr, DropMode, InvalidCapacity, Local,
};

fn all_values<T>(tls: BoundedThreadLocal<'_, T>) -> Vec<Option<T>> {
    let mut it = tls.into_iter();
    let mut out = Vec::new();
    while let Some(v) = it.next() {
        out.push(v);
    }
    out
}

#[test]
fn static_buffer() {
    let mut buf: [Local<usize>; 4] = [Local::new(0), Local::new(0), Local::new(0), Local::new(0)];
    let mut tls = BoundedThreadLocal::with_buffer(&mut buf).unwrap();

    let mut tokens = Vec::new();
    for _ in 0..4 {
        let mut token = tls.thread_token().unwrap();
        for _ in 0..10 {
            *token.get_mut() += 1;
        }
        tokens.push(token);
    }
    for token in tokens {
        tls.release(token);
    }

    let mut it = tls.try_iter().unwrap();
    let mut seen = 0;
    while let Some(item) = it.next() {
        assert!(item == Some(&10));
        seen += 1;
    }
    assert_eq!(seen, 4);
}

#[test]
fn into_iter() {
    const THREADS: usize = 4;
    let mut tls: BoundedThreadLocal<usize> = BoundedThreadLocal::new(THREADS).unwrap();

    for _ in 0..THREADS {
        let mut token = tls.thread_token().unwrap();
        for _ in 0..10 {
            *token.get_mut() += 1;
        }
        tls.release(token);
    }

    let sum: usize = all_values(tls).into_iter().map(|v| v.unwrap()).sum();
    assert_eq!(sum, THREADS * 10);
}

#[test]
fn zero_capacity_is_invalid() {
    assert_eq!(BoundedThreadLocal::<usize>::new(0).err(), Some(InvalidCapacity));
    assert_eq!(BoundedThreadLocal::with_init(0, || 3u8).err(), Some(InvalidCapacity));
    let mut empty: [Local<u8>; 0] = [];
    assert_eq!(BoundedThreadLocal::with_buffer(&mut empty).err(), Some(InvalidCapacity));
}

#[test]
fn sequential_claims_fill_capacity_then_fail() {
    for n in 1..6usize {
        let mut tls: BoundedThreadLocal<u32> = BoundedThreadLocal::new(n).unwrap();
        let mut seen = Vec::new();
        for _ in 0..n {
            let token = tls.thread_token().unwrap();
            assert!(token.index() < n);
            assert!(!seen.contains(&token.index()));
            seen.push(token.index());
        }
        assert_eq!(tls.thread_token().err(), Some(BoundsError));
        assert_eq!(tls.registration_count(), n + 1);
        assert_eq!(tls.len(), n);
    }
}

#[test]
fn claims_hand_out_ascending_indices() {
    let mut tls = BoundedThreadLocal::with_init(3, || 'x').unwrap();
    let a = tls.try_claim(DropMode::Deferred).unwrap();
    let b = tls.try_claim(DropMode::OnRelease).unwrap();
    let c = tls.thread_token().unwrap();
    assert_eq!((a.index(), b.index(), c.index()), (0, 1, 2));
    assert_eq!(*a.get(), 'x');
}

#[test]
fn deferred_release_keeps_value() {
    let mut tls = BoundedThreadLocal::with_init(3, || 1u64).unwrap();
    let _first = tls.try_claim(DropMode::Deferred).unwrap();
    let mut token = tls.try_claim(DropMode::Deferred).unwrap();
    token.update(|v| v + 41);
    assert_eq!(*token.get(), 42);
    tls.release(token);
    assert_eq!(all_values(tls), vec![None, Some(42), Some(1)]);
}

#[test]
fn drop_on_release_empties_slot() {
    let mut tls = BoundedThreadLocal::with_init(2, || String::from("a")).unwrap();
    let mut token = tls.try_claim(DropMode::OnRelease).unwrap();
    token.update(|s| format!("{}b", s));
    assert_eq!(token.get(), "ab");
    tls.release(token);
    assert_eq!(all_values(tls), vec![None, Some(String::from("a"))]);
}

#[test]
fn four_claimants_sum_their_indices() {
    let mut tls: BoundedThreadLocal<usize> = BoundedThreadLocal::new(4).unwrap();
    let mut tokens = Vec::new();
    for id in 0..4usize {
        let mut token = tls.thread_token().unwrap();
        token.update(|_| id);
        tokens.push(token);
    }
    for token in tokens {
        tls.release(token);
    }
    let sum: usize = all_values(tls).into_iter().map(|v| v.unwrap()).sum();
    assert_eq!(sum, 0 + 1 + 2 + 3);
    assert_eq!(sum, 6);
}

#[test]
fn iteration_refused_while_token_alive() {
    let mut tls: BoundedThreadLocal<i32> = BoundedThreadLocal::new(2).unwrap();
    let token = tls.thread_token().unwrap();
    assert!(tls.holds(&token));
    assert_eq!(tls.try_iter().err(), Some(ConcurrentAccessErr));
    tls.release(token);
    let mut it = tls.try_iter().unwrap();
    assert_eq!(it.next(), Some(Some(&0)));
    assert_eq!(it.next(), Some(Some(&0)));
    assert_eq!(it.next(), None);
    assert_eq!(it.next(), None);
}

#[test]
fn iteration_allowed_before_any_claim() {
    let tls: BoundedThreadLocal<i32> = BoundedThreadLocal::new(3).unwrap();
    assert!(tls.try_iter().is_ok());
}

#[test]
fn iteration_allowed_after_all_slots_released_despite_failed_claims() {
    let mut tls: BoundedThreadLocal<i32> = BoundedThreadLocal::new(1).unwrap();
    let token = tls.thread_token().unwrap();
    assert!(tls.thread_token().is_err());
    tls.release(token);
    assert!(tls.try_iter().is_ok());
}

#[test]
fn iteration_refused_after_drop_on_release() {
    let mut tls: BoundedThreadLocal<i32> = BoundedThreadLocal::new(2).unwrap();
    let token = tls.try_claim(DropMode::OnRelease).unwrap();
    tls.release(token);
    assert_eq!(tls.try_iter().err(), Some(ConcurrentAccessErr));
}

#[test]
fn token_of_other_registry_is_not_held_here() {
    let mut tls: BoundedThreadLocal<i32> = BoundedThreadLocal::new(2).unwrap();
    let mut other: BoundedThreadLocal<i32> = BoundedThreadLocal::new(2).unwrap();
    let _ = other.thread_token().unwrap();
    let foreign = other.thread_token().unwrap();
    let own = tls.thread_token().unwrap();
    assert!(tls.holds(&own));
    assert!(!tls.holds(&foreign));
}

#[test]
fn released_token_is_no_longer_held() {
    let mut tls: BoundedThreadLocal<i32> = BoundedThreadLocal::new(2).unwrap();
    let token = tls.thread_token().unwrap();
    let copy_index = token.index();
    tls.release(token);
    let other = tls.thread_token().unwrap();
    assert_ne!(other.index(), copy_index);
    assert!(tls.holds(&other));
}

#[test]
fn unclaimed_slots_keep_initial_values() {
    let mut tls = BoundedThreadLocal::with_init(3, || 9u16).unwrap();
    let mut t = tls.thread_token().unwrap();
    *t.get_mut() = 4;
    tls.release(t);
    assert_eq!(all_values(tls), vec![Some(4), Some(9), Some(9)]);
}

#[test]
fn error_messages() {
    assert_eq!(BoundsError.message(), "exceeded bounds for `BoundedThreadLocal`");
    assert_eq!(
        ConcurrentAccessErr.message(),
        "concurrent access from live thread token (not all tokens have yet been dropped)"
    );
    assert_eq!(
        InvalidCapacity.message(),
        "the capacity of a `BoundedThreadLocal` must be greater than 0"
    );
}

#[test]
fn lazy_slots_take_value_from_claim() {
    let mut tls: BoundedThreadLocal<String> = BoundedThreadLocal::with_capacity(3).unwrap();
    let mut a = tls.acquire_slot(DropMode::Deferred, || String::from("first")).unwrap();
    a.get_mut().push('!');
    let b = tls.acquire_slot(DropMode::Deferred, || String::from("second")).unwrap();
    assert_eq!(b.get(), "second");
    tls.release(a);
    tls.release(b);
    assert_eq!(
        all_values(tls),
        vec![Some(String::from("first!")), Some(String::from("second")), None]
    );
}

#[test]
fn acquire_slot_keeps_initial_value() {
    let mut tls = BoundedThreadLocal::with_init(1, || 3i64).unwrap();
    let t = tls.acquire_slot(DropMode::OnRelease, || 99).unwrap();
    assert_eq!(*t.get(), 3);
    assert_eq!(tls.acquire_slot(DropMode::Deferred, || 1).err(), Some(BoundsError));
    assert_eq!(BoundedThreadLocal::<u8>::with_capacity(0).err(), Some(InvalidCapacity));
}

#[test]
fn buffer_of_empty_cells() {
    let mut buf: [Local<u32>; 2] = [Local::default(), Local::new(8)];
    let mut tls = BoundedThreadLocal::with_buffer(&mut buf).unwrap();
    let a = tls.acquire_slot(DropMode::Deferred, || 1).unwrap();
    let b = tls.acquire_slot(DropMode::Deferred, || 2).unwrap();
    assert_eq!((*a.get(), *b.get()), (1, 8));
    tls.release(b);
    tls.release(a);
    let mut it = tls.try_iter().unwrap();
    assert_eq!(it.next(), Some(Some(&1)));
    assert_eq!(it.next(), Some(Some(&8)));
    assert_eq!(it.next(), None);
}

#[test]
fn iteration_shows_unclaimed_empty_slots() {
    let mut tls: BoundedThreadLocal<u8> = BoundedThreadLocal::with_capacity(2).unwrap();
    let a = tls.acquire_slot(DropMode::Deferred, || 6).unwrap();
    tls.release(a);
    let mut it = tls.try_iter().unwrap();
    assert_eq!(it.next(), Some(Some(&6)));
    assert_eq!(it.next(), Some(None));
    assert_eq!(it.next(), None);
}

#[test]
fn reused_buffer_starts_afresh() {
    let mut buf: [Local<u32>; 3] = [Local::new(1), Local::new(2), Local::new(3)];
    {
        let mut tls = BoundedThreadLocal::with_buffer(&mut buf).unwrap();
        let mut kept = tls.thread_token().unwrap();
        *kept.get_mut() = 5;
        tls.release(kept);
        let dropped = tls.try_claim(DropMode::OnRelease).unwrap();
        tls.release(dropped);
        let _never_released = tls.thread_token().unwrap();
    }
    let mut tls = BoundedThreadLocal::with_buffer(&mut buf).unwrap();
    let a = tls.acquire_slot(DropMode::Deferred, || 70).unwrap();
    let b = tls.acquire_slot(DropMode::Deferred, || 71).unwrap();
    let c = tls.acquire_slot(DropMode::Deferred, || 72).unwrap();
    assert_eq!((*a.get(), *b.get(), *c.get()), (5, 71, 72));
}

#[test]
fn slot_mut_changes_values_in_place() {
    let mut tls = BoundedThreadLocal::with_init(3, || 10i32).unwrap();
    let held = tls.thread_token().unwrap();
    let dropped = tls.try_claim(DropMode::OnRelease).unwrap();
    tls.release(dropped);
    assert!(tls.slot_mut(0).is_none());
    assert!(tls.slot_mut(1).is_none());
    *tls.slot_mut(2).unwrap() += 5;
    tls.release(held);
    *tls.slot_mut(0).unwrap() *= 2;
    assert_eq!(all_values(tls), vec![Some(20), None, Some(15)]);
}

#[test]
fn default_slot_plus_one_reads_one() {
    let mut tls = BoundedThreadLocal::<usize>::new(1).unwrap();
    let mut token = tls.thread_token().unwrap();
    *token.get_mut() += 1;
    assert_eq!(token.get(), &1);
}
