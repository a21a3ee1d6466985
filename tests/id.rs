use conquer_util::ThreadIds;

#[test]
fn ids_are_dense_and_increasing() {
    let mut ids = ThreadIds::new();
    let a = ids.next_id().unwrap();
    let b = ids.next_id().unwrap();
    let c = ids.next_id().unwrap();
    assert_eq!(a.get(), 0);
    assert_eq!(b.get(), 1);
    assert_eq!(c.get(), 2);
    assert!(a < b && b < c);
}
