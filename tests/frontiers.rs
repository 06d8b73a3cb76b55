use causal_undo::{DecodeError, Frontiers, ID};

fn sorted(f: &Frontiers) -> Vec<(u64, i32)> {
    let mut v: Vec<(u64, i32)> = f.to_vec().into_iter().map(|id| (id.peer, id.counter)).collect();
    v.sort();
    v
}

#[test]
fn frontiers_from_ids() {
    assert!(Frontiers::new().is_empty());
    assert!(Frontiers::default().is_empty());
    let one = Frontiers::from_id(ID::new(1, 3));
    assert!(!one.is_empty());
    assert_eq!(sorted(&one), vec![(1, 3)]);
    let many = Frontiers::from_ids(vec![ID::new(2, 1), ID::new(1, 3), ID::new(2, 4)]);
    assert_eq!(sorted(&many), vec![(1, 3), (2, 1), (2, 4)]);
    let dup = Frontiers::from_ids(vec![ID::new(1, 3), ID::new(1, 3)]);
    assert_eq!(sorted(&dup), vec![(1, 3)]);
}

#[test]
fn frontiers_equality_ignores_order() {
    let a = Frontiers::from_ids(vec![ID::new(2, 1), ID::new(1, 3)]);
    let b = Frontiers::from_ids(vec![ID::new(1, 3), ID::new(2, 1)]);
    assert!(a == b);
    assert!(a != Frontiers::from_id(ID::new(1, 3)));
    assert!(Frontiers::from_id(ID::new(1, 3)) == Frontiers::from_ids(vec![ID::new(1, 3), ID::new(1, 3)]));
    assert!(Frontiers::from_ids(vec![ID::new(1, 3), ID::new(1, 5)]) != Frontiers::from_id(ID::new(1, 5)));
}

#[test]
fn frontiers_encode_round_trip() {
    let a = Frontiers::from_ids(vec![ID::new(5, 0), ID::new(1, 3)]);
    let b = Frontiers::decode(&a.encode()).unwrap();
    assert!(a == b);
    let e = Frontiers::new();
    assert!(Frontiers::decode(&e.encode()).unwrap().is_empty());
}

#[test]
fn frontiers_decode_rejects_garbage() {
    assert_eq!(Frontiers::decode(&[0x05, 0x01]).err(), Some(DecodeError::Frontiers));
}
