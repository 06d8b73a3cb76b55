use causal_undo::{IdSpan, VersionRange, VersionRangeItem, VersionVector, ID};

fn ranges(r: &VersionRange) -> Vec<(u64, i32, i32)> {
    let mut v: Vec<(u64, i32, i32)> = r.get_all_ranges().into_iter().map(|i: VersionRangeItem| (i.peer, i.start, i.end)).collect();
    v.sort();
    v
}

#[test]
fn adjacent_inserts_merge_into_one_interval() {
    let mut r = VersionRange::new();
    r.insert(1, 0, 5);
    r.insert(1, 5, 10);
    assert_eq!(ranges(&r), vec![(1, 0, 10)]);
}

#[test]
fn separate_inserts_stay_apart_until_filled() {
    let mut r = VersionRange::new();
    r.insert(1, 0, 3);
    r.insert(1, 7, 10);
    assert_eq!(ranges(&r), vec![(1, 0, 3), (1, 7, 10)]);
    r.insert(1, 3, 7);
    assert_eq!(ranges(&r), vec![(1, 0, 10)]);
}

#[test]
fn overlapping_inserts_merge_and_peers_stay_apart() {
    let mut r = VersionRange::new();
    r.insert(2, 4, 8);
    r.insert(1, 0, 2);
    r.insert(2, 6, 12);
    r.insert(2, 1, 3);
    r.insert(1, 5, 5);
    assert_eq!(ranges(&r), vec![(1, 0, 2), (2, 1, 3), (2, 4, 12)]);
    let mut peers = r.get_peers();
    peers.sort();
    assert_eq!(peers, vec![1, 2]);
}

#[test]
fn membership_queries() {
    let mut r = VersionRange::new();
    r.insert(1, 0, 3);
    r.insert(1, 7, 10);
    assert!(r.contains_id(ID::new(1, 2)));
    assert!(!r.contains_id(ID::new(1, 3)));
    assert!(!r.contains_id(ID::new(2, 0)));
    assert!(r.contains_id_span(IdSpan::new(1, 7, 10)));
    assert!(!r.contains_id_span(IdSpan::new(1, 2, 8)));
    assert!(r.has_overlap_with(IdSpan::new(1, 2, 8)));
    assert!(!r.has_overlap_with(IdSpan::new(1, 3, 7)));
    assert!(!r.has_overlap_with(IdSpan::new(2, 0, 7)));
}

#[test]
fn extending_makes_the_span_contained() {
    let mut r = VersionRange::new();
    r.insert(1, 0, 3);
    let s = IdSpan::new(1, 2, 6);
    assert!(!r.contains_id_span(s));
    r.extends_to_include_id_span(s);
    assert!(r.contains_id_span(s));
    assert_eq!(ranges(&r), vec![(1, 0, 6)]);
}

#[test]
fn get_gives_the_hull_of_a_peer() {
    let mut r = VersionRange::new();
    r.insert(1, 2, 3);
    r.insert(1, 7, 10);
    let s = r.get(1).unwrap();
    assert_eq!((s.start, s.end), (2, 10));
    assert!(r.get(2).is_none());
}

#[test]
fn from_vv_covers_prefixes() {
    let mut v = VersionVector::new();
    v.set_last(ID::new(1, 4));
    v.set_last(ID::new(2, 0));
    let r = VersionRange::from_vv(&v);
    assert_eq!(ranges(&r), vec![(1, 0, 5), (2, 0, 1)]);
}

#[test]
fn ops_between_two_versions() {
    let mut a = VersionVector::new();
    a.set_last(ID::new(1, 2));
    let mut b = VersionVector::new();
    b.set_last(ID::new(1, 6));
    let mut r = VersionRange::new();
    r.insert(1, 0, 3);
    assert!(!r.contains_ops_between(&a, &b));
    r.insert(1, 5, 6);
    assert!(r.contains_ops_between(&a, &b));
    assert!(!r.contains_ops_between(&b, &a));
}

#[test]
fn clear_and_empty() {
    let mut r = VersionRange::default();
    assert!(r.is_empty());
    r.insert(3, 1, 2);
    assert!(!r.is_empty());
    r.clear();
    assert!(r.is_empty());
    assert!(r.get_all_ranges().is_empty());
}
