use causal_undo::{CounterSpan, DecodeError, IdSpan, VersionVector, ID};
use std::cmp::Ordering;

fn vv(entries: &[(u64, i32)]) -> VersionVector {
    let mut v = VersionVector::new();
    for &(peer, last) in entries {
        v.set_last(ID::new(peer, last));
    }
    v
}

#[test]
fn merge_is_commutative_on_values() {
    let mut ab = vv(&[(1, 3), (2, 0)]);
    ab.merge(&vv(&[(2, 5), (3, 1)]));
    let mut ba = vv(&[(2, 5), (3, 1)]);
    ba.merge(&vv(&[(1, 3), (2, 0)]));
    assert!(ab == ba);
    assert_eq!(ab.get_last(1), Some(3));
    assert_eq!(ab.get_last(2), Some(5));
    assert_eq!(ab.get_last(3), Some(1));
}

#[test]
fn merge_is_associative_on_values() {
    let a = || vv(&[(1, 3)]);
    let b = || vv(&[(1, 1), (2, 4)]);
    let c = || vv(&[(3, 2), (2, 7)]);
    let mut left = a();
    left.merge(&b());
    left.merge(&c());
    let mut bc = b();
    bc.merge(&c());
    let mut right = a();
    right.merge(&bc);
    assert!(left == right);
}

#[test]
fn merge_with_itself_keeps_the_vector() {
    let mut a = vv(&[(1, 3), (9, 0)]);
    a.merge(&vv(&[(1, 3), (9, 0)]));
    assert!(a == vv(&[(1, 3), (9, 0)]));
}

#[test]
fn includes_is_reflexive_and_transitive() {
    let a = vv(&[(1, 5), (2, 5)]);
    let b = vv(&[(1, 3), (2, 5)]);
    let c = vv(&[(1, 1)]);
    assert!(a.includes_vv(&a));
    assert!(a.includes_vv(&b));
    assert!(b.includes_vv(&c));
    assert!(a.includes_vv(&c));
    assert!(!c.includes_vv(&a));
}

#[test]
fn includes_id_checks_the_counter() {
    let a = vv(&[(1, 4)]);
    assert!(a.includes_id(ID::new(1, 4)));
    assert!(!a.includes_id(ID::new(1, 5)));
    assert!(!a.includes_id(ID::new(2, 0)));
    assert!(!a.includes_id(ID::new(1, -1)));
}

#[test]
fn diff_gives_forward_and_retreat_spans() {
    let a = vv(&[(1, 4), (2, 1)]);
    let b = vv(&[(1, 1), (3, 2)]);
    let d = a.diff(&b);
    assert_eq!(d.retreat.len(), 2);
    assert_eq!(d.retreat.get(&1), Some(&CounterSpan::new(2, 5)));
    assert_eq!(d.retreat.get(&2), Some(&CounterSpan::new(0, 2)));
    assert_eq!(d.forward.len(), 1);
    assert_eq!(d.forward.get(&3), Some(&CounterSpan::new(0, 3)));
}

#[test]
fn diff_round_trip_reaches_the_merge() {
    let a = vv(&[(1, 4), (2, 1)]);
    let b = vv(&[(1, 1), (3, 2)]);
    let d = a.diff(&b);
    let mut merged = vv(&[(1, 4), (2, 1)]);
    merged.merge(&b);
    let mut a2 = vv(&[(1, 4), (2, 1)]);
    for (peer, span) in d.forward.iter() {
        a2.set_end(ID::new(*peer, span.end.max(a2.get_last(*peer).map_or(0, |l| l + 1))));
    }
    let mut b2 = vv(&[(1, 1), (3, 2)]);
    for (peer, span) in d.retreat.iter() {
        b2.set_end(ID::new(*peer, span.end.max(b2.get_last(*peer).map_or(0, |l| l + 1))));
    }
    assert!(a2 == merged);
    assert!(b2 == merged);
}

#[test]
fn try_update_last_only_moves_forward() {
    let mut a = vv(&[(1, 5)]);
    assert!(!a.try_update_last(ID::new(1, 5)));
    assert!(!a.try_update_last(ID::new(1, 2)));
    assert_eq!(a.get_last(1), Some(5));
    assert!(a.try_update_last(ID::new(1, 6)));
    assert_eq!(a.get_last(1), Some(6));
    assert!(a.try_update_last(ID::new(2, 0)));
    assert_eq!(a.get_last(2), Some(0));
}

#[test]
fn set_last_and_set_end() {
    let mut a = VersionVector::new();
    assert_eq!(a.get_last(7), None);
    a.set_last(ID::new(7, 9));
    assert_eq!(a.get_last(7), Some(9));
    a.set_end(ID::new(7, 3));
    assert_eq!(a.get_last(7), Some(2));
    a.set_end(ID::new(7, 0));
    assert_eq!(a.get_last(7), None);
    assert!(a == VersionVector::default());
}

#[test]
fn missing_spans_cover_what_target_has() {
    let a = vv(&[(1, 2)]);
    let t = vv(&[(1, 5), (2, 0), (3, 1)]);
    let mut spans = a.get_missing_span(&t);
    spans.sort_by_key(|s| s.peer);
    assert_eq!(spans, vec![IdSpan::new(1, 3, 6), IdSpan::new(2, 0, 1), IdSpan::new(3, 0, 2)]);
    assert!(t.get_missing_span(&a).is_empty());
}

#[test]
fn intersect_span_clips_to_known() {
    let a = vv(&[(1, 4)]);
    assert_eq!(a.intersect_span(IdSpan::new(1, 2, 10)), Some(CounterSpan::new(2, 5)));
    assert_eq!(a.intersect_span(IdSpan::new(1, 1, 3)), Some(CounterSpan::new(1, 3)));
    assert_eq!(a.intersect_span(IdSpan::new(1, 5, 9)), None);
    assert_eq!(a.intersect_span(IdSpan::new(2, 0, 9)), None);
    assert_eq!(a.intersect_span(IdSpan::new(1, 3, 3)), None);
    assert_eq!(a.intersect_span(IdSpan::new(1, -1, i32::MAX)), Some(CounterSpan::new(0, 5)));
    assert_eq!(a.intersect_span(IdSpan::new(1, i32::MIN, -3)), None);
}

#[test]
fn extend_to_include_takes_the_maximum() {
    let mut a = vv(&[(1, 4), (2, 0)]);
    a.extend_to_include_vv(&vv(&[(1, 2), (3, 3)]));
    assert!(a == vv(&[(1, 4), (2, 0), (3, 3)]));
}

#[test]
fn partial_cmp_is_a_partial_order() {
    let a = vv(&[(1, 4), (2, 1)]);
    assert_eq!(a.partial_cmp(&vv(&[(1, 4), (2, 1)])), Some(Ordering::Equal));
    assert_eq!(a.partial_cmp(&vv(&[(1, 3)])), Some(Ordering::Greater));
    assert_eq!(vv(&[(1, 3)]).partial_cmp(&a), Some(Ordering::Less));
    assert_eq!(a.partial_cmp(&vv(&[(3, 0)])), None);
}

#[test]
fn encode_decode_round_trip() {
    let a = vv(&[(1, 4), (2, 1), (99, 0)]);
    let bytes = a.encode();
    let b = VersionVector::decode(&bytes).unwrap();
    assert!(a == b);
    assert_eq!(b.to_hashmap(), a.to_hashmap());
}

#[test]
fn decode_rejects_garbage() {
    assert_eq!(VersionVector::decode(&[0xff, 0xff, 0xff]).err(), Some(DecodeError::VersionVector));
}

#[test]
fn to_hashmap_holds_exclusive_ends() {
    let a = vv(&[(1, 4), (2, 0)]);
    let m = a.to_hashmap();
    assert_eq!(m.len(), 2);
    assert_eq!(m.get(&1), Some(&5));
    assert_eq!(m.get(&2), Some(&1));
}
