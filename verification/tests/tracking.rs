use compass::ids::{
    assign_from_counter, claim_block, highest_id, next_id_after, next_id_on_load, raise_counter,
    IdPool, IdRange,
};
use compass::relationships::RelationshipStore;
use compass::seq_tracker::SeqTracker;
use compass::string_map::StringMap;

#[test]
fn seq_tracker_semantics() {
    let mut t = SeqTracker::default();
    assert!(!t.covers(0));
    t.mark(0);
    assert_eq!(t.contiguous, 1);
    t.mark(2);
    assert!(t.covers(2) && !t.covers(1));
    assert_eq!(t.contiguous, 1);
    t.mark(1);
    assert_eq!(t.contiguous, 3);
    assert!(t.out_of_band.is_empty());
    t.mark(1);
    t.mark(2);
    assert_eq!(t.contiguous, 3);
    assert!(t.out_of_band.is_empty());
    let t2 = SeqTracker::starting_at(7);
    assert!(t2.covers(6) && !t2.covers(7));
}

#[test]
fn pooled_ids_are_handed_out_once() {
    let mut pool = IdPool::new();
    pool.push(IdRange { start: 10, end: 12 });
    pool.push(IdRange { start: 20, end: 23 });
    assert!(pool.holds(5));
    assert!(!pool.holds(6));
    assert_eq!(pool.take(3), Some(vec![10, 11, 20]));
    assert_eq!(pool.take(3), None);
    let mut ids = vec![1];
    pool.drain_into(&mut ids, 4);
    assert_eq!(ids, vec![1, 21, 22]);
    assert!(!pool.holds(1));
}

#[test]
fn counters_never_fall_back() {
    let mut next: u64 = 5;
    assert_eq!(assign_from_counter(&mut next, 3), vec![5, 6, 7]);
    assert_eq!(next, 8);
    raise_counter(&mut next, &vec![2, 30, 4]);
    assert_eq!(next, 31);
    raise_counter(&mut next, &vec![]);
    assert_eq!(next, 31);
    assert_eq!(highest_id(&vec![3, 9, 1]), Some(9));
    assert_eq!(highest_id(&vec![]), None);
    assert_eq!(next_id_after(0, false), 0);
    assert_eq!(next_id_after(0, true), 1);
    assert_eq!(next_id_after(41, true), 42);
    assert_eq!(next_id_on_load(3, Some(9), 2), 10);
    assert_eq!(next_id_on_load(30, Some(9), 2), 30);
    assert_eq!(next_id_on_load(3, None, 12), 12);
}

fn family() -> RelationshipStore {
    let mut s = RelationshipStore::new();
    s.add(1, None, Some("g".to_string()));
    s.add(2, Some(1), Some("g".to_string()));
    s.add(3, Some(1), Some("g".to_string()));
    s.add(4, Some(9), None);
    s
}

#[test]
fn siblings_share_a_group() {
    let s = family();
    assert_eq!(s.len(), 4);
    assert_eq!(s.get_parent(2), Some(1));
    assert_eq!(s.get_parent(1), None);
    assert_eq!(s.get_parent(77), None);
    assert_eq!(s.get_siblings(2), vec![1, 3]);
    assert!(s.get_siblings(4).is_empty());
    let (parents, siblings) = s.build_scoring_maps(&[2, 4]);
    assert_eq!(parents.get(2), Some(&1));
    assert_eq!(parents.get(4), Some(&9));
    assert_eq!(siblings.get(2), Some(&vec![1, 3]));
    assert_eq!(siblings.get(4), None);
}

#[test]
fn relationships_read_back_as_saved() {
    let s = family();
    let back = RelationshipStore::load(&s.save());
    assert_eq!(back.len(), 4);
    for id in 1..5u64 {
        assert_eq!(back.get_parent(id), s.get_parent(id));
        let mut a = back.get_siblings(id);
        let mut b = s.get_siblings(id);
        a.sort();
        b.sort();
        assert_eq!(a, b);
    }
    assert_eq!(RelationshipStore::load(&[]).len(), 0);
}

#[test]
fn malformed_group_names_are_repaired() {
    let mut s = RelationshipStore::new();
    s.add(1, None, Some("xy".to_string()));
    s.add(2, None, Some("xy".to_string()));
    let mut bytes = s.save();
    let mut hits = 0;
    for i in 0..bytes.len() - 1 {
        if bytes[i] == b'x' && bytes[i + 1] == b'y' {
            bytes[i] = 0xff;
            hits += 1;
        }
    }
    assert_eq!(hits, 2);
    let back = RelationshipStore::load(&bytes);
    assert_eq!(back.get_siblings(1), vec![2]);
    let again = back.save();
    assert!(String::from_utf8_lossy(&again).contains("\u{fffd}y"));
}

#[test]
fn parent_references_resolve_within_a_batch() {
    let mut clients: StringMap<u64> = StringMap::new();
    clients.insert("src".to_string(), 10);
    let r = RelationshipStore::resolve_batch_refs(
        &clients,
        &[Some(3), None, Some(4)],
        &[Some("src".to_string()), Some("src".to_string()), Some("none".to_string())],
        &[None, Some("g".to_string()), None],
    );
    assert_eq!(
        r,
        vec![(Some(10), None), (Some(10), Some("g".to_string())), (Some(4), None)]
    );
}

#[test]
fn a_chunk_leaves_the_group_it_was_in() {
    let mut s = RelationshipStore::new();
    s.add(1, None, Some("g".to_string()));
    s.add(2, None, Some("g".to_string()));
    s.add(1, None, Some("h".to_string()));
    assert!(s.get_siblings(2).is_empty());
    assert!(s.get_siblings(1).is_empty());
    s.add(1, None, Some("g".to_string()));
    s.add(1, None, Some("g".to_string()));
    assert_eq!(s.get_siblings(2), vec![1]);
    assert_eq!(s.get_siblings(1), vec![2]);
    s.add(2, None, None);
    assert!(s.get_siblings(1).is_empty());
}

#[test]
fn leased_and_counted_ids_never_meet() {
    assert_eq!(claim_block(5, 3), Some(IdRange { start: 5, end: 8 }));
    assert_eq!(claim_block(u64::MAX, 1), None);
    let mut pool = IdPool::new();
    pool.push(claim_block(next_id_after(4, true), 2).unwrap());
    let first = pool.take(2).unwrap();
    pool.push(claim_block(7, 2).unwrap());
    let second = pool.take(2).unwrap();
    assert_eq!((first, second), (vec![5, 6], vec![7, 8]));
}
