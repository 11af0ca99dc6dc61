use unique_slotmap::{
    AnyParameterId, InputId, InternalKey, NodeId, UniqueId, UniqueSecondaryMap, UniqueSlotmap,
};

type NodeMap<V> = UniqueSlotmap<NodeId, V>;

#[test]
fn fresh_map_is_empty() {
    let map: NodeMap<String> = UniqueSlotmap::default();
    assert_eq!(map.len(), 0);
    assert!(map.keys().is_empty());
    assert!(map.iter().is_empty());
}

#[test]
fn insert_then_get() {
    let mut map: NodeMap<String> = UniqueSlotmap::default();
    let h = map.insert(String::from("v"));
    assert_eq!(map.get(h), Some(&String::from("v")));
    assert!(map.contains_key(h));
    assert_eq!(map.len(), 1);
}

#[test]
fn index_reads_live_entry() {
    let mut map: NodeMap<u32> = UniqueSlotmap::default();
    let h = map.insert(7);
    assert_eq!(*map.index(h), 7);
}

#[test]
fn remove_returns_value_and_kills_handle() {
    let mut map: NodeMap<String> = UniqueSlotmap::default();
    let h = map.insert(String::from("gone"));
    assert_eq!(map.remove(h), Some(String::from("gone")));
    assert_eq!(map.get(h), None);
    assert!(!map.contains_key(h));
    assert_eq!(map.remove(h), None);
    assert_eq!(map.len(), 0);
}

#[test]
fn insert_remove_roundtrip_leaves_others_unchanged() {
    let mut map: NodeMap<String> = UniqueSlotmap::default();
    let stay = map.insert(String::from("stay"));
    let len_before = map.len();
    let h = map.insert(String::from("fleeting"));
    assert_eq!(map.remove(h), Some(String::from("fleeting")));
    assert_eq!(map.len(), len_before);
    assert_eq!(map.get(stay), Some(&String::from("stay")));
}

#[test]
fn removed_handle_stays_dead_after_slot_reuse() {
    let mut map: NodeMap<String> = UniqueSlotmap::default();
    let h = map.insert(String::from("x"));
    assert_eq!(map.remove(h), Some(String::from("x")));
    let h2 = map.insert(String::from("y"));
    assert_ne!(h, h2);
    assert_eq!(map.get(h), None);
    assert!(!map.contains_key(h));
    assert_eq!(map.get(h2), Some(&String::from("y")));
}

#[test]
fn slot_reuse_bumps_generation() {
    let mut map: NodeMap<u8> = UniqueSlotmap::default();
    let h = map.insert(1);
    map.remove(h);
    let h2 = map.insert(2);
    assert_eq!(h2.key.index, h.key.index);
    assert_ne!(h2.key.generation, h.key.generation);
}

#[test]
fn handles_do_not_cross_instances() {
    let mut m1: NodeMap<String> = UniqueSlotmap::default();
    let mut m2: NodeMap<String> = UniqueSlotmap::default();
    let h1 = m1.insert(String::from("a"));
    let h2 = m2.insert(String::from("b"));
    assert_eq!(m1.get(h2), None);
    assert_eq!(m2.get(h1), None);
    assert!(!m1.contains_key(h2));
    assert!(!m2.contains_key(h1));
    assert_eq!(*m1.index(h1), String::from("a"));
    assert_eq!(*m2.index(h2), String::from("b"));
}

#[test]
fn get_mut_updates_in_place() {
    let mut map: NodeMap<u32> = UniqueSlotmap::default();
    let h = map.insert(1);
    if let Some(v) = map.get_mut(h) {
        *v = 10;
    }
    assert_eq!(map.get(h), Some(&10));
    let foreign: NodeMap<u32> = UniqueSlotmap::default();
    let mut map2 = foreign;
    assert!(map2.get_mut(h).is_none());
}

#[test]
fn index_mut_updates_in_place() {
    let mut map: NodeMap<u32> = UniqueSlotmap::default();
    let h = map.insert(3);
    *map.index_mut(h) = 4;
    assert_eq!(*map.index(h), 4);
}

#[test]
fn insert_with_key_hands_final_handle_to_factory() {
    let mut map: NodeMap<(NodeId, u32)> = UniqueSlotmap::default();
    let h = map.insert_with_key(|handle| (handle, 5));
    let stored = map.get(h).unwrap();
    assert_eq!(stored.0, h);
    assert_eq!(stored.1, 5);
}

#[test]
fn keys_and_iter_list_live_entries() {
    let mut map: NodeMap<u32> = UniqueSlotmap::default();
    let a = map.insert(1);
    let b = map.insert(2);
    let c = map.insert(3);
    map.remove(b);
    let mut keys = map.keys();
    keys.sort();
    let mut expect = vec![a, c];
    expect.sort();
    assert_eq!(keys, expect);
    let pairs = map.iter();
    assert_eq!(pairs.len(), 2);
    for (h, v) in pairs {
        assert_eq!(map.get(h), Some(v));
    }
}

#[test]
fn retain_keeps_exactly_matching_entries() {
    let mut map: NodeMap<u32> = UniqueSlotmap::default();
    let evens: Vec<NodeId> = (0u32..10).map(|i| map.insert(i)).collect();
    map.retain(|_h, v| *v % 2 == 0);
    assert_eq!(map.len(), 5);
    for (i, h) in evens.iter().enumerate() {
        if i % 2 == 0 {
            assert_eq!(map.get(*h), Some(&(i as u32)));
        } else {
            assert_eq!(map.get(*h), None);
        }
    }
}

#[test]
fn free_list_recycles_slots() {
    let mut map: NodeMap<u32> = UniqueSlotmap::default();
    let handles: Vec<NodeId> = (0u32..5).map(|i| map.insert(i)).collect();
    map.remove(handles[1]);
    map.remove(handles[3]);
    map.remove(handles[0]);
    assert_eq!(map.len(), 2);
    let n1 = map.insert(10);
    let n2 = map.insert(11);
    let n3 = map.insert(12);
    assert_eq!(map.len(), 5);
    let mut reused: Vec<usize> = vec![n1.key.index, n2.key.index, n3.key.index];
    reused.sort();
    assert_eq!(reused, vec![0, 1, 3]);
    for h in [handles[0], handles[1], handles[3]] {
        assert_eq!(map.get(h), None);
    }
    assert_eq!(map.get(n1), Some(&10));
    assert_eq!(map.get(n2), Some(&11));
    assert_eq!(map.get(n3), Some(&12));
    assert_eq!(map.get(handles[2]), Some(&2));
    assert_eq!(map.get(handles[4]), Some(&4));
}

#[test]
fn secondary_map_stores_side_data() {
    let mut primary: NodeMap<String> = UniqueSlotmap::default();
    let h = primary.insert(String::from("node"));
    let mut side: UniqueSecondaryMap<NodeId, u32> = UniqueSecondaryMap::new_from_key(&primary);
    assert_eq!(side.insert(h, 1), None);
    assert_eq!(side.insert(h, 2), Some(1));
    assert_eq!(side.get(h), Some(&2));
    assert!(side.contains_key(h));
    assert_eq!(*side.index(h), 2);
    assert_eq!(side.remove(h), Some(2));
    assert_eq!(side.get(h), None);
    assert_eq!(side.remove(h), None);
}

#[test]
fn secondary_map_ignores_foreign_reads() {
    let mut bound_to: NodeMap<u8> = UniqueSlotmap::default();
    let mut other: NodeMap<u8> = UniqueSlotmap::default();
    let ours = bound_to.insert(1);
    let foreign = other.insert(1);
    let mut side: UniqueSecondaryMap<NodeId, u8> = UniqueSecondaryMap::new_from_key(&bound_to);
    side.insert(ours, 9);
    assert_eq!(side.get(foreign), None);
    assert!(!side.contains_key(foreign));
    assert_eq!(side.remove(foreign), None);
}

#[test]
fn secondary_map_outlives_stale_generations() {
    let mut primary: NodeMap<u8> = UniqueSlotmap::default();
    let h = primary.insert(1);
    let mut side: UniqueSecondaryMap<NodeId, u8> = UniqueSecondaryMap::new_from_key(&primary);
    side.insert(h, 10);
    primary.remove(h);
    let h2 = primary.insert(2);
    assert_eq!(h2.key.index, h.key.index);
    assert_eq!(side.insert(h2, 20), None);
    assert_eq!(side.get(h), None);
    assert_eq!(side.get(h2), Some(&20));
}

#[test]
fn secondary_map_retain_and_iteration() {
    let mut primary: NodeMap<u32> = UniqueSlotmap::default();
    let handles: Vec<NodeId> = (0u32..6).map(|i| primary.insert(i)).collect();
    let mut side: UniqueSecondaryMap<NodeId, u32> = UniqueSecondaryMap::new_from_key(&primary);
    for (i, h) in handles.iter().enumerate() {
        side.insert(*h, i as u32 * 10);
    }
    side.retain(|_h, v| *v >= 30);
    let mut keys = side.keys();
    keys.sort();
    let mut expect = vec![handles[3], handles[4], handles[5]];
    expect.sort();
    assert_eq!(keys, expect);
    for (h, v) in side.iter() {
        assert_eq!(side.get(h), Some(v));
        assert!(*v >= 30);
    }
    *side.index_mut(handles[3]) = 31;
    assert_eq!(side.get(handles[3]), Some(&31));
    if let Some(v) = side.get_mut(handles[4]) {
        *v = 41;
    }
    assert_eq!(side.get(handles[4]), Some(&41));
}

#[test]
fn parameter_handle_roundtrip() {
    let mut inputs: UniqueSlotmap<InputId, u8> = UniqueSlotmap::default();
    let x = inputs.insert(0);
    let any = AnyParameterId::from(x);
    assert_eq!(any, AnyParameterId::Input(x));
    assert_eq!(any.assume_input(), x);
    match any {
        AnyParameterId::Input(back) => assert_eq!(back, x),
        AnyParameterId::Output(_) => panic!("wrapped input handle read back as output"),
    }
}

#[test]
fn handle_fields_support_external_pinning() {
    let mut map: NodeMap<u8> = UniqueSlotmap::default();
    let h = map.insert(1);
    let rebuilt: NodeId = UniqueId {
        key: InternalKey { index: h.key.index, generation: h.key.generation },
        map_id: h.map_id,
        kind: std::marker::PhantomData,
    };
    assert_eq!(rebuilt, h);
    assert_eq!(map.get(rebuilt), Some(&1));
}
