use driftwood::lww_map::{LwwMap, Stamp};
use driftwood::vclock::Dot;

#[test]
fn put_and_get_value() {
    let mut map = LwwMap::new("node-a");
    let key = "name".to_string();

    map.put(key.clone(), "Jhaydn".to_string(), 100);

    assert_eq!(map.get(&key), Some(&"Jhaydn".to_string()));
}

#[test]
fn newer_timestamp_replaces_older_value() {
    let mut map = LwwMap::new("node-a");
    let key = "status".to_string();

    map.put(key.clone(), "old".to_string(), 100);
    map.put(key.clone(), "new".to_string(), 200);

    assert_eq!(map.get(&key), Some(&"new".to_string()));
}

#[test]
fn older_timestamp_does_not_replace_newer_value() {
    let mut map = LwwMap::new("node-a");
    let key = "status".to_string();

    map.put(key.clone(), "new".to_string(), 200);
    map.put(key.clone(), "old".to_string(), 100);

    assert_eq!(map.get(&key), Some(&"new".to_string()));
}

#[test]
fn merge_uses_newer_timestamp() {
    let mut left = LwwMap::new("node-a");
    let mut right = LwwMap::new("node-b");

    let key = "status".to_string();

    left.put(key.clone(), "left".to_string(), 100);
    right.put(key.clone(), "right".to_string(), 200);

    left.merge(&right);

    assert_eq!(left.get(&key), Some(&"right".to_string()));
}

#[test]
fn equal_timestamp_uses_actor_as_tiebreaker() {
    let mut left = LwwMap::new("node-a");
    let mut right = LwwMap::new("node-b");

    let key = "status".to_string();

    left.put(key.clone(), "from-a".to_string(), 100);
    right.put(key.clone(), "from-b".to_string(), 100);

    left.merge(&right);

    assert_eq!(left.get(&key), Some(&"from-b".to_string()));
}

#[test]
fn merge_preserves_unique_keys_from_both_replicas() {
    let mut left = LwwMap::new("node-a");
    let mut right = LwwMap::new("node-b");

    let key_a = "first".to_string();
    let key_b = "second".to_string();

    left.put(key_a.clone(), "value-a".to_string(), 100);
    right.put(key_b.clone(), "value-b".to_string(), 100);

    left.merge(&right);

    assert_eq!(left.get(&key_a), Some(&"value-a".to_string()));
    assert_eq!(left.get(&key_b), Some(&"value-b".to_string()));
}

#[test]
fn default_map_belongs_to_anon_and_is_empty() {
    let map = LwwMap::default();
    assert_eq!(map.actor, "anon");
    assert_eq!(map.get(&"x".to_string()), None);
    assert_eq!(map.assigns.len(), 0);
}

#[test]
fn put_advances_the_actor_clock_and_stamps_the_dot() {
    let mut map = LwwMap::new("node-a");
    let key = "k".to_string();
    map.put(key.clone(), "v1".to_string(), 5);
    map.put("other".to_string(), "v2".to_string(), 6);
    assert_eq!(map.clock.get(&"node-a".to_string()), Some(&2));
    let (stamp, val) = map.assigns.get(&key).unwrap();
    assert_eq!(val, "v1");
    assert_eq!(stamp.ts_micros, 5);
    assert_eq!(stamp.dot.actor, "node-a");
    assert_eq!(stamp.dot.counter, 1);
}

#[test]
fn same_actor_equal_timestamp_later_put_wins() {
    let mut map = LwwMap::new("node-a");
    let key = "k".to_string();
    map.put(key.clone(), "first".to_string(), 100);
    map.put(key.clone(), "second".to_string(), 100);
    assert_eq!(map.get(&key), Some(&"second".to_string()));
}

#[test]
fn merge_is_commutative_on_concrete_replicas() {
    let key = "status".to_string();
    let mut a = LwwMap::new("node-a");
    let mut b = LwwMap::new("node-b");
    a.put(key.clone(), "from-a".to_string(), 100);
    b.put(key.clone(), "from-b".to_string(), 100);
    b.put("extra".to_string(), "x".to_string(), 50);

    let mut ab = LwwMap::new("node-a");
    ab.merge(&a);
    ab.merge(&b);
    let mut ba = LwwMap::new("node-b");
    ba.merge(&b);
    ba.merge(&a);
    assert_eq!(ab.get(&key), ba.get(&key));
    assert_eq!(ab.get(&key), Some(&"from-b".to_string()));
    assert_eq!(ab.get(&"extra".to_string()), Some(&"x".to_string()));
    assert_eq!(ba.get(&"extra".to_string()), Some(&"x".to_string()));
    assert_eq!(ab.clock.get(&"node-b".to_string()), Some(&2));
}

#[test]
fn merge_with_itself_changes_nothing() {
    let key = "status".to_string();
    let mut a = LwwMap::new("node-a");
    a.put(key.clone(), "v".to_string(), 100);
    let mut copy = LwwMap::new("node-a");
    copy.merge(&a);
    a.merge(&copy);
    assert_eq!(a.get(&key), Some(&"v".to_string()));
    assert_eq!(a.assigns.len(), 1);
}

#[test]
fn later_stamp_comparison_follows_actor_then_counter() {
    let s = |actor: &str, counter: u64, ts: i128| Stamp {
        dot: Dot { actor: actor.to_string(), counter },
        ts_micros: ts,
    };
    assert!(s("a", 1, 2).later_than(&s("z", 9, 1)));
    assert!(!s("z", 9, 1).later_than(&s("a", 1, 2)));
    assert!(s("node-b", 1, 5).later_than(&s("node-a", 7, 5)));
    assert!(s("node-a", 8, 5).later_than(&s("node-a", 7, 5)));
    assert!(!s("node-a", 7, 5).later_than(&s("node-a", 7, 5)));
    assert!(s("node-aa", 1, 5).later_than(&s("node-a", 1, 5)));
    assert!(s("é", 1, 5).later_than(&s("z", 1, 5)));
}

#[test]
fn merge_grouping_does_not_matter() {
    let key = "k".to_string();
    let mut a = LwwMap::new("node-a");
    let mut b = LwwMap::new("node-b");
    let mut c = LwwMap::new("node-c");
    a.put(key.clone(), "a".to_string(), 10);
    b.put(key.clone(), "b".to_string(), 30);
    c.put(key.clone(), "c".to_string(), 30);
    c.put("only-c".to_string(), "z".to_string(), 1);

    // (a merge b) merge c
    let mut left = LwwMap::new("l");
    left.merge(&a);
    left.merge(&b);
    left.merge(&c);
    // a merge (b merge c)
    let mut bc = LwwMap::new("bc");
    bc.merge(&b);
    bc.merge(&c);
    let mut right = LwwMap::new("r");
    right.merge(&a);
    right.merge(&bc);
    assert_eq!(left.get(&key), right.get(&key));
    assert_eq!(left.get(&key), Some(&"c".to_string()));
    assert_eq!(right.get(&"only-c".to_string()), Some(&"z".to_string()));
}
