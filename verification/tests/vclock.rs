use driftwood::vclock::VClock;

#[test]
fn increment_increases_actor_counter() {
    let mut clock = VClock::default();
    let actor = "node-a".to_string();

    let first = clock.inc(&actor);
    let second = clock.inc(&actor);

    assert_eq!(first, 1);
    assert_eq!(second, 2);
    assert_eq!(clock.get(&actor), Some(&2));
}

#[test]
fn merge_takes_max_counter_for_each_actor() {
    let mut left = VClock::default();
    let mut right = VClock::default();

    let actor_a = "node-a".to_string();
    let actor_b = "node-b".to_string();

    left.inc(&actor_a);
    left.inc(&actor_a);

    right.inc(&actor_a);
    right.inc(&actor_b);
    right.inc(&actor_b);
    right.inc(&actor_b);

    left.merge(&right);

    assert_eq!(left.get(&actor_a), Some(&2));
    assert_eq!(left.get(&actor_b), Some(&3));
}

#[test]
fn clock_dominates_older_clock() {
    let mut newer = VClock::default();
    let mut older = VClock::default();

    let actor = "node-a".to_string();

    older.inc(&actor);

    newer.inc(&actor);
    newer.inc(&actor);

    assert!(newer.dominates(&older));
    assert!(!older.dominates(&newer));
}

#[test]
fn equal_clocks_dominate_each_other() {
    let mut first = VClock::default();
    let mut second = VClock::default();

    let actor = "node-a".to_string();

    first.inc(&actor);
    second.inc(&actor);

    assert!(first.dominates(&second));
    assert!(second.dominates(&first));
}

#[test]
fn independent_actors_do_not_dominate_each_other() {
    let mut first = VClock::default();
    let mut second = VClock::default();

    let actor_a = "node-a".to_string();
    let actor_b = "node-b".to_string();

    first.inc(&actor_a);
    second.inc(&actor_b);

    assert!(!first.dominates(&second));
    assert!(!second.dominates(&first));
}

#[test]
fn absent_actor_counts_as_zero() {
    let mut clock = VClock::default();
    let a = "node-a".to_string();
    let b = "node-b".to_string();
    assert_eq!(clock.get(&a), None);
    assert_eq!(clock.counter(&a), 0);
    clock.inc(&a);
    assert_eq!(clock.counter(&a), 1);
    assert_eq!(clock.counter(&b), 0);
    assert!(clock.dominates(&VClock::default()));
    assert!(!VClock::default().dominates(&clock));
}

#[test]
fn merge_is_commutative_on_concrete_clocks() {
    let a = "node-a".to_string();
    let b = "node-b".to_string();
    let c = "node-c".to_string();
    let mut x = VClock::default();
    x.inc(&a);
    x.inc(&a);
    x.inc(&b);
    let mut y = VClock::default();
    y.inc(&b);
    y.inc(&b);
    y.inc(&c);
    let mut xy = VClock::from_entries(x.entries().clone()).unwrap();
    xy.merge(&y);
    let mut yx = VClock::from_entries(y.entries().clone()).unwrap();
    yx.merge(&x);
    for actor in [&a, &b, &c] {
        assert_eq!(xy.get(actor), yx.get(actor));
    }
    assert_eq!(xy.get(&a), Some(&2));
    assert_eq!(xy.get(&b), Some(&2));
    assert_eq!(xy.get(&c), Some(&1));
    assert!(xy.dominates(&x) && xy.dominates(&y));
}

#[test]
fn merge_is_idempotent_on_concrete_clock() {
    let a = "node-a".to_string();
    let mut x = VClock::default();
    x.inc(&a);
    x.inc(&a);
    let copy = VClock::from_entries(x.entries().clone()).unwrap();
    x.merge(&copy);
    assert_eq!(x.get(&a), Some(&2));
    assert_eq!(x.entries().len(), 1);
}

#[test]
fn merge_keeps_explicit_zero_counters() {
    let a = "node-a".to_string();
    let zero = VClock::from_entries(vec![(a.clone(), 0)]).unwrap();
    let mut x = VClock::default();
    x.merge(&zero);
    assert_eq!(x.get(&a), Some(&0));
}

#[test]
fn from_entries_refuses_repeated_actor() {
    let a = "node-a".to_string();
    assert!(VClock::from_entries(vec![(a.clone(), 1), (a.clone(), 2)]).is_none());
    let c = VClock::from_entries(vec![(a.clone(), 4), ("node-b".to_string(), 2)]).unwrap();
    assert_eq!(c.get(&a), Some(&4));
}

#[test]
fn dominance_is_transitive_on_concrete_clocks() {
    let a = "node-a".to_string();
    let mut c1 = VClock::default();
    c1.inc(&a);
    let mut c2 = VClock::from_entries(c1.entries().clone()).unwrap();
    c2.inc(&a);
    let mut c3 = VClock::from_entries(c2.entries().clone()).unwrap();
    c3.inc(&"node-b".to_string());
    assert!(c2.dominates(&c1));
    assert!(c3.dominates(&c2));
    assert!(c3.dominates(&c1));
}

#[test]
fn clocks_with_same_counters_compare_equal() {
    let a = "node-a".to_string();
    let b = "node-b".to_string();
    let x = VClock::from_entries(vec![(a.clone(), 1), (b.clone(), 2)]).unwrap();
    let y = VClock::from_entries(vec![(b.clone(), 2), (a.clone(), 1)]).unwrap();
    let z = VClock::from_entries(vec![(b.clone(), 2)]).unwrap();
    let w = VClock::from_entries(vec![(a.clone(), 1), (b.clone(), 3)]).unwrap();
    assert_eq!(x, y);
    assert_ne!(x, z);
    assert_ne!(z, x);
    assert_ne!(x, w);
    assert_eq!(VClock::default(), VClock::default());
    assert_eq!(x.clone(), x);
}

#[test]
fn entries_are_kept_in_actor_order() {
    let mut clock = VClock::default();
    clock.inc(&"node-c".to_string());
    clock.inc(&"node-a".to_string());
    clock.inc(&"node-b".to_string());
    clock.inc(&"node-a".to_string());
    let names: Vec<&str> = clock.entries().iter().map(|(a, _)| a.as_str()).collect();
    assert_eq!(names, vec!["node-a", "node-b", "node-c"]);
    assert_eq!(clock.entries()[0].1, 2);

    let mut other = VClock::default();
    other.inc(&"alpha".to_string());
    other.inc(&"zeta".to_string());
    clock.merge(&other);
    let names: Vec<&str> = clock.entries().iter().map(|(a, _)| a.as_str()).collect();
    assert_eq!(names, vec!["alpha", "node-a", "node-b", "node-c", "zeta"]);

    let built = VClock::from_entries(vec![("z".to_string(), 1), ("b".to_string(), 2), ("m".to_string(), 3)]).unwrap();
    let names: Vec<&str> = built.entries().iter().map(|(a, _)| a.as_str()).collect();
    assert_eq!(names, vec!["b", "m", "z"]);
}
