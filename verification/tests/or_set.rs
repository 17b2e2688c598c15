use driftwood::or_set::OrSet;

#[test]
fn added_element_is_present() {
    let mut set = OrSet::new("node-a");
    let item = "apple".to_string();

    set.add(item.clone());

    assert!(set.contains(&item));
}

#[test]
fn removed_element_is_not_present() {
    let mut set = OrSet::new("node-a");
    let item = "apple".to_string();

    set.add(item.clone());
    set.remove(&item);

    assert!(!set.contains(&item));
}

#[test]
fn elements_returns_only_active_values() {
    let mut set = OrSet::new("node-a");

    let apple = "apple".to_string();
    let banana = "banana".to_string();

    set.add(apple.clone());
    set.add(banana.clone());
    set.remove(&apple);

    let elements = set.elements();

    assert!(!elements.contains(&apple));
    assert!(elements.contains(&banana));
}

#[test]
fn merge_combines_elements_from_two_replicas() {
    let mut left = OrSet::new("node-a");
    let mut right = OrSet::new("node-b");

    let apple = "apple".to_string();
    let banana = "banana".to_string();

    left.add(apple.clone());
    right.add(banana.clone());

    left.merge(&right);

    assert!(left.contains(&apple));
    assert!(left.contains(&banana));
}

#[test]
fn removal_propagates_after_merge() {
    let mut left = OrSet::new("node-a");
    let mut right = OrSet::new("node-b");

    let item = "apple".to_string();

    left.add(item.clone());

    right.merge(&left);
    right.remove(&item);

    left.merge(&right);

    assert!(!left.contains(&item));
}

#[test]
fn concurrent_add_survives_observed_remove() {
    let mut left = OrSet::new("node-a");
    let mut right = OrSet::new("node-b");

    let item = "apple".to_string();

    left.add(item.clone());
    right.add(item.clone());

    left.remove(&item);

    left.merge(&right);

    assert!(left.contains(&item));
}

#[test]
fn default_set_is_empty_and_anonymous() {
    let set = OrSet::default();
    assert_eq!(set.actor, "anon");
    assert!(set.elements().is_empty());
    assert!(!set.contains(&"x".to_string()));
}

#[test]
fn re_adding_after_remove_makes_element_present() {
    let mut set = OrSet::new("node-a");
    let item = "apple".to_string();
    set.add(item.clone());
    set.remove(&item);
    set.add(item.clone());
    assert!(set.contains(&item));
    assert_eq!(set.elements(), vec![item.clone()]);
    assert_eq!(set.clock.get(&"node-a".to_string()), Some(&2));
}

#[test]
fn removing_absent_element_changes_nothing() {
    let mut set = OrSet::new("node-a");
    set.add("pear".to_string());
    set.remove(&"apple".to_string());
    assert!(set.contains(&"pear".to_string()));
    assert_eq!(set.removes.len(), 0);
}

#[test]
fn elements_lists_each_element_once() {
    let mut set = OrSet::new("node-a");
    set.add("apple".to_string());
    set.add("apple".to_string());
    set.add("kiwi".to_string());
    let mut elements = set.elements();
    elements.sort();
    assert_eq!(elements, vec!["apple".to_string(), "kiwi".to_string()]);
}

#[test]
fn merge_order_does_not_change_membership() {
    let item = "apple".to_string();
    let mut a = OrSet::new("node-a");
    let mut b = OrSet::new("node-b");
    a.add(item.clone());
    b.merge(&a);
    b.remove(&item);
    b.add("kiwi".to_string());

    let mut ab = OrSet::new("x");
    ab.merge(&a);
    ab.merge(&b);
    let mut ba = OrSet::new("y");
    ba.merge(&b);
    ba.merge(&a);
    let mut e1 = ab.elements();
    let mut e2 = ba.elements();
    e1.sort();
    e2.sort();
    assert_eq!(e1, e2);
    assert_eq!(e1, vec!["kiwi".to_string()]);
}

#[test]
fn merge_with_itself_changes_nothing_in_or_set() {
    let mut a = OrSet::new("node-a");
    a.add("apple".to_string());
    a.add("kiwi".to_string());
    a.remove(&"kiwi".to_string());
    let mut copy = OrSet::new("node-a");
    copy.merge(&a);
    a.merge(&copy);
    assert!(a.contains(&"apple".to_string()));
    assert!(!a.contains(&"kiwi".to_string()));
    assert_eq!(a.adds.len(), 2);
    assert_eq!(a.removes.len(), 1);
}

#[test]
fn or_set_merge_grouping_does_not_matter() {
    let mut a = OrSet::new("node-a");
    let mut b = OrSet::new("node-b");
    let mut c = OrSet::new("node-c");
    a.add("x".to_string());
    b.merge(&a);
    b.remove(&"x".to_string());
    c.add("x".to_string());
    c.add("y".to_string());

    let mut left = OrSet::new("l");
    left.merge(&a);
    left.merge(&b);
    left.merge(&c);
    let mut bc = OrSet::new("bc");
    bc.merge(&b);
    bc.merge(&c);
    let mut right = OrSet::new("r");
    right.merge(&a);
    right.merge(&bc);
    let mut e1 = left.elements();
    let mut e2 = right.elements();
    e1.sort();
    e2.sort();
    assert_eq!(e1, e2);
    assert_eq!(e1, vec!["x".to_string(), "y".to_string()]);
}
