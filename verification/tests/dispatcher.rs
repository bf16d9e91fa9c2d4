use im::dispatcher::Dispatcher;

fn key(s: &str) -> String {
    s.to_string()
}

#[test]
fn add_creates_candidate_once() {
    let mut d: Dispatcher<u32> = Dispatcher::new();
    assert_eq!(d.len(), 0);
    let i = d.add_node_event(key("a:1"), || 7);
    assert_eq!(*d.value_at(i), 7);
    let j = d.add_node_event(key("a:1"), || panic!("a known candidate is not created again"));
    assert_eq!(i, j);
    assert_eq!(d.len(), 1);
    assert_eq!(d.get(&key("a:1")), Some(&7));
}

#[test]
fn add_keeps_other_candidates() {
    let mut d: Dispatcher<u32> = Dispatcher::new();
    d.add_node_event(key("a:1"), || 1);
    d.add_node_event(key("b:2"), || 2);
    d.add_node_event(key("c:3"), || 3);
    assert_eq!(d.len(), 3);
    assert_eq!(d.get(&key("a:1")), Some(&1));
    assert_eq!(d.get(&key("b:2")), Some(&2));
    assert_eq!(d.get(&key("c:3")), Some(&3));
    assert!(!d.contains_key(&key("d:4")));
    assert_eq!(d.find(&key("b:2")), Some(1));
}

#[test]
fn delete_removes_only_that_candidate() {
    let mut d: Dispatcher<u32> = Dispatcher::new();
    d.add_node_event(key("a:1"), || 1);
    d.add_node_event(key("b:2"), || 2);
    assert_eq!(d.del_node_event(&key("a:1")), Some(1));
    assert!(!d.contains_key(&key("a:1")));
    assert_eq!(d.get(&key("b:2")), Some(&2));
    assert_eq!(d.len(), 1);
    assert_eq!(d.del_node_event(&key("a:1")), None);
    assert_eq!(d.len(), 1);
}

#[test]
fn delete_undoes_fresh_add() {
    let mut d: Dispatcher<u32> = Dispatcher::new();
    d.add_node_event(key("a:1"), || 1);
    d.add_node_event(key("z:9"), || 9);
    d.del_node_event(&key("z:9"));
    assert_eq!(d.len(), 1);
    assert_eq!(d.get(&key("a:1")), Some(&1));
    assert_eq!(d.get(&key("z:9")), None);
}

#[test]
fn candidate_changes_in_place() {
    let mut d: Dispatcher<u32> = Dispatcher::new();
    d.add_node_event(key("a:1"), || 1);
    let i = d.add_node_event(key("b:2"), || 2);
    *d.value_at_mut(i) = 20;
    assert_eq!(d.get(&key("b:2")), Some(&20));
    assert_eq!(d.get(&key("a:1")), Some(&1));
}

#[test]
fn notifications_for_different_keys_commute() {
    let mut d1: Dispatcher<u32> = Dispatcher::new();
    d1.add_node_event(key("a:1"), || 1);
    d1.add_node_event(key("b:2"), || 2);
    d1.del_node_event(&key("a:1"));

    let mut d2: Dispatcher<u32> = Dispatcher::new();
    d2.add_node_event(key("b:2"), || 2);
    d2.add_node_event(key("a:1"), || 1);
    d2.del_node_event(&key("a:1"));

    for k in ["a:1", "b:2"] {
        assert_eq!(d1.get(&key(k)), d2.get(&key(k)));
    }
    assert_eq!(d1.len(), d2.len());
}
