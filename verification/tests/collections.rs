use council::node::NodeId;
use council::node_map::NodeMap;
use council::node_set::NodeSet;
use council::url_set::UrlSet;

fn id(n: u64) -> NodeId {
    NodeId { unique_id: n, generation: 1 }
}

#[test]
fn node_set_holds_each_identity_once() {
    let mut set = NodeSet::new();
    assert!(set.is_empty());
    set.insert(id(3));
    set.insert(id(1));
    set.insert(id(3));
    set.insert(id(2));
    assert_eq!(set.len(), 3);
    assert!(set.contains(&id(1)) && set.contains(&id(2)) && set.contains(&id(3)));
    assert!(!set.contains(&id(4)));
    assert!(!set.contains(&NodeId { unique_id: 1, generation: 2 }));
    assert_eq!(set.to_vec(), vec![id(1), id(2), id(3)]);
}

#[test]
fn node_set_equality_ignores_insertion_order() {
    let mut a = NodeSet::new();
    let mut b = NodeSet::new();
    for n in [1, 2, 3] {
        a.insert(id(n));
    }
    for n in [3, 1, 2] {
        b.insert(id(n));
    }
    assert!(a.equals(&b));
    assert_eq!(a, b);
    b.insert(id(4));
    assert!(!a.equals(&b));
    assert!(a.clone().equals(&a));
}

#[test]
fn node_set_extend_is_union() {
    let mut a = NodeSet::new();
    let mut b = NodeSet::new();
    for n in [1, 3, 5] {
        a.insert(id(n));
    }
    for n in [2, 3, 4] {
        b.insert(id(n));
    }
    a.extend(&b);
    assert_eq!(a.to_vec(), vec![id(1), id(2), id(3), id(4), id(5)]);
    assert_eq!(NodeSet::from_increasing(vec![id(1), id(2), id(3), id(4), id(5)]), a);
}

#[test]
fn node_map_insert_get_and_replace() {
    let mut map: NodeMap<u64> = NodeMap::new();
    assert_eq!(map.len(), 0);
    map.insert(id(2), 20);
    map.insert(id(1), 10);
    map.insert(id(3), 30);
    map.insert(id(2), 21);
    assert_eq!(map.len(), 3);
    assert_eq!(map.get(&id(1)), Some(&10));
    assert_eq!(map.get(&id(2)), Some(&21));
    assert_eq!(map.get(&id(4)), None);
    assert!(map.contains_key(&id(3)));
    assert!(!map.contains_key(&id(0)));
    assert_eq!(map.position(&id(2)), Some(1));
    assert_eq!(map.position(&id(9)), None);
}

#[test]
fn node_map_is_walked_in_the_order_of_its_keys() {
    let mut map: NodeMap<u64> = NodeMap::new();
    for n in [5, 1, 4, 2, 3] {
        map.insert(id(n), n * 10);
    }
    for at in 0..5 {
        assert_eq!(map.key_at(at), id(at as u64 + 1));
        assert_eq!(*map.value_at(at), (at as u64 + 1) * 10);
    }
    assert_eq!(map.key_set().to_vec(), vec![id(1), id(2), id(3), id(4), id(5)]);
    assert_eq!(map.clone().into_values(), vec![10, 20, 30, 40, 50]);
}

#[test]
fn node_map_values_change_in_place() {
    let mut map: NodeMap<u64> = NodeMap::new();
    map.insert(id(1), 10);
    if let Some(value) = map.get_mut(&id(1)) {
        *value += 1;
    }
    assert!(map.get_mut(&id(2)).is_none());
    assert_eq!(map.get(&id(1)), Some(&11));
}

#[test]
fn url_set_keeps_the_order_of_insertion() {
    let mut set = UrlSet::new();
    assert!(set.is_empty());
    assert!(set.insert("http://b/".to_string()));
    assert!(set.insert("http://a/".to_string()));
    assert!(!set.insert("http://b/".to_string()));
    assert_eq!(set.len(), 2);
    assert_eq!(set.get(0), "http://b/");
    assert_eq!(set.get(1), "http://a/");
    assert!(set.contains(&"http://a/".to_string()));
    assert!(!set.contains(&"http://c/".to_string()));
}

#[test]
fn url_set_remove_keeps_the_others_in_order() {
    let mut set = UrlSet::new();
    for url in ["http://a/", "http://b/", "http://c/"] {
        set.insert(url.to_string());
    }
    assert!(set.remove(&"http://b/".to_string()));
    assert!(!set.remove(&"http://b/".to_string()));
    assert_eq!(set.len(), 2);
    assert_eq!(set.get(0), "http://a/");
    assert_eq!(set.get(1), "http://c/");
    assert_eq!(set.clone(), set);
}
