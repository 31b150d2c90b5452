use council::cluster::version_vector::{VersionVector, VersionVectorOffset};
use council::node::NodeId;
use council::node_set::NodeSet;
use std::time::SystemTime;
use url::Url;

fn vector(entries: &[(NodeId, u16)]) -> VersionVector {
    let mut vector = VersionVector::new();
    for (id, version) in entries {
        vector.insert(*id, *version);
    }
    vector
}

fn set(ids: &[NodeId]) -> NodeSet {
    let mut set = NodeSet::new();
    for id in ids {
        set.insert(*id);
    }
    set
}

fn merged(a: &VersionVector, b: &VersionVector) -> VersionVector {
    let mut merged = a.clone();
    merged.merge(b);
    merged
}

fn id(n: u64) -> NodeId {
    NodeId { unique_id: n, generation: 1 }
}

#[test]
fn test_version_vector_offset() {
    let now = SystemTime::now().duration_since(SystemTime::UNIX_EPOCH).unwrap().as_secs();
    let node_id_a = NodeId::from_url(Url::parse("http://a.com").unwrap().as_str(), now);
    let node_id_b = NodeId::from_url(Url::parse("http://b.com").unwrap().as_str(), now);
    let node_id_c = NodeId::from_url(Url::parse("http://c.com").unwrap().as_str(), now);
    let node_id_d = NodeId::from_url(Url::parse("http://d.com").unwrap().as_str(), now);

    let a = vector(&[(node_id_a, 1), (node_id_b, 3), (node_id_c, 3)]);
    let b = vector(&[(node_id_a, 1), (node_id_b, 2), (node_id_c, 4), (node_id_d, 1)]);
    let offset = VersionVectorOffset::of(&a, &b);
    assert_eq!(offset.behind_lhs, set(&[node_id_b]));

    let offset = VersionVectorOffset::of(&b, &a);
    assert_eq!(offset.behind_lhs, set(&[node_id_c, node_id_d]));
}

#[test]
fn test_version_vector_record_version() {
    let node_id = NodeId::from_url("http://test.com/", 1);
    let mut version_vector = vector(&[(id(1), 7), (id(2), 9)]);
    assert_eq!(version_vector.get(&node_id), None);
    version_vector.record_version(node_id, 1);
    assert_eq!(version_vector.get(&node_id), Some(1));
    version_vector.record_version(node_id, 2);
    assert_eq!(version_vector.get(&node_id), Some(2));
    version_vector.record_version(node_id, 1);
    assert_eq!(version_vector.get(&node_id), Some(2));
    assert_eq!(version_vector.get(&id(1)), Some(7));
    assert_eq!(version_vector.len(), 3);
}

#[test]
fn test_version_vector_offset_identical() {
    for version_vector in [vector(&[]), vector(&[(id(1), 0)]), vector(&[(id(1), 3), (id(2), 65535)])] {
        assert!(VersionVectorOffset::of(&version_vector, &version_vector).behind_lhs.is_empty());
    }
}

#[test]
fn version_vector_offset_counts_missing_entries_even_at_version_zero() {
    let lhs = vector(&[(id(1), 0)]);
    let rhs = vector(&[]);
    assert_eq!(VersionVectorOffset::of(&lhs, &rhs).behind_lhs, set(&[id(1)]));
    assert!(VersionVectorOffset::of(&rhs, &lhs).behind_lhs.is_empty());
}

#[test]
fn version_vector_merge_is_the_point_wise_maximum() {
    let a = vector(&[(id(1), 1), (id(2), 5)]);
    let b = vector(&[(id(2), 3), (id(3), 8)]);
    assert_eq!(merged(&a, &b), vector(&[(id(1), 1), (id(2), 5), (id(3), 8)]));
    assert_eq!(merged(&b, &a), vector(&[(id(1), 1), (id(2), 5), (id(3), 8)]));
    assert_eq!(merged(&a, &vector(&[])), a);
    assert_eq!(merged(&vector(&[]), &a), a);
}

#[test]
fn version_vector_merge_is_associative() {
    let a = vector(&[(id(1), 1), (id(2), 5)]);
    let b = vector(&[(id(2), 7), (id(3), 8)]);
    let c = vector(&[(id(1), 4), (id(3), 2), (id(4), 0)]);
    assert_eq!(merged(&merged(&a, &b), &c), merged(&a, &merged(&b, &c)));
}

#[test]
fn version_vector_merge_is_commutative() {
    let a = vector(&[(id(1), 1), (id(2), 5)]);
    let b = vector(&[(id(2), 7), (id(3), 8)]);
    assert_eq!(merged(&a, &b), merged(&b, &a));
}

#[test]
fn version_vector_merge_is_idempotent() {
    let a = vector(&[(id(1), 1), (id(2), 5)]);
    let b = vector(&[(id(2), 7), (id(3), 8)]);
    assert_eq!(merged(&merged(&a, &b), &b), merged(&a, &b));
}

#[test]
fn version_vector_default_is_empty() {
    assert_eq!(VersionVector::default(), VersionVector::new());
    assert_eq!(VersionVector::default().len(), 0);
}
