use council::node::{NodeId, NodeStatus, ParseNodeIdError, Version};
use std::hash::{Hash, Hasher};
use std::str::FromStr;

#[test]
fn node_id_is_rendered_as_unique_id_dot_generation() {
    let id = NodeId { unique_id: 12, generation: 3400 };
    assert_eq!(id.to_string(), "12.3400");
    assert_eq!(NodeId { unique_id: 0, generation: 0 }.to_string(), "0.0");
    assert_eq!(
        NodeId { unique_id: u64::MAX, generation: u64::MAX }.to_string(),
        "18446744073709551615.18446744073709551615"
    );
}

#[test]
fn node_id_is_parsed_from_its_text() {
    assert_eq!(NodeId::parse("12.3400"), Ok(NodeId { unique_id: 12, generation: 3400 }));
    assert_eq!(NodeId::from_str("7.9"), Ok(NodeId { unique_id: 7, generation: 9 }));
    assert_eq!(
        NodeId::parse("18446744073709551615.0"),
        Ok(NodeId { unique_id: u64::MAX, generation: 0 })
    );
}

#[test]
fn node_id_parsing_accepts_what_unsigned_numbers_accept() {
    assert_eq!(NodeId::parse("+5.+6"), Ok(NodeId { unique_id: 5, generation: 6 }));
    assert_eq!(NodeId::parse("007.010"), Ok(NodeId { unique_id: 7, generation: 10 }));
}

#[test]
fn node_id_parsing_rejects_malformed_text() {
    for text in [
        "",
        ".",
        "12",
        "12.",
        ".34",
        "1.2.3",
        "a.1",
        "1.b",
        "-1.2",
        "1.-2",
        "+.1",
        "1 .2",
        "18446744073709551616.0",
        "0.18446744073709551616",
        "1,2",
    ] {
        assert_eq!(NodeId::parse(text), Err(ParseNodeIdError), "{:?}", text);
    }
}

#[test]
fn node_id_text_reads_back() {
    for id in [
        NodeId { unique_id: 0, generation: 0 },
        NodeId { unique_id: 10, generation: 100 },
        NodeId { unique_id: 10329820668697215952, generation: 1700000000 },
        NodeId { unique_id: u64::MAX, generation: u64::MAX },
    ] {
        assert_eq!(NodeId::parse(&id.to_string()), Ok(id));
    }
}

#[test]
fn parse_error_has_a_message() {
    assert_eq!(ParseNodeIdError.to_string(), "Cannot parse NodeId");
}

#[test]
fn node_id_from_url_hashes_the_url() {
    let id = NodeId::from_url("http://a.com/", 1700000000);
    assert_eq!(id.unique_id, 10329820668697215952);
    assert_eq!(id.generation, 1700000000);
    assert_eq!(NodeId::from_url("http://b.com/", 1).unique_id, 3962573559779424802);
    assert_eq!(NodeId::from_url("", 1).unique_id, 2368135510806073586);
}

#[test]
fn node_id_from_url_agrees_with_the_hash_of_a_parsed_url() {
    let url = url::Url::parse("http://localhost:8080").unwrap();
    let mut hasher = siphasher::sip::SipHasher::new();
    url.hash(&mut hasher);
    assert_eq!(NodeId::from_url(url.as_str(), 5).unique_id, hasher.finish());
    assert_eq!(NodeId::from_url(url.as_str(), 5).unique_id, 2303487034519637413);
}

#[test]
fn node_id_from_url_is_stable_across_restarts() {
    let first = NodeId::from_url("http://a.com/", 100);
    let second = NodeId::from_url("http://a.com/", 200);
    assert_eq!(first.unique_id, second.unique_id);
    assert_ne!(first, second);
    assert!(first < second);
}

#[test]
fn node_ids_are_ordered_by_unique_id_then_generation() {
    let a = NodeId::new(1, 9);
    let b = NodeId::new(2, 0);
    let c = NodeId::new(2, 1);
    assert!(a.is_before(&b));
    assert!(b.is_before(&c));
    assert!(!c.is_before(&b));
    assert!(!a.is_before(&a));
    assert!(a < b && b < c);
}

#[test]
fn node_status_priorities() {
    assert_eq!(NodeStatus::Joining.to_u8(), 1);
    assert_eq!(NodeStatus::Up.to_u8(), 2);
    assert_eq!(NodeStatus::Leaving.to_u8(), 3);
    assert_eq!(NodeStatus::Exiting.to_u8(), 4);
    assert_eq!(NodeStatus::Down.to_u8(), 5);
    assert!(NodeStatus::Joining < NodeStatus::Up);
    assert!(NodeStatus::Up < NodeStatus::Leaving);
    assert!(NodeStatus::Leaving < NodeStatus::Exiting);
    assert!(NodeStatus::Exiting < NodeStatus::Down);
}

#[test]
fn node_status_from_number() {
    assert_eq!(NodeStatus::from_u8(0), None);
    assert_eq!(NodeStatus::from_u8(1), Some(NodeStatus::Joining));
    assert_eq!(NodeStatus::from_u8(2), Some(NodeStatus::Up));
    assert_eq!(NodeStatus::from_u8(3), Some(NodeStatus::Leaving));
    assert_eq!(NodeStatus::from_u8(4), Some(NodeStatus::Exiting));
    assert_eq!(NodeStatus::from_u8(5), Some(NodeStatus::Down));
    assert_eq!(NodeStatus::from_u8(6), None);
    assert_eq!(NodeStatus::from_u8(255), None);
}

#[test]
fn node_status_max_picks_the_higher_priority() {
    assert_eq!(NodeStatus::Joining.max(NodeStatus::Up), NodeStatus::Up);
    assert_eq!(NodeStatus::Down.max(NodeStatus::Up), NodeStatus::Down);
    assert_eq!(NodeStatus::Leaving.max(NodeStatus::Leaving), NodeStatus::Leaving);
    assert_eq!(NodeStatus::Exiting.max(NodeStatus::Leaving), NodeStatus::Exiting);
}

#[test]
fn node_status_names() {
    assert_eq!(NodeStatus::Joining.to_string(), "Joining");
    assert_eq!(NodeStatus::Up.to_string(), "Up");
    assert_eq!(NodeStatus::Leaving.to_string(), "Leaving");
    assert_eq!(NodeStatus::Exiting.to_string(), "Exiting");
    assert_eq!(NodeStatus::Down.to_string(), "Down");
}

#[test]
fn version_counts_increments() {
    let mut version = Version::new();
    assert_eq!(version.number(), 0);
    version.incr();
    version.incr();
    assert_eq!(version.number(), 2);
    assert!(Version::new() < version);
}
