//! Node identities, statuses and versions.

use crate::text::{characters, decimal, parse_u64, parsed_u64, push_decimal};
use std::hash::{Hash, Hasher};
use vstd::prelude::*;

verus! {

/// The SipHash-2-4 digest, under the key of all zeros, of `text` as it is
/// hashed: its bytes in UTF-8, followed by one byte of all ones.
pub uninterp spec fn sip_hash_of(text: Seq<char>) -> u64;

/// Hashes `text`.
///
/// Feeds `text` to a `siphasher::sip::SipHasher` made by `new`, which keys
/// it with zeros, and returns what `finish` gives. The hasher reads its
/// input byte by byte in a fixed order, so the digest depends on `text`
/// alone.
#[verifier::external_body]
fn sip_hash(text: &str) -> (digest: u64)
    ensures
        digest == sip_hash_of(text@),
{
    let mut hasher = siphasher::sip::SipHasher::new();
    text.hash(&mut hasher);
    hasher.finish()
}

/// The text of an identity: its `unique_id`, a dot, and its `generation`.
pub open spec fn node_id_text(id: NodeId) -> Seq<char> {
    decimal(id.unique_id as nat) + seq!['.'] + decimal(id.generation as nat)
}

/// Whether the first dot of `text` is at position `at`.
pub open spec fn is_first_dot(text: Seq<char>, at: int) -> bool {
    &&& 0 <= at < text.len()
    &&& text[at] == '.'
    &&& forall|i: int| 0 <= i < at ==> text[i] != '.'
}

/// The identity that `text` stands for, if it stands for one: a number
/// before its first dot, and a number after it.
pub open spec fn parsed_node_id(text: Seq<char>) -> Option<NodeId> {
    if exists|at: int| is_first_dot(text, at) {
        let at = choose|at: int| is_first_dot(text, at);
        match (parsed_u64(text.take(at)), parsed_u64(text.skip(at + 1))) {
            (Some(unique_id), Some(generation)) => Some(NodeId { unique_id, generation }),
            _ => None,
        }
    } else {
        None
    }
}

/// A text has one first dot at most.
pub proof fn lemma_first_dot_is_unique(text: Seq<char>, a: int, b: int)
    requires
        is_first_dot(text, a),
        is_first_dot(text, b),
    ensures
        a == b,
{
}

/// The text of an identity stands for that identity.
pub proof fn lemma_text_reads_back(id: NodeId)
    ensures
        parsed_node_id(node_id_text(id)) == Some(id),
{
    let first = decimal(id.unique_id as nat);
    let second = decimal(id.generation as nat);
    let text = node_id_text(id);
    let at = first.len() as int;
    crate::text::lemma_decimal_reads_back(id.unique_id as nat);
    crate::text::lemma_decimal_parses_back(id.generation);
    assert(is_first_dot(text, at)) by {
    }
    assert(text.take(at) =~= first);
    assert(text.skip(at + 1) =~= second);
}

/// Identifies one run of one node.
///
/// Two identities with the same `unique_id` and different `generation`s name
/// the same host before and after a restart; the higher generation supersedes
/// the lower.
#[derive(Copy, Clone, PartialEq, Eq, PartialOrd, Ord, Debug, Hash, Structural)]
pub struct NodeId {
    /// A digest of the node's advertised URL, the same across restarts.
    pub unique_id: u64,
    /// The node's start time, in seconds since the UNIX epoch.
    pub generation: u64,
}

impl NodeId {
    /// The total order on identities: by `unique_id`, then by `generation`.
    pub open spec fn precedes(self, other: NodeId) -> bool {
        self.unique_id < other.unique_id || (self.unique_id == other.unique_id && self.generation
            < other.generation)
    }

    /// The identity of the run of generation `generation` of the node whose
    /// URL has the digest `unique_id`.
    pub fn new(unique_id: u64, generation: u64) -> (id: NodeId)
        ensures
            id == (NodeId { unique_id, generation }),
    {
        NodeId { unique_id, generation }
    }

    /// The identity of the node that advertises `url`, given in its
    /// canonical text, and that started `node_started_at` seconds after the
    /// UNIX epoch.
    pub fn from_url(url: &str, node_started_at: u64) -> (id: NodeId)
        ensures
            id == (NodeId { unique_id: sip_hash_of(url@), generation: node_started_at }),
    {
        NodeId::new(sip_hash(url), node_started_at)
    }

    /// The text of the identity: `unique_id`, a dot, and `generation`.
    pub fn to_string(&self) -> (text: String)
        ensures
            text@ == node_id_text(*self),
    {
        let mut text = String::new();
        push_decimal(&mut text, self.unique_id);
        proof {
            reveal_strlit(".");
        }
        text.append(".");
        push_decimal(&mut text, self.generation);
        text
    }

    /// Reads an identity from its text.
    pub fn parse(text: &str) -> (id: Result<NodeId, ParseNodeIdError>)
        ensures
            id == (match parsed_node_id(text@) {
                Some(id) => Ok::<NodeId, ParseNodeIdError>(id),
                None => Err(ParseNodeIdError),
            }),
    {
        let chars = characters(text);
        let mut at: usize = 0;
        while at < chars.len() && chars[at] != '.'
            invariant
                at <= chars@.len(),
                forall|i: int| 0 <= i < at ==> chars@[i] != '.',
            decreases chars@.len() - at,
        {
            at += 1;
        }
        if at == chars.len() {
            return Err(ParseNodeIdError);
        }
        assert(is_first_dot(chars@, at as int));
        let unique_id = match parse_u64(&chars, 0, at) {
            Some(unique_id) => unique_id,
            None => {
                return Err(ParseNodeIdError);
            },
        };
        let generation = match parse_u64(&chars, at + 1, chars.len()) {
            Some(generation) => generation,
            None => {
                return Err(ParseNodeIdError);
            },
        };
        Ok(NodeId { unique_id, generation })
    }

    /// Whether `self` comes strictly before `other` in the order of identities.
    pub fn is_before(&self, other: &NodeId) -> (before: bool)
        ensures
            before == self.precedes(*other),
    {
        self.unique_id < other.unique_id || (self.unique_id == other.unique_id && self.generation
            < other.generation)
    }
}

impl std::str::FromStr for NodeId {
    type Err = ParseNodeIdError;

    /// Reads an identity from its text, as `NodeId::parse` does.
    fn from_str(s: &str) -> (id: Result<NodeId, ParseNodeIdError>)
        ensures
            id == (match parsed_node_id(s@) {
                Some(id) => Ok::<NodeId, ParseNodeIdError>(id),
                None => Err(ParseNodeIdError),
            }),
    {
        NodeId::parse(s)
    }
}

/// Tells that a text does not stand for a node identity.
#[derive(Debug, PartialEq, Eq, Structural)]
pub struct ParseNodeIdError;

impl ParseNodeIdError {
    /// What went wrong, in words.
    pub fn to_string(&self) -> (text: String)
        ensures
            text@ == "Cannot parse NodeId"@,
    {
        String::from_str("Cannot parse NodeId")
    }
}

/// The membership status of a node, in order of priority: when two views of
/// a node disagree at the same version, the later variant wins.
#[derive(Debug, PartialEq, Eq, Clone, Copy, PartialOrd, Ord, Structural)]
pub enum NodeStatus {
    /// The node asks to join. A node applies this status to itself.
    Joining,
    /// The node was admitted by the cluster leader.
    Up,
    /// The node is about to leave. A node applies this status to itself.
    Leaving,
    /// The cluster leader acknowledged the departure.
    Exiting,
    /// The node was declared unreachable. This status is final.
    Down,
}

impl NodeStatus {
    /// The priority of the status, from 1 (`Joining`) to 5 (`Down`).
    pub open spec fn priority(self) -> u8 {
        match self {
            NodeStatus::Joining => 1,
            NodeStatus::Up => 2,
            NodeStatus::Leaving => 3,
            NodeStatus::Exiting => 4,
            NodeStatus::Down => 5,
        }
    }

    /// The status of higher priority among `self` and `other`.
    pub open spec fn stronger(self, other: NodeStatus) -> NodeStatus {
        if self.priority() >= other.priority() {
            self
        } else {
            other
        }
    }

    /// The name of the status.
    pub open spec fn name(self) -> Seq<char> {
        match self {
            NodeStatus::Joining => "Joining"@,
            NodeStatus::Up => "Up"@,
            NodeStatus::Leaving => "Leaving"@,
            NodeStatus::Exiting => "Exiting"@,
            NodeStatus::Down => "Down"@,
        }
    }

    /// The name of the status.
    pub fn to_string(&self) -> (text: String)
        ensures
            text@ == self.name(),
    {
        match self {
            NodeStatus::Joining => String::from_str("Joining"),
            NodeStatus::Up => String::from_str("Up"),
            NodeStatus::Leaving => String::from_str("Leaving"),
            NodeStatus::Exiting => String::from_str("Exiting"),
            NodeStatus::Down => String::from_str("Down"),
        }
    }

    /// The number that stands for the status on the wire.
    pub fn to_u8(self) -> (number: u8)
        ensures
            number == self.priority(),
    {
        match self {
            NodeStatus::Joining => 1,
            NodeStatus::Up => 2,
            NodeStatus::Leaving => 3,
            NodeStatus::Exiting => 4,
            NodeStatus::Down => 5,
        }
    }

    /// The status that `number` stands for, if it is one of 1 to 5.
    pub fn from_u8(number: u8) -> (status: Option<NodeStatus>)
        ensures
            1 <= number <= 5 <==> status is Some,
            status matches Some(s) ==> s.priority() == number,
    {
        match number {
            1 => Some(NodeStatus::Joining),
            2 => Some(NodeStatus::Up),
            3 => Some(NodeStatus::Leaving),
            4 => Some(NodeStatus::Exiting),
            5 => Some(NodeStatus::Down),
            _ => None,
        }
    }

    /// The status of higher priority among `self` and `other`.
    pub fn max(self, other: NodeStatus) -> (winner: NodeStatus)
        ensures
            winner == self.stronger(other),
    {
        if self.to_u8() >= other.to_u8() {
            self
        } else {
            other
        }
    }
}

/// A counter of state changes.
#[derive(Debug, PartialEq, Eq, PartialOrd, Ord, Clone, Copy, Structural)]
pub struct Version {
    number: u64,
}

impl Version {
    /// The number of changes counted so far.
    pub closed spec fn value(self) -> nat {
        self.number as nat
    }

    /// The number of changes counted so far.
    pub fn number(&self) -> (number: u64)
        ensures
            number == self.value(),
    {
        self.number
    }

    /// The counter before any change.
    pub fn new() -> (version: Version)
        ensures
            version.value() == 0,
    {
        Version { number: 0 }
    }

    /// Counts one more change.
    pub fn incr(&mut self)
        requires
            old(self).value() < u64::MAX,
        ensures
            final(self).value() == old(self).value() + 1,
    {
        self.number += 1;
    }
}

} // verus!
