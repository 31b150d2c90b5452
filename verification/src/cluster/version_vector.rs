//! Version vectors: for each node, the last version of it that was seen.

use crate::node::NodeId;
use crate::node_map::NodeMap;
use crate::node_set::NodeSet;
use vstd::prelude::*;

verus! {

/// The greater of two versions.
pub open spec fn newer(a: u16, b: u16) -> u16 {
    if a >= b {
        a
    } else {
        b
    }
}

/// The vector `versions` after version `version` of `node_id` was seen: the
/// entry of `node_id` is the greater of `version` and what it held.
pub open spec fn recorded(versions: Map<NodeId, u16>, node_id: NodeId, version: u16) -> Map<NodeId, u16> {
    if versions.contains_key(node_id) {
        versions.insert(node_id, newer(versions[node_id], version))
    } else {
        versions.insert(node_id, version)
    }
}

/// The point-wise maximum of two vectors: a node is in the result if it is
/// in either, with the greater of its versions.
pub open spec fn merged(a: Map<NodeId, u16>, b: Map<NodeId, u16>) -> Map<NodeId, u16> {
    Map::new(
        |id: NodeId| a.contains_key(id) || b.contains_key(id),
        |id: NodeId|
            if a.contains_key(id) && b.contains_key(id) {
                newer(a[id], b[id])
            } else if a.contains_key(id) {
                a[id]
            } else {
                b[id]
            },
    )
}

/// The nodes of which `lhs` knows something newer than `rhs` does: those in
/// `lhs` that `rhs` lacks or holds at a strictly lower version.
pub open spec fn behind(lhs: Map<NodeId, u16>, rhs: Map<NodeId, u16>) -> Set<NodeId> {
    Set::new(|id: NodeId| lhs.contains_key(id) && (!rhs.contains_key(id) || rhs[id] < lhs[id]))
}

/// Associates node identities with the last version seen of each.
#[derive(Debug, PartialEq, Eq)]
pub struct VersionVector {
    versions: NodeMap<u16>,
}

impl View for VersionVector {
    type V = Map<NodeId, u16>;

    closed spec fn view(&self) -> Map<NodeId, u16> {
        self.versions@
    }
}

impl Clone for VersionVector {
    fn clone(&self) -> (copy: VersionVector)
        ensures
            self.wf() ==> copy.wf() && copy@ == self@,
    {
        VersionVector { versions: self.versions.clone() }
    }
}

impl Default for VersionVector {
    fn default() -> (vector: VersionVector)
        ensures
            vector.wf(),
            vector@ == Map::<NodeId, u16>::empty(),
    {
        VersionVector { versions: NodeMap::new() }
    }
}

impl VersionVector {
    /// The representation invariant of the vector.
    pub closed spec fn wf(&self) -> bool {
        self.versions.wf()
    }

    /// The vector that knows of no node.
    pub fn new() -> (vector: VersionVector)
        ensures
            vector.wf(),
            vector@ == Map::<NodeId, u16>::empty(),
    {
        VersionVector { versions: NodeMap::new() }
    }

    /// The version recorded for `node_id`, if any.
    pub fn get(&self, node_id: &NodeId) -> (version: Option<u16>)
        requires
            self.wf(),
        ensures
            version == (if self@.contains_key(*node_id) {
                Some(self@[*node_id])
            } else {
                None
            }),
    {
        match self.versions.get(node_id) {
            Some(version) => Some(*version),
            None => None,
        }
    }

    /// The number of nodes in the vector.
    pub fn len(&self) -> (count: usize)
        requires
            self.wf(),
        ensures
            count == self@.dom().len(),
    {
        self.versions.len()
    }

    /// Sets the version of `node_id` to `version`, whatever it was.
    pub fn insert(&mut self, node_id: NodeId, version: u16)
        requires
            old(self).wf(),
        ensures
            final(self).wf(),
            final(self)@ == old(self)@.insert(node_id, version),
    {
        self.versions.insert(node_id, version);
    }

    /// Records that version `version` of `node_id` was seen.
    pub fn record_version(&mut self, node_id: NodeId, version: u16)
        requires
            old(self).wf(),
        ensures
            final(self).wf(),
            final(self)@ == recorded(old(self)@, node_id, version),
    {
        match self.versions.get_mut(&node_id) {
            Some(existing) => {
                if *existing < version {
                    *existing = version;
                }
            },
            None => {
                self.versions.insert(node_id, version);
            },
        }
    }

    /// Records every entry of `other`.
    pub fn merge(&mut self, other: &VersionVector)
        requires
            old(self).wf(),
            other.wf(),
        ensures
            final(self).wf(),
            final(self)@ == merged(old(self)@, other@),
    {
        let count = other.versions.len();
        let mut next: usize = 0;
        proof {
            other.versions.lemma_ordered_keys();
        }
        while next < count
            invariant
                next <= count,
                count == other.versions.ordered_keys().len(),
                other.wf(),
                self.wf(),
                self@ == merged(
                    old(self)@,
                    other@.restrict(other.versions.ordered_keys().take(next as int).to_set()),
                ),
            decreases count - next,
        {
            let node_id = other.versions.key_at(next);
            let version = *other.versions.value_at(next);
            self.record_version(node_id, version);
            proof {
                let keys = other.versions.ordered_keys();
                let seen = keys.take(next as int);
                assert(keys.take(next + 1) =~= seen.push(node_id));
                seen.lemma_push_to_set_commute(node_id);
            }
            next += 1;
        }
        proof {
            let keys = other.versions.ordered_keys();
            assert(keys.take(next as int) =~= keys);
        }
    }
}

/// Tells which nodes one version vector knows better than another.
#[derive(Debug, PartialEq, Eq)]
pub struct VersionVectorOffset {
    /// The nodes whose latest version on the left-hand side the right-hand
    /// side has not seen. The right-hand side lags behind when this set is
    /// not empty.
    pub behind_lhs: NodeSet,
}

impl VersionVectorOffset {
    /// Compares `lhs` with `rhs`.
    pub fn of(lhs: &VersionVector, rhs: &VersionVector) -> (offset: VersionVectorOffset)
        requires
            lhs.wf(),
            rhs.wf(),
        ensures
            offset.behind_lhs.wf(),
            offset.behind_lhs@ == behind(lhs@, rhs@),
    {
        let mut behind_lhs = NodeSet::new();
        let count = lhs.versions.len();
        let mut next: usize = 0;
        while next < count
            invariant
                next <= count,
                count == lhs.versions.ordered_keys().len(),
                lhs.wf(),
                rhs.wf(),
                behind_lhs.wf(),
                behind_lhs@ == behind(
                    lhs@.restrict(lhs.versions.ordered_keys().take(next as int).to_set()),
                    rhs@,
                ),
            decreases count - next,
        {
            let node_id = lhs.versions.key_at(next);
            let lhs_version = *lhs.versions.value_at(next);
            match rhs.versions.get(&node_id) {
                Some(rhs_version) => {
                    if *rhs_version < lhs_version {
                        behind_lhs.insert(node_id);
                    }
                },
                None => {
                    behind_lhs.insert(node_id);
                },
            }
            proof {
                let keys = lhs.versions.ordered_keys();
                let seen = keys.take(next as int);
                assert(keys.take(next + 1) =~= seen.push(node_id));
                seen.lemma_push_to_set_commute(node_id);
            }
            next += 1;
        }
        proof {
            let keys = lhs.versions.ordered_keys();
            lhs.versions.lemma_ordered_keys();
            assert(keys.take(next as int) =~= keys);
        }
        VersionVectorOffset { behind_lhs }
    }
}

/// Merging version vectors is associative.
pub proof fn lemma_merge_is_associative(a: VersionVector, b: VersionVector, c: VersionVector)
    ensures
        merged(merged(a@, b@), c@) == merged(a@, merged(b@, c@)),
{
}

/// Merging version vectors is commutative.
pub proof fn lemma_merge_is_commutative(a: VersionVector, b: VersionVector)
    ensures
        merged(a@, b@) == merged(b@, a@),
{
}

/// Merging a version vector a second time changes nothing.
pub proof fn lemma_merge_is_idempotent(a: VersionVector, b: VersionVector)
    ensures
        merged(merged(a@, b@), b@) == merged(a@, b@),
{
}

/// No version vector lags behind itself.
pub proof fn lemma_offset_of_itself_is_empty(v: VersionVector)
    ensures
        behind(v@, v@) == Set::<NodeId>::empty(),
{
}

} // verus!
