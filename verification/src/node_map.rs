//! A map keyed by node identity, kept as two vectors in the order of the keys.

use crate::node::NodeId;
use crate::node_set::{lemma_increasing_is_distinct, strictly_increasing, NodeSet};
use vstd::prelude::*;

verus! {

/// A finite map from node identities to values of type `V`.
///
/// The keys are held in strictly increasing order, so that two maps with the
/// same entries have the same representation, and a walk over a map visits
/// its entries in the order of their keys.
#[derive(Debug, PartialEq, Eq)]
pub struct NodeMap<V> {
    keys: Vec<NodeId>,
    values: Vec<V>,
}

impl<V: Clone> Clone for NodeMap<V> {
    /// A map with the same keys, each with a clone of its value.
    fn clone(&self) -> (copy: NodeMap<V>)
        ensures
            self.wf() ==> {
                &&& copy.wf()
                &&& copy.ordered_keys() == self.ordered_keys()
                &&& copy@.dom() == self@.dom()
                &&& forall|id: NodeId| #[trigger]
                    self@.contains_key(id) ==> cloned(self@[id], copy@[id])
            },
    {
        NodeMap { keys: self.keys.clone(), values: self.values.clone() }
    }
}

impl<V> View for NodeMap<V> {
    type V = Map<NodeId, V>;

    closed spec fn view(&self) -> Map<NodeId, V> {
        Map::new(|id: NodeId| self.keys@.contains(id), |id: NodeId| self.values@[self.keys@.index_of(id)])
    }
}

impl<V> NodeMap<V> {
    /// The representation invariant: one value for each key, and the keys in
    /// strictly increasing order. Every constructor establishes it and every
    /// method keeps it.
    pub closed spec fn wf(&self) -> bool {
        &&& self.keys@.len() == self.values@.len()
        &&& strictly_increasing(self.keys@)
    }

    /// The keys of the map, in increasing order.
    pub closed spec fn ordered_keys(&self) -> Seq<NodeId> {
        self.keys@
    }

    /// The values of the map, in the order of their keys.
    pub open spec fn ordered_values(&self) -> Seq<V> {
        Seq::new(self.ordered_keys().len(), |at: int| self@[self.ordered_keys()[at]])
    }

    /// The ordered keys are the domain of the map, each listed once and in
    /// increasing order.
    pub proof fn lemma_ordered_keys(&self)
        requires
            self.wf(),
        ensures
            strictly_increasing(self.ordered_keys()),
            self.ordered_keys().no_duplicates(),
            self.ordered_keys().to_set() == self@.dom(),
            self@.dom().finite(),
            self@.dom().len() == self.ordered_keys().len(),
    {
        lemma_increasing_is_distinct(self.keys@);
        vstd::seq_lib::seq_to_set_is_finite(self.keys@);
    }

    /// The empty map.
    pub fn new() -> (map: NodeMap<V>)
        ensures
            map.wf(),
            map@ == Map::<NodeId, V>::empty(),
    {
        NodeMap { keys: Vec::new(), values: Vec::new() }
    }

    /// The number of entries.
    pub fn len(&self) -> (count: usize)
        requires
            self.wf(),
        ensures
            count == self@.dom().len(),
            count == self.ordered_keys().len(),
    {
        proof {
            self.lemma_ordered_keys();
        }
        self.keys.len()
    }

    /// The first position whose key does not come before `id`.
    fn lower_bound(&self, id: &NodeId) -> (at: usize)
        requires
            self.wf(),
        ensures
            at <= self.keys@.len(),
            forall|i: int| 0 <= i < at ==> (#[trigger] self.keys@[i]).precedes(*id),
            forall|i: int| at <= i < self.keys@.len() ==> !(#[trigger] self.keys@[i]).precedes(*id),
    {
        let mut low: usize = 0;
        let mut high: usize = self.keys.len();
        while low < high
            invariant
                low <= high <= self.keys@.len(),
                strictly_increasing(self.keys@),
                forall|i: int| 0 <= i < low ==> (#[trigger] self.keys@[i]).precedes(*id),
                forall|i: int| high <= i < self.keys@.len() ==> !(#[trigger] self.keys@[i]).precedes(*id),
            decreases high - low,
        {
            let middle: usize = low + (high - low) / 2;
            if self.keys[middle].is_before(id) {
                low = middle + 1;
            } else {
                high = middle;
            }
        }
        low
    }

    /// The position of `id` among the ordered keys, if it is a key.
    pub fn position(&self, id: &NodeId) -> (found: Option<usize>)
        requires
            self.wf(),
        ensures
            (match found {
                Some(at) => at < self.ordered_keys().len() && self.ordered_keys()[at as int] == *id
                    && self@.contains_key(*id),
                None => !self@.contains_key(*id),
            }),
    {
        let at = self.lower_bound(id);
        if at < self.keys.len() && self.keys[at] == *id {
            Some(at)
        } else {
            None
        }
    }

    /// Whether `id` is a key of the map.
    pub fn contains_key(&self, id: &NodeId) -> (found: bool)
        requires
            self.wf(),
        ensures
            found == self@.contains_key(*id),
    {
        self.position(id).is_some()
    }

    /// The value of `id`, if it is a key.
    pub fn get(&self, id: &NodeId) -> (value: Option<&V>)
        requires
            self.wf(),
        ensures
            (match value {
                Some(v) => self@.contains_key(*id) && *v == self@[*id],
                None => !self@.contains_key(*id),
            }),
    {
        match self.position(id) {
            Some(at) => Some(&self.values[at]),
            None => None,
        }
    }

    /// The key at position `at` in the order of the keys.
    pub fn key_at(&self, at: usize) -> (id: NodeId)
        requires
            self.wf(),
            at < self.ordered_keys().len(),
        ensures
            id == self.ordered_keys()[at as int],
            self@.contains_key(id),
    {
        self.keys[at]
    }

    /// The value of the key at position `at` in the order of the keys.
    pub fn value_at(&self, at: usize) -> (value: &V)
        requires
            self.wf(),
            at < self.ordered_keys().len(),
        ensures
            self@.contains_key(self.ordered_keys()[at as int]),
            *value == self@[self.ordered_keys()[at as int]],
    {
        &self.values[at]
    }

    /// Gives `id` the value `value`, whether or not it had one.
    pub fn insert(&mut self, id: NodeId, value: V)
        requires
            old(self).wf(),
        ensures
            final(self).wf(),
            final(self)@ == old(self)@.insert(id, value),
    {
        let at = self.lower_bound(&id);
        if at < self.keys.len() && self.keys[at] == id {
            self.values[at] = value;
        } else {
            let ghost keys_before = self.keys@;
            self.keys.insert(at, id);
            self.values.insert(at, value);
            proof {
                // Every key is still there, one place further where it
                // came after the new one.
                assert forall|k: NodeId| old(self)@.insert(id, value).contains_key(k) implies self@.contains_key(
                    k,
                ) by {
                    if k == id {
                        assert(self.keys@[at as int] == k);
                    } else {
                        let i = choose|i: int| 0 <= i < keys_before.len() && keys_before[i] == k;
                        if i < at {
                            assert(self.keys@[i] == k);
                        } else {
                            assert(self.keys@[i + 1] == k);
                        }
                    }
                }
            }
        }
    }

    /// The value of `id`, to be changed in place, if `id` is a key.
    pub fn get_mut(&mut self, id: &NodeId) -> (value: Option<&mut V>)
        requires
            old(self).wf(),
        ensures
            (match value {
                Some(v) => old(self)@.contains_key(*id) && *v == old(self)@[*id] && final(self).wf()
                    && final(self)@ == old(self)@.insert(*id, *final(v)),
                None => !old(self)@.contains_key(*id) && *final(self) == *old(self),
            }),
    {
        match self.position(id) {
            Some(at) => Some(&mut self.values[at]),
            None => None,
        }
    }

    /// The values of the map, in the order of their keys.
    pub fn into_values(self) -> (values: Vec<V>)
        requires
            self.wf(),
        ensures
            values@ == self.ordered_values(),
    {
        self.values
    }

    /// The keys of the map, as a set.
    pub fn key_set(&self) -> (keys: NodeSet)
        requires
            self.wf(),
        ensures
            keys.wf(),
            keys@ == self@.dom(),
    {
        NodeSet::from_increasing(self.keys.clone())
    }
}

} // verus!
