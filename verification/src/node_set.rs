//! A set of node identities, kept as a strictly increasing vector.

use crate::node::NodeId;
use vstd::prelude::*;

verus! {

/// Whether `ids` is strictly increasing in the order of identities.
pub open spec fn strictly_increasing(ids: Seq<NodeId>) -> bool {
    forall|i: int, j: int| 0 <= i < j < ids.len() ==> (#[trigger] ids[i]).precedes(#[trigger] ids[j])
}

/// A strictly increasing sequence holds each of its elements once.
pub proof fn lemma_increasing_is_distinct(ids: Seq<NodeId>)
    requires
        strictly_increasing(ids),
    ensures
        ids.no_duplicates(),
        ids.to_set().len() == ids.len(),
{
    ids.unique_seq_to_set();
}

/// Two strictly increasing sequences with the same elements are the same
/// sequence.
pub proof fn lemma_increasing_is_canonical(a: Seq<NodeId>, b: Seq<NodeId>)
    requires
        strictly_increasing(a),
        strictly_increasing(b),
        a.to_set() == b.to_set(),
    ensures
        a == b,
    decreases a.len(),
{
    lemma_increasing_is_distinct(a);
    lemma_increasing_is_distinct(b);
    if a.len() > 0 {
        // The greatest element of each sequence is its last one, so both
        // end alike, and what comes before has the same elements too.
        assert(a.to_set().contains(a.last()));
        assert(b.to_set().contains(b.last()));
        let a0 = a.drop_last();
        let b0 = b.drop_last();
        assert forall|x: NodeId| a0.to_set().contains(x) <==> b0.to_set().contains(x) by {
            if a0.to_set().contains(x) {
                assert(a.to_set().contains(x));
                let j = choose|j: int| 0 <= j < b.len() && b[j] == x;
                assert(b0[j] == x);
            }
            if b0.to_set().contains(x) {
                assert(b.to_set().contains(x));
                let j = choose|j: int| 0 <= j < a.len() && a[j] == x;
                assert(a0[j] == x);
            }
        }
        assert(a0.to_set() =~= b0.to_set());
        lemma_increasing_is_canonical(a0, b0);
        assert(a =~= a0.push(a.last()));
    }
}

/// A finite set of node identities.
#[derive(Debug, PartialEq, Eq)]
pub struct NodeSet {
    ids: Vec<NodeId>,
}

impl Clone for NodeSet {
    fn clone(&self) -> (copy: NodeSet)
        ensures
            copy@ == self@,
            self.wf() ==> copy.wf(),
    {
        NodeSet { ids: self.ids.clone() }
    }
}

impl View for NodeSet {
    type V = Set<NodeId>;

    closed spec fn view(&self) -> Set<NodeId> {
        self.ids@.to_set()
    }
}

impl NodeSet {
    /// The representation invariant: the identities are held in strictly
    /// increasing order. Every constructor establishes it and every method
    /// keeps it.
    pub closed spec fn wf(&self) -> bool {
        strictly_increasing(self.ids@)
    }

    /// The empty set.
    pub fn new() -> (set: NodeSet)
        ensures
            set.wf(),
            set@ == Set::<NodeId>::empty(),
    {
        NodeSet { ids: Vec::new() }
    }

    /// The set of the identities listed in `ids`.
    pub fn from_increasing(ids: Vec<NodeId>) -> (set: NodeSet)
        requires
            strictly_increasing(ids@),
        ensures
            set.wf(),
            set@ == ids@.to_set(),
    {
        NodeSet { ids }
    }

    /// The first position whose identity does not come before `id`.
    fn lower_bound(&self, id: &NodeId) -> (at: usize)
        requires
            self.wf(),
        ensures
            at <= self.ids@.len(),
            forall|i: int| 0 <= i < at ==> (#[trigger] self.ids@[i]).precedes(*id),
            forall|i: int| at <= i < self.ids@.len() ==> !(#[trigger] self.ids@[i]).precedes(*id),
    {
        let mut low: usize = 0;
        let mut high: usize = self.ids.len();
        while low < high
            invariant
                low <= high <= self.ids@.len(),
                strictly_increasing(self.ids@),
                forall|i: int| 0 <= i < low ==> (#[trigger] self.ids@[i]).precedes(*id),
                forall|i: int| high <= i < self.ids@.len() ==> !(#[trigger] self.ids@[i]).precedes(*id),
            decreases high - low,
        {
            let middle: usize = low + (high - low) / 2;
            if self.ids[middle].is_before(id) {
                low = middle + 1;
            } else {
                high = middle;
            }
        }
        low
    }

    /// Whether `id` is in the set.
    pub fn contains(&self, id: &NodeId) -> (found: bool)
        requires
            self.wf(),
        ensures
            found == self@.contains(*id),
    {
        let at = self.lower_bound(id);
        at < self.ids.len() && self.ids[at] == *id
    }

    /// The number of identities in the set.
    pub fn len(&self) -> (count: usize)
        requires
            self.wf(),
        ensures
            count == self@.len(),
    {
        proof {
            lemma_increasing_is_distinct(self.ids@);
        }
        self.ids.len()
    }

    /// Whether the set holds no identity.
    pub fn is_empty(&self) -> (empty: bool)
        requires
            self.wf(),
        ensures
            empty == (self@ == Set::<NodeId>::empty()),
    {
        proof {
            lemma_increasing_is_distinct(self.ids@);
            if self.ids@.len() == 0 {
                assert(self@ =~= Set::<NodeId>::empty());
            }
        }
        self.ids.len() == 0
    }

    /// Adds `id` to the set.
    pub fn insert(&mut self, id: NodeId)
        requires
            old(self).wf(),
        ensures
            final(self).wf(),
            final(self)@ == old(self)@.insert(id),
    {
        let at = self.lower_bound(&id);
        if at == self.ids.len() || self.ids[at] != id {
            proof {
                let before = self.ids@;
                let after = before.insert(at as int, id);
                assert forall|x: NodeId| before.to_set().insert(id).contains(x) implies after.to_set().contains(
                    x,
                ) by {
                    if x == id {
                        assert(after[at as int] == x);
                    } else {
                        let i = choose|i: int| 0 <= i < before.len() && before[i] == x;
                        if i < at {
                            assert(after[i] == x);
                        } else {
                            assert(after[i + 1] == x);
                        }
                    }
                }
                assert(after.to_set() =~= before.to_set().insert(id));
            }
            self.ids.insert(at, id);
        }
    }

    /// Adds every identity of `other` to the set.
    pub fn extend(&mut self, other: &NodeSet)
        requires
            old(self).wf(),
            other.wf(),
        ensures
            final(self).wf(),
            final(self)@ == old(self)@.union(other@),
    {
        let mut next: usize = 0;
        while next < other.ids.len()
            invariant
                next <= other.ids@.len(),
                self.wf(),
                self@ == old(self)@.union(other.ids@.take(next as int).to_set()),
            decreases other.ids@.len() - next,
        {
            let id = other.ids[next];
            self.insert(id);
            proof {
                let done = other.ids@.take(next as int);
                assert(other.ids@.take(next + 1) =~= done.push(id));
                done.lemma_push_to_set_commute(id);
            }
            next += 1;
        }
        assert(other.ids@.take(next as int) =~= other.ids@);
    }

    /// Whether both sets hold the same identities.
    pub fn equals(&self, other: &NodeSet) -> (same: bool)
        requires
            self.wf(),
            other.wf(),
        ensures
            same == (self@ == other@),
    {
        proof {
            if self@ == other@ {
                lemma_increasing_is_canonical(self.ids@, other.ids@);
            }
        }
        if self.ids.len() != other.ids.len() {
            return false;
        }
        let mut next: usize = 0;
        while next < self.ids.len()
            invariant
                next <= self.ids@.len(),
                self.ids@.len() == other.ids@.len(),
                self@ == other@ ==> self.ids@ == other.ids@,
                self.ids@.take(next as int) == other.ids@.take(next as int),
            decreases self.ids@.len() - next,
        {
            if self.ids[next] != other.ids[next] {
                return false;
            }
            next += 1;
        }
        assert(self.ids@.take(next as int) =~= self.ids@);
        assert(other.ids@.take(next as int) =~= other.ids@);
        true
    }

    /// The identities of the set, in increasing order.
    pub fn to_vec(&self) -> (ids: Vec<NodeId>)
        requires
            self.wf(),
        ensures
            ids@.to_set() == self@,
            strictly_increasing(ids@),
    {
        self.ids.clone()
    }
}

} // verus!
