//! The algebra of merging: which of the laws of a convergent replicated data
//! type the merges of member views and of cluster views obey.
//!
//! A merge that settles two different statuses at the same version moves on
//! to the next version and keeps the observers of one side only. Where no
//! such conflict is settled, merging is associative, commutative and
//! idempotent. Where one is settled, the order of the merges may show in the
//! result; the predicates below say exactly when it does not.

use crate::cluster::views::{
    ClusterView, ClusterViewModel, MemberModel, MemberView, MemberViewState, StateModel,
};
use crate::node::NodeId;
use vstd::prelude::*;

verus! {

impl StateModel {
    /// Whether merging `self` and `other` gives the same state in either
    /// order: where they conflict, they have the same observers.
    pub open spec fn commutes_with(self, other: StateModel) -> bool {
        self.conflicts_with(other) ==> self.observed_by == other.observed_by
    }

    /// Whether merging `self`, `b` and `c` gives the same state whether `b`
    /// is merged into `self` first, or `c` into `b`.
    ///
    /// Where no conflict is settled on either way, it does. A conflict that
    /// is settled on one way only leaves the version one higher than on the
    /// other way. A conflict between two of the states is settled at the
    /// next version with the observers of the first of them, which the third
    /// state must agree with where it comes into play.
    pub open spec fn associates_with(self, b: StateModel, c: StateModel) -> bool {
        let ab = self.merged(b);
        let bc = b.merged(c);
        if self.conflicts_with(b) && b.conflicts_with(c) {
            ab.node_status == bc.node_status && self.observed_by == b.observed_by
        } else if self.conflicts_with(b) {
            c.version == ab.version ==> c.node_status == ab.node_status && self.observed_by.subset_of(
                c.observed_by,
            )
        } else if b.conflicts_with(c) {
            if self.version == bc.version {
                self.node_status == bc.node_status && b.observed_by.subset_of(self.observed_by)
            } else {
                self.version == b.version ==> self.observed_by.subset_of(b.observed_by)
            }
        } else {
            ab.conflicts_with(c) == self.conflicts_with(bc)
        }
    }

    /// Whether merging `a` and `b` into `self`, each followed by the
    /// observation of `observer`, gives the same state in either order.
    ///
    /// Where no conflict is settled on either way, it does. Where both are
    /// in conflict with `self`, they must be settled alike. Where one is,
    /// the other must agree with the outcome where it comes into play.
    /// Where they come into conflict with each other only, both ways must
    /// settle it, over the same observers.
    pub open spec fn takes_in_either_order(self, observer: NodeId, a: StateModel, b: StateModel) -> bool {
        let with_a = self.merged(a).seen_by(observer);
        let with_b = self.merged(b).seen_by(observer);
        if self.conflicts_with(a) && self.conflicts_with(b) {
            with_a.node_status == with_b.node_status
        } else if self.conflicts_with(a) {
            self.settles_before(observer, with_a, b)
        } else if self.conflicts_with(b) {
            self.settles_before(observer, with_b, a)
        } else {
            &&& with_a.conflicts_with(b) == with_b.conflicts_with(a)
            &&& with_a.conflicts_with(b) ==> a.seen_by(observer).observed_by == b.seen_by(observer).observed_by
        }
    }

    /// Whether `other` agrees with `settled`, the outcome of a conflict of
    /// `self` that `observer` has seen, where `other` comes into play: at
    /// the version of the outcome it must carry its status and be observed
    /// by the observers of `self`, and at the version of `self` it must
    /// bring no observers of its own.
    pub open spec fn settles_before(self, observer: NodeId, settled: StateModel, other: StateModel) -> bool {
        if other.version == settled.version {
            other.node_status == settled.node_status && self.observed_by.subset_of(
                other.seen_by(observer).observed_by,
            )
        } else {
            other.version == self.version ==> other.observed_by.subset_of(settled.observed_by)
        }
    }
}

impl MemberModel {
    /// Whether merging `self` and `other` gives the same view in either
    /// order: they are of different generations, or they carry the same
    /// address and, where their statuses differ at the same version, the
    /// same observers.
    pub open spec fn commutes_with(self, other: MemberModel) -> bool {
        self.id.generation == other.id.generation ==> {
            &&& self.advertised_addr == other.advertised_addr
            &&& match (self.state, other.state) {
                (Some(x), Some(y)) => x.commutes_with(y),
                _ => true,
            }
        }
    }

    /// Whether merging `self`, `b` and `c` gives the same view whether `b`
    /// is merged into `self` first, or `c` into `b`: they are not all of
    /// one generation, or one of them carries no state, or their states
    /// associate.
    pub open spec fn associates_with(self, b: MemberModel, c: MemberModel) -> bool {
        self.id.generation == b.id.generation && b.id.generation == c.id.generation ==> match (
            self.state,
            b.state,
            c.state,
        ) {
            (Some(x), Some(y), Some(z)) => x.associates_with(y, z),
            _ => true,
        }
    }

    /// Whether no merge of `self`, `b` and `c`, in either grouping, takes a
    /// version past the greatest one there is.
    pub open spec fn associates_without_overflow(self, b: MemberModel, c: MemberModel) -> bool {
        &&& !self.overflows_with(b)
        &&& !self.merged(b).overflows_with(c)
        &&& !b.overflows_with(c)
        &&& !self.overflows_with(b.merged(c))
    }
}

impl ClusterViewModel {
    /// Whether merging `a` and `b` into this cluster view, which node
    /// `this_node_id` holds, gives the same cluster view in either order.
    ///
    /// Views of different nodes always do. Two views of a node that the
    /// cluster view knows with a state do if that state takes them in in
    /// either order. Two views of a node of which it knows no state do if
    /// they have, where they conflict, the same observers but for
    /// `this_node_id`; and, where it does not know the node at all, the
    /// same address.
    pub open spec fn takes_in_either_order(self, this_node_id: NodeId, a: MemberModel, b: MemberModel) -> bool {
        a.id == b.id ==> {
            let unseen = match (a.state, b.state) {
                (Some(x), Some(y)) => x.conflicts_with(y) ==> x.seen_by(this_node_id).observed_by == y.seen_by(
                    this_node_id,
                ).observed_by,
                _ => true,
            };
            if self.known_members.contains_key(a.id) {
                match (self.known_members[a.id].state, a.state, b.state) {
                    (Some(r), Some(x), Some(y)) => r.takes_in_either_order(this_node_id, x, y),
                    _ => unseen,
                }
            } else {
                a.advertised_addr == b.advertised_addr && unseen
            }
        }
    }

    /// Whether no merge of `a` and `b` into this cluster view, in either
    /// order, takes a version past the greatest one there is.
    pub open spec fn takes_in_without_overflow(
        self,
        this_node_id: NodeId,
        a: MemberModel,
        b: MemberModel,
    ) -> bool {
        &&& !self.overflows_with(a)
        &&& !self.overflows_with(b)
        &&& !self.merged(this_node_id, a).overflows_with(b)
        &&& !self.merged(this_node_id, b).overflows_with(a)
    }
}

/// A merge never goes back: the version and the heartbeat of the merged
/// state are no lower than those of either side.
pub proof fn lemma_state_merge_never_goes_back(a: MemberViewState, b: MemberViewState)
    requires
        !a@.overflows_with(b@),
    ensures
        a@.merged(b@).version >= a@.version,
        a@.merged(b@).version >= b@.version,
        a@.merged(b@).heartbeat >= a@.heartbeat,
        a@.merged(b@).heartbeat >= b@.heartbeat,
{
}

/// A merge never goes back to an earlier generation, nor loses a state.
pub proof fn lemma_member_merge_never_goes_back(a: MemberView, b: MemberView)
    ensures
        a@.merged(b@).id.generation >= a@.id.generation,
        a@.merged(b@).id.generation >= b@.id.generation,
        a@.id.generation == b@.id.generation && (a@.state is Some || b@.state is Some) ==> a@.merged(
            b@,
        ).state is Some,
{
}

/// A cluster view never forgets a member: after a merge it knows the
/// members it knew, and the one that came in. And the node that holds the
/// cluster view has observed the state of that member, if it has one.
pub proof fn lemma_cluster_merge_keeps_members(view: ClusterView, this_node_id: NodeId, incoming: MemberView)
    ensures
        view@.merged(this_node_id, incoming@).known_members.dom() == view@.known_members.dom().insert(
            incoming.id,
        ),
        view@.merged(this_node_id, incoming@).known_members[incoming.id].state matches Some(state)
            ==> state.observed_by.contains(this_node_id),
{
}

/// Two states are equal when their fields are, the observers as sets.
proof fn lemma_state_equality(x: StateModel, y: StateModel)
    requires
        x.node_status == y.node_status,
        x.version == y.version,
        x.heartbeat == y.heartbeat,
        x.observed_by =~= y.observed_by,
    ensures
        x == y,
{
}

/// Merging a view of a node into another view of it a second time changes
/// nothing.
pub proof fn lemma_member_merge_is_idempotent(a: MemberView, b: MemberView)
    requires
        a.id.unique_id == b.id.unique_id,
        !a@.overflows_with(b@),
    ensures
        a@.merged(b@).merged(b@) == a@.merged(b@),
{
    let (a, b) = (a@, b@);
    if a.id.generation == b.id.generation {
        match (a.state, b.state) {
            (Some(x), Some(y)) => {
                lemma_state_equality(x.merged(y).merged(y), x.merged(y));
            },
            (None, Some(y)) => {
                lemma_state_equality(y.merged(y), y);
            },
            _ => {},
        }
    } else if a.id.generation < b.id.generation {
        match b.state {
            Some(y) => {
                lemma_state_equality(y.merged(y), y);
            },
            None => {},
        }
    }
}

/// Merging two views of a node gives the same view in either order exactly
/// when they commute: they are of different generations, or carry the same
/// address and, where their statuses differ at the same version, the same
/// observers.
pub proof fn lemma_member_merge_is_commutative(a: MemberView, b: MemberView)
    requires
        a.id.unique_id == b.id.unique_id,
    ensures
        a@.merged(b@) == b@.merged(a@) <==> a@.commutes_with(b@),
{
    let (a, b) = (a@, b@);
    if a.id.generation == b.id.generation {
        match (a.state, b.state) {
            (Some(x), Some(y)) => {
                if a.commutes_with(b) {
                    lemma_state_equality(x.merged(y), y.merged(x));
                }
            },
            _ => {},
        }
    }
}

/// Merging three views of a node gives the same view whichever two are
/// merged first exactly when they associate: they are not all of one
/// generation, or one of them carries no state, or no conflict of statuses
/// is settled on one way that the other way does not settle alike.
pub proof fn lemma_member_merge_is_associative(a: MemberView, b: MemberView, c: MemberView)
    requires
        a.id.unique_id == b.id.unique_id,
        b.id.unique_id == c.id.unique_id,
        a@.associates_without_overflow(b@, c@),
    ensures
        a@.merged(b@).merged(c@) == a@.merged(b@.merged(c@)) <==> a@.associates_with(b@, c@),
{
    let (a, b, c) = (a@, b@, c@);
    if a.id.generation == b.id.generation && b.id.generation == c.id.generation {
        match (a.state, b.state, c.state) {
            (Some(x), Some(y), Some(z)) => {
                if x.associates_with(y, z) {
                    lemma_state_equality(x.merged(y).merged(z), x.merged(y.merged(z)));
                }
            },
            _ => {},
        }
    }
}

/// Where no two of three views of a node differ in status at the same
/// version, they associate.
pub proof fn lemma_views_without_conflict_associate(a: MemberView, b: MemberView, c: MemberView)
    requires
        !a@.conflicts_with(b@),
        !b@.conflicts_with(c@),
        !a@.conflicts_with(c@),
    ensures
        a@.associates_with(b@, c@),
        a@.associates_without_overflow(b@, c@),
{
}

/// Merging two states into a third, each followed by an observation,
/// gives the same state in either order exactly when the third takes them
/// in in either order.
proof fn lemma_state_takes_in_either_order(r: StateModel, observer: NodeId, a: StateModel, b: StateModel)
    requires
        !r.overflows_with(a),
        !r.overflows_with(b),
        !r.merged(a).seen_by(observer).overflows_with(b),
        !r.merged(b).seen_by(observer).overflows_with(a),
    ensures
        r.merged(a).seen_by(observer).merged(b).seen_by(observer) == r.merged(b).seen_by(observer).merged(
            a,
        ).seen_by(observer) <==> r.takes_in_either_order(observer, a, b),
{
    let ab = r.merged(a).seen_by(observer).merged(b).seen_by(observer);
    let ba = r.merged(b).seen_by(observer).merged(a).seen_by(observer);
    if r.takes_in_either_order(observer, a, b) {
        lemma_state_equality(ab, ba);
    }
    if ab == ba {
        let with_a = r.merged(a).seen_by(observer);
        if r.conflicts_with(a) && !r.conflicts_with(b) {
            lemma_settled_before(r, observer, a, b);
        } else if r.conflicts_with(b) && !r.conflicts_with(a) {
            lemma_settled_before(r, observer, b, a);
        } else if !r.conflicts_with(a) && !r.conflicts_with(b) && with_a.conflicts_with(b) {
            assert forall|e: NodeId|
                a.seen_by(observer).observed_by.contains(e) == b.seen_by(observer).observed_by.contains(
                    e,
                ) by {
                assert(ab.observed_by.contains(e) == ba.observed_by.contains(e));
            }
            assert(a.seen_by(observer).observed_by =~= b.seen_by(observer).observed_by);
        }
    }
}

/// Where a state is in conflict with one of two states and not with the
/// other, and takes them in to the same outcome in either order, the other
/// agrees with how the conflict is settled.
proof fn lemma_settled_before(r: StateModel, observer: NodeId, a: StateModel, b: StateModel)
    requires
        r.conflicts_with(a),
        !r.conflicts_with(b),
        !r.overflows_with(a),
        !r.merged(a).seen_by(observer).overflows_with(b),
        !r.merged(b).seen_by(observer).overflows_with(a),
        r.merged(a).seen_by(observer).merged(b).seen_by(observer) == r.merged(b).seen_by(observer).merged(
            a,
        ).seen_by(observer),
    ensures
        r.settles_before(observer, r.merged(a).seen_by(observer), b),
{
    let settled = r.merged(a).seen_by(observer);
    let ab = settled.merged(b).seen_by(observer);
    let ba = r.merged(b).seen_by(observer).merged(a).seen_by(observer);
    if b.version == settled.version {
        assert forall|e: NodeId| r.observed_by.contains(e) implies b.seen_by(observer).observed_by.contains(
            e,
        ) by {
            assert(ab.observed_by.contains(e));
        }
    } else if b.version == r.version {
        assert forall|e: NodeId| b.observed_by.contains(e) implies settled.observed_by.contains(e) by {
            assert(ba.observed_by.contains(e));
        }
    }
}

/// Merging two views of one node into a cluster view gives the same view of
/// that node in either order exactly when the cluster view takes them in in
/// either order.
proof fn lemma_member_takes_in_either_order(view: ClusterViewModel, me: NodeId, a: MemberModel, b: MemberModel)
    requires
        a.id == b.id,
        view.keyed_by_id(),
        view.takes_in_without_overflow(me, a, b),
    ensures
        view.merged_member(me, a).merged(b).seen_by(me) == view.merged_member(me, b).merged(a).seen_by(me)
            <==> view.takes_in_either_order(me, a, b),
{
    let resident = if view.known_members.contains_key(a.id) {
        view.known_members[a.id].state
    } else {
        None
    };
    match (resident, a.state, b.state) {
        (Some(r), Some(x), Some(y)) => {
            lemma_state_takes_in_either_order(r, me, x, y);
        },
        (None, Some(x), Some(y)) => {
            let xy = x.seen_by(me).merged(y).seen_by(me);
            let yx = y.seen_by(me).merged(x).seen_by(me);
            if x.conflicts_with(y) ==> x.seen_by(me).observed_by == y.seen_by(me).observed_by {
                lemma_state_equality(xy, yx);
            }
            if xy == yx && x.conflicts_with(y) {
                assert forall|e: NodeId|
                    x.seen_by(me).observed_by.contains(e) == y.seen_by(me).observed_by.contains(e) by {
                    assert(xy.observed_by.contains(e) == yx.observed_by.contains(e));
                }
                assert(x.seen_by(me).observed_by =~= y.seen_by(me).observed_by);
            }
        },
        (Some(r), Some(x), None) => {
            lemma_state_equality(r.merged(x).seen_by(me).seen_by(me), r.seen_by(me).merged(x).seen_by(me));
        },
        (Some(r), None, Some(y)) => {
            lemma_state_equality(r.seen_by(me).merged(y).seen_by(me), r.merged(y).seen_by(me).seen_by(me));
        },
        (Some(r), None, None) => {},
        (None, Some(x), None) => {
            lemma_state_equality(x.seen_by(me).seen_by(me), x.seen_by(me));
        },
        (None, None, Some(y)) => {
            lemma_state_equality(y.seen_by(me).seen_by(me), y.seen_by(me));
        },
        (None, None, None) => {},
    }
}

/// Merging a member view into a cluster view a second time changes nothing.
pub proof fn lemma_cluster_merge_is_idempotent(view: ClusterView, this_node_id: NodeId, a: MemberView)
    requires
        view@.keyed_by_id(),
        !view@.overflows_with(a@),
    ensures
        view@.merged(this_node_id, a@).merged(this_node_id, a@) == view@.merged(this_node_id, a@),
{
    let (view, a) = (view@, a@);
    let once = view.merged(this_node_id, a);
    let twice = once.merged(this_node_id, a);
    let member = view.merged_member(this_node_id, a);
    let again = once.merged_member(this_node_id, a);
    assert(again == member) by {
        match (member.state, again.state) {
            (Some(x), Some(y)) => {
                lemma_state_equality(x, y);
            },
            _ => {},
        }
    }
    assert(twice.known_members =~= once.known_members);
    assert(twice.versions =~= once.versions);
    assert(twice.heartbeats =~= once.heartbeats);
}

/// Merging two member views into a cluster view gives the same cluster view
/// in either order exactly when the cluster view takes them in in either
/// order: they are views of different nodes, or no conflict of statuses
/// is settled on one way that the other way does not settle alike.
pub proof fn lemma_cluster_merge_is_commutative(
    view: ClusterView,
    this_node_id: NodeId,
    a: MemberView,
    b: MemberView,
)
    requires
        view@.keyed_by_id(),
        view@.takes_in_without_overflow(this_node_id, a@, b@),
    ensures
        view@.merged(this_node_id, a@).merged(this_node_id, b@) == view@.merged(this_node_id, b@).merged(
            this_node_id,
            a@,
        ) <==> view@.takes_in_either_order(this_node_id, a@, b@),
{
    let (view, a, b) = (view@, a@, b@);
    let me = this_node_id;
    let ab = view.merged(me, a).merged(me, b);
    let ba = view.merged(me, b).merged(me, a);
    if a.id == b.id {
        let then_b = view.merged(me, a).merged_member(me, b);
        assert(ab.known_members[a.id] == then_b);
        lemma_member_takes_in_either_order(view, me, a, b);
        if view.takes_in_either_order(me, a, b) {
            assert(ab.known_members =~= ba.known_members);
            assert(ab.versions =~= ba.versions);
            assert(ab.heartbeats =~= ba.heartbeats);
        }
    } else {
        assert(ab.known_members =~= ba.known_members);
        assert(ab.versions =~= ba.versions);
        assert(ab.heartbeats =~= ba.heartbeats);
    }
}

/// Where no two among two views of a node and the view that a cluster view
/// holds of it differ in status at the same version, and the two carry the
/// same address, the cluster view takes them in in either order.
pub proof fn lemma_cluster_takes_in_without_conflict(
    view: ClusterView,
    this_node_id: NodeId,
    a: MemberView,
    b: MemberView,
)
    requires
        a.id == b.id,
        a.advertised_addr@ == b.advertised_addr@,
        !a@.conflicts_with(b@),
        view@.known_members.contains_key(a.id) ==> !view@.known_members[a.id].conflicts_with(a@)
            && !view@.known_members[a.id].conflicts_with(b@),
        view@.keyed_by_id(),
    ensures
        view@.takes_in_either_order(this_node_id, a@, b@),
        view@.takes_in_without_overflow(this_node_id, a@, b@),
{
}

} // verus!
