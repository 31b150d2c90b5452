//! The membership state of one node, and the rules that change it.

use crate::cluster::failure_detector::{
    recorded_heartbeat, splits_over_nothing, FailureDetector, HeartbeatRecord, MAX_INSTANT,
};
use crate::cluster::views::{
    member_models, members_wf, ClusterView, ClusterViewModel, MemberModel, MemberView, PartialClusterView,
    StateModel,
};
use crate::node::NodeId;
use crate::node_set::NodeSet;
use crate::url_set::{texts, without, UrlSet};
use vstd::prelude::*;

pub mod failure_detector;
pub mod gossip_destinations;
pub mod merge_laws;
pub mod version_vector;
pub mod views;

verus! {

/// The URLs of `peers` that are not `local`, each once, in the order in
/// which they first occur.
pub open spec fn distinct_others(peers: Seq<Seq<char>>, local: Seq<char>) -> Seq<Seq<char>>
    decreases peers.len(),
{
    if peers.len() == 0 {
        Seq::empty()
    } else {
        let before = distinct_others(peers.drop_last(), local);
        if peers.last() == local || before.contains(peers.last()) {
            before
        } else {
            before.push(peers.last())
        }
    }
}

impl ClusterViewModel {
    /// Whether the view of node `id` in this cluster view carries a state.
    pub open spec fn knows_state_of(self, id: NodeId) -> bool {
        self.known_members.contains_key(id) && self.known_members[id].state is Some
    }

    /// The cluster view after node `id`, whose state it carries, has
    /// incremented its heartbeat.
    pub open spec fn with_next_heartbeat(self, id: NodeId) -> ClusterViewModel
        recommends
            self.knows_state_of(id),
    {
        let member = self.known_members[id];
        let state = member.state->Some_0;
        let next = StateModel { heartbeat: (state.heartbeat + 1) as u64, ..state };
        ClusterViewModel {
            known_members: self.known_members.insert(id, MemberModel { state: Some(next), ..member }),
            heartbeats: if self.heartbeats.contains_key(id) {
                self.heartbeats.insert(id, (self.heartbeats[id] + 1) as u64)
            } else {
                self.heartbeats
            },
            ..self
        }
    }

    /// The cluster view after node `this_node_id`, which holds it, merged
    /// each of `incoming` into it, in turn.
    pub open spec fn merged_all(self, this_node_id: NodeId, incoming: Seq<MemberModel>) -> ClusterViewModel
        decreases incoming.len(),
    {
        if incoming.len() == 0 {
            self
        } else {
            self.merged_all(this_node_id, incoming.drop_last()).merged(this_node_id, incoming.last())
        }
    }

    /// Whether merging each of `incoming` in turn would, at some point,
    /// take a version past the greatest one there is.
    pub open spec fn overflows_with_any(self, this_node_id: NodeId, incoming: Seq<MemberModel>) -> bool
        decreases incoming.len(),
    {
        if incoming.len() == 0 {
            false
        } else {
            self.overflows_with_any(this_node_id, incoming.drop_last()) || self.merged_all(
                this_node_id,
                incoming.drop_last(),
            ).overflows_with(incoming.last())
        }
    }
}

/// The heartbeat records after node `this_node_id` received the member view
/// `member` at `now`: with the heartbeat of `member`, if it carries a state.
pub open spec fn recorded_member(
    records: Map<NodeId, HeartbeatRecord>,
    this_node_id: NodeId,
    member: MemberModel,
    now: u64,
) -> Map<NodeId, HeartbeatRecord> {
    match member.state {
        Some(state) => recorded_heartbeat(records, this_node_id, member.id, state.heartbeat, now),
        None => records,
    }
}

/// Whether recording the heartbeat of `member` would split the time since
/// its last heartbeat over no heartbeats at all.
pub open spec fn splits_over_nothing_with(
    records: Map<NodeId, HeartbeatRecord>,
    this_node_id: NodeId,
    member: MemberModel,
) -> bool {
    member.state matches Some(state) && splits_over_nothing(records, this_node_id, member.id, state.heartbeat)
}

/// The peers still unknown after node `sender` sent the member view
/// `member`: if it is the view of `sender` itself, its address is unknown
/// no more.
pub open spec fn still_unknown_after(unknown: Seq<Seq<char>>, sender: NodeId, member: MemberModel) -> Seq<
    Seq<char>,
> {
    if member.id == sender {
        without(unknown, member.advertised_addr)
    } else {
        unknown
    }
}

/// The heartbeat records after node `this_node_id` received each of
/// `incoming` at `now`, in turn.
pub open spec fn recorded_all(
    records: Map<NodeId, HeartbeatRecord>,
    this_node_id: NodeId,
    incoming: Seq<MemberModel>,
    now: u64,
) -> Map<NodeId, HeartbeatRecord>
    decreases incoming.len(),
{
    if incoming.len() == 0 {
        records
    } else {
        recorded_member(
            recorded_all(records, this_node_id, incoming.drop_last(), now),
            this_node_id,
            incoming.last(),
            now,
        )
    }
}

/// Whether recording the heartbeats of `incoming` in turn would, at some
/// point, split the time since a peer's last heartbeat over no heartbeats
/// at all.
pub open spec fn splits_over_nothing_in(
    records: Map<NodeId, HeartbeatRecord>,
    this_node_id: NodeId,
    incoming: Seq<MemberModel>,
    now: u64,
) -> bool
    decreases incoming.len(),
{
    if incoming.len() == 0 {
        false
    } else {
        splits_over_nothing_in(records, this_node_id, incoming.drop_last(), now) || splits_over_nothing_with(
            recorded_all(records, this_node_id, incoming.drop_last(), now),
            this_node_id,
            incoming.last(),
        )
    }
}

/// The peers still unknown after node `sender` sent each of `incoming`, in
/// turn.
pub open spec fn still_unknown(unknown: Seq<Seq<char>>, sender: NodeId, incoming: Seq<MemberModel>) -> Seq<
    Seq<char>,
>
    decreases incoming.len(),
{
    if incoming.len() == 0 {
        unknown
    } else {
        still_unknown_after(still_unknown(unknown, sender, incoming.drop_last()), sender, incoming.last())
    }
}

/// The state of the cluster as one node holds it.
#[derive(Debug)]
pub struct Cluster {
    pub this_node_id: NodeId,
    /// The URL at which this node can be reached, in its canonical text.
    pub this_advertised_url: String,
    pub cluster_view: ClusterView,
    /// The peers that this node was told of when it started.
    pub peer_nodes: UrlSet,
    /// The peers of which this node does not know the identity yet.
    pub unknwon_peer_nodes: UrlSet,
    pub failure_detector: FailureDetector,
}

impl Clone for Cluster {
    fn clone(&self) -> (copy: Cluster)
        ensures
            self.wf() ==> copy.wf() && copy.same_state_as(self),
    {
        Cluster {
            this_node_id: self.this_node_id,
            this_advertised_url: self.this_advertised_url.clone(),
            cluster_view: self.cluster_view.clone(),
            peer_nodes: self.peer_nodes.clone(),
            unknwon_peer_nodes: self.unknwon_peer_nodes.clone(),
            failure_detector: self.failure_detector.clone(),
        }
    }
}

impl Cluster {
    /// The invariant of the state: the parts meet their representation
    /// invariants; the version vector and the heartbeats agree with the
    /// members; this node is a member and its view of itself carries a
    /// state; and the failure detector is this node's.
    pub open spec fn wf(&self) -> bool {
        &&& self.cluster_view.wf()
        &&& self.cluster_view@.consistent()
        &&& self.cluster_view@.knows_state_of(self.this_node_id)
        &&& self.peer_nodes.wf()
        &&& self.unknwon_peer_nodes.wf()
        &&& self.failure_detector.wf()
        &&& self.failure_detector.node() == self.this_node_id
    }

    /// Whether `self` and `other` stand for the same state.
    pub open spec fn same_state_as(&self, other: &Cluster) -> bool {
        &&& self.this_node_id == other.this_node_id
        &&& self.this_advertised_url@ == other.this_advertised_url@
        &&& self.cluster_view@ == other.cluster_view@
        &&& self.peer_nodes@ == other.peer_nodes@
        &&& self.unknwon_peer_nodes@ == other.unknwon_peer_nodes@
        &&& self.failure_detector@ == other.failure_detector@
    }

    /// Whether `member` is this node itself or among `live`, and has been
    /// observed in its current state by every member.
    pub open spec fn settled(&self, member: MemberModel, live: Set<NodeId>) -> bool {
        &&& member.id == self.this_node_id || live.contains(member.id)
        &&& member.state matches Some(state) && state.observed_by == self.cluster_view@.known_members.dom()
    }

    /// Whether no peer is still unknown and every member is settled; where
    /// `live` are the members that are held to be live.
    pub open spec fn converged_given(&self, live: Set<NodeId>) -> bool {
        let members = self.cluster_view@.known_members;
        &&& self.unknwon_peer_nodes@.len() == 0
        &&& forall|id: NodeId| #[trigger] members.contains_key(id) ==> self.settled(members[id], live)
    }

    /// The state of a node that starts: it knows of itself alone, and every
    /// peer it was told of, but itself, is still unknown.
    pub fn new(this_node_id: NodeId, this_advertised_url: String, peer_nodes: &Vec<String>) -> (cluster:
        Cluster)
        ensures
            cluster.wf(),
            cluster.this_node_id == this_node_id,
            cluster.this_advertised_url@ == this_advertised_url@,
            cluster.peer_nodes@ == distinct_others(texts(peer_nodes@), this_advertised_url@),
            cluster.unknwon_peer_nodes@ == cluster.peer_nodes@,
            cluster.cluster_view@.known_members.dom() == set![this_node_id],
            cluster.cluster_view@.known_members[this_node_id] == MemberModel::joining(
                this_node_id,
                this_advertised_url@,
            ),
            cluster.cluster_view@.versions == map![this_node_id => 1u16],
            cluster.cluster_view@.heartbeats == map![this_node_id => 0u64],
            cluster.failure_detector@ == Map::<NodeId, HeartbeatRecord>::empty(),
    {
        let mut peers = UrlSet::new();
        let mut next: usize = 0;
        let ghost given = texts(peer_nodes@);
        while next < peer_nodes.len()
            invariant
                next <= peer_nodes@.len(),
                given == texts(peer_nodes@),
                peers.wf(),
                peers@ == distinct_others(given.take(next as int), this_advertised_url@),
            decreases peer_nodes@.len() - next,
        {
            assert(given.take(next + 1).drop_last() =~= given.take(next as int));
            if peer_nodes[next] != this_advertised_url {
                let _ = peers.insert(peer_nodes[next].clone());
            }
            next += 1;
        }
        assert(given.take(next as int) =~= given);
        let cluster_view = ClusterView::initial(this_node_id, this_advertised_url.clone());
        let failure_detector = FailureDetector::new(this_node_id);
        let unknwon_peer_nodes = peers.clone();
        Cluster {
            this_node_id,
            this_advertised_url,
            cluster_view,
            unknwon_peer_nodes,
            peer_nodes: peers,
            failure_detector,
        }
    }

    /// Whether the cluster has converged: no peer is still unknown, and
    /// every member is this node itself or among `live`, and has been
    /// observed in its current state by every member.
    ///
    /// `live` are the members that the failure detection holds to be live at
    /// this instant.
    pub fn has_converged(&self, live: &NodeSet) -> (converged: bool)
        requires
            self.wf(),
            live.wf(),
        ensures
            converged == self.converged_given(live@),
    {
        let all_members_ids = self.cluster_view.known_members.key_set();
        let members = &self.cluster_view.known_members;
        let count = members.len();
        let mut all_members_are_live_and_converged = true;
        let mut next: usize = 0;
        proof {
            members.lemma_ordered_keys();
        }
        while next < count
            invariant
                next <= count,
                count == members.ordered_keys().len(),
                members == &self.cluster_view.known_members,
                members.wf(),
                members_wf(members@),
                live.wf(),
                all_members_ids.wf(),
                all_members_ids@ == self.cluster_view@.known_members.dom(),
                all_members_are_live_and_converged == forall|at: int|
                    0 <= at < next ==> self.settled((#[trigger] members.ordered_values()[at])@, live@),
            decreases count - next,
        {
            let member = members.value_at(next);
            assert(*member == members.ordered_values()[next as int]);
            let member_is_live = member.id == self.this_node_id || live.contains(&member.id);
            let member_observed_all_states = match &member.state {
                Some(state) => state.observed_by.equals(&all_members_ids),
                None => false,
            };
            if !(member_is_live && member_observed_all_states) {
                all_members_are_live_and_converged = false;
            }
            next += 1;
        }
        proof {
            let models = self.cluster_view@.known_members;
            let keys = members.ordered_keys();
            let values = members.ordered_values();
            if all_members_are_live_and_converged {
                assert forall|id: NodeId| #[trigger] models.contains_key(id) implies self.settled(
                    models[id],
                    live@,
                ) by {
                    let at = choose|at: int| 0 <= at < keys.len() && keys[at] == id;
                    assert(values[at]@ == models[id]);
                }
            }
            if forall|id: NodeId| #[trigger] models.contains_key(id) ==> self.settled(models[id], live@) {
                assert forall|at: int| 0 <= at < count implies self.settled((#[trigger] values[at])@, live@) by {
                    assert(keys.to_set().contains(keys[at]));
                }
            }
        }
        self.unknwon_peer_nodes.is_empty() && all_members_are_live_and_converged
    }

    /// Increments the heartbeat of this node by one and returns the new
    /// value.
    pub fn increment_own_heartbeat(&mut self) -> (heartbeat: u64)
        requires
            old(self).wf(),
            old(self).cluster_view@.known_members[old(self).this_node_id].state->Some_0.heartbeat < u64::MAX,
        ensures
            final(self).wf(),
            final(self).cluster_view@ == old(self).cluster_view@.with_next_heartbeat(old(self).this_node_id),
            heartbeat == old(self).cluster_view@.known_members[old(self).this_node_id].state->Some_0.heartbeat
                + 1,
            final(self).this_node_id == old(self).this_node_id,
            final(self).this_advertised_url@ == old(self).this_advertised_url@,
            final(self).peer_nodes@ == old(self).peer_nodes@,
            final(self).unknwon_peer_nodes@ == old(self).unknwon_peer_nodes@,
            final(self).failure_detector@ == old(self).failure_detector@,
    {
        let id = self.this_node_id;
        if let Some(heartbeat) = self.cluster_view.heartbeats.get_mut(&id) {
            *heartbeat += 1;
        }
        let heartbeat = match self.cluster_view.known_members.get_mut(&id) {
            Some(member) => match &mut member.state {
                Some(state) => {
                    state.heartbeat += 1;
                    state.heartbeat
                },
                None => vstd::pervasive::unreached(),
            },
            None => vstd::pervasive::unreached(),
        };
        proof {
            let after = old(self).cluster_view@.with_next_heartbeat(id);
            assert(self.cluster_view@.known_members =~= after.known_members);
            lemma_next_heartbeat_keeps_consistent(old(self).cluster_view@, id);
        }
        heartbeat
    }

    /// Whether this state cannot take in `member`: merging it would take a
    /// version past the greatest one there is, or recording its heartbeat
    /// would split the time since the last one over no heartbeats at all.
    pub fn refuses(&self, member: &MemberView) -> (refused: bool)
        requires
            self.wf(),
            member.wf(),
        ensures
            refused == (self.cluster_view@.overflows_with(member@) || splits_over_nothing_with(
                self.failure_detector@,
                self.this_node_id,
                member@,
            )),
    {
        let overflows = match self.cluster_view.known_members.get(&member.id) {
            Some(resident) => {
                resident.id.generation == member.id.generation && match (&resident.state, &member.state) {
                    (Some(r), Some(i)) => r.version == i.version && r.node_status != i.node_status && r.version
                        == u16::MAX,
                    _ => false,
                }
            },
            None => false,
        };
        let splits = match &member.state {
            Some(state) => self.failure_detector.cannot_record(member.id, state.heartbeat),
            None => false,
        };
        overflows || splits
    }

    /// Whether this state can take in the cluster view `incoming`, received
    /// at `now`: `now` is an instant that can be recorded, and none of the
    /// member views would be refused in its turn.
    pub open spec fn can_take_in(&self, incoming: &PartialClusterView, now: u64) -> bool {
        &&& now <= MAX_INSTANT
        &&& !self.cluster_view@.overflows_with_any(self.this_node_id, incoming.member_sequence())
        &&& !splits_over_nothing_in(
            self.failure_detector@,
            self.this_node_id,
            incoming.member_sequence(),
            now,
        )
    }

    /// Whether this state can take in the cluster view `incoming`, received
    /// at `now`. It is found out by taking `incoming` into a copy of the
    /// state.
    pub fn accepts(&self, incoming: &PartialClusterView, now: u64) -> (accepted: bool)
        requires
            self.wf(),
            incoming.wf(),
        ensures
            accepted == self.can_take_in(incoming, now),
    {
        if now > MAX_INSTANT {
            return false;
        }
        let mut trial = self.clone();
        let count = incoming.members.len();
        let ghost views = incoming.member_sequence();
        let ghost me = self.this_node_id;
        let mut next: usize = 0;
        while next < count
            invariant
                next <= count,
                count == views.len(),
                count == incoming.members.ordered_keys().len(),
                views == incoming.member_sequence(),
                incoming.wf(),
                self.wf(),
                me == self.this_node_id,
                now <= MAX_INSTANT,
                trial.wf(),
                trial.this_node_id == me,
                trial.cluster_view@ == self.cluster_view@.merged_all(me, views.take(next as int)),
                trial.failure_detector@ == recorded_all(self.failure_detector@, me, views.take(next as int), now),
                !self.cluster_view@.overflows_with_any(me, views.take(next as int)),
                !splits_over_nothing_in(self.failure_detector@, me, views.take(next as int), now),
            decreases count - next,
        {
            let member = incoming.members.value_at(next).clone();
            assert(views.take(next + 1).drop_last() =~= views.take(next as int));
            if trial.refuses(&member) {
                proof {
                    if !self.cluster_view@.overflows_with_any(me, views) {
                        lemma_no_overflow_in_prefix(self.cluster_view@, me, views, next + 1);
                    }
                    if !splits_over_nothing_in(self.failure_detector@, me, views, now) {
                        lemma_no_split_in_prefix(self.failure_detector@, me, views, now, next + 1);
                    }
                }
                return false;
            }
            trial.reconcile_member(incoming.this_node_id, member, now);
            next += 1;
        }
        assert(views.take(next as int) =~= views);
        true
    }

    /// Takes in one member view that node `sender` sent and that was
    /// received at `now`.
    ///
    /// An address under which `sender` presents itself is unknown no more.
    /// The heartbeat of a member other than this node is recorded. The view
    /// is merged into the cluster view.
    pub fn reconcile_member(&mut self, sender: NodeId, member: MemberView, now: u64)
        requires
            old(self).wf(),
            member.wf(),
            now <= MAX_INSTANT,
            !old(self).cluster_view@.overflows_with(member@),
            !splits_over_nothing_with(old(self).failure_detector@, old(self).this_node_id, member@),
        ensures
            final(self).wf(),
            final(self).this_node_id == old(self).this_node_id,
            final(self).this_advertised_url@ == old(self).this_advertised_url@,
            final(self).peer_nodes@ == old(self).peer_nodes@,
            final(self).unknwon_peer_nodes@ == still_unknown_after(old(self).unknwon_peer_nodes@, sender, member@),
            final(self).failure_detector@ == recorded_member(
                old(self).failure_detector@,
                old(self).this_node_id,
                member@,
                now,
            ),
            final(self).cluster_view@ == old(self).cluster_view@.merged(old(self).this_node_id, member@),
    {
        if member.id == sender {
            let _ = self.unknwon_peer_nodes.remove(&member.advertised_addr);
        }
        match &member.state {
            Some(state) => {
                if member.id != self.this_node_id {
                    self.failure_detector.record_heartbeat(member.id, state.heartbeat, now);
                }
            },
            None => {},
        }
        self.cluster_view.merge_member_view(self.this_node_id, member);
    }
}

/// Takes in the cluster view `incoming_cluster_view` that another node sent
/// and that was received at `now`: each of its member views in turn, in the
/// order of their keys. If `reply_wanted`, returns what this node then knows
/// of the members, to be sent back.
pub fn handle_incoming_cluster_view(
    cluster: &mut Cluster,
    incoming_cluster_view: PartialClusterView,
    reply_wanted: bool,
    now: u64,
) -> (reply: Option<PartialClusterView>)
    requires
        old(cluster).wf(),
        incoming_cluster_view.wf(),
        old(cluster).can_take_in(&incoming_cluster_view, now),
    ensures
        final(cluster).wf(),
        final(cluster).this_node_id == old(cluster).this_node_id,
        final(cluster).this_advertised_url@ == old(cluster).this_advertised_url@,
        final(cluster).peer_nodes@ == old(cluster).peer_nodes@,
        final(cluster).unknwon_peer_nodes@ == still_unknown(
            old(cluster).unknwon_peer_nodes@,
            incoming_cluster_view.this_node_id,
            incoming_cluster_view.member_sequence(),
        ),
        final(cluster).failure_detector@ == recorded_all(
            old(cluster).failure_detector@,
            old(cluster).this_node_id,
            incoming_cluster_view.member_sequence(),
            now,
        ),
        final(cluster).cluster_view@ == old(cluster).cluster_view@.merged_all(
            old(cluster).this_node_id,
            incoming_cluster_view.member_sequence(),
        ),
        reply is Some == reply_wanted,
        reply matches Some(view) ==> {
            &&& view.wf()
            &&& view.this_node_id == old(cluster).this_node_id
            &&& member_models(view.members@) == final(cluster).cluster_view@.known_members
        },
{
    let incoming_node_id = incoming_cluster_view.this_node_id;
    let ghost incoming = incoming_cluster_view.member_sequence();
    let members = incoming_cluster_view.members.into_values();
    let ghost all = members@;
    proof {
        incoming_cluster_view.members.lemma_ordered_keys();
    }
    for member in iter: members
        invariant
            iter.seq() == all,
            incoming == all.map_values(|member: MemberView| member@),
            forall|at: int| 0 <= at < all.len() ==> (#[trigger] all[at]).wf(),
            now <= MAX_INSTANT,
            cluster.wf(),
            cluster.this_node_id == old(cluster).this_node_id,
            cluster.this_advertised_url@ == old(cluster).this_advertised_url@,
            cluster.peer_nodes@ == old(cluster).peer_nodes@,
            !old(cluster).cluster_view@.overflows_with_any(old(cluster).this_node_id, incoming),
            !splits_over_nothing_in(old(cluster).failure_detector@, old(cluster).this_node_id, incoming, now),
            cluster.unknwon_peer_nodes@ == still_unknown(
                old(cluster).unknwon_peer_nodes@,
                incoming_node_id,
                incoming.take(iter.index() as int),
            ),
            cluster.failure_detector@ == recorded_all(
                old(cluster).failure_detector@,
                old(cluster).this_node_id,
                incoming.take(iter.index() as int),
                now,
            ),
            cluster.cluster_view@ == old(cluster).cluster_view@.merged_all(
                old(cluster).this_node_id,
                incoming.take(iter.index() as int),
            ),
    {
        proof {
            let me = old(cluster).this_node_id;
            let at = iter.index() as int;
            assert(incoming.take(at + 1).drop_last() =~= incoming.take(at));
            lemma_no_overflow_in_prefix(old(cluster).cluster_view@, me, incoming, at + 1);
            lemma_no_split_in_prefix(old(cluster).failure_detector@, me, incoming, now, at + 1);
        }
        cluster.reconcile_member(incoming_node_id, member, now);
    }
    assert(incoming.take(all.len() as int) =~= incoming);
    if reply_wanted {
        let members = cluster.cluster_view.known_members.clone();
        Some(PartialClusterView { this_node_id: cluster.this_node_id, members })
    } else {
        None
    }
}

/// Tells that a cluster view was not taken in, because one of its member
/// views would have taken a version past the greatest one there is, or
/// carried a heartbeat later than the last one by a multiple of 2^32, or
/// because it was received later than `MAX_INSTANT`.
#[derive(Debug, PartialEq, Eq, Structural)]
pub struct RefusedClusterView;

/// Takes in the cluster view `incoming_cluster_view`, received at `now`, as
/// `handle_incoming_cluster_view` does, if the state can take it in; and
/// leaves the state as it is if not.
pub fn try_handle_incoming_cluster_view(
    cluster: &mut Cluster,
    incoming_cluster_view: PartialClusterView,
    reply_wanted: bool,
    now: u64,
) -> (outcome: Result<Option<PartialClusterView>, RefusedClusterView>)
    requires
        old(cluster).wf(),
        incoming_cluster_view.wf(),
    ensures
        final(cluster).wf(),
        outcome is Ok == old(cluster).can_take_in(&incoming_cluster_view, now),
        outcome is Err ==> *final(cluster) == *old(cluster),
        outcome matches Ok(reply) ==> {
            &&& final(cluster).this_node_id == old(cluster).this_node_id
            &&& final(cluster).this_advertised_url@ == old(cluster).this_advertised_url@
            &&& final(cluster).peer_nodes@ == old(cluster).peer_nodes@
            &&& final(cluster).unknwon_peer_nodes@ == still_unknown(
                old(cluster).unknwon_peer_nodes@,
                incoming_cluster_view.this_node_id,
                incoming_cluster_view.member_sequence(),
            )
            &&& final(cluster).failure_detector@ == recorded_all(
                old(cluster).failure_detector@,
                old(cluster).this_node_id,
                incoming_cluster_view.member_sequence(),
                now,
            )
            &&& final(cluster).cluster_view@ == old(cluster).cluster_view@.merged_all(
                old(cluster).this_node_id,
                incoming_cluster_view.member_sequence(),
            )
            &&& reply is Some == reply_wanted
            &&& reply matches Some(view) ==> {
                &&& view.wf()
                &&& view.this_node_id == old(cluster).this_node_id
                &&& member_models(view.members@) == final(cluster).cluster_view@.known_members
            }
        },
{
    if cluster.accepts(&incoming_cluster_view, now) {
        Ok(handle_incoming_cluster_view(cluster, incoming_cluster_view, reply_wanted, now))
    } else {
        Err(RefusedClusterView)
    }
}

/// Counting a heartbeat of a node keeps the version vector and the
/// heartbeats in agreement with the members.
pub proof fn lemma_next_heartbeat_keeps_consistent(view: ClusterViewModel, id: NodeId)
    requires
        view.consistent(),
        view.knows_state_of(id),
    ensures
        view.with_next_heartbeat(id).consistent(),
        view.with_next_heartbeat(id).knows_state_of(id),
{
}

/// Where merging a sequence of views never overflows, merging the first of
/// them never does.
proof fn lemma_no_overflow_in_prefix(
    view: ClusterViewModel,
    this_node_id: NodeId,
    incoming: Seq<MemberModel>,
    upto: int,
)
    requires
        0 <= upto <= incoming.len(),
        !view.overflows_with_any(this_node_id, incoming),
    ensures
        !view.overflows_with_any(this_node_id, incoming.take(upto)),
    decreases incoming.len() - upto,
{
    if upto < incoming.len() {
        lemma_no_overflow_in_prefix(view, this_node_id, incoming, upto + 1);
        assert(incoming.take(upto + 1).drop_last() =~= incoming.take(upto));
    } else {
        assert(incoming.take(upto) =~= incoming);
    }
}

/// Where recording the heartbeats of a sequence of views never splits time
/// over nothing, recording those of the first of them never does.
proof fn lemma_no_split_in_prefix(
    records: Map<NodeId, HeartbeatRecord>,
    this_node_id: NodeId,
    incoming: Seq<MemberModel>,
    now: u64,
    upto: int,
)
    requires
        0 <= upto <= incoming.len(),
        !splits_over_nothing_in(records, this_node_id, incoming, now),
    ensures
        !splits_over_nothing_in(records, this_node_id, incoming.take(upto), now),
    decreases incoming.len() - upto,
{
    if upto < incoming.len() {
        lemma_no_split_in_prefix(records, this_node_id, incoming, now, upto + 1);
        assert(incoming.take(upto + 1).drop_last() =~= incoming.take(upto));
    } else {
        assert(incoming.take(upto) =~= incoming);
    }
}

} // verus!
