//! How a node sees itself and its peers, and how two such views are merged.

use crate::cluster::version_vector::{recorded, VersionVector};
use crate::node::{NodeId, NodeStatus};
use crate::node_map::NodeMap;
use crate::node_set::NodeSet;
use vstd::prelude::*;

verus! {

/// The greater of two heartbeats.
pub open spec fn later(a: u64, b: u64) -> u64 {
    if a >= b {
        a
    } else {
        b
    }
}

/// What a `MemberViewState` stands for.
pub struct StateModel {
    pub node_status: NodeStatus,
    pub version: u16,
    pub heartbeat: u64,
    pub observed_by: Set<NodeId>,
}

/// What a `MemberView` stands for.
pub struct MemberModel {
    pub id: NodeId,
    pub advertised_addr: Seq<char>,
    pub state: Option<StateModel>,
}

impl StateModel {
    /// Whether `self` and `incoming` carry different statuses at the same
    /// version.
    pub open spec fn conflicts_with(self, incoming: StateModel) -> bool {
        self.version == incoming.version && self.node_status != incoming.node_status
    }

    /// Whether merging `incoming` into `self` would take the version past
    /// the greatest one there is.
    pub open spec fn overflows_with(self, incoming: StateModel) -> bool {
        self.conflicts_with(incoming) && self.version == u16::MAX
    }

    /// The state after `incoming` was merged into `self`.
    ///
    /// The heartbeat is the later of the two. The higher version brings its
    /// status and its observers. At the same version, equal statuses join
    /// their observers, and different statuses are settled by priority at
    /// the next version, which nobody but the observers of `self` has seen.
    pub open spec fn merged(self, incoming: StateModel) -> StateModel {
        let heartbeat = later(self.heartbeat, incoming.heartbeat);
        if incoming.version > self.version {
            StateModel {
                node_status: incoming.node_status,
                version: incoming.version,
                heartbeat,
                observed_by: incoming.observed_by,
            }
        } else if incoming.version < self.version {
            StateModel { heartbeat, ..self }
        } else if self.node_status != incoming.node_status {
            StateModel {
                node_status: self.node_status.stronger(incoming.node_status),
                version: (self.version + 1) as u16,
                heartbeat,
                observed_by: self.observed_by,
            }
        } else {
            StateModel { heartbeat, observed_by: self.observed_by.union(incoming.observed_by), ..self }
        }
    }

    /// The state once `observer` has seen it.
    pub open spec fn seen_by(self, observer: NodeId) -> StateModel {
        StateModel { observed_by: self.observed_by.insert(observer), ..self }
    }
}

/// The state of a member after a view of it that carries `incoming` was
/// merged into one that carries `resident`.
pub open spec fn merged_state(resident: Option<StateModel>, incoming: Option<StateModel>) -> Option<
    StateModel,
> {
    match (resident, incoming) {
        (None, _) => incoming,
        (Some(_), None) => resident,
        (Some(r), Some(i)) => Some(r.merged(i)),
    }
}

impl MemberModel {
    /// The view that a node has of itself when it starts: `Joining`, at
    /// version 1 and heartbeat 0, observed by itself alone.
    pub open spec fn joining(id: NodeId, advertised_addr: Seq<char>) -> MemberModel {
        MemberModel {
            id,
            advertised_addr,
            state: Some(
                StateModel { node_status: NodeStatus::Joining, version: 1, heartbeat: 0, observed_by: set![id] },
            ),
        }
    }

    /// Whether both views are of the same run of a node and carry different
    /// statuses at the same version.
    pub open spec fn conflicts_with(self, incoming: MemberModel) -> bool {
        &&& self.id.generation == incoming.id.generation
        &&& self.state matches Some(r)
        &&& incoming.state matches Some(i)
        &&& r.conflicts_with(i)
    }

    /// Whether merging `incoming` into `self` would take the version past
    /// the greatest one there is.
    pub open spec fn overflows_with(self, incoming: MemberModel) -> bool {
        &&& self.id.generation == incoming.id.generation
        &&& self.state matches Some(r)
        &&& incoming.state matches Some(i)
        &&& r.overflows_with(i)
    }

    /// The view after `incoming` was merged into `self`.
    ///
    /// A higher generation replaces the view as a whole and a lower one is
    /// discarded. At the same generation the states are merged.
    pub open spec fn merged(self, incoming: MemberModel) -> MemberModel {
        if incoming.id.generation > self.id.generation {
            incoming
        } else if incoming.id.generation < self.id.generation {
            self
        } else {
            MemberModel { state: merged_state(self.state, incoming.state), ..self }
        }
    }

    /// The view once `observer` has seen it: `observer` joins the observers
    /// of the state, if there is one.
    pub open spec fn seen_by(self, observer: NodeId) -> MemberModel {
        match self.state {
            Some(state) => MemberModel { state: Some(state.seen_by(observer)), ..self },
            None => self,
        }
    }
}

/// The state of a member as its views carry it.
#[derive(Debug, PartialEq, Eq)]
pub struct MemberViewState {
    pub node_status: NodeStatus,
    /// Grows every time the status of the node changes. When two views of a
    /// node are merged, the higher version wins.
    pub version: u16,
    /// A counter that the node itself increments at every gossip round.
    pub heartbeat: u64,
    /// The nodes that have merged this version of the state into their views.
    pub observed_by: NodeSet,
}

impl View for MemberViewState {
    type V = StateModel;

    open spec fn view(&self) -> StateModel {
        StateModel {
            node_status: self.node_status,
            version: self.version,
            heartbeat: self.heartbeat,
            observed_by: self.observed_by@,
        }
    }
}

impl Clone for MemberViewState {
    fn clone(&self) -> (copy: MemberViewState)
        ensures
            copy@ == self@,
            self.wf() ==> copy.wf(),
    {
        MemberViewState {
            node_status: self.node_status,
            version: self.version,
            heartbeat: self.heartbeat,
            observed_by: self.observed_by.clone(),
        }
    }
}

impl MemberViewState {
    /// The representation invariant of the state.
    pub open spec fn wf(&self) -> bool {
        self.observed_by.wf()
    }

    /// Merges `incoming` into this state.
    pub fn merge(&mut self, incoming: MemberViewState)
        requires
            old(self).wf(),
            incoming.wf(),
            !old(self)@.overflows_with(incoming@),
        ensures
            final(self).wf(),
            final(self)@ == old(self)@.merged(incoming@),
    {
        if incoming.heartbeat > self.heartbeat {
            self.heartbeat = incoming.heartbeat;
        }
        if incoming.version > self.version {
            self.node_status = incoming.node_status;
            self.version = incoming.version;
            self.observed_by = incoming.observed_by;
        } else if incoming.version == self.version {
            if self.node_status != incoming.node_status {
                self.version += 1;
                self.node_status = self.node_status.max(incoming.node_status);
            } else {
                self.observed_by.extend(&incoming.observed_by);
            }
        }
    }
}

/// How a node sees one member of the cluster.
#[derive(Debug, PartialEq, Eq)]
pub struct MemberView {
    pub id: NodeId,
    /// The URL at which the member can be reached, in its canonical text.
    pub advertised_addr: String,
    /// Absent for a peer that was heard of and not yet heard from.
    pub state: Option<MemberViewState>,
}

impl View for MemberView {
    type V = MemberModel;

    open spec fn view(&self) -> MemberModel {
        MemberModel {
            id: self.id,
            advertised_addr: self.advertised_addr@,
            state: match self.state {
                Some(state) => Some(state@),
                None => None,
            },
        }
    }
}

impl Clone for MemberView {
    fn clone(&self) -> (copy: MemberView)
        ensures
            copy@ == self@,
            self.wf() ==> copy.wf(),
    {
        MemberView {
            id: self.id,
            advertised_addr: self.advertised_addr.clone(),
            state: match &self.state {
                Some(state) => Some(state.clone()),
                None => None,
            },
        }
    }
}

impl MemberView {
    /// The representation invariant of the view.
    pub open spec fn wf(&self) -> bool {
        self.state matches Some(state) ==> state.wf()
    }

    /// The view that a node has of itself when it starts.
    pub fn this_node_initial_view(id: NodeId, advertised_url: String) -> (view: MemberView)
        ensures
            view.wf(),
            view@ == MemberModel::joining(id, advertised_url@),
    {
        let mut observed_by = NodeSet::new();
        observed_by.insert(id);
        MemberView {
            id,
            advertised_addr: advertised_url,
            state: Some(
                MemberViewState { node_status: NodeStatus::Joining, heartbeat: 0, version: 1, observed_by },
            ),
        }
    }

    /// Merges `incoming`, another view of the same node, into this view.
    pub fn merge(&mut self, incoming: MemberView)
        requires
            old(self).wf(),
            incoming.wf(),
            old(self).id.unique_id == incoming.id.unique_id,
            !old(self)@.overflows_with(incoming@),
        ensures
            final(self).wf(),
            final(self)@ == old(self)@.merged(incoming@),
    {
        if incoming.id.generation > self.id.generation {
            *self = incoming;
        } else if incoming.id.generation == self.id.generation {
            match incoming.state {
                Some(incoming_state) => {
                    match &mut self.state {
                        Some(state) => {
                            state.merge(incoming_state);
                        },
                        None => {
                            self.state = Some(incoming_state);
                        },
                    }
                },
                None => {},
            }
        }
    }

    /// Records that `observer` has seen this view, and returns the heartbeat
    /// and the version that it has seen, if the view carries a state.
    pub fn mark_seen_by(&mut self, observer: NodeId) -> (seen: Option<(u64, u16)>)
        requires
            old(self).wf(),
        ensures
            final(self).wf(),
            final(self)@ == old(self)@.seen_by(observer),
            seen == (match old(self)@.state {
                Some(state) => Some((state.heartbeat, state.version)),
                None => None,
            }),
    {
        match &mut self.state {
            Some(state) => {
                state.observed_by.insert(observer);
                Some((state.heartbeat, state.version))
            },
            None => None,
        }
    }
}

/// What a map of member views stands for: the model of each view, under
/// the same key.
pub open spec fn member_models(members: Map<NodeId, MemberView>) -> Map<NodeId, MemberModel> {
    members.map_values(|member: MemberView| member@)
}

/// Whether every view in `members` meets its representation invariant.
pub open spec fn members_wf(members: Map<NodeId, MemberView>) -> bool {
    forall|id: NodeId| members.contains_key(id) ==> (#[trigger] members[id]).wf()
}

/// What a `ClusterView` stands for.
pub struct ClusterViewModel {
    pub known_members: Map<NodeId, MemberModel>,
    pub versions: Map<NodeId, u16>,
    pub heartbeats: Map<NodeId, u64>,
}

impl ClusterViewModel {
    /// Whether every member is filed under its own identity.
    pub open spec fn keyed_by_id(self) -> bool {
        forall|id: NodeId| self.known_members.contains_key(id) ==> (#[trigger] self.known_members[id]).id == id
    }

    /// Whether the version vector and the heartbeats agree with the members:
    /// they speak of members only, and of a member that carries a state
    /// they hold its version and its heartbeat. Of a member without a state
    /// the version vector holds nothing, or version 0.
    pub open spec fn consistent(self) -> bool {
        &&& self.keyed_by_id()
        &&& forall|id: NodeId| #[trigger]
            self.known_members.contains_key(id) ==> match self.known_members[id].state {
                Some(state) => {
                    &&& self.versions.contains_key(id)
                    &&& self.versions[id] == state.version
                    &&& self.heartbeats.contains_key(id)
                    &&& self.heartbeats[id] == state.heartbeat
                },
                None => self.versions.contains_key(id) ==> self.versions[id] == 0,
            }
        &&& forall|id: NodeId| #[trigger]
            self.versions.contains_key(id) ==> self.known_members.contains_key(id)
        &&& forall|id: NodeId| #[trigger]
            self.heartbeats.contains_key(id) ==> self.known_members.contains_key(id)
    }

    /// The cluster view that knows of no member.
    pub open spec fn empty() -> ClusterViewModel {
        ClusterViewModel { known_members: Map::empty(), versions: Map::empty(), heartbeats: Map::empty() }
    }

    /// The cluster view with `member` put in the place of what it held of
    /// that node: the member, and its version and heartbeat, or zeros if it
    /// carries no state.
    pub open spec fn with_member(self, member: MemberModel) -> ClusterViewModel {
        let (version, heartbeat) = match member.state {
            Some(state) => (state.version, state.heartbeat),
            None => (0u16, 0u64),
        };
        ClusterViewModel {
            known_members: self.known_members.insert(member.id, member),
            versions: self.versions.insert(member.id, version),
            heartbeats: self.heartbeats.insert(member.id, heartbeat),
        }
    }

    /// The cluster view made of `members`, where a later view of a node
    /// takes the place of an earlier one.
    pub open spec fn of_members(members: Seq<MemberModel>) -> ClusterViewModel
        decreases members.len(),
    {
        if members.len() == 0 {
            ClusterViewModel::empty()
        } else {
            ClusterViewModel::of_members(members.drop_last()).with_member(members.last())
        }
    }

    /// Whether merging `incoming` would take a version past the greatest
    /// one there is.
    pub open spec fn overflows_with(self, incoming: MemberModel) -> bool {
        self.known_members.contains_key(incoming.id) && self.known_members[incoming.id].overflows_with(
            incoming,
        )
    }

    /// The view of `incoming`'s node that results when the node that holds
    /// this view, `this_node_id`, merges `incoming`: `incoming` itself if the
    /// node was unknown, else the resident view with `incoming` merged into
    /// it; and either way seen by `this_node_id`.
    pub open spec fn merged_member(self, this_node_id: NodeId, incoming: MemberModel) -> MemberModel {
        if self.known_members.contains_key(incoming.id) {
            self.known_members[incoming.id].merged(incoming).seen_by(this_node_id)
        } else {
            incoming.seen_by(this_node_id)
        }
    }

    /// The cluster view after node `this_node_id`, which holds it, merged
    /// `incoming` into it. Where the resulting member carries a state, its
    /// heartbeat and version are taken over.
    pub open spec fn merged(self, this_node_id: NodeId, incoming: MemberModel) -> ClusterViewModel {
        let member = self.merged_member(this_node_id, incoming);
        let known_members = self.known_members.insert(incoming.id, member);
        match member.state {
            Some(state) => ClusterViewModel {
                known_members,
                versions: recorded(self.versions, member.id, state.version),
                heartbeats: self.heartbeats.insert(member.id, state.heartbeat),
            },
            None => ClusterViewModel { known_members, ..self },
        }
    }
}

/// What one node tells another of the cluster: who it is, and how it sees
/// the members.
#[derive(Debug, PartialEq, Eq)]
pub struct PartialClusterView {
    /// The node that sends the view.
    pub this_node_id: NodeId,
    pub members: NodeMap<MemberView>,
}

impl Clone for PartialClusterView {
    fn clone(&self) -> (copy: PartialClusterView)
        ensures
            self.wf() ==> copy.wf() && copy.this_node_id == self.this_node_id && copy.member_sequence()
                == self.member_sequence() && member_models(copy.members@) == member_models(self.members@),
    {
        proof {
            if self.wf() {
                self.members.lemma_ordered_keys();
            }
        }
        PartialClusterView { this_node_id: self.this_node_id, members: self.members.clone() }
    }
}

impl PartialClusterView {
    /// The representation invariant of the view.
    pub open spec fn wf(&self) -> bool {
        &&& self.members.wf()
        &&& members_wf(self.members@)
    }

    /// The member views that the view carries, in the order of their keys.
    pub open spec fn member_sequence(&self) -> Seq<MemberModel> {
        self.members.ordered_values().map_values(|member: MemberView| member@)
    }
}

/// How the running node sees the cluster: itself and its peers.
#[derive(Debug, PartialEq, Eq)]
pub struct ClusterView {
    pub known_members: NodeMap<MemberView>,
    pub version_vector: VersionVector,
    pub heartbeats: NodeMap<u64>,
}

impl View for ClusterView {
    type V = ClusterViewModel;

    open spec fn view(&self) -> ClusterViewModel {
        ClusterViewModel {
            known_members: member_models(self.known_members@),
            versions: self.version_vector@,
            heartbeats: self.heartbeats@,
        }
    }
}

impl Clone for ClusterView {
    fn clone(&self) -> (copy: ClusterView)
        ensures
            self.wf() ==> copy.wf() && copy@ == self@,
    {
        let copy = ClusterView {
            known_members: self.known_members.clone(),
            version_vector: self.version_vector.clone(),
            heartbeats: self.heartbeats.clone(),
        };
        proof {
            if self.wf() {
                assert(member_models(copy.known_members@) =~= member_models(self.known_members@));
                assert(copy.heartbeats@ =~= self.heartbeats@);
            }
        }
        copy
    }
}

impl ClusterView {
    /// The representation invariant of the cluster view.
    pub open spec fn wf(&self) -> bool {
        &&& self.known_members.wf()
        &&& members_wf(self.known_members@)
        &&& self.version_vector.wf()
        &&& self.heartbeats.wf()
    }

    /// The view of a node that knows of itself alone.
    pub fn initial(this_node_id: NodeId, this_node_advertised_url: String) -> (view: ClusterView)
        ensures
            view.wf(),
            view@.consistent(),
            view@.known_members == map![
                this_node_id => MemberModel::joining(this_node_id, this_node_advertised_url@),
            ],
            view@.versions == map![this_node_id => 1u16],
            view@.heartbeats == map![this_node_id => 0u64],
    {
        let mut known_members: NodeMap<MemberView> = NodeMap::new();
        let mut heartbeats: NodeMap<u64> = NodeMap::new();
        let mut version_vector = VersionVector::new();
        let this_node = MemberView::this_node_initial_view(this_node_id, this_node_advertised_url);
        version_vector.record_version(this_node_id, 1);
        heartbeats.insert(this_node_id, 0);
        known_members.insert(this_node_id, this_node);
        ClusterView { known_members, version_vector, heartbeats }
    }

    /// The cluster view made of `members`, where a later view of a node
    /// takes the place of an earlier one.
    pub fn from_members(members: Vec<MemberView>) -> (view: ClusterView)
        requires
            forall|i: int| 0 <= i < members@.len() ==> (#[trigger] members@[i]).wf(),
        ensures
            view.wf(),
            view@ == ClusterViewModel::of_members(members@.map_values(|member: MemberView| member@)),
            view@.consistent(),
    {
        let mut view = ClusterView {
            known_members: NodeMap::new(),
            version_vector: VersionVector::new(),
            heartbeats: NodeMap::new(),
        };
        let ghost all = members@;
        let ghost models = all.map_values(|member: MemberView| member@);
        assert(view@.known_members =~= Map::<NodeId, MemberModel>::empty());
        for member in iter: members
            invariant
                iter.seq() == all,
                models == all.map_values(|member: MemberView| member@),
                forall|i: int| 0 <= i < all.len() ==> (#[trigger] all[i]).wf(),
                view.wf(),
                view@.consistent(),
                view@ == ClusterViewModel::of_members(models.take(iter.index() as int)),
        {
            let ghost after = view@.with_member(member@);
            assert(models.take(iter.index() + 1).drop_last() =~= models.take(iter.index() as int));
            let (version, heartbeat) = match &member.state {
                Some(state) => (state.version, state.heartbeat),
                None => (0, 0),
            };
            view.version_vector.insert(member.id, version);
            view.heartbeats.insert(member.id, heartbeat);
            view.known_members.insert(member.id, member);
            assert(view@.known_members =~= after.known_members);
        }
        assert(models.take(all.len() as int) =~= models);
        view
    }

    /// Merges a view of a member, received from another node, into this
    /// cluster view, which node `this_node_id` holds.
    pub fn merge_member_view(&mut self, this_node_id: NodeId, other_node: MemberView)
        requires
            old(self).wf(),
            other_node.wf(),
            old(self)@.keyed_by_id(),
            !old(self)@.overflows_with(other_node@),
        ensures
            final(self).wf(),
            final(self)@ == old(self)@.merged(this_node_id, other_node@),
            final(self)@.keyed_by_id(),
            old(self)@.consistent() ==> final(self)@.consistent(),
    {
        let id = other_node.id;
        let ghost merged = old(self)@.merged_member(this_node_id, other_node@);
        let seen = match self.known_members.get_mut(&id) {
            Some(resident) => {
                resident.merge(other_node);
                resident.mark_seen_by(this_node_id)
            },
            None => {
                let mut member = other_node;
                let seen = member.mark_seen_by(this_node_id);
                self.known_members.insert(id, member);
                seen
            },
        };
        assert(member_models(self.known_members@) =~= member_models(old(self).known_members@).insert(id, merged));
        if let Some((heartbeat, version)) = seen {
            self.heartbeats.insert(id, heartbeat);
            self.version_vector.record_version(id, version);
        }
    }
}

/// Merging a member view into a cluster view keeps every member filed under
/// its own identity, and keeps the version vector and the heartbeats in
/// agreement with the members.
pub proof fn lemma_merge_keeps_consistent(view: ClusterViewModel, this_node_id: NodeId, incoming: MemberModel)
    requires
        view.keyed_by_id(),
    ensures
        view.merged(this_node_id, incoming).keyed_by_id(),
        view.consistent() && !view.overflows_with(incoming) ==> view.merged(this_node_id, incoming).consistent(),
{
}

} // verus!
