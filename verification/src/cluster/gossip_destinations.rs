//! The choice of the peers to gossip with.
//!
//! Peers whose identity is still unknown come first: they must be reached
//! for the node to learn who is in the cluster. What is left of the round
//! goes to members picked at random, which spreads news through a cluster
//! of n nodes in about log n rounds.

use crate::cluster::views::{member_models, MemberView, PartialClusterView};
use crate::cluster::Cluster;
use crate::url_set::{texts, without};
use vstd::prelude::*;

verus! {

/// The number of peers that a node gossips with at a time, at most.
pub const GOSSIP_DESTINATIONS_SAMPLE_SIZE: usize = 3;

/// The unknown peers to gossip with: the first of `unknown` that are not
/// `local`, as many as a round allows.
pub open spec fn unknown_to_contact(unknown: Seq<Seq<char>>, local: Seq<char>) -> Seq<Seq<char>> {
    let others = without(unknown, local);
    if others.len() <= GOSSIP_DESTINATIONS_SAMPLE_SIZE {
        others
    } else {
        others.take(GOSSIP_DESTINATIONS_SAMPLE_SIZE as int)
    }
}

/// The addresses of `members` that are not `local`, in the same order.
pub open spec fn addresses_but(members: Seq<MemberView>, local: Seq<char>) -> Seq<Seq<char>> {
    without(members.map_values(|member: MemberView| member.advertised_addr@), local)
}

/// The number of members to pick at random, when `contacted` unknown peers
/// are gossiped with already and there are `candidates` members to pick
/// from.
pub open spec fn sample_size(contacted: nat, candidates: nat) -> nat {
    if GOSSIP_DESTINATIONS_SAMPLE_SIZE - contacted <= candidates {
        (GOSSIP_DESTINATIONS_SAMPLE_SIZE - contacted) as nat
    } else {
        candidates
    }
}

/// Whether `sample` holds `amount` positions below `length`, no two of them
/// the same.
pub open spec fn is_sample(sample: Seq<usize>, length: nat, amount: nat) -> bool {
    &&& sample.len() == amount
    &&& forall|i: int| 0 <= i < sample.len() ==> sample[i] < length
    &&& sample.no_duplicates()
}

/// A peer to gossip with, and what to tell it.
#[derive(Debug)]
pub struct GossipDestination {
    pub destination_url: String,
    pub cluster_view: PartialClusterView,
}

/// Picks `amount` of the positions below `length` at random.
///
/// Calls `rand::seq::index::sample` with the generator of the running
/// thread. By its documentation it returns exactly `amount` distinct indices
/// from `0..length`; it panics where `amount > length`, which the
/// precondition leaves out. Which indices come back, and in what order, is
/// left open.
#[verifier::external_body]
fn sample_indices(length: usize, amount: usize) -> (sample: Vec<usize>)
    requires
        amount <= length,
    ensures
        is_sample(sample@, length as nat, amount as nat),
{
    rand::seq::index::sample(&mut rand::thread_rng(), length, amount).into_vec()
}

impl Cluster {
    /// The unknown peers that this node gossips with in a round.
    pub open spec fn unknown_destinations(&self) -> Seq<Seq<char>> {
        unknown_to_contact(self.unknwon_peer_nodes@, self.this_advertised_url@)
    }

    /// The addresses of the members that this node may gossip with: those
    /// of the known members, in the order of their identities, but its own.
    pub open spec fn member_destinations(&self) -> Seq<Seq<char>> {
        addresses_but(self.cluster_view.known_members.ordered_values(), self.this_advertised_url@)
    }

    /// Whether `view` is what this node tells its peers: who it is, and how
    /// it sees every member.
    pub open spec fn tells(&self, view: &PartialClusterView) -> bool {
        &&& view.wf()
        &&& view.this_node_id == self.this_node_id
        &&& member_models(view.members@) == self.cluster_view@.known_members
    }

    /// Whether `destinations` are the unknown peers to contact, followed by
    /// the members at the positions `sample`, and each is told what this
    /// node tells its peers.
    pub open spec fn gossips_with(&self, destinations: Seq<GossipDestination>, sample: Seq<usize>) -> bool {
        let urls = self.unknown_destinations() + sample.map_values(
            |at: usize| self.member_destinations()[at as int],
        );
        &&& destinations.len() == urls.len()
        &&& forall|i: int|
            0 <= i < destinations.len() ==> (#[trigger] destinations[i]).destination_url@ == urls[i]
                && self.tells(&destinations[i].cluster_view)
    }

    /// Whether `destinations` are those of a round of gossip: three at
    /// most; the unknown peers to contact, followed by as many members as
    /// the round has room for, no member twice; and each is told what this
    /// node tells its peers.
    pub open spec fn gossips_a_round(&self, destinations: Seq<GossipDestination>) -> bool {
        &&& destinations.len() <= GOSSIP_DESTINATIONS_SAMPLE_SIZE
        &&& exists|sample: Seq<usize>|
            {
                &&& is_sample(
                    sample,
                    self.member_destinations().len(),
                    sample_size(self.unknown_destinations().len(), self.member_destinations().len()),
                )
                &&& self.gossips_with(destinations, sample)
            }
    }

    /// What this node tells its peers.
    pub fn partial_cluster_view(&self) -> (view: PartialClusterView)
        requires
            self.wf(),
        ensures
            self.tells(&view),
    {
        let members = self.cluster_view.known_members.clone();
        assert(member_models(members@) =~= member_models(self.cluster_view.known_members@));
        PartialClusterView { this_node_id: self.this_node_id, members }
    }

    /// The unknown peers that this node gossips with in a round.
    pub fn unknown_peers_to_contact(&self) -> (urls: Vec<String>)
        requires
            self.wf(),
        ensures
            texts(urls@) == self.unknown_destinations(),
    {
        let mut urls: Vec<String> = Vec::new();
        let mut next: usize = 0;
        let ghost unknown = self.unknwon_peer_nodes@;
        let ghost local = self.this_advertised_url@;
        proof {
            reveal(Seq::filter);
        }
        while next < self.unknwon_peer_nodes.len() && urls.len() < GOSSIP_DESTINATIONS_SAMPLE_SIZE
            invariant
                next <= unknown.len(),
                unknown == self.unknwon_peer_nodes@,
                local == self.this_advertised_url@,
                urls@.len() <= GOSSIP_DESTINATIONS_SAMPLE_SIZE,
                texts(urls@) == without(unknown.take(next as int), local),
            decreases unknown.len() - next,
        {
            let url = self.unknwon_peer_nodes.get(next);
            proof {
                reveal(Seq::filter);
                assert(unknown.take(next + 1).drop_last() =~= unknown.take(next as int));
            }
            if *url != self.this_advertised_url {
                urls.push(url.clone());
            }
            next += 1;
        }
        proof {
            let seen = unknown.take(next as int);
            let rest = unknown.skip(next as int);
            let differs = |other: Seq<char>| other != local;
            assert(unknown =~= seen + rest);
            Seq::filter_distributes_over_add(seen, rest, differs);
            if next == unknown.len() {
                reveal(Seq::filter);
            }
        }
        urls
    }

    /// The addresses of the members that this node may gossip with.
    pub fn members_to_sample(&self) -> (urls: Vec<String>)
        requires
            self.wf(),
        ensures
            texts(urls@) == self.member_destinations(),
    {
        let members = &self.cluster_view.known_members;
        let count = members.len();
        let mut urls: Vec<String> = Vec::new();
        let mut next: usize = 0;
        let ghost local = self.this_advertised_url@;
        let ghost addresses = members.ordered_values().map_values(|member: MemberView| member.advertised_addr@);
        proof {
            reveal(Seq::filter);
        }
        while next < count
            invariant
                next <= count,
                count == members.ordered_keys().len(),
                members == &self.cluster_view.known_members,
                members.wf(),
                local == self.this_advertised_url@,
                addresses == members.ordered_values().map_values(|member: MemberView| member.advertised_addr@),
                texts(urls@) == without(addresses.take(next as int), local),
            decreases count - next,
        {
            let member = members.value_at(next);
            proof {
                reveal(Seq::filter);
                assert(addresses.take(next + 1).drop_last() =~= addresses.take(next as int));
            }
            if member.advertised_addr != self.this_advertised_url {
                urls.push(member.advertised_addr.clone());
            }
            next += 1;
        }
        assert(addresses.take(next as int) =~= addresses);
        urls
    }

    /// The destinations of a round of gossip, where `sample` holds the
    /// positions, among the members that this node may gossip with, of
    /// those that were picked: the unknown peers to contact, then the
    /// picked members, each with what this node tells its peers.
    pub fn gossip_destinations_with(&self, sample: &Vec<usize>) -> (destinations: Vec<GossipDestination>)
        requires
            self.wf(),
            forall|i: int| 0 <= i < sample@.len() ==> sample@[i] < self.member_destinations().len(),
        ensures
            self.gossips_with(destinations@, sample@),
    {
        let unknown = self.unknown_peers_to_contact();
        let members = self.members_to_sample();
        self.destinations_among(&unknown, &members, sample)
    }

    /// The destinations of a round of gossip, given the unknown peers to
    /// contact, the members that may be gossiped with, and the positions of
    /// the members that were picked.
    fn destinations_among(
        &self,
        unknown: &Vec<String>,
        members: &Vec<String>,
        sample: &Vec<usize>,
    ) -> (destinations: Vec<GossipDestination>)
        requires
            self.wf(),
            texts(unknown@) == self.unknown_destinations(),
            texts(members@) == self.member_destinations(),
            forall|i: int| 0 <= i < sample@.len() ==> sample@[i] < self.member_destinations().len(),
        ensures
            self.gossips_with(destinations@, sample@),
    {
        let cluster_view = self.partial_cluster_view();
        let mut destinations: Vec<GossipDestination> = Vec::new();
        let ghost sampled = sample@.map_values(|at: usize| self.member_destinations()[at as int]);
        let ghost urls = self.unknown_destinations() + sampled;
        let mut next: usize = 0;
        while next < unknown.len()
            invariant
                next <= unknown@.len(),
                self.wf(),
                self.tells(&cluster_view),
                texts(unknown@) == self.unknown_destinations(),
                urls == self.unknown_destinations() + sampled,
                destinations@.len() == next,
                forall|i: int|
                    0 <= i < next ==> (#[trigger] destinations@[i]).destination_url@ == urls[i] && self.tells(
                        &destinations@[i].cluster_view,
                    ),
            decreases unknown@.len() - next,
        {
            let destination = GossipDestination {
                destination_url: unknown[next].clone(),
                cluster_view: cluster_view.clone(),
            };
            destinations.push(destination);
            next += 1;
        }
        let mut next: usize = 0;
        while next < sample.len()
            invariant
                next <= sample@.len(),
                self.wf(),
                self.tells(&cluster_view),
                texts(unknown@) == self.unknown_destinations(),
                texts(members@) == self.member_destinations(),
                forall|i: int| 0 <= i < sample@.len() ==> sample@[i] < self.member_destinations().len(),
                sampled == sample@.map_values(|at: usize| self.member_destinations()[at as int]),
                urls == self.unknown_destinations() + sampled,
                destinations@.len() == unknown@.len() + next,
                forall|i: int|
                    0 <= i < destinations@.len() ==> (#[trigger] destinations@[i]).destination_url@ == urls[i]
                        && self.tells(&destinations@[i].cluster_view),
            decreases sample@.len() - next,
        {
            let at = sample[next];
            let destination = GossipDestination {
                destination_url: members[at].clone(),
                cluster_view: cluster_view.clone(),
            };
            destinations.push(destination);
            next += 1;
        }
        destinations
    }

    /// Selects the peers to gossip with in a round, three at most: unknown
    /// peers first, and then, for what is left of the three, members
    /// picked at random.
    pub fn select_gossip_destinations(&self) -> (destinations: Vec<GossipDestination>)
        requires
            self.wf(),
        ensures
            self.gossips_a_round(destinations@),
    {
        let unknown = self.unknown_peers_to_contact();
        let members = self.members_to_sample();
        assert(unknown@.len() == texts(unknown@).len());
        let remaining_exchanges = if GOSSIP_DESTINATIONS_SAMPLE_SIZE - unknown.len() <= members.len() {
            GOSSIP_DESTINATIONS_SAMPLE_SIZE - unknown.len()
        } else {
            members.len()
        };
        let sample = sample_indices(members.len(), remaining_exchanges);
        let destinations = self.destinations_among(&unknown, &members, &sample);
        assert(self.gossips_with(destinations@, sample@));
        destinations
    }

    /// Starts a round of gossip: counts one more heartbeat of this node,
    /// and selects the peers to gossip with, each with what this node then
    /// tells its peers.
    pub fn tick(&mut self) -> (destinations: Vec<GossipDestination>)
        requires
            old(self).wf(),
            old(self).cluster_view@.known_members[old(self).this_node_id].state->Some_0.heartbeat < u64::MAX,
        ensures
            final(self).wf(),
            final(self).cluster_view@ == old(self).cluster_view@.with_next_heartbeat(old(self).this_node_id),
            final(self).this_node_id == old(self).this_node_id,
            final(self).this_advertised_url@ == old(self).this_advertised_url@,
            final(self).peer_nodes@ == old(self).peer_nodes@,
            final(self).unknwon_peer_nodes@ == old(self).unknwon_peer_nodes@,
            final(self).failure_detector@ == old(self).failure_detector@,
            final(self).gossips_a_round(destinations@),
    {
        let _ = self.increment_own_heartbeat();
        self.select_gossip_destinations()
    }
}

} // verus!
