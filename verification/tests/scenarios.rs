use council::cluster::failure_detector::FailureDetectorMember;
use council::cluster::handle_incoming_cluster_view;
use council::cluster::views::{MemberView, MemberViewState};
use council::cluster::Cluster;
use council::node::{NodeId, NodeStatus};
use council::node_set::NodeSet;

const SECOND: u64 = 1_000_000_000;
const GOSSIP_INTERVAL: u64 = 3 * SECOND / 2;
const PHI_THRESHOLD: f64 = 8.0;

fn url(n: usize) -> String {
    format!("http://node{}/", n)
}

fn id(n: usize) -> NodeId {
    NodeId::from_url(&url(n), 1)
}

fn start(n: usize, seeds: &[usize]) -> Cluster {
    Cluster::new(id(n), url(n), &seeds.iter().map(|seed| url(*seed)).collect())
}

fn phi(member: &FailureDetectorMember, now: u64) -> Option<f64> {
    match (member.heartbeats_intervals_mean, member.hearbeats_interval_std_dev) {
        (Some(mean), Some(std_dev)) => {
            let x = now.saturating_sub(member.last_heartbeat_received_at) as f64 / SECOND as f64;
            let mean = mean as f64 / SECOND as f64;
            let std_dev = std_dev as f64 / SECOND as f64;
            let cdf_at_x = 0.5 * (mean - x) / (std_dev * std::f64::consts::SQRT_2);
            Some(1.0 - cdf_at_x.log10())
        }
        _ => None,
    }
}

fn is_live(cluster: &Cluster, node_id: NodeId, now: u64) -> bool {
    cluster
        .failure_detector
        .members()
        .get(&node_id)
        .and_then(|member| phi(member, now))
        .map(|phi| phi < PHI_THRESHOLD)
        .unwrap_or(false)
}

fn has_converged(cluster: &Cluster, now: u64) -> bool {
    let members = cluster.failure_detector.members();
    let mut live = NodeSet::new();
    for at in 0..members.len() {
        if is_live(cluster, members.key_at(at), now) {
            live.insert(members.key_at(at));
        }
    }
    cluster.has_converged(&live)
}

/// One gossip round of node `from`: it increments its heartbeat and
/// exchanges views with each of its destinations, of which the members to
/// sample are its first.
fn tick(nodes: &mut Vec<Cluster>, from: usize, now: u64) {
    nodes[from].increment_own_heartbeat();
    let unknown = nodes[from].unknown_peers_to_contact().len();
    let candidates = nodes[from].members_to_sample().len();
    let sample: Vec<usize> = (0..candidates.min(3 - unknown)).collect();
    for destination in nodes[from].gossip_destinations_with(&sample) {
        let to = nodes.iter().position(|node| node.this_advertised_url == destination.destination_url);
        if let Some(to) = to {
            let reply = handle_incoming_cluster_view(&mut nodes[to], destination.cluster_view, true, now);
            handle_incoming_cluster_view(&mut nodes[from], reply.unwrap(), false, now);
        }
    }
}

/// Rounds of gossip among `ticking`, until every one of them has converged.
/// Returns the number of rounds it took, `limit` at most.
fn gossip_until_converged(nodes: &mut Vec<Cluster>, ticking: &[usize], clock: &mut u64, limit: usize) -> usize {
    for round in 1..=limit {
        *clock += GOSSIP_INTERVAL;
        for (turn, from) in ticking.iter().enumerate() {
            tick(nodes, *from, *clock + turn as u64);
        }
        let now = *clock + ticking.len() as u64;
        if ticking.iter().all(|node| has_converged(&nodes[*node], now)) {
            return round;
        }
    }
    limit + 1
}

fn keys(cluster: &Cluster) -> Vec<NodeId> {
    cluster.cluster_view.known_members.key_set().to_vec()
}

#[test]
fn two_node_bootstrap() {
    let mut nodes = vec![start(0, &[1]), start(1, &[0])];
    let mut clock = 0;
    let rounds = gossip_until_converged(&mut nodes, &[0, 1], &mut clock, 3);
    assert!(rounds <= 3, "not converged after three ticks");
    let mut both = vec![id(0), id(1)];
    both.sort();
    for node in &nodes {
        assert!(node.unknwon_peer_nodes.is_empty());
        assert_eq!(keys(node), both);
        assert!(has_converged(node, clock + 2));
    }
}

#[test]
fn five_node_ring_convergence() {
    let mut nodes: Vec<Cluster> = (0..5).map(|n| start(n, &[(n + 4) % 5, (n + 1) % 5])).collect();
    let mut clock = 0;
    let rounds = gossip_until_converged(&mut nodes, &[0, 1, 2, 3, 4], &mut clock, 10);
    assert!(rounds <= 10, "not converged after ten ticks");
    for node in &nodes {
        assert_eq!(node.cluster_view.known_members.len(), 5);
        assert!(has_converged(node, clock + 5));
    }
}

#[test]
fn partition_heals() {
    let mut nodes = vec![start(0, &[1]), start(1, &[0]), start(2, &[3]), start(3, &[2])];
    let mut clock = 0;
    assert!(gossip_until_converged(&mut nodes, &[0, 1], &mut clock, 3) <= 3);
    let mut other_clock = 0;
    assert!(gossip_until_converged(&mut nodes, &[2, 3], &mut other_clock, 3) <= 3);
    assert_eq!(keys(&nodes[0]).len(), 2);
    assert_eq!(keys(&nodes[2]).len(), 2);

    nodes[0].unknwon_peer_nodes.insert(url(2));
    let mut clock = clock.max(other_clock);
    for _ in 0..10 {
        clock += GOSSIP_INTERVAL;
        for from in 0..4 {
            tick(&mut nodes, from, clock + from as u64);
        }
    }
    let mut all = vec![id(0), id(1), id(2), id(3)];
    all.sort();
    for node in &nodes {
        assert_eq!(keys(node), all);
    }
}

#[test]
fn conflict_at_equal_version() {
    let mut nodes = vec![start(0, &[1]), start(1, &[0])];
    let mut clock = 0;
    assert!(gossip_until_converged(&mut nodes, &[0, 1], &mut clock, 3) <= 3);

    let x = NodeId { unique_id: 42, generation: 7 };
    let view_of_x = |node_status| MemberView {
        id: x,
        advertised_addr: "http://x/".to_string(),
        state: Some(MemberViewState { node_status, version: 5, heartbeat: 0, observed_by: NodeSet::new() }),
    };
    let (first, second) = (nodes[0].this_node_id, nodes[1].this_node_id);
    nodes[0].cluster_view.merge_member_view(first, view_of_x(NodeStatus::Joining));
    nodes[1].cluster_view.merge_member_view(second, view_of_x(NodeStatus::Up));

    clock += GOSSIP_INTERVAL;
    tick(&mut nodes, 0, clock);
    for node in &nodes {
        let state = node.cluster_view.known_members.get(&x).unwrap().state.as_ref().unwrap();
        assert_eq!(state.version, 6);
        assert_eq!(state.node_status, NodeStatus::Up);
        assert_eq!(node.cluster_view.version_vector.get(&x), Some(6));
    }
}

#[test]
fn peer_failure() {
    let mut nodes = vec![start(0, &[1, 2]), start(1, &[0, 2]), start(2, &[0, 1])];
    let mut clock = 0;
    assert!(gossip_until_converged(&mut nodes, &[0, 1, 2], &mut clock, 10) <= 10);
    let failed = nodes[2].this_node_id;
    assert!(is_live(&nodes[0], failed, clock + 3));
    assert!(is_live(&nodes[1], failed, clock + 3));

    // Node 2 stops ticking.
    let stopped_at = clock;
    while clock < stopped_at + 8 * GOSSIP_INTERVAL {
        clock += GOSSIP_INTERVAL;
        tick(&mut nodes, 0, clock);
        tick(&mut nodes, 1, clock + 1);
    }
    for node in &nodes[..2] {
        assert!(!is_live(node, failed, clock + 2));
        assert!(!has_converged(node, clock + 2));
    }
    assert!(is_live(&nodes[0], nodes[1].this_node_id, clock + 2));
    assert!(is_live(&nodes[1], nodes[0].this_node_id, clock + 2));
}

#[test]
fn liveness_follows_the_heartbeats() {
    let mut node = start(0, &[1]);
    let peer = id(1);
    let mut clock = 0;
    for heartbeat in 0..=20 {
        clock = heartbeat * GOSSIP_INTERVAL;
        node.failure_detector.record_heartbeat(peer, heartbeat, clock);
    }
    let member = node.failure_detector.members().get(&peer).unwrap();
    // Equally spaced heartbeats: the mean is the interval, and there is no
    // deviation.
    assert_eq!(member.heartbeats_intervals_mean, Some(GOSSIP_INTERVAL));
    assert_eq!(member.hearbeats_interval_std_dev, Some(0));
    // Live right after a heartbeat, and no more after a long gap.
    assert!(is_live(&node, peer, clock));
    assert!(!is_live(&node, peer, clock + 6 * GOSSIP_INTERVAL));
}

#[test]
fn suspicion_grows_with_the_time_since_the_last_heartbeat() {
    let mut member = FailureDetectorMember::new(0, 0);
    let mut clock = 0;
    for heartbeat in 1..=20 {
        // Heartbeats that come a little early and a little late in turn.
        clock += GOSSIP_INTERVAL + (heartbeat % 2) * SECOND / 5;
        member.record_heartbeat(heartbeat, clock);
    }
    let mean = member.heartbeats_intervals_mean.unwrap();
    assert!(mean >= GOSSIP_INTERVAL && mean <= GOSSIP_INTERVAL + SECOND / 5);
    assert_eq!(member.hearbeats_interval_std_dev, Some(SECOND / 10));
    let mut last = phi(&member, clock).unwrap();
    for step in 1..10 {
        let next = phi(&member, clock + step * GOSSIP_INTERVAL / 10).unwrap();
        assert!(last < next);
        last = next;
    }
}
