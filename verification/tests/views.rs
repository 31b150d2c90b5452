use council::cluster::views::{ClusterView, MemberView, MemberViewState};
use council::node::{NodeId, NodeStatus};
use council::node_set::NodeSet;

fn node(n: u64) -> NodeId {
    NodeId { unique_id: n, generation: 1 }
}

fn observers(ids: &[u64]) -> NodeSet {
    let mut set = NodeSet::new();
    for id in ids {
        set.insert(node(*id));
    }
    set
}

fn state(node_status: NodeStatus, version: u16, heartbeat: u64, observed_by: &[u64]) -> MemberViewState {
    MemberViewState { node_status, version, heartbeat, observed_by: observers(observed_by) }
}

fn member(id: NodeId, state: Option<MemberViewState>) -> MemberView {
    MemberView { id, advertised_addr: "test:8080".to_string(), state }
}

fn merged(a: &MemberView, b: &MemberView) -> MemberView {
    let mut merged = a.clone();
    merged.merge(b.clone());
    merged
}

fn cluster_merged(view: &ClusterView, this_node_id: NodeId, members: &[&MemberView]) -> ClusterView {
    let mut merged = view.clone();
    for member in members {
        merged.merge_member_view(this_node_id, (*member).clone());
    }
    merged
}

#[test]
fn initial_view_of_this_node() {
    let view = MemberView::this_node_initial_view(node(1), "http://a/".to_string());
    assert_eq!(view.id, node(1));
    assert_eq!(view.advertised_addr, "http://a/");
    assert_eq!(view.state, Some(state(NodeStatus::Joining, 1, 0, &[1])));
}

#[test]
fn member_merge_higher_generation_replaces_the_view() {
    let old = member(NodeId { unique_id: 7, generation: 1 }, Some(state(NodeStatus::Down, 9, 50, &[1, 2])));
    let new = MemberView {
        id: NodeId { unique_id: 7, generation: 2 },
        advertised_addr: "other:1".to_string(),
        state: Some(state(NodeStatus::Joining, 1, 0, &[3])),
    };
    assert_eq!(merged(&old, &new), new);
}

#[test]
fn member_merge_lower_generation_is_discarded() {
    let old = member(NodeId { unique_id: 7, generation: 1 }, Some(state(NodeStatus::Down, 9, 50, &[1, 2])));
    let new = member(NodeId { unique_id: 7, generation: 2 }, None);
    assert_eq!(merged(&new, &old), new);
}

#[test]
fn member_merge_adopts_a_state_when_it_has_none() {
    let bare = member(node(1), None);
    let full = member(node(1), Some(state(NodeStatus::Up, 3, 4, &[2])));
    assert_eq!(merged(&bare, &full), full);
    assert_eq!(merged(&full, &bare), full);
    assert_eq!(merged(&bare, &bare), bare);
}

#[test]
fn member_merge_higher_version_wins() {
    let a = member(node(1), Some(state(NodeStatus::Up, 2, 30, &[1])));
    let b = member(node(1), Some(state(NodeStatus::Joining, 3, 10, &[2, 3])));
    let expected = member(node(1), Some(state(NodeStatus::Joining, 3, 30, &[2, 3])));
    assert_eq!(merged(&a, &b), expected);
    assert_eq!(merged(&b, &a), expected);
}

#[test]
fn member_merge_lower_version_only_brings_its_heartbeat() {
    let a = member(node(1), Some(state(NodeStatus::Up, 5, 10, &[1])));
    let b = member(node(1), Some(state(NodeStatus::Down, 4, 99, &[2])));
    assert_eq!(merged(&a, &b), member(node(1), Some(state(NodeStatus::Up, 5, 99, &[1]))));
}

#[test]
fn member_merge_conflict_at_equal_version_bumps_the_version() {
    let a = member(node(1), Some(state(NodeStatus::Joining, 4, 10, &[1])));
    let b = member(node(1), Some(state(NodeStatus::Up, 4, 20, &[2])));
    assert_eq!(merged(&a, &b), member(node(1), Some(state(NodeStatus::Up, 5, 20, &[1]))));
    assert_eq!(merged(&b, &a), member(node(1), Some(state(NodeStatus::Up, 5, 20, &[2]))));
}

#[test]
fn member_merge_conflict_is_settled_by_priority() {
    let statuses =
        [NodeStatus::Joining, NodeStatus::Up, NodeStatus::Leaving, NodeStatus::Exiting, NodeStatus::Down];
    for (i, low) in statuses.iter().enumerate() {
        for high in &statuses[i + 1..] {
            let a = member(node(1), Some(state(*low, 1, 0, &[])));
            let b = member(node(1), Some(state(*high, 1, 0, &[])));
            assert_eq!(merged(&a, &b).state.unwrap().node_status, *high);
            assert_eq!(merged(&b, &a).state.unwrap().node_status, *high);
        }
    }
}

#[test]
fn member_merge_same_version_and_status_joins_the_observers() {
    let a = member(node(1), Some(state(NodeStatus::Up, 4, 10, &[1, 2])));
    let b = member(node(1), Some(state(NodeStatus::Up, 4, 20, &[2, 3])));
    let expected = member(node(1), Some(state(NodeStatus::Up, 4, 20, &[1, 2, 3])));
    assert_eq!(merged(&a, &b), expected);
    assert_eq!(merged(&b, &a), expected);
}

#[test]
fn member_view_merge_is_idempotent() {
    let views = sample_views();
    for a in &views {
        for b in &views {
            let once = merged(a, b);
            assert_eq!(merged(&once, b), once, "{:?} {:?}", a, b);
        }
    }
}

#[test]
fn member_view_merge_is_commutative() {
    let views = sample_views();
    for a in &views {
        for b in &views {
            let conflict = match (&a.state, &b.state) {
                (Some(x), Some(y)) => x.version == y.version && x.node_status != y.node_status,
                _ => false,
            };
            let commutes = a.id.generation != b.id.generation || !conflict
                || a.state.as_ref().unwrap().observed_by == b.state.as_ref().unwrap().observed_by;
            assert_eq!(merged(a, b) == merged(b, a), commutes, "{:?} {:?}", a, b);
        }
    }
}

#[test]
fn member_view_merge_is_associative() {
    let views = sample_views();
    for a in &views {
        for b in &views {
            for c in &views {
                let conflict = |x: &MemberView, y: &MemberView| match (&x.state, &y.state) {
                    (Some(s), Some(t)) => s.version == t.version && s.node_status != t.node_status,
                    _ => false,
                };
                let one_generation = a.id.generation == b.id.generation && b.id.generation == c.id.generation;
                if !one_generation || !(conflict(a, b) || conflict(b, c) || conflict(a, c)) {
                    assert_eq!(merged(&merged(a, b), c), merged(a, &merged(b, c)), "{:?} {:?} {:?}", a, b, c);
                }
            }
        }
    }
}

fn conflict(x: &MemberViewState, y: &MemberViewState) -> bool {
    x.version == y.version && x.node_status != y.node_status
}

fn subset(x: &NodeSet, y: &NodeSet) -> bool {
    x.to_vec().iter().all(|id| y.contains(id))
}

fn state_merged(x: &MemberViewState, y: &MemberViewState) -> MemberViewState {
    let mut merged = x.clone();
    merged.merge(y.clone());
    merged
}

fn seen(x: &MemberViewState, observer: NodeId) -> MemberViewState {
    let mut seen = x.clone();
    seen.observed_by.insert(observer);
    seen
}

fn states_associate(a: &MemberViewState, b: &MemberViewState, c: &MemberViewState) -> bool {
    let ab = state_merged(a, b);
    let bc = state_merged(b, c);
    if conflict(a, b) && conflict(b, c) {
        ab.node_status == bc.node_status && a.observed_by == b.observed_by
    } else if conflict(a, b) {
        c.version != ab.version || (c.node_status == ab.node_status && subset(&a.observed_by, &c.observed_by))
    } else if conflict(b, c) {
        if a.version == bc.version {
            a.node_status == bc.node_status && subset(&b.observed_by, &a.observed_by)
        } else {
            a.version != b.version || subset(&a.observed_by, &b.observed_by)
        }
    } else {
        conflict(&ab, c) == conflict(a, &bc)
    }
}

#[test]
fn member_view_merge_is_associative_exactly_when_the_views_associate() {
    let views = sample_views();
    for a in &views {
        for b in &views {
            for c in &views {
                let one_generation = a.id.generation == b.id.generation && b.id.generation == c.id.generation;
                let associate = match (&a.state, &b.state, &c.state) {
                    (Some(x), Some(y), Some(z)) if one_generation => states_associate(x, y, z),
                    _ => true,
                };
                assert_eq!(
                    merged(&merged(a, b), c) == merged(a, &merged(b, c)),
                    associate,
                    "{:?} {:?} {:?}",
                    a,
                    b,
                    c
                );
            }
        }
    }
}

fn settles_before(
    r: &MemberViewState,
    observer: NodeId,
    settled: &MemberViewState,
    other: &MemberViewState,
) -> bool {
    if other.version == settled.version {
        other.node_status == settled.node_status && subset(&r.observed_by, &seen(other, observer).observed_by)
    } else {
        other.version != r.version || subset(&other.observed_by, &settled.observed_by)
    }
}

fn state_takes_in_either_order(
    r: &MemberViewState,
    observer: NodeId,
    a: &MemberViewState,
    b: &MemberViewState,
) -> bool {
    let with_a = seen(&state_merged(r, a), observer);
    let with_b = seen(&state_merged(r, b), observer);
    if conflict(r, a) && conflict(r, b) {
        with_a.node_status == with_b.node_status
    } else if conflict(r, a) {
        settles_before(r, observer, &with_a, b)
    } else if conflict(r, b) {
        settles_before(r, observer, &with_b, a)
    } else {
        conflict(&with_a, b) == conflict(&with_b, a)
            && (!conflict(&with_a, b) || seen(a, observer).observed_by == seen(b, observer).observed_by)
    }
}

#[test]
fn cluster_view_merge_is_commutative_exactly_when_it_takes_in_either_order() {
    let me = node(3);
    let views: Vec<MemberView> = sample_views().into_iter().filter(|view| view.id.generation == 1).collect();
    let mut residents: Vec<Option<&MemberView>> = vec![None];
    residents.extend(views.iter().step_by(5).map(Some));
    for resident in residents {
        let mut view = ClusterView::initial(me, "http://me/".to_string());
        if let Some(resident) = resident {
            view.known_members.insert(resident.id, resident.clone());
        }
        for a in &views {
            for b in &views {
                let unseen = match (&a.state, &b.state) {
                    (Some(x), Some(y)) => !conflict(x, y) || seen(x, me).observed_by == seen(y, me).observed_by,
                    _ => true,
                };
                let expected = match (resident.and_then(|r| r.state.as_ref()), &a.state, &b.state) {
                    (Some(r), Some(x), Some(y)) => state_takes_in_either_order(r, me, x, y),
                    _ => unseen,
                };
                assert_eq!(
                    cluster_merged(&view, me, &[a, b]) == cluster_merged(&view, me, &[b, a]),
                    expected,
                    "{:?} {:?} {:?}",
                    resident,
                    a,
                    b
                );
            }
        }
    }
}

#[test]
fn member_view_merge_is_not_associative_across_a_conflict() {
    let a = member(node(1), Some(state(NodeStatus::Joining, 1, 0, &[])));
    let b = member(node(1), Some(state(NodeStatus::Up, 1, 0, &[])));
    let c = member(node(1), Some(state(NodeStatus::Joining, 2, 0, &[])));
    assert_eq!(merged(&merged(&a, &b), &c), member(node(1), Some(state(NodeStatus::Up, 3, 0, &[]))));
    assert_eq!(merged(&a, &merged(&b, &c)), member(node(1), Some(state(NodeStatus::Joining, 2, 0, &[]))));
}

fn sample_views() -> Vec<MemberView> {
    let mut views = vec![member(node(1), None), member(NodeId { unique_id: 1, generation: 2 }, None)];
    for generation in [1, 2] {
        for version in [1, 2, 3] {
            for status in [NodeStatus::Joining, NodeStatus::Up, NodeStatus::Down] {
                for (heartbeat, observed_by) in [(0, vec![]), (5, vec![2]), (9, vec![2, 3])] {
                    views.push(member(
                        NodeId { unique_id: 1, generation },
                        Some(state(status, version, heartbeat, &observed_by)),
                    ));
                }
            }
        }
    }
    views
}

#[test]
fn mark_seen_by_adds_the_observer() {
    let mut view = member(node(1), Some(state(NodeStatus::Up, 4, 10, &[2])));
    assert_eq!(view.mark_seen_by(node(9)), Some((10, 4)));
    assert_eq!(view, member(node(1), Some(state(NodeStatus::Up, 4, 10, &[2, 9]))));
    let mut bare = member(node(1), None);
    assert_eq!(bare.mark_seen_by(node(9)), None);
    assert_eq!(bare, member(node(1), None));
}

#[test]
fn initial_cluster_view_knows_this_node_alone() {
    let view = ClusterView::initial(node(1), "http://a/".to_string());
    assert_eq!(view.known_members.len(), 1);
    assert_eq!(
        view.known_members.get(&node(1)),
        Some(&MemberView::this_node_initial_view(node(1), "http://a/".to_string()))
    );
    assert_eq!(view.version_vector.get(&node(1)), Some(1));
    assert_eq!(view.heartbeats.get(&node(1)), Some(&0));
}

#[test]
fn cluster_view_merge_inserts_an_unknown_member() {
    let mut view = ClusterView::initial(node(1), "http://a/".to_string());
    view.merge_member_view(node(1), member(node(2), Some(state(NodeStatus::Up, 3, 7, &[2]))));
    assert_eq!(
        view.known_members.get(&node(2)),
        Some(&member(node(2), Some(state(NodeStatus::Up, 3, 7, &[1, 2]))))
    );
    assert_eq!(view.version_vector.get(&node(2)), Some(3));
    assert_eq!(view.heartbeats.get(&node(2)), Some(&7));
}

#[test]
fn cluster_view_merge_of_a_member_without_state_projects_nothing() {
    let mut view = ClusterView::initial(node(1), "http://a/".to_string());
    view.merge_member_view(node(1), member(node(2), None));
    assert_eq!(view.known_members.get(&node(2)), Some(&member(node(2), None)));
    assert_eq!(view.version_vector.get(&node(2)), None);
    assert_eq!(view.heartbeats.get(&node(2)), None);
}

#[test]
fn cluster_view_merge_merges_into_the_resident_member() {
    let mut view = ClusterView::initial(node(1), "http://a/".to_string());
    view.merge_member_view(node(1), member(node(2), Some(state(NodeStatus::Joining, 3, 7, &[2]))));
    view.merge_member_view(node(1), member(node(2), Some(state(NodeStatus::Up, 3, 9, &[2, 5]))));
    assert_eq!(
        view.known_members.get(&node(2)),
        Some(&member(node(2), Some(state(NodeStatus::Up, 4, 9, &[1, 2]))))
    );
    assert_eq!(view.version_vector.get(&node(2)), Some(4));
    assert_eq!(view.heartbeats.get(&node(2)), Some(&9));
}

#[test]
fn cluster_view_keeps_generations_apart() {
    let mut view = ClusterView::initial(node(1), "http://a/".to_string());
    let first = member(NodeId { unique_id: 2, generation: 1 }, Some(state(NodeStatus::Up, 3, 7, &[])));
    let second = member(NodeId { unique_id: 2, generation: 2 }, Some(state(NodeStatus::Joining, 1, 0, &[])));
    view.merge_member_view(node(1), first);
    view.merge_member_view(node(1), second);
    assert_eq!(view.known_members.len(), 3);
}

#[test]
fn cluster_view_merge_is_commutative() {
    let view = ClusterView::initial(node(1), "http://a/".to_string());
    let a = member(node(2), Some(state(NodeStatus::Up, 3, 7, &[2])));
    let b = member(node(3), Some(state(NodeStatus::Joining, 1, 2, &[3])));
    let c = member(node(2), Some(state(NodeStatus::Up, 4, 6, &[4])));
    let d = member(node(2), Some(state(NodeStatus::Up, 3, 8, &[5])));
    for (x, y) in [(&a, &b), (&a, &c), (&a, &d), (&c, &d), (&b, &c)] {
        assert_eq!(cluster_merged(&view, node(1), &[x, y]), cluster_merged(&view, node(1), &[y, x]));
    }
}

#[test]
fn cluster_view_merge_is_not_commutative_across_a_conflict() {
    let mut view = ClusterView::initial(node(1), "http://a/".to_string());
    view.merge_member_view(node(1), member(node(2), Some(state(NodeStatus::Joining, 1, 0, &[]))));
    let a = member(node(2), Some(state(NodeStatus::Up, 1, 0, &[])));
    let b = member(node(2), Some(state(NodeStatus::Joining, 1, 0, &[7])));
    let a_then_b = cluster_merged(&view, node(1), &[&a, &b]);
    let b_then_a = cluster_merged(&view, node(1), &[&b, &a]);
    assert_eq!(
        a_then_b.known_members.get(&node(2)),
        Some(&member(node(2), Some(state(NodeStatus::Up, 2, 0, &[1]))))
    );
    assert_eq!(
        b_then_a.known_members.get(&node(2)),
        Some(&member(node(2), Some(state(NodeStatus::Up, 2, 0, &[1, 7]))))
    );
}

#[test]
fn cluster_view_merge_is_idempotent() {
    let view = ClusterView::initial(node(1), "http://a/".to_string());
    let a = member(node(2), Some(state(NodeStatus::Up, 3, 7, &[2])));
    let b = member(node(1), Some(state(NodeStatus::Up, 1, 7, &[2])));
    let c = member(node(3), None);
    for x in [&a, &b, &c] {
        assert_eq!(cluster_merged(&view, node(1), &[x, x]), cluster_merged(&view, node(1), &[x]));
    }
}

#[test]
fn cluster_view_from_members_lets_the_last_view_of_a_node_win() {
    let view = ClusterView::from_members(vec![
        member(node(2), Some(state(NodeStatus::Up, 3, 7, &[2]))),
        member(node(3), None),
        member(node(2), Some(state(NodeStatus::Joining, 1, 5, &[]))),
    ]);
    assert_eq!(view.known_members.len(), 2);
    assert_eq!(
        view.known_members.get(&node(2)),
        Some(&member(node(2), Some(state(NodeStatus::Joining, 1, 5, &[]))))
    );
    assert_eq!(view.version_vector.get(&node(2)), Some(1));
    assert_eq!(view.heartbeats.get(&node(2)), Some(&5));
    assert_eq!(view.version_vector.get(&node(3)), Some(0));
    assert_eq!(view.heartbeats.get(&node(3)), Some(&0));
}
