use hadrond::cpc::{LeadershipAction, CPC};
use hadrond::discovery::{ObservedSet, PeerSrv};
use hadrond::load_order::sort_load_entries;
use hadrond::placement::{Assignment, CPCEvent, ClusterNodes, NodeAssignments, PipelineReplica, StreamReplica};

#[test]
fn stream_replica_new_is_unassigned() {
    let r = StreamReplica::new(7, "ns", "orders", 2, 1);
    assert_eq!(r.id, 7);
    assert_eq!(r.namespace, "ns");
    assert_eq!(r.name, "orders");
    assert_eq!(r.partition, 2);
    assert_eq!(r.replica, 1);
    assert_eq!(r.current_node, None);
    assert_eq!(r.aspired_node, None);
}

#[test]
fn pipeline_replica_new_is_unassigned() {
    let r = PipelineReplica::new(9, "ns", "etl", 0);
    assert_eq!(r.id, 9);
    assert_eq!(r.name, "etl");
    assert_eq!(r.current_node, None);
    assert_eq!(r.aspired_node, None);
}

#[test]
fn node_assignments_new_is_empty() {
    let a = NodeAssignments::new(3);
    assert_eq!(a.id, 3);
    assert_eq!(a.total_assignments, 0);
    assert_eq!(a.pending_assignments, 0);
    assert!(a.stream_replicas.is_empty());
    assert!(a.pipeline_replicas.is_empty());
}

#[test]
fn cluster_nodes_new_knows_each_member_once() {
    let nodes = ClusterNodes::new(1, &[1, 2, 2, 3]);
    assert_eq!(nodes.nodes.len(), 3);
    assert_eq!(nodes.load_order(), &vec![(1, 0), (2, 0), (3, 0)]);
    assert!(nodes.contains_node(2));
    assert!(!nodes.contains_node(4));
}

#[test]
fn assignment_spreads_partition_replicas_over_nodes() {
    let mut nodes = ClusterNodes::new(1, &[1, 2, 3]);
    let first = nodes.assign_stream_replica(StreamReplica::new(10, "ns", "s", 0, 0));
    assert_eq!(first, Some(1));
    let second = nodes.assign_stream_replica(StreamReplica::new(11, "ns", "s", 0, 1));
    assert_eq!(second, Some(2));
    let third = nodes.assign_stream_replica(StreamReplica::new(12, "ns", "s", 0, 2));
    assert_eq!(third, Some(3));
    // Every node holds a replica of partition 0: a fourth replica of it has nowhere to go.
    let fourth = nodes.assign_stream_replica(StreamReplica::new(13, "ns", "s", 0, 3));
    assert_eq!(fourth, None);
    // Equal loads keep their order: the node placed last stays first among them.
    assert_eq!(nodes.load_order(), &vec![(3, 1), (2, 1), (1, 1)]);
    // A replica of another partition goes to the first of the lightest nodes.
    let other = nodes.assign_stream_replica(StreamReplica::new(14, "ns", "s", 1, 0));
    assert_eq!(other, Some(3));
    assert_eq!(nodes.load_order(), &vec![(2, 1), (1, 1), (3, 2)]);
}

#[test]
fn recording_a_replica_on_this_node_schedules_it() {
    let mut nodes = ClusterNodes::new(1, &[1, 2]);
    let mut r = StreamReplica::new(10, "ns", "s", 0, 0);
    r.current_node = Some(1);
    match nodes.record_stream_replica(r) {
        Some(CPCEvent::StreamReplicaScheduled(rep)) => assert_eq!(rep.id, 10),
        _ => panic!("expected the replica to be scheduled"),
    }
    let mut r = StreamReplica::new(11, "ns", "s", 1, 0);
    r.current_node = Some(2);
    assert!(nodes.record_stream_replica(r).is_none());
    assert_eq!(nodes.load_order(), &vec![(2, 1), (1, 1)]);
}

#[test]
fn update_assignment_to_this_node_schedules_it() {
    let mut nodes = ClusterNodes::new(1, &[1, 2]);
    let r = StreamReplica::new(10, "ns", "s", 0, 0);
    let ev = nodes.update_stream_replica_assignment(Assignment::InitialPlacement { node: 1 }, r);
    assert!(matches!(ev, Some(CPCEvent::StreamReplicaScheduled(_))));
    let r = StreamReplica::new(11, "ns", "s", 0, 1);
    let ev = nodes.update_stream_replica_assignment(Assignment::InitialPlacement { node: 2 }, r);
    assert!(ev.is_none());
}

#[test]
fn clear_forgets_all_nodes() {
    let mut nodes = ClusterNodes::new(1, &[1, 2]);
    nodes.clear();
    assert!(nodes.nodes.is_empty());
    assert!(nodes.load_order().is_empty());
}

#[test]
fn update_nodes_adds_new_members_only() {
    let mut nodes = ClusterNodes::new(1, &[1]);
    let _ = nodes.assign_stream_replica(StreamReplica::new(10, "ns", "s", 0, 0));
    nodes.update_nodes(&[1, 2]);
    assert_eq!(nodes.load_order(), &vec![(2, 0), (1, 1)]);
}

#[test]
fn sort_load_order_is_stable() {
    let sorted = sort_load_entries(&vec![(5, 2), (3, 1), (4, 2), (1, 1)]);
    assert_eq!(sorted, vec![(3, 1), (1, 1), (5, 2), (4, 2)]);
}

#[test]
fn cpc_takes_leadership_only_through_initial_task() {
    let mut cpc = CPC::new(1, &[1, 2]);
    assert_eq!(cpc.handle_crc_raft_update(true), LeadershipAction::QueueInitialTask);
    assert!(!cpc.is_leader);
    assert_eq!(cpc.handle_crc_raft_update(false), LeadershipAction::Nothing);
}

fn peer(port: u16, fqdn: &str) -> PeerSrv {
    PeerSrv { port, fqdn: String::from(fqdn) }
}

#[test]
fn discovery_cycle_reports_new_and_purged_peers() {
    let mut set = ObservedSet::new();
    let cs = set.update_from_discovery_cycle(vec![peer(7000, "a"), peer(7000, "b")]).unwrap();
    assert_eq!(cs.new_peers.len(), 2);
    assert!(cs.purged_peers.is_empty());
    assert!(set.update_from_discovery_cycle(vec![peer(7000, "b"), peer(7000, "a")]).is_none());
    let cs = set.update_from_discovery_cycle(vec![peer(7000, "b"), peer(7001, "c")]).unwrap();
    assert_eq!(cs.new_peers.len(), 1);
    assert_eq!(cs.new_peers[0].fqdn, "c");
    assert_eq!(cs.purged_peers.len(), 1);
    assert_eq!(cs.purged_peers[0].fqdn, "a");
    assert_eq!(set.0.len(), 2);
}
