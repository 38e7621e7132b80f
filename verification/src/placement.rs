//! Placement of stream and pipeline replicas onto the nodes of the cluster.
//!
//! `ClusterNodes` tracks every known node along with the replicas assigned to it, and keeps a
//! load order: every node paired with its load (its recorded plus its pending assignments),
//! sorted lightest first, ties kept in the order in which they arose.

use std::collections::HashMap;
use vstd::prelude::*;

use crate::load_order::{LoadEntry, sort_by_load, sort_load_entries, sorted_by_load, lemma_sort_by_load};

verus! {

broadcast use vstd::std_specs::hash::group_hash_axioms;

/// The ID of a node of the cluster.
pub type NodeId = u64;

//////////////////////////////////////////////////////////////////////////////////////////////////
// Replica models ////////////////////////////////////////////////////////////////////////////////

/// A stream partition replica.
///
/// Each replica is uniquely identified via the compound key (namespace, stream, partition, replica).
#[derive(Clone, Debug)]
pub struct StreamReplica {
    /// The unique ID of this object.
    pub id: u64,
    /// The namespace of the stream to which this replica belongs.
    pub namespace: String,
    /// The name of the stream to which this replica belongs.
    pub name: String,
    /// The partition to which this replica belongs.
    pub partition: u32,
    /// The offset of this replica.
    pub replica: u8,
    /// The ID of the node on which this replica currently resides.
    pub current_node: Option<NodeId>,
    /// The ID of the node to which this replica needs to be moved.
    pub aspired_node: Option<NodeId>,
}

impl StreamReplica {
    /// Create a new instance, not yet placed on any node.
    pub fn new(id: u64, namespace: &str, name: &str, partition: u32, replica: u8) -> (r: Self)
        ensures
            r.id == id,
            r.namespace@ == namespace@,
            r.name@ == name@,
            r.partition == partition,
            r.replica == replica,
            r.current_node is None,
            r.aspired_node is None,
    {
        StreamReplica {
            id,
            namespace: namespace.to_owned(),
            name: name.to_owned(),
            partition,
            replica,
            current_node: None,
            aspired_node: None,
        }
    }

    /// A copy of this replica.
    pub fn copy(&self) -> (r: Self)
        ensures
            r == *self,
    {
        StreamReplica {
            id: self.id,
            namespace: self.namespace.clone(),
            name: self.name.clone(),
            partition: self.partition,
            replica: self.replica,
            current_node: self.current_node,
            aspired_node: self.aspired_node,
        }
    }

    /// Whether two replicas belong to the same stream partition.
    pub open spec fn same_partition(&self, other: &StreamReplica) -> bool {
        self.namespace@ == other.namespace@ && self.name@ == other.name@ && self.partition == other.partition
    }
}

/// A pipeline replica.
///
/// Each replica is uniquely identified via the compound key (namespace, pipeline, replica).
#[derive(Clone, Debug)]
pub struct PipelineReplica {
    /// The unique ID of this object.
    pub id: u64,
    /// The namespace of the pipeline to which this replica belongs.
    pub namespace: String,
    /// The name of the pipeline to which this replica belongs.
    pub name: String,
    /// The offset of this replica.
    pub replica: u8,
    /// The ID of the node on which this replica currently resides.
    pub current_node: Option<NodeId>,
    /// The ID of the node to which this replica needs to be moved.
    pub aspired_node: Option<NodeId>,
}

impl PipelineReplica {
    /// Create a new instance, not yet placed on any node.
    pub fn new(id: u64, namespace: &str, name: &str, replica: u8) -> (r: Self)
        ensures
            r.id == id,
            r.namespace@ == namespace@,
            r.name@ == name@,
            r.replica == replica,
            r.current_node is None,
            r.aspired_node is None,
    {
        PipelineReplica {
            id,
            namespace: namespace.to_owned(),
            name: name.to_owned(),
            replica,
            current_node: None,
            aspired_node: None,
        }
    }

    /// A copy of this replica.
    pub fn copy(&self) -> (r: Self)
        ensures
            r == *self,
    {
        PipelineReplica {
            id: self.id,
            namespace: self.namespace.clone(),
            name: self.name.clone(),
            replica: self.replica,
            current_node: self.current_node,
            aspired_node: self.aspired_node,
        }
    }
}

/// A change to the node assignment of a replica.
#[derive(Clone, Copy, Debug, PartialEq, Eq, Structural)]
pub enum Assignment {
    /// The replica was in a pristine state and has now been assigned to a node.
    InitialPlacement { node: NodeId },
}

/// Events produced from the placement controller.
#[derive(Debug)]
pub enum CPCEvent {
    /// A stream replica has been scheduled on this node.
    StreamReplicaScheduled(StreamReplica),
    /// A pipeline replica has been scheduled on this node.
    PipelineReplicaScheduled(PipelineReplica),
}

//////////////////////////////////////////////////////////////////////////////////////////////////
// Node assignments //////////////////////////////////////////////////////////////////////////////

/// Details on all assignments for a specific node of the cluster.
#[derive(Debug)]
pub struct NodeAssignments {
    /// The ID of the corresponding node.
    pub id: NodeId,
    /// The total number of assignments on this node.
    pub total_assignments: u64,
    /// The total number of pending assignments being made.
    pub pending_assignments: u64,
    /// All stream replicas which are currently assigned to this node.
    pub stream_replicas: HashMap<u64, StreamReplica>,
    /// All pipeline replicas which are currently assigned to this node.
    pub pipeline_replicas: HashMap<u64, PipelineReplica>,
}

/// The mathematical form of a node's assignments.
pub struct NodeAssignmentsView {
    pub id: NodeId,
    pub total_assignments: u64,
    pub pending_assignments: u64,
    pub stream_replicas: Map<u64, StreamReplica>,
    pub pipeline_replicas: Map<u64, PipelineReplica>,
}

impl View for NodeAssignments {
    type V = NodeAssignmentsView;

    open spec fn view(&self) -> NodeAssignmentsView {
        NodeAssignmentsView {
            id: self.id,
            total_assignments: self.total_assignments,
            pending_assignments: self.pending_assignments,
            stream_replicas: self.stream_replicas@,
            pipeline_replicas: self.pipeline_replicas@,
        }
    }
}

/// The assignments of a node which has nothing assigned to it.
pub open spec fn fresh_assignments(id: NodeId) -> NodeAssignmentsView {
    NodeAssignmentsView {
        id,
        total_assignments: 0,
        pending_assignments: 0,
        stream_replicas: Map::empty(),
        pipeline_replicas: Map::empty(),
    }
}

/// The load of a node: its recorded assignments plus its pending ones.
pub open spec fn load_of(a: NodeAssignmentsView) -> int {
    a.total_assignments + a.pending_assignments
}

/// Whether a node already holds a replica of the same stream partition as the given replica.
pub open spec fn holds_partition(a: NodeAssignmentsView, replica: StreamReplica) -> bool {
    exists|k: u64| #[trigger] a.stream_replicas.contains_key(k) && a.stream_replicas[k].same_partition(&replica)
}

impl NodeAssignments {
    /// Create a new instance.
    pub fn new(id: NodeId) -> (a: Self)
        ensures
            a@ == fresh_assignments(id),
    {
        NodeAssignments {
            id,
            total_assignments: 0,
            pending_assignments: 0,
            stream_replicas: HashMap::new(),
            pipeline_replicas: HashMap::new(),
        }
    }

    /// Whether this node already holds a replica of the same stream partition.
    pub fn has_partition_replica(&self, replica: &StreamReplica) -> (b: bool)
        ensures
            b == holds_partition(self@, *replica),
    {
        let ghost m = self.stream_replicas@;
        let ghost mut seen: Seq<StreamReplica> = Seq::empty();
        for repl in it: self.stream_replicas.values()
            invariant
                m == self.stream_replicas@,
                it.seq().unref().to_set() == m.values(),
                seen == it.seq().unref().take(it.index() as int),
                it.index() == it.seq().len() ==> seen =~= it.seq().unref(),
                forall|j: int| 0 <= j < seen.len() ==> !(#[trigger] seen[j]).same_partition(replica),
        {
            proof {
                assert(it.seq().unref().take(it.index() as int + 1) =~= seen.push(*repl));
                seen = seen.push(*repl);
            }
            if str_equal(&repl.namespace, &replica.namespace) && str_equal(&repl.name, &replica.name)
                && repl.partition == replica.partition {
                proof {
                    assert(it.seq().unref().to_set().contains(*repl));
                    assert(m.values().contains(*repl));
                    let k = choose|k: u64| m.contains_key(k) && m[k] == *repl;
                    assert(m.contains_key(k) && m[k].same_partition(replica));
                    assert(self@.stream_replicas.contains_key(k));
                    assert(holds_partition(self@, *replica));
                }
                return true;
            }
        }
        proof {
            assert forall|k: u64| #[trigger] m.contains_key(k) implies !m[k].same_partition(replica) by {
                assert(m.values().contains(m[k]));
                assert(seen.to_set().contains(m[k]));
                let j = choose|j: int| 0 <= j < seen.len() && seen[j] == m[k];
                assert(!seen[j].same_partition(replica));
            }
        }
        false
    }
}

fn str_equal(a: &String, b: &String) -> (eq: bool)
    ensures
        eq == (a@ == b@),
{
    crate::auth::str_eq(a.as_str(), b.as_str())
}

//////////////////////////////////////////////////////////////////////////////////////////////////
// Cluster model /////////////////////////////////////////////////////////////////////////////////

/// The first position at or after `i` whose entry is for `node`, or the length.
pub open spec fn index_of_node(lo: Seq<LoadEntry>, node: NodeId, i: int) -> int
    decreases lo.len() - i,
{
    if i < 0 || i >= lo.len() {
        lo.len() as int
    } else if lo[i].0 == node {
        i
    } else {
        index_of_node(lo, node, i + 1)
    }
}

/// Add one to the load of a node in the load order, or append it with a load of one.
pub open spec fn bump_load(lo: Seq<LoadEntry>, node: NodeId) -> Seq<LoadEntry> {
    let i = index_of_node(lo, node, 0);
    if i < lo.len() {
        lo.update(i, (node, (lo[i].1 + 1) as u64))
    } else {
        lo.push((node, 1u64))
    }
}

/// The mathematical form of the cluster's nodes and their assignments.
pub struct ClusterNodesView {
    pub id: NodeId,
    pub nodes: Map<NodeId, NodeAssignmentsView>,
    pub load_order: Seq<LoadEntry>,
}

impl ClusterNodesView {
    /// The assignments recorded for a node, or fresh ones if it is not known.
    pub open spec fn entry(self, node: NodeId) -> NodeAssignmentsView {
        if self.nodes.contains_key(node) {
            self.nodes[node]
        } else {
            fresh_assignments(node)
        }
    }

    /// Record a stream replica as assigned to a node, without reordering the load order.
    pub open spec fn with_stream_replica(self, node: NodeId, replica: StreamReplica) -> Self {
        let a = self.entry(node);
        ClusterNodesView {
            nodes: self.nodes.insert(
                node,
                NodeAssignmentsView {
                    total_assignments: (a.total_assignments + 1) as u64,
                    stream_replicas: a.stream_replicas.insert(replica.id, replica),
                    ..a
                },
            ),
            load_order: bump_load(self.load_order, node),
            ..self
        }
    }

    /// Record a pipeline replica as assigned to a node, without reordering the load order.
    pub open spec fn with_pipeline_replica(self, node: NodeId, replica: PipelineReplica) -> Self {
        let a = self.entry(node);
        ClusterNodesView {
            nodes: self.nodes.insert(
                node,
                NodeAssignmentsView {
                    total_assignments: (a.total_assignments + 1) as u64,
                    pipeline_replicas: a.pipeline_replicas.insert(replica.id, replica),
                    ..a
                },
            ),
            load_order: bump_load(self.load_order, node),
            ..self
        }
    }

    /// The same cluster with its load order sorted.
    pub open spec fn sorted(self) -> Self {
        ClusterNodesView { load_order: sort_by_load(self.load_order), ..self }
    }

    /// Record a stream replica on its current node and then on its aspired node, if any.
    pub open spec fn record_stream(self, replica: StreamReplica) -> Self {
        let s1 = match replica.current_node {
            Some(n) => self.with_stream_replica(n, replica),
            None => self,
        };
        let s2 = match replica.aspired_node {
            Some(n) => s1.with_stream_replica(n, replica),
            None => s1,
        };
        s2.sorted()
    }

    /// Record a pipeline replica on its current node and then on its aspired node, if any.
    pub open spec fn record_pipeline(self, replica: PipelineReplica) -> Self {
        let s1 = match replica.current_node {
            Some(n) => self.with_pipeline_replica(n, replica),
            None => self,
        };
        let s2 = match replica.aspired_node {
            Some(n) => s1.with_pipeline_replica(n, replica),
            None => s1,
        };
        s2.sorted()
    }

    /// Add a node with no assignments, unless it is already known.
    pub open spec fn add_node(self, node: NodeId) -> Self {
        if self.nodes.contains_key(node) {
            self
        } else {
            ClusterNodesView {
                nodes: self.nodes.insert(node, fresh_assignments(node)),
                load_order: sort_by_load(self.load_order.push((node, 0u64))),
                ..self
            }
        }
    }

    /// Add each of the given nodes in turn.
    pub open spec fn add_nodes(self, ids: Seq<NodeId>) -> Self
        decreases ids.len(),
    {
        if ids.len() == 0 {
            self
        } else {
            self.add_nodes(ids.drop_last()).add_node(ids.last())
        }
    }

    /// Whether a replica may be placed on the node at position `i` of the load order.
    pub open spec fn eligible(self, i: int, replica: StreamReplica) -> bool {
        &&& self.nodes.contains_key(self.load_order[i].0)
        &&& !holds_partition(self.nodes[self.load_order[i].0], replica)
    }

    /// The first position at or after `i` of the load order whose node may take the replica.
    pub open spec fn first_eligible(self, replica: StreamReplica, i: int) -> int
        decreases self.load_order.len() - i,
    {
        if i < 0 || i >= self.load_order.len() {
            self.load_order.len() as int
        } else if self.eligible(i, replica) {
            i
        } else {
            self.first_eligible(replica, i + 1)
        }
    }

    /// Place a replica on the lightest node which does not yet hold a replica of the same
    /// stream partition: the placement is recorded as pending, and the node's load grows by one.
    pub open spec fn assign_stream(self, replica: StreamReplica) -> (Self, Option<NodeId>) {
        let p = self.first_eligible(replica, 0);
        if p < self.load_order.len() {
            let node = self.load_order[p].0;
            let a = self.nodes[node];
            let placed = ClusterNodesView {
                nodes: self.nodes.insert(
                    node,
                    NodeAssignmentsView {
                        pending_assignments: (a.pending_assignments + 1) as u64,
                        stream_replicas: a.stream_replicas.insert(replica.id, replica),
                        ..a
                    },
                ),
                load_order: sort_by_load(self.load_order.update(p, (node, (self.load_order[p].1 + 1) as u64))),
                ..self
            };
            (placed, Some(node))
        } else {
            (self, None)
        }
    }

    /// Whether the load order and the node table agree: every node appears exactly once in the
    /// load order, paired with its load, and each node's assignments carry its own ID.
    pub open spec fn consistent(self) -> bool {
        &&& self.load_order.no_duplicates()
        &&& forall|i: int| 0 <= i < self.load_order.len() ==> {
            &&& self.nodes.contains_key(#[trigger] self.load_order[i].0)
            &&& self.load_order[i].1 == load_of(self.nodes[self.load_order[i].0])
        }
        &&& forall|k: NodeId| #[trigger] self.nodes.contains_key(k) ==>
            exists|i: int| 0 <= i < self.load_order.len() && #[trigger] self.load_order[i].0 == k
        &&& forall|k: NodeId| #[trigger] self.nodes.contains_key(k) ==> self.nodes[k].id == k
    }

    /// The invariant of the cluster's records: consistent, with the load order sorted by load.
    pub open spec fn wf(self) -> bool {
        self.consistent() && sorted_by_load(self.load_order)
    }

    /// Every node's load leaves room for the increments that one operation makes.
    pub open spec fn loads_bounded(self) -> bool {
        forall|k: NodeId| #[trigger] self.nodes.contains_key(k) ==> load_of(self.nodes[k]) + 2 <= u64::MAX
    }
}

/// The event emitted when a replica is scheduled onto the given node.
pub open spec fn stream_scheduled_event(id: NodeId, replica: StreamReplica) -> Option<CPCEvent> {
    if replica.aspired_node == Some(id) || replica.current_node == Some(id) {
        Some(CPCEvent::StreamReplicaScheduled(replica))
    } else {
        None
    }
}

/// The event emitted when a pipeline replica is scheduled onto the given node.
pub open spec fn pipeline_scheduled_event(id: NodeId, replica: PipelineReplica) -> Option<CPCEvent> {
    if replica.aspired_node == Some(id) || replica.current_node == Some(id) {
        Some(CPCEvent::PipelineReplicaScheduled(replica))
    } else {
        None
    }
}

//////////////////////////////////////////////////////////////////////////////////////////////////
// Proofs about the cluster model ////////////////////////////////////////////////////////////////

proof fn lemma_index_of_node(lo: Seq<LoadEntry>, node: NodeId, i: int)
    requires
        0 <= i <= lo.len(),
    ensures
        i <= index_of_node(lo, node, i) <= lo.len(),
        forall|j: int| i <= j < index_of_node(lo, node, i) ==> lo[j].0 != node,
        index_of_node(lo, node, i) < lo.len() ==> lo[index_of_node(lo, node, i)].0 == node,
    decreases lo.len() - i,
{
    if i < lo.len() && lo[i].0 != node {
        lemma_index_of_node(lo, node, i + 1);
    }
}

/// In a consistent cluster, no two entries of the load order are for the same node.
pub proof fn lemma_node_ids_unique(v: ClusterNodesView)
    requires
        v.consistent(),
    ensures
        forall|i: int, j: int|
            0 <= i < v.load_order.len() && 0 <= j < v.load_order.len() && #[trigger] v.load_order[i].0
                == #[trigger] v.load_order[j].0 ==> i == j,
{
    assert forall|i: int, j: int|
        0 <= i < v.load_order.len() && 0 <= j < v.load_order.len() && #[trigger] v.load_order[i].0
            == #[trigger] v.load_order[j].0 implies i == j by {
        assert(v.load_order[i] == v.load_order[j]);
    }
}

/// Recording a replica on a node keeps the cluster consistent and raises that node's load by one.
proof fn lemma_record_at_consistent(v: ClusterNodesView, w: ClusterNodesView, node: NodeId, a: NodeAssignmentsView)
    requires
        v.consistent(),
        load_of(v.entry(node)) + 1 <= u64::MAX,
        a.id == node,
        load_of(a) == load_of(v.entry(node)) + 1,
        w == (ClusterNodesView { nodes: v.nodes.insert(node, a), load_order: bump_load(v.load_order, node), ..v }),
    ensures
        w.consistent(),
{
    let lo = v.load_order;
    let p = index_of_node(lo, node, 0);
    lemma_index_of_node(lo, node, 0);
    lemma_node_ids_unique(v);
    if p < lo.len() {
        assert(v.nodes.contains_key(node));
        let nlo = w.load_order;
        assert(nlo == lo.update(p, (node, (lo[p].1 + 1) as u64)));
        assert forall|i: int| 0 <= i < nlo.len() implies {
            &&& w.nodes.contains_key(#[trigger] nlo[i].0)
            &&& nlo[i].1 == load_of(w.nodes[nlo[i].0])
        } by {
            if i != p {
                assert(lo[i].0 != node);
                assert(v.nodes.contains_key(lo[i].0));
            }
        }
        assert forall|i: int, j: int| 0 <= i < nlo.len() && 0 <= j < nlo.len() && i != j implies nlo[i] != nlo[j] by {
            if i == p {
                assert(lo[j].0 != node);
            } else if j == p {
                assert(lo[i].0 != node);
            } else {
                assert(lo[i] != lo[j]);
            }
        }
        assert forall|k: NodeId| #[trigger] w.nodes.contains_key(k) implies exists|i: int|
            0 <= i < nlo.len() && #[trigger] nlo[i].0 == k by {
            let i = choose|i: int| 0 <= i < lo.len() && #[trigger] lo[i].0 == k;
            assert(nlo[i].0 == k);
        }
    } else {
        assert(!v.nodes.contains_key(node)) by {
            if v.nodes.contains_key(node) {
                let i = choose|i: int| 0 <= i < lo.len() && #[trigger] lo[i].0 == node;
            }
        }
        let nlo = w.load_order;
        assert(nlo == lo.push((node, 1u64)));
        assert forall|i: int| 0 <= i < nlo.len() implies {
            &&& w.nodes.contains_key(#[trigger] nlo[i].0)
            &&& nlo[i].1 == load_of(w.nodes[nlo[i].0])
        } by {
            if i < lo.len() {
                assert(v.nodes.contains_key(lo[i].0));
                assert(lo[i].0 != node);
            }
        }
        assert forall|i: int, j: int| 0 <= i < nlo.len() && 0 <= j < nlo.len() && i != j implies nlo[i] != nlo[j] by {
            if i == lo.len() {
                assert(v.nodes.contains_key(lo[j].0));
            } else if j == lo.len() {
                assert(v.nodes.contains_key(lo[i].0));
            } else {
                assert(lo[i] != lo[j]);
            }
        }
        assert forall|k: NodeId| #[trigger] w.nodes.contains_key(k) implies exists|i: int|
            0 <= i < nlo.len() && #[trigger] nlo[i].0 == k by {
            if k == node {
                assert(nlo[lo.len() as int].0 == k);
            } else {
                let i = choose|i: int| 0 <= i < lo.len() && #[trigger] lo[i].0 == k;
                assert(nlo[i].0 == k);
            }
        }
    }
}

/// Recording a stream replica on a node keeps the cluster consistent.
pub proof fn lemma_with_stream_replica(v: ClusterNodesView, node: NodeId, replica: StreamReplica)
    requires
        v.consistent(),
        v.nodes.contains_key(node) ==> load_of(v.nodes[node]) + 1 <= u64::MAX,
    ensures
        v.with_stream_replica(node, replica).consistent(),
        v.with_stream_replica(node, replica).nodes.dom() == v.nodes.dom().insert(node),
        load_of(v.with_stream_replica(node, replica).nodes[node]) == load_of(v.entry(node)) + 1,
        forall|k: NodeId| k != node ==> v.with_stream_replica(node, replica).entry(k) == v.entry(k),
{
    let e = v.entry(node);
    let a = NodeAssignmentsView {
        total_assignments: (e.total_assignments + 1) as u64,
        stream_replicas: e.stream_replicas.insert(replica.id, replica),
        ..e
    };
    lemma_record_at_consistent(v, v.with_stream_replica(node, replica), node, a);
}

/// Recording a pipeline replica on a node keeps the cluster consistent.
pub proof fn lemma_with_pipeline_replica(v: ClusterNodesView, node: NodeId, replica: PipelineReplica)
    requires
        v.consistent(),
        v.nodes.contains_key(node) ==> load_of(v.nodes[node]) + 1 <= u64::MAX,
    ensures
        v.with_pipeline_replica(node, replica).consistent(),
        v.with_pipeline_replica(node, replica).nodes.dom() == v.nodes.dom().insert(node),
        load_of(v.with_pipeline_replica(node, replica).nodes[node]) == load_of(v.entry(node)) + 1,
        forall|k: NodeId| k != node ==> v.with_pipeline_replica(node, replica).entry(k) == v.entry(k),
{
    let e = v.entry(node);
    let a = NodeAssignmentsView {
        total_assignments: (e.total_assignments + 1) as u64,
        pipeline_replicas: e.pipeline_replicas.insert(replica.id, replica),
        ..e
    };
    lemma_record_at_consistent(v, v.with_pipeline_replica(node, replica), node, a);
}

/// Sorting the load order of a consistent cluster yields a well-formed cluster.
pub proof fn lemma_sorted_wf(v: ClusterNodesView)
    requires
        v.consistent(),
    ensures
        v.sorted().wf(),
        v.sorted().nodes == v.nodes,
{
    broadcast use {vstd::seq_lib::group_to_multiset_ensures, vstd::multiset::group_multiset_axioms};

    let lo = v.load_order;
    let so = sort_by_load(lo);
    lemma_sort_by_load(lo);
    lo.lemma_multiset_has_no_duplicates();
    assert forall|x: LoadEntry| so.to_multiset().contains(x) implies so.to_multiset().count(x) == 1 by {}
    so.lemma_multiset_has_no_duplicates_conv();
    assert forall|i: int| 0 <= i < so.len() implies {
        &&& v.nodes.contains_key(#[trigger] so[i].0)
        &&& so[i].1 == load_of(v.nodes[so[i].0])
    } by {
        assert(so.contains(so[i]));
        assert(so.to_multiset().count(so[i]) > 0);
        assert(lo.contains(so[i]));
        let j = choose|j: int| 0 <= j < lo.len() && lo[j] == so[i];
        assert(v.nodes.contains_key(lo[j].0));
    }
    assert forall|k: NodeId| #[trigger] v.nodes.contains_key(k) implies exists|i: int|
        0 <= i < so.len() && #[trigger] so[i].0 == k by {
        let j = choose|j: int| 0 <= j < lo.len() && #[trigger] lo[j].0 == k;
        assert(lo.contains(lo[j]));
        assert(lo.to_multiset().count(lo[j]) > 0);
        assert(so.contains(lo[j]));
        let i = choose|i: int| 0 <= i < so.len() && so[i] == lo[j];
        assert(so[i].0 == k);
    }
}

/// Adding a node keeps a well-formed cluster well-formed.
pub proof fn lemma_add_node_wf(v: ClusterNodesView, node: NodeId)
    requires
        v.wf(),
    ensures
        v.add_node(node).wf(),
        v.add_node(node).nodes.dom() == v.nodes.dom().insert(node),
        forall|k: NodeId| v.nodes.contains_key(k) ==> v.add_node(node).nodes[k] == v.nodes[k],
{
    if !v.nodes.contains_key(node) {
        let lo = v.load_order;
        let u = ClusterNodesView {
            nodes: v.nodes.insert(node, fresh_assignments(node)),
            load_order: lo.push((node, 0u64)),
            ..v
        };
        let nlo = u.load_order;
        assert forall|i: int, j: int| 0 <= i < nlo.len() && 0 <= j < nlo.len() && i != j implies nlo[i] != nlo[j] by {
            if i == lo.len() {
                assert(v.nodes.contains_key(lo[j].0));
            } else if j == lo.len() {
                assert(v.nodes.contains_key(lo[i].0));
            }
        }
        assert forall|k: NodeId| #[trigger] u.nodes.contains_key(k) implies exists|i: int|
            0 <= i < nlo.len() && #[trigger] nlo[i].0 == k by {
            if k == node {
                assert(nlo[lo.len() as int].0 == k);
            } else {
                let i = choose|i: int| 0 <= i < lo.len() && #[trigger] lo[i].0 == k;
                assert(nlo[i].0 == k);
            }
        }
        assert(u.consistent());
        lemma_sorted_wf(u);
        assert(u.sorted() == v.add_node(node));
    }
}

/// Adding nodes keeps a well-formed cluster well-formed, and adds exactly those nodes.
pub proof fn lemma_add_nodes_wf(v: ClusterNodesView, ids: Seq<NodeId>)
    requires
        v.wf(),
    ensures
        v.add_nodes(ids).wf(),
        v.add_nodes(ids).id == v.id,
        v.add_nodes(ids).nodes.dom() == v.nodes.dom() + ids.to_set(),
        forall|k: NodeId| v.nodes.contains_key(k) ==> v.add_nodes(ids).nodes[k] == v.nodes[k],
    decreases ids.len(),
{
    if ids.len() > 0 {
        lemma_add_nodes_wf(v, ids.drop_last());
        lemma_add_node_wf(v.add_nodes(ids.drop_last()), ids.last());
        assert(ids.drop_last().push(ids.last()) =~= ids);
        assert(v.add_nodes(ids).nodes.dom() =~= v.nodes.dom() + ids.to_set()) by {
            ids.drop_last().lemma_push_to_set_commute(ids.last());
        }
    } else {
        assert(ids.to_set() =~= Set::<NodeId>::empty());
        assert(v.nodes.dom() + ids.to_set() =~= v.nodes.dom());
    }
}

proof fn lemma_first_eligible(v: ClusterNodesView, replica: StreamReplica, i: int)
    requires
        0 <= i <= v.load_order.len(),
    ensures
        i <= v.first_eligible(replica, i) <= v.load_order.len(),
        forall|j: int| i <= j < v.first_eligible(replica, i) ==> !v.eligible(j, replica),
        v.first_eligible(replica, i) < v.load_order.len() ==> v.eligible(v.first_eligible(replica, i), replica),
    decreases v.load_order.len() - i,
{
    if i < v.load_order.len() && !v.eligible(i, replica) {
        lemma_first_eligible(v, replica, i + 1);
    }
}

/// Placing a replica keeps a well-formed cluster well-formed.
pub proof fn lemma_assign_stream_wf(v: ClusterNodesView, replica: StreamReplica)
    requires
        v.wf(),
        v.loads_bounded(),
    ensures
        v.assign_stream(replica).0.wf(),
        v.assign_stream(replica).0.nodes.dom() == v.nodes.dom(),
{
    let p = v.first_eligible(replica, 0);
    lemma_first_eligible(v, replica, 0);
    if p < v.load_order.len() {
        let lo = v.load_order;
        let node = lo[p].0;
        let a = v.nodes[node];
        lemma_node_ids_unique(v);
        let u = ClusterNodesView {
            nodes: v.nodes.insert(
                node,
                NodeAssignmentsView {
                    pending_assignments: (a.pending_assignments + 1) as u64,
                    stream_replicas: a.stream_replicas.insert(replica.id, replica),
                    ..a
                },
            ),
            load_order: lo.update(p, (node, (lo[p].1 + 1) as u64)),
            ..v
        };
        let nlo = u.load_order;
        assert forall|i: int, j: int| 0 <= i < nlo.len() && 0 <= j < nlo.len() && i != j implies nlo[i] != nlo[j] by {
            if i == p {
                assert(lo[j].0 != node);
            } else if j == p {
                assert(lo[i].0 != node);
            } else {
                assert(lo[i] != lo[j]);
            }
        }
        assert forall|k: NodeId| #[trigger] u.nodes.contains_key(k) implies exists|i: int|
            0 <= i < nlo.len() && #[trigger] nlo[i].0 == k by {
            let i = choose|i: int| 0 <= i < lo.len() && #[trigger] lo[i].0 == k;
            assert(nlo[i].0 == k);
        }
        assert(u.nodes.dom() =~= v.nodes.dom());
        assert(u.consistent());
        lemma_sorted_wf(u);
    }
}

/// Every node's load is at most `b`.
pub open spec fn loads_at_most(v: ClusterNodesView, b: int) -> bool {
    forall|k: NodeId| #[trigger] v.nodes.contains_key(k) ==> load_of(v.nodes[k]) <= b
}

/// Placing a replica raises the load of at most one node, by one.
pub proof fn lemma_assign_stream_loads(v: ClusterNodesView, replica: StreamReplica, b: int)
    requires
        v.wf(),
        loads_at_most(v, b),
        b + 2 <= u64::MAX,
    ensures
        loads_at_most(v.assign_stream(replica).0, b + 1),
{
    lemma_first_eligible(v, replica, 0);
}

/// Recording a replica raises the load of any node by at most two.
pub proof fn lemma_record_stream_loads(v: ClusterNodesView, replica: StreamReplica, b: int)
    requires
        loads_at_most(v, b),
        b >= 0,
    ensures
        loads_at_most(v.record_stream(replica), b + 2),
{
}

/// Recording a pipeline replica raises the load of any node by at most two.
pub proof fn lemma_record_pipeline_loads(v: ClusterNodesView, replica: PipelineReplica, b: int)
    requires
        loads_at_most(v, b),
        b >= 0,
    ensures
        loads_at_most(v.record_pipeline(replica), b + 2),
{
}

/// Adding nodes leaves every load at most what it was, as added nodes carry no load.
pub proof fn lemma_add_nodes_loads(v: ClusterNodesView, ids: Seq<NodeId>, b: int)
    requires
        loads_at_most(v, b),
        b >= 0,
    ensures
        loads_at_most(v.add_nodes(ids), b),
    decreases ids.len(),
{
    if ids.len() > 0 {
        lemma_add_nodes_loads(v, ids.drop_last(), b);
    }
}

/// A placement goes to a lightest node among those which may take the replica, and never onto a
/// node which already holds a replica of the same stream partition; no placement is made only
/// when every node already holds such a replica.
pub proof fn lemma_assign_picks_lightest_eligible(v: ClusterNodesView, replica: StreamReplica)
    requires
        v.wf(),
    ensures
        match v.assign_stream(replica).1 {
            Some(node) => {
                &&& v.nodes.contains_key(node)
                &&& !holds_partition(v.nodes[node], replica)
                &&& forall|k: NodeId| #[trigger] v.nodes.contains_key(k) && !holds_partition(v.nodes[k], replica)
                    ==> load_of(v.nodes[node]) <= load_of(v.nodes[k])
            },
            None => forall|k: NodeId| #[trigger] v.nodes.contains_key(k) ==> holds_partition(v.nodes[k], replica),
        },
{
    lemma_first_eligible(v, replica, 0);
    let p = v.first_eligible(replica, 0);
    let lo = v.load_order;
    if p < lo.len() {
        let node = lo[p].0;
        assert forall|k: NodeId| #[trigger] v.nodes.contains_key(k) && !holds_partition(v.nodes[k], replica)
            implies load_of(v.nodes[node]) <= load_of(v.nodes[k]) by {
            let i = choose|i: int| 0 <= i < lo.len() && #[trigger] lo[i].0 == k;
            assert(v.eligible(i, replica));
            assert(i >= p);
            assert(lo[p].1 <= lo[i].1);
        }
    } else {
        assert forall|k: NodeId| #[trigger] v.nodes.contains_key(k) implies holds_partition(v.nodes[k], replica) by {
            let i = choose|i: int| 0 <= i < lo.len() && #[trigger] lo[i].0 == k;
            assert(!v.eligible(i, replica));
        }
    }
}

//////////////////////////////////////////////////////////////////////////////////////////////////
// ClusterNodes //////////////////////////////////////////////////////////////////////////////////

/// A representation of all known cluster members and their assignments.
#[derive(Debug)]
pub struct ClusterNodes {
    /// The ID of this node within the cluster.
    pub id: NodeId,
    /// All known nodes within the cluster along with their known assignments.
    pub nodes: HashMap<NodeId, NodeAssignments>,
    /// A sorted load order of all nodes in the cluster.
    load_order: Vec<LoadEntry>,
}

impl View for ClusterNodes {
    type V = ClusterNodesView;

    closed spec fn view(&self) -> ClusterNodesView {
        ClusterNodesView {
            id: self.id,
            nodes: self.nodes@.map_values(|a: NodeAssignments| a@),
            load_order: self.load_order@,
        }
    }
}

impl ClusterNodes {
    /// The load order: every node with its load, lightest first.
    pub fn load_order(&self) -> (lo: &Vec<LoadEntry>)
        ensures
            lo@ == self@.load_order,
    {
        &self.load_order
    }

    /// Whether a node is known.
    pub fn contains_node(&self, node: NodeId) -> (b: bool)
        ensures
            b == self@.nodes.contains_key(node),
    {
        self.nodes.contains_key(&node)
    }

    /// Take a node's assignments out of the table, or fresh ones if it is not known.
    fn take_entry(&mut self, node: NodeId) -> (a: NodeAssignments)
        ensures
            a@ == old(self)@.entry(node),
            final(self)@ == (ClusterNodesView { nodes: old(self)@.nodes.remove(node), ..old(self)@ }),
    {
        let ghost old_view = self@;
        let removed = self.nodes.remove(&node);
        proof {
            assert(self@.nodes =~= old_view.nodes.remove(node));
        }
        match removed {
            Some(a) => a,
            None => NodeAssignments::new(node),
        }
    }

    /// Put a node's assignments back into the table.
    fn put_entry(&mut self, node: NodeId, a: NodeAssignments)
        ensures
            final(self)@ == (ClusterNodesView { nodes: old(self)@.nodes.insert(node, a@), ..old(self)@ }),
    {
        let ghost old_view = self@;
        self.nodes.insert(node, a);
        proof {
            assert(self@.nodes =~= old_view.nodes.insert(node, a@));
        }
    }

    /// Add one to a node's load in the load order, or append it with a load of one.
    fn bump_load_exec(&mut self, node: NodeId)
        requires
            index_of_node(old(self)@.load_order, node, 0) < old(self)@.load_order.len() ==>
                old(self)@.load_order[index_of_node(old(self)@.load_order, node, 0)].1 < u64::MAX,
        ensures
            final(self)@ == (ClusterNodesView { load_order: bump_load(old(self)@.load_order, node), ..old(self)@ }),
    {
        let mut i: usize = 0;
        while i < self.load_order.len() && self.load_order[i].0 != node
            invariant
                i <= self.load_order.len(),
                index_of_node(self.load_order@, node, 0) == index_of_node(self.load_order@, node, i as int),
            decreases self.load_order.len() - i,
        {
            i = i + 1;
        }
        if i < self.load_order.len() {
            let load = self.load_order[i].1;
            self.load_order.set(i, (node, load + 1));
        } else {
            self.load_order.push((node, 1));
        }
    }

    /// Sort the values in load order.
    ///
    /// This will place more heavily loaded nodes at the end of the vector.
    pub fn sort_load_order(&mut self)
        ensures
            final(self)@ == old(self)@.sorted(),
    {
        self.load_order = sort_load_entries(&self.load_order);
    }

    /// Record a stream replica as assigned to a node, without reordering the load order.
    fn record_stream_at(&mut self, node: NodeId, replica: &StreamReplica)
        requires
            old(self)@.consistent(),
            old(self)@.nodes.contains_key(node) ==> load_of(old(self)@.nodes[node]) + 1 <= u64::MAX,
        ensures
            final(self)@ == old(self)@.with_stream_replica(node, *replica),
    {
        proof {
            lemma_index_of_node(self@.load_order, node, 0);
            lemma_node_ids_unique(self@);
        }
        let ghost v = self@;
        let mut a = self.take_entry(node);
        a.total_assignments = a.total_assignments + 1;
        a.stream_replicas.insert(replica.id, replica.copy());
        self.put_entry(node, a);
        proof {
            assert(self@.nodes =~= v.with_stream_replica(node, *replica).nodes);
            let p = index_of_node(v.load_order, node, 0);
            if p < v.load_order.len() {
                assert(v.nodes.contains_key(node));
            }
        }
        self.bump_load_exec(node);
    }

    /// Record a pipeline replica as assigned to a node, without reordering the load order.
    fn record_pipeline_at(&mut self, node: NodeId, replica: &PipelineReplica)
        requires
            old(self)@.consistent(),
            old(self)@.nodes.contains_key(node) ==> load_of(old(self)@.nodes[node]) + 1 <= u64::MAX,
        ensures
            final(self)@ == old(self)@.with_pipeline_replica(node, *replica),
    {
        proof {
            lemma_index_of_node(self@.load_order, node, 0);
            lemma_node_ids_unique(self@);
        }
        let ghost v = self@;
        let mut a = self.take_entry(node);
        a.total_assignments = a.total_assignments + 1;
        a.pipeline_replicas.insert(replica.id, replica.copy());
        self.put_entry(node, a);
        proof {
            assert(self@.nodes =~= v.with_pipeline_replica(node, *replica).nodes);
            let p = index_of_node(v.load_order, node, 0);
            if p < v.load_order.len() {
                assert(v.nodes.contains_key(node));
            }
        }
        self.bump_load_exec(node);
    }
}


impl ClusterNodes {
    /// Create a new instance holding the given nodes, none of which has any assignment.
    pub fn new(id: NodeId, nodes: &[NodeId]) -> (c: Self)
        ensures
            c@ == (ClusterNodesView { id, nodes: Map::empty(), load_order: Seq::empty() }).add_nodes(nodes@),
            c@.wf(),
            c@.id == id,
            c@.nodes.dom() == nodes@.to_set(),
            forall|k: NodeId| #[trigger] c@.nodes.contains_key(k) ==> c@.nodes[k] == fresh_assignments(k),
    {
        let mut c = ClusterNodes { id, nodes: HashMap::new(), load_order: Vec::new() };
        proof {
            assert(c@.nodes =~= Map::<NodeId, NodeAssignmentsView>::empty());
        }
        c.update_nodes(nodes);
        proof {
            let e = ClusterNodesView { id, nodes: Map::empty(), load_order: Seq::empty() };
            lemma_add_nodes_fresh(e, nodes@);
            lemma_add_nodes_wf(e, nodes@);
            assert(e.nodes.dom() + nodes@.to_set() =~= nodes@.to_set());
        }
        c
    }

    /// Ensure the system is up-to-date with all cluster nodes.
    pub fn update_nodes(&mut self, nodes: &[NodeId])
        requires
            old(self)@.wf(),
        ensures
            final(self)@ == old(self)@.add_nodes(nodes@),
            final(self)@.wf(),
    {
        let ghost v0 = self@;
        let mut i: usize = 0;
        while i < nodes.len()
            invariant
                i <= nodes.len(),
                v0.wf(),
                self@ == v0.add_nodes(nodes@.take(i as int)),
            decreases nodes.len() - i,
        {
            proof {
                lemma_add_nodes_wf(v0, nodes@.take(i as int));
                assert(nodes@.take(i as int + 1).drop_last() =~= nodes@.take(i as int));
            }
            let node = nodes[i];
            if !self.nodes.contains_key(&node) {
                let ghost before = self@;
                self.put_entry(node, NodeAssignments::new(node));
                self.load_order.push((node, 0));
                self.sort_load_order();
                proof {
                    assert(self@ == before.add_node(node));
                }
            }
            i = i + 1;
        }
        proof {
            assert(nodes@.take(nodes.len() as int) =~= nodes@);
            lemma_add_nodes_wf(v0, nodes@);
        }
    }

    /// Assign a stream replica to a node.
    ///
    /// The replica goes to the first node of the load order — the least loaded — which does not
    /// already hold a replica of the same stream partition. The node's pending assignments and
    /// load grow by one and the replica joins its table of stream replicas. Returns the node, or
    /// `None`, leaving everything unchanged, when no node can take the replica.
    pub fn assign_stream_replica(&mut self, replica: StreamReplica) -> (node: Option<NodeId>)
        requires
            old(self)@.wf(),
            old(self)@.loads_bounded(),
        ensures
            (final(self)@, node) == old(self)@.assign_stream(replica),
            final(self)@.wf(),
    {
        let ghost v = self@;
        proof {
            lemma_first_eligible(v, replica, 0);
            lemma_assign_stream_wf(v, replica);
        }
        let mut p: usize = 0;
        while p < self.load_order.len()
            invariant
                self@ == v,
                p <= v.load_order.len(),
                v.first_eligible(replica, 0) == v.first_eligible(replica, p as int),
            ensures
                self@ == v,
                p <= v.load_order.len(),
                v.first_eligible(replica, 0) == v.first_eligible(replica, p as int),
                p < v.load_order.len() ==> v.eligible(p as int, replica),
            decreases self.load_order.len() - p,
        {
            let id = self.load_order[p].0;
            match self.nodes.get(&id) {
                Some(assignments) => {
                    proof {
                        assert(v.nodes[id] == assignments@);
                    }
                    if !assignments.has_partition_replica(&replica) {
                        break;
                    }
                },
                None => {},
            }
            p = p + 1;
        }
        if p < self.load_order.len() {
            let (id, load) = self.load_order[p];
            proof {
                assert(v.first_eligible(replica, 0) == p);
                assert(v.nodes.contains_key(id));
                assert(load == load_of(v.nodes[id]));
            }
            let mut a = self.take_entry(id);
            a.pending_assignments = a.pending_assignments + 1;
            a.stream_replicas.insert(replica.id, replica);
            self.put_entry(id, a);
            self.load_order.set(p, (id, load + 1));
            self.sort_load_order();
            proof {
                assert(self@.nodes =~= v.assign_stream(replica).0.nodes);
            }
            Some(id)
        } else {
            None
        }
    }

    /// Clear all info on this object, resetting back to a pristine state.
    pub fn clear(&mut self)
        ensures
            final(self)@ == (ClusterNodesView { id: old(self)@.id, nodes: Map::empty(), load_order: Seq::empty() }),
            final(self)@.wf(),
    {
        self.nodes.clear();
        self.load_order.clear();
        proof {
            assert(self@.nodes =~= Map::<NodeId, NodeAssignmentsView>::empty());
            assert(self@.load_order =~= Seq::<LoadEntry>::empty());
        }
    }

    /// Record data on a stream replica assignment based on received data.
    ///
    /// This will only update the state of the system if the replica has a current or aspired
    /// node assignment. Emits a scheduling event when the replica is assigned to this node.
    pub fn record_stream_replica(&mut self, replica: StreamReplica) -> (event: Option<CPCEvent>)
        requires
            old(self)@.wf(),
            old(self)@.loads_bounded(),
        ensures
            final(self)@ == old(self)@.record_stream(replica),
            final(self)@.wf(),
            event == stream_scheduled_event(old(self)@.id, replica),
    {
        let ghost v = self@;
        let mut event: Option<CPCEvent> = None;
        if let Some(node) = replica.current_node {
            self.record_stream_at(node, &replica);
            proof {
                lemma_with_stream_replica(v, node, replica);
            }
            if node == self.id {
                event = Some(CPCEvent::StreamReplicaScheduled(replica.copy()));
            }
        }
        let ghost v1 = self@;
        if let Some(node) = replica.aspired_node {
            proof {
                if v1.nodes.contains_key(node) && v.nodes.contains_key(node) {
                    if replica.current_node == Some(node) {
                        assert(load_of(v1.nodes[node]) == load_of(v.nodes[node]) + 1);
                    } else if replica.current_node is Some {
                        assert(v1.entry(node) == v.entry(node));
                    }
                }
            }
            self.record_stream_at(node, &replica);
            proof {
                lemma_with_stream_replica(v1, node, replica);
            }
            if node == self.id {
                event = Some(CPCEvent::StreamReplicaScheduled(replica));
            }
        }
        proof {
            lemma_sorted_wf(self@);
        }
        self.sort_load_order();
        event
    }

    /// Record data on a pipeline replica assignment based on received data.
    ///
    /// This will only update the state of the system if the replica has a current or aspired
    /// node assignment. Emits a scheduling event when the replica is assigned to this node.
    pub fn record_pipeline_replica(&mut self, replica: PipelineReplica) -> (event: Option<CPCEvent>)
        requires
            old(self)@.wf(),
            old(self)@.loads_bounded(),
        ensures
            final(self)@ == old(self)@.record_pipeline(replica),
            final(self)@.wf(),
            event == pipeline_scheduled_event(old(self)@.id, replica),
    {
        let ghost v = self@;
        let mut event: Option<CPCEvent> = None;
        if let Some(node) = replica.current_node {
            self.record_pipeline_at(node, &replica);
            proof {
                lemma_with_pipeline_replica(v, node, replica);
            }
            if node == self.id {
                event = Some(CPCEvent::PipelineReplicaScheduled(replica.copy()));
            }
        }
        let ghost v1 = self@;
        if let Some(node) = replica.aspired_node {
            proof {
                if v1.nodes.contains_key(node) && v.nodes.contains_key(node) {
                    if replica.current_node == Some(node) {
                        assert(load_of(v1.nodes[node]) == load_of(v.nodes[node]) + 1);
                    } else if replica.current_node is Some {
                        assert(v1.entry(node) == v.entry(node));
                    }
                }
            }
            self.record_pipeline_at(node, &replica);
            proof {
                lemma_with_pipeline_replica(v1, node, replica);
            }
            if node == self.id {
                event = Some(CPCEvent::PipelineReplicaScheduled(replica));
            }
        }
        proof {
            lemma_sorted_wf(self@);
        }
        self.sort_load_order();
        event
    }

    /// Handle an update to a stream replica assignment.
    ///
    /// For an initial placement, the replica is recorded on its node and the node's load grows by
    /// one; a scheduling event is emitted when the node is this node.
    pub fn update_stream_replica_assignment(&mut self, change: Assignment, replica: StreamReplica) -> (event: Option<CPCEvent>)
        requires
            old(self)@.wf(),
            old(self)@.loads_bounded(),
        ensures
            match change {
                Assignment::InitialPlacement { node } => {
                    &&& final(self)@ == old(self)@.with_stream_replica(node, replica).sorted()
                    &&& event == (if node == old(self)@.id { Some(CPCEvent::StreamReplicaScheduled(replica)) } else { None })
                },
            },
            final(self)@.wf(),
    {
        match change {
            Assignment::InitialPlacement { node: node_id } => {
                let ghost v = self@;
                self.record_stream_at(node_id, &replica);
                proof {
                    lemma_with_stream_replica(v, node_id, replica);
                    lemma_sorted_wf(self@);
                }
                self.sort_load_order();
                if node_id == self.id {
                    Some(CPCEvent::StreamReplicaScheduled(replica))
                } else {
                    None
                }
            },
        }
    }
}

/// Adding nodes to an empty cluster gives each of them fresh assignments.
proof fn lemma_add_nodes_fresh(v: ClusterNodesView, ids: Seq<NodeId>)
    requires
        forall|k: NodeId| #[trigger] v.nodes.contains_key(k) ==> v.nodes[k] == fresh_assignments(k),
    ensures
        forall|k: NodeId| #[trigger] v.add_nodes(ids).nodes.contains_key(k) ==> v.add_nodes(ids).nodes[k] == fresh_assignments(k),
    decreases ids.len(),
{
    if ids.len() > 0 {
        lemma_add_nodes_fresh(v, ids.drop_last());
        let w = v.add_nodes(ids.drop_last());
        assert(v.add_nodes(ids) == w.add_node(ids.last()));
        assert forall|k: NodeId| #[trigger] v.add_nodes(ids).nodes.contains_key(k) implies v.add_nodes(ids).nodes[k] == fresh_assignments(k) by {
            if w.nodes.contains_key(k) {
            }
        }
    }
}

/// A node is barred from taking a stream replica only by a replica it holds of the very same
/// stream partition: same namespace, same stream name and same partition. Whenever some node
/// holds no such replica, the replica is placed; and it is never placed on a node holding one.
pub proof fn lemma_assign_respects_partitions(v: ClusterNodesView, replica: StreamReplica)
    requires
        v.wf(),
    ensures
        (exists|k: NodeId| #[trigger] v.nodes.contains_key(k) && forall|r: u64| #[trigger] v.nodes[k].stream_replicas.contains_key(r) ==> !{
            let held = v.nodes[k].stream_replicas[r];
            held.namespace@ == replica.namespace@ && held.name@ == replica.name@ && held.partition == replica.partition
        }) ==> v.assign_stream(replica).1 is Some,
        v.assign_stream(replica).1 matches Some(node) ==> {
            &&& v.nodes.contains_key(node)
            &&& forall|r: u64| #[trigger] v.nodes[node].stream_replicas.contains_key(r) ==> !{
                let held = v.nodes[node].stream_replicas[r];
                held.namespace@ == replica.namespace@ && held.name@ == replica.name@ && held.partition == replica.partition
            }
        },
{
    lemma_assign_picks_lightest_eligible(v, replica);
    if exists|k: NodeId| #[trigger] v.nodes.contains_key(k) && forall|r: u64| #[trigger] v.nodes[k].stream_replicas.contains_key(r) ==> !{
        let held = v.nodes[k].stream_replicas[r];
        held.namespace@ == replica.namespace@ && held.name@ == replica.name@ && held.partition == replica.partition
    } {
        let k = choose|k: NodeId| #[trigger] v.nodes.contains_key(k) && forall|r: u64| #[trigger] v.nodes[k].stream_replicas.contains_key(r) ==> !{
            let held = v.nodes[k].stream_replicas[r];
            held.namespace@ == replica.namespace@ && held.name@ == replica.name@ && held.partition == replica.partition
        };
        assert(!holds_partition(v.nodes[k], replica));
    }
    match v.assign_stream(replica).1 {
        Some(node) => {
            assert forall|r: u64| #[trigger] v.nodes[node].stream_replicas.contains_key(r) implies !{
                let held = v.nodes[node].stream_replicas[r];
                held.namespace@ == replica.namespace@ && held.name@ == replica.name@ && held.partition == replica.partition
            } by {
                if v.nodes[node].stream_replicas[r].same_partition(&replica) {
                    assert(holds_partition(v.nodes[node], replica));
                }
            }
        },
        None => {},
    }
}

} // verus!
