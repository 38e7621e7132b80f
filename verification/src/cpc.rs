//! The cluster placement controller: the decisions it takes on cluster events.
//!
//! The controller keeps its records of the cluster's replicas and nodes, and answers each input
//! with the actions to perform: events to publish, reconciliation tasks to queue and placements
//! to submit to the cluster Raft. Performing them is left to the caller.

use std::collections::HashMap;
use vstd::prelude::*;
use vstd::std_specs::iter::IteratorSpec;

use crate::events::{CRCEvent, InitialEvent, StreamReplicaAssignmentUpdated};
use crate::placement::{
    Assignment, CPCEvent, ClusterNodes, ClusterNodesView, NodeId, PipelineReplica, StreamReplica,
    loads_at_most, lemma_add_nodes_loads, lemma_assign_stream_loads, lemma_record_stream_loads,
    lemma_record_pipeline_loads, stream_scheduled_event, pipeline_scheduled_event,
};

verus! {

broadcast use vstd::std_specs::hash::group_hash_axioms;

/// A reconciliation task used by the controller.
#[derive(Debug)]
pub enum Task {
    Initial,
    StreamReplicaCreated(StreamReplica),
}

/// What to do about the controller's leadership after a Raft metrics update.
#[derive(Clone, Copy, Debug, PartialEq, Eq, Structural)]
pub enum LeadershipAction {
    /// Nothing changes.
    Nothing,
    /// Step down: outstanding reconciliation tasks are to be dropped.
    StepDown,
    /// Queue an initial reconciliation task.
    QueueInitialTask,
}

/// A placement to submit to the cluster Raft: a replica and its new assignment.
pub type Placement = (Assignment, StreamReplica);

/// The outcome of handling a cluster Raft event.
#[derive(Debug)]
pub struct EventOutcome {
    /// Events to publish.
    pub events: Vec<CPCEvent>,
    /// A reconciliation task to queue, if any.
    pub task: Option<Task>,
}

/// Whether a replica has neither a current nor an aspired node.
pub open spec fn unplaced(r: StreamReplica) -> bool {
    r.current_node is None && r.aspired_node is None
}

/// Record the given stream replicas in turn.
pub open spec fn record_streams(v: ClusterNodesView, s: Seq<StreamReplica>) -> ClusterNodesView
    decreases s.len(),
{
    if s.len() == 0 {
        v
    } else {
        record_streams(v, s.drop_last()).record_stream(s.last())
    }
}

/// Record the given pipeline replicas in turn.
pub open spec fn record_pipelines(v: ClusterNodesView, s: Seq<PipelineReplica>) -> ClusterNodesView
    decreases s.len(),
{
    if s.len() == 0 {
        v
    } else {
        record_pipelines(v, s.drop_last()).record_pipeline(s.last())
    }
}

/// The scheduling events that recording the given stream replicas emits, in order.
pub open spec fn stream_events(id: NodeId, s: Seq<StreamReplica>) -> Seq<CPCEvent>
    decreases s.len(),
{
    if s.len() == 0 {
        Seq::empty()
    } else {
        match stream_scheduled_event(id, s.last()) {
            Some(e) => stream_events(id, s.drop_last()).push(e),
            None => stream_events(id, s.drop_last()),
        }
    }
}

/// The scheduling events that recording the given pipeline replicas emits, in order.
pub open spec fn pipeline_events(id: NodeId, s: Seq<PipelineReplica>) -> Seq<CPCEvent>
    decreases s.len(),
{
    if s.len() == 0 {
        Seq::empty()
    } else {
        match pipeline_scheduled_event(id, s.last()) {
            Some(e) => pipeline_events(id, s.drop_last()).push(e),
            None => pipeline_events(id, s.drop_last()),
        }
    }
}

/// A table of stream replicas keyed by ID, built from a list in which later entries win.
pub open spec fn stream_table(s: Seq<StreamReplica>) -> Map<u64, StreamReplica>
    decreases s.len(),
{
    if s.len() == 0 {
        Map::empty()
    } else {
        stream_table(s.drop_last()).insert(s.last().id, s.last())
    }
}

/// A table of pipeline replicas keyed by ID, built from a list in which later entries win.
pub open spec fn pipeline_table(s: Seq<PipelineReplica>) -> Map<u64, PipelineReplica>
    decreases s.len(),
{
    if s.len() == 0 {
        Map::empty()
    } else {
        pipeline_table(s.drop_last()).insert(s.last().id, s.last())
    }
}

/// Place each unplaced replica in turn: one that finds a node yields a placement, one that does
/// not joins the wait list.
pub open spec fn place_unplaced(
    nodes: ClusterNodesView,
    wait_list: Map<u64, StreamReplica>,
    order: Seq<StreamReplica>,
) -> (ClusterNodesView, Map<u64, StreamReplica>, Seq<Placement>)
    decreases order.len(),
{
    if order.len() == 0 {
        (nodes, wait_list, Seq::empty())
    } else {
        let (n, w, ps) = place_unplaced(nodes, wait_list, order.drop_last());
        let r = order.last();
        if unplaced(r) {
            match n.assign_stream(r).1 {
                Some(node) => (n.assign_stream(r).0, w, ps.push((Assignment::InitialPlacement { node }, r))),
                None => (n, w.insert(r.id, r), ps),
            }
        } else {
            (n, w, ps)
        }
    }
}

proof fn lemma_place_unplaced_wf(nodes: ClusterNodesView, wait_list: Map<u64, StreamReplica>, order: Seq<StreamReplica>, b: int)
    requires
        nodes.wf(),
        b >= 0,
        loads_at_most(nodes, b),
        b + order.len() + 2 <= u64::MAX,
    ensures
        place_unplaced(nodes, wait_list, order).0.wf(),
        place_unplaced(nodes, wait_list, order).0.id == nodes.id,
        loads_at_most(place_unplaced(nodes, wait_list, order).0, b + order.len()),
    decreases order.len(),
{
    if order.len() > 0 {
        lemma_place_unplaced_wf(nodes, wait_list, order.drop_last(), b);
        let (n, w, ps) = place_unplaced(nodes, wait_list, order.drop_last());
        let r = order.last();
        if unplaced(r) {
            crate::placement::lemma_assign_stream_wf(n, r);
            lemma_assign_stream_loads(n, r, b + order.len() - 1);
        }
    }
}

/// The cluster placement controller's records.
#[derive(Debug)]
pub struct CPC {
    /// The ID of this node in the cluster.
    pub id: NodeId,
    /// Whether this node is currently the controller's leader.
    pub is_leader: bool,
    /// All nodes of the system along with their assignments.
    pub nodes: ClusterNodes,
    /// A table of stream replicas, indexed by ID.
    pub stream_replicas: HashMap<u64, StreamReplica>,
    /// A wait list of stream replicas which were not able to be scheduled.
    pub wait_list_streams: HashMap<u64, StreamReplica>,
    /// A table of pipeline replicas, indexed by ID.
    pub pipeline_replicas: HashMap<u64, PipelineReplica>,
    /// A wait list of pipeline replicas which were not able to be scheduled.
    pub wait_list_pipelines: HashMap<u64, PipelineReplica>,
}

impl CPC {
    /// The invariant of the controller's records.
    pub open spec fn wf(&self) -> bool {
        &&& self.nodes@.wf()
        &&& self.nodes@.id == self.id
    }

    /// Create a new controller for the given node, knowing of the given cluster members.
    pub fn new(id: NodeId, members: &[NodeId]) -> (c: Self)
        ensures
            c.wf(),
            c.id == id,
            !c.is_leader,
            c.nodes@ == (ClusterNodesView { id, nodes: Map::empty(), load_order: Seq::empty() }).add_nodes(members@),
            c.stream_replicas@ == Map::<u64, StreamReplica>::empty(),
            c.wait_list_streams@ == Map::<u64, StreamReplica>::empty(),
            c.pipeline_replicas@ == Map::<u64, PipelineReplica>::empty(),
            c.wait_list_pipelines@ == Map::<u64, PipelineReplica>::empty(),
    {
        CPC {
            id,
            is_leader: false,
            nodes: ClusterNodes::new(id, members),
            stream_replicas: HashMap::new(),
            wait_list_streams: HashMap::new(),
            pipeline_replicas: HashMap::new(),
            wait_list_pipelines: HashMap::new(),
        }
    }

    /// Handle Raft metrics updates to drive leadership of this control group.
    ///
    /// A leader whose node is no longer the Raft leader steps down; a non-leader whose node has
    /// become the Raft leader queues an initial reconciliation task.
    pub fn handle_crc_raft_update(&mut self, raft_is_leader: bool) -> (action: LeadershipAction)
        ensures
            action == (if old(self).is_leader && !raft_is_leader {
                LeadershipAction::StepDown
            } else if !old(self).is_leader && raft_is_leader {
                LeadershipAction::QueueInitialTask
            } else {
                LeadershipAction::Nothing
            }),
            final(self).is_leader == (old(self).is_leader && raft_is_leader),
            final(self).id == old(self).id,
            final(self).nodes@ == old(self).nodes@,
            final(self).stream_replicas@ == old(self).stream_replicas@,
            final(self).wait_list_streams@ == old(self).wait_list_streams@,
            final(self).pipeline_replicas@ == old(self).pipeline_replicas@,
            final(self).wait_list_pipelines@ == old(self).wait_list_pipelines@,
    {
        if self.is_leader && !raft_is_leader {
            self.is_leader = false;
            return LeadershipAction::StepDown;
        }
        if !self.is_leader && raft_is_leader {
            return LeadershipAction::QueueInitialTask;
        }
        LeadershipAction::Nothing
    }

    /// Handle the initial payload of data after system restore.
    ///
    /// All data held by the controller is purged and recreated from the payload; a scheduling
    /// event is emitted for each replica placed on this node.
    pub fn handle_crc_initial(&mut self, initial: InitialEvent) -> (events: Vec<CPCEvent>)
        requires
            old(self).wf(),
            2 * (initial.stream_replicas.len() + initial.pipeline_replicas.len()) + 2 <= u64::MAX,
        ensures
            final(self).wf(),
            ({
                let cleared = ClusterNodesView { id: old(self).id, nodes: Map::empty(), load_order: Seq::empty() };
                let after_streams = record_streams(cleared, initial.stream_replicas@);
                &&& final(self).nodes@ == record_pipelines(after_streams, initial.pipeline_replicas@)
                &&& events@ == stream_events(old(self).id, initial.stream_replicas@)
                    + pipeline_events(old(self).id, initial.pipeline_replicas@)
            }),
            final(self).stream_replicas@ == stream_table(initial.stream_replicas@),
            final(self).pipeline_replicas@ == pipeline_table(initial.pipeline_replicas@),
            final(self).id == old(self).id,
            final(self).is_leader == old(self).is_leader,
            final(self).wait_list_streams@ == old(self).wait_list_streams@,
            final(self).wait_list_pipelines@ == old(self).wait_list_pipelines@,
    {
        let ghost id = self.id;
        let ghost leader = self.is_leader;
        let ghost wait_streams = self.wait_list_streams@;
        let ghost wait_pipelines = self.wait_list_pipelines@;
        self.nodes.clear();
        let ghost cleared = self.nodes@;
        let mut events: Vec<CPCEvent> = Vec::new();

        self.stream_replicas.clear();
        let streams = &initial.stream_replicas;
        let mut i: usize = 0;
        while i < streams.len()
            invariant
                i <= streams.len(),
                self.id == id,
                self.nodes@.id == id,
                cleared == (ClusterNodesView { id, nodes: Map::empty(), load_order: Seq::empty() }),
                self.nodes@ == record_streams(cleared, streams@.take(i as int)),
                self.nodes@.wf(),
                loads_at_most(self.nodes@, 2 * i),
                2 * (streams.len() + initial.pipeline_replicas.len()) + 2 <= u64::MAX,
                events@ == stream_events(id, streams@.take(i as int)),
                self.stream_replicas@ == stream_table(streams@.take(i as int)),
                self.wait_list_streams@ == wait_streams,
                self.wait_list_pipelines@ == wait_pipelines,
                self.is_leader == leader,
            decreases streams.len() - i,
        {
            proof {
                assert(streams@.take(i as int + 1).drop_last() =~= streams@.take(i as int));
                lemma_record_stream_loads(self.nodes@, streams@[i as int], 2 * i);
            }
            let placement = streams[i].copy();
            self.stream_replicas.insert(placement.id, placement.copy());
            let ev = self.nodes.record_stream_replica(placement);
            if let Some(event) = ev {
                events.push(event);
            }
            i = i + 1;
        }
        proof {
            assert(streams@.take(streams.len() as int) =~= streams@);
        }
        let ghost after_streams = self.nodes@;
        let ghost stream_evs = events@;

        self.pipeline_replicas.clear();
        let pipelines = &initial.pipeline_replicas;
        let mut j: usize = 0;
        while j < pipelines.len()
            invariant
                j <= pipelines.len(),
                self.id == id,
                self.nodes@.id == id,
                self.nodes@ == record_pipelines(after_streams, pipelines@.take(j as int)),
                self.nodes@.wf(),
                loads_at_most(self.nodes@, 2 * (streams.len() + j)),
                2 * (streams.len() + pipelines.len()) + 2 <= u64::MAX,
                events@ == stream_evs + pipeline_events(id, pipelines@.take(j as int)),
                self.pipeline_replicas@ == pipeline_table(pipelines@.take(j as int)),
                self.stream_replicas@ == stream_table(streams@),
                self.wait_list_streams@ == wait_streams,
                self.wait_list_pipelines@ == wait_pipelines,
                self.is_leader == leader,
            decreases pipelines.len() - j,
        {
            proof {
                assert(pipelines@.take(j as int + 1).drop_last() =~= pipelines@.take(j as int));
                lemma_record_pipeline_loads(self.nodes@, pipelines@[j as int], 2 * (streams.len() + j));
            }
            let placement = pipelines[j].copy();
            self.pipeline_replicas.insert(placement.id, placement.copy());
            let ev = self.nodes.record_pipeline_replica(placement);
            if let Some(event) = ev {
                events.push(event);
            }
            proof {
                assert(events@ =~= stream_evs + pipeline_events(id, pipelines@.take(j as int + 1)));
            }
            j = j + 1;
        }
        proof {
            assert(pipelines@.take(pipelines.len() as int) =~= pipelines@);
        }
        events
    }

    /// Handle the event of a newly created stream replica.
    ///
    /// The replica is recorded in the table; a leader also queues a reconciliation task for it.
    pub fn handle_crc_stream_replica_created(&mut self, replica: StreamReplica) -> (task: Option<Task>)
        ensures
            final(self).stream_replicas@ == old(self).stream_replicas@.insert(replica.id, replica),
            task == (if old(self).is_leader { Some(Task::StreamReplicaCreated(replica)) } else { None }),
            final(self).id == old(self).id,
            final(self).is_leader == old(self).is_leader,
            final(self).nodes@ == old(self).nodes@,
            final(self).wait_list_streams@ == old(self).wait_list_streams@,
            final(self).pipeline_replicas@ == old(self).pipeline_replicas@,
            final(self).wait_list_pipelines@ == old(self).wait_list_pipelines@,
    {
        self.stream_replicas.insert(replica.id, replica.copy());
        if self.is_leader {
            Some(Task::StreamReplicaCreated(replica))
        } else {
            None
        }
    }

    /// Handle the event of a newly created pipeline replica: nothing is recorded yet.
    pub fn handle_crc_pipeline_replica_created(&mut self, _replica: PipelineReplica)
        ensures
            *final(self) == *old(self),
    {
    }

    /// Handle the event of an update to a stream replica's assignment.
    ///
    /// The replica's record is replaced, and its new assignment is recorded on the cluster's
    /// nodes; a scheduling event is emitted when it is placed on this node.
    pub fn handle_crc_stream_replica_assignment_update(&mut self, event: StreamReplicaAssignmentUpdated) -> (out: Option<CPCEvent>)
        requires
            old(self).wf(),
            old(self).nodes@.loads_bounded(),
        ensures
            final(self).wf(),
            final(self).stream_replicas@ == old(self).stream_replicas@.insert(event.replica.id, event.replica),
            match event.change {
                Assignment::InitialPlacement { node } => {
                    &&& final(self).nodes@ == old(self).nodes@.with_stream_replica(node, event.replica).sorted()
                    &&& out == (if node == old(self).id { Some(CPCEvent::StreamReplicaScheduled(event.replica)) } else { None })
                },
            },
            final(self).id == old(self).id,
            final(self).is_leader == old(self).is_leader,
            final(self).wait_list_streams@ == old(self).wait_list_streams@,
            final(self).pipeline_replicas@ == old(self).pipeline_replicas@,
            final(self).wait_list_pipelines@ == old(self).wait_list_pipelines@,
    {
        self.stream_replicas.insert(event.replica.id, event.replica.copy());
        self.nodes.update_stream_replica_assignment(event.change, event.replica)
    }

    /// Handle an event coming from the cluster Raft.
    pub fn handle_crc_event(&mut self, event: CRCEvent) -> (out: EventOutcome)
        requires
            old(self).wf(),
            old(self).nodes@.loads_bounded(),
            event matches CRCEvent::Initial(initial) ==>
                2 * (initial.stream_replicas.len() + initial.pipeline_replicas.len()) + 2 <= u64::MAX,
        ensures
            final(self).wf(),
            match event {
                CRCEvent::Initial(initial) => {
                    let cleared = ClusterNodesView { id: old(self).id, nodes: Map::empty(), load_order: Seq::empty() };
                    &&& final(self).nodes@ == record_pipelines(record_streams(cleared, initial.stream_replicas@), initial.pipeline_replicas@)
                    &&& out.events@ == stream_events(old(self).id, initial.stream_replicas@)
                        + pipeline_events(old(self).id, initial.pipeline_replicas@)
                    &&& out.task is None
                    &&& final(self).stream_replicas@ == stream_table(initial.stream_replicas@)
                    &&& final(self).pipeline_replicas@ == pipeline_table(initial.pipeline_replicas@)
                },
                CRCEvent::StreamReplicaCreated(replica) => {
                    &&& final(self).nodes@ == old(self).nodes@
                    &&& final(self).stream_replicas@ == old(self).stream_replicas@.insert(replica.id, replica)
                    &&& out.events@ == Seq::<CPCEvent>::empty()
                    &&& out.task == (if old(self).is_leader { Some(Task::StreamReplicaCreated(replica)) } else { None })
                },
                CRCEvent::StreamReplicaAssignmentUpdated(ev) => match ev.change {
                    Assignment::InitialPlacement { node } => {
                        &&& final(self).nodes@ == old(self).nodes@.with_stream_replica(node, ev.replica).sorted()
                        &&& final(self).stream_replicas@ == old(self).stream_replicas@.insert(ev.replica.id, ev.replica)
                        &&& out.events@ == (if node == old(self).id {
                            seq![CPCEvent::StreamReplicaScheduled(ev.replica)]
                        } else {
                            Seq::<CPCEvent>::empty()
                        })
                        &&& out.task is None
                    },
                },
                _ => {
                    &&& final(self).nodes@ == old(self).nodes@
                    &&& final(self).stream_replicas@ == old(self).stream_replicas@
                    &&& final(self).pipeline_replicas@ == old(self).pipeline_replicas@
                    &&& out.events@ == Seq::<CPCEvent>::empty()
                    &&& out.task is None
                },
            },
            final(self).id == old(self).id,
            final(self).is_leader == old(self).is_leader,
            final(self).wait_list_streams@ == old(self).wait_list_streams@,
            final(self).wait_list_pipelines@ == old(self).wait_list_pipelines@,
    {
        match event {
            CRCEvent::Initial(inner) => {
                let events = self.handle_crc_initial(inner);
                EventOutcome { events, task: None }
            },
            CRCEvent::StreamReplicaCreated(replica) => {
                let task = self.handle_crc_stream_replica_created(replica);
                EventOutcome { events: Vec::new(), task }
            },
            CRCEvent::StreamReplicaAssignmentUpdated(ev) => {
                let mut events = Vec::new();
                if let Some(e) = self.handle_crc_stream_replica_assignment_update(ev) {
                    events.push(e);
                }
                EventOutcome { events, task: None }
            },
            CRCEvent::PipelineReplicaCreated(replica) => {
                self.handle_crc_pipeline_replica_created(replica);
                EventOutcome { events: Vec::new(), task: None }
            },
            _ => EventOutcome { events: Vec::new(), task: None },
        }
    }

    /// Reconcile the initial creation of a stream replica: place it, or add it to the wait list.
    pub fn reconcile_stream_replica_created(&mut self, replica: StreamReplica) -> (placement: Option<Placement>)
        requires
            old(self).wf(),
            old(self).nodes@.loads_bounded(),
        ensures
            final(self).wf(),
            final(self).nodes@ == old(self).nodes@.assign_stream(replica).0,
            match old(self).nodes@.assign_stream(replica).1 {
                Some(node) => {
                    &&& placement == Some((Assignment::InitialPlacement { node }, replica))
                    &&& final(self).wait_list_streams@ == old(self).wait_list_streams@
                },
                None => {
                    &&& placement is None
                    &&& final(self).wait_list_streams@ == old(self).wait_list_streams@.insert(replica.id, replica)
                },
            },
            final(self).id == old(self).id,
            final(self).is_leader == old(self).is_leader,
            final(self).stream_replicas@ == old(self).stream_replicas@,
            final(self).pipeline_replicas@ == old(self).pipeline_replicas@,
            final(self).wait_list_pipelines@ == old(self).wait_list_pipelines@,
    {
        proof {
            crate::placement::lemma_assign_stream_wf(self.nodes@, replica);
        }
        let node = self.nodes.assign_stream_replica(replica.copy());
        match node {
            Some(node) => Some((Assignment::InitialPlacement { node }, replica)),
            None => {
                self.wait_list_streams.insert(replica.id, replica);
                None
            },
        }
    }

    /// Perform an initial reconciliation pass.
    ///
    /// The node table is brought up to date with the cluster's members; then each replica of the
    /// table which has neither a current nor an aspired node is placed, in the order in which the
    /// table yields them, or added to the wait list when no node can take it.
    pub fn reconcile_initial(&mut self, members: &[NodeId]) -> (placements: Vec<Placement>)
        requires
            old(self).wf(),
            old(self).stream_replicas@.len() + 2 <= u64::MAX,
            loads_at_most(old(self).nodes@, u64::MAX - 2 - old(self).stream_replicas@.len()),
        ensures
            final(self).wf(),
            exists|order: Seq<StreamReplica>| {
                &&& order.to_set() == old(self).stream_replicas@.values()
                &&& order.len() == old(self).stream_replicas@.len()
                &&& (final(self).nodes@, final(self).wait_list_streams@, placements@) == place_unplaced(
                    old(self).nodes@.add_nodes(members@),
                    old(self).wait_list_streams@,
                    order,
                )
            },
            final(self).id == old(self).id,
            final(self).is_leader == old(self).is_leader,
            final(self).stream_replicas@ == old(self).stream_replicas@,
            final(self).pipeline_replicas@ == old(self).pipeline_replicas@,
            final(self).wait_list_pipelines@ == old(self).wait_list_pipelines@,
    {
        let ghost b = u64::MAX - 2 - self.stream_replicas@.len();
        proof {
            crate::placement::lemma_add_nodes_wf(self.nodes@, members@);
            lemma_add_nodes_loads(self.nodes@, members@, b);
        }
        self.nodes.update_nodes(members);
        let ghost start_nodes = self.nodes@;
        let ghost start_wait = self.wait_list_streams@;
        let ghost m = self.stream_replicas@;
        let ghost pipes = self.pipeline_replicas@;
        let ghost wait_pipes = self.wait_list_pipelines@;
        let ghost leader = self.is_leader;
        let mut placements: Vec<Placement> = Vec::new();
        let ghost mut seen: Seq<StreamReplica> = Seq::empty();
        for replica in it: self.stream_replicas.values()
            invariant
                m == self.stream_replicas@,
                it.seq().unref().to_set() == m.values(),
                it.seq().len() == m.len(),
                seen == it.seq().unref().take(it.index() as int),
                it.index() == it.seq().len() ==> seen =~= it.seq().unref(),
                start_nodes.wf(),
                self.id == start_nodes.id,
                self.pipeline_replicas@ == pipes,
                self.wait_list_pipelines@ == wait_pipes,
                self.is_leader == leader,
                loads_at_most(start_nodes, b),
                b + m.len() + 2 <= u64::MAX,
                b >= 0,
                (self.nodes@, self.wait_list_streams@, placements@) == place_unplaced(start_nodes, start_wait, seen),
        {
            proof {
                assert(it.seq().unref().take(it.index() as int + 1) =~= seen.push(*replica));
                lemma_place_unplaced_wf(start_nodes, start_wait, seen, b);
                assert(seen.push(*replica).drop_last() =~= seen);
                seen = seen.push(*replica);
            }
            if replica.current_node.is_none() && replica.aspired_node.is_none() {
                match self.nodes.assign_stream_replica(replica.copy()) {
                    Some(node) => {
                        placements.push((Assignment::InitialPlacement { node }, replica.copy()));
                    },
                    None => {
                        self.wait_list_streams.insert(replica.id, replica.copy());
                    },
                }
            }
        }
        proof {
            lemma_place_unplaced_wf(start_nodes, start_wait, seen, b);
        }
        placements
    }
}

} // verus!
