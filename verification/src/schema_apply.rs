//! Applying a schema update to the cluster Raft controller's state machine: what it writes to the
//! state tree, what it changes in the index, and the events it emits.

use vstd::prelude::*;
use vstd::string::StringExecFns;

use crate::codec::{be_bytes, encode_u64};
use crate::crc::{lemma_repeated_managed_update_is_noop, schema_update_applied, UpdateSchemaResponse};
use crate::events::{CRCEvent, StreamCreated};
use crate::index::{apply_ops, CRCIndex, CRCIndexView, IndexWriteBatch, IndexWriteOp};
use crate::placement::{PipelineReplica, StreamReplica};
use crate::schema::{ControlGroup, Namespace, Pipeline, SchemaStatement, SchemaUpdate, Stream, WithId};
use crate::schema_keys::{
    is_statement_write, is_update_write, plan_schema_update, statement_exists, statements_ids, update_statements, SchemaWrite,
    StatementWrite,
};

verus! {

//////////////////////////////////////////////////////////////////////////////////////////////////
// Index operations and events ///////////////////////////////////////////////////////////////////

/// The key under which the index of the last applied Raft log entry is kept.
pub open spec fn last_applied_key_spec() -> Seq<char> {
    "/meta/last_applied_log"@
}

/// The key under which the index of the last applied Raft log entry is kept.
pub fn last_applied_key() -> (s: String)
    ensures
        s@ == last_applied_key_spec(),
{
    String::from_str("/meta/last_applied_log")
}

/// The index operations of one statement: the insertion of its object, under the ID given, where
/// the index does not hold the object yet; nothing otherwise.
pub open spec fn statement_index_ops(idx: CRCIndexView, st: SchemaStatement, oid: u64) -> Seq<IndexWriteOp> {
    if statement_exists(idx, st) {
        Seq::empty()
    } else {
        match st {
            SchemaStatement::Namespace(ns) => seq![IndexWriteOp::InsertNamespace(WithId { id: oid, model: ns })],
            SchemaStatement::Stream(s) => seq![IndexWriteOp::InsertStream(WithId { id: oid, model: s })],
            SchemaStatement::Pipeline(p) => seq![IndexWriteOp::InsertPipeline(WithId { id: oid, model: p })],
        }
    }
}

/// The index operations of a list of statements, in order, the `i`th taking the `i`th object ID.
pub open spec fn statements_index_ops(idx: CRCIndexView, sts: Seq<SchemaStatement>, oids: Seq<u64>) -> Seq<IndexWriteOp>
    decreases sts.len(),
{
    if sts.len() == 0 {
        Seq::empty()
    } else {
        statements_index_ops(idx, sts.drop_last(), oids) + statement_index_ops(idx, sts.last(), oids[sts.len() - 1])
    }
}

/// The index operations of a schema update: those of its statements, then, for a managed update,
/// the record of its branch at its timestamp.
pub open spec fn update_index_ops(idx: CRCIndexView, update: SchemaUpdate, oids: Seq<u64>) -> Seq<IndexWriteOp> {
    let ops = statements_index_ops(idx, update_statements(update), oids);
    match update {
        SchemaUpdate::Managed { branch, timestamp, .. } => ops.push(IndexWriteOp::UpdateSchemaBranch { branch, timestamp }),
        SchemaUpdate::OneOff { .. } => ops,
    }
}

/// Whether a statement's events are the ones its write calls for: a new stream is announced, with
/// its replica records and no control group; each replica record of a new pipeline is announced;
/// nothing else emits an event.
pub open spec fn is_statement_events(evs: Seq<CRCEvent>, w: StatementWrite, st: SchemaStatement, oid: u64) -> bool {
    match w {
        StatementWrite::Stream { replicas, .. } => match st {
            SchemaStatement::Stream(s) => evs.len() == 1 && (evs[0] matches CRCEvent::StreamCreated(c) && {
                &&& c.stream == (WithId { id: oid, model: s })
                &&& c.replicas@ == replicas@.map_values(|r: (String, StreamReplica)| r.1)
                &&& c.control_groups@.len() == 0
            }),
            _ => false,
        },
        StatementWrite::Pipeline { replicas, .. } =>
            evs == replicas@.map_values(|r: (String, PipelineReplica)| CRCEvent::PipelineReplicaCreated(r.1)),
        _ => evs.len() == 0,
    }
}

fn copy_namespace(ns: &Namespace) -> (c: Namespace)
    ensures
        c == *ns,
{
    Namespace { name: ns.name.clone(), description: ns.description.clone() }
}

fn copy_stream(s: &Stream) -> (c: Stream)
    ensures
        c == *s,
{
    Stream { namespace: s.namespace.clone(), name: s.name.clone(), partitions: s.partitions, replication_factor: s.replication_factor }
}

fn copy_pipeline(p: &Pipeline) -> (c: Pipeline)
    ensures
        c == *p,
{
    Pipeline {
        namespace: p.namespace.clone(),
        name: p.name.clone(),
        trigger_stream: p.trigger_stream.clone(),
        replication_factor: p.replication_factor,
    }
}

fn copy_stream_replica(r: &StreamReplica) -> (c: StreamReplica)
    ensures
        c == *r,
{
    StreamReplica {
        id: r.id,
        namespace: r.namespace.clone(),
        name: r.name.clone(),
        partition: r.partition,
        replica: r.replica,
        current_node: r.current_node,
        aspired_node: r.aspired_node,
    }
}

fn copy_pipeline_replica(r: &PipelineReplica) -> (c: PipelineReplica)
    ensures
        c == *r,
{
    PipelineReplica {
        id: r.id,
        namespace: r.namespace.clone(),
        name: r.name.clone(),
        replica: r.replica,
        current_node: r.current_node,
        aspired_node: r.aspired_node,
    }
}

/// The events of a new stream: its announcement, with its replica records.
fn stream_created(stream: WithId<Stream>, replicas: &Vec<(String, StreamReplica)>) -> (e: CRCEvent)
    ensures
        e matches CRCEvent::StreamCreated(c) && {
            &&& c.stream == stream
            &&& c.replicas@ == replicas@.map_values(|r: (String, StreamReplica)| r.1)
            &&& c.control_groups@.len() == 0
        },
{
    let mut recs: Vec<StreamReplica> = Vec::new();
    let mut k: usize = 0;
    while k < replicas.len()
        invariant
            k <= replicas.len(),
            recs@ == replicas@.take(k as int).map_values(|r: (String, StreamReplica)| r.1),
        decreases replicas.len() - k,
    {
        recs.push(copy_stream_replica(&replicas[k].1));
        proof {
            assert(replicas@.take(k as int + 1).map_values(|r: (String, StreamReplica)| r.1)
                =~= replicas@.take(k as int).map_values(|r: (String, StreamReplica)| r.1).push(replicas@[k as int].1));
        }
        k = k + 1;
    }
    proof {
        assert(replicas@.take(replicas@.len() as int) =~= replicas@);
    }
    let control_groups: Vec<ControlGroup> = Vec::new();
    CRCEvent::StreamCreated(StreamCreated { stream, replicas: recs, control_groups })
}

/// The events of a new pipeline: the announcement of each of its replica records.
fn pipeline_replicas_created(replicas: &Vec<(String, PipelineReplica)>) -> (evs: Vec<CRCEvent>)
    ensures
        evs@ == replicas@.map_values(|r: (String, PipelineReplica)| CRCEvent::PipelineReplicaCreated(r.1)),
{
    let mut evs: Vec<CRCEvent> = Vec::new();
    let mut k: usize = 0;
    while k < replicas.len()
        invariant
            k <= replicas.len(),
            evs@ == replicas@.take(k as int).map_values(|r: (String, PipelineReplica)| CRCEvent::PipelineReplicaCreated(r.1)),
        decreases replicas.len() - k,
    {
        evs.push(CRCEvent::PipelineReplicaCreated(copy_pipeline_replica(&replicas[k].1)));
        proof {
            assert(replicas@.take(k as int + 1).map_values(|r: (String, PipelineReplica)| CRCEvent::PipelineReplicaCreated(r.1))
                =~= replicas@.take(k as int).map_values(|r: (String, PipelineReplica)| CRCEvent::PipelineReplicaCreated(r.1))
                    .push(CRCEvent::PipelineReplicaCreated(replicas@[k as int].1)));
        }
        k = k + 1;
    }
    proof {
        assert(replicas@.take(replicas@.len() as int) =~= replicas@);
    }
    evs
}

//////////////////////////////////////////////////////////////////////////////////////////////////
// Application ///////////////////////////////////////////////////////////////////////////////////

/// What applying a schema update writes to the state tree: the index of the applied log entry
/// under its key, then the plan's writes.
#[derive(Debug)]
pub struct SchemaStateWrite {
    pub last_applied_key: String,
    pub last_applied_value: Vec<u8>,
    pub write: SchemaWrite,
}

/// What applying a schema update does, besides its changes to the index.
#[derive(Debug)]
pub struct SchemaApplication {
    /// The answer to the update.
    pub response: UpdateSchemaResponse,
    /// The writes to the state tree; none for a no-op.
    pub state: Option<SchemaStateWrite>,
    /// The events of each statement of the update, in order; none for a no-op.
    pub events: Vec<Vec<CRCEvent>>,
}

/// Apply a schema update, the Raft log entry at `log_index`, to the state machine, given fresh
/// IDs for the replicas of its new objects (`ids`) and an ID for the object of each statement
/// (`object_ids`).
///
/// A managed update whose branch was last applied at its timestamp or later is a no-op: it is
/// answered as such, writes nothing, emits nothing and leaves the index alone. Otherwise the
/// update is planned (see `plan_schema_update`), the log index is recorded, the objects which the
/// index does not hold yet are inserted into it, a managed update's branch is recorded at its
/// timestamp, and the events of the new objects are emitted.
pub fn apply_update_schema(index: &mut CRCIndex, log_index: u64, update: &SchemaUpdate, ids: &[u64], object_ids: &[u64]) -> (a: SchemaApplication)
    requires
        old(index).wf(),
        !schema_update_applied(old(index)@.schema_branches, *update) ==> {
            &&& ids.len() >= statements_ids(old(index)@, update_statements(*update))
            &&& object_ids.len() >= update_statements(*update).len()
        },
    ensures
        final(index).wf(),
        a.response.was_noop == schema_update_applied(old(index)@.schema_branches, *update),
        a.response.was_noop ==> a.state is None && a.events.len() == 0 && final(index)@ == old(index)@,
        !a.response.was_noop ==> {
            &&& final(index)@ == apply_ops(old(index)@, update_index_ops(old(index)@, *update, object_ids@))
            &&& a.state matches Some(s) && {
                &&& s.last_applied_key@ == last_applied_key_spec()
                &&& s.last_applied_value@ == be_bytes(log_index)
                &&& !s.write.was_noop
                &&& is_update_write(s.write, old(index)@, *update, ids@)
                &&& a.events.len() == update_statements(*update).len()
                &&& forall|i: int| 0 <= i < a.events.len() ==> #[trigger] is_statement_events(a.events@[i]@,
                    s.write.statements@[i], update_statements(*update)[i], object_ids@[i])
            }
        },
{
    let plan = plan_schema_update(index, update, ids);
    if plan.was_noop {
        return SchemaApplication { response: UpdateSchemaResponse { was_noop: true }, state: None, events: Vec::new() };
    }
    let statements = match update {
        SchemaUpdate::Managed { statements, .. } => statements,
        SchemaUpdate::OneOff { statements } => statements,
    };
    let ghost v = index@;
    let ghost sts = statements@;
    let ghost oids = object_ids@;
    let mut batch = IndexWriteBatch::new();
    let mut events: Vec<Vec<CRCEvent>> = Vec::new();
    let mut i: usize = 0;
    while i < statements.len()
        invariant
            i <= statements.len(),
            index@ == v,
            sts == statements@,
            sts == update_statements(*update),
            oids == object_ids@,
            object_ids.len() >= sts.len(),
            is_update_write(plan, v, *update, ids@),
            batch.ops@ == statements_index_ops(v, sts.take(i as int), oids),
            events.len() == i,
            forall|j: int| 0 <= j < i ==> #[trigger] is_statement_events(events@[j]@, plan.statements@[j], sts[j], oids[j]),
        decreases statements.len() - i,
    {
        let oid = object_ids[i];
        let ghost before = batch.ops@;
        proof {
            assert(sts.take(i as int + 1).drop_last() =~= sts.take(i as int));
            assert(sts.take(i as int + 1).last() == sts[i as int]);
            assert(is_statement_write(plan.statements@[i as int], v, sts[i as int], ids@,
                statements_ids(v, sts.take(i as int)) as int));
        }
        let evs: Vec<CRCEvent> = match &plan.statements[i] {
            StatementWrite::Exists => {
                proof {
                    assert(statement_index_ops(v, sts[i as int], oid) =~= Seq::<IndexWriteOp>::empty());
                }
                Vec::new()
            },
            StatementWrite::Namespace { .. } => match &statements[i] {
                SchemaStatement::Namespace(ns) => {
                    batch.push(IndexWriteOp::InsertNamespace(WithId { id: oid, model: copy_namespace(ns) }));
                    Vec::new()
                },
                _ => {
                    proof {
                        assert(false);
                    }
                    Vec::new()
                },
            },
            StatementWrite::Stream { replicas, .. } => match &statements[i] {
                SchemaStatement::Stream(s) => {
                    batch.push(IndexWriteOp::InsertStream(WithId { id: oid, model: copy_stream(s) }));
                    let e = stream_created(WithId { id: oid, model: copy_stream(s) }, replicas);
                    let mut evs: Vec<CRCEvent> = Vec::new();
                    evs.push(e);
                    evs
                },
                _ => {
                    proof {
                        assert(false);
                    }
                    Vec::new()
                },
            },
            StatementWrite::Pipeline { replicas, .. } => match &statements[i] {
                SchemaStatement::Pipeline(p) => {
                    batch.push(IndexWriteOp::InsertPipeline(WithId { id: oid, model: copy_pipeline(p) }));
                    pipeline_replicas_created(replicas)
                },
                _ => {
                    proof {
                        assert(false);
                    }
                    Vec::new()
                },
            },
        };
        proof {
            assert(batch.ops@ =~= before + statement_index_ops(v, sts[i as int], oids[i as int]));
            assert(is_statement_events(evs@, plan.statements@[i as int], sts[i as int], oids[i as int]));
        }
        let ghost evs_before = events@;
        events.push(evs);
        proof {
            assert forall|j: int| 0 <= j < i + 1 implies #[trigger] is_statement_events(events@[j]@, plan.statements@[j], sts[j], oids[j]) by {
                if j < i {
                    assert(events@[j] == evs_before[j]);
                }
            }
        }
        i = i + 1;
    }
    proof {
        assert(sts.take(sts.len() as int) =~= sts);
    }
    match update {
        SchemaUpdate::Managed { branch, timestamp, .. } => {
            batch.push(IndexWriteOp::UpdateSchemaBranch { branch: branch.clone(), timestamp: *timestamp });
        },
        SchemaUpdate::OneOff { .. } => {},
    }
    let _ = index.apply_batch(batch);
    let state = SchemaStateWrite { last_applied_key: last_applied_key(), last_applied_value: encode_u64(log_index), write: plan };
    SchemaApplication { response: UpdateSchemaResponse { was_noop: false }, state: Some(state), events }
}

/// Applying a managed schema update a second time, after it was applied once, is a no-op: the
/// index that the first application leaves counts the update as applied, so that
/// `apply_update_schema` answers the second with `was_noop`, writes nothing to the state tree,
/// emits no event and leaves the index as it is.
pub proof fn lemma_schema_update_applied_twice(v: CRCIndexView, update: SchemaUpdate, object_ids: Seq<u64>)
    requires
        update matches SchemaUpdate::Managed { .. },
    ensures
        schema_update_applied(apply_ops(v, update_index_ops(v, update, object_ids)).schema_branches, update),
{
    let first = statements_index_ops(v, update_statements(update), object_ids);
    lemma_repeated_managed_update_is_noop(v, update, first, Seq::empty());
    let applied = apply_ops(v, first.push(IndexWriteOp::UpdateSchemaBranch {
        branch: update->Managed_branch,
        timestamp: update->Managed_timestamp,
    }));
    assert(apply_ops(applied, Seq::<IndexWriteOp>::empty()) == applied);
}

} // verus!
