//! How a schema update lays the cluster's objects out in the Raft state machine: the keys of
//! each object's model, and the replica records that a new stream or pipeline brings.

use vstd::prelude::*;
use vstd::string::StringExecFns;

use crate::codec::{decimal, u64_to_decimal};
use crate::crc::schema_update_applied;
use crate::index::{CRCIndex, CRCIndexView, name_hash};
use crate::placement::{PipelineReplica, StreamReplica};
use crate::schema::{Pipeline, SchemaStatement, SchemaUpdate, Stream};

verus! {

//////////////////////////////////////////////////////////////////////////////////////////////////
// Keys //////////////////////////////////////////////////////////////////////////////////////////

/// The key of a namespace's model: `/namespaces/{name}`.
pub open spec fn namespace_key_spec(name: Seq<char>) -> Seq<char> {
    "/namespaces/"@ + name
}

/// The key of a stream's model: `/streams/{namespace}/{name}`.
pub open spec fn stream_key_spec(ns: Seq<char>, name: Seq<char>) -> Seq<char> {
    "/streams/"@ + ns + "/"@ + name
}

/// The key of a stream replica's model: `/stream_replicas/{namespace}/{name}/{partition}/{replica}`.
pub open spec fn stream_replica_key_spec(ns: Seq<char>, name: Seq<char>, partition: u32, replica: u8) -> Seq<char> {
    "/stream_replicas/"@ + ns + "/"@ + name + "/"@ + decimal(partition as nat) + "/"@ + decimal(replica as nat)
}

/// The key of a pipeline's model: `/pipelines/{namespace}/{name}`.
pub open spec fn pipeline_key_spec(ns: Seq<char>, name: Seq<char>) -> Seq<char> {
    "/pipelines/"@ + ns + "/"@ + name
}

/// The key of a pipeline replica's model: `/pipeline_replicas/{namespace}/{name}/{replica}`.
pub open spec fn pipeline_replica_key_spec(ns: Seq<char>, name: Seq<char>, replica: u8) -> Seq<char> {
    "/pipeline_replicas/"@ + ns + "/"@ + name + "/"@ + decimal(replica as nat)
}

/// The key of a schema branch's model: `/branches/{branch}`.
pub open spec fn branch_key_spec(branch: Seq<char>) -> Seq<char> {
    "/branches/"@ + branch
}

/// The key of a namespace's model.
pub fn namespace_key(name: &str) -> (s: String)
    ensures
        s@ == namespace_key_spec(name@),
{
    let mut s = String::from_str("/namespaces/");
    s.append(name);
    s
}

/// The key of a stream's model.
pub fn stream_key(ns: &str, name: &str) -> (s: String)
    ensures
        s@ == stream_key_spec(ns@, name@),
{
    let mut s = String::from_str("/streams/");
    s.append(ns);
    s.append("/");
    s.append(name);
    s
}

/// The key of a stream replica's model.
pub fn stream_replica_key(ns: &str, name: &str, partition: u32, replica: u8) -> (s: String)
    ensures
        s@ == stream_replica_key_spec(ns@, name@, partition, replica),
{
    let mut s = String::from_str("/stream_replicas/");
    s.append(ns);
    s.append("/");
    s.append(name);
    s.append("/");
    let p = u64_to_decimal(partition as u64);
    s.append(p.as_str());
    s.append("/");
    let r = u64_to_decimal(replica as u64);
    s.append(r.as_str());
    s
}

/// The key of a pipeline's model.
pub fn pipeline_key(ns: &str, name: &str) -> (s: String)
    ensures
        s@ == pipeline_key_spec(ns@, name@),
{
    let mut s = String::from_str("/pipelines/");
    s.append(ns);
    s.append("/");
    s.append(name);
    s
}

/// The key of a pipeline replica's model.
pub fn pipeline_replica_key(ns: &str, name: &str, replica: u8) -> (s: String)
    ensures
        s@ == pipeline_replica_key_spec(ns@, name@, replica),
{
    let mut s = String::from_str("/pipeline_replicas/");
    s.append(ns);
    s.append("/");
    s.append(name);
    s.append("/");
    let r = u64_to_decimal(replica as u64);
    s.append(r.as_str());
    s
}

/// The key of a schema branch's model.
pub fn branch_key(branch: &str) -> (s: String)
    ensures
        s@ == branch_key_spec(branch@),
{
    let mut s = String::from_str("/branches/");
    s.append(branch);
    s
}

//////////////////////////////////////////////////////////////////////////////////////////////////
// Replica records ///////////////////////////////////////////////////////////////////////////////

/// Whether a record is the one of the replica with the given ID and offsets of a stream, not yet
/// placed, under its key.
pub open spec fn is_stream_replica_record(rec: (String, StreamReplica), stream: Stream, id: u64, partition: u32, replica: u8) -> bool {
    &&& rec.0@ == stream_replica_key_spec(stream.namespace@, stream.name@, partition, replica)
    &&& rec.1.id == id
    &&& rec.1.namespace@ == stream.namespace@
    &&& rec.1.name@ == stream.name@
    &&& rec.1.partition == partition
    &&& rec.1.replica == replica
    &&& rec.1.current_node is None
    &&& rec.1.aspired_node is None
}

/// The replica records of a new stream: one for each replica offset of each partition, partition
/// by partition, each taking the next of the IDs given.
pub fn stream_replica_records(stream: &Stream, ids: &[u64]) -> (recs: Vec<(String, StreamReplica)>)
    requires
        ids.len() == stream.partitions as int * stream.replication_factor as int,
    ensures
        recs.len() == ids.len(),
        forall|p: int, r: int| 0 <= p < stream.partitions && 0 <= r < stream.replication_factor ==>
            #[trigger] is_stream_replica_record(recs@[p * stream.replication_factor + r], *stream,
                ids@[p * stream.replication_factor + r], p as u32, r as u8),
{
    let rf = stream.replication_factor;
    let mut recs: Vec<(String, StreamReplica)> = Vec::new();
    let mut partition: u32 = 0;
    while partition < stream.partitions
        invariant
            partition <= stream.partitions,
            rf == stream.replication_factor,
            ids.len() == stream.partitions as int * rf as int,
            recs.len() == partition as int * rf as int,
            forall|p: int, r: int| 0 <= p < partition && 0 <= r < rf ==>
                #[trigger] is_stream_replica_record(recs@[p * rf + r], *stream, ids@[p * rf + r], p as u32, r as u8),
        decreases stream.partitions - partition,
    {
        let mut replica: u8 = 0;
        while replica < rf
            invariant
                partition < stream.partitions,
                replica <= rf,
                rf == stream.replication_factor,
                ids.len() == stream.partitions as int * rf as int,
                recs.len() == partition as int * rf as int + replica as int,
                forall|p: int, r: int| 0 <= p < partition && 0 <= r < rf ==>
                    #[trigger] is_stream_replica_record(recs@[p * rf + r], *stream, ids@[p * rf + r], p as u32, r as u8),
                forall|r: int| 0 <= r < replica ==>
                    #[trigger] is_stream_replica_record(recs@[partition * rf + r], *stream, ids@[partition * rf + r], partition, r as u8),
            decreases rf - replica,
        {
            let i: usize = recs.len();
            assert(i < ids.len()) by (nonlinear_arith)
                requires
                    i == partition as int * rf as int + replica as int,
                    replica < rf,
                    partition < stream.partitions,
                    ids.len() == stream.partitions as int * rf as int,
            {
            }
            let key = stream_replica_key(stream.namespace.as_str(), stream.name.as_str(), partition, replica);
            let rec = StreamReplica::new(ids[i], stream.namespace.as_str(), stream.name.as_str(), partition, replica);
            let ghost before = recs@;
            recs.push((key, rec));
            proof {
                assert forall|p: int, r: int| 0 <= p < partition && 0 <= r < rf implies
                    #[trigger] is_stream_replica_record(recs@[p * rf + r], *stream, ids@[p * rf + r], p as u32, r as u8) by {
                    assert(p * rf + r < partition as int * rf as int) by (nonlinear_arith)
                        requires
                            0 <= p < partition,
                            0 <= r < rf,
                    {
                    }
                    assert(recs@[p * rf + r] == before[p * rf + r]);
                }
                assert forall|r: int| 0 <= r < replica + 1 implies
                    #[trigger] is_stream_replica_record(recs@[partition * rf + r], *stream, ids@[partition * rf + r], partition, r as u8) by {
                    if r < replica {
                        assert(recs@[partition * rf + r] == before[partition * rf + r]);
                    }
                }
            }
            replica = replica + 1;
        }
        proof {
            assert(recs.len() == (partition as int + 1) * rf as int) by (nonlinear_arith)
                requires
                    recs.len() == partition as int * rf as int + rf as int,
            {
            }
            assert forall|p: int, r: int| 0 <= p < partition + 1 && 0 <= r < rf implies
                #[trigger] is_stream_replica_record(recs@[p * rf + r], *stream, ids@[p * rf + r], p as u32, r as u8) by {
                if p == partition {
                    assert(is_stream_replica_record(recs@[partition * rf + r], *stream, ids@[partition * rf + r], partition, r as u8));
                }
            }
        }
        partition = partition + 1;
    }
    recs
}

/// Whether a record is the one of the replica with the given ID and offset of a pipeline, not
/// yet placed, under its key.
pub open spec fn is_pipeline_replica_record(rec: (String, PipelineReplica), pipeline: Pipeline, id: u64, replica: u8) -> bool {
    &&& rec.0@ == pipeline_replica_key_spec(pipeline.namespace@, pipeline.name@, replica)
    &&& rec.1.id == id
    &&& rec.1.namespace@ == pipeline.namespace@
    &&& rec.1.name@ == pipeline.name@
    &&& rec.1.replica == replica
    &&& rec.1.current_node is None
    &&& rec.1.aspired_node is None
}

/// The replica records of a new pipeline: one for each replica offset, each taking the next of
/// the IDs given.
pub fn pipeline_replica_records(pipeline: &Pipeline, ids: &[u64]) -> (recs: Vec<(String, PipelineReplica)>)
    requires
        ids.len() == pipeline.replication_factor,
    ensures
        recs.len() == ids.len(),
        forall|r: int| 0 <= r < pipeline.replication_factor ==>
            #[trigger] is_pipeline_replica_record(recs@[r], *pipeline, ids@[r], r as u8),
{
    let mut recs: Vec<(String, PipelineReplica)> = Vec::new();
    let mut replica: u8 = 0;
    while replica < pipeline.replication_factor
        invariant
            replica <= pipeline.replication_factor,
            ids.len() == pipeline.replication_factor,
            recs.len() == replica,
            forall|r: int| 0 <= r < replica ==> #[trigger] is_pipeline_replica_record(recs@[r], *pipeline, ids@[r], r as u8),
        decreases pipeline.replication_factor - replica,
    {
        let key = pipeline_replica_key(pipeline.namespace.as_str(), pipeline.name.as_str(), replica);
        let rec = PipelineReplica::new(ids[replica as usize], pipeline.namespace.as_str(), pipeline.name.as_str(), replica);
        let ghost before = recs@;
        recs.push((key, rec));
        proof {
            assert forall|r: int| 0 <= r < replica + 1 implies #[trigger] is_pipeline_replica_record(recs@[r], *pipeline, ids@[r], r as u8) by {
                if r < replica {
                    assert(recs@[r] == before[r]);
                }
            }
        }
        replica = replica + 1;
    }
    recs
}

//////////////////////////////////////////////////////////////////////////////////////////////////
// Schema updates ////////////////////////////////////////////////////////////////////////////////

/// Whether the index already holds the object that a statement declares.
pub open spec fn statement_exists(idx: CRCIndexView, st: SchemaStatement) -> bool {
    match st {
        SchemaStatement::Namespace(ns) => idx.namespace_names.contains_key(ns.name@)
            && idx.namespaces.contains_key(idx.namespace_names[ns.name@]),
        SchemaStatement::Stream(s) => {
            let h = name_hash(s.namespace@, s.name@);
            idx.stream_names.contains_key(h) && idx.streams.contains_key(idx.stream_names[h])
        },
        SchemaStatement::Pipeline(p) => {
            let h = name_hash(p.namespace@, p.name@);
            idx.pipeline_names.contains_key(h) && idx.pipelines.contains_key(idx.pipeline_names[h])
        },
    }
}

/// How many new IDs a statement takes: one per replica of a new stream or pipeline.
pub open spec fn statement_ids(idx: CRCIndexView, st: SchemaStatement) -> nat {
    if statement_exists(idx, st) {
        0
    } else {
        match st {
            SchemaStatement::Namespace(_) => 0,
            SchemaStatement::Stream(s) => (s.partitions as int * s.replication_factor as int) as nat,
            SchemaStatement::Pipeline(p) => p.replication_factor as nat,
        }
    }
}

/// How many new IDs a list of statements takes.
pub open spec fn statements_ids(idx: CRCIndexView, sts: Seq<SchemaStatement>) -> nat
    decreases sts.len(),
{
    if sts.len() == 0 {
        0
    } else {
        statements_ids(idx, sts.drop_last()) + statement_ids(idx, sts.last())
    }
}

/// The statements of a schema update.
pub open spec fn update_statements(update: SchemaUpdate) -> Seq<SchemaStatement> {
    match update {
        SchemaUpdate::Managed { statements, .. } => statements@,
        SchemaUpdate::OneOff { statements } => statements@,
    }
}

/// What applying a statement writes.
#[derive(Debug)]
pub enum StatementWrite {
    /// The object already exists: nothing is written.
    Exists,
    /// A new namespace, written under its key.
    Namespace { key: String },
    /// A new stream, written under its key, along with its replica records.
    Stream { key: String, replicas: Vec<(String, StreamReplica)> },
    /// A new pipeline, written under its key, along with its replica records.
    Pipeline { key: String, replicas: Vec<(String, PipelineReplica)> },
}

/// Whether a statement's write is the one the statement calls for, its replicas taking the IDs
/// from position `first` of `ids` on.
pub open spec fn is_statement_write(w: StatementWrite, idx: CRCIndexView, st: SchemaStatement, ids: Seq<u64>, first: int) -> bool {
    if statement_exists(idx, st) {
        w is Exists
    } else {
        match st {
            SchemaStatement::Namespace(ns) => w matches StatementWrite::Namespace { key } && key@ == namespace_key_spec(ns.name@),
            SchemaStatement::Stream(s) => w matches StatementWrite::Stream { key, replicas } && {
                &&& key@ == stream_key_spec(s.namespace@, s.name@)
                &&& replicas.len() == s.partitions as int * s.replication_factor as int
                &&& forall|p: int, r: int| 0 <= p < s.partitions && 0 <= r < s.replication_factor ==>
                    #[trigger] is_stream_replica_record(replicas@[p * s.replication_factor + r], s,
                        ids[first + p * s.replication_factor + r], p as u32, r as u8)
            },
            SchemaStatement::Pipeline(pl) => w matches StatementWrite::Pipeline { key, replicas } && {
                &&& key@ == pipeline_key_spec(pl.namespace@, pl.name@)
                &&& replicas.len() == pl.replication_factor
                &&& forall|r: int| 0 <= r < pl.replication_factor ==>
                    #[trigger] is_pipeline_replica_record(replicas@[r], pl, ids[first + r], r as u8)
            },
        }
    }
}

/// What applying a schema update writes: nothing where it is a no-op; otherwise the write of
/// each statement, and the key of the branch's record for a managed update.
#[derive(Debug)]
pub struct SchemaWrite {
    pub was_noop: bool,
    pub statements: Vec<StatementWrite>,
    pub branch_key: Option<String>,
}

/// Whether a schema update's write is the one its statements call for: the write of each
/// statement, replicas taking the IDs in turn, and the key of the branch's record for a managed
/// update.
pub open spec fn is_update_write(w: SchemaWrite, idx: CRCIndexView, update: SchemaUpdate, ids: Seq<u64>) -> bool {
    &&& w.statements.len() == update_statements(update).len()
    &&& forall|i: int| 0 <= i < w.statements.len() ==> #[trigger] is_statement_write(w.statements@[i], idx,
        update_statements(update)[i], ids, statements_ids(idx, update_statements(update).take(i)) as int)
    &&& match update {
        SchemaUpdate::Managed { branch, .. } => w.branch_key matches Some(k) && k@ == branch_key_spec(branch@),
        SchemaUpdate::OneOff { .. } => w.branch_key is None,
    }
}

/// The number of new IDs that applying a schema update takes: one per replica of each new stream
/// and pipeline, none for a no-op.
pub fn schema_update_ids(index: &CRCIndex, update: &SchemaUpdate) -> (n: u64)
    requires
        index.wf(),
        statements_ids(index@, update_statements(*update)) <= u64::MAX,
    ensures
        n == (if schema_update_applied(index@.schema_branches, *update) { 0 } else {
            statements_ids(index@, update_statements(*update))
        }),
{
    if crate::crc::is_schema_update_noop(index, update) {
        return 0;
    }
    let statements = match update {
        SchemaUpdate::Managed { statements, .. } => statements,
        SchemaUpdate::OneOff { statements } => statements,
    };
    let mut n: u64 = 0;
    let mut i: usize = 0;
    while i < statements.len()
        invariant
            i <= statements.len(),
            index.wf(),
            statements@ == update_statements(*update),
            statements_ids(index@, statements@) <= u64::MAX,
            n == statements_ids(index@, statements@.take(i as int)),
        decreases statements.len() - i,
    {
        proof {
            assert(statements@.take(i as int + 1).drop_last() =~= statements@.take(i as int));
            lemma_statements_ids_prefix(index@, statements@, i as int + 1);
        }
        let more: u64 = if statement_exists_exec(index, &statements[i]) {
            0
        } else {
            match &statements[i] {
                SchemaStatement::Namespace(_) => 0,
                SchemaStatement::Stream(s) => s.partitions as u64 * s.replication_factor as u64,
                SchemaStatement::Pipeline(p) => p.replication_factor as u64,
            }
        };
        n = n + more;
        i = i + 1;
    }
    proof {
        assert(statements@.take(statements@.len() as int) =~= statements@);
    }
    n
}

proof fn lemma_statements_ids_prefix(idx: CRCIndexView, sts: Seq<SchemaStatement>, i: int)
    requires
        0 <= i <= sts.len(),
    ensures
        statements_ids(idx, sts.take(i)) <= statements_ids(idx, sts),
    decreases sts.len() - i,
{
    if i < sts.len() {
        lemma_statements_ids_prefix(idx, sts, i + 1);
        assert(sts.take(i + 1).drop_last() =~= sts.take(i));
    } else {
        assert(sts.take(i) =~= sts);
    }
}

fn statement_exists_exec(index: &CRCIndex, st: &SchemaStatement) -> (b: bool)
    requires
        index.wf(),
    ensures
        b == statement_exists(index@, *st),
{
    match st {
        SchemaStatement::Namespace(ns) => index.get_namespace(ns.name.as_str()).is_some(),
        SchemaStatement::Stream(s) => index.get_stream(s.namespace.as_str(), s.name.as_str()).is_some(),
        SchemaStatement::Pipeline(p) => index.get_pipeline(p.namespace.as_str(), p.name.as_str()).is_some(),
    }
}

/// Plan what applying a schema update to the state machine writes, given fresh IDs for the
/// replicas of its new objects.
///
/// A managed update whose branch was last applied at its timestamp or later is a no-op. Otherwise
/// each statement whose object the index does not hold yet writes the object's model under its
/// key, and a new stream or pipeline writes a record for each of its replicas, taking the next of
/// the IDs given; statements are checked against the index as it stands before the update. A
/// managed update then writes its branch's record.
pub fn plan_schema_update(index: &CRCIndex, update: &SchemaUpdate, ids: &[u64]) -> (w: SchemaWrite)
    requires
        index.wf(),
        !schema_update_applied(index@.schema_branches, *update) ==> ids.len() >= statements_ids(index@, update_statements(*update)),
    ensures
        w.was_noop == schema_update_applied(index@.schema_branches, *update),
        w.was_noop ==> w.statements.len() == 0 && w.branch_key is None,
        !w.was_noop ==> is_update_write(w, index@, *update, ids@),
{
    if crate::crc::is_schema_update_noop(index, update) {
        return SchemaWrite { was_noop: true, statements: Vec::new(), branch_key: None };
    }
    let statements = match update {
        SchemaUpdate::Managed { statements, .. } => statements,
        SchemaUpdate::OneOff { statements } => statements,
    };
    let ghost sts = statements@;
    let mut writes: Vec<StatementWrite> = Vec::new();
    let mut used: usize = 0;
    let mut i: usize = 0;
    while i < statements.len()
        invariant
            i <= statements.len(),
            index.wf(),
            sts == statements@,
            sts == update_statements(*update),
            ids.len() >= statements_ids(index@, sts),
            used == statements_ids(index@, sts.take(i as int)),
            writes.len() == i,
            forall|j: int| 0 <= j < i ==> #[trigger] is_statement_write(writes@[j], index@, sts[j], ids@,
                statements_ids(index@, sts.take(j)) as int),
        decreases statements.len() - i,
    {
        proof {
            assert(sts.take(i as int + 1).drop_last() =~= sts.take(i as int));
            lemma_statements_ids_prefix(index@, sts, i as int + 1);
        }
        let st = &statements[i];
        let ghost first = used as int;
        let w = if statement_exists_exec(index, st) {
            StatementWrite::Exists
        } else {
            match st {
                SchemaStatement::Namespace(ns) => StatementWrite::Namespace { key: namespace_key(ns.name.as_str()) },
                SchemaStatement::Stream(s) => {
                    let n: usize = s.partitions as usize * s.replication_factor as usize;
                    let replicas = stream_replica_records(s, &ids[used..used + n]);
                    proof {
                        let sub = ids@.subrange(used as int, used + n);
                        assert forall|p: int, r: int| 0 <= p < s.partitions && 0 <= r < s.replication_factor implies
                            #[trigger] is_stream_replica_record(replicas@[p * s.replication_factor + r], *s,
                                ids@[used + p * s.replication_factor + r], p as u32, r as u8) by {
                            assert(0 <= p * s.replication_factor + r < n) by (nonlinear_arith)
                                requires
                                    0 <= p < s.partitions,
                                    0 <= r < s.replication_factor,
                                    n == s.partitions as int * s.replication_factor as int,
                            {
                            }
                            assert(is_stream_replica_record(replicas@[p * s.replication_factor + r], *s,
                                sub[p * s.replication_factor + r], p as u32, r as u8));
                        }
                    }
                    used = used + n;
                    StatementWrite::Stream { key: stream_key(s.namespace.as_str(), s.name.as_str()), replicas }
                },
                SchemaStatement::Pipeline(p) => {
                    let n: usize = p.replication_factor as usize;
                    let replicas = pipeline_replica_records(p, &ids[used..used + n]);
                    proof {
                        let sub = ids@.subrange(used as int, used + n);
                        assert forall|r: int| 0 <= r < p.replication_factor implies
                            #[trigger] is_pipeline_replica_record(replicas@[r], *p, ids@[used + r], r as u8) by {
                            assert(is_pipeline_replica_record(replicas@[r], *p, sub[r], r as u8));
                        }
                    }
                    used = used + n;
                    StatementWrite::Pipeline { key: pipeline_key(p.namespace.as_str(), p.name.as_str()), replicas }
                },
            }
        };
        proof {
            assert(is_statement_write(w, index@, sts[i as int], ids@, first));
        }
        let ghost before = writes@;
        writes.push(w);
        proof {
            assert forall|j: int| 0 <= j < i + 1 implies #[trigger] is_statement_write(writes@[j], index@, sts[j], ids@,
                statements_ids(index@, sts.take(j)) as int) by {
                if j < i {
                    assert(writes@[j] == before[j]);
                }
            }
        }
        i = i + 1;
    }
    let branch_key = match update {
        SchemaUpdate::Managed { branch, .. } => Some(branch_key(branch.as_str())),
        SchemaUpdate::OneOff { .. } => None,
    };
    SchemaWrite { was_noop: false, statements: writes, branch_key }
}

/// A schema statement whose object the index already holds, found under its name (a namespace
/// by its name, a stream or pipeline by its namespace and name), is left alone: it takes no new
/// IDs and writes nothing. A statement whose object the index does not hold is written, and a new
/// stream or pipeline takes an ID for each of its replicas.
pub proof fn lemma_existing_objects_are_left_alone(
    idx: CRCIndexView,
    st: SchemaStatement,
    w: StatementWrite,
    ids: Seq<u64>,
    first: int,
)
    ensures
        ({
            let held = match st {
                SchemaStatement::Namespace(ns) => idx.namespace_names.contains_key(ns.name@)
                    && idx.namespaces.contains_key(idx.namespace_names[ns.name@]),
                SchemaStatement::Stream(s) => idx.stream_names.contains_key(name_hash(s.namespace@, s.name@))
                    && idx.streams.contains_key(idx.stream_names[name_hash(s.namespace@, s.name@)]),
                SchemaStatement::Pipeline(p) => idx.pipeline_names.contains_key(name_hash(p.namespace@, p.name@))
                    && idx.pipelines.contains_key(idx.pipeline_names[name_hash(p.namespace@, p.name@)]),
            };
            &&& held ==> statement_ids(idx, st) == 0
            &&& held && is_statement_write(w, idx, st, ids, first) ==> w is Exists
            &&& !held && is_statement_write(w, idx, st, ids, first) ==> !(w is Exists)
            &&& !held ==> statement_ids(idx, st) == match st {
                SchemaStatement::Namespace(_) => 0,
                SchemaStatement::Stream(s) => s.partitions as int * s.replication_factor as int,
                SchemaStatement::Pipeline(p) => p.replication_factor as int,
            }
        }),
{
}

} // verus!
