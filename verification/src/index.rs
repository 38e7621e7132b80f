//! The cluster Raft controller's in-memory data index.
//!
//! Streams and pipelines are found by the seahash of their `namespace/name`; every other object
//! by its ID. Namespaces, schema branches and users are found by name.

use std::collections::HashMap;
use vstd::prelude::*;

use crate::auth::{Claims, User, UserRole};
use crate::error::{AppError, ShutdownError};
use crate::placement::{PipelineReplica, StreamReplica};
use crate::schema::{
    namespaced, namespaced_name, ControlGroup, ControlGroupObjectRef, Namespace, Pipeline, SchemaBranch, Stream, WithId,
};
use crate::strmap::StrMap;

verus! {

broadcast use vstd::std_specs::hash::group_hash_axioms;

//////////////////////////////////////////////////////////////////////////////////////////////////
// Name hashing //////////////////////////////////////////////////////////////////////////////////

/// The value `seahash::hash` gives for a byte string.
pub uninterp spec fn seahash_of(bytes: Seq<u8>) -> u64;

/// Calls `seahash::hash`. The contract only names the result: the same bytes always hash to the
/// same value.
#[verifier::external_body]
fn seahash_hash(bytes: &[u8]) -> (h: u64)
    ensures
        h == seahash_of(bytes@),
{
    seahash::hash(bytes)
}

/// The hash under which a namespaced object's name is indexed: the seahash of the UTF-8 bytes of
/// `namespace/name`.
pub open spec fn name_hash(ns: Seq<char>, name: Seq<char>) -> u64 {
    seahash_of(vstd::utf8::encode_utf8(namespaced(ns, name)))
}

/// Hash a namespaced object's name.
pub fn hash_namespaced_name(ns: &str, name: &str) -> (h: u64)
    ensures
        h == name_hash(ns@, name@),
{
    let full = namespaced_name(ns, name);
    seahash_hash(full.as_str().as_bytes())
}

//////////////////////////////////////////////////////////////////////////////////////////////////
// Partition map /////////////////////////////////////////////////////////////////////////////////

/// A map keyed by a (stream ID, partition) pair.
#[derive(Debug)]
pub struct PartitionMap {
    inner: HashMap<u64, HashMap<u32, u64>>,
}

impl View for PartitionMap {
    type V = Map<(u64, u32), u64>;

    closed spec fn view(&self) -> Map<(u64, u32), u64> {
        Map::new(
            |k: (u64, u32)| self.inner@.contains_key(k.0) && self.inner@[k.0]@.contains_key(k.1),
            |k: (u64, u32)| self.inner@[k.0]@[k.1],
        )
    }
}

impl PartitionMap {
    /// An empty map.
    pub fn new() -> (m: Self)
        ensures
            m@ == Map::<(u64, u32), u64>::empty(),
    {
        let m = PartitionMap { inner: HashMap::new() };
        proof {
            assert(m@ =~= Map::<(u64, u32), u64>::empty());
        }
        m
    }

    /// Insert a value under a key, replacing any previous value.
    pub fn insert(&mut self, key: (u64, u32), value: u64)
        ensures
            final(self)@ == old(self)@.insert(key, value),
    {
        let ghost old_view = self@;
        let mut parts = match self.inner.remove(&key.0) {
            Some(parts) => parts,
            None => HashMap::new(),
        };
        parts.insert(key.1, value);
        self.inner.insert(key.0, parts);
        proof {
            assert(self@ =~= old_view.insert(key, value));
        }
    }

    /// The value held under a key.
    pub fn get(&self, key: (u64, u32)) -> (v: Option<u64>)
        ensures
            match v {
                Some(v) => self@.contains_key(key) && self@[key] == v,
                None => !self@.contains_key(key),
            },
    {
        match self.inner.get(&key.0) {
            Some(parts) => match parts.get(&key.1) {
                Some(v) => Some(*v),
                None => None,
            },
            None => None,
        }
    }
}

//////////////////////////////////////////////////////////////////////////////////////////////////
// Index /////////////////////////////////////////////////////////////////////////////////////////

/// An operation to apply to the index.
#[derive(Debug)]
pub enum IndexWriteOp {
    /// Insert a new namespace record into the index.
    InsertNamespace(WithId<Namespace>),
    /// Insert a new stream record into the index.
    InsertStream(WithId<Stream>),
    /// Insert a new pipeline record into the index.
    InsertPipeline(WithId<Pipeline>),
    /// Insert a new control group record into the index.
    InsertControlGroup(ControlGroup),
    /// Update a schema branch with a new timestamp.
    UpdateSchemaBranch { branch: String, timestamp: i64 },
    /// Insert a new stream replica record into the index.
    InsertStreamReplica(StreamReplica),
    /// Insert a new pipeline replica record into the index.
    InsertPipelineReplica(PipelineReplica),
}

/// A batch of operations to apply to the index atomically.
#[derive(Debug)]
pub struct IndexWriteBatch {
    pub ops: Vec<IndexWriteOp>,
}

impl IndexWriteBatch {
    /// An empty batch.
    pub fn new() -> (b: Self)
        ensures
            b.ops@ == Seq::<IndexWriteOp>::empty(),
    {
        IndexWriteBatch { ops: Vec::new() }
    }

    /// Push a new operation into this write batch.
    pub fn push(&mut self, op: IndexWriteOp)
        ensures
            final(self).ops@ == old(self).ops@.push(op),
    {
        self.ops.push(op);
    }
}

/// The mathematical form of the index.
pub struct CRCIndexView {
    pub schema_branches: Map<Seq<char>, i64>,
    pub namespaces: Map<u64, WithId<Namespace>>,
    pub namespace_names: Map<Seq<char>, u64>,
    pub endpoints: Map<u64, ()>,
    pub endpoint_names: Map<u64, u64>,
    pub streams: Map<u64, WithId<Stream>>,
    pub stream_names: Map<u64, u64>,
    pub pipelines: Map<u64, WithId<Pipeline>>,
    pub pipeline_names: Map<u64, u64>,
    pub control_groups: Map<u64, ControlGroup>,
    pub stream_control_groups: Map<(u64, u32), u64>,
    pub pipeline_control_groups: Map<u64, u64>,
    pub stream_replicas: Map<u64, StreamReplica>,
    pub pipeline_replicas: Map<u64, PipelineReplica>,
    pub users: Map<Seq<char>, UserRole>,
    pub tokens: Map<u64, Claims>,
}

/// The index with nothing in it.
pub open spec fn empty_index() -> CRCIndexView {
    CRCIndexView {
        schema_branches: Map::empty(),
        namespaces: Map::empty(),
        namespace_names: Map::empty(),
        endpoints: Map::empty(),
        endpoint_names: Map::empty(),
        streams: Map::empty(),
        stream_names: Map::empty(),
        pipelines: Map::empty(),
        pipeline_names: Map::empty(),
        control_groups: Map::empty(),
        stream_control_groups: Map::empty(),
        pipeline_control_groups: Map::empty(),
        stream_replicas: Map::empty(),
        pipeline_replicas: Map::empty(),
        users: Map::empty(),
        tokens: Map::empty(),
    }
}

/// Apply one operation to the index.
pub open spec fn apply_op(v: CRCIndexView, op: IndexWriteOp) -> CRCIndexView {
    match op {
        IndexWriteOp::InsertNamespace(ns) => CRCIndexView {
            namespace_names: v.namespace_names.insert(ns.model.name@, ns.id),
            namespaces: v.namespaces.insert(ns.id, ns),
            ..v
        },
        IndexWriteOp::InsertStream(stream) => CRCIndexView {
            stream_names: v.stream_names.insert(name_hash(stream.model.namespace@, stream.model.name@), stream.id),
            streams: v.streams.insert(stream.id, stream),
            ..v
        },
        IndexWriteOp::InsertPipeline(pipeline) => CRCIndexView {
            pipeline_names: v.pipeline_names.insert(name_hash(pipeline.model.namespace@, pipeline.model.name@), pipeline.id),
            pipelines: v.pipelines.insert(pipeline.id, pipeline),
            ..v
        },
        IndexWriteOp::InsertControlGroup(cg) => match cg.object_ref {
            ControlGroupObjectRef::Stream { id, partition } => CRCIndexView {
                stream_control_groups: v.stream_control_groups.insert((id, partition), cg.id),
                control_groups: v.control_groups.insert(cg.id, cg),
                ..v
            },
            ControlGroupObjectRef::Pipeline { id } => CRCIndexView {
                pipeline_control_groups: v.pipeline_control_groups.insert(id, cg.id),
                control_groups: v.control_groups.insert(cg.id, cg),
                ..v
            },
        },
        IndexWriteOp::UpdateSchemaBranch { branch, timestamp } => CRCIndexView {
            schema_branches: v.schema_branches.insert(branch@, timestamp),
            ..v
        },
        IndexWriteOp::InsertStreamReplica(replica) => CRCIndexView {
            stream_replicas: v.stream_replicas.insert(replica.id, replica),
            ..v
        },
        IndexWriteOp::InsertPipelineReplica(replica) => CRCIndexView {
            pipeline_replicas: v.pipeline_replicas.insert(replica.id, replica),
            ..v
        },
    }
}

/// Apply each operation in turn.
pub open spec fn apply_ops(v: CRCIndexView, ops: Seq<IndexWriteOp>) -> CRCIndexView
    decreases ops.len(),
{
    if ops.len() == 0 {
        v
    } else {
        apply_op(apply_ops(v, ops.drop_last()), ops.last())
    }
}

/// Record users and tokens in turn.
pub open spec fn with_auth(v: CRCIndexView, users: Seq<User>, tokens: Seq<(u64, Claims)>) -> CRCIndexView
    decreases users.len() + tokens.len(),
{
    if tokens.len() > 0 {
        let w = with_auth(v, users, tokens.drop_last());
        CRCIndexView { tokens: w.tokens.insert(tokens.last().0, tokens.last().1), ..w }
    } else if users.len() > 0 {
        let w = with_auth(v, users.drop_last(), tokens);
        CRCIndexView { users: w.users.insert(users.last().name@, users.last().role), ..w }
    } else {
        v
    }
}

/// The operations which build an index from recovered records, grouped by kind.
pub open spec fn initial_ops(
    namespaces: Seq<WithId<Namespace>>,
    streams: Seq<WithId<Stream>>,
    pipelines: Seq<WithId<Pipeline>>,
    schema_branches: Seq<SchemaBranch>,
    control_groups: Seq<ControlGroup>,
    stream_replicas: Seq<StreamReplica>,
    pipeline_replicas: Seq<PipelineReplica>,
) -> Seq<IndexWriteOp> {
    schema_branches.map_values(|b: SchemaBranch| (IndexWriteOp::UpdateSchemaBranch { branch: b.name, timestamp: b.timestamp }))
        + namespaces.map_values(|n: WithId<Namespace>| IndexWriteOp::InsertNamespace(n))
        + streams.map_values(|s: WithId<Stream>| IndexWriteOp::InsertStream(s))
        + pipelines.map_values(|p: WithId<Pipeline>| IndexWriteOp::InsertPipeline(p))
        + control_groups.map_values(|c: ControlGroup| IndexWriteOp::InsertControlGroup(c))
        + stream_replicas.map_values(|r: StreamReplica| IndexWriteOp::InsertStreamReplica(r))
        + pipeline_replicas.map_values(|r: PipelineReplica| IndexWriteOp::InsertPipelineReplica(r))
}

/// The cluster Raft controller's data index.
#[derive(Debug)]
pub struct CRCIndex {
    /// Index of all managed schema branches which have been applied to the system.
    pub schema_branches: StrMap<i64>,
    /// Index of namespaces in the system by ID.
    pub namespaces: HashMap<u64, WithId<Namespace>>,
    /// Index of namespace names to IDs.
    pub namespace_names: StrMap<u64>,
    /// Index of endpoints by ID.
    pub endpoints: HashMap<u64, ()>,
    /// Index of endpoint names (hashed namespace/name) to ID.
    pub endpoint_names: HashMap<u64, u64>,
    /// Index of streams by ID.
    pub streams: HashMap<u64, WithId<Stream>>,
    /// Index of stream names (hashed namespace/name) to ID.
    pub stream_names: HashMap<u64, u64>,
    /// Index of pipelines by ID.
    pub pipelines: HashMap<u64, WithId<Pipeline>>,
    /// Index of pipeline names (hashed namespace/name) to ID.
    pub pipeline_names: HashMap<u64, u64>,
    /// Index of control groups.
    pub control_groups: HashMap<u64, ControlGroup>,
    /// Index of stream partition control groups, by (stream, partition), to control group ID.
    pub stream_control_groups: PartitionMap,
    /// Index of pipeline control groups, by pipeline, to control group ID.
    pub pipeline_control_groups: HashMap<u64, u64>,
    /// Index of stream replicas.
    pub stream_replicas: HashMap<u64, StreamReplica>,
    /// Index of pipeline replicas.
    pub pipeline_replicas: HashMap<u64, PipelineReplica>,
    /// Index of users.
    pub users: StrMap<UserRole>,
    /// Index of tokens.
    pub tokens: HashMap<u64, Claims>,
}

impl View for CRCIndex {
    type V = CRCIndexView;

    open spec fn view(&self) -> CRCIndexView {
        CRCIndexView {
            schema_branches: self.schema_branches@,
            namespaces: self.namespaces@,
            namespace_names: self.namespace_names@,
            endpoints: self.endpoints@,
            endpoint_names: self.endpoint_names@,
            streams: self.streams@,
            stream_names: self.stream_names@,
            pipelines: self.pipelines@,
            pipeline_names: self.pipeline_names@,
            control_groups: self.control_groups@,
            stream_control_groups: self.stream_control_groups@,
            pipeline_control_groups: self.pipeline_control_groups@,
            stream_replicas: self.stream_replicas@,
            pipeline_replicas: self.pipeline_replicas@,
            users: self.users@,
            tokens: self.tokens@,
        }
    }
}

impl CRCIndex {
    /// The invariant of the index: its string-keyed maps hold each key once.
    pub open spec fn wf(&self) -> bool {
        &&& self.schema_branches.wf()
        &&& self.namespace_names.wf()
        &&& self.users.wf()
    }

    /// An empty index.
    pub fn empty() -> (idx: Self)
        ensures
            idx.wf(),
            idx@ == empty_index(),
    {
        CRCIndex {
            schema_branches: StrMap::new(),
            namespaces: HashMap::new(),
            namespace_names: StrMap::new(),
            endpoints: HashMap::new(),
            endpoint_names: HashMap::new(),
            streams: HashMap::new(),
            stream_names: HashMap::new(),
            pipelines: HashMap::new(),
            pipeline_names: HashMap::new(),
            control_groups: HashMap::new(),
            stream_control_groups: PartitionMap::new(),
            pipeline_control_groups: HashMap::new(),
            stream_replicas: HashMap::new(),
            pipeline_replicas: HashMap::new(),
            users: StrMap::new(),
            tokens: HashMap::new(),
        }
    }

    /// Apply one operation.
    pub fn apply_op_exec(&mut self, op: IndexWriteOp)
        requires
            old(self).wf(),
        ensures
            final(self).wf(),
            final(self)@ == apply_op(old(self)@, op),
    {
        let ghost v = self@;
        let ghost o = op;
        match op {
            IndexWriteOp::InsertNamespace(ns) => {
                self.namespace_names.insert(ns.model.name.clone(), ns.id);
                self.namespaces.insert(ns.id, ns);
            },
            IndexWriteOp::InsertStream(stream) => {
                let hash = hash_namespaced_name(stream.model.namespace.as_str(), stream.model.name.as_str());
                self.stream_names.insert(hash, stream.id);
                self.streams.insert(stream.id, stream);
            },
            IndexWriteOp::InsertPipeline(pipeline) => {
                let hash = hash_namespaced_name(pipeline.model.namespace.as_str(), pipeline.model.name.as_str());
                self.pipeline_names.insert(hash, pipeline.id);
                self.pipelines.insert(pipeline.id, pipeline);
            },
            IndexWriteOp::InsertControlGroup(cg) => {
                match cg.object_ref {
                    ControlGroupObjectRef::Stream { id, partition } => {
                        self.stream_control_groups.insert((id, partition), cg.id);
                    },
                    ControlGroupObjectRef::Pipeline { id } => {
                        self.pipeline_control_groups.insert(id, cg.id);
                    },
                }
                self.control_groups.insert(cg.id, cg);
            },
            IndexWriteOp::UpdateSchemaBranch { branch, timestamp } => {
                self.schema_branches.insert(branch, timestamp);
            },
            IndexWriteOp::InsertStreamReplica(replica) => {
                self.stream_replicas.insert(replica.id, replica);
            },
            IndexWriteOp::InsertPipelineReplica(replica) => {
                self.pipeline_replicas.insert(replica.id, replica);
            },
        }
        proof {
            assert(self@ == apply_op(v, o));
        }
    }

    /// Apply a batch of operations, in order.
    pub fn apply_batch(&mut self, ops: IndexWriteBatch) -> (res: Result<(), ShutdownError>)
        requires
            old(self).wf(),
        ensures
            final(self).wf(),
            final(self)@ == apply_ops(old(self)@, ops.ops@),
            res is Ok,
    {
        let ghost v = self@;
        let ghost all = ops.ops@;
        let ghost mut seen: Seq<IndexWriteOp> = Seq::empty();
        for op in it: ops.ops
            invariant
                self.wf(),
                it.seq() == all,
                seen == it.seq().take(it.index() as int),
                self@ == apply_ops(v, seen),
        {
            proof {
                assert(it.seq().take(it.index() as int + 1) =~= seen.push(op));
                assert(seen.push(op).drop_last() =~= seen);
                seen = seen.push(op);
            }
            self.apply_op_exec(op);
        }
        proof {
            assert(seen =~= all);
        }
        Ok(())
    }

    /// Create a new index from recovered records.
    pub fn new(
        users: Vec<User>,
        tokens: Vec<(u64, Claims)>,
        namespaces: Vec<WithId<Namespace>>,
        streams: Vec<WithId<Stream>>,
        pipelines: Vec<WithId<Pipeline>>,
        schema_branches: Vec<SchemaBranch>,
        control_groups: Vec<ControlGroup>,
        stream_replicas: Vec<StreamReplica>,
        pipeline_replicas: Vec<PipelineReplica>,
    ) -> (idx: Self)
        ensures
            idx.wf(),
            idx@ == apply_ops(
                with_auth(empty_index(), users@, tokens@),
                initial_ops(
                    namespaces@,
                    streams@,
                    pipelines@,
                    schema_branches@,
                    control_groups@,
                    stream_replicas@,
                    pipeline_replicas@,
                ),
            ),
    {
        let mut index = Self::empty();
        let ghost e = index@;
        let mut i: usize = 0;
        while i < users.len()
            invariant
                i <= users.len(),
                index.wf(),
                index@ == with_auth(e, users@.take(i as int), Seq::empty()),
            decreases users.len() - i,
        {
            proof {
                assert(users@.take(i as int + 1).drop_last() =~= users@.take(i as int));
            }
            let user = &users[i];
            index.users.insert(user.name.clone(), user.role);
            i = i + 1;
        }
        proof {
            assert(users@.take(users.len() as int) =~= users@);
        }
        let ghost all_tokens = tokens@;
        let ghost mut seen_tokens: Seq<(u64, Claims)> = Seq::empty();
        for entry in it: tokens
            invariant
                index.wf(),
                it.seq() == all_tokens,
                seen_tokens == it.seq().take(it.index() as int),
                index@ == with_auth(e, users@, seen_tokens),
        {
            proof {
                assert(it.seq().take(it.index() as int + 1) =~= seen_tokens.push(entry));
                assert(seen_tokens.push(entry).drop_last() =~= seen_tokens);
                seen_tokens = seen_tokens.push(entry);
            }
            let (key, claims) = entry;
            index.tokens.insert(key, claims);
        }
        proof {
            assert(seen_tokens =~= all_tokens);
        }
        let ghost v_branches = index@;
        let ghost mut seen_branches: Seq<SchemaBranch> = Seq::empty();
        for x in it: schema_branches
            invariant
                index.wf(),
                it.seq() == schema_branches@,
                seen_branches == it.seq().take(it.index() as int),
                index@ == apply_ops(v_branches, seen_branches.map_values(|y: SchemaBranch| (IndexWriteOp::UpdateSchemaBranch { branch: y.name, timestamp: y.timestamp }))),
        {
            proof {
                assert(it.seq().take(it.index() as int + 1) =~= seen_branches.push(x));
                assert(seen_branches.push(x).map_values(|y: SchemaBranch| (IndexWriteOp::UpdateSchemaBranch { branch: y.name, timestamp: y.timestamp })).drop_last()
                    =~= seen_branches.map_values(|y: SchemaBranch| (IndexWriteOp::UpdateSchemaBranch { branch: y.name, timestamp: y.timestamp })));
                seen_branches = seen_branches.push(x);
            }
            index.apply_op_exec(IndexWriteOp::UpdateSchemaBranch { branch: x.name, timestamp: x.timestamp });
        }
        proof {
            assert(seen_branches =~= schema_branches@);
        }
        let ghost v_namespaces = index@;
        let ghost mut seen_namespaces: Seq<WithId<Namespace>> = Seq::empty();
        for x in it: namespaces
            invariant
                index.wf(),
                it.seq() == namespaces@,
                seen_namespaces == it.seq().take(it.index() as int),
                index@ == apply_ops(v_namespaces, seen_namespaces.map_values(|y: WithId<Namespace>| (IndexWriteOp::InsertNamespace(y)))),
        {
            proof {
                assert(it.seq().take(it.index() as int + 1) =~= seen_namespaces.push(x));
                assert(seen_namespaces.push(x).map_values(|y: WithId<Namespace>| (IndexWriteOp::InsertNamespace(y))).drop_last()
                    =~= seen_namespaces.map_values(|y: WithId<Namespace>| (IndexWriteOp::InsertNamespace(y))));
                seen_namespaces = seen_namespaces.push(x);
            }
            index.apply_op_exec(IndexWriteOp::InsertNamespace(x));
        }
        proof {
            assert(seen_namespaces =~= namespaces@);
        }
        let ghost v_streams = index@;
        let ghost mut seen_streams: Seq<WithId<Stream>> = Seq::empty();
        for x in it: streams
            invariant
                index.wf(),
                it.seq() == streams@,
                seen_streams == it.seq().take(it.index() as int),
                index@ == apply_ops(v_streams, seen_streams.map_values(|y: WithId<Stream>| (IndexWriteOp::InsertStream(y)))),
        {
            proof {
                assert(it.seq().take(it.index() as int + 1) =~= seen_streams.push(x));
                assert(seen_streams.push(x).map_values(|y: WithId<Stream>| (IndexWriteOp::InsertStream(y))).drop_last()
                    =~= seen_streams.map_values(|y: WithId<Stream>| (IndexWriteOp::InsertStream(y))));
                seen_streams = seen_streams.push(x);
            }
            index.apply_op_exec(IndexWriteOp::InsertStream(x));
        }
        proof {
            assert(seen_streams =~= streams@);
        }
        let ghost v_pipelines = index@;
        let ghost mut seen_pipelines: Seq<WithId<Pipeline>> = Seq::empty();
        for x in it: pipelines
            invariant
                index.wf(),
                it.seq() == pipelines@,
                seen_pipelines == it.seq().take(it.index() as int),
                index@ == apply_ops(v_pipelines, seen_pipelines.map_values(|y: WithId<Pipeline>| (IndexWriteOp::InsertPipeline(y)))),
        {
            proof {
                assert(it.seq().take(it.index() as int + 1) =~= seen_pipelines.push(x));
                assert(seen_pipelines.push(x).map_values(|y: WithId<Pipeline>| (IndexWriteOp::InsertPipeline(y))).drop_last()
                    =~= seen_pipelines.map_values(|y: WithId<Pipeline>| (IndexWriteOp::InsertPipeline(y))));
                seen_pipelines = seen_pipelines.push(x);
            }
            index.apply_op_exec(IndexWriteOp::InsertPipeline(x));
        }
        proof {
            assert(seen_pipelines =~= pipelines@);
        }
        let ghost v_cgs = index@;
        let ghost mut seen_cgs: Seq<ControlGroup> = Seq::empty();
        for x in it: control_groups
            invariant
                index.wf(),
                it.seq() == control_groups@,
                seen_cgs == it.seq().take(it.index() as int),
                index@ == apply_ops(v_cgs, seen_cgs.map_values(|y: ControlGroup| (IndexWriteOp::InsertControlGroup(y)))),
        {
            proof {
                assert(it.seq().take(it.index() as int + 1) =~= seen_cgs.push(x));
                assert(seen_cgs.push(x).map_values(|y: ControlGroup| (IndexWriteOp::InsertControlGroup(y))).drop_last()
                    =~= seen_cgs.map_values(|y: ControlGroup| (IndexWriteOp::InsertControlGroup(y))));
                seen_cgs = seen_cgs.push(x);
            }
            index.apply_op_exec(IndexWriteOp::InsertControlGroup(x));
        }
        proof {
            assert(seen_cgs =~= control_groups@);
        }
        let ghost v_srs = index@;
        let ghost mut seen_srs: Seq<StreamReplica> = Seq::empty();
        for x in it: stream_replicas
            invariant
                index.wf(),
                it.seq() == stream_replicas@,
                seen_srs == it.seq().take(it.index() as int),
                index@ == apply_ops(v_srs, seen_srs.map_values(|y: StreamReplica| (IndexWriteOp::InsertStreamReplica(y)))),
        {
            proof {
                assert(it.seq().take(it.index() as int + 1) =~= seen_srs.push(x));
                assert(seen_srs.push(x).map_values(|y: StreamReplica| (IndexWriteOp::InsertStreamReplica(y))).drop_last()
                    =~= seen_srs.map_values(|y: StreamReplica| (IndexWriteOp::InsertStreamReplica(y))));
                seen_srs = seen_srs.push(x);
            }
            index.apply_op_exec(IndexWriteOp::InsertStreamReplica(x));
        }
        proof {
            assert(seen_srs =~= stream_replicas@);
        }
        let ghost v_prs = index@;
        let ghost mut seen_prs: Seq<PipelineReplica> = Seq::empty();
        for x in it: pipeline_replicas
            invariant
                index.wf(),
                it.seq() == pipeline_replicas@,
                seen_prs == it.seq().take(it.index() as int),
                index@ == apply_ops(v_prs, seen_prs.map_values(|y: PipelineReplica| (IndexWriteOp::InsertPipelineReplica(y)))),
        {
            proof {
                assert(it.seq().take(it.index() as int + 1) =~= seen_prs.push(x));
                assert(seen_prs.push(x).map_values(|y: PipelineReplica| (IndexWriteOp::InsertPipelineReplica(y))).drop_last()
                    =~= seen_prs.map_values(|y: PipelineReplica| (IndexWriteOp::InsertPipelineReplica(y))));
                seen_prs = seen_prs.push(x);
            }
            index.apply_op_exec(IndexWriteOp::InsertPipelineReplica(x));
        }
        proof {
            assert(seen_prs =~= pipeline_replicas@);
        }
        proof {
            let a = with_auth(e, users@, all_tokens);
            let p1 = schema_branches@.map_values(|y: SchemaBranch| (IndexWriteOp::UpdateSchemaBranch { branch: y.name, timestamp: y.timestamp }));
            let p2 = namespaces@.map_values(|y: WithId<Namespace>| (IndexWriteOp::InsertNamespace(y)));
            let p3 = streams@.map_values(|y: WithId<Stream>| (IndexWriteOp::InsertStream(y)));
            let p4 = pipelines@.map_values(|y: WithId<Pipeline>| (IndexWriteOp::InsertPipeline(y)));
            let p5 = control_groups@.map_values(|y: ControlGroup| (IndexWriteOp::InsertControlGroup(y)));
            let p6 = stream_replicas@.map_values(|y: StreamReplica| (IndexWriteOp::InsertStreamReplica(y)));
            let p7 = pipeline_replicas@.map_values(|y: PipelineReplica| (IndexWriteOp::InsertPipelineReplica(y)));
            lemma_apply_ops_concat(a, p1, p2);
            lemma_apply_ops_concat(a, p1 + p2, p3);
            lemma_apply_ops_concat(a, p1 + p2 + p3, p4);
            lemma_apply_ops_concat(a, p1 + p2 + p3 + p4, p5);
            lemma_apply_ops_concat(a, p1 + p2 + p3 + p4 + p5, p6);
            lemma_apply_ops_concat(a, p1 + p2 + p3 + p4 + p5 + p6, p7);
            assert(initial_ops(
                namespaces@,
                streams@,
                pipelines@,
                schema_branches@,
                control_groups@,
                stream_replicas@,
                pipeline_replicas@,
            ) =~= p1 + p2 + p3 + p4 + p5 + p6 + p7);
        }
        index
    }
}

impl CRCIndex {
    /// Fully replace the contents of this index with the given new index: every table is taken
    /// from the new index.
    pub fn replace(&mut self, new: Self)
        requires
            new.wf(),
        ensures
            final(self).wf(),
            final(self)@ == new@,
    {
        self.schema_branches = new.schema_branches;
        self.namespace_names = new.namespace_names;
        self.namespaces = new.namespaces;
        self.endpoint_names = new.endpoint_names;
        self.endpoints = new.endpoints;
        self.stream_names = new.stream_names;
        self.streams = new.streams;
        self.pipeline_names = new.pipeline_names;
        self.pipelines = new.pipelines;
        self.users = new.users;
        self.tokens = new.tokens;
        self.control_groups = new.control_groups;
        self.stream_control_groups = new.stream_control_groups;
        self.pipeline_control_groups = new.pipeline_control_groups;
        self.stream_replicas = new.stream_replicas;
        self.pipeline_replicas = new.pipeline_replicas;
    }

    /// Get a namespace by its name.
    pub fn get_namespace(&self, ns: &str) -> (res: Option<&WithId<Namespace>>)
        requires
            self.wf(),
        ensures
            res == (if self@.namespace_names.contains_key(ns@) && self@.namespaces.contains_key(self@.namespace_names[ns@]) {
                Some(&self@.namespaces[self@.namespace_names[ns@]])
            } else {
                None
            }),
    {
        match self.namespace_names.get(ns) {
            Some(id) => self.namespaces.get(id),
            None => None,
        }
    }

    /// Get a stream by the hash of its name.
    pub fn get_stream_by_hash(&self, hash: u64) -> (res: Option<&WithId<Stream>>)
        ensures
            res == (if self@.stream_names.contains_key(hash) && self@.streams.contains_key(self@.stream_names[hash]) {
                Some(&self@.streams[self@.stream_names[hash]])
            } else {
                None
            }),
    {
        match self.stream_names.get(&hash) {
            Some(id) => self.streams.get(id),
            None => None,
        }
    }

    /// Get a stream by its namespace and name.
    pub fn get_stream(&self, ns: &str, stream: &str) -> (res: Option<&WithId<Stream>>)
        ensures
            ({
                let hash = name_hash(ns@, stream@);
                res == (if self@.stream_names.contains_key(hash) && self@.streams.contains_key(self@.stream_names[hash]) {
                    Some(&self@.streams[self@.stream_names[hash]])
                } else {
                    None
                })
            }),
    {
        let hash = hash_namespaced_name(ns, stream);
        self.get_stream_by_hash(hash)
    }

    /// Get a pipeline by the hash of its name.
    pub fn get_pipeline_by_hash(&self, hash: u64) -> (res: Option<&WithId<Pipeline>>)
        ensures
            res == (if self@.pipeline_names.contains_key(hash) && self@.pipelines.contains_key(self@.pipeline_names[hash]) {
                Some(&self@.pipelines[self@.pipeline_names[hash]])
            } else {
                None
            }),
    {
        match self.pipeline_names.get(&hash) {
            Some(id) => self.pipelines.get(id),
            None => None,
        }
    }

    /// Get a pipeline by its namespace and name.
    pub fn get_pipeline(&self, ns: &str, pipeline: &str) -> (res: Option<&WithId<Pipeline>>)
        ensures
            ({
                let hash = name_hash(ns@, pipeline@);
                res == (if self@.pipeline_names.contains_key(hash) && self@.pipelines.contains_key(self@.pipeline_names[hash]) {
                    Some(&self@.pipelines[self@.pipeline_names[hash]])
                } else {
                    None
                })
            }),
    {
        let hash = hash_namespaced_name(ns, pipeline);
        self.get_pipeline_by_hash(hash)
    }

    /// Get the given token's claims, else return an auth error.
    pub fn must_get_token_claims(&self, token_id: &u64) -> (res: Result<&Claims, AppError>)
        ensures
            match res {
                Ok(claims) => self@.tokens.contains_key(*token_id) && self@.tokens[*token_id] == *claims,
                Err(e) => !self@.tokens.contains_key(*token_id) && e is UnknownToken,
            },
    {
        match self.tokens.get(token_id) {
            Some(claims) => Ok(claims),
            None => Err(AppError::UnknownToken),
        }
    }

    /// The control group of a stream partition.
    pub fn get_stream_control_group(&self, stream_id: u64, partition: u32) -> (res: Option<&ControlGroup>)
        ensures
            res == (if self@.stream_control_groups.contains_key((stream_id, partition))
                && self@.control_groups.contains_key(self@.stream_control_groups[(stream_id, partition)]) {
                Some(&self@.control_groups[self@.stream_control_groups[(stream_id, partition)]])
            } else {
                None
            }),
    {
        match self.stream_control_groups.get((stream_id, partition)) {
            Some(cg_id) => self.control_groups.get(&cg_id),
            None => None,
        }
    }
}

/// An inserted stream is found again by its namespace and name.
pub proof fn lemma_inserted_stream_is_found(v: CRCIndexView, stream: WithId<Stream>)
    ensures
        ({
            let w = apply_op(v, IndexWriteOp::InsertStream(stream));
            let hash = name_hash(stream.model.namespace@, stream.model.name@);
            &&& w.stream_names.contains_key(hash)
            &&& w.streams.contains_key(w.stream_names[hash])
            &&& w.streams[w.stream_names[hash]] == stream
        }),
{
}

/// An inserted namespace is found again by its name.
pub proof fn lemma_inserted_namespace_is_found(v: CRCIndexView, ns: WithId<Namespace>)
    ensures
        ({
            let w = apply_op(v, IndexWriteOp::InsertNamespace(ns));
            &&& w.namespace_names.contains_key(ns.model.name@)
            &&& w.namespaces.contains_key(w.namespace_names[ns.model.name@])
            &&& w.namespaces[w.namespace_names[ns.model.name@]] == ns
        }),
{
}

/// Applying two lists of operations in turn is applying their concatenation.
pub proof fn lemma_apply_ops_concat(v: CRCIndexView, a: Seq<IndexWriteOp>, b: Seq<IndexWriteOp>)
    ensures
        apply_ops(v, a + b) == apply_ops(apply_ops(v, a), b),
    decreases b.len(),
{
    if b.len() == 0 {
        assert(a + b =~= a);
    } else {
        lemma_apply_ops_concat(v, a, b.drop_last());
        assert((a + b).drop_last() =~= a + b.drop_last());
    }
}

/// The hash under which a stream's name is indexed.
pub open spec fn stream_hash(s: WithId<Stream>) -> u64 {
    name_hash(s.model.namespace@, s.model.name@)
}

/// The `namespace/name` of a stream.
pub open spec fn stream_full_name(s: WithId<Stream>) -> Seq<char> {
    namespaced(s.model.namespace@, s.model.name@)
}

/// Operations that insert no stream leave the stream tables alone.
proof fn lemma_ops_keep_streams(v: CRCIndexView, ops: Seq<IndexWriteOp>)
    requires
        forall|k: int| 0 <= k < ops.len() ==> !(#[trigger] ops[k] is InsertStream),
    ensures
        apply_ops(v, ops).streams == v.streams,
        apply_ops(v, ops).stream_names == v.stream_names,
    decreases ops.len(),
{
    if ops.len() > 0 {
        lemma_ops_keep_streams(v, ops.drop_last());
        assert(!(ops[ops.len() - 1] is InsertStream));
    }
}

/// Recording users and tokens leaves the stream tables alone.
proof fn lemma_auth_keeps_streams(v: CRCIndexView, users: Seq<User>, tokens: Seq<(u64, Claims)>)
    ensures
        with_auth(v, users, tokens).streams == v.streams,
        with_auth(v, users, tokens).stream_names == v.stream_names,
    decreases users.len() + tokens.len(),
{
    if tokens.len() > 0 {
        lemma_auth_keeps_streams(v, users, tokens.drop_last());
    } else if users.len() > 0 {
        lemma_auth_keeps_streams(v, users.drop_last(), tokens);
    }
}

/// Inserting streams with distinct IDs and distinct name hashes indexes each of them under its
/// name hash, and indexes no other name hash.
proof fn lemma_stream_inserts(v: CRCIndexView, ss: Seq<WithId<Stream>>)
    requires
        forall|a: int, b: int| 0 <= a < b < ss.len() ==> #[trigger] ss[a].id != #[trigger] ss[b].id,
        forall|a: int, b: int| 0 <= a < b < ss.len() ==> stream_hash(#[trigger] ss[a]) != stream_hash(#[trigger] ss[b]),
    ensures
        ({
            let w = apply_ops(v, ss.map_values(|s: WithId<Stream>| IndexWriteOp::InsertStream(s)));
            &&& forall|a: int| 0 <= a < ss.len() ==> {
                &&& w.stream_names.contains_key(stream_hash(#[trigger] ss[a]))
                &&& w.stream_names[stream_hash(ss[a])] == ss[a].id
                &&& w.streams.contains_key(ss[a].id)
                &&& w.streams[ss[a].id] == ss[a]
            }
            &&& forall|h: u64| #[trigger] w.stream_names.contains_key(h)
                ==> v.stream_names.contains_key(h) || exists|a: int| 0 <= a < ss.len() && stream_hash(#[trigger] ss[a]) == h
        }),
    decreases ss.len(),
{
    let ops = ss.map_values(|s: WithId<Stream>| IndexWriteOp::InsertStream(s));
    if ss.len() > 0 {
        let rest = ss.drop_last();
        let last = ss.last();
        assert(ops.drop_last() =~= rest.map_values(|s: WithId<Stream>| IndexWriteOp::InsertStream(s)));
        assert forall|a: int, b: int| 0 <= a < b < rest.len() implies #[trigger] rest[a].id != #[trigger] rest[b].id by {
            assert(rest[a] == ss[a] && rest[b] == ss[b]);
        }
        assert forall|a: int, b: int| 0 <= a < b < rest.len() implies stream_hash(#[trigger] rest[a]) != stream_hash(#[trigger] rest[b]) by {
            assert(rest[a] == ss[a] && rest[b] == ss[b]);
        }
        lemma_stream_inserts(v, rest);
        let w0 = apply_ops(v, rest.map_values(|s: WithId<Stream>| IndexWriteOp::InsertStream(s)));
        let w = apply_ops(v, ops);
        assert(ops.last() == IndexWriteOp::InsertStream(last));
        assert(w == apply_op(w0, IndexWriteOp::InsertStream(last)));
        assert forall|a: int| 0 <= a < ss.len() implies {
            &&& w.stream_names.contains_key(stream_hash(#[trigger] ss[a]))
            &&& w.stream_names[stream_hash(ss[a])] == ss[a].id
            &&& w.streams.contains_key(ss[a].id)
            &&& w.streams[ss[a].id] == ss[a]
        } by {
            if a < ss.len() - 1 {
                assert(rest[a] == ss[a]);
                assert(ss[a].id != ss[ss.len() - 1].id);
                assert(stream_hash(ss[a]) != stream_hash(ss[ss.len() - 1]));
            }
        }
        assert forall|h: u64| #[trigger] w.stream_names.contains_key(h)
            implies v.stream_names.contains_key(h) || exists|a: int| 0 <= a < ss.len() && stream_hash(#[trigger] ss[a]) == h by {
            if h == stream_hash(last) {
                assert(stream_hash(ss[ss.len() - 1]) == h);
            } else {
                assert(w0.stream_names.contains_key(h));
                if !v.stream_names.contains_key(h) {
                    let a = choose|a: int| 0 <= a < rest.len() && stream_hash(#[trigger] rest[a]) == h;
                    assert(rest[a] == ss[a]);
                }
            }
        }
    }
}

/// Splits the operations which build an index around the stream insertions.
proof fn lemma_initial_ops_split(
    users: Seq<User>,
    tokens: Seq<(u64, Claims)>,
    namespaces: Seq<WithId<Namespace>>,
    streams: Seq<WithId<Stream>>,
    pipelines: Seq<WithId<Pipeline>>,
    schema_branches: Seq<SchemaBranch>,
    control_groups: Seq<ControlGroup>,
    stream_replicas: Seq<StreamReplica>,
    pipeline_replicas: Seq<PipelineReplica>,
)
    ensures
        ({
            let start = with_auth(empty_index(), users, tokens);
            let before = schema_branches.map_values(|b: SchemaBranch| (IndexWriteOp::UpdateSchemaBranch { branch: b.name, timestamp: b.timestamp }))
                + namespaces.map_values(|n: WithId<Namespace>| IndexWriteOp::InsertNamespace(n));
            let inserts = streams.map_values(|s: WithId<Stream>| IndexWriteOp::InsertStream(s));
            let after = pipelines.map_values(|p: WithId<Pipeline>| IndexWriteOp::InsertPipeline(p))
                + control_groups.map_values(|c: ControlGroup| IndexWriteOp::InsertControlGroup(c))
                + stream_replicas.map_values(|r: StreamReplica| IndexWriteOp::InsertStreamReplica(r))
                + pipeline_replicas.map_values(|r: PipelineReplica| IndexWriteOp::InsertPipelineReplica(r));
            let built = apply_ops(start, initial_ops(namespaces, streams, pipelines, schema_branches, control_groups, stream_replicas, pipeline_replicas));
            let mid = apply_ops(start, before);
            &&& mid.streams == Map::<u64, WithId<Stream>>::empty()
            &&& mid.stream_names == Map::<u64, u64>::empty()
            &&& built.streams == apply_ops(mid, inserts).streams
            &&& built.stream_names == apply_ops(mid, inserts).stream_names
        }),
{
    let start = with_auth(empty_index(), users, tokens);
    let before = schema_branches.map_values(|b: SchemaBranch| (IndexWriteOp::UpdateSchemaBranch { branch: b.name, timestamp: b.timestamp }))
        + namespaces.map_values(|n: WithId<Namespace>| IndexWriteOp::InsertNamespace(n));
    let inserts = streams.map_values(|s: WithId<Stream>| IndexWriteOp::InsertStream(s));
    let after = pipelines.map_values(|p: WithId<Pipeline>| IndexWriteOp::InsertPipeline(p))
        + control_groups.map_values(|c: ControlGroup| IndexWriteOp::InsertControlGroup(c))
        + stream_replicas.map_values(|r: StreamReplica| IndexWriteOp::InsertStreamReplica(r))
        + pipeline_replicas.map_values(|r: PipelineReplica| IndexWriteOp::InsertPipelineReplica(r));
    lemma_auth_keeps_streams(empty_index(), users, tokens);
    assert forall|k: int| 0 <= k < before.len() implies !(#[trigger] before[k] is InsertStream) by {
        if k < schema_branches.len() {
            assert(before[k] == (IndexWriteOp::UpdateSchemaBranch { branch: schema_branches[k].name, timestamp: schema_branches[k].timestamp }));
        } else {
            assert(before[k] == IndexWriteOp::InsertNamespace(namespaces[k - schema_branches.len()]));
        }
    }
    lemma_ops_keep_streams(start, before);
    let mid = apply_ops(start, before);
    let n1 = pipelines.len() as int;
    let n2 = n1 + control_groups.len();
    let n3 = n2 + stream_replicas.len();
    assert forall|k: int| 0 <= k < after.len() implies !(#[trigger] after[k] is InsertStream) by {
        if k < n1 {
            assert(after[k] == IndexWriteOp::InsertPipeline(pipelines[k]));
        } else if k < n2 {
            assert(after[k] == IndexWriteOp::InsertControlGroup(control_groups[k - n1]));
        } else if k < n3 {
            assert(after[k] == IndexWriteOp::InsertStreamReplica(stream_replicas[k - n2]));
        } else {
            assert(after[k] == IndexWriteOp::InsertPipelineReplica(pipeline_replicas[k - n3]));
        }
    }
    lemma_ops_keep_streams(apply_ops(mid, inserts), after);
    lemma_apply_ops_concat(start, before, inserts);
    lemma_apply_ops_concat(start, before + inserts, after);
    assert(initial_ops(namespaces, streams, pipelines, schema_branches, control_groups, stream_replicas, pipeline_replicas)
        =~= before + inserts + after);
}

/// A stream recorded when an index is built is found again by its namespace and name, wherever
/// the recorded streams have distinct IDs and distinct names, and no two of those names hash to
/// the same value.
pub proof fn lemma_built_index_finds_stream(
    users: Seq<User>,
    tokens: Seq<(u64, Claims)>,
    namespaces: Seq<WithId<Namespace>>,
    streams: Seq<WithId<Stream>>,
    pipelines: Seq<WithId<Pipeline>>,
    schema_branches: Seq<SchemaBranch>,
    control_groups: Seq<ControlGroup>,
    stream_replicas: Seq<StreamReplica>,
    pipeline_replicas: Seq<PipelineReplica>,
    i: int,
    ns: Seq<char>,
    name: Seq<char>,
)
    requires
        0 <= i < streams.len(),
        namespaced(ns, name) == stream_full_name(streams[i]),
        forall|a: int, b: int| 0 <= a < b < streams.len() ==> #[trigger] streams[a].id != #[trigger] streams[b].id,
        forall|a: int, b: int| 0 <= a < b < streams.len() ==> stream_full_name(#[trigger] streams[a]) != stream_full_name(#[trigger] streams[b]),
        forall|a: int, b: int| 0 <= a < b < streams.len() && stream_full_name(streams[a]) != stream_full_name(streams[b])
            ==> stream_hash(#[trigger] streams[a]) != stream_hash(#[trigger] streams[b]),
    ensures
        ({
            let w = apply_ops(
                with_auth(empty_index(), users, tokens),
                initial_ops(namespaces, streams, pipelines, schema_branches, control_groups, stream_replicas, pipeline_replicas),
            );
            let h = name_hash(ns, name);
            &&& w.stream_names.contains_key(h)
            &&& w.streams.contains_key(w.stream_names[h])
            &&& w.streams[w.stream_names[h]] == streams[i]
        }),
{
    lemma_initial_ops_split(users, tokens, namespaces, streams, pipelines, schema_branches, control_groups, stream_replicas, pipeline_replicas);
    let start = with_auth(empty_index(), users, tokens);
    let before = schema_branches.map_values(|b: SchemaBranch| (IndexWriteOp::UpdateSchemaBranch { branch: b.name, timestamp: b.timestamp }))
        + namespaces.map_values(|n: WithId<Namespace>| IndexWriteOp::InsertNamespace(n));
    lemma_stream_inserts(apply_ops(start, before), streams);
    assert(stream_hash(streams[i]) == name_hash(ns, name));
}

/// When an index is built, a name under which no stream is recorded, and whose hash is that of
/// no recorded stream's name, is found nowhere: looking it up finds nothing.
pub proof fn lemma_built_index_misses_stream(
    users: Seq<User>,
    tokens: Seq<(u64, Claims)>,
    namespaces: Seq<WithId<Namespace>>,
    streams: Seq<WithId<Stream>>,
    pipelines: Seq<WithId<Pipeline>>,
    schema_branches: Seq<SchemaBranch>,
    control_groups: Seq<ControlGroup>,
    stream_replicas: Seq<StreamReplica>,
    pipeline_replicas: Seq<PipelineReplica>,
    ns: Seq<char>,
    name: Seq<char>,
)
    requires
        forall|a: int, b: int| 0 <= a < b < streams.len() ==> #[trigger] streams[a].id != #[trigger] streams[b].id,
        forall|a: int, b: int| 0 <= a < b < streams.len() ==> stream_hash(#[trigger] streams[a]) != stream_hash(#[trigger] streams[b]),
        forall|a: int| 0 <= a < streams.len() ==> stream_full_name(#[trigger] streams[a]) != namespaced(ns, name),
        forall|a: int| 0 <= a < streams.len() && stream_full_name(streams[a]) != namespaced(ns, name)
            ==> stream_hash(#[trigger] streams[a]) != name_hash(ns, name),
    ensures
        !apply_ops(
            with_auth(empty_index(), users, tokens),
            initial_ops(namespaces, streams, pipelines, schema_branches, control_groups, stream_replicas, pipeline_replicas),
        ).stream_names.contains_key(name_hash(ns, name)),
{
    lemma_initial_ops_split(users, tokens, namespaces, streams, pipelines, schema_branches, control_groups, stream_replicas, pipeline_replicas);
    let start = with_auth(empty_index(), users, tokens);
    let before = schema_branches.map_values(|b: SchemaBranch| (IndexWriteOp::UpdateSchemaBranch { branch: b.name, timestamp: b.timestamp }))
        + namespaces.map_values(|n: WithId<Namespace>| IndexWriteOp::InsertNamespace(n));
    lemma_stream_inserts(apply_ops(start, before), streams);
}

} // verus!
