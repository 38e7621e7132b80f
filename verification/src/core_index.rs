//! The core data index: the namespaces of the system, and the streams and pipelines of each,
//! with the next entry ID of each stream.

use vstd::prelude::*;
use vstd::string::StringExecFns;

use crate::codec::{be_bytes, encode_u64};
use crate::database::{stream_tree_name, stream_tree_name_spec};
use crate::error::{AppError, ShutdownError};
use crate::strmap::StrMap;

verus! {

//////////////////////////////////////////////////////////////////////////////////////////////////
// Models ////////////////////////////////////////////////////////////////////////////////////////

/// What the index keeps of a stream.
#[derive(Debug)]
pub struct StreamMeta {
    /// The next available entry ID for this stream.
    pub next_id: u64,
    /// A description of this stream.
    pub description: String,
}

impl StreamMeta {
    /// The record of a new stream, whose first entry will have ID 0.
    pub fn new(description: String) -> (m: Self)
        ensures
            m.next_id == 0,
            m.description == description,
    {
        StreamMeta { next_id: 0, description }
    }
}

/// What the index keeps of a pipeline.
#[derive(Debug)]
pub struct PipelineMeta {
    /// The next available ID for this pipeline.
    pub next_id: u64,
    /// The name of the stream which may trigger this pipeline.
    pub trigger: String,
    /// A description of this pipeline.
    pub description: String,
}

impl PipelineMeta {
    /// The record of a new pipeline, whose first ID will be 0.
    pub fn new(trigger: String, description: String) -> (m: Self)
        ensures
            m.next_id == 0,
            m.trigger == trigger,
            m.description == description,
    {
        PipelineMeta { next_id: 0, trigger, description }
    }
}

/// What the index keeps of a namespace: its description, and its endpoints, streams and
/// pipelines by name.
#[derive(Debug)]
pub struct NamespaceIndex {
    pub description: String,
    pub endpoints: StrMap<()>,
    pub streams: StrMap<StreamMeta>,
    pub pipelines: StrMap<PipelineMeta>,
}

/// The mathematical form of a namespace's record.
pub struct NamespaceView {
    pub description: Seq<char>,
    pub endpoints: Set<Seq<char>>,
    /// Each stream's next entry ID.
    pub streams: Map<Seq<char>, u64>,
    /// Each pipeline's next ID and trigger stream.
    pub pipelines: Map<Seq<char>, (u64, Seq<char>)>,
}

impl NamespaceIndex {
    pub open spec fn wf(&self) -> bool {
        self.endpoints.wf() && self.streams.wf() && self.pipelines.wf()
    }

    pub open spec fn nview(&self) -> NamespaceView {
        NamespaceView {
            description: self.description@,
            endpoints: self.endpoints@.dom(),
            streams: self.streams@.map_values(|m: StreamMeta| m.next_id),
            pipelines: self.pipelines@.map_values(|m: PipelineMeta| (m.next_id, m.trigger@)),
        }
    }

    /// The record of a new namespace: nothing in it yet.
    pub fn new(description: String) -> (n: Self)
        ensures
            n.wf(),
            n.nview() == (NamespaceView {
                description: description@,
                endpoints: Set::empty(),
                streams: Map::empty(),
                pipelines: Map::empty(),
            }),
    {
        let n = NamespaceIndex {
            description,
            endpoints: StrMap::new(),
            streams: StrMap::new(),
            pipelines: StrMap::new(),
        };
        proof {
            assert(n.endpoints@.dom() =~= Set::<Seq<char>>::empty());
            assert(n.streams@.map_values(|m: StreamMeta| m.next_id) =~= Map::<Seq<char>, u64>::empty());
            assert(n.pipelines@.map_values(|m: PipelineMeta| (m.next_id, m.trigger@)) =~= Map::<Seq<char>, (u64, Seq<char>)>::empty());
        }
        n
    }
}

/// The core data index.
#[derive(Debug)]
pub struct HCoreIndex {
    /// The namespaces of the system, by name.
    pub namespaces: StrMap<NamespaceIndex>,
}

/// The mathematical form of the namespaces' records.
pub open spec fn namespaces_view(m: Map<Seq<char>, NamespaceIndex>) -> Map<Seq<char>, NamespaceView> {
    Map::new(|k: Seq<char>| m.contains_key(k), |k: Seq<char>| m[k].nview())
}

impl HCoreIndex {
    pub open spec fn wf(&self) -> bool {
        &&& self.namespaces.wf()
        &&& forall|k: Seq<char>| #[trigger] self.namespaces@.contains_key(k) ==> self.namespaces@[k].wf()
    }

    pub open spec fn iview(&self) -> Map<Seq<char>, NamespaceView> {
        namespaces_view(self.namespaces@)
    }

    /// An empty index.
    pub fn new() -> (idx: Self)
        ensures
            idx.wf(),
            idx.iview() == Map::<Seq<char>, NamespaceView>::empty(),
    {
        let idx = HCoreIndex { namespaces: StrMap::new() };
        proof {
            assert(idx.iview() =~= Map::<Seq<char>, NamespaceView>::empty());
        }
        idx
    }
}

//////////////////////////////////////////////////////////////////////////////////////////////////
// Writes ////////////////////////////////////////////////////////////////////////////////////////

/// An operation on the index.
#[derive(Debug)]
pub enum IndexWriteOp {
    /// Insert a new namespace record into the index.
    InsertNamespace { name: String, description: String },
    /// Insert a new stream record into the index.
    InsertStream { namespace: String, name: String, meta: StreamMeta },
    /// Insert a new pipeline record into the index.
    InsertPipeline { namespace: String, name: String, meta: PipelineMeta },
}

/// The records after one operation, or `None` where the operation's namespace is missing.
pub open spec fn apply_core_op(v: Map<Seq<char>, NamespaceView>, op: IndexWriteOp) -> Option<Map<Seq<char>, NamespaceView>> {
    match op {
        IndexWriteOp::InsertNamespace { name, description } => Some(v.insert(name@, NamespaceView {
            description: description@,
            endpoints: Set::empty(),
            streams: Map::empty(),
            pipelines: Map::empty(),
        })),
        IndexWriteOp::InsertStream { namespace, name, meta } => if v.contains_key(namespace@) {
            Some(v.insert(namespace@, NamespaceView {
                streams: v[namespace@].streams.insert(name@, meta.next_id),
                ..v[namespace@]
            }))
        } else {
            None
        },
        IndexWriteOp::InsertPipeline { namespace, name, meta } => if v.contains_key(namespace@) {
            Some(v.insert(namespace@, NamespaceView {
                pipelines: v[namespace@].pipelines.insert(name@, (meta.next_id, meta.trigger@)),
                ..v[namespace@]
            }))
        } else {
            None
        },
    }
}

/// The records after applying operations in order, and whether every one applied: the first
/// operation whose namespace is missing stops the batch, those before it staying applied.
pub open spec fn apply_core_ops(v: Map<Seq<char>, NamespaceView>, ops: Seq<IndexWriteOp>) -> (Map<Seq<char>, NamespaceView>, bool)
    decreases ops.len(),
{
    if ops.len() == 0 {
        (v, true)
    } else {
        let (before, ok) = apply_core_ops(v, ops.drop_last());
        if !ok {
            (before, false)
        } else {
            match apply_core_op(before, ops.last()) {
                Some(after) => (after, true),
                None => (before, false),
            }
        }
    }
}

/// The message of the error raised when an operation names a missing namespace.
pub open spec fn missing_namespace_message() -> Seq<char> {
    "namespace not found in index, this is a bug, please open an issue"@
}

impl HCoreIndex {
    /// Apply one operation.
    fn apply_op(&mut self, op: IndexWriteOp) -> (ok: bool)
        requires
            old(self).wf(),
        ensures
            final(self).wf(),
            match apply_core_op(old(self).iview(), op) {
                Some(after) => ok && final(self).iview() == after,
                None => !ok && final(self).iview() == old(self).iview(),
            },
    {
        let ghost before = self.namespaces@;
        match op {
            IndexWriteOp::InsertNamespace { name, description } => {
                let ns = NamespaceIndex::new(description);
                self.namespaces.insert(name, ns);
                proof {
                    assert(self.iview() =~= apply_core_op(namespaces_view(before), op).unwrap());
                }
                true
            },
            IndexWriteOp::InsertStream { namespace, name, meta } => {
                match self.namespaces.remove(namespace.as_str()) {
                    None => {
                        proof {
                            assert(self.namespaces@ =~= before);
                        }
                        false
                    },
                    Some(mut ns) => {
                        ns.streams.insert(name, meta);
                        self.namespaces.insert(namespace, ns);
                        proof {
                            assert(ns.streams@.map_values(|m: StreamMeta| m.next_id) =~= before[namespace@].streams@.map_values(
                                |m: StreamMeta| m.next_id,
                            ).insert(name@, meta.next_id));
                            assert(self.iview() =~= apply_core_op(namespaces_view(before), op).unwrap());
                        }
                        true
                    },
                }
            },
            IndexWriteOp::InsertPipeline { namespace, name, meta } => {
                match self.namespaces.remove(namespace.as_str()) {
                    None => {
                        proof {
                            assert(self.namespaces@ =~= before);
                        }
                        false
                    },
                    Some(mut ns) => {
                        let ghost entry = (meta.next_id, meta.trigger@);
                        ns.pipelines.insert(name, meta);
                        self.namespaces.insert(namespace, ns);
                        proof {
                            assert(ns.pipelines@.map_values(|m: PipelineMeta| (m.next_id, m.trigger@)) =~= before[namespace@].pipelines@.map_values(
                                |m: PipelineMeta| (m.next_id, m.trigger@),
                            ).insert(name@, entry));
                            assert(self.iview() =~= apply_core_op(namespaces_view(before), op).unwrap());
                        }
                        true
                    },
                }
            },
        }
    }

    /// Apply a batch of operations in order.
    ///
    /// An operation on a missing namespace is a bug that requires the system to shut down: the
    /// batch stops there with an error, the operations before it staying applied.
    pub fn apply_batch(&mut self, ops: Vec<IndexWriteOp>) -> (r: Result<(), ShutdownError>)
        requires
            old(self).wf(),
        ensures
            final(self).wf(),
            final(self).iview() == apply_core_ops(old(self).iview(), ops@).0,
            r is Ok <==> apply_core_ops(old(self).iview(), ops@).1,
            r matches Err(e) ==> e.message@ == missing_namespace_message(),
    {
        let ghost start = self.iview();
        let ghost all = ops@;
        assert(all.len() <= usize::MAX) by {
            assert(ops@.len() == ops.len());
        }
        let mut rest = ops;
        let mut applied: usize = 0;
        while rest.len() > 0
            invariant
                self.wf(),
                all == ops@,
                all.len() <= usize::MAX,
                start == old(self).iview(),
                applied + rest@.len() == all.len(),
                rest@ == all.skip(applied as int),
                apply_core_ops(start, all.take(applied as int)) == (self.iview(), true),
            decreases rest.len(),
        {
            let op = rest.remove(0);
            proof {
                assert(rest@ =~= all.skip(applied as int + 1));
            }
            proof {
                assert(op == all[applied as int]);
                assert(all.take(applied as int + 1).drop_last() =~= all.take(applied as int));
            }
            let ghost pre = self.iview();
            if !self.apply_op(op) {
                proof {
                    assert(all.take(applied as int + 1).last() == op);
                    assert(apply_core_ops(start, all.take(applied as int + 1)) == (pre, false));
                    lemma_failure_sticks(start, all, applied as int + 1);
                }
                return Err(ShutdownError {
                    message: String::from_str("namespace not found in index, this is a bug, please open an issue"),
                });
            }
            applied = applied + 1;
        }
        proof {
            assert(all.take(all.len() as int) =~= all);
        }
        Ok(())
    }
}

proof fn lemma_failure_sticks(v: Map<Seq<char>, NamespaceView>, ops: Seq<IndexWriteOp>, i: int)
    requires
        0 < i <= ops.len(),
        !apply_core_ops(v, ops.take(i)).1,
    ensures
        apply_core_ops(v, ops) == apply_core_ops(v, ops.take(i)),
    decreases ops.len() - i,
{
    if i < ops.len() {
        assert(ops.take(i + 1).drop_last() =~= ops.take(i));
        lemma_failure_sticks(v, ops, i + 1);
    } else {
        assert(ops.take(i) =~= ops);
    }
}

//////////////////////////////////////////////////////////////////////////////////////////////////
// Reads /////////////////////////////////////////////////////////////////////////////////////////

impl HCoreIndex {
    /// Get a namespace's record.
    pub fn get_namespace(&self, ns: &str) -> (r: Option<&NamespaceIndex>)
        requires
            self.wf(),
        ensures
            match r {
                Some(n) => self.namespaces@.contains_key(ns@) && *n == self.namespaces@[ns@],
                None => !self.namespaces@.contains_key(ns@),
            },
    {
        self.namespaces.get(ns)
    }

    /// Get a stream's record.
    pub fn get_stream(&self, ns: &str, stream: &str) -> (r: Option<&StreamMeta>)
        requires
            self.wf(),
        ensures
            match r {
                Some(m) => self.iview().contains_key(ns@) && self.iview()[ns@].streams.contains_key(stream@)
                    && m.next_id == self.iview()[ns@].streams[stream@],
                None => !(self.iview().contains_key(ns@) && self.iview()[ns@].streams.contains_key(stream@)),
            },
    {
        match self.namespaces.get(ns) {
            None => None,
            Some(n) => n.streams.get(stream),
        }
    }

    /// Get a pipeline's record.
    pub fn get_pipeline(&self, ns: &str, pipeline: &str) -> (r: Option<&PipelineMeta>)
        requires
            self.wf(),
        ensures
            match r {
                Some(m) => self.iview().contains_key(ns@) && self.iview()[ns@].pipelines.contains_key(pipeline@)
                    && (m.next_id, m.trigger@) == self.iview()[ns@].pipelines[pipeline@],
                None => !(self.iview().contains_key(ns@) && self.iview()[ns@].pipelines.contains_key(pipeline@)),
            },
    {
        match self.namespaces.get(ns) {
            None => None,
            Some(n) => n.pipelines.get(pipeline),
        }
    }
}

//////////////////////////////////////////////////////////////////////////////////////////////////
// Publishing ////////////////////////////////////////////////////////////////////////////////////

/// Where a published payload is written: the entry ID it is given, the tree of its stream, and
/// its key in that tree.
#[derive(Debug)]
pub struct StreamEntryWrite {
    pub id: u64,
    pub tree: String,
    pub key: Vec<u8>,
}

impl HCoreIndex {
    /// Give a payload published to a stream its entry ID, advancing the stream's next ID, and
    /// say where it is written: in the stream's tree, under the ID's big-endian bytes.
    ///
    /// A stream missing from the index is invalid input.
    pub fn apply_stream_pub(&mut self, ns: &str, stream: &str) -> (r: Result<StreamEntryWrite, AppError>)
        requires
            old(self).wf(),
            old(self).iview().contains_key(ns@) && old(self).iview()[ns@].streams.contains_key(stream@)
                ==> old(self).iview()[ns@].streams[stream@] < u64::MAX,
        ensures
            final(self).wf(),
            !(old(self).iview().contains_key(ns@) && old(self).iview()[ns@].streams.contains_key(stream@)) ==> {
                &&& final(self).iview() == old(self).iview()
                &&& r matches Err(AppError::InvalidInput(m))
                &&& m@ == "target stream does not exist"@
            },
            old(self).iview().contains_key(ns@) && old(self).iview()[ns@].streams.contains_key(stream@) ==> {
                let id = old(self).iview()[ns@].streams[stream@];
                &&& r matches Ok(w)
                &&& w.id == id
                &&& w.tree@ == stream_tree_name_spec(ns@, stream@)
                &&& w.key@ == be_bytes(id)
                &&& final(self).iview() == old(self).iview().insert(ns@, NamespaceView {
                    streams: old(self).iview()[ns@].streams.insert(stream@, (id + 1) as u64),
                    ..old(self).iview()[ns@]
                })
            },
    {
        let ghost before = self.namespaces@;
        let mut n = match self.namespaces.remove(ns) {
            None => {
                proof {
                    assert(self.namespaces@ =~= before);
                }
                return Err(AppError::InvalidInput(String::from_str("target stream does not exist")));
            },
            Some(n) => n,
        };
        let mut meta = match n.streams.remove(stream) {
            None => {
                self.namespaces.insert(String::from_str(ns), n);
                proof {
                    assert(n.streams@ =~= before[ns@].streams@);
                    assert(self.iview() =~= namespaces_view(before));
                }
                return Err(AppError::InvalidInput(String::from_str("target stream does not exist")));
            },
            Some(m) => m,
        };
        let id = meta.next_id;
        meta.next_id = id + 1;
        n.streams.insert(String::from_str(stream), meta);
        self.namespaces.insert(String::from_str(ns), n);
        proof {
            assert(n.streams@.map_values(|m: StreamMeta| m.next_id) =~= before[ns@].streams@.map_values(
                |m: StreamMeta| m.next_id,
            ).insert(stream@, (id + 1) as u64));
            assert(self.iview() =~= namespaces_view(before).insert(ns@, NamespaceView {
                streams: namespaces_view(before)[ns@].streams.insert(stream@, (id + 1) as u64),
                ..namespaces_view(before)[ns@]
            }));
        }
        Ok(StreamEntryWrite { id, tree: stream_tree_name(ns, stream), key: encode_u64(id) })
    }
}

} // verus!
