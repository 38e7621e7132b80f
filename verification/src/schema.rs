//! Schema models: namespaces, streams, pipelines, schema branches and control groups.

use vstd::prelude::*;
use vstd::string::StringExecFns;

use crate::placement::NodeId;

verus! {

/// The `namespace/name` form of a namespaced object's name.
pub open spec fn namespaced(ns: Seq<char>, name: Seq<char>) -> Seq<char> {
    ns + seq!['/'] + name
}

/// Render `namespace/name`.
pub fn namespaced_name(ns: &str, name: &str) -> (s: String)
    ensures
        s@ == namespaced(ns@, name@),
{
    let s = ns.to_owned();
    let s = s.concat("/");
    proof {
        reveal_strlit("/");
        assert("/"@ =~= seq!['/']);
    }
    s.concat(name)
}

/// An object along with its unique ID.
#[derive(Clone, Debug)]
pub struct WithId<T> {
    pub id: u64,
    pub model: T,
}

/// A namespace: the scope within which streams, pipelines and endpoints are named.
#[derive(Clone, Debug)]
pub struct Namespace {
    pub name: String,
    pub description: String,
}

/// A durable, partitioned log of events.
#[derive(Clone, Debug)]
pub struct Stream {
    pub namespace: String,
    pub name: String,
    pub partitions: u32,
    pub replication_factor: u8,
}

impl Stream {
    /// The `namespace/name` of this stream.
    pub fn namespaced_name(&self) -> (s: String)
        ensures
            s@ == namespaced(self.namespace@, self.name@),
    {
        namespaced_name(self.namespace.as_str(), self.name.as_str())
    }
}

/// A multi-stage data workflow, triggered by a stream.
#[derive(Clone, Debug)]
pub struct Pipeline {
    pub namespace: String,
    pub name: String,
    pub trigger_stream: String,
    pub replication_factor: u8,
}

impl Pipeline {
    /// The `namespace/name` of this pipeline.
    pub fn namespaced_name(&self) -> (s: String)
        ensures
            s@ == namespaced(self.namespace@, self.name@),
    {
        namespaced_name(self.namespace.as_str(), self.name.as_str())
    }
}

/// A managed schema branch, along with the timestamp of the last change applied from it.
#[derive(Clone, Debug)]
pub struct SchemaBranch {
    pub name: String,
    pub timestamp: i64,
}

/// The object governed by a control group.
#[derive(Clone, Copy, Debug, PartialEq, Eq, Structural)]
pub enum ControlGroupObjectRef {
    /// A partition of a stream.
    Stream { id: u64, partition: u32 },
    /// A pipeline.
    Pipeline { id: u64 },
}

/// A control group: the set of nodes which jointly run a stream partition or a pipeline.
#[derive(Clone, Debug)]
pub struct ControlGroup {
    pub id: u64,
    pub object_ref: ControlGroupObjectRef,
    /// The current leader of the group along with the term of its leadership.
    pub leader: Option<(NodeId, u64)>,
    pub nodes: Vec<NodeId>,
}

/// The mathematical form of a control group.
pub struct ControlGroupView {
    pub id: u64,
    pub object_ref: ControlGroupObjectRef,
    pub leader: Option<(NodeId, u64)>,
    pub nodes: Seq<NodeId>,
}

impl View for ControlGroup {
    type V = ControlGroupView;

    open spec fn view(&self) -> ControlGroupView {
        ControlGroupView { id: self.id, object_ref: self.object_ref, leader: self.leader, nodes: self.nodes@ }
    }
}

impl ControlGroup {
    /// A copy of this control group.
    pub fn copy(&self) -> (r: Self)
        ensures
            r@ == self@,
    {
        let nodes = self.nodes.clone();
        proof {
            assert(nodes@ =~= self.nodes@);
        }
        ControlGroup { id: self.id, object_ref: self.object_ref, leader: self.leader, nodes }
    }
}

/// A schema statement: the declaration of one object.
#[derive(Clone, Debug)]
pub enum SchemaStatement {
    Namespace(Namespace),
    Stream(Stream),
    Pipeline(Pipeline),
}

/// A schema update: a set of statements, either from a managed branch or one-off.
#[derive(Clone, Debug)]
pub enum SchemaUpdate {
    Managed { branch: String, timestamp: i64, statements: Vec<SchemaStatement> },
    OneOff { statements: Vec<SchemaStatement> },
}

} // verus!
