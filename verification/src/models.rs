//! Data Definition Language (DDL) models, the stream resource's spec and status, and the
//! commands of the cluster Raft controller.

use vstd::prelude::*;

verus! {

//////////////////////////////////////////////////////////////////////////////////////////////////
// DDL ///////////////////////////////////////////////////////////////////////////////////////////

/// All Data Definition Language variants available in Hadron.
#[derive(Clone, Debug)]
pub enum DDL {
    Stream(Stream),
    Pipeline(Pipeline),
}

/// A durable log of events.
#[derive(Clone, Debug)]
pub struct Stream {
    /// The name of this stream.
    pub name: String,
    /// The current revision number of this object.
    pub revision: u64,
}

/// A multi-stage data workflow.
#[derive(Clone, Debug)]
pub struct Pipeline {
    /// The name of this pipeline.
    pub name: String,
    /// The name of the stream which can trigger this pipeline.
    pub trigger_stream: String,
    /// The current revision number of this object.
    pub revision: u64,
    /// The stages of this pipeline.
    pub stages: Vec<PipelineStage>,
}

/// A single pipeline stage.
#[derive(Clone, Debug)]
pub struct PipelineStage {
    /// The name of this pipeline stage, which is unique per pipeline.
    pub name: String,
    /// All stages which must complete before this stage may be started.
    pub after: Option<Vec<String>>,
    /// All inputs which this stage depends upon in order to be started.
    pub dependencies: Option<Vec<String>>,
    /// All outputs which this stage must produce in order to complete successfully.
    pub outputs: Option<Vec<PipelineStageOutput>>,
}

/// A pipeline stage output definition.
#[derive(Clone, Debug)]
pub struct PipelineStageOutput {
    /// The name of this pipeline stage output, which is unique per pipeline stage.
    pub name: String,
    /// The name of the stream to which this output event is to be published.
    pub stream: String,
}

//////////////////////////////////////////////////////////////////////////////////////////////////
// Stream resource ///////////////////////////////////////////////////////////////////////////////

/// The specification of a stream resource: how it is partitioned and replicated.
#[derive(Clone, Copy, Debug, PartialEq, Eq, Structural)]
pub struct StreamSpec {
    /// The number of partitions to be created for this stream.
    pub partitions: u8,
    /// The number of replicas to be used per partition.
    pub replicas: u8,
    /// How long, in seconds, records are kept on the stream; 0 keeps them forever.
    pub ttl: u64,
}

/// The status of a stream resource.
#[derive(Clone, Copy, Debug, PartialEq, Eq, Structural)]
pub struct StreamStatus {
    /// The number of partitions created for this stream.
    pub partitions: u8,
    /// The number of replicas used per partition.
    pub replicas: u8,
}

//////////////////////////////////////////////////////////////////////////////////////////////////
// Controller commands ///////////////////////////////////////////////////////////////////////////

/// A command signal coming from the cluster Raft controller.
#[derive(Clone, Debug)]
pub enum CRCCommand {
    /// Create a new Stream Partition Controller (SPC).
    CreateSPC(SPCSpec),
    /// Create a new Stream Consumer Controller (SCC).
    CreateSCC(SCCSpec),
    /// Create a new Pipeline Controller (PLC).
    CreatePLC(PLCSpec),
}

/// A spec for building a Stream Partition Controller (SPC).
#[derive(Clone, Debug)]
pub struct SPCSpec {
    /// The stream's data model.
    pub stream: Stream,
    /// The partition number for this controller.
    pub partition: u8,
}

/// A spec for building a Stream Consumer Controller (SCC).
#[derive(Clone, Debug)]
pub struct SCCSpec {
    /// The stream's data model.
    pub stream: Stream,
}

/// A spec for building a Pipeline Controller (PLC).
#[derive(Clone, Debug)]
pub struct PLCSpec {
    /// The pipeline's data model.
    pub pipeline: Pipeline,
}

} // verus!
