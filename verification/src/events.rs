//! Events emitted by the cluster Raft controller as its state machine changes.

use vstd::prelude::*;

use crate::placement::{Assignment, PipelineReplica, StreamReplica};
use crate::schema::{ControlGroup, Pipeline, Stream, WithId};

verus! {

/// An event coming from the cluster Raft controller.
#[derive(Debug)]
pub enum CRCEvent {
    /// An initial payload of data.
    Initial(InitialEvent),
    /// An event indicating that a new stream was created.
    StreamCreated(StreamCreated),
    /// An event indicating that a new stream replica was created.
    StreamReplicaCreated(StreamReplica),
    /// An event indicating that a stream replica's node assignment was updated.
    StreamReplicaAssignmentUpdated(StreamReplicaAssignmentUpdated),
    /// An event indicating that a new pipeline was created.
    PipelineCreated(PipelineCreated),
    /// An event indicating that a new pipeline replica was created.
    PipelineReplicaCreated(PipelineReplica),
}

/// An initial payload of data, emitted once state has been recovered from storage.
#[derive(Debug)]
pub struct InitialEvent {
    /// All known streams in the cluster.
    pub streams: Vec<WithId<Stream>>,
    /// All known stream replicas in the cluster.
    pub stream_replicas: Vec<StreamReplica>,
    /// All known pipelines in the cluster.
    pub pipelines: Vec<WithId<Pipeline>>,
    /// All known pipeline replicas in the cluster.
    pub pipeline_replicas: Vec<PipelineReplica>,
    /// All known control groups in the cluster.
    pub control_groups: Vec<ControlGroup>,
}

impl InitialEvent {
    /// Create a new instance.
    pub fn new(
        streams: Vec<WithId<Stream>>,
        stream_replicas: Vec<StreamReplica>,
        pipelines: Vec<WithId<Pipeline>>,
        pipeline_replicas: Vec<PipelineReplica>,
        control_groups: Vec<ControlGroup>,
    ) -> (e: Self)
        ensures
            e.streams == streams,
            e.stream_replicas == stream_replicas,
            e.pipelines == pipelines,
            e.pipeline_replicas == pipeline_replicas,
            e.control_groups == control_groups,
    {
        InitialEvent { streams, stream_replicas, pipelines, pipeline_replicas, control_groups }
    }
}

/// An event indicating that a new stream was created.
#[derive(Debug)]
pub struct StreamCreated {
    /// The stream's data model.
    pub stream: WithId<Stream>,
    /// The replicas associated with this stream.
    pub replicas: Vec<StreamReplica>,
    /// This stream's control group records.
    pub control_groups: Vec<ControlGroup>,
}

/// An event indicating that a new pipeline was created.
#[derive(Debug)]
pub struct PipelineCreated {
    /// The pipeline's data model.
    pub pipeline: WithId<Pipeline>,
    /// The replicas associated with this pipeline.
    pub replicas: Vec<PipelineReplica>,
    /// This pipeline's control group record.
    pub control_group: ControlGroup,
}

/// An event indicating that a stream replica's node assignment was updated.
#[derive(Debug)]
pub struct StreamReplicaAssignmentUpdated {
    /// The stream replica's data model.
    pub replica: StreamReplica,
    /// The type of change which was applied.
    pub change: Assignment,
}

} // verus!
