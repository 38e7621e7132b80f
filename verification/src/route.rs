//! Routing of client requests: where a stream publisher's connection is handled, whether a
//! publication is admitted, what becomes of a write submitted to Raft, and to which node a
//! request is forwarded.

use std::collections::{HashMap, HashSet};
use vstd::prelude::*;
use vstd::string::StringExecFns;

use crate::auth::{Claims, CredentialsError, TokenCredentials};
use crate::codec::{decimal, u64_to_decimal};
use crate::config::Config;
use crate::error::{AppError, RpcStatus, StatusCode};
use crate::index::{CRCIndex, CRCIndexView, IndexWriteOp, apply_op, name_hash, hash_namespaced_name};
use crate::placement::NodeId;
use crate::schema::{ControlGroup, ControlGroupObjectRef, Stream, WithId};

verus! {

broadcast use vstd::std_specs::hash::group_hash_axioms;

//////////////////////////////////////////////////////////////////////////////////////////////////
// Stream publisher connections //////////////////////////////////////////////////////////////////

/// The frame with which a stream publisher opens its connection.
#[derive(Clone, Debug)]
pub struct StreamPubConnect {
    /// The namespace of the target stream.
    pub namespace: String,
    /// The name of the target stream.
    pub stream: String,
    /// The target partition of the stream.
    pub partition: u32,
}

/// A frame sent by a stream publisher.
#[derive(Clone, Debug)]
pub enum StreamPubFrame {
    /// A request to connect to a stream partition.
    Connect(StreamPubConnect),
    /// A batch of records to publish.
    Payload,
}

/// Where a stream publisher's connection goes.
#[derive(Debug)]
pub enum StreamPubRouting {
    /// No credentials were provided: the call fails.
    NoCredentials,
    /// The credentials provided are malformed: the call fails.
    BadCredentials(CredentialsError),
    /// The token of the credentials is unknown: the call fails.
    UnknownToken,
    /// The publisher closed its channel before its first frame: the call fails.
    ChannelClosed,
    /// The first frame is not a connect frame: the call fails.
    ExpectedConnectFrame,
    /// The target stream is unknown on this node: the connection is answered with an error.
    UnknownStream,
    /// The target partition has no control group: the connection is answered with an error.
    InconsistentIndex,
    /// Another node leads the target partition: the connection is answered with that node.
    Redirect { leader: NodeId },
    /// This node leads the target partition, or no node does yet: the connection is handed to
    /// the partition's controller.
    Forward { cg: ControlGroup },
}

/// The status that a stream publisher's connection is answered with where it goes nowhere:
/// with the code and message of each failure.
pub open spec fn routing_failure(r: StreamPubRouting) -> Option<(StatusCode, Seq<char>)> {
    match r {
        StreamPubRouting::NoCredentials => Some((StatusCode::Unauthenticated, "no credentials provided"@)),
        StreamPubRouting::BadCredentials(e) => Some((StatusCode::Internal, e.spec_message())),
        StreamPubRouting::UnknownToken => Some((AppError::UnknownToken.spec_code(), AppError::UnknownToken.spec_message())),
        StreamPubRouting::ChannelClosed => Some((StatusCode::Cancelled, "channel closed by client"@)),
        StreamPubRouting::ExpectedConnectFrame => Some((StatusCode::InvalidArgument, "expected an initial connect frame"@)),
        StreamPubRouting::UnknownStream => Some(
            (StatusCode::InvalidArgument, "metadata on the target stream does not exist on this node"@),
        ),
        StreamPubRouting::InconsistentIndex => Some((StatusCode::FailedPrecondition, "inconsistent data index, this is a bug"@)),
        _ => None,
    }
}

impl StreamPubRouting {
    /// The status that the connection is answered with where it goes nowhere.
    pub fn failure_status(&self) -> (s: Option<RpcStatus>)
        ensures
            match routing_failure(*self) {
                Some((code, msg)) => s matches Some(st) && st.code == code && st.message@ == msg,
                None => s is None,
            },
    {
        match self {
            StreamPubRouting::NoCredentials => Some(RpcStatus {
                code: StatusCode::Unauthenticated,
                message: String::from_str("no credentials provided"),
            }),
            StreamPubRouting::BadCredentials(e) => Some(RpcStatus { code: StatusCode::Internal, message: e.message() }),
            StreamPubRouting::UnknownToken => Some(AppError::UnknownToken.into_status()),
            StreamPubRouting::ChannelClosed => Some(RpcStatus {
                code: StatusCode::Cancelled,
                message: String::from_str("channel closed by client"),
            }),
            StreamPubRouting::ExpectedConnectFrame => Some(RpcStatus {
                code: StatusCode::InvalidArgument,
                message: String::from_str("expected an initial connect frame"),
            }),
            StreamPubRouting::UnknownStream => Some(RpcStatus {
                code: StatusCode::InvalidArgument,
                message: String::from_str("metadata on the target stream does not exist on this node"),
            }),
            StreamPubRouting::InconsistentIndex => Some(RpcStatus {
                code: StatusCode::FailedPrecondition,
                message: String::from_str("inconsistent data index, this is a bug"),
            }),
            _ => None,
        }
    }
}

/// The leader named in the answer to a publisher redirected to another node: its ID in decimal.
pub fn redirect_leader_name(leader: NodeId) -> (s: String)
    ensures
        s@ == decimal(leader as nat),
{
    u64_to_decimal(leader)
}

/// The routing of a stream publisher's connection, given the index and what the connection
/// brought: its auth header, if any, and its first frame, or `None` where the channel closed
/// first.
pub open spec fn stream_pub_route(
    index: crate::index::CRCIndexView,
    node_id: NodeId,
    header: Option<Seq<u8>>,
    first: Option<StreamPubFrame>,
) -> StreamPubRouting {
    match header {
        None => StreamPubRouting::NoCredentials,
        Some(h) => match TokenCredentials::spec_from_auth_header(h) {
            Err(e) => StreamPubRouting::BadCredentials(e),
            Ok(token_id) => if !index.tokens.contains_key(token_id) {
                StreamPubRouting::UnknownToken
            } else {
                match first {
                    None => StreamPubRouting::ChannelClosed,
                    Some(StreamPubFrame::Payload) => StreamPubRouting::ExpectedConnectFrame,
                    Some(StreamPubFrame::Connect(conn)) => {
                        let hash = name_hash(conn.namespace@, conn.stream@);
                        if !index.stream_names.contains_key(hash) {
                            StreamPubRouting::UnknownStream
                        } else {
                            let key = (index.stream_names[hash], conn.partition);
                            if !index.stream_control_groups.contains_key(key)
                                || !index.control_groups.contains_key(index.stream_control_groups[key]) {
                                StreamPubRouting::InconsistentIndex
                            } else {
                                let cg = index.control_groups[index.stream_control_groups[key]];
                                match cg.leader {
                                    Some((leader, _)) => if leader != node_id {
                                        StreamPubRouting::Redirect { leader }
                                    } else {
                                        StreamPubRouting::Forward { cg }
                                    },
                                    None => StreamPubRouting::Forward { cg },
                                }
                            }
                        }
                    },
                }
            },
        },
    }
}

/// Whether two routings agree, control groups compared by their mathematical form.
pub open spec fn same_routing(a: StreamPubRouting, b: StreamPubRouting) -> bool {
    match (a, b) {
        (StreamPubRouting::Forward { cg: x }, StreamPubRouting::Forward { cg: y }) => x@ == y@,
        _ => a == b,
    }
}

/// Route a stream publisher's connection: authenticate it, read its connect frame, find the
/// control group of its target partition, and decide whether this node takes the connection.
///
/// The credentials are checked first, then the first frame, then the index; the routing says at
/// which step the connection stops.
pub fn route_stream_pub(
    index: &CRCIndex,
    node_id: NodeId,
    config: &Config,
    header: Option<Vec<u8>>,
    first: Option<StreamPubFrame>,
) -> (r: StreamPubRouting)
    requires
        index.wf(),
    ensures
        same_routing(r, stream_pub_route(index@, node_id, match header { Some(h) => Some(h@), None => None }, first)),
{
    let header = match header {
        None => return StreamPubRouting::NoCredentials,
        Some(h) => h,
    };
    let creds = match TokenCredentials::from_auth_header(header, config) {
        Err(e) => return StreamPubRouting::BadCredentials(e),
        Ok(creds) => creds,
    };
    if index.must_get_token_claims(&creds.id).is_err() {
        return StreamPubRouting::UnknownToken;
    }
    let conn = match first {
        None => return StreamPubRouting::ChannelClosed,
        Some(StreamPubFrame::Payload) => return StreamPubRouting::ExpectedConnectFrame,
        Some(StreamPubFrame::Connect(conn)) => conn,
    };
    let hash = hash_namespaced_name(conn.namespace.as_str(), conn.stream.as_str());
    let stream_id = match index.stream_names.get(&hash) {
        None => return StreamPubRouting::UnknownStream,
        Some(id) => *id,
    };
    let cg = match index.get_stream_control_group(stream_id, conn.partition) {
        None => return StreamPubRouting::InconsistentIndex,
        Some(cg) => cg.copy(),
    };
    match cg.leader {
        Some((leader, _)) => {
            if leader != node_id {
                return StreamPubRouting::Redirect { leader };
            }
        },
        None => {},
    }
    StreamPubRouting::Forward { cg }
}

/// Once a stream and the control group of one of its partitions are in the index, an
/// authenticated publisher connecting to that partition reaches the group: it is handed to the
/// partition's controller where this node leads the group or no node does yet, and redirected
/// to the leader otherwise.
pub proof fn lemma_indexed_partition_is_routed(
    v: CRCIndexView,
    stream: WithId<Stream>,
    cg: ControlGroup,
    node_id: NodeId,
    header: Seq<u8>,
    conn: StreamPubConnect,
)
    requires
        TokenCredentials::spec_from_auth_header(header) is Ok,
        v.tokens.contains_key(TokenCredentials::spec_from_auth_header(header)->Ok_0),
        conn.namespace@ == stream.model.namespace@,
        conn.stream@ == stream.model.name@,
        cg.object_ref == (ControlGroupObjectRef::Stream { id: stream.id, partition: conn.partition }),
    ensures
        ({
            let w = apply_op(apply_op(v, IndexWriteOp::InsertStream(stream)), IndexWriteOp::InsertControlGroup(cg));
            let r = stream_pub_route(w, node_id, Some(header), Some(StreamPubFrame::Connect(conn)));
            match cg.leader {
                Some((leader, _)) => if leader != node_id {
                    r == StreamPubRouting::Redirect { leader }
                } else {
                    r == StreamPubRouting::Forward { cg }
                },
                None => r == StreamPubRouting::Forward { cg },
            }
        }),
{
}

//////////////////////////////////////////////////////////////////////////////////////////////////
// Stream publications through Raft //////////////////////////////////////////////////////////////

/// A request to publish a payload to a stream.
#[derive(Clone, Debug)]
pub struct StreamPubRequest {
    /// The namespace of the target stream.
    pub namespace: String,
    /// The name of the target stream.
    pub stream: String,
    /// The payload to publish.
    pub payload: Vec<u8>,
}

/// The response to a publication: the ID of the entry written.
#[derive(Clone, Copy, Debug, PartialEq, Eq, Structural)]
pub struct StreamPubResponse {
    pub id: u64,
}

/// Admit a stream publication: the token must be known, and its claims must permit publishing
/// to the target stream.
pub fn admit_stream_pub(tokens: &HashMap<u64, Claims>, token_id: u64, namespace: &str, stream: &str) -> (r: Result<(), AppError>)
    ensures
        !tokens@.contains_key(token_id) ==> r matches Err(AppError::UnknownToken),
        tokens@.contains_key(token_id) && !tokens@[token_id].permits_stream_pub(namespace@, stream@)
            ==> r matches Err(AppError::Unauthorized),
        tokens@.contains_key(token_id) && tokens@[token_id].permits_stream_pub(namespace@, stream@) ==> r is Ok,
{
    let claims = match tokens.get(&token_id) {
        None => return Err(AppError::UnknownToken),
        Some(claims) => claims,
    };
    claims.check_stream_pub_auth(namespace, stream)
}

/// What a Raft node answers to a client write: the data of the applied entry, or an error, or
/// the request handed back to be forwarded to the leader, which is named where known.
#[derive(Debug)]
pub enum ClientWriteResult<Req, Res> {
    Applied(Res),
    RaftError(String),
    ForwardToLeader(Req, Option<NodeId>),
}

/// The requests of the core Raft, as far as stream publication is concerned.
#[derive(Debug)]
pub enum CoreRaftRequest {
    StreamPub(StreamPubRequest),
    /// A request of another kind.
    Other,
}

/// The responses of the core Raft, as far as stream publication is concerned.
#[derive(Debug)]
pub enum CoreRaftResponse {
    StreamPub(StreamPubResponse),
    /// A response of another kind.
    Other,
}

/// Why a client write failed.
#[derive(Debug)]
pub enum WriteFailure {
    /// The storage layer answered with a response of another kind than the request's.
    UnexpectedVariant,
    /// Raft itself failed, with the given message.
    Raft(String),
}

impl WriteFailure {
    /// The failure's message.
    pub open spec fn spec_message(&self) -> Seq<char> {
        match self {
            WriteFailure::UnexpectedVariant => "error handling response from storage layer, unexpected variant"@,
            WriteFailure::Raft(m) => m@,
        }
    }

    /// Render the failure's message.
    pub fn message(&self) -> (s: String)
        ensures
            s@ == self.spec_message(),
    {
        match self {
            WriteFailure::UnexpectedVariant => String::from_str("error handling response from storage layer, unexpected variant"),
            WriteFailure::Raft(m) => m.clone(),
        }
    }
}

/// What becomes of a stream publication once Raft has answered.
#[derive(Debug)]
pub enum StreamPubOutcome {
    /// Answer the publisher with the response.
    Reply(StreamPubResponse),
    /// Answer the publisher with an error.
    Fail(WriteFailure),
    /// Forward the publication to the leader, named where known.
    Forward { req: StreamPubRequest, leader: Option<NodeId> },
}

/// Decide what becomes of a stream publication once Raft has answered: an applied publication is
/// answered with its response; a request handed back for forwarding goes to the leader; any other
/// variant, or a Raft error, fails the publication.
pub fn stream_pub_outcome(result: ClientWriteResult<CoreRaftRequest, CoreRaftResponse>) -> (o: StreamPubOutcome)
    ensures
        match result {
            ClientWriteResult::Applied(CoreRaftResponse::StreamPub(res)) => o == StreamPubOutcome::Reply(res),
            ClientWriteResult::Applied(CoreRaftResponse::Other) => o matches StreamPubOutcome::Fail(WriteFailure::UnexpectedVariant),
            ClientWriteResult::RaftError(m) => o matches StreamPubOutcome::Fail(WriteFailure::Raft(n)) && n@ == m@,
            ClientWriteResult::ForwardToLeader(CoreRaftRequest::StreamPub(req), leader) =>
                o == (StreamPubOutcome::Forward { req, leader }),
            ClientWriteResult::ForwardToLeader(CoreRaftRequest::Other, _) =>
                o matches StreamPubOutcome::Fail(WriteFailure::UnexpectedVariant),
        },
{
    match result {
        ClientWriteResult::Applied(CoreRaftResponse::StreamPub(res)) => StreamPubOutcome::Reply(res),
        ClientWriteResult::Applied(CoreRaftResponse::Other) => StreamPubOutcome::Fail(WriteFailure::UnexpectedVariant),
        ClientWriteResult::RaftError(m) => StreamPubOutcome::Fail(WriteFailure::Raft(m)),
        ClientWriteResult::ForwardToLeader(CoreRaftRequest::StreamPub(req), leader) => StreamPubOutcome::Forward { req, leader },
        ClientWriteResult::ForwardToLeader(CoreRaftRequest::Other, _) => StreamPubOutcome::Fail(WriteFailure::UnexpectedVariant),
    }
}

//////////////////////////////////////////////////////////////////////////////////////////////////
// Forwarding ////////////////////////////////////////////////////////////////////////////////////

/// Why a request could not be forwarded to the leader.
#[derive(Clone, Copy, Debug, PartialEq, Eq, Structural)]
pub enum ForwardError {
    /// No leader is known.
    LeaderUnknown,
    /// This node holds no connection to the leader.
    NoPeerConnection,
}

impl ForwardError {
    /// The failure's message where the core Raft forwards.
    pub open spec fn spec_core_message(&self) -> Seq<char> {
        match self {
            ForwardError::LeaderUnknown => "error forwarding request, cluster leader unknown"@,
            ForwardError::NoPeerConnection => "no active connection to target peer"@,
        }
    }

    /// The failure's message where the cluster Raft controller forwards.
    pub open spec fn spec_crc_message(&self) -> Seq<char> {
        match self {
            ForwardError::LeaderUnknown => "error forwarding request, cluster leadership is transitioning"@,
            ForwardError::NoPeerConnection => "no active connection to target peer"@,
        }
    }

    /// Render the failure's message where the core Raft forwards.
    pub fn core_message(&self) -> (s: &'static str)
        ensures
            s@ == self.spec_core_message(),
    {
        match self {
            ForwardError::LeaderUnknown => "error forwarding request, cluster leader unknown",
            ForwardError::NoPeerConnection => "no active connection to target peer",
        }
    }

    /// Render the failure's message where the cluster Raft controller forwards.
    pub fn crc_message(&self) -> (s: &'static str)
        ensures
            s@ == self.spec_crc_message(),
    {
        match self {
            ForwardError::LeaderUnknown => "error forwarding request, cluster leadership is transitioning",
            ForwardError::NoPeerConnection => "no active connection to target peer",
        }
    }
}

/// Choose the node to which a request is forwarded: the leader named by Raft, else the current
/// leader known from Raft's metrics; the node must be one to which this node holds a connection.
pub fn forward_target(named: Option<NodeId>, current_leader: Option<NodeId>, connected: &HashSet<NodeId>) -> (r: Result<NodeId, ForwardError>)
    ensures
        match (if named is Some { named } else { current_leader }) {
            None => r == Err::<NodeId, ForwardError>(ForwardError::LeaderUnknown),
            Some(n) => if connected@.contains(n) { r == Ok::<NodeId, ForwardError>(n) } else {
                r == Err::<NodeId, ForwardError>(ForwardError::NoPeerConnection)
            },
        },
{
    let node = match named {
        Some(n) => n,
        None => match current_leader {
            Some(n) => n,
            None => return Err(ForwardError::LeaderUnknown),
        },
    };
    if connected.contains(&node) {
        Ok(node)
    } else {
        Err(ForwardError::NoPeerConnection)
    }
}

} // verus!
