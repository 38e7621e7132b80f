//! The cluster Raft controller (CRC): the requests it writes to its Raft, the responses it gets
//! back, and its decisions on schema updates.

use vstd::prelude::*;

use crate::error::AppError;
use crate::index::{CRCIndex, CRCIndexView, IndexWriteOp, apply_op, apply_ops};
use crate::placement::{Assignment, NodeId};
use crate::route::{ClientWriteResult, WriteFailure};
use crate::schema::SchemaUpdate;

verus! {

/// A request to perform a schema update.
#[derive(Clone, Debug)]
pub struct RaftUpdateSchemaRequest {
    /// The validated form of the request.
    pub validated: SchemaUpdate,
    /// The ID of the token provided on the request.
    pub token_id: u64,
}

/// A request from the placement controller to assign a stream replica to a specific node.
#[derive(Clone, Copy, Debug, PartialEq, Eq, Structural)]
pub struct RaftAssignStreamReplicaToNode {
    /// The change of assignment.
    pub change: Assignment,
    /// The ID of the stream replica.
    pub replica: u64,
}

/// The request type written to the CRC's Raft.
#[derive(Clone, Debug)]
pub enum RaftClientRequest {
    UpdateSchema(RaftUpdateSchemaRequest),
    AssignStreamReplicaToNode(RaftAssignStreamReplicaToNode),
}

/// The response to a schema update: whether it was a no-op.
#[derive(Clone, Copy, Debug, PartialEq, Eq, Structural)]
pub struct UpdateSchemaResponse {
    pub was_noop: bool,
}

/// A response object for stream replica node assignment.
#[derive(Clone, Copy, Debug, PartialEq, Eq, Structural)]
pub struct RaftAssignStreamReplicaToNodeResponse {}

/// The response type of the CRC's Raft.
#[derive(Clone, Copy, Debug, PartialEq, Eq, Structural)]
pub enum RaftClientResponse {
    UpdateSchema(UpdateSchemaResponse),
    AssignStreamReplicaToNode(RaftAssignStreamReplicaToNodeResponse),
}

/// Whether a schema update was already applied: a managed update whose branch was last applied
/// at its timestamp or later.
pub open spec fn schema_update_applied(branches: Map<Seq<char>, i64>, update: SchemaUpdate) -> bool {
    match update {
        SchemaUpdate::Managed { branch, timestamp, .. } =>
            branches.contains_key(branch@) && branches[branch@] >= timestamp,
        SchemaUpdate::OneOff { .. } => false,
    }
}

/// Check whether a schema update was already applied to the system, so that applying it again
/// is a no-op: only a managed update can have been, where its branch's last applied timestamp
/// is at least the update's.
pub fn is_schema_update_noop(index: &CRCIndex, update: &SchemaUpdate) -> (b: bool)
    requires
        index.wf(),
    ensures
        b == schema_update_applied(index@.schema_branches, *update),
{
    match update {
        SchemaUpdate::Managed { branch, timestamp, .. } => match index.schema_branches.get(branch.as_str()) {
            Some(last_applied) => *last_applied >= *timestamp,
            None => false,
        },
        SchemaUpdate::OneOff { .. } => false,
    }
}

/// A managed schema update is applied at most once: once its branch is recorded at its
/// timestamp, the same update, and any of the branch at that timestamp or before, is a no-op.
pub proof fn lemma_managed_update_applies_once(v: CRCIndexView, update: SchemaUpdate, earlier: SchemaUpdate)
    requires
        update matches SchemaUpdate::Managed { .. },
        earlier matches SchemaUpdate::Managed { .. },
        earlier->Managed_branch@ == update->Managed_branch@,
        earlier->Managed_timestamp <= update->Managed_timestamp,
    ensures
        ({
            let w = apply_op(v, IndexWriteOp::UpdateSchemaBranch {
                branch: update->Managed_branch,
                timestamp: update->Managed_timestamp,
            });
            schema_update_applied(w.schema_branches, update) && schema_update_applied(w.schema_branches, earlier)
        }),
{
}

/// Whether a batch of index operations leaves a branch's record at a timestamp at least `ts`:
/// each record it writes for the branch is at `ts` or later.
pub open spec fn keeps_branch_at_least(ops: Seq<IndexWriteOp>, branch: Seq<char>, ts: i64) -> bool {
    forall|k: int| 0 <= k < ops.len() ==> match #[trigger] ops[k] {
        IndexWriteOp::UpdateSchemaBranch { branch: b, timestamp } => b@ == branch ==> timestamp >= ts,
        _ => true,
    }
}

proof fn lemma_branch_stays_applied(v: CRCIndexView, ops: Seq<IndexWriteOp>, update: SchemaUpdate)
    requires
        update matches SchemaUpdate::Managed { .. },
        schema_update_applied(v.schema_branches, update),
        keeps_branch_at_least(ops, update->Managed_branch@, update->Managed_timestamp),
    ensures
        schema_update_applied(apply_ops(v, ops).schema_branches, update),
    decreases ops.len(),
{
    if ops.len() > 0 {
        let rest = ops.drop_last();
        assert forall|k: int| 0 <= k < rest.len() implies match #[trigger] rest[k] {
            IndexWriteOp::UpdateSchemaBranch { branch: b, timestamp } => b@ == update->Managed_branch@ ==> timestamp >= update->Managed_timestamp,
            _ => true,
        } by {
            assert(rest[k] == ops[k]);
        }
        lemma_branch_stays_applied(v, rest, update);
        let last = ops[ops.len() - 1];
        assert(ops.last() == last);
    }
}

/// Applying a managed schema update a second time is a no-op. Its application ends by recording
/// its branch at its timestamp (after whatever operations come first); from then on, as long as
/// later batches record that branch only at that timestamp or later, the update counts as
/// applied, so planning it again writes nothing and answers that it was a no-op.
pub proof fn lemma_repeated_managed_update_is_noop(
    v: CRCIndexView,
    update: SchemaUpdate,
    first: Seq<IndexWriteOp>,
    later: Seq<IndexWriteOp>,
)
    requires
        update matches SchemaUpdate::Managed { .. },
        keeps_branch_at_least(later, update->Managed_branch@, update->Managed_timestamp),
    ensures
        ({
            let applied = apply_ops(v, first.push(IndexWriteOp::UpdateSchemaBranch {
                branch: update->Managed_branch,
                timestamp: update->Managed_timestamp,
            }));
            schema_update_applied(apply_ops(applied, later).schema_branches, update)
        }),
{
    let ops = first.push(IndexWriteOp::UpdateSchemaBranch { branch: update->Managed_branch, timestamp: update->Managed_timestamp });
    assert(ops.drop_last() =~= first);
    lemma_branch_stays_applied(apply_ops(v, ops), later, update);
}

/// Admit a schema update: the token of its credentials must be known.
pub fn admit_update_schema(index: &CRCIndex, token_id: u64) -> (r: Result<(), AppError>)
    requires
        index.wf(),
    ensures
        index@.tokens.contains_key(token_id) <==> r is Ok,
        r is Err ==> r->Err_0 is UnknownToken,
{
    match index.must_get_token_claims(&token_id) {
        Ok(_) => Ok(()),
        Err(e) => Err(e),
    }
}

/// What becomes of a schema update once the CRC's Raft has answered.
#[derive(Debug)]
pub enum UpdateSchemaOutcome {
    /// Answer the caller with the response.
    Reply(UpdateSchemaResponse),
    /// Answer the caller with an error.
    Fail(WriteFailure),
    /// Forward the update to the leader, named where known.
    Forward { req: RaftUpdateSchemaRequest, leader: Option<NodeId> },
}

/// Decide what becomes of a schema update once Raft has answered: an applied update is answered
/// with its response; an update handed back for forwarding goes to the leader; any other variant,
/// or a Raft error, fails the update.
pub fn update_schema_outcome(result: ClientWriteResult<RaftClientRequest, RaftClientResponse>) -> (o: UpdateSchemaOutcome)
    ensures
        match result {
            ClientWriteResult::Applied(RaftClientResponse::UpdateSchema(res)) => o == UpdateSchemaOutcome::Reply(res),
            ClientWriteResult::Applied(_) => o matches UpdateSchemaOutcome::Fail(WriteFailure::UnexpectedVariant),
            ClientWriteResult::RaftError(m) => o matches UpdateSchemaOutcome::Fail(WriteFailure::Raft(n)) && n@ == m@,
            ClientWriteResult::ForwardToLeader(RaftClientRequest::UpdateSchema(req), leader) =>
                o == (UpdateSchemaOutcome::Forward { req, leader }),
            ClientWriteResult::ForwardToLeader(_, _) => o matches UpdateSchemaOutcome::Fail(WriteFailure::UnexpectedVariant),
        },
{
    match result {
        ClientWriteResult::Applied(RaftClientResponse::UpdateSchema(res)) => UpdateSchemaOutcome::Reply(res),
        ClientWriteResult::Applied(_) => UpdateSchemaOutcome::Fail(WriteFailure::UnexpectedVariant),
        ClientWriteResult::RaftError(m) => UpdateSchemaOutcome::Fail(WriteFailure::Raft(m)),
        ClientWriteResult::ForwardToLeader(RaftClientRequest::UpdateSchema(req), leader) => UpdateSchemaOutcome::Forward { req, leader },
        ClientWriteResult::ForwardToLeader(_, _) => UpdateSchemaOutcome::Fail(WriteFailure::UnexpectedVariant),
    }
}

} // verus!
