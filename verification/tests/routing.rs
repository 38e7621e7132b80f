use std::collections::{HashMap, HashSet};

use hadrond::auth::{Claims, ClaimsV1};
use hadrond::config::Config;
use hadrond::crc::{
    admit_update_schema, is_schema_update_noop, update_schema_outcome, RaftAssignStreamReplicaToNode, RaftAssignStreamReplicaToNodeResponse,
    RaftClientRequest, RaftClientResponse, RaftUpdateSchemaRequest, UpdateSchemaOutcome, UpdateSchemaResponse,
};
use hadrond::error::{AppError, StatusCode};
use hadrond::index::{hash_namespaced_name, CRCIndex, IndexWriteBatch, IndexWriteOp};
use hadrond::placement::Assignment;
use hadrond::route::{
    admit_stream_pub, forward_target, redirect_leader_name, route_stream_pub, stream_pub_outcome, ClientWriteResult, CoreRaftRequest,
    CoreRaftResponse, ForwardError, StreamPubConnect, StreamPubFrame, StreamPubOutcome, StreamPubRequest, StreamPubResponse,
    StreamPubRouting, WriteFailure,
};
use hadrond::schema::{ControlGroup, ControlGroupObjectRef, SchemaBranch, SchemaUpdate, Stream, WithId};

fn config() -> Config {
    Config {
        rust_log: String::from("info"),
        client_port: 7000,
        node_name: String::from("node-0"),
        repl_set_name: String::from("rs0"),
        leader_name: String::from("node-0"),
        metadata_repl_set_name: String::from("meta"),
        storage_data_path: String::from("/tmp"),
    }
}

fn stream(id: u64, ns: &str, name: &str) -> WithId<Stream> {
    WithId { id, model: Stream { namespace: String::from(ns), name: String::from(name), partitions: 2, replication_factor: 1 } }
}

fn cg(id: u64, stream_id: u64, partition: u32, leader: Option<u64>) -> ControlGroup {
    ControlGroup {
        id,
        object_ref: ControlGroupObjectRef::Stream { id: stream_id, partition },
        leader: leader.map(|l| (l, 1)),
        nodes: vec![1, 2],
    }
}

fn index() -> CRCIndex {
    CRCIndex::new(
        vec![],
        vec![(0, Claims::V1(ClaimsV1::All))],
        vec![],
        vec![stream(10, "ns", "orders"), stream(11, "ns", "billing")],
        vec![],
        vec![SchemaBranch { name: String::from("main"), timestamp: 100 }],
        vec![cg(20, 10, 0, Some(1)), cg(21, 10, 1, Some(2)), cg(22, 10, 2, None)],
        vec![],
        vec![],
    )
}

fn connect(ns: &str, stream: &str, partition: u32) -> Option<StreamPubFrame> {
    Some(StreamPubFrame::Connect(StreamPubConnect { namespace: String::from(ns), stream: String::from(stream), partition }))
}

fn route(header: Option<&[u8]>, first: Option<StreamPubFrame>) -> StreamPubRouting {
    route_stream_pub(&index(), 1, &config(), header.map(|h| h.to_vec()), first)
}

#[test]
fn index_finds_streams_by_name_hash() {
    let idx = index();
    assert_eq!(idx.get_stream("ns", "orders").map(|s| s.id), Some(10));
    assert!(idx.get_stream("ns", "missing").is_none());
    assert_eq!(hash_namespaced_name("ns", "orders"), hash_namespaced_name("ns", "orders"));
    assert_ne!(hash_namespaced_name("ns", "orders"), hash_namespaced_name("ns", "billing"));
    assert_eq!(hash_namespaced_name("ns", "orders"), seahash::hash(b"ns/orders"));
}

#[test]
fn publisher_on_the_leader_is_forwarded_to_its_controller() {
    match route(Some(b"bearer t"), connect("ns", "orders", 0)) {
        StreamPubRouting::Forward { cg } => assert_eq!(cg.id, 20),
        other => panic!("unexpected routing {:?}", other),
    }
    match route(Some(b"bearer t"), connect("ns", "orders", 2)) {
        StreamPubRouting::Forward { cg } => assert_eq!(cg.id, 22),
        other => panic!("unexpected routing {:?}", other),
    }
}

#[test]
fn publisher_elsewhere_is_redirected_to_the_leader() {
    assert!(matches!(route(Some(b"bearer t"), connect("ns", "orders", 1)), StreamPubRouting::Redirect { leader: 2 }));
    assert_eq!(redirect_leader_name(2), "2");
}

#[test]
fn publisher_failures() {
    assert!(matches!(route(None, connect("ns", "orders", 0)), StreamPubRouting::NoCredentials));
    assert!(matches!(route(Some(b"basic t"), connect("ns", "orders", 0)), StreamPubRouting::BadCredentials(_)));
    assert!(matches!(route(Some(b"bearer t"), None), StreamPubRouting::ChannelClosed));
    assert!(matches!(route(Some(b"bearer t"), Some(StreamPubFrame::Payload)), StreamPubRouting::ExpectedConnectFrame));
    assert!(matches!(route(Some(b"bearer t"), connect("ns", "missing", 0)), StreamPubRouting::UnknownStream));
    assert!(matches!(route(Some(b"bearer t"), connect("ns", "billing", 0)), StreamPubRouting::InconsistentIndex));
    let s = route(Some(b"bearer t"), connect("ns", "missing", 0)).failure_status().unwrap();
    assert_eq!(s.code, StatusCode::InvalidArgument);
    assert_eq!(s.message, "metadata on the target stream does not exist on this node");
    let s = StreamPubRouting::ChannelClosed.failure_status().unwrap();
    assert_eq!(s.code, StatusCode::Cancelled);
    assert!(StreamPubRouting::Redirect { leader: 2 }.failure_status().is_none());
}

#[test]
fn unknown_token_is_refused() {
    let idx = CRCIndex::new(vec![], vec![], vec![], vec![], vec![], vec![], vec![], vec![], vec![]);
    let r = route_stream_pub(&idx, 1, &config(), Some(b"bearer t".to_vec()), connect("ns", "orders", 0));
    assert!(matches!(r, StreamPubRouting::UnknownToken));
}

#[test]
fn stream_pub_admission() {
    let mut tokens = HashMap::new();
    tokens.insert(0u64, Claims::V1(ClaimsV1::All));
    tokens.insert(1u64, Claims::V1(ClaimsV1::Metrics));
    assert!(admit_stream_pub(&tokens, 0, "ns", "orders").is_ok());
    assert!(matches!(admit_stream_pub(&tokens, 1, "ns", "orders"), Err(AppError::Unauthorized)));
    assert!(matches!(admit_stream_pub(&tokens, 2, "ns", "orders"), Err(AppError::UnknownToken)));
}

fn pub_req() -> StreamPubRequest {
    StreamPubRequest { namespace: String::from("ns"), stream: String::from("orders"), payload: vec![1, 2, 3] }
}

#[test]
fn stream_pub_outcomes() {
    let ok = stream_pub_outcome(ClientWriteResult::Applied(CoreRaftResponse::StreamPub(StreamPubResponse { id: 4 })));
    assert!(matches!(ok, StreamPubOutcome::Reply(StreamPubResponse { id: 4 })));
    let odd = stream_pub_outcome(ClientWriteResult::Applied(CoreRaftResponse::Other));
    assert!(matches!(odd, StreamPubOutcome::Fail(WriteFailure::UnexpectedVariant)));
    let fwd = stream_pub_outcome(ClientWriteResult::ForwardToLeader(CoreRaftRequest::StreamPub(pub_req()), Some(3)));
    match fwd {
        StreamPubOutcome::Forward { req, leader } => {
            assert_eq!(req.payload, vec![1, 2, 3]);
            assert_eq!(leader, Some(3));
        }
        other => panic!("unexpected outcome {:?}", other),
    }
    let err = stream_pub_outcome(ClientWriteResult::RaftError(String::from("shutting down")));
    match err {
        StreamPubOutcome::Fail(f) => assert_eq!(f.message(), "shutting down"),
        other => panic!("unexpected outcome {:?}", other),
    }
    assert_eq!(WriteFailure::UnexpectedVariant.message(), "error handling response from storage layer, unexpected variant");
}

#[test]
fn forwarding_targets() {
    let connected: HashSet<u64> = [2u64, 3].into_iter().collect();
    assert_eq!(forward_target(Some(2), Some(3), &connected), Ok(2));
    assert_eq!(forward_target(None, Some(3), &connected), Ok(3));
    assert_eq!(forward_target(None, None, &connected), Err(ForwardError::LeaderUnknown));
    assert_eq!(forward_target(Some(4), None, &connected), Err(ForwardError::NoPeerConnection));
    assert_eq!(ForwardError::LeaderUnknown.core_message(), "error forwarding request, cluster leader unknown");
    assert_eq!(ForwardError::LeaderUnknown.crc_message(), "error forwarding request, cluster leadership is transitioning");
    assert_eq!(ForwardError::NoPeerConnection.core_message(), "no active connection to target peer");
}

#[test]
fn schema_update_noop_check() {
    let idx = index();
    let managed = |timestamp| SchemaUpdate::Managed { branch: String::from("main"), timestamp, statements: vec![] };
    assert!(is_schema_update_noop(&idx, &managed(100)));
    assert!(is_schema_update_noop(&idx, &managed(99)));
    assert!(!is_schema_update_noop(&idx, &managed(101)));
    let other = SchemaUpdate::Managed { branch: String::from("dev"), timestamp: 1, statements: vec![] };
    assert!(!is_schema_update_noop(&idx, &other));
    assert!(!is_schema_update_noop(&idx, &SchemaUpdate::OneOff { statements: vec![] }));
}

#[test]
fn update_schema_admission_and_outcomes() {
    let idx = index();
    assert!(admit_update_schema(&idx, 0).is_ok());
    assert!(matches!(admit_update_schema(&idx, 5), Err(AppError::UnknownToken)));
    let reply = update_schema_outcome(ClientWriteResult::Applied(RaftClientResponse::UpdateSchema(UpdateSchemaResponse { was_noop: true })));
    assert!(matches!(reply, UpdateSchemaOutcome::Reply(UpdateSchemaResponse { was_noop: true })));
    let odd = update_schema_outcome(ClientWriteResult::Applied(RaftClientResponse::AssignStreamReplicaToNode(
        RaftAssignStreamReplicaToNodeResponse {},
    )));
    assert!(matches!(odd, UpdateSchemaOutcome::Fail(WriteFailure::UnexpectedVariant)));
    let req = RaftUpdateSchemaRequest { validated: SchemaUpdate::OneOff { statements: vec![] }, token_id: 0 };
    let fwd = update_schema_outcome(ClientWriteResult::ForwardToLeader(RaftClientRequest::UpdateSchema(req), None));
    assert!(matches!(fwd, UpdateSchemaOutcome::Forward { leader: None, .. }));
    let other = RaftClientRequest::AssignStreamReplicaToNode(RaftAssignStreamReplicaToNode {
        change: Assignment::InitialPlacement { node: 1 },
        replica: 3,
    });
    let odd = update_schema_outcome(ClientWriteResult::ForwardToLeader(other, Some(1)));
    assert!(matches!(odd, UpdateSchemaOutcome::Fail(WriteFailure::UnexpectedVariant)));
}

//////////////////////////////////////////////////////////////////////////
// Schema update planning ////////////////////////////////////////////////

use hadrond::schema::{Namespace, Pipeline, SchemaStatement};
use hadrond::schema_keys::{plan_schema_update, schema_update_ids, StatementWrite};

fn statements() -> Vec<SchemaStatement> {
    vec![
        SchemaStatement::Namespace(Namespace { name: String::from("ns"), description: String::new() }),
        SchemaStatement::Stream(Stream { namespace: String::from("ns"), name: String::from("orders"), partitions: 2, replication_factor: 1 }),
        SchemaStatement::Stream(Stream { namespace: String::from("ns"), name: String::from("events"), partitions: 2, replication_factor: 2 }),
        SchemaStatement::Pipeline(Pipeline {
            namespace: String::from("ns"),
            name: String::from("etl"),
            trigger_stream: String::from("events"),
            replication_factor: 2,
        }),
    ]
}

#[test]
fn schema_update_plans_new_objects_only() {
    let idx = index();
    let update = SchemaUpdate::Managed { branch: String::from("main"), timestamp: 200, statements: statements() };
    assert_eq!(schema_update_ids(&idx, &update), 6);
    let ids = [100, 101, 102, 103, 104, 105];
    let w = plan_schema_update(&idx, &update, &ids);
    assert!(!w.was_noop);
    assert_eq!(w.statements.len(), 4);
    match &w.statements[0] {
        StatementWrite::Namespace { key } => assert_eq!(key, "/namespaces/ns"),
        other => panic!("unexpected write {:?}", other),
    }
    assert!(matches!(w.statements[1], StatementWrite::Exists));
    match &w.statements[2] {
        StatementWrite::Stream { key, replicas } => {
            assert_eq!(key, "/streams/ns/events");
            let keys: Vec<&str> = replicas.iter().map(|(k, _)| k.as_str()).collect();
            assert_eq!(
                keys,
                vec!["/stream_replicas/ns/events/0/0", "/stream_replicas/ns/events/0/1", "/stream_replicas/ns/events/1/0", "/stream_replicas/ns/events/1/1"]
            );
            let ids: Vec<u64> = replicas.iter().map(|(_, r)| r.id).collect();
            assert_eq!(ids, vec![100, 101, 102, 103]);
            assert_eq!((replicas[2].1.partition, replicas[2].1.replica), (1, 0));
        }
        other => panic!("unexpected write {:?}", other),
    }
    match &w.statements[3] {
        StatementWrite::Pipeline { key, replicas } => {
            assert_eq!(key, "/pipelines/ns/etl");
            assert_eq!(replicas[1].0, "/pipeline_replicas/ns/etl/1");
            assert_eq!(replicas[1].1.id, 105);
        }
        other => panic!("unexpected write {:?}", other),
    }
    assert_eq!(w.branch_key.as_deref(), Some("/branches/main"));
}

#[test]
fn schema_update_already_applied_is_a_noop() {
    let idx = index();
    let update = SchemaUpdate::Managed { branch: String::from("main"), timestamp: 100, statements: statements() };
    assert_eq!(schema_update_ids(&idx, &update), 0);
    let w = plan_schema_update(&idx, &update, &[]);
    assert!(w.was_noop);
    assert!(w.statements.is_empty());
    assert!(w.branch_key.is_none());
    let one_off = SchemaUpdate::OneOff { statements: statements() };
    let w = plan_schema_update(&idx, &one_off, &[1, 2, 3, 4, 5, 6]);
    assert!(!w.was_noop);
    assert!(w.branch_key.is_none());
}

#[test]
fn replace_takes_every_table_from_the_new_index() {
    let mut idx = index();
    idx.endpoints.insert(1, ());
    idx.endpoint_names.insert(7, 1);
    let mut new = CRCIndex::empty();
    new.endpoints.insert(2, ());
    idx.replace(new);
    assert!(idx.endpoints.contains_key(&2));
    assert!(!idx.endpoints.contains_key(&1));
    assert!(idx.endpoint_names.is_empty());
    assert!(idx.get_stream("ns", "orders").is_none());
    assert!(idx.tokens.is_empty());
}

#[test]
fn repeated_managed_update_is_a_noop() {
    let mut idx = index();
    let update = SchemaUpdate::Managed { branch: String::from("main"), timestamp: 200, statements: vec![] };
    let first = plan_schema_update(&idx, &update, &[]);
    assert!(!first.was_noop);
    let mut batch = IndexWriteBatch::new();
    batch.push(IndexWriteOp::UpdateSchemaBranch { branch: String::from("main"), timestamp: 200 });
    assert!(idx.apply_batch(batch).is_ok());
    let again = plan_schema_update(&idx, &update, &[]);
    assert!(again.was_noop);
    assert!(again.statements.is_empty());
    assert!(again.branch_key.is_none());
}

use hadrond::events::CRCEvent;
use hadrond::schema_apply::apply_update_schema;

#[test]
fn schema_update_is_applied_once() {
    let mut idx = index();
    let update = SchemaUpdate::Managed { branch: String::from("main"), timestamp: 200, statements: statements() };
    let a = apply_update_schema(&mut idx, 7, &update, &[1, 2, 3, 4, 5, 6], &[30, 31, 32, 33]);
    assert!(!a.response.was_noop);
    let state = a.state.unwrap();
    assert_eq!(state.last_applied_key, "/meta/last_applied_log");
    assert_eq!(state.last_applied_value, 7u64.to_be_bytes().to_vec());
    assert_eq!(state.write.statements.len(), 4);
    assert_eq!(idx.get_namespace("ns").map(|n| n.id), Some(30));
    assert_eq!(idx.get_stream("ns", "orders").map(|s| s.id), Some(10));
    assert_eq!(idx.get_stream("ns", "events").map(|s| s.id), Some(32));
    assert_eq!(idx.get_pipeline("ns", "etl").map(|p| p.id), Some(33));
    assert_eq!(idx.schema_branches.get("main"), Some(&200));
    assert_eq!(a.events.len(), 4);
    assert!(a.events[0].is_empty());
    assert!(a.events[1].is_empty());
    match &a.events[2][..] {
        [CRCEvent::StreamCreated(c)] => {
            assert_eq!(c.stream.id, 32);
            assert_eq!(c.replicas.iter().map(|r| r.id).collect::<Vec<_>>(), vec![1, 2, 3, 4]);
            assert!(c.control_groups.is_empty());
        }
        _ => panic!("expected a stream creation event"),
    }
    let pipeline_replicas: Vec<u64> = a.events[3]
        .iter()
        .map(|e| match e {
            CRCEvent::PipelineReplicaCreated(r) => r.id,
            _ => panic!("expected pipeline replica events"),
        })
        .collect();
    assert_eq!(pipeline_replicas, vec![5, 6]);

    let again = apply_update_schema(&mut idx, 8, &update, &[], &[]);
    assert!(again.response.was_noop);
    assert!(again.state.is_none());
    assert!(again.events.is_empty());
    assert_eq!(idx.get_namespace("ns").map(|n| n.id), Some(30));
    assert_eq!(idx.schema_branches.get("main"), Some(&200));
}
