use hadrond::bookkeeping::{Controller, PartitionSchedule, PipelineResource, PodInfo, StreamResource, StreamScheduleStatus};
use hadrond::core_index::{HCoreIndex, IndexWriteOp, PipelineMeta, StreamMeta};
use hadrond::discovery::{ObservedPeersChangeset, PeerSrv};
use hadrond::error::{AppError, StatusCode};
use hadrond::network::{peer_uri, DiscoveryState, PeerConnectionState, PeerTable};
use hadrond::spc::{
    decode_u64, encode_entry_key, encode_next_offset_key, encode_term_key, not_leader_status, recover_state, PubDecision, PubFrame,
    RecoveryError, SpcLeaderState,
};
use hadrond::strmap::StrMap;
use hadrond::token::{PubSubAccess, Token, TokenSpec};

//////////////////////////////////////////////////////////////////////////
// Stream partition controller ///////////////////////////////////////////

#[test]
fn entry_keys_and_meta_keys() {
    assert_eq!(encode_entry_key(258), b"entry/\x00\x00\x00\x00\x00\x00\x01\x02".to_vec());
    assert_eq!(encode_next_offset_key(), b"meta/next_offset".to_vec());
    assert_eq!(encode_term_key(), b"meta/term".to_vec());
    assert!(encode_entry_key(255) < encode_entry_key(256));
}

#[test]
fn recover_state_defaults_to_zero() {
    assert_eq!(recover_state(None, None), Ok((0, 0)));
    let next = 12u64.to_be_bytes();
    let term = 3u64.to_be_bytes();
    assert_eq!(recover_state(Some(&next[..]), Some(&term[..])), Ok((12, 3)));
    assert_eq!(recover_state(Some(&[1u8, 2, 3][..]), None), Err(RecoveryError::NextOffset));
    assert_eq!(recover_state(None, Some(&[1u8][..])), Err(RecoveryError::Term));
    assert_eq!(decode_u64(&[0, 0, 0, 0, 0, 0, 1, 0]), Some(256));
    assert_eq!(decode_u64(&[0; 9]), None);
}

#[test]
fn publications_get_consecutive_offsets() {
    let mut spc = SpcLeaderState { next_offset: 5 };
    match spc.handle_stream_pub_request(Some(PubFrame::Payload { records: 3 })) {
        PubDecision::Store(w) => {
            assert_eq!(w.offsets, vec![5, 6, 7]);
            assert_eq!(w.keys[0], encode_entry_key(5));
            assert_eq!(w.keys[2], encode_entry_key(7));
            assert_eq!(w.next_offset_key, b"meta/next_offset".to_vec());
            assert_eq!(w.next_offset_value, 8u64.to_be_bytes().to_vec());
            assert_eq!(w.commit_offset, 7);
        }
        other => panic!("unexpected decision {:?}", other),
    }
    assert_eq!(spc.next_offset, 8);
    match spc.handle_stream_pub_request(Some(PubFrame::Payload { records: 1 })) {
        PubDecision::Store(w) => assert_eq!(w.offsets, vec![8]),
        other => panic!("unexpected decision {:?}", other),
    }
}

#[test]
fn publication_frames_without_records() {
    let mut spc = SpcLeaderState { next_offset: 5 };
    assert!(matches!(spc.handle_stream_pub_request(Some(PubFrame::Connect)), PubDecision::ConnectReady));
    match spc.handle_stream_pub_request(None) {
        PubDecision::Reject(s) => {
            assert_eq!(s.code, StatusCode::InvalidArgument);
            assert_eq!(s.message, "no request frame detected");
        }
        other => panic!("unexpected decision {:?}", other),
    }
    match spc.handle_stream_pub_request(Some(PubFrame::Payload { records: 0 })) {
        PubDecision::Reject(s) => assert_eq!(s.message, "no event records found in given batch"),
        other => panic!("unexpected decision {:?}", other),
    }
    assert_eq!(spc.next_offset, 5);
    let s = not_leader_status();
    assert_eq!(s.code, StatusCode::Unavailable);
    assert_eq!(s.message, "stream controller is not partition leader");
}

//////////////////////////////////////////////////////////////////////////
// Bookkeeping ///////////////////////////////////////////////////////////

fn part(leader: &str, replicas: &[&str]) -> PartitionSchedule {
    PartitionSchedule {
        scheduled: true,
        leader: Some(String::from(leader)),
        replicas: Some(replicas.iter().map(|r| String::from(*r)).collect()),
    }
}

fn controller(pods: &[&str]) -> Controller {
    let mut map = StrMap::new();
    for p in pods {
        map.insert(String::from(*p), PodInfo::new());
    }
    Controller {
        cluster: String::from("c1"),
        namespace: String::from("hadron"),
        pods: map,
        tokens: StrMap::new(),
        streams: StrMap::new(),
        pipelines: StrMap::new(),
    }
}

fn leads(c: &Controller, pod: &str, stream: &str) -> bool {
    c.pods.get(pod).unwrap().stream_leaders.contains_key(stream)
}

fn replicas(c: &Controller, pod: &str, stream: &str) -> Option<u64> {
    c.pods.get(pod).unwrap().stream_replicas.get(stream).copied()
}

#[test]
fn same_epoch_changes_nothing() {
    let mut c = controller(&["p0", "p1"]);
    let status = Some(StreamScheduleStatus { epoch: 1, partitions: vec![part("p0", &["p1"])] });
    let same = Some(StreamScheduleStatus { epoch: 1, partitions: vec![part("p1", &["p0"])] });
    assert!(!c.bookkeeping_stream_updated(&status, &same, "orders"));
    assert!(!leads(&c, "p1", "orders"));
}

#[test]
fn stream_updates_keep_pod_dns_names() {
    let mut c = controller(&["p0", "p1"]);
    c.pod_applied("p0", Some("headless"));
    let status = Some(StreamScheduleStatus { epoch: 1, partitions: vec![part("p0", &["p1"])] });
    assert!(c.bookkeeping_stream_updated(&None, &status, "orders"));
    assert!(!c.bookkeeping_stream_updated(&status, &status, "orders"));
    assert_eq!(c.pods.get("p0").unwrap().pod_dns_name.as_deref(), Some("p0.headless.hadron"));
    assert!(c.pods.get("p1").unwrap().pod_dns_name.is_none());
    assert_eq!(c.cluster, "c1");
}

fn stream_res(name: Option<&str>, cluster: &str, epoch: u64, rest: &[u8]) -> StreamResource {
    StreamResource {
        name: name.map(String::from),
        cluster: String::from(cluster),
        rest: rest.to_vec(),
        status: Some(StreamScheduleStatus { epoch, partitions: vec![part("p0", &["p1"])] }),
    }
}

fn pipeline_res(name: &str, source: &str) -> PipelineResource {
    PipelineResource { name: Some(String::from(name)), cluster: String::from("c1"), source_stream: String::from(source), rest: vec![] }
}

#[test]
fn stream_resources_are_recorded_and_new_epochs_reach_pipelines() {
    let mut c = controller(&["p0", "p1"]);
    c.pipelines.insert(String::from("etl"), pipeline_res("etl", "orders"));
    c.pipelines.insert(String::from("audit"), pipeline_res("audit", "orders"));
    c.pipelines.insert(String::from("other"), pipeline_res("other", "billing"));
    let first = c.stream_applied(stream_res(Some("orders"), "c1", 1, b"")).unwrap();
    assert_eq!(first.name, "orders");
    assert!(!first.new_epoch);
    assert!(first.pipelines.is_empty());
    assert!(!leads(&c, "p0", "orders"));
    assert!(c.stream_applied(stream_res(Some("orders"), "c1", 1, b"")).is_none());
    let second = c.stream_applied(stream_res(Some("orders"), "c1", 2, b"")).unwrap();
    assert!(second.new_epoch);
    let mut notified = second.pipelines.clone();
    notified.sort();
    assert_eq!(notified, vec![String::from("audit"), String::from("etl")]);
    assert!(leads(&c, "p0", "orders"));
    assert_eq!(replicas(&c, "p1", "orders"), Some(1));
    let relabelled = c.stream_applied(stream_res(Some("orders"), "c1", 2, b"labels")).unwrap();
    assert!(!relabelled.new_epoch);
    assert!(relabelled.pipelines.is_empty());
    assert_eq!(c.streams.get("orders").unwrap().rest, b"labels".to_vec());
    assert!(c.stream_applied(stream_res(Some("orders"), "other", 3, b"")).is_none());
    assert!(c.stream_applied(stream_res(None, "c1", 3, b"")).is_none());
    assert_eq!(c.streams.len(), 1);
}

#[test]
fn new_epoch_moves_assignments() {
    let mut c = controller(&["p0", "p1", "p2"]);
    let first = Some(StreamScheduleStatus { epoch: 1, partitions: vec![part("p0", &["p1", "p2"]), part("p0", &["p1"])] });
    assert!(c.bookkeeping_stream_updated(&None, &first, "orders"));
    assert!(leads(&c, "p0", "orders"));
    assert_eq!(replicas(&c, "p1", "orders"), Some(2));
    assert_eq!(replicas(&c, "p2", "orders"), Some(1));
    let second = Some(StreamScheduleStatus { epoch: 2, partitions: vec![part("p2", &["p0"])] });
    assert!(c.bookkeeping_stream_updated(&first, &second, "orders"));
    assert!(!leads(&c, "p0", "orders"));
    assert!(leads(&c, "p2", "orders"));
    assert_eq!(replicas(&c, "p1", "orders"), None);
    assert_eq!(replicas(&c, "p2", "orders"), None);
    assert_eq!(replicas(&c, "p0", "orders"), Some(1));
}

#[test]
fn unscheduled_partitions_and_unknown_pods_are_skipped() {
    let mut c = controller(&["p0"]);
    let status = Some(StreamScheduleStatus {
        epoch: 1,
        partitions: vec![
            PartitionSchedule { scheduled: false, leader: Some(String::from("p0")), replicas: None },
            part("ghost", &["p0", "ghost"]),
        ],
    });
    assert!(c.bookkeeping_stream_updated(&None, &status, "orders"));
    assert!(!leads(&c, "p0", "orders"));
    assert_eq!(replicas(&c, "p0", "orders"), Some(1));
    assert!(c.pods.get("ghost").is_none());
}

#[test]
fn deleted_stream_is_purged() {
    let mut c = controller(&["p0", "p1"]);
    let status = Some(StreamScheduleStatus { epoch: 3, partitions: vec![part("p0", &["p1"])] });
    assert!(c.bookkeeping_stream_updated(&None, &status, "orders"));
    assert!(c.bookkeeping_stream_updated(&None, &status, "billing"));
    c.bookkeeping_stream_deleted(&status, "orders");
    assert!(!leads(&c, "p0", "orders"));
    assert_eq!(replicas(&c, "p1", "orders"), None);
    assert!(leads(&c, "p0", "billing"));
    assert_eq!(replicas(&c, "p1", "billing"), Some(1));
}

//////////////////////////////////////////////////////////////////////////
// Peer sockets //////////////////////////////////////////////////////////

fn peer(fqdn: &str) -> PeerSrv {
    PeerSrv { port: 7000, fqdn: String::from(fqdn) }
}

#[test]
fn discovery_changesets_drive_the_peer_table() {
    let mut t = PeerTable::new();
    let connect = t.handle_discovery_changeset(ObservedPeersChangeset { new_peers: vec![peer("a"), peer("b")], purged_peers: vec![] });
    assert_eq!(connect.len(), 2);
    let a = t.get(&peer("a")).unwrap();
    assert_eq!(a.node_id, None);
    assert_eq!(a.discovery_state, DiscoveryState::Observed);
    assert_eq!(a.connection_state, PeerConnectionState::Initializing);
    let connect = t.handle_discovery_changeset(ObservedPeersChangeset { new_peers: vec![peer("a")], purged_peers: vec![peer("b")] });
    assert!(connect.is_empty());
    assert_eq!(t.get(&peer("b")).unwrap().discovery_state, DiscoveryState::Disappeared);
}

#[test]
fn connection_outcomes() {
    let mut t = PeerTable::new();
    let _ = t.handle_discovery_changeset(ObservedPeersChangeset { new_peers: vec![peer("a"), peer("self")], purged_peers: vec![] });
    assert!(t.handle_peer_init_conn_success(&peer("a"), 2, 1));
    let a = t.get(&peer("a")).unwrap();
    assert_eq!(a.node_id, Some(2));
    assert_eq!(a.connection_state, PeerConnectionState::Connected);
    assert!(!t.handle_peer_init_conn_success(&peer("self"), 1, 1));
    assert!(t.get(&peer("self")).is_none());
    assert!(t.handle_init_peer_conn_failed(&peer("a")));
    let _ = t.handle_discovery_changeset(ObservedPeersChangeset { new_peers: vec![], purged_peers: vec![peer("a")] });
    assert!(!t.handle_init_peer_conn_failed(&peer("a")));
    assert!(t.get(&peer("a")).is_none());
    assert!(!t.handle_init_peer_conn_failed(&peer("unknown")));
}

//////////////////////////////////////////////////////////////////////////
// Core index ////////////////////////////////////////////////////////////

#[test]
fn core_index_batches_and_publications() {
    let mut idx = HCoreIndex::new();
    let ops = vec![
        IndexWriteOp::InsertNamespace { name: String::from("ns"), description: String::from("d") },
        IndexWriteOp::InsertStream { namespace: String::from("ns"), name: String::from("orders"), meta: StreamMeta::new(String::from("o")) },
        IndexWriteOp::InsertPipeline {
            namespace: String::from("ns"),
            name: String::from("etl"),
            meta: PipelineMeta::new(String::from("orders"), String::from("p")),
        },
    ];
    assert!(idx.apply_batch(ops).is_ok());
    assert_eq!(idx.get_stream("ns", "orders").unwrap().next_id, 0);
    assert_eq!(idx.get_pipeline("ns", "etl").unwrap().trigger, "orders");
    let w = idx.apply_stream_pub("ns", "orders").ok().unwrap();
    assert_eq!(w.id, 0);
    assert_eq!(w.tree, "streams/ns/orders");
    assert_eq!(w.key, vec![0; 8]);
    let w = idx.apply_stream_pub("ns", "orders").ok().unwrap();
    assert_eq!(w.id, 1);
    assert_eq!(w.key, vec![0, 0, 0, 0, 0, 0, 0, 1]);
    assert_eq!(idx.get_stream("ns", "orders").unwrap().next_id, 2);
    match idx.apply_stream_pub("ns", "missing") {
        Err(AppError::InvalidInput(m)) => assert_eq!(m, "target stream does not exist"),
        other => panic!("unexpected result {:?}", other.is_ok()),
    }
}

#[test]
fn core_index_batch_stops_at_missing_namespace() {
    let mut idx = HCoreIndex::new();
    let ops = vec![
        IndexWriteOp::InsertStream { namespace: String::from("nope"), name: String::from("s"), meta: StreamMeta::new(String::new()) },
        IndexWriteOp::InsertNamespace { name: String::from("ns"), description: String::new() },
    ];
    let err = idx.apply_batch(ops).err().unwrap();
    assert_eq!(err.message, "namespace not found in index, this is a bug, please open an issue");
    assert!(idx.get_namespace("ns").is_none());
}

//////////////////////////////////////////////////////////////////////////
// Token resources ///////////////////////////////////////////////////////

fn token(name: Option<&str>, cluster: &str, all: bool) -> Token {
    let none = || PubSubAccess { publish: vec![], sub: vec![] };
    Token {
        name: name.map(String::from),
        metadata: vec![],
        spec: TokenSpec { cluster: String::from(cluster), all, exchanges: none(), endpoints: none(), streams: none() },
        status: None,
    }
}

#[test]
fn tokens_of_this_cluster_are_recorded_once_per_change() {
    let mut c = controller(&[]);
    assert_eq!(c.token_applied(token(Some("t1"), "c1", false)), Some(String::from("t1")));
    assert_eq!(c.token_applied(token(Some("t1"), "c1", false)), None);
    assert_eq!(c.token_applied(token(Some("t1"), "c1", true)), Some(String::from("t1")));
    assert!(c.tokens.get("t1").unwrap().spec.all);
    assert_eq!(c.token_applied(token(Some("t2"), "other", false)), None);
    assert_eq!(c.token_applied(token(None, "c1", false)), None);
    assert_eq!(c.tokens.len(), 1);
}

#[test]
fn token_metadata_changes_are_recorded() {
    let mut c = controller(&[]);
    assert_eq!(c.token_applied(token(Some("t1"), "c1", false)), Some(String::from("t1")));
    let mut relabelled = token(Some("t1"), "c1", false);
    relabelled.metadata = b"labels: {tier: gold}".to_vec();
    assert_eq!(c.token_applied(relabelled.clone()), Some(String::from("t1")));
    assert_eq!(c.tokens.get("t1").unwrap().metadata, b"labels: {tier: gold}".to_vec());
    assert_eq!(c.token_applied(relabelled), None);
}

#[test]
fn deleted_tokens_are_forgotten() {
    let mut c = controller(&[]);
    let _ = c.token_applied(token(Some("t1"), "c1", false));
    assert!(c.token_deleted(&token(Some("t1"), "other", false)).is_none());
    let (name, removed) = c.token_deleted(&token(Some("t1"), "c1", true)).unwrap();
    assert_eq!(name, "t1");
    assert!(!removed.spec.all);
    assert!(c.token_deleted(&token(Some("t1"), "c1", false)).is_none());
    assert_eq!(c.tokens.len(), 0);
}

//////////////////////////////////////////////////////////////////////////
// Pods //////////////////////////////////////////////////////////////////

#[test]
fn pods_get_a_dns_name_once() {
    let mut c = controller(&[]);
    c.pod_applied("hadron-0", None);
    assert!(c.pods.get("hadron-0").unwrap().pod_dns_name.is_none());
    c.pod_applied("hadron-0", Some("hadron-headless"));
    assert_eq!(c.pods.get("hadron-0").unwrap().pod_dns_name.as_deref(), Some("hadron-0.hadron-headless.hadron"));
    c.pod_applied("hadron-0", Some("other"));
    assert_eq!(c.pods.get("hadron-0").unwrap().pod_dns_name.as_deref(), Some("hadron-0.hadron-headless.hadron"));
    assert!(c.pod_deleted("hadron-0").is_some());
    assert!(c.pod_deleted("hadron-0").is_none());
}

#[test]
fn peer_uris() {
    assert_eq!(peer_uri(&peer("hadron-1.hadron"), false), "http://hadron-1.hadron:7000");
    assert_eq!(peer_uri(&peer("hadron-1.hadron"), true), "https://hadron-1.hadron:7000");
}
