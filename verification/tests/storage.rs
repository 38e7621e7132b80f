use hadrond::codec::{encode_u64, parse_u64, u64_from_be_bytes, u64_to_decimal, unchecked_u64_from_be_bytes};
use hadrond::database::{
    check_node_name, default_data_path, node_id_file_contents, parse_node_id, stream_metadata_tree_name, stream_replica_tree_name,
    stream_tree_name, IdentityError,
};
use hadrond::raftlog::{
    find_live_snapshot, get_initial_state, get_membership_config, has_snapshot_extension, log_range, plan_snapshot_installation,
    snapshot_file_name_of, stale_snapshot_files, tmp_snapshot_file_name_of, EntryPayload, HardState, LogEntry, MembershipConfig,
    StorageError,
    is_snapshot_metadata_path,
};

fn set(ids: &[u64]) -> std::collections::HashSet<u64> {
    ids.iter().copied().collect()
}

fn entry(index: u64, term: u64, payload: EntryPayload) -> LogEntry {
    LogEntry { index, term, payload }
}

//////////////////////////////////////////////////////////////////////////
// Encodings /////////////////////////////////////////////////////////////

#[test]
fn encode_u64_is_big_endian() {
    assert_eq!(encode_u64(1), vec![0, 0, 0, 0, 0, 0, 0, 1]);
    assert_eq!(encode_u64(0x0102_0304_0506_0708), vec![1, 2, 3, 4, 5, 6, 7, 8]);
    assert_eq!(encode_u64(u64::MAX), vec![255; 8]);
}

#[test]
fn encoded_keys_sort_as_numbers() {
    let (a, b) = (encode_u64(255), encode_u64(256));
    assert!(a < b);
}

#[test]
fn be_bytes_round_trip() {
    for x in [0u64, 1, 255, 256, 0xdead_beef, u64::MAX] {
        assert_eq!(u64_from_be_bytes(&encode_u64(x)), x);
    }
    let mut longer = encode_u64(42);
    longer.push(7);
    assert_eq!(unchecked_u64_from_be_bytes(&longer), 42);
}

#[test]
fn decimal_rendering_and_parsing() {
    assert_eq!(u64_to_decimal(0), "0");
    assert_eq!(u64_to_decimal(1234567890), "1234567890");
    assert_eq!(u64_to_decimal(u64::MAX), "18446744073709551615");
    assert_eq!(parse_u64("42"), Some(42));
    assert_eq!(parse_u64("+42"), Some(42));
    assert_eq!(parse_u64("18446744073709551615"), Some(u64::MAX));
    assert_eq!(parse_u64("18446744073709551616"), None);
    assert_eq!(parse_u64(""), None);
    assert_eq!(parse_u64("+"), None);
    assert_eq!(parse_u64("-1"), None);
    assert_eq!(parse_u64("4 2"), None);
    assert_eq!(parse_u64(" 42"), None);
}

//////////////////////////////////////////////////////////////////////////
// Database layout ///////////////////////////////////////////////////////

#[test]
fn data_path_and_tree_names() {
    assert_eq!(default_data_path(), "/usr/local/hadron/data");
    assert_eq!(stream_tree_name("ns", "orders"), "streams/ns/orders");
    assert_eq!(stream_metadata_tree_name("ns", "orders"), "streams/ns/orders/metadata");
    assert_eq!(stream_replica_tree_name("ns", "orders", 3, 17), "spc::stream/ns/orders/3/17");
}

#[test]
fn node_name_check() {
    assert!(matches!(check_node_name(None, "node-0"), Ok(true)));
    assert!(matches!(check_node_name(Some("node-0"), "node-0"), Ok(false)));
    let err = check_node_name(Some("node-1"), "node-0").err().unwrap();
    assert!(matches!(err, IdentityError::NodeNameMismatch));
    assert!(err.message().starts_with("UNSAFE CONFIG CHANGE ERROR!"));
}

#[test]
fn node_id_file_round_trip() {
    let contents = node_id_file_contents(987654321);
    assert_eq!(contents, "987654321");
    assert_eq!(parse_node_id(&contents).ok(), Some(987654321));
    let err = parse_node_id("not-an-id").err().unwrap();
    assert_eq!(err.message(), "invalid node ID found: not-an-id");
}

//////////////////////////////////////////////////////////////////////////
// Raft log //////////////////////////////////////////////////////////////

#[test]
fn membership_of_a_pristine_node() {
    let m = MembershipConfig::new_initial(5);
    assert_eq!(m.members, set(&[5]));
    assert!(m.members_after_consensus.is_none());
}

#[test]
fn membership_from_snapshot_lists() {
    let m = MembershipConfig::from_snapshot_lists(&[1, 2, 2, 3], &[]);
    assert_eq!(m.members, set(&[1, 2, 3]));
    assert!(m.members_after_consensus.is_none());
    let m = MembershipConfig::from_snapshot_lists(&[1, 2], &[2, 4]);
    assert_eq!(m.members_after_consensus, Some(set(&[2, 4])));
}

#[test]
fn latest_membership_searches_from_the_end() {
    let log = vec![
        entry(1, 1, EntryPayload::ConfigChange(MembershipConfig::from_snapshot_lists(&[1], &[]))),
        entry(2, 1, EntryPayload::ConfigChange(MembershipConfig::from_snapshot_lists(&[1, 2], &[]))),
        entry(3, 2, EntryPayload::Normal),
        entry(4, 2, EntryPayload::Blank),
    ];
    assert_eq!(get_membership_config(log, 9).members, set(&[1, 2]));
    assert_eq!(get_membership_config(vec![entry(1, 1, EntryPayload::Normal)], 9).members, set(&[9]));
    let log = vec![
        entry(1, 1, EntryPayload::ConfigChange(MembershipConfig::from_snapshot_lists(&[1], &[]))),
        entry(5, 3, EntryPayload::SnapshotPointer {
            id: String::from("snap"),
            membership: MembershipConfig::from_snapshot_lists(&[1, 2, 3], &[]),
        }),
    ];
    assert_eq!(get_membership_config(log, 9).members, set(&[1, 2, 3]));
}

#[test]
fn initial_state_of_a_pristine_log() {
    let s = get_initial_state(4, vec![], None, None).ok().unwrap();
    assert_eq!((s.last_log_index, s.last_log_term, s.last_applied_log), (0, 0, 0));
    assert_eq!(s.hard_state, HardState { current_term: 0, voted_for: None });
    assert_eq!(s.membership.members, set(&[4]));
}

#[test]
fn initial_state_from_storage() {
    let log = vec![entry(1, 1, EntryPayload::Blank), entry(2, 3, EntryPayload::Normal)];
    let hs = HardState { current_term: 3, voted_for: Some(2) };
    let s = get_initial_state(4, log, Some(hs), Some(1)).ok().unwrap();
    assert_eq!((s.last_log_index, s.last_log_term, s.last_applied_log), (2, 3, 1));
    assert_eq!(s.hard_state, hs);
    assert_eq!(s.membership.members, set(&[4]));
    let log = vec![entry(1, 1, EntryPayload::Blank)];
    let s = get_initial_state(4, log, Some(hs), None).ok().unwrap();
    assert_eq!(s.last_applied_log, 0);
}

#[test]
fn initial_state_without_hard_state_is_an_error() {
    let log = vec![entry(1, 1, EntryPayload::Blank)];
    let err = get_initial_state(4, log, None, None).err().unwrap();
    assert_eq!(err, StorageError::NoHardState);
    assert_eq!(err.message(), "no hard state record found on disk");
}

#[test]
fn snapshot_installation_deletes_through_the_given_index() {
    let p = plan_snapshot_installation(&[1, 2, 3, 4, 5], 3, 2, Some(3), String::from("snap-1"), &[1, 2], &[]);
    assert_eq!(p.batch.removes, vec![1, 2, 3]);
    assert_eq!(p.batch.insert.index, 3);
    assert_eq!(p.batch.insert.term, 2);
    match &p.batch.insert.payload {
        EntryPayload::SnapshotPointer { id, membership } => {
            assert_eq!(id, "snap-1");
            assert_eq!(membership.members, set(&[1, 2]));
        }
        _ => panic!("expected a snapshot pointer"),
    }
    assert!(!p.needs_recovery);
}

#[test]
fn snapshot_installation_without_bound_replaces_the_log() {
    let p = plan_snapshot_installation(&[1, 2, 3], 7, 4, None, String::from("s"), &[1], &[1, 2]);
    assert_eq!(p.batch.removes, vec![1, 2, 3]);
    assert!(p.needs_recovery);
}

#[test]
fn log_ranges() {
    assert_eq!(log_range(&[1, 2, 3, 4, 5], 2, Some(4)), vec![2, 3]);
    assert_eq!(log_range(&[1, 2, 3, 4, 5], 4, None), vec![4, 5]);
    assert_eq!(log_range(&[1, 2, 3], 5, Some(9)), Vec::<u64>::new());
}

#[test]
fn snapshot_file_names() {
    assert_eq!(snapshot_file_name_of("abc"), "abc.snap");
    assert_eq!(tmp_snapshot_file_name_of("abc"), "abc.snap.tmp");
    assert!(has_snapshot_extension("abc.snap"));
    assert!(!has_snapshot_extension("abc.snap.tmp"));
    assert!(!has_snapshot_extension(".snap"));
    assert!(has_snapshot_extension("..snap"));
    assert!(!has_snapshot_extension("snap"));
    assert!(!has_snapshot_extension(".."));
    assert!(!has_snapshot_extension("abc.snapx"));
}

#[test]
fn live_snapshot_is_the_first_with_the_extension() {
    let names = vec![String::from("a.snap.tmp"), String::from("b.snap"), String::from("c.snap")];
    assert_eq!(find_live_snapshot(&names), Some(1));
    assert_eq!(find_live_snapshot(&names[..1]), None);
}

#[test]
fn stale_snapshots_are_all_but_the_installed_one() {
    let names = vec![String::from("old.snap"), String::from("new.snap"), String::from("other.snap.tmp")];
    assert_eq!(stale_snapshot_files(&names, "new"), vec![String::from("old.snap"), String::from("other.snap.tmp")]);
}

#[test]
fn snapshot_metadata_entries_are_found_by_file_name() {
    assert!(is_snapshot_metadata_path("metadata"));
    assert!(is_snapshot_metadata_path("snap/metadata"));
    assert!(is_snapshot_metadata_path("./snap//metadata/"));
    assert!(is_snapshot_metadata_path("snap/metadata/."));
    assert!(!is_snapshot_metadata_path("snap/metadata.bak"));
    assert!(!is_snapshot_metadata_path("metadata/data"));
    assert!(!is_snapshot_metadata_path("snap/metadata/.."));
    assert!(!is_snapshot_metadata_path(""));
    assert!(!is_snapshot_metadata_path("/"));
}
