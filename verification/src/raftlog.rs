//! The Raft log as kept on disk: membership configs, the state recovered when a node starts,
//! and the installation of snapshots streamed from the cluster leader.
//!
//! The log is a tree keyed by the big-endian bytes of each entry's index, so that iterating it
//! walks the entries in index order. Reading and writing the tree is left to the caller; here the
//! log is a sequence of decoded entries in that order, and writes are planned as batches.

use std::collections::HashSet;
use vstd::prelude::*;
use vstd::string::StringExecFns;

use crate::placement::NodeId;

verus! {

broadcast use vstd::std_specs::hash::group_hash_axioms;

//////////////////////////////////////////////////////////////////////////////////////////////////
// Membership ////////////////////////////////////////////////////////////////////////////////////

/// The membership of the Raft cluster.
#[derive(Debug)]
pub struct MembershipConfig {
    /// The nodes of the cluster.
    pub members: HashSet<NodeId>,
    /// The nodes of the cluster once a joint consensus has been committed, if one is underway.
    pub members_after_consensus: Option<HashSet<NodeId>>,
}

/// The mathematical form of a membership config.
pub struct MembershipView {
    pub members: Set<NodeId>,
    pub members_after_consensus: Option<Set<NodeId>>,
}

impl View for MembershipConfig {
    type V = MembershipView;

    open spec fn view(&self) -> MembershipView {
        MembershipView {
            members: self.members@,
            members_after_consensus: match self.members_after_consensus {
                Some(s) => Some(s@),
                None => None,
            },
        }
    }
}

/// The membership of a pristine node: itself alone.
pub open spec fn initial_membership(id: NodeId) -> MembershipView {
    MembershipView { members: set![id], members_after_consensus: None }
}

/// The membership that a snapshot's recorded lists denote: no joint consensus where the second
/// list is empty.
pub open spec fn snapshot_membership(members: Seq<NodeId>, after: Seq<NodeId>) -> MembershipView {
    MembershipView {
        members: members.to_set(),
        members_after_consensus: if after.len() == 0 { None } else { Some(after.to_set()) },
    }
}

/// Collect node IDs into a set.
pub fn id_set(ids: &[NodeId]) -> (s: HashSet<NodeId>)
    ensures
        s@ == ids@.to_set(),
{
    let mut s: HashSet<NodeId> = HashSet::new();
    let mut i: usize = 0;
    while i < ids.len()
        invariant
            i <= ids.len(),
            s@ == ids@.take(i as int).to_set(),
        decreases ids.len() - i,
    {
        proof {
            assert(ids@.take(i as int + 1) =~= ids@.take(i as int).push(ids@[i as int]));
            ids@.take(i as int).lemma_push_to_set_commute(ids@[i as int]);
        }
        s.insert(ids[i]);
        i = i + 1;
    }
    proof {
        assert(ids@.take(ids@.len() as int) =~= ids@);
    }
    s
}

impl MembershipConfig {
    /// The membership of a pristine node: itself alone, with no joint consensus underway.
    pub fn new_initial(id: NodeId) -> (m: Self)
        ensures
            m@ == initial_membership(id),
    {
        let mut members: HashSet<NodeId> = HashSet::new();
        members.insert(id);
        proof {
            assert(members@ =~= set![id]);
        }
        MembershipConfig { members, members_after_consensus: None }
    }

    /// The membership recorded in a snapshot's metadata: the member list, and the list of
    /// members after consensus, which denotes no joint consensus where it is empty.
    pub fn from_snapshot_lists(members: &[NodeId], after: &[NodeId]) -> (m: Self)
        ensures
            m@ == snapshot_membership(members@, after@),
    {
        let members_set = id_set(members);
        let after_set = if after.len() == 0 {
            None
        } else {
            Some(id_set(after))
        };
        MembershipConfig { members: members_set, members_after_consensus: after_set }
    }
}

//////////////////////////////////////////////////////////////////////////////////////////////////
// Log entries ///////////////////////////////////////////////////////////////////////////////////

/// What a log entry holds.
#[derive(Debug)]
pub enum EntryPayload {
    /// An empty entry, committed by a new leader.
    Blank,
    /// An entry holding an application request.
    Normal,
    /// A change of the cluster's membership.
    ConfigChange(MembershipConfig),
    /// A pointer to a snapshot that covers the log up to and including this entry.
    SnapshotPointer { id: String, membership: MembershipConfig },
}

/// An entry of the Raft log.
#[derive(Debug)]
pub struct LogEntry {
    /// The index of this entry.
    pub index: u64,
    /// The term in which this entry was appended.
    pub term: u64,
    /// The entry's payload.
    pub payload: EntryPayload,
}

/// The membership config that an entry carries, if any.
pub open spec fn entry_membership(e: LogEntry) -> Option<MembershipView> {
    match e.payload {
        EntryPayload::ConfigChange(m) => Some(m@),
        EntryPayload::SnapshotPointer { membership, .. } => Some(membership@),
        _ => None,
    }
}

/// The latest membership config found in a log: that of the last entry which carries one, a
/// config change or a snapshot pointer; that of a pristine node where none does.
pub open spec fn latest_membership(log: Seq<LogEntry>, id: NodeId) -> MembershipView
    decreases log.len(),
{
    if log.len() == 0 {
        initial_membership(id)
    } else {
        match entry_membership(log.last()) {
            Some(m) => m,
            None => latest_membership(log.drop_last(), id),
        }
    }
}

/// Get the latest membership config found in the log, searching it from its end.
///
/// A config change or a snapshot pointer carries a membership config; where no entry does, the
/// membership of a pristine node, this node alone, is returned.
pub fn get_membership_config(log: Vec<LogEntry>, id: NodeId) -> (m: MembershipConfig)
    ensures
        m@ == latest_membership(log@, id),
{
    let ghost whole = log@;
    let mut rest = log;
    while rest.len() > 0
        invariant
            whole == log@,
            whole.len() >= rest@.len(),
            rest@ == whole.take(rest@.len() as int),
            latest_membership(whole, id) == latest_membership(rest@, id),
        decreases rest.len(),
    {
        let ghost before = rest@;
        let last = rest.pop().unwrap();
        proof {
            assert(rest@ =~= whole.take(rest@.len() as int));
            assert(before.drop_last() =~= rest@);
        }
        match last.payload {
            EntryPayload::ConfigChange(m) => {
                return m;
            },
            EntryPayload::SnapshotPointer { id: _, membership } => {
                return membership;
            },
            _ => {},
        }
    }
    MembershipConfig::new_initial(id)
}

//////////////////////////////////////////////////////////////////////////////////////////////////
// Initial state /////////////////////////////////////////////////////////////////////////////////

/// The state of a Raft node that must survive restarts.
#[derive(Clone, Copy, Debug, PartialEq, Eq, Structural)]
pub struct HardState {
    /// The last recorded term observed by this node.
    pub current_term: u64,
    /// The ID of the node voted for in the current term.
    pub voted_for: Option<NodeId>,
}

/// The state from which a Raft node starts.
#[derive(Debug)]
pub struct InitialState {
    /// The index of the last entry of the log.
    pub last_log_index: u64,
    /// The term of the last entry of the log.
    pub last_log_term: u64,
    /// The index of the last entry applied to the state machine.
    pub last_applied_log: u64,
    /// The saved hard state of the node.
    pub hard_state: HardState,
    /// The latest membership config of the cluster.
    pub membership: MembershipConfig,
}

/// Errors raised while recovering state from storage.
#[derive(Clone, Copy, Debug, PartialEq, Eq, Structural)]
pub enum StorageError {
    /// The log holds entries, but no hard state was saved.
    NoHardState,
}

impl StorageError {
    /// The error's message.
    pub open spec fn spec_message(&self) -> Seq<char> {
        match self {
            StorageError::NoHardState => "no hard state record found on disk"@,
        }
    }

    /// Render the error's message.
    pub fn message(&self) -> (s: &'static str)
        ensures
            s@ == self.spec_message(),
    {
        match self {
            StorageError::NoHardState => "no hard state record found on disk",
        }
    }
}

impl InitialState {
    /// The initial state of a pristine node.
    pub fn new_initial(id: NodeId) -> (s: Self)
        ensures
            s.last_log_index == 0,
            s.last_log_term == 0,
            s.last_applied_log == 0,
            s.hard_state == (HardState { current_term: 0, voted_for: None }),
            s.membership@ == initial_membership(id),
    {
        InitialState {
            last_log_index: 0,
            last_log_term: 0,
            last_applied_log: 0,
            hard_state: HardState { current_term: 0, voted_for: None },
            membership: MembershipConfig::new_initial(id),
        }
    }
}

/// Assemble the state from which a Raft node starts, from what storage holds: the log, in index
/// order; the saved hard state, if any; and the index of the last applied entry, if saved.
///
/// A pristine log gives the initial state of a pristine node. Otherwise the last entry of the log
/// gives the last index and term, the last applied index defaults to 0, the membership is the
/// latest one found in the log, and a missing hard state is an error.
pub fn get_initial_state(id: NodeId, log: Vec<LogEntry>, hard_state: Option<HardState>, last_applied: Option<u64>) -> (r: Result<InitialState, StorageError>)
    ensures
        log@.len() == 0 ==> (r matches Ok(s) && s.last_log_index == 0 && s.last_log_term == 0
            && s.last_applied_log == 0 && s.hard_state == (HardState { current_term: 0, voted_for: None })
            && s.membership@ == initial_membership(id)),
        log@.len() > 0 && hard_state is None ==> r == Err::<InitialState, StorageError>(StorageError::NoHardState),
        log@.len() > 0 && hard_state is Some ==> (r matches Ok(s)
            && s.last_log_index == log@.last().index
            && s.last_log_term == log@.last().term
            && s.last_applied_log == (match last_applied { Some(i) => i, None => 0 })
            && s.hard_state == hard_state.unwrap()
            && s.membership@ == latest_membership(log@, id)),
{
    if log.len() == 0 {
        return Ok(InitialState::new_initial(id));
    }
    let (last_log_index, last_log_term) = (log[log.len() - 1].index, log[log.len() - 1].term);
    let membership = get_membership_config(log, id);
    let hard_state = match hard_state {
        Some(hs) => hs,
        None => return Err(StorageError::NoHardState),
    };
    let last_applied_log = match last_applied {
        Some(i) => i,
        None => 0,
    };
    Ok(InitialState { last_log_index, last_log_term, last_applied_log, hard_state, membership })
}

//////////////////////////////////////////////////////////////////////////////////////////////////
// Snapshot installation /////////////////////////////////////////////////////////////////////////

/// Whether installing a snapshot deletes the log entry with index `k`: every entry up to and
/// including `delete_through`, or every entry where it is `None`.
pub open spec fn deleted_by(k: u64, delete_through: Option<u64>) -> bool {
    match delete_through {
        Some(t) => k <= t,
        None => true,
    }
}

/// The indices, in log order, of the entries that installing a snapshot deletes.
pub open spec fn deleted_indices(keys: Seq<u64>, delete_through: Option<u64>) -> Seq<u64>
    decreases keys.len(),
{
    if keys.len() == 0 {
        Seq::empty()
    } else if deleted_by(keys.last(), delete_through) {
        deleted_indices(keys.drop_last(), delete_through).push(keys.last())
    } else {
        deleted_indices(keys.drop_last(), delete_through)
    }
}

/// A batch of writes to the log, applied atomically: the removals, then one insertion.
#[derive(Debug)]
pub struct LogBatch {
    /// The indices of the entries to remove.
    pub removes: Vec<u64>,
    /// The entry to insert.
    pub insert: LogEntry,
}

/// What installing a snapshot does to the log, and whether the system's state must then be
/// rebuilt from the snapshot.
#[derive(Debug)]
pub struct SnapshotInstallation {
    /// The writes to apply to the log.
    pub batch: LogBatch,
    /// Whether the whole log was replaced, so that the state must be recovered from the snapshot.
    pub needs_recovery: bool,
}

/// Plan the installation of a snapshot which has finished streaming from the cluster leader.
///
/// Every entry of the log through `delete_through` is deleted, or every entry where it is `None`;
/// a snapshot pointer with the given index, term and ID and the membership recorded in the
/// snapshot is written at `index`. The state must be recovered from the snapshot only where the
/// whole log was deleted.
pub fn plan_snapshot_installation(
    log_indices: &[u64],
    index: u64,
    term: u64,
    delete_through: Option<u64>,
    id: String,
    members: &[NodeId],
    members_after_consensus: &[NodeId],
) -> (p: SnapshotInstallation)
    ensures
        p.batch.removes@ == deleted_indices(log_indices@, delete_through),
        p.batch.insert.index == index,
        p.batch.insert.term == term,
        p.batch.insert.payload matches EntryPayload::SnapshotPointer { id: pid, membership }
            && pid@ == id@ && membership@ == snapshot_membership(members@, members_after_consensus@),
        p.needs_recovery == delete_through is None,
{
    let mut removes: Vec<u64> = Vec::new();
    let mut i: usize = 0;
    while i < log_indices.len()
        invariant
            i <= log_indices.len(),
            removes@ == deleted_indices(log_indices@.take(i as int), delete_through),
        decreases log_indices.len() - i,
    {
        let k = log_indices[i];
        proof {
            assert(log_indices@.take(i as int + 1).drop_last() =~= log_indices@.take(i as int));
        }
        let deleted = match delete_through {
            Some(t) => k <= t,
            None => true,
        };
        if deleted {
            removes.push(k);
        }
        i = i + 1;
    }
    proof {
        assert(log_indices@.take(log_indices@.len() as int) =~= log_indices@);
    }
    let membership = MembershipConfig::from_snapshot_lists(members, members_after_consensus);
    let pointer = LogEntry { index, term, payload: EntryPayload::SnapshotPointer { id, membership } };
    SnapshotInstallation {
        batch: LogBatch { removes, insert: pointer },
        needs_recovery: delete_through.is_none(),
    }
}

/// The log, keyed by index, after a batch is applied to it.
pub open spec fn apply_log_batch(log: Map<u64, LogEntry>, removes: Seq<u64>, insert: LogEntry) -> Map<u64, LogEntry> {
    log.remove_keys(removes.to_set()).insert(insert.index, insert)
}

proof fn lemma_deleted_indices_members(keys: Seq<u64>, delete_through: Option<u64>, k: u64)
    ensures
        deleted_indices(keys, delete_through).contains(k) <==> keys.contains(k) && deleted_by(k, delete_through),
    decreases keys.len(),
{
    if keys.len() > 0 {
        lemma_deleted_indices_members(keys.drop_last(), delete_through, k);
        assert(keys =~= keys.drop_last().push(keys.last()));
        if keys.contains(k) && k != keys.last() {
            let i = choose|i: int| 0 <= i < keys.len() && keys[i] == k;
            assert(keys.drop_last()[i] == k);
        }
        if keys.drop_last().contains(k) {
            let i = choose|i: int| 0 <= i < keys.len() - 1 && keys.drop_last()[i] == k;
            assert(keys[i] == k);
        }
        if deleted_by(keys.last(), delete_through) {
            let d = deleted_indices(keys.drop_last(), delete_through);
            assert(d.push(keys.last())[d.len() as int] == keys.last());
            if d.push(keys.last()).contains(k) && k != keys.last() {
                let i = choose|i: int| 0 <= i < d.len() + 1 && d.push(keys.last())[i] == k;
                assert(d[i] == k);
            }
            if d.contains(k) {
                let i = choose|i: int| 0 <= i < d.len() && d[i] == k;
                assert(d.push(keys.last())[i] == k);
            }
        }
    }
}

/// Installing a snapshot leaves in the log the snapshot pointer at its index, and beside it
/// exactly the entries past `delete_through`, unchanged; where `delete_through` is `None`, the
/// pointer alone.
pub proof fn lemma_snapshot_installation_result(
    log: Map<u64, LogEntry>,
    log_indices: Seq<u64>,
    delete_through: Option<u64>,
    pointer: LogEntry,
)
    requires
        log_indices.to_set() == log.dom(),
    ensures
        ({
            let after = apply_log_batch(log, deleted_indices(log_indices, delete_through), pointer);
            &&& after.contains_key(pointer.index)
            &&& after[pointer.index] == pointer
            &&& forall|k: u64| k != pointer.index ==>
                (#[trigger] after.contains_key(k) <==> log.contains_key(k) && !deleted_by(k, delete_through))
            &&& forall|k: u64| k != pointer.index && #[trigger] after.contains_key(k) ==> after[k] == log[k]
        }),
{
    let removed = deleted_indices(log_indices, delete_through);
    assert forall|k: u64| #[trigger] removed.to_set().contains(k) <==> log.contains_key(k) && deleted_by(k, delete_through) by {
        lemma_deleted_indices_members(log_indices, delete_through, k);
        assert(log_indices.to_set().contains(k) <==> log_indices.contains(k));
    }
}

//////////////////////////////////////////////////////////////////////////////////////////////////
// Log ranges ////////////////////////////////////////////////////////////////////////////////////

/// Whether index `k` lies in the range which starts at `start`, inclusive, and stops at `stop`,
/// exclusive, or runs to the end of the log where `stop` is `None`.
pub open spec fn in_log_range(k: u64, start: u64, stop: Option<u64>) -> bool {
    start <= k && match stop {
        Some(t) => k < t,
        None => true,
    }
}

/// The indices, in log order, which lie in a range of the log.
pub open spec fn range_indices(keys: Seq<u64>, start: u64, stop: Option<u64>) -> Seq<u64>
    decreases keys.len(),
{
    if keys.len() == 0 {
        Seq::empty()
    } else if in_log_range(keys.last(), start, stop) {
        range_indices(keys.drop_last(), start, stop).push(keys.last())
    } else {
        range_indices(keys.drop_last(), start, stop)
    }
}

/// Select the indices of the log which lie in `[start, stop)`, or in `[start, ..)` where `stop`
/// is `None`: those of the entries to read for a range query, or to delete from `start` on.
pub fn log_range(log_indices: &[u64], start: u64, stop: Option<u64>) -> (r: Vec<u64>)
    ensures
        r@ == range_indices(log_indices@, start, stop),
{
    let mut r: Vec<u64> = Vec::new();
    let mut i: usize = 0;
    while i < log_indices.len()
        invariant
            i <= log_indices.len(),
            r@ == range_indices(log_indices@.take(i as int), start, stop),
        decreases log_indices.len() - i,
    {
        let k = log_indices[i];
        proof {
            assert(log_indices@.take(i as int + 1).drop_last() =~= log_indices@.take(i as int));
        }
        let inside = start <= k && match stop {
            Some(t) => k < t,
            None => true,
        };
        if inside {
            r.push(k);
        }
        i = i + 1;
    }
    proof {
        assert(log_indices@.take(log_indices@.len() as int) =~= log_indices@);
    }
    r
}

//////////////////////////////////////////////////////////////////////////////////////////////////
// Snapshot files ////////////////////////////////////////////////////////////////////////////////

/// The name of the file of a live snapshot.
pub open spec fn snapshot_file_name(id: Seq<char>) -> Seq<char> {
    id + ".snap"@
}

/// The name of the file of a snapshot still being received.
pub open spec fn tmp_snapshot_file_name(id: Seq<char>) -> Seq<char> {
    id + ".snap.tmp"@
}

/// The name of the file of a live snapshot.
pub fn snapshot_file_name_of(id: &str) -> (s: String)
    ensures
        s@ == snapshot_file_name(id@),
{
    let mut s = String::from_str(id);
    s.append(".snap");
    s
}

/// The name of the file of a snapshot still being received.
pub fn tmp_snapshot_file_name_of(id: &str) -> (s: String)
    ensures
        s@ == tmp_snapshot_file_name(id@),
{
    let mut s = String::from_str(id);
    s.append(".snap.tmp");
    s
}

/// The position of the last `.` of a file name, or -1 where it holds none.
pub open spec fn last_dot(name: Seq<char>) -> int
    decreases name.len(),
{
    if name.len() == 0 {
        -1
    } else if name.last() == '.' {
        name.len() - 1
    } else {
        last_dot(name.drop_last())
    }
}

/// The extension of a file name: what follows its last `.`; none where it holds no `.`, where its
/// only `.` begins it, or where it is `..`.
pub open spec fn file_extension(name: Seq<char>) -> Option<Seq<char>> {
    if name == ".."@ || last_dot(name) <= 0 {
        None
    } else {
        Some(name.skip(last_dot(name) + 1))
    }
}

proof fn lemma_last_dot_at(name: Seq<char>, k: int)
    requires
        -1 <= k < name.len(),
        k >= 0 ==> name[k] == '.',
        forall|j: int| k < j < name.len() ==> name[j] != '.',
    ensures
        last_dot(name) == k,
    decreases name.len(),
{
    if name.len() > 0 && k < name.len() - 1 {
        lemma_last_dot_at(name.drop_last(), k);
    }
}

fn last_dot_of(chars: &Vec<char>) -> (d: Option<usize>)
    ensures
        match d {
            Some(k) => k == last_dot(chars@) && k < chars@.len(),
            None => last_dot(chars@) == -1,
        },
{
    let mut i: usize = chars.len();
    while i > 0
        invariant
            i <= chars.len(),
            forall|j: int| i <= j < chars.len() ==> chars@[j] != '.',
        decreases i,
    {
        if chars[i - 1] == '.' {
            proof {
                lemma_last_dot_at(chars@, i - 1);
            }
            return Some(i - 1);
        }
        i = i - 1;
    }
    proof {
        lemma_last_dot_at(chars@, -1);
    }
    None
}

/// Whether a file name has the extension of a live snapshot.
pub fn has_snapshot_extension(name: &str) -> (b: bool)
    ensures
        b == (file_extension(name@) == Some("snap"@)),
{
    let chars = crate::auth::chars_of(name);
    proof {
        reveal_strlit("..");
        reveal_strlit("snap");
    }
    if chars.len() == 2 && chars[0] == '.' && chars[1] == '.' {
        assert(chars@ =~= ".."@);
        return false;
    }
    assert(chars@ != ".."@) by {
        if chars@ == ".."@ {
            assert(chars@[0] == '.' && chars@[1] == '.');
        }
    }
    match last_dot_of(&chars) {
        None => false,
        Some(d) => {
            if d == 0 {
                return false;
            }
            let ghost ext = chars@.skip(d as int + 1);
            if chars.len() - d - 1 != 4 {
                assert(ext.len() != "snap"@.len());
                return false;
            }
            let b = chars[d + 1] == 's' && chars[d + 2] == 'n' && chars[d + 3] == 'a' && chars[d + 4] == 'p';
            proof {
                if b {
                    assert(ext =~= "snap"@);
                } else {
                    assert(ext != "snap"@) by {
                        if ext == "snap"@ {
                            assert(ext[0] == 's' && ext[1] == 'n' && ext[2] == 'a' && ext[3] == 'p');
                        }
                    }
                }
            }
            b
        },
    }
}

/// Find the live snapshot among the files of the snapshot directory: the first whose extension
/// is that of a live snapshot.
pub fn find_live_snapshot(file_names: &[String]) -> (r: Option<usize>)
    ensures
        match r {
            Some(i) => i < file_names.len() && file_extension(file_names@[i as int]@) == Some("snap"@)
                && forall|j: int| 0 <= j < i ==> file_extension(#[trigger] file_names@[j]@) != Some("snap"@),
            None => forall|j: int| 0 <= j < file_names.len() ==> file_extension(#[trigger] file_names@[j]@) != Some("snap"@),
        },
{
    let mut i: usize = 0;
    while i < file_names.len()
        invariant
            i <= file_names.len(),
            forall|j: int| 0 <= j < i ==> file_extension(#[trigger] file_names@[j]@) != Some("snap"@),
        decreases file_names.len() - i,
    {
        if has_snapshot_extension(file_names[i].as_str()) {
            return Some(i);
        }
        i = i + 1;
    }
    None
}

/// The files of the snapshot directory to remove once a snapshot is installed: every file but
/// the installed snapshot's own, in the order given.
pub open spec fn stale_snapshot_files_spec(names: Seq<Seq<char>>, id: Seq<char>) -> Seq<Seq<char>>
    decreases names.len(),
{
    if names.len() == 0 {
        Seq::empty()
    } else if names.last() != snapshot_file_name(id) {
        stale_snapshot_files_spec(names.drop_last(), id).push(names.last())
    } else {
        stale_snapshot_files_spec(names.drop_last(), id)
    }
}

/// Select the files of the snapshot directory to remove once the snapshot `id` is installed:
/// every file but that snapshot's own.
pub fn stale_snapshot_files(file_names: &[String], id: &str) -> (r: Vec<String>)
    ensures
        r@.map_values(|s: String| s@) == stale_snapshot_files_spec(file_names@.map_values(|s: String| s@), id@),
{
    let live = snapshot_file_name_of(id);
    let ghost names = file_names@.map_values(|s: String| s@);
    let mut r: Vec<String> = Vec::new();
    let mut i: usize = 0;
    while i < file_names.len()
        invariant
            i <= file_names.len(),
            names == file_names@.map_values(|s: String| s@),
            live@ == snapshot_file_name(id@),
            r@.map_values(|s: String| s@) == stale_snapshot_files_spec(names.take(i as int), id@),
        decreases file_names.len() - i,
    {
        proof {
            assert(names.take(i as int + 1).drop_last() =~= names.take(i as int));
        }
        if !crate::auth::str_eq(file_names[i].as_str(), live.as_str()) {
            let ghost before = r@;
            r.push(file_names[i].clone());
            proof {
                assert(r@.map_values(|s: String| s@) =~= before.map_values(|s: String| s@).push(file_names@[i as int]@));
            }
        }
        i = i + 1;
    }
    proof {
        assert(names.take(names.len() as int) =~= names);
    }
    r
}

//////////////////////////////////////////////////////////////////////////////////////////////////
// Snapshot archives /////////////////////////////////////////////////////////////////////////////

/// Whether the last character of a path ends a separator or a `.` component, which the path's
/// last component does not take part in.
pub open spec fn ends_in_trailer(p: Seq<char>) -> bool {
    p.len() > 0 && (p.last() == '/' || (p.last() == '.' && (p.len() == 1 || p[p.len() - 2] == '/')))
}

/// A path with its trailing separators and trailing `.` components taken off.
pub open spec fn path_trimmed(p: Seq<char>) -> Seq<char>
    decreases p.len(),
{
    if ends_in_trailer(p) {
        path_trimmed(p.drop_last())
    } else {
        p
    }
}

/// The position just after the last `/` of a path; 0 where it holds none.
pub open spec fn after_last_slash(p: Seq<char>) -> int
    decreases p.len(),
{
    if p.len() == 0 {
        0
    } else if p.last() == '/' {
        p.len() as int
    } else {
        after_last_slash(p.drop_last())
    }
}

/// The file name of a `/`-separated path, as `Path::file_name` gives it: its last component,
/// empty components and `.` components aside; none where it has no such component, or where
/// that component is `..`.
pub open spec fn path_file_name(p: Seq<char>) -> Option<Seq<char>> {
    let t = path_trimmed(p);
    let name = t.skip(after_last_slash(t));
    if t.len() == 0 || name == ".."@ {
        None
    } else {
        Some(name)
    }
}

/// Whether an entry of a snapshot archive is the snapshot's metadata: whether the entry's path
/// has the file name `metadata`.
pub fn is_snapshot_metadata_path(path: &str) -> (b: bool)
    ensures
        b == (path_file_name(path@) == Some("metadata"@)),
{
    let chars = crate::auth::chars_of(path);
    let ghost p = chars@;
    let mut end: usize = chars.len();
    assert(p.take(end as int) =~= p);
    while end > 0 && (chars[end - 1] == '/' || (chars[end - 1] == '.' && (end == 1 || chars[end - 2] == '/')))
        invariant
            end <= chars.len(),
            p == chars@,
            path_trimmed(p.take(end as int)) == path_trimmed(p),
        decreases end,
    {
        proof {
            assert(ends_in_trailer(p.take(end as int)));
            assert(p.take(end as int).drop_last() =~= p.take(end as int - 1));
        }
        end = end - 1;
    }
    let ghost t = p.take(end as int);
    proof {
        assert(!ends_in_trailer(t));
        assert(path_trimmed(p) == t);
    }
    let mut start: usize = end;
    assert(t.take(start as int) =~= t);
    while start > 0 && chars[start - 1] != '/'
        invariant
            start <= end <= chars.len(),
            p == chars@,
            t == p.take(end as int),
            after_last_slash(t.take(start as int)) == after_last_slash(t),
        decreases start,
    {
        proof {
            assert(t.take(start as int).drop_last() =~= t.take(start as int - 1));
        }
        start = start - 1;
    }
    proof {
        assert(after_last_slash(t) == start as int);
    }
    let ghost name = t.skip(start as int);
    proof {
        reveal_strlit("metadata");
        reveal_strlit("..");
    }
    if end - start != 8 {
        assert(name.len() != "metadata"@.len());
        return false;
    }
    let b = chars[start] == 'm' && chars[start + 1] == 'e' && chars[start + 2] == 't' && chars[start + 3] == 'a'
        && chars[start + 4] == 'd' && chars[start + 5] == 'a' && chars[start + 6] == 't' && chars[start + 7] == 'a';
    proof {
        if b {
            assert(name =~= "metadata"@);
            assert(name != ".."@) by {
                assert(name.len() != ".."@.len());
            }
        } else {
            assert(name != "metadata"@) by {
                if name == "metadata"@ {
                    assert(name[0] == 'm' && name[1] == 'e' && name[2] == 't' && name[3] == 'a');
                    assert(name[4] == 'd' && name[5] == 'a' && name[6] == 't' && name[7] == 'a');
                }
            }
        }
    }
    b
}

/// The membership recovered from a log is exactly the one carried by its last entry that
/// carries one: a config change gives its whole config, joint consensus included, and a
/// snapshot pointer the membership it records.
pub proof fn lemma_latest_membership_is_last_carried(log: Seq<LogEntry>, id: NodeId, i: int)
    requires
        0 <= i < log.len(),
        forall|j: int| i < j < log.len() ==> (#[trigger] log[j].payload is Blank || log[j].payload is Normal),
    ensures
        log[i].payload matches EntryPayload::ConfigChange(m) ==> latest_membership(log, id) == m@,
        log[i].payload matches EntryPayload::SnapshotPointer { membership, .. } ==> latest_membership(log, id) == membership@,
    decreases log.len(),
{
    if i < log.len() - 1 {
        assert(log.last() == log[log.len() - 1]);
        let t = log.drop_last();
        assert forall|j: int| i < j < t.len() implies (#[trigger] t[j].payload is Blank || t[j].payload is Normal) by {
            assert(t[j] == log[j]);
        }
        lemma_latest_membership_is_last_carried(t, id, i);
        assert(t[i] == log[i]);
    }
}

/// A log in which no entry carries a membership recovers the membership of a pristine node:
/// this node alone, with no joint consensus underway.
pub proof fn lemma_latest_membership_without_configs(log: Seq<LogEntry>, id: NodeId)
    requires
        forall|j: int| 0 <= j < log.len() ==> (#[trigger] log[j].payload is Blank || log[j].payload is Normal),
    ensures
        latest_membership(log, id) == (MembershipView { members: set![id], members_after_consensus: None }),
    decreases log.len(),
{
    if log.len() > 0 {
        let t = log.drop_last();
        assert(log.last() == log[log.len() - 1]);
        assert forall|j: int| 0 <= j < t.len() implies (#[trigger] t[j].payload is Blank || t[j].payload is Normal) by {
            assert(t[j] == log[j]);
        }
        lemma_latest_membership_without_configs(t, id);
    }
}

} // verus!
