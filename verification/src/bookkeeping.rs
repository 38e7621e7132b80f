//! The Kubernetes controller's records of which pods lead or hold replicas of which streams.
//!
//! These records do no scheduling; they keep the scheduler's view of the pods up to date as
//! the statuses of streams change.

use vstd::prelude::*;
use vstd::string::StringExecFns;

use crate::strmap::StrMap;
use crate::token::{bytes_eq, names_eq, opt_str_eq, Token};
use crate::auth::str_eq;

verus! {

//////////////////////////////////////////////////////////////////////////////////////////////////
// Models ////////////////////////////////////////////////////////////////////////////////////////

/// The schedule of one partition of a stream, as its status records it.
#[derive(Debug)]
pub struct PartitionSchedule {
    /// Whether the partition has been scheduled.
    pub scheduled: bool,
    /// The pod leading the partition, if any.
    pub leader: Option<String>,
    /// The pods holding replicas of the partition, if any.
    pub replicas: Option<Vec<String>>,
}

/// The status of a stream: its scheduling epoch and the schedule of each partition.
#[derive(Debug)]
pub struct StreamScheduleStatus {
    pub epoch: u64,
    pub partitions: Vec<PartitionSchedule>,
}

/// What the controller records of a pod.
#[derive(Debug)]
pub struct PodInfo {
    /// The DNS name of the pod, once known.
    pub pod_dns_name: Option<String>,
    /// The streams with a partition led by this pod.
    pub stream_leaders: StrMap<()>,
    /// For each stream, the number of partition replicas of it held by this pod.
    pub stream_replicas: StrMap<u64>,
}

/// The mathematical form of a pod's record.
pub struct PodView {
    pub pod_dns_name: Option<Seq<char>>,
    pub stream_leaders: Set<Seq<char>>,
    pub stream_replicas: Map<Seq<char>, u64>,
}

impl PodInfo {
    pub open spec fn wf(&self) -> bool {
        self.stream_leaders.wf() && self.stream_replicas.wf()
    }

    pub open spec fn pview(&self) -> PodView {
        PodView {
            pod_dns_name: match self.pod_dns_name {
                Some(d) => Some(d@),
                None => None,
            },
            stream_leaders: self.stream_leaders@.dom(),
            stream_replicas: self.stream_replicas@,
        }
    }

    /// A pod with no records.
    pub fn new() -> (p: Self)
        ensures
            p.wf(),
            p.pod_dns_name is None,
            p.pview().stream_leaders == Set::<Seq<char>>::empty(),
            p.pview().stream_replicas == Map::<Seq<char>, u64>::empty(),
    {
        PodInfo { pod_dns_name: None, stream_leaders: StrMap::new(), stream_replicas: StrMap::new() }
    }
}

/// A Stream resource of the cluster.
#[derive(Debug)]
pub struct StreamResource {
    /// The name of the resource.
    pub name: Option<String>,
    /// The cluster to which the stream belongs.
    pub cluster: String,
    /// The rest of the resource (its other metadata and its spec), encoded so that equal contents
    /// are equal bytes.
    pub rest: Vec<u8>,
    /// The stream's status: its scheduling epoch and the schedule of each partition.
    pub status: Option<StreamScheduleStatus>,
}

/// A Pipeline resource of the cluster.
#[derive(Debug)]
pub struct PipelineResource {
    /// The name of the resource.
    pub name: Option<String>,
    /// The cluster to which the pipeline belongs.
    pub cluster: String,
    /// The name of the stream whose schedule the pipeline mirrors.
    pub source_stream: String,
    /// The rest of the resource, encoded so that equal contents are equal bytes.
    pub rest: Vec<u8>,
}

/// The records of the controller: the cluster it serves, each pod by name, and each of the
/// cluster's Token resources by name.
pub struct Controller {
    pub cluster: String,
    /// The Kubernetes namespace in which the cluster runs.
    pub namespace: String,
    pub pods: StrMap<PodInfo>,
    pub tokens: StrMap<Token>,
    /// The cluster's Stream resources, by name.
    pub streams: StrMap<StreamResource>,
    /// The cluster's Pipeline resources, by name.
    pub pipelines: StrMap<PipelineResource>,
}

/// The mathematical form of the pods' records.
pub open spec fn pods_view(m: Map<Seq<char>, PodInfo>) -> Map<Seq<char>, PodView> {
    Map::new(|k: Seq<char>| m.contains_key(k), |k: Seq<char>| m[k].pview())
}

impl Controller {
    pub open spec fn wf(&self) -> bool {
        &&& self.pods.wf()
        &&& self.tokens.wf()
        &&& self.streams.wf()
        &&& self.pipelines.wf()
        &&& forall|k: Seq<char>| #[trigger] self.pods@.contains_key(k) ==> self.pods@[k].wf()
    }

    pub open spec fn view_pods(&self) -> Map<Seq<char>, PodView> {
        pods_view(self.pods@)
    }
}

/// The view of a list of names.
pub open spec fn names_view(names: Seq<String>) -> Seq<Seq<char>> {
    names.map_values(|s: String| s@)
}

//////////////////////////////////////////////////////////////////////////////////////////////////
// Record updates ////////////////////////////////////////////////////////////////////////////////

/// How one pod's record changes.
#[derive(Clone, Copy, Debug, PartialEq, Eq, Structural)]
pub enum PodChange {
    RemoveLeader,
    RemoveReplica,
    AddLeader,
    AddReplica,
}

/// The number of replicas of a stream that a pod's record counts.
pub open spec fn replica_count(p: PodView, name: Seq<char>) -> int {
    if p.stream_replicas.contains_key(name) { p.stream_replicas[name] as int } else { 0 }
}

/// A pod's record after a change concerning a stream.
pub open spec fn changed_pod(p: PodView, name: Seq<char>, change: PodChange) -> PodView {
    match change {
        PodChange::RemoveLeader => PodView { stream_leaders: p.stream_leaders.remove(name), ..p },
        PodChange::RemoveReplica => PodView { stream_replicas: p.stream_replicas.remove(name), ..p },
        PodChange::AddLeader => PodView { stream_leaders: p.stream_leaders.insert(name), ..p },
        PodChange::AddReplica => PodView {
            stream_replicas: p.stream_replicas.insert(name, (replica_count(p, name) + 1) as u64),
            ..p
        },
    }
}

/// The records after a change to one pod's record; a pod without a record is left alone.
pub open spec fn change_pod(pods: Map<Seq<char>, PodView>, pod: Seq<char>, name: Seq<char>, change: PodChange) -> Map<Seq<char>, PodView> {
    if pods.contains_key(pod) {
        pods.insert(pod, changed_pod(pods[pod], name, change))
    } else {
        pods
    }
}

/// The records after the same change to the record of each pod of a list, in order.
pub open spec fn change_pods(pods: Map<Seq<char>, PodView>, list: Seq<Seq<char>>, name: Seq<char>, change: PodChange) -> Map<Seq<char>, PodView>
    decreases list.len(),
{
    if list.len() == 0 {
        pods
    } else {
        change_pod(change_pods(pods, list.drop_last(), name, change), list.last(), name, change)
    }
}

/// The records after the assignments of a partition are purged (`add` false) or recorded (`add`
/// true): its leader's, then each of its replicas'. Partitions not scheduled change nothing.
pub open spec fn partition_change(pods: Map<Seq<char>, PodView>, part: PartitionSchedule, name: Seq<char>, add: bool) -> Map<Seq<char>, PodView> {
    if !part.scheduled {
        pods
    } else {
        let with_leader = match part.leader {
            Some(l) => change_pod(pods, l@, name, if add { PodChange::AddLeader } else { PodChange::RemoveLeader }),
            None => pods,
        };
        match part.replicas {
            Some(r) => change_pods(with_leader, names_view(r@), name, if add { PodChange::AddReplica } else { PodChange::RemoveReplica }),
            None => with_leader,
        }
    }
}

/// The records after the assignments of each partition of a list are purged or recorded, in order.
pub open spec fn partitions_change(pods: Map<Seq<char>, PodView>, parts: Seq<PartitionSchedule>, name: Seq<char>, add: bool) -> Map<Seq<char>, PodView>
    decreases parts.len(),
{
    if parts.len() == 0 {
        pods
    } else {
        partition_change(partitions_change(pods, parts.drop_last(), name, add), parts.last(), name, add)
    }
}

/// The epoch of a stream's status; 0 where it has none.
pub open spec fn status_epoch(status: Option<StreamScheduleStatus>) -> u64 {
    match status {
        Some(s) => s.epoch,
        None => 0,
    }
}

/// The records after a stream's status is updated: where the epoch is unchanged, nothing changes;
/// otherwise the old status's assignments are purged, then the new status's are recorded.
pub open spec fn stream_updated(
    pods: Map<Seq<char>, PodView>,
    old: Option<StreamScheduleStatus>,
    new: Option<StreamScheduleStatus>,
    name: Seq<char>,
) -> Map<Seq<char>, PodView> {
    if status_epoch(old) == status_epoch(new) {
        pods
    } else {
        let purged = match old {
            Some(s) => partitions_change(pods, s.partitions@, name, false),
            None => pods,
        };
        match new {
            Some(s) => partitions_change(purged, s.partitions@, name, true),
            None => purged,
        }
    }
}

/// The number of replica assignments that a status records: an upper bound on how much any
/// pod's count for the stream grows when the status is recorded.
pub open spec fn replica_mentions(parts: Seq<PartitionSchedule>) -> nat
    decreases parts.len(),
{
    if parts.len() == 0 {
        0
    } else {
        replica_mentions(parts.drop_last()) + (match parts.last().replicas {
            Some(r) => if parts.last().scheduled { r@.len() } else { 0 },
            None => 0,
        })
    }
}

/// Every pod's count for the stream stays within 64 bits when `more` replicas are recorded.
pub open spec fn counts_fit(pods: Map<Seq<char>, PodView>, name: Seq<char>, more: int) -> bool {
    forall|k: Seq<char>| #[trigger] pods.contains_key(k) ==> replica_count(pods[k], name) + more <= u64::MAX
}

proof fn lemma_counts_fit_after_change(pods: Map<Seq<char>, PodView>, pod: Seq<char>, name: Seq<char>, change: PodChange, more: int)
    requires
        counts_fit(pods, name, more),
        change is AddReplica ==> more >= 1,
    ensures
        counts_fit(change_pod(pods, pod, name, change), name, if change is AddReplica { more - 1 } else { more }),
{
    let after = change_pod(pods, pod, name, change);
    let m = if change is AddReplica { more - 1 } else { more };
    assert forall|k: Seq<char>| #[trigger] after.contains_key(k) implies replica_count(after[k], name) + m <= u64::MAX by {
        assert(pods.contains_key(k));
    }
}

impl Controller {
    /// Change one pod's record, if the pod has one.
    fn change_pod_exec(&mut self, pod: &str, name: &str, change: PodChange)
        requires
            old(self).wf(),
            change is AddReplica ==> counts_fit(old(self).view_pods(), name@, 1),
        ensures
            final(self).wf(),
            final(self).cluster == old(self).cluster,
            final(self).namespace == old(self).namespace,
            final(self).tokens@ == old(self).tokens@,
            final(self).streams@ == old(self).streams@,
            final(self).pipelines@ == old(self).pipelines@,
            final(self).view_pods() == change_pod(old(self).view_pods(), pod@, name@, change),
    {
        let ghost before = self.pods@;
        match self.pods.remove(pod) {
            None => {
                proof {
                    assert(self.pods@ =~= before);
                }
            },
            Some(mut info) => {
                let ghost p = info.pview();
                match change {
                    PodChange::RemoveLeader => {
                        let _ = info.stream_leaders.remove(name);
                        proof {
                            assert(info.stream_leaders@.dom() =~= p.stream_leaders.remove(name@));
                        }
                    },
                    PodChange::RemoveReplica => {
                        let _ = info.stream_replicas.remove(name);
                    },
                    PodChange::AddLeader => {
                        info.stream_leaders.insert(String::from_str(name), ());
                        proof {
                            assert(info.stream_leaders@.dom() =~= p.stream_leaders.insert(name@));
                        }
                    },
                    PodChange::AddReplica => {
                        let count: u64 = match info.stream_replicas.get(name) {
                            Some(c) => *c,
                            None => 0,
                        };
                        proof {
                            assert(before.contains_key(pod@));
                            assert(pods_view(before).contains_key(pod@));
                            assert(replica_count(pods_view(before)[pod@], name@) + 1 <= u64::MAX);
                        }
                        info.stream_replicas.insert(String::from_str(name), count + 1);
                    },
                }
                self.pods.insert(String::from_str(pod), info);
                proof {
                    assert(pods_view(self.pods@) =~= change_pod(pods_view(before), pod@, name@, change));
                }
            },
        }
    }

    /// Apply the same change to the record of each pod of a list, in order.
    fn change_pods_exec(&mut self, list: &Vec<String>, name: &str, change: PodChange, Ghost(more): Ghost<int>)
        requires
            old(self).wf(),
            change is AddReplica ==> counts_fit(old(self).view_pods(), name@, more) && more >= list@.len(),
        ensures
            final(self).wf(),
            final(self).cluster == old(self).cluster,
            final(self).namespace == old(self).namespace,
            final(self).tokens@ == old(self).tokens@,
            final(self).streams@ == old(self).streams@,
            final(self).pipelines@ == old(self).pipelines@,
            final(self).view_pods() == change_pods(old(self).view_pods(), names_view(list@), name@, change),
            change is AddReplica ==> counts_fit(final(self).view_pods(), name@, more - list@.len()),
    {
        let ghost start = self.view_pods();
        let mut i: usize = 0;
        while i < list.len()
            invariant
                i <= list.len(),
                self.wf(),
                self.cluster == old(self).cluster,
                self.namespace == old(self).namespace,
                self.tokens@ == old(self).tokens@,
                self.streams@ == old(self).streams@,
                self.pipelines@ == old(self).pipelines@,
                self.view_pods() == change_pods(start, names_view(list@).take(i as int), name@, change),
                change is AddReplica ==> counts_fit(self.view_pods(), name@, more - i) && more >= list@.len(),
            decreases list.len() - i,
        {
            proof {
                assert(names_view(list@).take(i as int + 1).drop_last() =~= names_view(list@).take(i as int));
                if change is AddReplica {
                    assert forall|k: Seq<char>| #[trigger] self.view_pods().contains_key(k)
                        implies replica_count(self.view_pods()[k], name@) + 1 <= u64::MAX by {
                    }
                    lemma_counts_fit_after_change(self.view_pods(), list@[i as int]@, name@, change, more - i);
                }
            }
            self.change_pod_exec(list[i].as_str(), name, change);
            i = i + 1;
        }
        proof {
            assert(names_view(list@).take(list@.len() as int) =~= names_view(list@));
        }
    }

    /// Purge or record the assignments of one partition.
    fn partition_change_exec(&mut self, part: &PartitionSchedule, name: &str, add: bool, Ghost(more): Ghost<int>)
        requires
            old(self).wf(),
            add ==> counts_fit(old(self).view_pods(), name@, more) && more >= replica_mentions(seq![*part]),
        ensures
            final(self).wf(),
            final(self).cluster == old(self).cluster,
            final(self).namespace == old(self).namespace,
            final(self).tokens@ == old(self).tokens@,
            final(self).streams@ == old(self).streams@,
            final(self).pipelines@ == old(self).pipelines@,
            final(self).view_pods() == partition_change(old(self).view_pods(), *part, name@, add),
            add ==> counts_fit(final(self).view_pods(), name@, more - replica_mentions(seq![*part])),
    {
        proof {
            assert(seq![*part].drop_last() =~= Seq::<PartitionSchedule>::empty());
        }
        if !part.scheduled {
            return;
        }
        let ghost start = self.view_pods();
        match &part.leader {
            Some(l) => {
                let change = if add { PodChange::AddLeader } else { PodChange::RemoveLeader };
                proof {
                    if add {
                        lemma_counts_fit_after_change(start, l@, name@, change, more);
                    }
                }
                self.change_pod_exec(l.as_str(), name, change);
            },
            None => {},
        }
        match &part.replicas {
            Some(r) => {
                let change = if add { PodChange::AddReplica } else { PodChange::RemoveReplica };
                self.change_pods_exec(r, name, change, Ghost(more));
            },
            None => {},
        }
    }

    /// Purge or record the assignments of each partition of a list, in order.
    fn partitions_change_exec(&mut self, parts: &Vec<PartitionSchedule>, name: &str, add: bool, Ghost(more): Ghost<int>)
        requires
            old(self).wf(),
            add ==> counts_fit(old(self).view_pods(), name@, more) && more >= replica_mentions(parts@),
        ensures
            final(self).wf(),
            final(self).cluster == old(self).cluster,
            final(self).namespace == old(self).namespace,
            final(self).tokens@ == old(self).tokens@,
            final(self).streams@ == old(self).streams@,
            final(self).pipelines@ == old(self).pipelines@,
            final(self).view_pods() == partitions_change(old(self).view_pods(), parts@, name@, add),
            add ==> counts_fit(final(self).view_pods(), name@, more - replica_mentions(parts@)),
    {
        let ghost start = self.view_pods();
        let mut i: usize = 0;
        while i < parts.len()
            invariant
                i <= parts.len(),
                self.wf(),
                self.cluster == old(self).cluster,
                self.namespace == old(self).namespace,
                self.tokens@ == old(self).tokens@,
                self.streams@ == old(self).streams@,
                self.pipelines@ == old(self).pipelines@,
                self.view_pods() == partitions_change(start, parts@.take(i as int), name@, add),
                add ==> counts_fit(self.view_pods(), name@, more - replica_mentions(parts@.take(i as int))),
                add ==> more >= replica_mentions(parts@),
            decreases parts.len() - i,
        {
            proof {
                assert(parts@.take(i as int + 1).drop_last() =~= parts@.take(i as int));
                lemma_replica_mentions_prefix(parts@, i as int + 1);
                assert(seq![parts@[i as int]].drop_last() =~= Seq::<PartitionSchedule>::empty());
            }
            self.partition_change_exec(&parts[i], name, add, Ghost(more - replica_mentions(parts@.take(i as int))));
            i = i + 1;
        }
        proof {
            assert(parts@.take(parts@.len() as int) =~= parts@);
        }
    }

    /// Update the records for a newly observed status of a stream.
    ///
    /// Where the epochs of the old and new statuses are the same, nothing changes and `false` is
    /// returned. Otherwise the assignments of the old status's scheduled partitions are purged
    /// from the pods' records (the stream removed from its leaders' and its replicas' records),
    /// then those of the new status's scheduled partitions are recorded (the stream added to its
    /// leaders', and counted once more in its replicas' records, for each replica), and `true`
    /// is returned. Pods without a record are left alone.
    pub fn bookkeeping_stream_updated(&mut self, previous: &Option<StreamScheduleStatus>, current: &Option<StreamScheduleStatus>, name: &str) -> (new_epoch: bool)
        requires
            old(self).wf(),
            counts_fit(old(self).view_pods(), name@, match current { Some(s) => replica_mentions(s.partitions@) as int, None => 0 }),
        ensures
            final(self).wf(),
            final(self).cluster == old(self).cluster,
            final(self).namespace == old(self).namespace,
            final(self).tokens@ == old(self).tokens@,
            final(self).streams@ == old(self).streams@,
            final(self).pipelines@ == old(self).pipelines@,
            new_epoch == (status_epoch(*previous) != status_epoch(*current)),
            !new_epoch ==> final(self).pods@ == old(self).pods@,
            final(self).view_pods() == stream_updated(old(self).view_pods(), *previous, *current, name@),
    {
        let old_epoch = match previous {
            Some(s) => s.epoch,
            None => 0,
        };
        let new_epoch = match current {
            Some(s) => s.epoch,
            None => 0,
        };
        if old_epoch == new_epoch {
            return false;
        }
        let ghost more: int = match current { Some(s) => replica_mentions(s.partitions@) as int, None => 0 };
        match previous {
            Some(s) => {
                self.partitions_change_exec(&s.partitions, name, false, Ghost(more));
                proof {
                    lemma_purge_keeps_counts_fit(old(self).view_pods(), s.partitions@, name@, more);
                }
            },
            None => {},
        }
        match current {
            Some(s) => {
                self.partitions_change_exec(&s.partitions, name, true, Ghost(more));
            },
            None => {},
        }
        true
    }

    /// Update the records for a deleted stream: the assignments of its status's scheduled
    /// partitions are purged from the pods' records.
    pub fn bookkeeping_stream_deleted(&mut self, deleted: &Option<StreamScheduleStatus>, name: &str)
        requires
            old(self).wf(),
        ensures
            final(self).wf(),
            final(self).cluster == old(self).cluster,
            final(self).namespace == old(self).namespace,
            final(self).tokens@ == old(self).tokens@,
            final(self).streams@ == old(self).streams@,
            final(self).pipelines@ == old(self).pipelines@,
            final(self).view_pods() == (match deleted {
                Some(s) => partitions_change(old(self).view_pods(), s.partitions@, name@, false),
                None => old(self).view_pods(),
            }),
    {
        match deleted {
            Some(s) => {
                self.partitions_change_exec(&s.partitions, name, false, Ghost(0));
            },
            None => {},
        }
    }
}

proof fn lemma_replica_mentions_prefix(parts: Seq<PartitionSchedule>, i: int)
    requires
        0 < i <= parts.len(),
    ensures
        replica_mentions(parts.take(i)) == replica_mentions(parts.take(i - 1)) + replica_mentions(seq![parts[i - 1]]),
        replica_mentions(parts.take(i)) <= replica_mentions(parts),
    decreases parts.len() - i,
{
    assert(parts.take(i).drop_last() =~= parts.take(i - 1));
    assert(seq![parts[i - 1]].drop_last() =~= Seq::<PartitionSchedule>::empty());
    assert(replica_mentions(Seq::<PartitionSchedule>::empty()) == 0);
    assert(seq![parts[i - 1]].last() == parts.take(i).last());
    if i < parts.len() {
        lemma_replica_mentions_prefix(parts, i + 1);
    } else {
        assert(parts.take(i) =~= parts);
    }
}

proof fn lemma_change_pods_keeps_counts_fit(pods: Map<Seq<char>, PodView>, list: Seq<Seq<char>>, name: Seq<char>, change: PodChange, more: int)
    requires
        counts_fit(pods, name, more),
        !(change is AddReplica),
    ensures
        counts_fit(change_pods(pods, list, name, change), name, more),
    decreases list.len(),
{
    if list.len() > 0 {
        lemma_change_pods_keeps_counts_fit(pods, list.drop_last(), name, change, more);
        lemma_counts_fit_after_change(change_pods(pods, list.drop_last(), name, change), list.last(), name, change, more);
    }
}

proof fn lemma_purge_keeps_counts_fit(pods: Map<Seq<char>, PodView>, parts: Seq<PartitionSchedule>, name: Seq<char>, more: int)
    requires
        counts_fit(pods, name, more),
    ensures
        counts_fit(partitions_change(pods, parts, name, false), name, more),
    decreases parts.len(),
{
    if parts.len() > 0 {
        lemma_purge_keeps_counts_fit(pods, parts.drop_last(), name, more);
        let before = partitions_change(pods, parts.drop_last(), name, false);
        let part = parts.last();
        if part.scheduled {
            let with_leader = match part.leader {
                Some(l) => change_pod(before, l@, name, PodChange::RemoveLeader),
                None => before,
            };
            match part.leader {
                Some(l) => lemma_counts_fit_after_change(before, l@, name, PodChange::RemoveLeader, more),
                None => {},
            }
            match part.replicas {
                Some(r) => lemma_change_pods_keeps_counts_fit(with_leader, names_view(r@), name, PodChange::RemoveReplica, more),
                None => {},
            }
        }
    }
}

//////////////////////////////////////////////////////////////////////////////////////////////////
// Laws //////////////////////////////////////////////////////////////////////////////////////////

/// Whether a pod's record, if it has one, does not name the stream as led.
pub open spec fn not_leading(pods: Map<Seq<char>, PodView>, pod: Seq<char>, name: Seq<char>) -> bool {
    pods.contains_key(pod) ==> !pods[pod].stream_leaders.contains(name)
}

/// Whether a pod's record, if it has one, counts no replica of the stream.
pub open spec fn not_holding(pods: Map<Seq<char>, PodView>, pod: Seq<char>, name: Seq<char>) -> bool {
    pods.contains_key(pod) ==> !pods[pod].stream_replicas.contains_key(name)
}

proof fn lemma_removal_keeps_cleared(pods: Map<Seq<char>, PodView>, list: Seq<Seq<char>>, name: Seq<char>, change: PodChange, pod: Seq<char>)
    requires
        change is RemoveLeader || change is RemoveReplica,
    ensures
        not_leading(pods, pod, name) ==> not_leading(change_pods(pods, list, name, change), pod, name),
        not_holding(pods, pod, name) ==> not_holding(change_pods(pods, list, name, change), pod, name),
        change is RemoveReplica ==> forall|i: int| 0 <= i < list.len() ==> not_holding(change_pods(pods, list, name, change), #[trigger] list[i], name),
    decreases list.len(),
{
    if list.len() > 0 {
        lemma_removal_keeps_cleared(pods, list.drop_last(), name, change, pod);
        let before = change_pods(pods, list.drop_last(), name, change);
        if change is RemoveReplica {
            assert forall|i: int| 0 <= i < list.len() implies not_holding(change_pods(pods, list, name, change), #[trigger] list[i], name) by {
                if i < list.len() - 1 {
                    lemma_removal_keeps_cleared(pods, list.drop_last(), name, change, list[i]);
                    assert(list.drop_last()[i] == list[i]);
                }
            }
        }
    }
}

proof fn lemma_purge_keeps_cleared(pods: Map<Seq<char>, PodView>, parts: Seq<PartitionSchedule>, name: Seq<char>, pod: Seq<char>)
    ensures
        not_leading(pods, pod, name) ==> not_leading(partitions_change(pods, parts, name, false), pod, name),
        not_holding(pods, pod, name) ==> not_holding(partitions_change(pods, parts, name, false), pod, name),
    decreases parts.len(),
{
    if parts.len() > 0 {
        lemma_purge_keeps_cleared(pods, parts.drop_last(), name, pod);
        let before = partitions_change(pods, parts.drop_last(), name, false);
        let part = parts.last();
        if part.scheduled {
            let with_leader = match part.leader {
                Some(l) => change_pod(before, l@, name, PodChange::RemoveLeader),
                None => before,
            };
            match part.leader {
                Some(l) => {
                    lemma_removal_keeps_cleared(before, seq![l@], name, PodChange::RemoveLeader, pod);
                    assert(seq![l@].drop_last() =~= Seq::<Seq<char>>::empty());
                },
                None => {},
            }
            match part.replicas {
                Some(r) => lemma_removal_keeps_cleared(with_leader, names_view(r@), name, PodChange::RemoveReplica, pod),
                None => {},
            }
        }
    }
}

/// Once a stream's assignments are purged, as when it is deleted, no pod that led one of its
/// scheduled partitions records it as led, and no pod that held a replica of one counts it.
pub proof fn lemma_purge_clears_assignments(pods: Map<Seq<char>, PodView>, parts: Seq<PartitionSchedule>, name: Seq<char>)
    ensures
        forall|i: int| 0 <= i < parts.len() && (#[trigger] parts[i]).scheduled && parts[i].leader is Some ==>
            not_leading(partitions_change(pods, parts, name, false), parts[i].leader.unwrap()@, name),
        forall|i: int, j: int| 0 <= i < parts.len() && (#[trigger] parts[i]).scheduled && parts[i].replicas is Some
            && 0 <= j < parts[i].replicas.unwrap()@.len() ==>
            not_holding(partitions_change(pods, parts, name, false), #[trigger] parts[i].replicas.unwrap()@[j]@, name),
    decreases parts.len(),
{
    if parts.len() > 0 {
        let prefix = parts.drop_last();
        lemma_purge_clears_assignments(pods, prefix, name);
        let before = partitions_change(pods, prefix, name, false);
        let part = parts.last();
        let last = parts.len() - 1;
        let with_leader = match part.leader {
            Some(l) => change_pod(before, l@, name, PodChange::RemoveLeader),
            None => before,
        };
        assert forall|i: int| 0 <= i < parts.len() && (#[trigger] parts[i]).scheduled && parts[i].leader is Some implies
            not_leading(partitions_change(pods, parts, name, false), parts[i].leader.unwrap()@, name) by {
            let l = parts[i].leader.unwrap()@;
            if i < last {
                assert(prefix[i] == parts[i]);
                lemma_purge_keeps_cleared(before, seq![part], name, l);
                assert(seq![part].drop_last() =~= Seq::<PartitionSchedule>::empty());
                assert(partitions_change(before, Seq::<PartitionSchedule>::empty(), name, false) == before);
                assert(partitions_change(before, seq![part], name, false) == partitions_change(pods, parts, name, false));
            } else {
                match part.replicas {
                    Some(r) => lemma_removal_keeps_cleared(with_leader, names_view(r@), name, PodChange::RemoveReplica, l),
                    None => {},
                }
            }
        }
        assert forall|i: int, j: int| 0 <= i < parts.len() && (#[trigger] parts[i]).scheduled && parts[i].replicas is Some
            && 0 <= j < parts[i].replicas.unwrap()@.len() implies
            not_holding(partitions_change(pods, parts, name, false), #[trigger] parts[i].replicas.unwrap()@[j]@, name) by {
            let r = parts[i].replicas.unwrap()@[j]@;
            if i < last {
                assert(prefix[i] == parts[i]);
                assert(prefix[i].replicas.unwrap()@[j]@ == r);
                assert(not_holding(before, r, name));
                lemma_purge_keeps_cleared(before, seq![part], name, r);
                assert(seq![part].drop_last() =~= Seq::<PartitionSchedule>::empty());
                assert(partitions_change(before, Seq::<PartitionSchedule>::empty(), name, false) == before);
                assert(partitions_change(before, seq![part], name, false) == partitions_change(pods, parts, name, false));
            } else {
                let rs = part.replicas.unwrap();
                lemma_removal_keeps_cleared(with_leader, names_view(rs@), name, PodChange::RemoveReplica, r);
                assert(names_view(rs@)[j] == r);
            }
        }
    }
}

//////////////////////////////////////////////////////////////////////////////////////////////////
// Token resources ///////////////////////////////////////////////////////////////////////////////

impl Controller {
    /// Handle a Token resource which was created or updated.
    ///
    /// A token of another cluster, or without a name, is ignored, and so is one identical to the
    /// record already kept under its name. Otherwise the token is recorded under its name, which
    /// is returned: the scheduler and the other controllers are to be told of the update.
    pub fn token_applied(&mut self, token: Token) -> (updated: Option<String>)
        requires
            old(self).wf(),
        ensures
            final(self).wf(),
            final(self).cluster == old(self).cluster,
            final(self).namespace == old(self).namespace,
            final(self).pods@ == old(self).pods@,
            final(self).streams@ == old(self).streams@,
            final(self).pipelines@ == old(self).pipelines@,
            ({
                let ignored = token.spec.cluster@ != old(self).cluster@ || token.name is None
                    || (old(self).tokens@.contains_key(token.name.unwrap()@)
                        && old(self).tokens@[token.name.unwrap()@].tview() == token.tview());
                &&& ignored ==> updated is None && final(self).tokens@ == old(self).tokens@
                &&& !ignored ==> (updated matches Some(n) && n@ == token.name.unwrap()@
                    && final(self).tokens@ == old(self).tokens@.insert(token.name.unwrap()@, token))
            }),
    {
        if !crate::auth::str_eq(token.spec.cluster.as_str(), self.cluster.as_str()) {
            return None;
        }
        let name = match &token.name {
            Some(n) => n.clone(),
            None => return None,
        };
        match self.tokens.get(name.as_str()) {
            Some(old) => {
                if old.same_as(&token) {
                    return None;
                }
            },
            None => {},
        }
        self.tokens.insert(name.clone(), token);
        Some(name)
    }

    /// Handle a Token resource which was deleted.
    ///
    /// A token of another cluster, or without a name, or without a record, is ignored. Otherwise
    /// its record is removed, and returned with its name: the scheduler and the other
    /// controllers are to be told of the deletion.
    pub fn token_deleted(&mut self, token: &Token) -> (deleted: Option<(String, Token)>)
        requires
            old(self).wf(),
        ensures
            final(self).wf(),
            final(self).cluster == old(self).cluster,
            final(self).namespace == old(self).namespace,
            final(self).pods@ == old(self).pods@,
            final(self).streams@ == old(self).streams@,
            final(self).pipelines@ == old(self).pipelines@,
            ({
                let ignored = token.spec.cluster@ != old(self).cluster@ || token.name is None
                    || !old(self).tokens@.contains_key(token.name.unwrap()@);
                &&& ignored ==> deleted is None && final(self).tokens@ == old(self).tokens@
                &&& !ignored ==> (deleted matches Some((n, t)) && n@ == token.name.unwrap()@
                    && t == old(self).tokens@[token.name.unwrap()@]
                    && final(self).tokens@ == old(self).tokens@.remove(token.name.unwrap()@))
            }),
    {
        if !crate::auth::str_eq(token.spec.cluster.as_str(), self.cluster.as_str()) {
            return None;
        }
        let name = match &token.name {
            Some(n) => n,
            None => return None,
        };
        let ghost before = self.tokens@;
        match self.tokens.remove(name.as_str()) {
            Some(t) => Some((name.clone(), t)),
            None => {
                proof {
                    assert(self.tokens@ =~= before);
                }
                None
            },
        }
    }
}

//////////////////////////////////////////////////////////////////////////////////////////////////
// Pods //////////////////////////////////////////////////////////////////////////////////////////

/// The DNS name of a pod: `{name}.{subdomain}.{namespace}`.
pub open spec fn pod_dns_name_spec(name: Seq<char>, subdomain: Seq<char>, namespace: Seq<char>) -> Seq<char> {
    name + "."@ + subdomain + "."@ + namespace
}

impl Controller {
    /// Handle a pod which was created or updated, given its name and its subdomain, if any.
    ///
    /// A record is created for a pod without one. A record without a DNS name takes one where the
    /// pod has a subdomain; a DNS name once recorded stays. The scheduler is then to be told of
    /// the update.
    pub fn pod_applied(&mut self, name: &str, subdomain: Option<&str>)
        requires
            old(self).wf(),
        ensures
            final(self).wf(),
            final(self).cluster == old(self).cluster,
            final(self).namespace == old(self).namespace,
            final(self).tokens@ == old(self).tokens@,
            final(self).streams@ == old(self).streams@,
            final(self).pipelines@ == old(self).pipelines@,
            final(self).pods@.dom() == old(self).pods@.dom().insert(name@),
            forall|k: Seq<char>| k != name@ && #[trigger] old(self).pods@.contains_key(k) ==> final(self).pods@[k] == old(self).pods@[k],
            ({
                let p = final(self).pods@[name@];
                let was = old(self).pods@.contains_key(name@);
                let old_dns = if was { old(self).pods@[name@].pod_dns_name } else { None };
                &&& was ==> p.pview().stream_leaders == old(self).pods@[name@].pview().stream_leaders
                    && p.pview().stream_replicas == old(self).pods@[name@].pview().stream_replicas
                &&& !was ==> p.pview().stream_leaders == Set::<Seq<char>>::empty()
                    && p.pview().stream_replicas == Map::<Seq<char>, u64>::empty()
                &&& match old_dns {
                    Some(d) => p.pod_dns_name == Some(d),
                    None => match subdomain {
                        Some(sd) => p.pod_dns_name matches Some(d) && d@ == pod_dns_name_spec(name@, sd@, old(self).namespace@),
                        None => p.pod_dns_name is None,
                    },
                }
            }),
    {
        let ghost before = self.pods@;
        let mut info = match self.pods.remove(name) {
            Some(info) => info,
            None => PodInfo::new(),
        };
        if info.pod_dns_name.is_none() {
            match subdomain {
                Some(sd) => {
                    let mut dns = String::from_str(name);
                    dns.append(".");
                    dns.append(sd);
                    dns.append(".");
                    dns.append(self.namespace.as_str());
                    info.pod_dns_name = Some(dns);
                },
                None => {},
            }
        }
        self.pods.insert(String::from_str(name), info);
        proof {
            assert(self.pods@.dom() =~= before.dom().insert(name@));
        }
    }

    /// Handle a pod which was deleted: its record, if any, is removed and returned, and the
    /// scheduler is then to be told of the deletion.
    pub fn pod_deleted(&mut self, name: &str) -> (removed: Option<PodInfo>)
        requires
            old(self).wf(),
        ensures
            final(self).wf(),
            final(self).cluster == old(self).cluster,
            final(self).namespace == old(self).namespace,
            final(self).tokens@ == old(self).tokens@,
            final(self).streams@ == old(self).streams@,
            final(self).pipelines@ == old(self).pipelines@,
            final(self).pods@ == old(self).pods@.remove(name@),
            match removed {
                Some(p) => old(self).pods@.contains_key(name@) && p == old(self).pods@[name@],
                None => !old(self).pods@.contains_key(name@),
            },
    {
        self.pods.remove(name)
    }
}

//////////////////////////////////////////////////////////////////////////////////////////////////
// Stream resources //////////////////////////////////////////////////////////////////////////////

/// The mathematical form of a partition's schedule.
pub open spec fn partition_view(p: PartitionSchedule) -> (bool, Option<Seq<char>>, Option<Seq<Seq<char>>>) {
    (
        p.scheduled,
        match p.leader {
            Some(l) => Some(l@),
            None => None,
        },
        match p.replicas {
            Some(r) => Some(crate::token::names_view(r@)),
            None => None,
        },
    )
}

/// The mathematical form of a list of partition schedules.
pub open spec fn partitions_view(ps: Seq<PartitionSchedule>) -> Seq<(bool, Option<Seq<char>>, Option<Seq<Seq<char>>>)> {
    ps.map_values(|p: PartitionSchedule| partition_view(p))
}

/// The mathematical form of a stream's status.
pub open spec fn schedule_view(s: Option<StreamScheduleStatus>) -> Option<(u64, Seq<(bool, Option<Seq<char>>, Option<Seq<Seq<char>>>)>)> {
    match s {
        Some(st) => Some((st.epoch, partitions_view(st.partitions@))),
        None => None,
    }
}

/// The mathematical form of a Stream resource.
pub struct StreamResourceView {
    pub name: Option<Seq<char>>,
    pub cluster: Seq<char>,
    pub rest: Seq<u8>,
    pub status: Option<(u64, Seq<(bool, Option<Seq<char>>, Option<Seq<Seq<char>>>)>)>,
}

impl StreamResource {
    pub open spec fn rview(&self) -> StreamResourceView {
        StreamResourceView {
            name: match self.name {
                Some(n) => Some(n@),
                None => None,
            },
            cluster: self.cluster@,
            rest: self.rest@,
            status: schedule_view(self.status),
        }
    }
}

fn partition_eq(a: &PartitionSchedule, b: &PartitionSchedule) -> (eq: bool)
    ensures
        eq == (partition_view(*a) == partition_view(*b)),
{
    let replicas_eq = match (&a.replicas, &b.replicas) {
        (Some(x), Some(y)) => names_eq(x, y),
        (None, None) => true,
        _ => false,
    };
    a.scheduled == b.scheduled && opt_str_eq(&a.leader, &b.leader) && replicas_eq
}

fn schedule_eq(a: &Option<StreamScheduleStatus>, b: &Option<StreamScheduleStatus>) -> (eq: bool)
    ensures
        eq == (schedule_view(*a) == schedule_view(*b)),
{
    match (a, b) {
        (Some(x), Some(y)) => {
            let ghost vx = partitions_view(x.partitions@);
            let ghost vy = partitions_view(y.partitions@);
            if x.epoch != y.epoch {
                return false;
            }
            if x.partitions.len() != y.partitions.len() {
                assert(vx.len() != vy.len());
                return false;
            }
            let mut i: usize = 0;
            while i < x.partitions.len()
                invariant
                    i <= x.partitions.len(),
                    x.partitions.len() == y.partitions.len(),
                    vx == partitions_view(x.partitions@),
                    vy == partitions_view(y.partitions@),
                    schedule_view(*a) == Some((x.epoch, vx)),
                    schedule_view(*b) == Some((y.epoch, vy)),
                    forall|j: int| 0 <= j < i ==> vx[j] == vy[j],
                decreases x.partitions.len() - i,
            {
                if !partition_eq(&x.partitions[i], &y.partitions[i]) {
                    assert(vx[i as int] != vy[i as int]);
                    return false;
                }
                i = i + 1;
            }
            assert(vx =~= vy);
            true
        },
        (None, None) => true,
        _ => false,
    }
}

impl StreamResource {
    /// Whether two Stream resources are the same in every field.
    pub fn same_as(&self, other: &StreamResource) -> (eq: bool)
        ensures
            eq == (self.rview() == other.rview()),
    {
        opt_str_eq(&self.name, &other.name)
            && str_eq(self.cluster.as_str(), other.cluster.as_str())
            && bytes_eq(&self.rest, &other.rest)
            && schedule_eq(&self.status, &other.status)
    }
}

/// The number of replica assignments that a stream's status records.
pub open spec fn status_mentions(status: Option<StreamScheduleStatus>) -> int {
    match status {
        Some(s) => replica_mentions(s.partitions@) as int,
        None => 0,
    }
}

/// What the controller does with a Stream resource that was created or updated: the stream's
/// name, whether its scheduling epoch changed, and the pipelines mirroring it which are to be told
/// of the change.
#[derive(Debug)]
pub struct StreamApplied {
    pub name: String,
    pub new_epoch: bool,
    pub pipelines: Vec<String>,
}

/// The keys of the entries whose pipeline's source is the given stream, in order.
pub open spec fn sourced_keys(es: Seq<(String, PipelineResource)>, stream: Seq<char>) -> Seq<Seq<char>>
    decreases es.len(),
{
    if es.len() == 0 {
        Seq::empty()
    } else {
        let rest = sourced_keys(es.drop_last(), stream);
        if es.last().1.source_stream@ == stream {
            rest.push(es.last().0@)
        } else {
            rest
        }
    }
}

proof fn lemma_sourced_keys(es: Seq<(String, PipelineResource)>, stream: Seq<char>)
    requires
        crate::strmap::keys_distinct(es),
    ensures
        sourced_keys(es, stream).no_duplicates(),
        forall|k: Seq<char>| sourced_keys(es, stream).contains(k)
            <==> exists|x: int| 0 <= x < es.len() && #[trigger] es[x].0@ == k && es[x].1.source_stream@ == stream,
    decreases es.len(),
{
    if es.len() > 0 {
        let t = es.drop_last();
        let last = es.len() - 1;
        assert(crate::strmap::keys_distinct(t)) by {
            assert forall|a: int, b: int| 0 <= a < t.len() && 0 <= b < t.len() && a != b implies #[trigger] t[a].0@ != #[trigger] t[b].0@ by {
                assert(t[a] == es[a] && t[b] == es[b]);
            }
        }
        lemma_sourced_keys(t, stream);
        let rest = sourced_keys(t, stream);
        if es[last].1.source_stream@ == stream {
            assert(!rest.contains(es[last].0@)) by {
                if rest.contains(es[last].0@) {
                    let x = choose|x: int| 0 <= x < t.len() && #[trigger] t[x].0@ == es[last].0@ && t[x].1.source_stream@ == stream;
                    assert(es[x].0@ == es[last].0@);
                }
            }
        }
        assert forall|k: Seq<char>| sourced_keys(es, stream).contains(k)
            <==> exists|x: int| 0 <= x < es.len() && #[trigger] es[x].0@ == k && es[x].1.source_stream@ == stream by {
            if sourced_keys(es, stream).contains(k) {
                if rest.contains(k) {
                    let x = choose|x: int| 0 <= x < t.len() && #[trigger] t[x].0@ == k && t[x].1.source_stream@ == stream;
                    assert(es[x] == t[x]);
                } else {
                    assert(es[last].0@ == k);
                }
            }
            if exists|x: int| 0 <= x < es.len() && #[trigger] es[x].0@ == k && es[x].1.source_stream@ == stream {
                let x = choose|x: int| 0 <= x < es.len() && #[trigger] es[x].0@ == k && es[x].1.source_stream@ == stream;
                if x < last {
                    assert(t[x] == es[x]);
                    assert(rest.contains(k));
                    let j = choose|j: int| 0 <= j < rest.len() && rest[j] == k;
                    assert(sourced_keys(es, stream)[j] == k);
                } else {
                    assert(sourced_keys(es, stream)[rest.len() as int] == k);
                }
            }
        }
    }
}

impl Controller {
    /// The names of the pipelines whose source is the given stream, each once.
    pub fn pipelines_of(&self, stream: &str) -> (names: Vec<String>)
        requires
            self.wf(),
        ensures
            names_view(names@).no_duplicates(),
            forall|k: Seq<char>| names_view(names@).contains(k)
                <==> self.pipelines@.contains_key(k) && self.pipelines@[k].source_stream@ == stream@,
    {
        proof {
            self.pipelines.lemma_entry_seq();
        }
        let ghost es = self.pipelines.entry_seq();
        let mut names: Vec<String> = Vec::new();
        let mut i: usize = 0;
        while i < self.pipelines.entry_count()
            invariant
                es == self.pipelines.entry_seq(),
                i <= es.len(),
                names_view(names@) == sourced_keys(es.take(i as int), stream@),
            decreases es.len() - i,
        {
            let e = self.pipelines.entry_at(i);
            let ghost before = names@;
            proof {
                assert(es.take(i as int + 1).drop_last() =~= es.take(i as int));
                assert(es.take(i as int + 1).last() == es[i as int]);
            }
            if str_eq(e.1.source_stream.as_str(), stream) {
                names.push(e.0.clone());
                proof {
                    assert(names_view(names@) =~= names_view(before).push(e.0@));
                }
            }
            i = i + 1;
        }
        proof {
            assert(es.take(es.len() as int) =~= es);
            lemma_sourced_keys(es, stream@);
            assert forall|k: Seq<char>| names_view(names@).contains(k)
                <==> self.pipelines@.contains_key(k) && self.pipelines@[k].source_stream@ == stream@ by {
                if self.pipelines@.contains_key(k) {
                    let x = choose|x: int| 0 <= x < es.len() && #[trigger] es[x].0@ == k;
                    assert(self.pipelines@[es[x].0@] == es[x].1);
                }
                if exists|x: int| 0 <= x < es.len() && #[trigger] es[x].0@ == k && es[x].1.source_stream@ == stream@ {
                    let x = choose|x: int| 0 <= x < es.len() && #[trigger] es[x].0@ == k && es[x].1.source_stream@ == stream@;
                    assert(self.pipelines@[es[x].0@] == es[x].1);
                }
            }
        }
        names
    }

    /// Handle a Stream resource which was created or updated.
    ///
    /// A stream of another cluster, or without a name, is ignored, and so is one identical to the
    /// record already kept under its name. Otherwise the stream is recorded under its name; where
    /// a record was replaced, the pods' records are updated for the new status (see
    /// `bookkeeping_stream_updated`). The name is returned: the scheduler and the other
    /// controllers are to be told of the update, and where the stream's scheduling epoch changed,
    /// so is each pipeline mirroring the stream.
    pub fn stream_applied(&mut self, stream: StreamResource) -> (applied: Option<StreamApplied>)
        requires
            old(self).wf(),
            stream.name matches Some(n) ==> counts_fit(old(self).view_pods(), n@, status_mentions(stream.status)),
        ensures
            final(self).wf(),
            final(self).cluster == old(self).cluster,
            final(self).namespace == old(self).namespace,
            final(self).tokens@ == old(self).tokens@,
            final(self).pipelines@ == old(self).pipelines@,
            ({
                let ignored = stream.cluster@ != old(self).cluster@ || stream.name is None
                    || (old(self).streams@.contains_key(stream.name.unwrap()@)
                        && old(self).streams@[stream.name.unwrap()@].rview() == stream.rview());
                let n = stream.name.unwrap()@;
                let was = old(self).streams@.contains_key(n);
                &&& ignored ==> applied is None && final(self).streams@ == old(self).streams@
                    && final(self).pods@ == old(self).pods@
                &&& !ignored ==> (applied matches Some(a) && {
                    &&& a.name@ == n
                    &&& final(self).streams@ == old(self).streams@.insert(n, stream)
                    &&& a.new_epoch == (was && status_epoch(old(self).streams@[n].status) != status_epoch(stream.status))
                    &&& !a.new_epoch ==> final(self).pods@ == old(self).pods@
                    &&& final(self).view_pods() == (if was {
                        stream_updated(old(self).view_pods(), old(self).streams@[n].status, stream.status, n)
                    } else {
                        old(self).view_pods()
                    })
                    &&& a.new_epoch ==> names_view(a.pipelines@).no_duplicates()
                        && forall|k: Seq<char>| names_view(a.pipelines@).contains(k)
                            <==> old(self).pipelines@.contains_key(k) && old(self).pipelines@[k].source_stream@ == n
                    &&& !a.new_epoch ==> a.pipelines.len() == 0
                })
            }),
    {
        if !str_eq(stream.cluster.as_str(), self.cluster.as_str()) {
            return None;
        }
        let name = match &stream.name {
            Some(n) => n.clone(),
            None => return None,
        };
        match self.streams.get(name.as_str()) {
            Some(old) => {
                if old.same_as(&stream) {
                    return None;
                }
            },
            None => {},
        }
        let ghost before = self.streams@;
        let previous = self.streams.remove(name.as_str());
        let new_epoch = match &previous {
            Some(old) => self.bookkeeping_stream_updated(&old.status, &stream.status, name.as_str()),
            None => false,
        };
        self.streams.insert(name.clone(), stream);
        proof {
            assert(self.streams@ =~= before.insert(name@, stream));
        }
        let pipelines = if new_epoch {
            self.pipelines_of(name.as_str())
        } else {
            Vec::new()
        };
        Some(StreamApplied { name, new_epoch, pipelines })
    }
}

} // verus!
