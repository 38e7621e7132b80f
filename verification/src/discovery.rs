//! Peer discovery: tracking the set of peers observed by the discovery backend.

use vstd::prelude::*;

use crate::auth::str_eq;

verus! {

/// The SRV details of a peer node on the network.
#[derive(Clone, Debug)]
pub struct PeerSrv {
    /// The port on which the peer node receives connections.
    pub port: u16,
    /// The FQDN of the peer.
    pub fqdn: String,
}

impl View for PeerSrv {
    type V = (u16, Seq<char>);

    open spec fn view(&self) -> (u16, Seq<char>) {
        (self.port, self.fqdn@)
    }
}

impl PeerSrv {
    /// A copy of this peer.
    pub fn copy(&self) -> (p: Self)
        ensures
            p@ == self@,
    {
        PeerSrv { port: self.port, fqdn: self.fqdn.clone() }
    }

    /// Whether two peers have the same SRV details.
    pub fn same(&self, other: &PeerSrv) -> (b: bool)
        ensures
            b == (self@ == other@),
    {
        self.port == other.port && str_eq(self.fqdn.as_str(), other.fqdn.as_str())
    }
}

/// The SRV details held by a vector of peers.
pub open spec fn peer_views(v: Seq<PeerSrv>) -> Seq<(u16, Seq<char>)> {
    v.map_values(|p: PeerSrv| p@)
}

/// The set of SRV details held by a vector of peers.
pub open spec fn peer_set(v: Seq<PeerSrv>) -> Set<(u16, Seq<char>)> {
    peer_views(v).to_set()
}

/// Whether a vector of peers holds the given SRV details.
pub fn contains_peer(v: &Vec<PeerSrv>, p: &PeerSrv) -> (b: bool)
    ensures
        b == peer_set(v@).contains(p@),
{
    let mut i: usize = 0;
    while i < v.len()
        invariant
            i <= v.len(),
            forall|j: int| 0 <= j < i ==> v@[j]@ != p@,
        decreases v.len() - i,
    {
        if v[i].same(p) {
            proof {
                assert(peer_views(v@)[i as int] == p@);
            }
            return true;
        }
        i = i + 1;
    }
    proof {
        if peer_set(v@).contains(p@) {
            let j = choose|j: int| 0 <= j < peer_views(v@).len() && peer_views(v@)[j] == p@;
            assert(v@[j]@ == p@);
        }
    }
    false
}

/// A type representing some set of changes to the observed set of discovered peers.
#[derive(Clone, Debug)]
pub struct ObservedPeersChangeset {
    pub new_peers: Vec<PeerSrv>,
    pub purged_peers: Vec<PeerSrv>,
}

/// The set of peers observed by the discovery system.
#[derive(Debug)]
pub struct ObservedSet(pub Vec<PeerSrv>);

impl ObservedSet {
    /// The SRV details of the observed peers.
    pub open spec fn spec_set(&self) -> Set<(u16, Seq<char>)> {
        peer_set(self.0@)
    }

    /// Whether no peer is recorded twice.
    pub open spec fn wf(&self) -> bool {
        peer_views(self.0@).no_duplicates()
    }

    /// An empty observation set.
    pub fn new() -> (s: Self)
        ensures
            s.wf(),
            s.spec_set() == Set::<(u16, Seq<char>)>::empty(),
    {
        let s = ObservedSet(Vec::new());
        proof {
            assert(peer_set(s.0@) =~= Set::<(u16, Seq<char>)>::empty());
        }
        s
    }

    /// Perform an update based on a set of peer addrs observed from a backend discovery cycle.
    ///
    /// Newly observed peers are added to the set of observed peers. Peers currently in the
    /// observed set, but which are not in the given payload, are categorized as purged and
    /// removed. A changeset is returned exactly when something changed.
    pub fn update_from_discovery_cycle(&mut self, addrs: Vec<PeerSrv>) -> (changeset: Option<ObservedPeersChangeset>)
        requires
            old(self).wf(),
        ensures
            final(self).wf(),
            final(self).spec_set() == peer_set(addrs@),
            match changeset {
                Some(c) => {
                    &&& peer_set(c.new_peers@) == peer_set(addrs@).difference(old(self).spec_set())
                    &&& peer_set(c.purged_peers@) == old(self).spec_set().difference(peer_set(addrs@))
                    &&& peer_views(c.new_peers@).no_duplicates()
                    &&& peer_views(c.purged_peers@).no_duplicates()
                    &&& (c.new_peers.len() > 0 || c.purged_peers.len() > 0)
                },
                None => {
                    &&& peer_set(addrs@).difference(old(self).spec_set()).is_empty()
                    &&& old(self).spec_set().difference(peer_set(addrs@)).is_empty()
                },
            },
    {
        let ghost old_set = self.spec_set();
        // Newly observed peers, and the observation set after adding them.
        let mut new_peers: Vec<PeerSrv> = Vec::new();
        let mut observed: Vec<PeerSrv> = Vec::new();
        let mut i: usize = 0;
        while i < addrs.len()
            invariant
                i <= addrs.len(),
                old_set == self.spec_set(),
                peer_views(new_peers@).no_duplicates(),
                peer_views(observed@).no_duplicates(),
                peer_set(new_peers@) == peer_set(addrs@.take(i as int)).difference(old_set),
                peer_set(observed@) == peer_set(addrs@.take(i as int)),
            decreases addrs.len() - i,
        {
            proof {
                lemma_peer_set_push(addrs@.take(i as int), addrs@[i as int]);
                assert(addrs@.take(i as int + 1) =~= addrs@.take(i as int).push(addrs@[i as int]));
            }
            let a = &addrs[i];
            if !contains_peer(&observed, a) {
                let c = a.copy();
                proof {
                    lemma_peer_set_push(observed@, c);
                    lemma_push_no_dup(observed@, c);
                }
                observed.push(c);
                if !contains_peer(&self.0, a) {
                    let d = a.copy();
                    proof {
                        lemma_peer_set_push(new_peers@, d);
                        lemma_push_no_dup(new_peers@, d);
                    }
                    new_peers.push(d);
                }
            }
            proof {
                assert(peer_set(new_peers@) =~= peer_set(addrs@.take(i as int + 1)).difference(old_set));
                assert(peer_set(observed@) =~= peer_set(addrs@.take(i as int + 1)));
            }
            i = i + 1;
        }
        proof {
            assert(addrs@.take(addrs.len() as int) =~= addrs@);
        }
        // Previously observed peers which did not appear in this cycle.
        let mut purged_peers: Vec<PeerSrv> = Vec::new();
        let mut j: usize = 0;
        while j < self.0.len()
            invariant
                j <= self.0.len(),
                old_set == self.spec_set(),
                peer_views(self.0@).no_duplicates(),
                peer_views(purged_peers@).no_duplicates(),
                peer_set(purged_peers@) == peer_set(self.0@.take(j as int)).difference(peer_set(addrs@)),
            decreases self.0.len() - j,
        {
            proof {
                lemma_peer_set_push(self.0@.take(j as int), self.0@[j as int]);
                assert(self.0@.take(j as int + 1) =~= self.0@.take(j as int).push(self.0@[j as int]));
            }
            let p = &self.0[j];
            if !contains_peer(&addrs, p) {
                let c = p.copy();
                proof {
                    if peer_set(purged_peers@).contains(c@) {
                        assert(peer_set(self.0@.take(j as int)).contains(p@));
                        let k = choose|k: int| 0 <= k < peer_views(self.0@.take(j as int)).len()
                            && peer_views(self.0@.take(j as int))[k] == p@;
                        assert(peer_views(self.0@)[k] == peer_views(self.0@)[j as int]);
                    }
                    lemma_peer_set_push(purged_peers@, c);
                    lemma_push_no_dup(purged_peers@, c);
                }
                purged_peers.push(c);
            }
            proof {
                assert(peer_set(purged_peers@) =~= peer_set(self.0@.take(j as int + 1)).difference(peer_set(addrs@)));
            }
            j = j + 1;
        }
        proof {
            assert(self.0@.take(self.0.len() as int) =~= self.0@);
        }
        self.0 = observed;
        if new_peers.len() > 0 || purged_peers.len() > 0 {
            Some(ObservedPeersChangeset { new_peers, purged_peers })
        } else {
            proof {
                assert(peer_set(new_peers@) =~= Set::empty());
                assert(peer_set(purged_peers@) =~= Set::empty());
            }
            None
        }
    }
}

proof fn lemma_peer_set_push(v: Seq<PeerSrv>, p: PeerSrv)
    ensures
        peer_set(v.push(p)) == peer_set(v).insert(p@),
        peer_views(v.push(p)) == peer_views(v).push(p@),
{
    assert(peer_views(v.push(p)) =~= peer_views(v).push(p@));
    peer_views(v).lemma_push_to_set_commute(p@);
}

proof fn lemma_push_no_dup(v: Seq<PeerSrv>, p: PeerSrv)
    requires
        peer_views(v).no_duplicates(),
        !peer_set(v).contains(p@),
    ensures
        peer_views(v.push(p)).no_duplicates(),
{
    lemma_peer_set_push(v, p);
    let w = peer_views(v.push(p));
    assert forall|i: int, j: int| 0 <= i < w.len() && 0 <= j < w.len() && i != j implies w[i] != w[j] by {
        if i == v.len() {
            assert(peer_views(v).contains(w[j]));
        } else if j == v.len() {
            assert(peer_views(v).contains(w[i]));
        }
    }
}

/// Applying a changeset to the set it was computed from yields the set of peers last observed.
pub proof fn lemma_changeset_applies(old_set: Set<(u16, Seq<char>)>, observed: Set<(u16, Seq<char>)>)
    ensures
        old_set.union(observed.difference(old_set)).difference(old_set.difference(observed)) == observed,
{
    assert(old_set.union(observed.difference(old_set)).difference(old_set.difference(observed)) =~= observed);
}

} // verus!
