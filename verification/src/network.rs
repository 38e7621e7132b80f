//! The network's table of peer sockets: what discovery has observed at each address, and
//! whether a connection to it is established.
//!
//! Discovery changesets and the outcomes of connection attempts drive the table; each handler
//! says which connections to attempt, and the caller attempts them.

use vstd::prelude::*;

use vstd::string::StringExecFns;

use crate::codec::{decimal, u64_to_decimal};
use crate::discovery::{ObservedPeersChangeset, PeerSrv, peer_views};
use crate::placement::NodeId;

verus! {

/// Whether discovery currently observes a peer address.
#[derive(Clone, Copy, Debug, PartialEq, Eq, Structural)]
pub enum DiscoveryState {
    /// The peer address is currently being observed by the discovery system.
    Observed,
    /// The peer address has disappeared from the discovery system: a failed connection to it
    /// is not retried.
    Disappeared,
}

/// The state of the connection to a peer node.
#[derive(Clone, Copy, Debug, PartialEq, Eq, Structural)]
pub enum PeerConnectionState {
    Initializing,
    Connected,
}

/// What the network knows of a peer address.
#[derive(Clone, Copy, Debug, PartialEq, Eq, Structural)]
pub struct PeerSocketState {
    /// The ID of the node at the address, once a connection has told it.
    pub node_id: Option<NodeId>,
    pub discovery_state: DiscoveryState,
    pub connection_state: PeerConnectionState,
}

/// The entries of a peer table, keyed by address.
pub open spec fn peer_entries_map(s: Seq<(PeerSrv, PeerSocketState)>) -> Map<(u16, Seq<char>), PeerSocketState>
    decreases s.len(),
{
    if s.len() == 0 {
        Map::empty()
    } else {
        peer_entries_map(s.drop_last()).insert(s.last().0@, s.last().1)
    }
}

/// Whether no two entries share a key.
pub open spec fn peer_keys_distinct(s: Seq<(PeerSrv, PeerSocketState)>) -> bool {
    forall|i: int, j: int| 0 <= i < s.len() && 0 <= j < s.len() && i != j ==> #[trigger] s[i].0@ != #[trigger] s[j].0@
}

proof fn lemma_peer_lookup(s: Seq<(PeerSrv, PeerSocketState)>, k: (u16, Seq<char>))
    requires
        peer_keys_distinct(s),
    ensures
        peer_entries_map(s).contains_key(k) <==> exists|i: int| 0 <= i < s.len() && #[trigger] s[i].0@ == k,
        forall|i: int| 0 <= i < s.len() && #[trigger] s[i].0@ == k ==> peer_entries_map(s)[k] == s[i].1,
    decreases s.len(),
{
    if s.len() > 0 {
        let t = s.drop_last();
        let last = s.len() - 1;
        assert(peer_keys_distinct(t));
        lemma_peer_lookup(t, k);
        if peer_entries_map(s).contains_key(k) {
            if s[last].0@ != k {
                let i = choose|i: int| 0 <= i < t.len() && #[trigger] t[i].0@ == k;
                assert(s[i].0@ == k);
            } else {
                assert(s[last].0@ == k);
            }
        }
        if exists|i: int| 0 <= i < s.len() && #[trigger] s[i].0@ == k {
            let i = choose|i: int| 0 <= i < s.len() && #[trigger] s[i].0@ == k;
            if i < last {
                assert(t[i].0@ == k);
            }
        }
        assert forall|i: int| 0 <= i < s.len() && #[trigger] s[i].0@ == k implies peer_entries_map(s)[k] == s[i].1 by {
            if i < last {
                assert(t[i].0@ == k);
                assert(s[i].0@ != s[last].0@);
            }
        }
    }
}

proof fn lemma_peer_update(s: Seq<(PeerSrv, PeerSocketState)>, i: int, e: (PeerSrv, PeerSocketState))
    requires
        peer_keys_distinct(s),
        0 <= i < s.len(),
        e.0@ == s[i].0@,
    ensures
        peer_entries_map(s.update(i, e)) == peer_entries_map(s).insert(e.0@, e.1),
        peer_keys_distinct(s.update(i, e)),
    decreases s.len(),
{
    let u = s.update(i, e);
    assert(peer_keys_distinct(u)) by {
        assert forall|a: int, b: int| 0 <= a < u.len() && 0 <= b < u.len() && a != b implies #[trigger] u[a].0@ != #[trigger] u[b].0@ by {
            assert(s[a].0@ != s[b].0@);
        }
    }
    if i == s.len() - 1 {
        assert(u.drop_last() =~= s.drop_last());
        assert(peer_entries_map(u) =~= peer_entries_map(s).insert(e.0@, e.1));
    } else {
        let t = s.drop_last();
        assert(peer_keys_distinct(t));
        lemma_peer_update(t, i, e);
        assert(u.drop_last() =~= t.update(i, e));
        assert(s.last().0@ != e.0@);
        assert(peer_entries_map(u) =~= peer_entries_map(s).insert(e.0@, e.1));
    }
}

proof fn lemma_peer_remove(s: Seq<(PeerSrv, PeerSocketState)>, i: int)
    requires
        peer_keys_distinct(s),
        0 <= i < s.len(),
    ensures
        peer_entries_map(s.remove(i)) == peer_entries_map(s).remove(s[i].0@),
        peer_keys_distinct(s.remove(i)),
    decreases s.len(),
{
    let u = s.remove(i);
    assert(peer_keys_distinct(u)) by {
        assert forall|a: int, b: int| 0 <= a < u.len() && 0 <= b < u.len() && a != b implies #[trigger] u[a].0@ != #[trigger] u[b].0@ by {
            let sa = if a < i { a } else { a + 1 };
            let sb = if b < i { b } else { b + 1 };
            assert(u[a] == s[sa] && u[b] == s[sb]);
        }
    }
    let k = s[i].0@;
    if i == s.len() - 1 {
        assert(u =~= s.drop_last());
        lemma_peer_lookup(s.drop_last(), k);
        assert(!peer_entries_map(s.drop_last()).contains_key(k)) by {
            if peer_entries_map(s.drop_last()).contains_key(k) {
                let j = choose|j: int| 0 <= j < s.drop_last().len() && #[trigger] s.drop_last()[j].0@ == k;
                assert(s[j].0@ == s[i].0@);
            }
        }
        assert(peer_entries_map(u) =~= peer_entries_map(s).remove(k));
    } else {
        let t = s.drop_last();
        assert(peer_keys_distinct(t));
        lemma_peer_remove(t, i);
        assert(u.drop_last() =~= t.remove(i));
        assert(u.last() == s.last());
        assert(s.last().0@ != k);
        assert(peer_entries_map(u) =~= peer_entries_map(s).remove(k));
    }
}

/// The table of peer sockets, by address.
#[derive(Debug)]
pub struct PeerTable {
    entries: Vec<(PeerSrv, PeerSocketState)>,
}

impl View for PeerTable {
    type V = Map<(u16, Seq<char>), PeerSocketState>;

    closed spec fn view(&self) -> Map<(u16, Seq<char>), PeerSocketState> {
        peer_entries_map(self.entries@)
    }
}

impl PeerTable {
    pub closed spec fn wf(&self) -> bool {
        peer_keys_distinct(self.entries@)
    }

    /// An empty table.
    pub fn new() -> (t: Self)
        ensures
            t.wf(),
            t@ == Map::<(u16, Seq<char>), PeerSocketState>::empty(),
    {
        PeerTable { entries: Vec::new() }
    }

    fn find(&self, addr: &PeerSrv) -> (i: usize)
        requires
            self.wf(),
        ensures
            i <= self.entries.len(),
            i < self.entries.len() ==> self.entries@[i as int].0@ == addr@ && self@.contains_key(addr@)
                && self@[addr@] == self.entries@[i as int].1,
            i == self.entries.len() ==> !self@.contains_key(addr@),
    {
        let mut i: usize = 0;
        while i < self.entries.len()
            invariant
                i <= self.entries.len(),
                peer_keys_distinct(self.entries@),
                forall|j: int| 0 <= j < i ==> self.entries@[j].0@ != addr@,
            decreases self.entries.len() - i,
        {
            if self.entries[i].0.same(addr) {
                proof {
                    lemma_peer_lookup(self.entries@, addr@);
                }
                return i;
            }
            i = i + 1;
        }
        proof {
            lemma_peer_lookup(self.entries@, addr@);
        }
        i
    }

    /// What the table knows of an address.
    pub fn get(&self, addr: &PeerSrv) -> (s: Option<PeerSocketState>)
        requires
            self.wf(),
        ensures
            s == (if self@.contains_key(addr@) { Some(self@[addr@]) } else { None }),
    {
        let i = self.find(addr);
        if i < self.entries.len() {
            Some(self.entries[i].1)
        } else {
            None
        }
    }

    /// Record what is known of an address.
    pub fn insert(&mut self, addr: PeerSrv, state: PeerSocketState)
        requires
            old(self).wf(),
        ensures
            final(self).wf(),
            final(self)@ == old(self)@.insert(addr@, state),
    {
        let i = self.find(&addr);
        if i < self.entries.len() {
            proof {
                lemma_peer_update(self.entries@, i as int, (addr, state));
            }
            self.entries.set(i, (addr, state));
        } else {
            proof {
                lemma_peer_lookup(self.entries@, addr@);
                let s = self.entries@.push((addr, state));
                assert(s.drop_last() =~= self.entries@);
                assert forall|a: int, b: int| 0 <= a < s.len() && 0 <= b < s.len() && a != b implies #[trigger] s[a].0@ != #[trigger] s[b].0@ by {
                    if a == self.entries.len() {
                        assert(self.entries@[b].0@ != addr@);
                    } else if b == self.entries.len() {
                        assert(self.entries@[a].0@ != addr@);
                    }
                }
            }
            self.entries.push((addr, state));
        }
    }

    /// Forget an address.
    pub fn remove(&mut self, addr: &PeerSrv)
        requires
            old(self).wf(),
        ensures
            final(self).wf(),
            final(self)@ == old(self)@.remove(addr@),
    {
        let i = self.find(addr);
        if i < self.entries.len() {
            proof {
                lemma_peer_remove(self.entries@, i as int);
            }
            let _ = self.entries.remove(i);
        } else {
            proof {
                assert(self@.remove(addr@) =~= self@);
            }
        }
    }
}

//////////////////////////////////////////////////////////////////////////////////////////////////
// Handlers //////////////////////////////////////////////////////////////////////////////////////

/// The state of an address newly observed by discovery: observed, no node known yet, and a
/// connection being initialized.
pub open spec fn fresh_socket() -> PeerSocketState {
    PeerSocketState {
        node_id: None,
        discovery_state: DiscoveryState::Observed,
        connection_state: PeerConnectionState::Initializing,
    }
}

/// The table after discovery observes an address: a known address is marked observed, an
/// unknown one is added fresh.
pub open spec fn observe(t: Map<(u16, Seq<char>), PeerSocketState>, addr: (u16, Seq<char>)) -> Map<(u16, Seq<char>), PeerSocketState> {
    if t.contains_key(addr) {
        t.insert(addr, PeerSocketState { discovery_state: DiscoveryState::Observed, ..t[addr] })
    } else {
        t.insert(addr, fresh_socket())
    }
}

/// The table after discovery observes each address of a list, in order, along with the addresses
/// to which connections must be built: those unknown when their turn came.
pub open spec fn observe_all(t: Map<(u16, Seq<char>), PeerSocketState>, addrs: Seq<(u16, Seq<char>)>)
    -> (Map<(u16, Seq<char>), PeerSocketState>, Seq<(u16, Seq<char>)>)
    decreases addrs.len(),
{
    if addrs.len() == 0 {
        (t, Seq::empty())
    } else {
        let (before, connects) = observe_all(t, addrs.drop_last());
        let a = addrs.last();
        (observe(before, a), if before.contains_key(a) { connects } else { connects.push(a) })
    }
}

/// The table after discovery loses sight of each address of a list: known ones are marked as
/// disappeared.
pub open spec fn disappear_all(t: Map<(u16, Seq<char>), PeerSocketState>, addrs: Seq<(u16, Seq<char>)>) -> Map<(u16, Seq<char>), PeerSocketState>
    decreases addrs.len(),
{
    if addrs.len() == 0 {
        t
    } else {
        let before = disappear_all(t, addrs.drop_last());
        let a = addrs.last();
        if before.contains_key(a) {
            before.insert(a, PeerSocketState { discovery_state: DiscoveryState::Disappeared, ..before[a] })
        } else {
            before
        }
    }
}

impl PeerTable {
    /// Handle a changeset from the discovery system.
    ///
    /// Each newly observed address already known is marked as observed; each unknown one is
    /// recorded as observed, with no node known yet and its connection initializing, and is
    /// returned among the addresses to which connections are to be built. Each address which
    /// disappeared is then marked as such, if known.
    pub fn handle_discovery_changeset(&mut self, changeset: ObservedPeersChangeset) -> (connect: Vec<PeerSrv>)
        requires
            old(self).wf(),
        ensures
            final(self).wf(),
            final(self)@ == disappear_all(
                observe_all(old(self)@, peer_views(changeset.new_peers@)).0,
                peer_views(changeset.purged_peers@),
            ),
            peer_views(connect@) == observe_all(old(self)@, peer_views(changeset.new_peers@)).1,
    {
        let ghost start = self@;
        let new_peers = changeset.new_peers;
        let purged_peers = changeset.purged_peers;
        let mut connect: Vec<PeerSrv> = Vec::new();
        let mut i: usize = 0;
        while i < new_peers.len()
            invariant
                i <= new_peers.len(),
                self.wf(),
                (self@, peer_views(connect@)) == observe_all(start, peer_views(new_peers@).take(i as int)),
            decreases new_peers.len() - i,
        {
            proof {
                assert(peer_views(new_peers@).take(i as int + 1).drop_last() =~= peer_views(new_peers@).take(i as int));
            }
            let addr = &new_peers[i];
            match self.get(addr) {
                Some(state) => {
                    self.insert(addr.copy(), PeerSocketState { discovery_state: DiscoveryState::Observed, ..state });
                },
                None => {
                    self.insert(addr.copy(), PeerSocketState {
                        node_id: None,
                        discovery_state: DiscoveryState::Observed,
                        connection_state: PeerConnectionState::Initializing,
                    });
                    let ghost before = connect@;
                    connect.push(addr.copy());
                    proof {
                        assert(peer_views(connect@) =~= peer_views(before).push(addr@));
                    }
                },
            }
            i = i + 1;
        }
        proof {
            assert(peer_views(new_peers@).take(new_peers@.len() as int) =~= peer_views(new_peers@));
        }
        let ghost observed = self@;
        let mut j: usize = 0;
        while j < purged_peers.len()
            invariant
                j <= purged_peers.len(),
                self.wf(),
                self@ == disappear_all(observed, peer_views(purged_peers@).take(j as int)),
            decreases purged_peers.len() - j,
        {
            proof {
                assert(peer_views(purged_peers@).take(j as int + 1).drop_last() =~= peer_views(purged_peers@).take(j as int));
            }
            let addr = &purged_peers[j];
            match self.get(addr) {
                Some(state) => {
                    self.insert(addr.copy(), PeerSocketState { discovery_state: DiscoveryState::Disappeared, ..state });
                },
                None => {},
            }
            j = j + 1;
        }
        proof {
            assert(peer_views(purged_peers@).take(purged_peers@.len() as int) =~= peer_views(purged_peers@));
        }
        connect
    }

    /// Handle the establishment of a connection to the peer at an address, which answered with
    /// its node ID.
    ///
    /// A connection to this very node is dropped along with the address's record, and `false`
    /// is returned. Otherwise the address's record, if any, takes the node ID and is marked
    /// connected, and `true` is returned: the connection is to be registered under the node ID
    /// and the peers published.
    pub fn handle_peer_init_conn_success(&mut self, addr: &PeerSrv, peer_id: NodeId, self_id: NodeId) -> (register: bool)
        requires
            old(self).wf(),
        ensures
            final(self).wf(),
            register == (peer_id != self_id),
            peer_id == self_id ==> final(self)@ == old(self)@.remove(addr@),
            peer_id != self_id ==> final(self)@ == (if old(self)@.contains_key(addr@) {
                old(self)@.insert(addr@, PeerSocketState {
                    node_id: Some(peer_id),
                    connection_state: PeerConnectionState::Connected,
                    ..old(self)@[addr@]
                })
            } else {
                old(self)@
            }),
    {
        if peer_id == self_id {
            self.remove(addr);
            return false;
        }
        match self.get(addr) {
            Some(state) => {
                self.insert(addr.copy(), PeerSocketState {
                    node_id: Some(peer_id),
                    connection_state: PeerConnectionState::Connected,
                    ..state
                });
            },
            None => {},
        }
        true
    }

    /// Handle the failure of an attempt to connect to the peer at an address.
    ///
    /// An unknown address is left alone. An address which discovery no longer observes is
    /// forgotten, and no retry is made. Otherwise `true` is returned: the connection is to be
    /// attempted again.
    pub fn handle_init_peer_conn_failed(&mut self, addr: &PeerSrv) -> (retry: bool)
        requires
            old(self).wf(),
        ensures
            final(self).wf(),
            !old(self)@.contains_key(addr@) ==> !retry && final(self)@ == old(self)@,
            old(self)@.contains_key(addr@) && old(self)@[addr@].discovery_state == DiscoveryState::Disappeared
                ==> !retry && final(self)@ == old(self)@.remove(addr@),
            old(self)@.contains_key(addr@) && old(self)@[addr@].discovery_state == DiscoveryState::Observed
                ==> retry && final(self)@ == old(self)@,
    {
        match self.get(addr) {
            None => false,
            Some(state) => {
                if state.discovery_state == DiscoveryState::Disappeared {
                    self.remove(addr);
                    false
                } else {
                    true
                }
            },
        }
    }
}

/// A connection attempt fails again and again for as long as discovery observes the address,
/// and is retried each time; once discovery loses sight of the address, the next failure
/// forgets it.
pub proof fn lemma_retry_until_disappeared(t: Map<(u16, Seq<char>), PeerSocketState>, addr: (u16, Seq<char>))
    requires
        t.contains_key(addr),
    ensures
        disappear_all(t, seq![addr]).contains_key(addr),
        disappear_all(t, seq![addr])[addr].discovery_state == DiscoveryState::Disappeared,
        observe(t, addr)[addr].discovery_state == DiscoveryState::Observed,
{
    assert(seq![addr].drop_last() =~= Seq::<(u16, Seq<char>)>::empty());
    assert(disappear_all(t, Seq::<(u16, Seq<char>)>::empty()) == t);
}

//////////////////////////////////////////////////////////////////////////////////////////////////
// Connection targets ////////////////////////////////////////////////////////////////////////////

/// The URI by which a peer is reached: `https://{fqdn}:{port}` where the cluster runs TLS,
/// `http://{fqdn}:{port}` otherwise.
pub open spec fn peer_uri_spec(addr: (u16, Seq<char>), tls: bool) -> Seq<char> {
    (if tls { "https://"@ } else { "http://"@ }) + addr.1 + ":"@ + decimal(addr.0 as nat)
}

/// The URI by which a peer is reached.
pub fn peer_uri(addr: &PeerSrv, tls: bool) -> (s: String)
    ensures
        s@ == peer_uri_spec(addr@, tls),
{
    let mut s = if tls {
        String::from_str("https://")
    } else {
        String::from_str("http://")
    };
    s.append(addr.fqdn.as_str());
    s.append(":");
    let port = u64_to_decimal(addr.port as u64);
    s.append(port.as_str());
    s
}

/// What discovery observing a list of addresses does to one address: a known address keeps its
/// node ID and connection state, and is marked observed where the list holds it; an unknown
/// address in the list is added as observed, with no node ID and its connection initializing,
/// and is among those to connect to; an address neither known nor listed stays unknown.
pub proof fn lemma_observe_all_at(t: Map<(u16, Seq<char>), PeerSocketState>, addrs: Seq<(u16, Seq<char>)>, a: (u16, Seq<char>))
    ensures
        ({
            let (r, connects) = observe_all(t, addrs);
            &&& r.contains_key(a) <==> (t.contains_key(a) || addrs.contains(a))
            &&& t.contains_key(a) ==> {
                &&& r[a].node_id == t[a].node_id
                &&& r[a].connection_state == t[a].connection_state
                &&& r[a].discovery_state == (if addrs.contains(a) { DiscoveryState::Observed } else { t[a].discovery_state })
            }
            &&& !t.contains_key(a) && addrs.contains(a) ==> r[a] == (PeerSocketState {
                node_id: None,
                discovery_state: DiscoveryState::Observed,
                connection_state: PeerConnectionState::Initializing,
            })
            &&& connects.contains(a) <==> (addrs.contains(a) && !t.contains_key(a))
        }),
    decreases addrs.len(),
{
    if addrs.len() > 0 {
        let rest = addrs.drop_last();
        let last = addrs.last();
        lemma_observe_all_at(t, rest, a);
        lemma_observe_all_at(t, rest, last);
        let (b, c) = observe_all(t, rest);
        assert(addrs.contains(a) <==> (rest.contains(a) || last == a)) by {
            if addrs.contains(a) {
                let j = choose|j: int| 0 <= j < addrs.len() && addrs[j] == a;
                if j < rest.len() {
                    assert(rest[j] == a);
                }
            }
            if rest.contains(a) {
                let j = choose|j: int| 0 <= j < rest.len() && rest[j] == a;
                assert(addrs[j] == a);
            }
            if last == a {
                assert(addrs[addrs.len() - 1] == a);
            }
        }
        let c2 = if b.contains_key(last) { c } else { c.push(last) };
        assert(c2.contains(a) <==> (c.contains(a) || (!b.contains_key(last) && last == a))) by {
            if !b.contains_key(last) {
                if c2.contains(a) {
                    let j = choose|j: int| 0 <= j < c2.len() && c2[j] == a;
                    if j < c.len() {
                        assert(c[j] == a);
                    }
                }
                if c.contains(a) {
                    let j = choose|j: int| 0 <= j < c.len() && c[j] == a;
                    assert(c2[j] == a);
                }
                if last == a {
                    assert(c2[c.len() as int] == a);
                }
            }
        }
    }
}

/// What discovery losing sight of a list of addresses does to one address: a known address keeps
/// its node ID and connection state, and is marked disappeared where the list holds it; no
/// address is added or removed.
pub proof fn lemma_disappear_all_at(t: Map<(u16, Seq<char>), PeerSocketState>, addrs: Seq<(u16, Seq<char>)>, a: (u16, Seq<char>))
    ensures
        ({
            let r = disappear_all(t, addrs);
            &&& r.contains_key(a) <==> t.contains_key(a)
            &&& t.contains_key(a) ==> {
                &&& r[a].node_id == t[a].node_id
                &&& r[a].connection_state == t[a].connection_state
                &&& r[a].discovery_state == (if addrs.contains(a) { DiscoveryState::Disappeared } else { t[a].discovery_state })
            }
        }),
    decreases addrs.len(),
{
    if addrs.len() > 0 {
        let rest = addrs.drop_last();
        let last = addrs.last();
        lemma_disappear_all_at(t, rest, a);
        assert(addrs.contains(a) <==> (rest.contains(a) || last == a)) by {
            if addrs.contains(a) {
                let j = choose|j: int| 0 <= j < addrs.len() && addrs[j] == a;
                if j < rest.len() {
                    assert(rest[j] == a);
                }
            }
            if rest.contains(a) {
                let j = choose|j: int| 0 <= j < rest.len() && rest[j] == a;
                assert(addrs[j] == a);
            }
            if last == a {
                assert(addrs[addrs.len() - 1] == a);
            }
        }
    }
}

/// A discovery changeset never touches what a connection established: every address already
/// known keeps its node ID and connection state, whether discovery observes it anew or loses
/// sight of it, and only its discovery state changes.
pub proof fn lemma_discovery_keeps_connections(
    t: Map<(u16, Seq<char>), PeerSocketState>,
    added: Seq<(u16, Seq<char>)>,
    purged: Seq<(u16, Seq<char>)>,
    a: (u16, Seq<char>),
)
    requires
        t.contains_key(a),
    ensures
        ({
            let (observed, connects) = observe_all(t, added);
            let r = disappear_all(observed, purged);
            &&& r.contains_key(a)
            &&& r[a].node_id == t[a].node_id
            &&& r[a].connection_state == t[a].connection_state
            &&& r[a].discovery_state == (if purged.contains(a) {
                DiscoveryState::Disappeared
            } else if added.contains(a) {
                DiscoveryState::Observed
            } else {
                t[a].discovery_state
            })
            &&& !connects.contains(a)
        }),
{
    lemma_observe_all_at(t, added, a);
    lemma_disappear_all_at(observe_all(t, added).0, purged, a);
}

} // verus!
