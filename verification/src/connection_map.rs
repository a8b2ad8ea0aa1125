//! A registry of live peer connections, keyed by peer identity.
//!
//! The registry holds one entry per connected peer — its address, kind,
//! the outbound half of its connection and the drop-notifier bound to its
//! relay task — together with a table of single-use connection-info
//! channels and the log of events handed to the event sink.  It
//! guarantees at most one entry per identity, and the relay-task step
//! function [`ConnectionMap::relay_step`] guarantees exactly one
//! `LostPeer` event per connection lifetime.
//!
//! Concurrency model: every operation is a short critical section over
//! the registry state; a caller shares one registry under a mutual
//! exclusion lock and runs each connection's relay loop as its own task.
//! Cancellation is cooperative: dropping an entry fires its notifier (the
//! entry's `instance` number joins `fired`), and the bound relay task
//! observes that at its next step.

use vstd::prelude::*;

use crate::peer::{
    peer_error_of, poll_post, poll_result, Peer, PeerError, PeerPoll, PeerPollV, PeerV,
    MAX_TIME_MS,
};
use crate::socket::{SocketError, SocketStatus};
use crate::types::{CrustUser, Event, EventV, IpAddr, PaAddr, Priority};

verus! {

/// An error out of a registry operation: the identity is unknown, or the
/// peer's transport refused the write.
#[derive(Clone, Copy, Debug, PartialEq, Eq, Structural)]
pub enum CrustError {
    PeerNotFound,
    CompatPeerError(PeerError),
}

/// The outbound half of a connection as retained in a registry entry:
/// its readiness, its terminal failure if any, every payload handed to
/// it, and the instant of the last accepted send.
pub struct PeerSink {
    pub send_ready: bool,
    pub failed: Option<SocketError>,
    pub sent: Vec<(Priority, Vec<u8>)>,
    pub last_send_time: u64,
}

/// Mathematical model of a [`PeerSink`].
#[verifier::ext_equal]
pub struct PeerSinkV {
    pub send_ready: bool,
    pub failed: Option<SocketError>,
    pub sent: Seq<(Priority, Seq<u8>)>,
    pub last_send_time: u64,
}

impl View for PeerSink {
    type V = PeerSinkV;

    open spec fn view(&self) -> PeerSinkV {
        PeerSinkV {
            send_ready: self.send_ready,
            failed: self.failed,
            sent: self.sent@.map_values(|p: (Priority, Vec<u8>)| (p.0, p.1@)),
            last_send_time: self.last_send_time,
        }
    }
}

/// One registry entry: a peer's identity, address, kind, the outbound
/// half of its connection, and the drop-notifier (`instance`) bound to
/// its relay task.
pub struct PeerEntry {
    pub uid: u64,
    pub addr: PaAddr,
    pub kind: CrustUser,
    pub instance: u64,
    pub peer_sink: PeerSink,
}

/// Mathematical model of a [`PeerEntry`].
#[verifier::ext_equal]
pub struct PeerEntryV {
    pub uid: u64,
    pub addr: PaAddr,
    pub kind: CrustUser,
    pub instance: u64,
    pub peer_sink: PeerSinkV,
}

impl View for PeerEntry {
    type V = PeerEntryV;

    open spec fn view(&self) -> PeerEntryV {
        PeerEntryV {
            uid: self.uid,
            addr: self.addr,
            kind: self.kind,
            instance: self.instance,
            peer_sink: self.peer_sink@,
        }
    }
}

/// The state of one relay task: which identity and connection instance it
/// serves, whether it has terminated, and whether it has already emitted
/// its `LostPeer` event.
#[derive(Clone, Copy, Debug, PartialEq, Eq, Structural)]
pub struct RelayTask {
    pub uid: u64,
    pub kind: CrustUser,
    pub instance: u64,
    pub finished: bool,
    pub lost_emitted: bool,
}

/// Reference-counted-style connection table, generic over the opaque
/// connection-info channel type `C` owned by the handshake layer.
pub struct ConnectionMap<C> {
    pub peers: Vec<PeerEntry>,
    pub ci_channel: Vec<(u64, C)>,
    pub events: Vec<Event>,
    pub next_instance: u64,
    pub fired: Vec<u64>,
}

/// Mathematical model of a [`ConnectionMap`].
#[verifier::ext_equal]
pub struct ConnectionMapV<C> {
    pub peers: Seq<PeerEntryV>,
    pub ci_channel: Seq<(u64, C)>,
    pub events: Seq<EventV>,
    pub next_instance: u64,
    pub fired: Seq<u64>,
}

impl<C> View for ConnectionMap<C> {
    type V = ConnectionMapV<C>;

    open spec fn view(&self) -> ConnectionMapV<C> {
        ConnectionMapV {
            peers: self.peers@.map_values(|e: PeerEntry| e@),
            ci_channel: self.ci_channel@,
            events: self.events@.map_values(|e: Event| e@),
            next_instance: self.next_instance,
            fired: self.fired@,
        }
    }
}

/// Whether some entry carries identity `uid`.
pub open spec fn has_uid(s: Seq<PeerEntryV>, uid: u64) -> bool {
    exists|i: int| 0 <= i < s.len() && (#[trigger] s[i]).uid == uid
}

/// The index of the entry carrying `uid` (meaningful under
/// [`uids_unique`] when [`has_uid`] holds).
pub open spec fn idx_of(s: Seq<PeerEntryV>, uid: u64) -> int {
    choose|i: int| 0 <= i < s.len() && (#[trigger] s[i]).uid == uid
}

/// The entry carrying `uid`.
pub open spec fn entry_of(s: Seq<PeerEntryV>, uid: u64) -> PeerEntryV {
    s[idx_of(s, uid)]
}

/// No two entries carry the same identity.
pub open spec fn uids_unique(s: Seq<PeerEntryV>) -> bool {
    forall|i: int, j: int| 0 <= i < j < s.len() ==> s[i].uid != s[j].uid
}

/// The predicate kept by a removal of `uid`.
pub open spec fn ne_uid(uid: u64) -> spec_fn(PeerEntryV) -> bool {
    |e: PeerEntryV| e.uid != uid
}

/// The peer table after removal of `uid`: every entry but the one
/// carrying `uid`, in order.
pub open spec fn removed(s: Seq<PeerEntryV>, uid: u64) -> Seq<PeerEntryV> {
    s.filter(ne_uid(uid))
}

/// Whether a whitelist pass retains entry `e`: its IP must be in the
/// allow-set matching its kind.
pub open spec fn whitelist_keeps(e: PeerEntryV, client_ips: Seq<IpAddr>, node_ips: Seq<IpAddr>) -> bool {
    match e.kind {
        CrustUser::Node => node_ips.contains(e.addr.ip),
        CrustUser::Client => client_ips.contains(e.addr.ip),
    }
}

/// The predicate kept by a whitelist pass.
pub open spec fn whitelist_pred(client_ips: Seq<IpAddr>, node_ips: Seq<IpAddr>) -> spec_fn(
    PeerEntryV,
) -> bool {
    |e: PeerEntryV| whitelist_keeps(e, client_ips, node_ips)
}

/// The predicate dropped by a whitelist pass.
pub open spec fn whitelist_dropped_pred(client_ips: Seq<IpAddr>, node_ips: Seq<IpAddr>) -> spec_fn(
    PeerEntryV,
) -> bool {
    |e: PeerEntryV| !whitelist_keeps(e, client_ips, node_ips)
}

/// The peer table after a whitelist pass.
pub open spec fn whitelist_filtered(
    s: Seq<PeerEntryV>,
    client_ips: Seq<IpAddr>,
    node_ips: Seq<IpAddr>,
) -> Seq<PeerEntryV> {
    s.filter(whitelist_pred(client_ips, node_ips))
}

/// The drop-notifier instances of the given entries, in order.
pub open spec fn instances_of(s: Seq<PeerEntryV>) -> Seq<u64> {
    s.map_values(|e: PeerEntryV| e.instance)
}

/// The entry's outbound half after one accepted send.
pub open spec fn sent_updated(e: PeerEntryV, priority: Priority, msg: Seq<u8>, now: u64) -> PeerEntryV {
    PeerEntryV {
        peer_sink: PeerSinkV {
            sent: e.peer_sink.sent.push((priority, msg)),
            last_send_time: now,
            ..e.peer_sink
        },
        ..e
    }
}

/// The outbound half retained for a freshly inserted peer, and the entry
/// built around it.
pub open spec fn new_entry_v(p: PeerV, addr: PaAddr, instance: u64) -> PeerEntryV {
    PeerEntryV {
        uid: p.their_uid,
        addr,
        kind: p.kind,
        instance,
        peer_sink: PeerSinkV {
            send_ready: p.socket.send_ready,
            failed: match p.socket.status {
                SocketStatus::Failed(e) => Some(e),
                _ => None,
            },
            sent: Seq::<(Priority, Seq<u8>)>::empty(),
            last_send_time: p.last_send_time,
        },
    }
}

/// Whether some channel is stored under `id`.
pub open spec fn ci_has<C>(s: Seq<(u64, C)>, id: u64) -> bool {
    exists|i: int| 0 <= i < s.len() && (#[trigger] s[i]).0 == id
}

/// The index of the channel stored under `id`.
pub open spec fn ci_idx<C>(s: Seq<(u64, C)>, id: u64) -> int {
    choose|i: int| 0 <= i < s.len() && (#[trigger] s[i]).0 == id
}

/// The channel stored under `id`.
pub open spec fn ci_at<C>(s: Seq<(u64, C)>, id: u64) -> C {
    s[ci_idx(s, id)].1
}

/// No two channels share an id.
pub open spec fn ci_keys_unique<C>(s: Seq<(u64, C)>) -> bool {
    forall|i: int, j: int| 0 <= i < j < s.len() ==> s[i].0 != s[j].0
}

/// The predicate kept by a removal of channel `id`.
pub open spec fn ci_ne<C>(id: u64) -> spec_fn((u64, C)) -> bool {
    |p: (u64, C)| p.0 != id
}

/// The channel table after removal of `id`.
pub open spec fn ci_removed<C>(s: Seq<(u64, C)>, id: u64) -> Seq<(u64, C)> {
    s.filter(ci_ne(id))
}

impl<C> ConnectionMapV<C> {
    /// Well-formedness: identities and channel ids are unique, and every
    /// retained outbound half is ready (writes to it are serialized
    /// through the registry's critical section, so it never reports
    /// not-ready).
    pub open spec fn wf(self) -> bool {
        &&& uids_unique(self.peers)
        &&& forall|i: int|
            0 <= i < self.peers.len() ==> (#[trigger] self.peers[i]).peer_sink.send_ready
        &&& ci_keys_unique(self.ci_channel)
    }
}

/// A sequence filtered on a key-distinct predicate keeps its keys
/// distinct, and every kept element comes from the original sequence.
#[verifier::rlimit(50)]
proof fn lemma_filter_key_unique<A>(s: Seq<A>, pred: spec_fn(A) -> bool, key: spec_fn(A) -> u64)
    requires
        forall|i: int, j: int| 0 <= i < j < s.len() ==> key(s[i]) != key(s[j]),
    ensures
        forall|i: int, j: int|
            0 <= i < j < s.filter(pred).len() ==> key(#[trigger] s.filter(pred)[i]) != key(
                #[trigger] s.filter(pred)[j],
            ),
        forall|t: int|
            0 <= t < s.filter(pred).len() ==> exists|x: int|
                0 <= x < s.len() && #[trigger] s.filter(pred)[t] == s[x],
    decreases s.len(),
{
    reveal(Seq::filter);
    if s.len() == 0 {
    } else {
        let s0 = s.drop_last();
        assert forall|i: int, j: int| 0 <= i < j < s0.len() implies key(s0[i]) != key(s0[j]) by {
            assert(s0[i] == s[i]);
            assert(s0[j] == s[j]);
        }
        lemma_filter_key_unique(s0, pred, key);
        let f0 = s0.filter(pred);
        assert forall|t: int| 0 <= t < f0.len() implies exists|x: int|
            0 <= x < s.len() && #[trigger] f0[t] == s[x] by {
            let x0 = choose|x: int| 0 <= x < s0.len() && f0[t] == s0[x];
            assert(s0[x0] == s[x0]);
            assert(f0[t] == s[x0]);
        }
        if pred(s.last()) {
            assert(s.filter(pred) == f0.push(s.last()));
            assert forall|t: int| 0 <= t < f0.len() implies key(f0[t]) != key(s.last()) by {
                let x0 = choose|x: int| 0 <= x < s.len() && f0[t] == s[x];
                let x1 = choose|x: int| 0 <= x < s0.len() && f0[t] == s0[x];
                assert(s0[x1] == s[x1]);
                assert(key(s[x1]) != key(s[s.len() - 1]));
            }
            assert forall|t: int| 0 <= t < s.filter(pred).len() implies exists|x: int|
                0 <= x < s.len() && #[trigger] s.filter(pred)[t] == s[x] by {
                if t < f0.len() {
                    assert(s.filter(pred)[t] == f0[t]);
                } else {
                    assert(s.filter(pred)[t] == s[s.len() - 1]);
                }
            }
        } else {
            assert(s.filter(pred) == f0);
        }
    }
}

/// Filtering a sequence whose every element satisfies the predicate
/// changes nothing.
#[verifier::rlimit(50)]
proof fn lemma_filter_all<A>(s: Seq<A>, pred: spec_fn(A) -> bool)
    requires
        forall|i: int| 0 <= i < s.len() ==> pred(#[trigger] s[i]),
    ensures
        s.filter(pred) == s,
    decreases s.len(),
{
    reveal(Seq::filter);
    if s.len() == 0 {
        assert(s.filter(pred) =~= s);
    } else {
        let s0 = s.drop_last();
        assert forall|i: int| 0 <= i < s0.len() implies pred(#[trigger] s0[i]) by {
            assert(s0[i] == s[i]);
        }
        lemma_filter_all(s0, pred);
        assert(pred(s.last()));
        assert(s.filter(pred) == s0.filter(pred).push(s.last()));
        assert(s0.push(s.last()) =~= s);
    }
}

/// Under unique identities, the entry found at an index is the entry of
/// its identity.
pub proof fn lemma_idx_unique(s: Seq<PeerEntryV>, i: int)
    requires
        uids_unique(s),
        0 <= i < s.len(),
    ensures
        has_uid(s, s[i].uid),
        idx_of(s, s[i].uid) == i,
        entry_of(s, s[i].uid) == s[i],
{
    assert(has_uid(s, s[i].uid));
    let j = idx_of(s, s[i].uid);
    assert(0 <= j < s.len() && s[j].uid == s[i].uid);
    if j < i {
        assert(s[j].uid != s[i].uid);
    } else if i < j {
        assert(s[i].uid != s[j].uid);
    }
}

/// Under unique channel ids, the pair found at an index is the pair of
/// its id.
pub proof fn lemma_ci_idx_unique<C>(s: Seq<(u64, C)>, i: int)
    requires
        ci_keys_unique(s),
        0 <= i < s.len(),
    ensures
        ci_has(s, s[i].0),
        ci_idx(s, s[i].0) == i,
        ci_at(s, s[i].0) == s[i].1,
{
    assert(ci_has(s, s[i].0));
    let j = ci_idx(s, s[i].0);
    assert(0 <= j < s.len() && s[j].0 == s[i].0);
    if j < i {
        assert(s[j].0 != s[i].0);
    } else if i < j {
        assert(s[i].0 != s[j].0);
    }
}

/// Searches a vector of instance numbers.
#[verifier::loop_isolation(false)]
fn contains_instance(v: &Vec<u64>, x: u64) -> (r: bool)
    ensures
        r == v@.contains(x),
{
    let n = v.len();
    let mut i: usize = 0;
    while i < n
        invariant
            n == v@.len(),
            0 <= i <= n,
            forall|t: int| 0 <= t < i ==> v@[t] != x,
        decreases n - i,
    {
        if v[i] == x {
            return true;
        }
        i += 1;
    }
    false
}

/// Searches a vector of IP addresses.
#[verifier::loop_isolation(false)]
fn contains_ip(ips: &Vec<IpAddr>, ip: IpAddr) -> (r: bool)
    ensures
        r == ips@.contains(ip),
{
    let n = ips.len();
    let mut i: usize = 0;
    while i < n
        invariant
            n == ips@.len(),
            0 <= i <= n,
            forall|t: int| 0 <= t < i ==> ips@[t] != ip,
        decreases n - i,
    {
        if ips[i] == ip {
            return true;
        }
        i += 1;
    }
    false
}

impl<C> ConnectionMap<C> {
    /// Creates a new, empty connection registry.  Every event the
    /// registry's relay tasks produce is appended to its `events` log,
    /// the model of the process-wide event sink bound here for the
    /// registry's whole lifetime.
    pub fn new() -> (m: ConnectionMap<C>)
        ensures
            m@ == (ConnectionMapV::<C> {
                peers: Seq::<PeerEntryV>::empty(),
                ci_channel: Seq::<(u64, C)>::empty(),
                events: Seq::<EventV>::empty(),
                next_instance: 0,
                fired: Seq::<u64>::empty(),
            }),
            m@.wf(),
    {
        let m = ConnectionMap {
            peers: Vec::new(),
            ci_channel: Vec::new(),
            events: Vec::new(),
            next_instance: 0,
            fired: Vec::new(),
        };
        proof {
            assert(m@ =~= ConnectionMapV::<C> {
                peers: Seq::<PeerEntryV>::empty(),
                ci_channel: Seq::<(u64, C)>::empty(),
                events: Seq::<EventV>::empty(),
                next_instance: 0,
                fired: Seq::<u64>::empty(),
            });
        }
        m
    }

    /// The index of the entry carrying `uid`, if any.
    #[verifier::loop_isolation(false)]
    fn find_peer(&self, uid: u64) -> (r: Option<usize>)
        ensures
            match r {
                Some(i) => i < self@.peers.len() && self@.peers[i as int].uid == uid,
                None => !has_uid(self@.peers, uid),
            },
    {
        let n = self.peers.len();
        let mut i: usize = 0;
        while i < n
            invariant
                n == self.peers.len(),
                self@.peers.len() == n,
                0 <= i <= n,
                forall|t: int| 0 <= t < i ==> (#[trigger] self@.peers[t]).uid != uid,
            decreases n - i,
        {
            if self.peers[i].uid == uid {
                return Some(i);
            }
            i += 1;
        }
        None
    }

    /// Checks whether a peer with the given identity is in the registry.
    pub fn contains_peer(&self, uid: u64) -> (r: bool)
        ensures
            r == has_uid(self@.peers, uid),
    {
        match self.find_peer(uid) {
            Some(_) => true,
            None => false,
        }
    }

    /// Returns the peer's address, or `PeerNotFound` if the identity is
    /// not in the registry.
    pub fn peer_addr(&self, uid: u64) -> (r: Result<PaAddr, CrustError>)
        requires
            self@.wf(),
        ensures
            has_uid(self@.peers, uid) ==> r == Ok::<PaAddr, CrustError>(
                entry_of(self@.peers, uid).addr,
            ),
            !has_uid(self@.peers, uid) ==> r == Err::<PaAddr, CrustError>(CrustError::PeerNotFound),
    {
        match self.find_peer(uid) {
            Some(i) => {
                proof {
                    lemma_idx_unique(self@.peers, i as int);
                }
                Ok(self.peers[i].addr)
            },
            None => Err(CrustError::PeerNotFound),
        }
    }

    /// Inserts a new peer into the registry.  Fails — returning `None`
    /// and changing nothing — when the identity is already present,
    /// enforcing at-most-one-connection-per-identity.  On success the
    /// outbound half of the connection is retained in the new entry, a
    /// fresh drop-notifier instance is bound to it, and the relay task
    /// state to run for this connection is handed back; the caller moves
    /// the peer's stream side into that task's loop.
    pub fn insert_peer(&mut self, peer: &Peer, addr: PaAddr) -> (r: Option<RelayTask>)
        requires
            old(self)@.wf(),
            peer@.socket.send_ready,
            old(self)@.next_instance < u64::MAX,
        ensures
            final(self)@.wf(),
            r is Some <==> !has_uid(old(self)@.peers, peer@.their_uid),
            r is None ==> final(self)@ == old(self)@,
            r matches Some(t) ==> t == (RelayTask {
                uid: peer@.their_uid,
                kind: peer@.kind,
                instance: old(self)@.next_instance,
                finished: false,
                lost_emitted: false,
            }) && final(self)@ == (ConnectionMapV {
                peers: old(self)@.peers.push(
                    new_entry_v(peer@, addr, old(self)@.next_instance),
                ),
                next_instance: (old(self)@.next_instance + 1) as u64,
                ..old(self)@
            }),
    {
        let uid = peer.uid();
        match self.find_peer(uid) {
            Some(_) => None,
            None => {
                let instance = self.next_instance;
                self.next_instance = self.next_instance + 1;
                let sink = PeerSink {
                    send_ready: peer.socket.send_ready,
                    failed: match peer.socket.status {
                        SocketStatus::Failed(e) => Some(e),
                        _ => None,
                    },
                    sent: Vec::new(),
                    last_send_time: peer.last_send_time,
                };
                let entry = PeerEntry { uid, addr, kind: peer.kind(), instance, peer_sink: sink };
                let ghost entry_v = entry@;
                self.peers.push(entry);
                proof {
                    assert(entry_v =~= new_entry_v(peer@, addr, instance));
                    assert(self@.peers =~= old(self)@.peers.push(entry_v));
                    assert(self@ =~= ConnectionMapV {
                        peers: old(self)@.peers.push(new_entry_v(peer@, addr, instance)),
                        next_instance: (old(self)@.next_instance + 1) as u64,
                        ..old(self)@
                    });
                    assert forall|i: int, j: int|
                        0 <= i < j < self@.peers.len() implies self@.peers[i].uid
                        != self@.peers[j].uid by {
                        if j == self@.peers.len() - 1 {
                            assert(self@.peers[i] == old(self)@.peers[i]);
                        }
                    }
                }
                Some(
                    RelayTask {
                        uid,
                        kind: peer.kind(),
                        instance,
                        finished: false,
                        lost_emitted: false,
                    },
                )
            },
        }
    }

    /// Removes the peer with the given identity.  Returns `true` iff an
    /// entry existed; removing it fires its drop-notifier, signalling the
    /// bound relay task to stop at its next step.  Removing an absent
    /// identity is a no-op returning `false`, never an error.
    #[verifier::loop_isolation(false)]
    pub fn remove(&mut self, uid: u64) -> (r: bool)
        requires
            old(self)@.wf(),
        ensures
            final(self)@.wf(),
            r == has_uid(old(self)@.peers, uid),
            final(self)@.peers == removed(old(self)@.peers, uid),
            final(self)@.fired == if has_uid(old(self)@.peers, uid) {
                old(self)@.fired.push(entry_of(old(self)@.peers, uid).instance)
            } else {
                old(self)@.fired
            },
            final(self)@.events == old(self)@.events,
            final(self)@.ci_channel == old(self)@.ci_channel,
            final(self)@.next_instance == old(self)@.next_instance,
    {
        broadcast use {vstd::prelude::Seq::group_seq_extra, vstd::seq_lib::group_filter_ensures};

        let ghost s = self@.peers;
        match self.find_peer(uid) {
            None => {
                proof {
                    assert forall|i: int| 0 <= i < s.len() implies (ne_uid(uid))(
                        #[trigger] s[i],
                    ) by {}
                    lemma_filter_all(s, ne_uid(uid));
                }
                false
            },
            Some(i) => {
                proof {
                    lemma_idx_unique(s, i as int);
                }
                let instance = self.peers[i].instance;
                self.fired.push(instance);
                let ghost fired1 = self@.fired;
                let mut kept: Vec<PeerEntry> = Vec::new();
                let ghost mut j: int = 0;
                proof {
                    assert(s.take(0) =~= Seq::<PeerEntryV>::empty());
                    lemma_filter_empty(ne_uid(uid));
                    assert(removed(s.take(0), uid) =~= Seq::<PeerEntryV>::empty());
                }
                loop
                    invariant
                        0 <= j <= s.len(),
                        self@.peers == s.skip(j),
                        kept@.map_values(|e: PeerEntry| e@) == removed(s.take(j), uid),
                        self@.fired == fired1,
                        self@.events == old(self)@.events,
                        self@.ci_channel == old(self)@.ci_channel,
                        self@.next_instance == old(self)@.next_instance,
                    decreases self.peers.len(),
                {
                    if self.peers.len() == 0 {
                        break ;
                    }
                    let ghost kv0 = kept@.map_values(|e: PeerEntry| e@);
                    let ghost pre_peers = self@.peers;
                    let e = self.peers.remove(0);
                    proof {
                        assert(pre_peers[0] == s[j]);
                        assert(e@ == pre_peers[0]);
                        assert(self@.peers =~= s.skip(j + 1));
                        assert(s.take(j + 1) =~= s.take(j).push(s[j]));
                    }
                    if e.uid != uid {
                        kept.push(e);
                        proof {
                            assert(kept@.map_values(|e2: PeerEntry| e2@) =~= kv0.push(e@));
                        }
                    }
                    proof {
                        assert(removed(s.take(j + 1), uid) == if (ne_uid(uid))(s[j]) {
                            removed(s.take(j), uid).push(s[j])
                        } else {
                            removed(s.take(j), uid)
                        });
                        j = j + 1;
                    }
                }
                proof {
                    assert(j == s.len());
                    assert(s.take(j) =~= s);
                }
                self.peers = kept;
                proof {
                    lemma_filter_key_unique(s, ne_uid(uid), |e: PeerEntryV| e.uid);
                    assert forall|t: int|
                        0 <= t < self@.peers.len() implies (#[trigger] self@.peers[t]).peer_sink.send_ready by {
                        let x = choose|x: int| 0 <= x < s.len() && self@.peers[t] == s[x];
                        assert(s[x].peer_sink.send_ready);
                    }
                }
                true
            },
        }
    }

    /// Drops every entry, firing every drop-notifier.
    #[verifier::loop_isolation(false)]
    pub fn clear(&mut self)
        requires
            old(self)@.wf(),
        ensures
            final(self)@.wf(),
            final(self)@.peers == Seq::<PeerEntryV>::empty(),
            final(self)@.fired == old(self)@.fired + instances_of(old(self)@.peers),
            final(self)@.events == old(self)@.events,
            final(self)@.ci_channel == old(self)@.ci_channel,
            final(self)@.next_instance == old(self)@.next_instance,
    {
        broadcast use {vstd::prelude::Seq::group_seq_extra, vstd::seq_lib::group_filter_ensures};

        let ghost s = self@.peers;
        let ghost fired0 = self@.fired;
        let ghost mut j: int = 0;
        proof {
            assert(s.take(0) =~= Seq::<PeerEntryV>::empty());
            assert(fired0 + instances_of(s.take(0)) =~= fired0);
        }
        loop
            invariant
                0 <= j <= s.len(),
                self@.peers == s.skip(j),
                self@.fired == fired0 + instances_of(s.take(j)),
                self@.events == old(self)@.events,
                self@.ci_channel == old(self)@.ci_channel,
                self@.next_instance == old(self)@.next_instance,
            decreases self.peers.len(),
        {
            if self.peers.len() == 0 {
                break ;
            }
            let ghost pre_peers = self@.peers;
            let e = self.peers.remove(0);
            proof {
                assert(pre_peers[0] == s[j]);
                assert(e@ == pre_peers[0]);
                assert(self@.peers =~= s.skip(j + 1));
                assert(s.take(j + 1) =~= s.take(j).push(s[j]));
            }
            self.fired.push(e.instance);
            proof {
                assert(instances_of(s.take(j + 1)) =~= instances_of(s.take(j)).push(s[j].instance));
                assert(self@.fired =~= fired0 + instances_of(s.take(j + 1)));
                j = j + 1;
            }
        }
        proof {
            assert(j == s.len());
            assert(s.take(j) =~= s);
            assert(self@.peers =~= Seq::<PeerEntryV>::empty());
        }
    }

    /// Under one pass, retains only the entries whose IP address is in
    /// the allow-set matching their kind (`Node` against `node_ips`,
    /// `Client` against `client_ips`); every other entry is dropped and
    /// its drop-notifier fired, cancelling its relay task.
    #[verifier::loop_isolation(false)]
    pub fn whitelist_filter(&mut self, client_ips: &Vec<IpAddr>, node_ips: &Vec<IpAddr>)
        requires
            old(self)@.wf(),
        ensures
            final(self)@.wf(),
            final(self)@.peers == whitelist_filtered(old(self)@.peers, client_ips@, node_ips@),
            final(self)@.fired == old(self)@.fired + instances_of(
                old(self)@.peers.filter(whitelist_dropped_pred(client_ips@, node_ips@)),
            ),
            final(self)@.events == old(self)@.events,
            final(self)@.ci_channel == old(self)@.ci_channel,
            final(self)@.next_instance == old(self)@.next_instance,
    {
        broadcast use {vstd::prelude::Seq::group_seq_extra, vstd::seq_lib::group_filter_ensures};

        let ghost s = self@.peers;
        let ghost fired0 = self@.fired;
        let ghost cips = client_ips@;
        let ghost nips = node_ips@;
        let mut kept: Vec<PeerEntry> = Vec::new();
        let ghost mut j: int = 0;
        proof {
            assert(s.take(0) =~= Seq::<PeerEntryV>::empty());
            lemma_filter_empty(whitelist_pred(cips, nips));
            lemma_filter_empty(whitelist_dropped_pred(cips, nips));
            assert(whitelist_filtered(s.take(0), cips, nips) =~= Seq::<PeerEntryV>::empty());
            assert(s.take(0).filter(whitelist_dropped_pred(cips, nips)) =~= Seq::<
                PeerEntryV,
            >::empty());
            assert(instances_of(s.take(0).filter(whitelist_dropped_pred(cips, nips))) =~= Seq::<
                u64,
            >::empty());
            assert(fired0 + instances_of(s.take(0).filter(whitelist_dropped_pred(cips, nips)))
                =~= fired0);
        }
        loop
            invariant
                0 <= j <= s.len(),
                self@.peers == s.skip(j),
                kept@.map_values(|e: PeerEntry| e@) == whitelist_filtered(s.take(j), cips, nips),
                self@.fired == fired0 + instances_of(
                    s.take(j).filter(whitelist_dropped_pred(cips, nips)),
                ),
                self@.events == old(self)@.events,
                self@.ci_channel == old(self)@.ci_channel,
                self@.next_instance == old(self)@.next_instance,
            decreases self.peers.len(),
        {
            if self.peers.len() == 0 {
                break ;
            }
            let ghost kv0 = kept@.map_values(|e: PeerEntry| e@);
            let ghost dropped0 = s.take(j).filter(whitelist_dropped_pred(cips, nips));
            let ghost pre_peers = self@.peers;
            let e = self.peers.remove(0);
            proof {
                assert(pre_peers[0] == s[j]);
                assert(e@ == pre_peers[0]);
                assert(self@.peers =~= s.skip(j + 1));
                assert(s.take(j + 1) =~= s.take(j).push(s[j]));
            }
            let keep = match e.kind {
                CrustUser::Node => contains_ip(node_ips, e.addr.ip),
                CrustUser::Client => contains_ip(client_ips, e.addr.ip),
            };
            proof {
                assert(keep == whitelist_keeps(s[j], cips, nips));
            }
            if keep {
                kept.push(e);
                proof {
                    assert(kept@.map_values(|e2: PeerEntry| e2@) =~= kv0.push(e@));
                }
            } else {
                self.fired.push(e.instance);
                proof {
                    assert(s.take(j + 1).filter(whitelist_dropped_pred(cips, nips)) =~= dropped0.push(
                        s[j],
                    ));
                    assert(instances_of(dropped0.push(s[j])) =~= instances_of(dropped0).push(
                        s[j].instance,
                    ));
                    assert(self@.fired =~= fired0 + instances_of(
                        s.take(j + 1).filter(whitelist_dropped_pred(cips, nips)),
                    ));
                }
            }
            proof {
                j = j + 1;
            }
        }
        proof {
            assert(j == s.len());
            assert(s.take(j) =~= s);
        }
        self.peers = kept;
        proof {
            lemma_filter_key_unique(s, whitelist_pred(cips, nips), |e: PeerEntryV| e.uid);
            assert forall|t: int|
                0 <= t < self@.peers.len() implies (#[trigger] self@.peers[t]).peer_sink.send_ready by {
                let x = choose|x: int| 0 <= x < s.len() && self@.peers[t] == s[x];
                assert(s[x].peer_sink.send_ready);
            }
        }
    }

    /// Sends a payload to the peer with the given identity, at the given
    /// priority.  Fails with `PeerNotFound` when the identity is not in
    /// the registry, and with the peer's transport failure when its
    /// outbound half has failed.  A not-ready outbound half cannot be
    /// observed here: writes are serialized through the registry's
    /// critical section, which well-formedness records as every retained
    /// half being ready.
    pub fn send(&mut self, uid: u64, msg: Vec<u8>, priority: Priority, now: u64) -> (r: Result<
        (),
        CrustError,
    >)
        requires
            old(self)@.wf(),
        ensures
            final(self)@.wf(),
            !has_uid(old(self)@.peers, uid) ==> r == Err::<(), CrustError>(CrustError::PeerNotFound)
                && final(self)@ == old(self)@,
            has_uid(old(self)@.peers, uid) ==> (match entry_of(old(self)@.peers, uid).peer_sink.failed {
                Some(err) => r == Err::<(), CrustError>(
                    CrustError::CompatPeerError(peer_error_of(err)),
                ) && final(self)@ == old(self)@,
                None => r == Ok::<(), CrustError>(()) && final(self)@ == (ConnectionMapV {
                    peers: old(self)@.peers.update(
                        idx_of(old(self)@.peers, uid),
                        sent_updated(entry_of(old(self)@.peers, uid), priority, msg@, now),
                    ),
                    ..old(self)@
                }),
            }),
    {
        let ghost s = self@.peers;
        match self.find_peer(uid) {
            None => Err(CrustError::PeerNotFound),
            Some(i) => {
                proof {
                    lemma_idx_unique(s, i as int);
                }
                let mut e = self.peers.remove(i);
                match e.peer_sink.failed {
                    Some(err) => {
                        let r = Err(CrustError::CompatPeerError(PeerError::from(err)));
                        self.peers.insert(i, e);
                        proof {
                            assert(self@.peers =~= s);
                            assert(self@ =~= old(self)@);
                        }
                        r
                    },
                    None => {
                        let ghost sink0 = e.peer_sink@;
                        e.peer_sink.sent.push((priority, msg));
                        e.peer_sink.last_send_time = now;
                        proof {
                            assert(e.peer_sink@.sent =~= sink0.sent.push((priority, msg@)));
                            assert(e@ =~= sent_updated(s[i as int], priority, msg@, now));
                        }
                        self.peers.insert(i, e);
                        proof {
                            assert(self@.peers =~= s.update(
                                i as int,
                                sent_updated(s[i as int], priority, msg@, now),
                            ));
                            assert(self@ =~= ConnectionMapV {
                                peers: s.update(
                                    i as int,
                                    sent_updated(entry_of(s, uid), priority, msg@, now),
                                ),
                                ..old(self)@
                            });
                            assert forall|a: int, b: int|
                                0 <= a < b < self@.peers.len() implies self@.peers[a].uid
                                != self@.peers[b].uid by {}
                        }
                        Ok(())
                    },
                }
            },
        }
    }

    /// Stores a connection-info channel under a caller-chosen connection
    /// id, replacing any channel already stored under it.  The channel is
    /// opaque to the registry; the handshake layer owns its meaning.
    #[verifier::loop_isolation(false)]
    pub fn insert_ci_channel(&mut self, conn_id: u64, chann: C)
        requires
            old(self)@.wf(),
        ensures
            final(self)@.wf(),
            final(self)@.ci_channel == ci_removed(old(self)@.ci_channel, conn_id).push(
                (conn_id, chann),
            ),
            final(self)@.peers == old(self)@.peers,
            final(self)@.events == old(self)@.events,
            final(self)@.fired == old(self)@.fired,
            final(self)@.next_instance == old(self)@.next_instance,
    {
        broadcast use {vstd::prelude::Seq::group_seq_extra, vstd::seq_lib::group_filter_ensures};

        let ghost s = self@.ci_channel;
        let mut kept: Vec<(u64, C)> = Vec::new();
        let ghost mut j: int = 0;
        proof {
            assert(s.take(0) =~= Seq::<(u64, C)>::empty());
            lemma_filter_empty(ci_ne::<C>(conn_id));
            assert(ci_removed(s.take(0), conn_id) =~= Seq::<(u64, C)>::empty());
        }
        loop
            invariant
                0 <= j <= s.len(),
                self@.ci_channel == s.skip(j),
                kept@ == ci_removed(s.take(j), conn_id),
                self@.peers == old(self)@.peers,
                self@.events == old(self)@.events,
                self@.fired == old(self)@.fired,
                self@.next_instance == old(self)@.next_instance,
            decreases self.ci_channel.len(),
        {
            if self.ci_channel.len() == 0 {
                break ;
            }
            let ghost pre_ci = self@.ci_channel;
            let p = self.ci_channel.remove(0);
            proof {
                assert(pre_ci[0] == s[j]);
                assert(p == s[j]);
                assert(self@.ci_channel =~= s.skip(j + 1));
                assert(s.take(j + 1) =~= s.take(j).push(s[j]));
            }
            if p.0 != conn_id {
                kept.push(p);
            }
            proof {
                assert(ci_removed(s.take(j + 1), conn_id) == if (ci_ne::<C>(conn_id))(s[j]) {
                    ci_removed(s.take(j), conn_id).push(s[j])
                } else {
                    ci_removed(s.take(j), conn_id)
                });
                j = j + 1;
            }
        }
        proof {
            assert(j == s.len());
            assert(s.take(j) =~= s);
        }
        self.ci_channel = kept;
        self.ci_channel.push((conn_id, chann));
        proof {
            lemma_filter_key_unique(s, ci_ne::<C>(conn_id), |p: (u64, C)| p.0);
            assert forall|a: int, b: int|
                0 <= a < b < self@.ci_channel.len() implies self@.ci_channel[a].0
                != self@.ci_channel[b].0 by {
                let kn = ci_removed(s, conn_id).len() as int;
                if b < kn {
                } else {
                    assert(self@.ci_channel[b].0 == conn_id);
                    assert((ci_ne::<C>(conn_id))(ci_removed(s, conn_id)[a]));
                }
            }
        }
    }

    /// Retrieves — and permanently removes — the connection-info channel
    /// stored under the given connection id, so that each channel is
    /// consumed at most once.
    #[verifier::loop_isolation(false)]
    pub fn get_ci_channel(&mut self, conn_id: u64) -> (r: Option<C>)
        requires
            old(self)@.wf(),
        ensures
            final(self)@.wf(),
            ci_has(old(self)@.ci_channel, conn_id) ==> (r matches Some(c) && c == ci_at(
                old(self)@.ci_channel,
                conn_id,
            )),
            !ci_has(old(self)@.ci_channel, conn_id) ==> r is None,
            final(self)@.ci_channel == ci_removed(old(self)@.ci_channel, conn_id),
            final(self)@.peers == old(self)@.peers,
            final(self)@.events == old(self)@.events,
            final(self)@.fired == old(self)@.fired,
            final(self)@.next_instance == old(self)@.next_instance,
    {
        broadcast use {vstd::prelude::Seq::group_seq_extra, vstd::seq_lib::group_filter_ensures};

        let ghost s = self@.ci_channel;
        let mut kept: Vec<(u64, C)> = Vec::new();
        let mut out: Option<C> = None;
        let ghost mut j: int = 0;
        proof {
            assert(s.take(0) =~= Seq::<(u64, C)>::empty());
            lemma_filter_empty(ci_ne::<C>(conn_id));
            assert(ci_removed(s.take(0), conn_id) =~= Seq::<(u64, C)>::empty());
        }
        loop
            invariant
                0 <= j <= s.len(),
                self@.ci_channel == s.skip(j),
                kept@ == ci_removed(s.take(j), conn_id),
                out is Some <==> ci_has(s.take(j), conn_id),
                out matches Some(c) ==> ci_has(s, conn_id) && c == ci_at(s, conn_id),
                self@.peers == old(self)@.peers,
                self@.events == old(self)@.events,
                self@.fired == old(self)@.fired,
                self@.next_instance == old(self)@.next_instance,
            decreases self.ci_channel.len(),
        {
            if self.ci_channel.len() == 0 {
                break ;
            }
            let ghost pre_ci = self@.ci_channel;
            let p = self.ci_channel.remove(0);
            proof {
                assert(pre_ci[0] == s[j]);
                assert(p == s[j]);
                assert(self@.ci_channel =~= s.skip(j + 1));
                assert(s.take(j + 1) =~= s.take(j).push(s[j]));
            }
            if p.0 == conn_id {
                proof {
                    lemma_ci_idx_unique(s, j);
                    assert(ci_has(s.take(j + 1), conn_id)) by {
                        assert(s.take(j + 1)[j] == s[j]);
                    }
                }
                out = Some(p.1);
            } else {
                kept.push(p);
                proof {
                    assert(ci_has(s.take(j + 1), conn_id) == ci_has(s.take(j), conn_id)) by {
                        if ci_has(s.take(j + 1), conn_id) {
                            let w = choose|w: int|
                                0 <= w < s.take(j + 1).len() && (#[trigger] s.take(j + 1)[w]).0
                                    == conn_id;
                            assert(w != j);
                            assert(s.take(j)[w] == s.take(j + 1)[w]);
                        } else {
                            if ci_has(s.take(j), conn_id) {
                                let w = choose|w: int|
                                    0 <= w < s.take(j).len() && (#[trigger] s.take(j)[w]).0
                                        == conn_id;
                                assert(s.take(j + 1)[w] == s.take(j)[w]);
                            }
                        }
                    }
                }
            }
            proof {
                assert(ci_removed(s.take(j + 1), conn_id) == if (ci_ne::<C>(conn_id))(s[j]) {
                    ci_removed(s.take(j), conn_id).push(s[j])
                } else {
                    ci_removed(s.take(j), conn_id)
                });
                j = j + 1;
            }
        }
        proof {
            assert(j == s.len());
            assert(s.take(j) =~= s);
            lemma_filter_key_unique(s, ci_ne::<C>(conn_id), |p: (u64, C)| p.0);
        }
        self.ci_channel = kept;
        out
    }
}

/// Filtering the empty sequence yields the empty sequence.
proof fn lemma_filter_empty<A>(pred: spec_fn(A) -> bool)
    ensures
        Seq::<A>::empty().filter(pred) == Seq::<A>::empty(),
{
    reveal(Seq::filter);
}


/// Whether event `e` is `LostPeer(uid)`.
pub open spec fn is_lost_peer(e: EventV, uid: u64) -> bool {
    match e {
        EventV::LostPeer(u) => u == uid,
        _ => false,
    }
}

/// How many `LostPeer(uid)` events the log holds.
pub open spec fn lost_count(es: Seq<EventV>, uid: u64) -> nat
    decreases es.len(),
{
    if es.len() == 0 {
        0
    } else {
        lost_count(es.drop_last(), uid) + if is_lost_peer(es.last(), uid) {
            1nat
        } else {
            0nat
        }
    }
}

/// 1 for an already-emitted flag, 0 otherwise.
pub open spec fn flag_count(b: bool) -> int {
    if b {
        1
    } else {
        0
    }
}

/// Appending one event raises the loss count by one exactly when the
/// event is `LostPeer(uid)`.
pub proof fn lemma_lost_count_push(es: Seq<EventV>, e: EventV, uid: u64)
    ensures
        lost_count(es.push(e), uid) == lost_count(es, uid) + if is_lost_peer(e, uid) {
            1int
        } else {
            0
        },
{
    assert(es.push(e).drop_last() =~= es);
    assert(es.push(e).last() == e);
}

/// A relay task's termination effect on the registry: the task's entry
/// is removed (firing its notifier if it was present), a `LostPeer`
/// event is appended unless the task had already emitted one, and the
/// task is marked finished with its loss event accounted for.
pub open spec fn finalized<C>(
    pre: ConnectionMapV<C>,
    post: ConnectionMapV<C>,
    t0: RelayTask,
    t1: RelayTask,
) -> bool {
    &&& post.peers == removed(pre.peers, t0.uid)
    &&& post.ci_channel == pre.ci_channel
    &&& post.next_instance == pre.next_instance
    &&& post.fired == if has_uid(pre.peers, t0.uid) {
        pre.fired.push(entry_of(pre.peers, t0.uid).instance)
    } else {
        pre.fired
    }
    &&& post.events == if t0.lost_emitted {
        pre.events
    } else {
        pre.events.push(EventV::LostPeer(t0.uid))
    }
    &&& t1 == (RelayTask { finished: true, lost_emitted: true, ..t0 })
}

impl<C> ConnectionMap<C> {
    /// Marks the task finished, emitting its `LostPeer` event unless one
    /// was already emitted for this connection instance.
    fn finalize_task(&mut self, task: &mut RelayTask)
        ensures
            final(self)@ == (ConnectionMapV {
                events: if old(task).lost_emitted {
                    old(self)@.events
                } else {
                    old(self)@.events.push(EventV::LostPeer(old(task).uid))
                },
                ..old(self)@
            }),
            *final(task) == (RelayTask { finished: true, lost_emitted: true, ..*old(task) }),
    {
        broadcast use vstd::prelude::Seq::group_seq_extra;

        if !task.lost_emitted {
            self.events.push(Event::LostPeer(task.uid));
            proof {
                assert(self@.events =~= old(self)@.events.push(EventV::LostPeer(old(task).uid)));
                assert(self@ =~= ConnectionMapV {
                    events: old(self)@.events.push(EventV::LostPeer(old(task).uid)),
                    ..old(self)@
                });
            }
            task.lost_emitted = true;
        }
        task.finished = true;
    }

    /// Creates the state of a relay task bound to a fresh drop-notifier
    /// instance, for a stream that is driven without a registry entry.
    pub fn new_relay_task(&mut self, uid: u64, kind: CrustUser) -> (t: RelayTask)
        requires
            old(self)@.next_instance < u64::MAX,
        ensures
            t == (RelayTask {
                uid,
                kind,
                instance: old(self)@.next_instance,
                finished: false,
                lost_emitted: false,
            }),
            final(self)@ == (ConnectionMapV {
                next_instance: (old(self)@.next_instance + 1) as u64,
                ..old(self)@
            }),
            old(self)@.wf() ==> final(self)@.wf(),
    {
        let instance = self.next_instance;
        self.next_instance = self.next_instance + 1;
        proof {
            assert(self@ =~= ConnectionMapV {
                next_instance: (old(self)@.next_instance + 1) as u64,
                ..old(self)@
            });
        }
        RelayTask { uid, kind, instance, finished: false, lost_emitted: false }
    }

    /// One step of the relay task bound to `stream`: the decisions of the
    /// background task that drains one connection into the event log.
    ///
    /// A finished task does nothing.  A task whose drop-notifier has
    /// fired terminates: it removes its identity's entry and finalizes.
    /// Otherwise the stream is polled once at `now`: a payload is
    /// relayed as `NewMessage(uid, kind, payload)`; not-ready leaves
    /// everything unchanged; end-of-stream or any error (inactivity
    /// timeout included) removes the entry and finalizes.  Finalization
    /// appends `LostPeer(uid)` exactly once over the task's lifetime:
    /// the loss count moves exactly with the task's `lost_emitted` flag.
    pub fn relay_step(&mut self, task: &mut RelayTask, stream: &mut Peer, now: u64)
        requires
            old(self)@.wf(),
            old(stream)@.wf(),
            now <= MAX_TIME_MS,
            now >= old(stream)@.last_send_time,
        ensures
            final(self)@.wf(),
            lost_count(final(self)@.events, old(task).uid) - lost_count(
                old(self)@.events,
                old(task).uid,
            ) == flag_count(final(task).lost_emitted) - flag_count(old(task).lost_emitted),
            old(task).finished ==> final(self)@ == old(self)@ && *final(task) == *old(task)
                && final(stream)@ == old(stream)@,
            !old(task).finished && old(self)@.fired.contains(old(task).instance)
                ==> final(stream)@ == old(stream)@
                && finalized(old(self)@, final(self)@, *old(task), *final(task)),
            !old(task).finished && !old(self)@.fired.contains(old(task).instance)
                ==> final(stream)@ == poll_post(old(stream)@, now)
                && final(stream)@.wf() && (match poll_result(
                old(stream)@,
                now,
            ) {
                Ok(PeerPollV::Payload(d)) => final(self)@ == (ConnectionMapV {
                    events: old(self)@.events.push(
                        EventV::NewMessage(old(task).uid, old(task).kind, d),
                    ),
                    ..old(self)@
                }) && *final(task) == *old(task),
                Ok(PeerPollV::NotReady) => final(self)@ == old(self)@
                    && *final(task) == *old(task),
                Ok(PeerPollV::End) => finalized(old(self)@, final(self)@, *old(task), *final(task)),
                Err(_) => finalized(old(self)@, final(self)@, *old(task), *final(task)),
            }),
    {
        broadcast use vstd::prelude::Seq::group_seq_extra;

        if task.finished {
            return ;
        }
        let ghost m0 = self@;
        let ghost t0 = *task;
        if contains_instance(&self.fired, task.instance) {
            let _ = self.remove(task.uid);
            self.finalize_task(task);
            proof {
                assert(finalized(m0, self@, t0, *task));
                if !t0.lost_emitted {
                    lemma_lost_count_push(m0.events, EventV::LostPeer(t0.uid), t0.uid);
                }
            }
            return ;
        }
        match stream.poll(now) {
            Ok(PeerPoll::Payload(d)) => {
                self.events.push(Event::NewMessage(task.uid, task.kind, d));
                proof {
                    assert(self@.events =~= m0.events.push(
                        EventV::NewMessage(t0.uid, t0.kind, d@),
                    ));
                    assert(self@ =~= ConnectionMapV {
                        events: m0.events.push(EventV::NewMessage(t0.uid, t0.kind, d@)),
                        ..m0
                    });
                    lemma_lost_count_push(
                        m0.events,
                        EventV::NewMessage(t0.uid, t0.kind, d@),
                        t0.uid,
                    );
                }
            },
            Ok(PeerPoll::NotReady) => {},
            Ok(PeerPoll::End) => {
                let _ = self.remove(task.uid);
                self.finalize_task(task);
                proof {
                    assert(finalized(m0, self@, t0, *task));
                    if !t0.lost_emitted {
                        lemma_lost_count_push(m0.events, EventV::LostPeer(t0.uid), t0.uid);
                    }
                }
            },
            Err(_) => {
                let _ = self.remove(task.uid);
                self.finalize_task(task);
                proof {
                    assert(finalized(m0, self@, t0, *task));
                    if !t0.lost_emitted {
                        lemma_lost_count_push(m0.events, EventV::LostPeer(t0.uid), t0.uid);
                    }
                }
            },
        }
    }
}

/// Law: at-most-one connection per identity.  After an entry for `e.uid`
/// joins the table, the identity is present, and `insert_peer`'s
/// contract returns `None` and changes nothing exactly when the identity
/// is present — so of any set of insert attempts for one identity, only
/// the first can succeed until the entry is removed again.
pub proof fn lemma_at_most_one_per_identity(s: Seq<PeerEntryV>, e: PeerEntryV)
    ensures
        has_uid(s.push(e), e.uid),
{
    assert(s.push(e)[s.len() as int] == e);
}

/// Law: idempotent removal.  Removal leaves no entry for the identity
/// behind, removing twice equals removing once, and removing an absent
/// identity leaves the table unchanged — with `remove`'s contract
/// (`true` iff the identity was present) this gives `true` then `false`
/// for two removals in a row.
pub proof fn lemma_remove_idempotent(s: Seq<PeerEntryV>, uid: u64)
    ensures
        !has_uid(removed(s, uid), uid),
        removed(removed(s, uid), uid) == removed(s, uid),
        !has_uid(s, uid) ==> removed(s, uid) == s,
{
    broadcast use vstd::seq_lib::group_filter_ensures;

    assert forall|i: int| 0 <= i < removed(s, uid).len() implies (#[trigger] removed(s, uid)[i]).uid
        != uid by {
        assert((ne_uid(uid))(removed(s, uid)[i]));
    }
    lemma_filter_all(removed(s, uid), ne_uid(uid));
    if !has_uid(s, uid) {
        assert forall|i: int| 0 <= i < s.len() implies (ne_uid(uid))(#[trigger] s[i]) by {}
        lemma_filter_all(s, ne_uid(uid));
    }
}

/// The loss count telescopes over any chain of event-log snapshots whose
/// steps each move the count exactly with a task's flag.
proof fn lemma_lost_telescope(logs: Seq<Seq<EventV>>, flags: Seq<bool>, uid: u64)
    requires
        logs.len() == flags.len(),
        logs.len() >= 1,
        forall|i: int|
            0 <= i < logs.len() - 1 ==> lost_count(#[trigger] logs[i + 1], uid) - lost_count(
                logs[i],
                uid,
            ) == flag_count(flags[i + 1]) - flag_count(flags[i]),
    ensures
        lost_count(logs[logs.len() - 1], uid) - lost_count(logs[0], uid) == flag_count(
            flags[flags.len() - 1],
        ) - flag_count(flags[0]),
    decreases logs.len(),
{
    if logs.len() > 1 {
        let l0 = logs.drop_last();
        let f0 = flags.drop_last();
        assert forall|i: int|
            0 <= i < l0.len() - 1 implies lost_count(#[trigger] l0[i + 1], uid) - lost_count(
            l0[i],
            uid,
        ) == flag_count(f0[i + 1]) - flag_count(f0[i]) by {
            assert(l0[i + 1] == logs[i + 1]);
            assert(l0[i] == logs[i]);
            assert(f0[i + 1] == flags[i + 1]);
            assert(f0[i] == flags[i]);
        }
        lemma_lost_telescope(l0, f0, uid);
        assert(lost_count(logs[logs.len() - 2 + 1], uid) - lost_count(logs[logs.len() - 2], uid)
            == flag_count(flags[logs.len() - 2 + 1]) - flag_count(flags[logs.len() - 2]));
        assert(l0[l0.len() - 1] == logs[logs.len() - 2]);
        assert(f0[f0.len() - 1] == flags[flags.len() - 2]);
    }
}

/// Law: exactly-once loss event.  Take any run of a relay task: a chain
/// of event-log snapshots and of the task's `lost_emitted` flag, where
/// every step satisfies the accounting that `relay_step` ensures (the
/// loss count moves exactly with the flag, and every other registry
/// operation leaves the event log unchanged).  If the task starts with
/// the flag down and ends with it up — as it does from creation to
/// termination — then exactly one `LostPeer(uid)` is appended over the
/// whole run.
pub proof fn lemma_lost_peer_exactly_once(logs: Seq<Seq<EventV>>, flags: Seq<bool>, uid: u64)
    requires
        logs.len() == flags.len(),
        logs.len() >= 1,
        !flags[0],
        flags[flags.len() - 1],
        forall|i: int|
            0 <= i < logs.len() - 1 ==> lost_count(#[trigger] logs[i + 1], uid) - lost_count(
                logs[i],
                uid,
            ) == flag_count(flags[i + 1]) - flag_count(flags[i]),
    ensures
        lost_count(logs[logs.len() - 1], uid) == lost_count(logs[0], uid) + 1,
{
    lemma_lost_telescope(logs, flags, uid);
}

} // verus!
