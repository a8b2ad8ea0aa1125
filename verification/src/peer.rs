//! A connection to a remote peer, with transparent heartbeating and
//! inactivity-based failure detection.
//!
//! [`Peer`] wraps a framed duplex [`Socket`] and exposes a payload-only
//! duplex interface.  Polling it drains the send-heartbeat timer
//! (best-effort enqueueing a heartbeat frame when one is due), consumes
//! inbound frames up to and including the first data frame (every frame,
//! data or heartbeat, resets the inactivity deadline; heartbeats are
//! discarded), and synthesizes [`PeerError::InactivityTimeout`] once no
//! frame of any kind has arrived within the inactivity period.
//!
//! The whole behaviour of a poll is pinned down by the transition
//! functions [`poll_post`] (the state after the call) and [`poll_result`]
//! (what the call yields).  Time is a monotone `u64` millisecond count
//! handed in by the caller.

use vstd::prelude::*;

use crate::socket::{Frame, FramePoll, FrameV, SendStart, Socket, SocketError, SocketStatus, SocketV};
use crate::timer::Timeout;
use crate::types::{CrustUser, IpAddr, PaAddr, Priority};

verus! {

/// Default receive-inactivity window, in milliseconds.
pub const INACTIVITY_TIMEOUT_MS: u64 = 120_000;

/// Default heartbeat cadence, in milliseconds; materially smaller than the
/// inactivity window so that a few missed heartbeats do not spuriously
/// fail a connection.
pub const HEARTBEAT_PERIOD_MS: u64 = 20_000;

/// Upper bound accepted for clock values and periods, so that deadline
/// arithmetic never overflows a `u64`.
pub const MAX_TIME_MS: u64 = 0x1000_0000_0000_0000;

/// Heartbeat frames are enqueued at the lowest priority.
pub const HEARTBEAT_PRIORITY: Priority = 0;

/// An error out of a peer's stream or sink.  The first three originate in
/// the transport and are passed through unchanged; `InactivityTimeout` is
/// synthesized by [`Peer`] alone.
#[derive(Clone, Copy, Debug, PartialEq, Eq, Structural)]
pub enum PeerError {
    Destroyed,
    Io,
    Deserialisation,
    InactivityTimeout,
}

/// The peer-level error that passes a transport failure through unchanged.
pub open spec fn peer_error_of(e: SocketError) -> PeerError {
    match e {
        SocketError::Destroyed => PeerError::Destroyed,
        SocketError::Io => PeerError::Io,
        SocketError::Deserialisation => PeerError::Deserialisation,
    }
}

impl From<SocketError> for PeerError {
    fn from(e: SocketError) -> (r: PeerError) {
        match e {
            SocketError::Destroyed => PeerError::Destroyed,
            SocketError::Io => PeerError::Io,
            SocketError::Deserialisation => PeerError::Deserialisation,
        }
    }
}

impl vstd::std_specs::convert::FromSpecImpl<SocketError> for PeerError {
    open spec fn obeys_from_spec() -> bool {
        true
    }

    open spec fn from_spec(e: SocketError) -> PeerError {
        peer_error_of(e)
    }
}

/// What one poll of the payload stream yields: not ready, clean
/// end-of-stream, or one payload.
#[derive(Clone, Debug)]
pub enum PeerPoll {
    NotReady,
    End,
    Payload(Vec<u8>),
}

/// Mathematical model of a [`PeerPoll`].
#[verifier::ext_equal]
pub enum PeerPollV {
    NotReady,
    End,
    Payload(Seq<u8>),
}

/// The sink's answer to one `start_send`: accepted, or the payload handed
/// back because the transport is not ready.
#[derive(Clone, Debug)]
pub enum SinkStart {
    Ready,
    NotReady(Priority, Vec<u8>),
}

/// A connection to a remote peer.
pub struct Peer {
    pub their_uid: u64,
    pub kind: CrustUser,
    pub socket: Socket,
    pub last_send_time: u64,
    pub send_heartbeat_timeout: Timeout,
    pub recv_heartbeat_timeout: Timeout,
    pub heartbeat_period: u64,
    pub inactivity_period: u64,
    pub heartbeats_enabled: bool,
}

/// Mathematical model of a [`Peer`]: the timers appear as their deadlines.
#[verifier::ext_equal]
pub struct PeerV {
    pub their_uid: u64,
    pub kind: CrustUser,
    pub socket: SocketV,
    pub last_send_time: u64,
    pub send_deadline: u64,
    pub recv_deadline: u64,
    pub heartbeat_period: u64,
    pub inactivity_period: u64,
    pub heartbeats_enabled: bool,
}

impl View for Peer {
    type V = PeerV;

    open spec fn view(&self) -> PeerV {
        PeerV {
            their_uid: self.their_uid,
            kind: self.kind,
            socket: self.socket@,
            last_send_time: self.last_send_time,
            send_deadline: self.send_heartbeat_timeout.deadline,
            recv_deadline: self.recv_heartbeat_timeout.deadline,
            heartbeat_period: self.heartbeat_period,
            inactivity_period: self.inactivity_period,
            heartbeats_enabled: self.heartbeats_enabled,
        }
    }
}

impl PeerV {
    /// Well-formedness: periods are positive and all time values stay
    /// small enough for deadline arithmetic.
    pub open spec fn wf(self) -> bool {
        &&& 1 <= self.heartbeat_period <= MAX_TIME_MS
        &&& 1 <= self.inactivity_period <= MAX_TIME_MS
        &&& self.last_send_time <= MAX_TIME_MS
    }
}

/// Whether a heartbeat handed to the outbound direction lands in it.
pub open spec fn socket_can_send(s: SocketV) -> bool {
    !(s.status is Failed) && s.send_ready
}

/// The payload of a data frame; empty for a heartbeat.
pub open spec fn frame_payload(f: FrameV) -> Seq<u8> {
    match f {
        FrameV::Data(d) => d,
        FrameV::Heartbeat => Seq::empty(),
    }
}

/// Length of the maximal all-heartbeat prefix of `s`: how many frames a
/// poll discards before the first data frame.
pub open spec fn hb_prefix_len(s: Seq<FrameV>) -> nat
    decreases s.len(),
{
    if s.len() == 0 {
        0
    } else if s[0] is Heartbeat {
        1 + hb_prefix_len(s.skip(1))
    } else {
        0
    }
}

/// The state after the heartbeat phase of a poll at `now`: when the
/// send-heartbeat timer has elapsed and a full period has passed since the
/// last send, a heartbeat is best-effort enqueued and the last-send
/// instant moves to `now`; either way the timer is reset to one period
/// after the last send.
pub open spec fn hb_phase(p: PeerV, now: u64) -> PeerV {
    if p.heartbeats_enabled && now >= p.send_deadline {
        if now - p.last_send_time >= p.heartbeat_period {
            let out = if socket_can_send(p.socket) {
                p.socket.outgoing.push((HEARTBEAT_PRIORITY, FrameV::Heartbeat))
            } else {
                p.socket.outgoing
            };
            PeerV {
                last_send_time: now,
                send_deadline: (now + p.heartbeat_period) as u64,
                socket: SocketV { outgoing: out, ..p.socket },
                ..p
            }
        } else {
            PeerV { send_deadline: (p.last_send_time + p.heartbeat_period) as u64, ..p }
        }
    } else {
        p
    }
}

/// The peer's state after one poll at `now`: the heartbeat phase runs,
/// then the inbound queue is consumed up to and including the first data
/// frame, and the inactivity deadline is reset to `now` plus the
/// inactivity period whenever at least one frame was consumed.
pub open spec fn poll_post(p: PeerV, now: u64) -> PeerV {
    let p1 = hb_phase(p, now);
    let s = p1.socket.incoming;
    let k = hb_prefix_len(s) as int;
    let consumed = if k < s.len() {
        k + 1
    } else {
        k
    };
    let deadline = if consumed > 0 {
        (now + p.inactivity_period) as u64
    } else {
        p.recv_deadline
    };
    PeerV {
        recv_deadline: deadline,
        socket: SocketV { incoming: s.skip(consumed), ..p1.socket },
        ..p1
    }
}

/// What one poll at `now` yields: the first data frame's payload when one
/// is queued; otherwise end-of-stream or the transport's failure when the
/// inbound direction has terminated; otherwise `InactivityTimeout` when no
/// frame at all was consumed and the inactivity deadline has elapsed; and
/// not-ready in every remaining case.
pub open spec fn poll_result(p: PeerV, now: u64) -> Result<PeerPollV, PeerError> {
    let p1 = hb_phase(p, now);
    let s = p1.socket.incoming;
    let k = hb_prefix_len(s) as int;
    if k < s.len() {
        Ok(PeerPollV::Payload(frame_payload(s[k])))
    } else {
        match p.socket.status {
            SocketStatus::Failed(e) => Err(peer_error_of(e)),
            SocketStatus::Ended => Ok(PeerPollV::End),
            SocketStatus::Open => {
                if k == 0 && now >= p.recv_deadline {
                    Err(PeerError::InactivityTimeout)
                } else {
                    Ok(PeerPollV::NotReady)
                }
            },
        }
    }
}

/// Mathematical model of a poll's return value.
pub open spec fn peer_poll_view(r: Result<PeerPoll, PeerError>) -> Result<PeerPollV, PeerError> {
    match r {
        Ok(PeerPoll::NotReady) => Ok(PeerPollV::NotReady),
        Ok(PeerPoll::End) => Ok(PeerPollV::End),
        Ok(PeerPoll::Payload(d)) => Ok(PeerPollV::Payload(d@)),
        Err(e) => Err(e),
    }
}

/// If the first `j` frames of `s` are heartbeats and frame `j` (when there
/// is one) is not, the maximal heartbeat prefix has length exactly `j`.
proof fn lemma_hb_prefix_at(s: Seq<FrameV>, j: int)
    requires
        0 <= j <= s.len(),
        forall|t: int| 0 <= t < j ==> s[t] is Heartbeat,
        j < s.len() ==> !(s[j] is Heartbeat),
    ensures
        hb_prefix_len(s) == j,
    decreases j,
{
    if j == 0 {
    } else {
        assert(s[0] is Heartbeat);
        let s1 = s.skip(1);
        assert forall|t: int| 0 <= t < j - 1 implies s1[t] is Heartbeat by {
            assert(s1[t] == s[t + 1]);
        }
        if j - 1 < s1.len() {
            assert(s1[j - 1] == s[j]);
        }
        lemma_hb_prefix_at(s1, j - 1);
    }
}

/// Constructs a [`Peer`] from a socket once the initial handshake has
/// completed, with both timers armed relative to `now`.
pub fn from_handshaken_socket(socket: Socket, their_uid: u64, kind: CrustUser, now: u64) -> (p:
    Peer)
    requires
        now <= MAX_TIME_MS,
    ensures
        p@ == (PeerV {
            their_uid,
            kind,
            socket: socket@,
            last_send_time: now,
            send_deadline: (now + HEARTBEAT_PERIOD_MS) as u64,
            recv_deadline: (now + INACTIVITY_TIMEOUT_MS) as u64,
            heartbeat_period: HEARTBEAT_PERIOD_MS,
            inactivity_period: INACTIVITY_TIMEOUT_MS,
            heartbeats_enabled: true,
        }),
        p@.wf(),
{
    Peer {
        socket,
        their_uid,
        kind,
        last_send_time: now,
        send_heartbeat_timeout: Timeout::new_at(now + HEARTBEAT_PERIOD_MS),
        recv_heartbeat_timeout: Timeout::new_at(now + INACTIVITY_TIMEOUT_MS),
        heartbeat_period: HEARTBEAT_PERIOD_MS,
        inactivity_period: INACTIVITY_TIMEOUT_MS,
        heartbeats_enabled: true,
    }
}

impl Peer {
    /// The remote peer's address.
    pub fn addr(&self) -> (r: Result<PaAddr, PeerError>)
        ensures
            self@.socket.status == SocketStatus::Failed(SocketError::Destroyed) ==> r == Err::<
                PaAddr,
                PeerError,
            >(PeerError::Destroyed),
            self@.socket.status != SocketStatus::Failed(SocketError::Destroyed) ==> r == Ok::<
                PaAddr,
                PeerError,
            >(self@.socket.addr),
    {
        match self.socket.peer_addr() {
            Ok(a) => Ok(a),
            Err(e) => Err(PeerError::from(e)),
        }
    }

    /// The remote peer's identity.
    pub fn uid(&self) -> (r: u64)
        ensures
            r == self@.their_uid,
    {
        self.their_uid
    }

    /// Which side of the network the remote peer belongs to.
    pub fn kind(&self) -> (r: CrustUser)
        ensures
            r == self@.kind,
    {
        self.kind
    }

    /// The remote peer's IP address.
    pub fn ip(&self) -> (r: Result<IpAddr, PeerError>)
        ensures
            self@.socket.status == SocketStatus::Failed(SocketError::Destroyed) ==> r == Err::<
                IpAddr,
                PeerError,
            >(PeerError::Destroyed),
            self@.socket.status != SocketStatus::Failed(SocketError::Destroyed) ==> r == Ok::<
                IpAddr,
                PeerError,
            >(self@.socket.addr.ip),
    {
        match self.socket.peer_addr() {
            Ok(a) => Ok(a.ip),
            Err(e) => Err(PeerError::from(e)),
        }
    }

    /// Narrows the receive-inactivity window to `ms`, rearming the
    /// deadline relative to `now`.
    pub fn set_inactivity_timeout(&mut self, ms: u64, now: u64)
        requires
            old(self)@.wf(),
            1 <= ms <= MAX_TIME_MS,
            now <= MAX_TIME_MS,
        ensures
            final(self)@ == (PeerV {
                inactivity_period: ms,
                recv_deadline: (now + ms) as u64,
                ..old(self)@
            }),
            final(self)@.wf(),
    {
        self.inactivity_period = ms;
        self.recv_heartbeat_timeout.reset(now + ms);
    }

    /// Switches outbound heartbeating off; inactivity detection stays on.
    pub fn disable_heartbeats(&mut self)
        ensures
            final(self)@ == (PeerV { heartbeats_enabled: false, ..old(self)@ }),
    {
        self.heartbeats_enabled = false;
    }

    /// One poll of the payload stream at instant `now`.  The state moves
    /// to [`poll_post`] and the call yields [`poll_result`]: heartbeats
    /// are consumed silently (each one proving liveness), at most one
    /// payload is yielded, and `InactivityTimeout` is synthesized once
    /// nothing at all has arrived within the inactivity period.
    #[verifier::loop_isolation(false)]
    pub fn poll(&mut self, now: u64) -> (r: Result<PeerPoll, PeerError>)
        requires
            old(self)@.wf(),
            now <= MAX_TIME_MS,
            now >= old(self)@.last_send_time,
        ensures
            final(self)@ == poll_post(old(self)@, now),
            final(self)@.wf(),
            peer_poll_view(r) == poll_result(old(self)@, now),
    {
        let ghost p0 = self@;
        if self.heartbeats_enabled && self.send_heartbeat_timeout.poll_elapsed(now) {
            if now - self.last_send_time >= self.heartbeat_period {
                self.last_send_time = now;
                let _ = self.socket.start_send(HEARTBEAT_PRIORITY, Frame::Heartbeat);
            }
            let deadline = self.last_send_time + self.heartbeat_period;
            self.send_heartbeat_timeout.reset(deadline);
        }
        proof {
            assert(self@ =~= hb_phase(p0, now));
        }
        let ghost p1 = self@;
        let ghost s = p1.socket.incoming;
        let ghost mut j: int = 0;
        loop
            invariant
                0 <= j <= s.len(),
                self@.socket.incoming == s.skip(j),
                forall|t: int| 0 <= t < j ==> s[t] is Heartbeat,
                self@ == (PeerV {
                    recv_deadline: self@.recv_deadline,
                    socket: SocketV { incoming: s.skip(j), ..p1.socket },
                    ..p1
                }),
                j > 0 ==> self@.recv_deadline == (now + p0.inactivity_period) as u64,
                j == 0 ==> self@.recv_deadline == p1.recv_deadline,
            decreases self.socket.incoming.len(),
        {
            match self.socket.poll_frame() {
                FramePoll::Ready(f) => {
                    proof {
                        assert(f@ == s[j]);
                        assert(self@.socket.incoming =~= s.skip(j + 1));
                        j = j + 1;
                    }
                    self.recv_heartbeat_timeout.reset(now + self.inactivity_period);
                    match f {
                        Frame::Data(d) => {
                            proof {
                                lemma_hb_prefix_at(s, j - 1);
                                assert(self@ =~= poll_post(p0, now));
                            }
                            return Ok(PeerPoll::Payload(d));
                        },
                        Frame::Heartbeat => {},
                    }
                },
                FramePoll::End => {
                    proof {
                        lemma_hb_prefix_at(s, j);
                        assert(self@ =~= poll_post(p0, now));
                    }
                    return Ok(PeerPoll::End);
                },
                FramePoll::Failed(e) => {
                    proof {
                        lemma_hb_prefix_at(s, j);
                        assert(self@ =~= poll_post(p0, now));
                    }
                    return Err(PeerError::from(e));
                },
                FramePoll::NotReady => {
                    proof {
                        lemma_hb_prefix_at(s, j);
                        assert(self@ =~= poll_post(p0, now));
                    }
                    break ;
                },
            }
        }
        if self.recv_heartbeat_timeout.poll_elapsed(now) {
            return Err(PeerError::InactivityTimeout);
        }
        Ok(PeerPoll::NotReady)
    }

    /// Wraps `data` as a data frame and forwards it to the connection.  On
    /// success the last-send instant moves to `now`, naturally suppressing
    /// the next heartbeat; when the transport is not ready the payload
    /// comes back to the caller for retry.
    pub fn start_send(&mut self, priority: Priority, data: Vec<u8>, now: u64) -> (r: Result<
        SinkStart,
        PeerError,
    >)
        requires
            old(self)@.wf(),
            now <= MAX_TIME_MS,
        ensures
            final(self)@.wf(),
            match old(self)@.socket.status {
                SocketStatus::Failed(e) => (r matches Err(e2) && e2 == peer_error_of(e))
                    && final(self)@ == old(self)@,
                _ => {
                    if old(self)@.socket.send_ready {
                        (r matches Ok(SinkStart::Ready)) && final(self)@ == (PeerV {
                            last_send_time: now,
                            socket: SocketV {
                                outgoing: old(self)@.socket.outgoing.push(
                                    (priority, FrameV::Data(data@)),
                                ),
                                ..old(self)@.socket
                            },
                            ..old(self)@
                        })
                    } else {
                        (r matches Ok(SinkStart::NotReady(p, d)) && p == priority && d@ == data@)
                            && final(self)@ == old(self)@
                    }
                },
            },
    {
        match self.socket.start_send(priority, Frame::Data(data)) {
            SendStart::Failed(e) => Err(PeerError::from(e)),
            SendStart::Ready => {
                self.last_send_time = now;
                Ok(SinkStart::Ready)
            },
            SendStart::NotReady(p, f) => {
                match f {
                    Frame::Data(d) => Ok(SinkStart::NotReady(p, d)),
                    Frame::Heartbeat => {
                        proof {
                            assert(false);
                        }
                        Ok(SinkStart::Ready)
                    },
                }
            },
        }
    }

    /// Flushes the connection, propagating its transport failures
    /// unchanged.
    pub fn poll_complete(&mut self) -> (r: Result<(), PeerError>)
        ensures
            final(self)@ == old(self)@,
            match old(self)@.socket.status {
                SocketStatus::Failed(e) => r == Err::<(), PeerError>(peer_error_of(e)),
                _ => r is Ok,
            },
    {
        match self.socket.poll_complete() {
            Ok(u) => Ok(u),
            Err(e) => Err(PeerError::from(e)),
        }
    }
}

} // verus!
