//! An in-memory model of a framed duplex connection.
//!
//! The transport below this library delivers a lazy sequence of frames and
//! accepts `(priority, frame)` pairs with ready/not-ready backpressure.
//! [`Socket`] holds both directions as plain values: a queue of frames
//! already delivered by the remote side, a terminal status for the inbound
//! direction, a record of every frame handed to the outbound direction,
//! and a readiness flag for it.  The remote side of a test or of a driver
//! scripts the connection through the `push_incoming`, `close`, `fail`
//! and `set_send_ready` knobs.

use vstd::prelude::*;

use crate::types::{PaAddr, Priority};

verus! {

/// The wire-level unit exchanged over a connection: application data or a
/// heartbeat.  Heartbeats are never surfaced above [`crate::peer::Peer`].
#[derive(Clone, Debug)]
pub enum Frame {
    Data(Vec<u8>),
    Heartbeat,
}

/// Mathematical model of a [`Frame`].
#[verifier::ext_equal]
pub enum FrameV {
    Data(Seq<u8>),
    Heartbeat,
}

impl View for Frame {
    type V = FrameV;

    open spec fn view(&self) -> FrameV {
        match self {
            Frame::Data(d) => FrameV::Data(d@),
            Frame::Heartbeat => FrameV::Heartbeat,
        }
    }
}

/// A transport-origin failure, fatal to the connection.
#[derive(Clone, Copy, Debug, PartialEq, Eq, Structural)]
pub enum SocketError {
    Destroyed,
    Io,
    Deserialisation,
}

/// The inbound direction's terminal status: still open, ended cleanly, or
/// failed with a transport error.
#[derive(Clone, Copy, Debug, PartialEq, Eq, Structural)]
pub enum SocketStatus {
    Open,
    Ended,
    Failed(SocketError),
}

/// What one poll of the inbound direction yields.
#[derive(Clone, Debug)]
pub enum FramePoll {
    NotReady,
    End,
    Ready(Frame),
    Failed(SocketError),
}

/// The outbound direction's answer to one `start_send`.
#[derive(Clone, Debug)]
pub enum SendStart {
    Ready,
    NotReady(Priority, Frame),
    Failed(SocketError),
}

/// In-memory framed duplex connection endpoint.
pub struct Socket {
    pub addr: PaAddr,
    pub incoming: Vec<Frame>,
    pub status: SocketStatus,
    pub outgoing: Vec<(Priority, Frame)>,
    pub send_ready: bool,
}

/// Mathematical model of a [`Socket`].
#[verifier::ext_equal]
pub struct SocketV {
    pub addr: PaAddr,
    pub incoming: Seq<FrameV>,
    pub status: SocketStatus,
    pub outgoing: Seq<(Priority, FrameV)>,
    pub send_ready: bool,
}

impl View for Socket {
    type V = SocketV;

    open spec fn view(&self) -> SocketV {
        SocketV {
            addr: self.addr,
            incoming: self.incoming@.map_values(|f: Frame| f@),
            status: self.status,
            outgoing: self.outgoing@.map_values(|p: (Priority, Frame)| (p.0, p.1@)),
            send_ready: self.send_ready,
        }
    }
}

impl Socket {
    /// A fresh open connection endpoint with nothing delivered or sent.
    pub fn new(addr: PaAddr) -> (s: Socket)
        ensures
            s@ == (SocketV {
                addr,
                incoming: Seq::<FrameV>::empty(),
                status: SocketStatus::Open,
                outgoing: Seq::<(Priority, FrameV)>::empty(),
                send_ready: true,
            }),
    {
        let s = Socket {
            addr,
            incoming: Vec::new(),
            status: SocketStatus::Open,
            outgoing: Vec::new(),
            send_ready: true,
        };
        proof {
            assert(s@ =~= SocketV {
                addr,
                incoming: Seq::<FrameV>::empty(),
                status: SocketStatus::Open,
                outgoing: Seq::<(Priority, FrameV)>::empty(),
                send_ready: true,
            });
        }
        s
    }

    /// Polls the inbound direction: the next queued frame if any, else the
    /// terminal status decides.
    pub fn poll_frame(&mut self) -> (r: FramePoll)
        ensures
            old(self)@.incoming.len() > 0 ==> (r matches FramePoll::Ready(f) && f@
                == old(self)@.incoming[0]) && final(self)@ == (SocketV {
                incoming: old(self)@.incoming.skip(1),
                ..old(self)@
            }),
            old(self)@.incoming.len() == 0 ==> final(self)@ == old(self)@ && (match old(self)@.status {
                SocketStatus::Open => r is NotReady,
                SocketStatus::Ended => r is End,
                SocketStatus::Failed(e) => r matches FramePoll::Failed(e2) && e2 == e,
            }),
    {
        if self.incoming.len() > 0 {
            let f = self.incoming.remove(0);
            proof {
                assert(self@.incoming =~= old(self)@.incoming.skip(1));
                assert(self@ =~= SocketV { incoming: old(self)@.incoming.skip(1), ..old(self)@ });
            }
            FramePoll::Ready(f)
        } else {
            match self.status {
                SocketStatus::Open => FramePoll::NotReady,
                SocketStatus::Ended => FramePoll::End,
                SocketStatus::Failed(e) => FramePoll::Failed(e),
            }
        }
    }

    /// Hands one frame to the outbound direction; refused with the frame
    /// returned when the transport is not ready, refused with the error
    /// when it has failed.
    pub fn start_send(&mut self, priority: Priority, frame: Frame) -> (r: SendStart)
        ensures
            match old(self)@.status {
                SocketStatus::Failed(e) => (r matches SendStart::Failed(e2) && e2 == e)
                    && final(self)@ == old(self)@,
                _ => {
                    if old(self)@.send_ready {
                        r is Ready && final(self)@ == (SocketV {
                            outgoing: old(self)@.outgoing.push((priority, frame@)),
                            ..old(self)@
                        })
                    } else {
                        (r matches SendStart::NotReady(p, f) && p == priority && f@ == frame@)
                            && final(self)@ == old(self)@
                    }
                },
            },
    {
        match self.status {
            SocketStatus::Failed(e) => SendStart::Failed(e),
            _ => {
                if self.send_ready {
                    let ghost pre = self@;
                    self.outgoing.push((priority, frame));
                    proof {
                        assert(self@.outgoing =~= pre.outgoing.push((priority, frame@)));
                        assert(self@ =~= SocketV {
                            outgoing: pre.outgoing.push((priority, frame@)),
                            ..pre
                        });
                    }
                    SendStart::Ready
                } else {
                    SendStart::NotReady(priority, frame)
                }
            },
        }
    }

    /// Flushes the outbound direction; in this model flushing completes at
    /// once unless the transport has failed.
    pub fn poll_complete(&mut self) -> (r: Result<(), SocketError>)
        ensures
            final(self)@ == old(self)@,
            match old(self)@.status {
                SocketStatus::Failed(e) => r == Err::<(), SocketError>(e),
                _ => r is Ok,
            },
    {
        match self.status {
            SocketStatus::Failed(e) => Err(e),
            _ => Ok(()),
        }
    }

    /// The remote peer's address, unavailable once the transport is
    /// destroyed.
    pub fn peer_addr(&self) -> (r: Result<PaAddr, SocketError>)
        ensures
            self@.status == SocketStatus::Failed(SocketError::Destroyed) ==> r == Err::<
                PaAddr,
                SocketError,
            >(SocketError::Destroyed),
            self@.status != SocketStatus::Failed(SocketError::Destroyed) ==> r == Ok::<
                PaAddr,
                SocketError,
            >(self@.addr),
    {
        match self.status {
            SocketStatus::Failed(SocketError::Destroyed) => Err(SocketError::Destroyed),
            _ => Ok(self.addr),
        }
    }

    /// Remote-side knob: one more frame arrives.
    pub fn push_incoming(&mut self, frame: Frame)
        ensures
            final(self)@ == (SocketV { incoming: old(self)@.incoming.push(frame@), ..old(self)@ }),
    {
        let ghost pre = self@;
        self.incoming.push(frame);
        proof {
            assert(self@.incoming =~= pre.incoming.push(frame@));
            assert(self@ =~= SocketV { incoming: pre.incoming.push(frame@), ..pre });
        }
    }

    /// Remote-side knob: the inbound direction ends cleanly.
    pub fn close(&mut self)
        ensures
            final(self)@ == (SocketV { status: SocketStatus::Ended, ..old(self)@ }),
    {
        self.status = SocketStatus::Ended;
    }

    /// Remote-side knob: the transport fails with `e`.
    pub fn fail(&mut self, e: SocketError)
        ensures
            final(self)@ == (SocketV { status: SocketStatus::Failed(e), ..old(self)@ }),
    {
        self.status = SocketStatus::Failed(e);
    }

    /// Remote-side knob: outbound backpressure on or off.
    pub fn set_send_ready(&mut self, ready: bool)
        ensures
            final(self)@ == (SocketV { send_ready: ready, ..old(self)@ }),
    {
        self.send_ready = ready;
    }
}

} // verus!
