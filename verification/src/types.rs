//! Plain value types shared by the whole library.

use vstd::prelude::*;

verus! {

/// Outbound priority tag attached to each payload; interpreted by the
/// transport's outbound queue and not otherwise constrained here.
pub type Priority = u8;

/// An IP address, held in its numeric form.
#[derive(Clone, Copy, Debug, PartialEq, Eq, Structural)]
pub enum IpAddr {
    V4(u32),
    V6(u128),
}

/// A peer's network address: IP address plus port.
#[derive(Clone, Copy, Debug, PartialEq, Eq, Structural)]
pub struct PaAddr {
    pub ip: IpAddr,
    pub port: u16,
}

/// Which side of the network a peer belongs to, partitioning whitelist
/// checks.
#[derive(Clone, Copy, Debug, PartialEq, Eq, Structural)]
pub enum CrustUser {
    Node,
    Client,
}

/// An event pushed to the registry's event log: either a payload relayed
/// from a peer, or the loss of a peer's connection.
#[derive(Clone, Debug)]
pub enum Event {
    NewMessage(u64, CrustUser, Vec<u8>),
    LostPeer(u64),
}

/// Mathematical model of an [`Event`]: the payload is a sequence of bytes.
pub enum EventV {
    NewMessage(u64, CrustUser, Seq<u8>),
    LostPeer(u64),
}

impl View for Event {
    type V = EventV;

    open spec fn view(&self) -> EventV {
        match self {
            Event::NewMessage(uid, kind, data) => EventV::NewMessage(*uid, *kind, data@),
            Event::LostPeer(uid) => EventV::LostPeer(*uid),
        }
    }
}

} // verus!
