//! Liveness and lifecycle management for peer-to-peer connections.
//!
//! A [`peer::Peer`] wraps a framed duplex connection and exposes a
//! payload-only duplex interface with automatic heartbeating and
//! inactivity-based failure detection.  A
//! [`connection_map::ConnectionMap`] tracks all live connections keyed by
//! peer identity, relays their inbound traffic into an event log, and
//! guarantees at most one connection per identity and exactly one
//! `LostPeer` event per connection lifetime.

pub mod connection_map;
pub mod peer;
pub mod socket;
pub mod timer;
pub mod types;
