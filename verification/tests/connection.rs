use crust::connection_map::{ConnectionMap, CrustError};
use crust::peer::{from_handshaken_socket, Peer, PeerError, PeerPoll, SinkStart};
use crust::socket::{Frame, Socket, SocketError};
use crust::types::{CrustUser, Event, IpAddr, PaAddr};

fn tcp_addr_zero() -> PaAddr {
    // "0.0.0.0:0"
    PaAddr { ip: IpAddr::V4(0), port: 0 }
}

fn echo_peer(uid: u64, heartbeats_enabled: bool) -> Peer {
    let socket = Socket::new(tcp_addr_zero());
    let mut peer = from_handshaken_socket(socket, uid, CrustUser::Client, 0);
    if !heartbeats_enabled {
        peer.disable_heartbeats();
    }
    peer.set_inactivity_timeout(900, 0);
    peer
}

#[test]
fn it_emits_message_events_for_received_data() {
    let mut peer = echo_peer(17, true);
    let peer_uid = peer.uid();
    let mut conn_map: ConnectionMap<u32> = ConnectionMap::new();
    let mut task = conn_map.new_relay_task(peer_uid, CrustUser::Client);

    // Send (1, b"data1") through the sink; the echo stream hands the same
    // frame back on the inbound side.
    let sent = peer.start_send(1, b"data1".to_vec(), 0).unwrap();
    assert!(matches!(sent, SinkStart::Ready));
    let (priority, frame) = peer.socket.outgoing[0].clone();
    assert_eq!(priority, 1);
    peer.socket.push_incoming(frame);

    conn_map.relay_step(&mut task, &mut peer, 100);

    let msg = conn_map.events[0].clone();
    match msg {
        Event::NewMessage(_, _, data) => {
            assert_eq!(data.len(), 5);
            assert_eq!(&data[..5], &b"data1"[..5]);
        }
        event => panic!("Unexpected event: {:?}", event),
    }
}

#[test]
fn it_emits_lost_peer_event() {
    let mut peer = echo_peer(18, false);
    let peer_uid = peer.uid();
    let mut conn_map: ConnectionMap<u32> = ConnectionMap::new();
    let mut task = conn_map.new_relay_task(peer_uid, CrustUser::Client);

    // No frame of any kind arrives; after 2 s the 900 ms inactivity
    // window has long elapsed.
    conn_map.relay_step(&mut task, &mut peer, 2000);

    let msg = conn_map.events[0].clone();
    match msg {
        Event::LostPeer(uid) => {
            assert_eq!(uid, peer_uid);
        }
        event => panic!("Unexpected event: {:?}", event),
    }
}

#[test]
fn it_removes_connection_from_map() {
    let mut peer = echo_peer(19, false);
    let peer_uid = peer.uid();
    let mut conn_map: ConnectionMap<u32> = ConnectionMap::new();

    let task = conn_map.insert_peer(&peer, tcp_addr_zero());
    assert!(task.is_some());
    let mut task = task.unwrap();
    assert!(conn_map.contains_peer(peer_uid));

    // Run the relay so that the inactivity timeout kicks in.
    conn_map.relay_step(&mut task, &mut peer, 2000);

    assert!(!conn_map.contains_peer(peer_uid));
}

#[test]
fn at_most_one_connection_per_identity() {
    let peer_a = echo_peer(7, true);
    let peer_b = echo_peer(7, true);
    let mut conn_map: ConnectionMap<u32> = ConnectionMap::new();

    assert!(conn_map.insert_peer(&peer_a, tcp_addr_zero()).is_some());
    assert!(conn_map.insert_peer(&peer_b, tcp_addr_zero()).is_none());
    assert!(conn_map.contains_peer(7));

    assert!(conn_map.remove(7));
    assert!(!conn_map.contains_peer(7));
    assert!(conn_map.insert_peer(&peer_b, tcp_addr_zero()).is_some());
}

#[test]
fn removal_is_idempotent() {
    let peer = echo_peer(5, true);
    let mut conn_map: ConnectionMap<u32> = ConnectionMap::new();

    assert!(!conn_map.remove(5));
    assert!(conn_map.insert_peer(&peer, tcp_addr_zero()).is_some());
    assert!(conn_map.remove(5));
    assert!(!conn_map.remove(5));
    assert!(!conn_map.contains_peer(5));
}

#[test]
fn heartbeat_frames_are_transparent() {
    let mut peer = echo_peer(11, false);

    // A heartbeat arrives before the 900 ms deadline: it is consumed
    // silently and proves liveness.
    peer.socket.push_incoming(Frame::Heartbeat);
    let polled = peer.poll(800).unwrap();
    assert!(matches!(polled, PeerPoll::NotReady));

    // The deadline moved to 800 + 900 = 1700: at 1000 the stream is
    // still alive, with no payload ever surfaced.
    let polled = peer.poll(1000).unwrap();
    assert!(matches!(polled, PeerPoll::NotReady));

    // Silence past the new deadline fails the stream.
    let err = peer.poll(1800).unwrap_err();
    assert_eq!(err, PeerError::InactivityTimeout);
}

#[test]
fn inactivity_timeout_at_threshold() {
    let mut peer = echo_peer(12, false);

    let polled = peer.poll(899).unwrap();
    assert!(matches!(polled, PeerPoll::NotReady));
    let err = peer.poll(900).unwrap_err();
    assert_eq!(err, PeerError::InactivityTimeout);
}

#[test]
fn whitelist_filtering() {
    let peer_a = echo_peer(1, true);
    let peer_b = echo_peer(2, true);
    let addr_a = PaAddr { ip: IpAddr::V4(0x0A00_0001), port: 4000 }; // 10.0.0.1
    let addr_b = PaAddr { ip: IpAddr::V4(0x0A00_0002), port: 4000 }; // 10.0.0.2
    let mut conn_map: ConnectionMap<u32> = ConnectionMap::new();

    // A: Node@10.0.0.1, B: Client@10.0.0.2.
    let mut node_peer = peer_a;
    node_peer.kind = CrustUser::Node;
    assert!(conn_map.insert_peer(&node_peer, addr_a).is_some());
    assert!(conn_map.insert_peer(&peer_b, addr_b).is_some());

    let client_ips = vec![IpAddr::V4(0x0A00_0002)];
    let node_ips: Vec<IpAddr> = Vec::new();
    conn_map.whitelist_filter(&client_ips, &node_ips);

    assert!(!conn_map.contains_peer(1));
    assert!(conn_map.contains_peer(2));
    assert_eq!(conn_map.peer_addr(2), Ok(addr_b));
}

#[test]
fn send_to_unknown_peer_fails() {
    let mut conn_map: ConnectionMap<u32> = ConnectionMap::new();
    let r = conn_map.send(99, b"hello".to_vec(), 1, 0);
    assert_eq!(r, Err(CrustError::PeerNotFound));
    assert_eq!(conn_map.peer_addr(99), Err(CrustError::PeerNotFound));
}

#[test]
fn send_records_payload_on_outbound_half() {
    let peer = echo_peer(30, true);
    let mut conn_map: ConnectionMap<u32> = ConnectionMap::new();
    assert!(conn_map.insert_peer(&peer, tcp_addr_zero()).is_some());

    assert_eq!(conn_map.send(30, b"payload".to_vec(), 3, 50), Ok(()));
    let entry = &conn_map.peers[0];
    assert_eq!(entry.peer_sink.sent.len(), 1);
    assert_eq!(entry.peer_sink.sent[0].0, 3);
    assert_eq!(entry.peer_sink.sent[0].1, b"payload".to_vec());
    assert_eq!(entry.peer_sink.last_send_time, 50);
}

#[test]
fn ci_channel_is_single_use() {
    let mut conn_map: ConnectionMap<u32> = ConnectionMap::new();
    conn_map.insert_ci_channel(7, 42);
    conn_map.insert_ci_channel(7, 43);
    assert_eq!(conn_map.get_ci_channel(7), Some(43));
    assert_eq!(conn_map.get_ci_channel(7), None);
    assert_eq!(conn_map.get_ci_channel(8), None);
}

#[test]
fn heartbeat_is_enqueued_when_due() {
    let socket = Socket::new(tcp_addr_zero());
    let mut peer = from_handshaken_socket(socket, 40, CrustUser::Node, 0);

    // Heartbeat cadence is 20 s; nothing was sent, so at 20 s the poll
    // enqueues one heartbeat at the lowest priority.
    let polled = peer.poll(20_000).unwrap();
    assert!(matches!(polled, PeerPoll::NotReady));
    assert_eq!(peer.socket.outgoing.len(), 1);
    assert_eq!(peer.socket.outgoing[0].0, 0);
    assert!(matches!(peer.socket.outgoing[0].1, Frame::Heartbeat));
}

#[test]
fn transport_error_terminates_relay_exactly_once() {
    let mut peer = echo_peer(50, false);
    let mut conn_map: ConnectionMap<u32> = ConnectionMap::new();
    let mut task = conn_map.insert_peer(&peer, tcp_addr_zero()).unwrap();

    peer.socket.fail(SocketError::Io);
    conn_map.relay_step(&mut task, &mut peer, 10);
    assert!(!conn_map.contains_peer(50));

    // Further steps of the finished task add nothing.
    conn_map.relay_step(&mut task, &mut peer, 20);
    conn_map.relay_step(&mut task, &mut peer, 30);

    let lost: Vec<&Event> = conn_map
        .events
        .iter()
        .filter(|e| matches!(e, Event::LostPeer(50)))
        .collect();
    assert_eq!(lost.len(), 1);
    assert_eq!(conn_map.events.len(), 1);
}

#[test]
fn external_remove_cancels_relay_with_one_loss_event() {
    let mut peer = echo_peer(60, false);
    let mut conn_map: ConnectionMap<u32> = ConnectionMap::new();
    let mut task = conn_map.insert_peer(&peer, tcp_addr_zero()).unwrap();

    // An external caller removes the peer; the relay task observes the
    // fired drop-notifier at its next step and finalizes.
    assert!(conn_map.remove(60));
    conn_map.relay_step(&mut task, &mut peer, 10);
    conn_map.relay_step(&mut task, &mut peer, 20);

    let lost: Vec<&Event> = conn_map
        .events
        .iter()
        .filter(|e| matches!(e, Event::LostPeer(60)))
        .collect();
    assert_eq!(lost.len(), 1);
}

#[test]
fn clear_drops_every_entry() {
    let peer_a = echo_peer(70, true);
    let peer_b = echo_peer(71, true);
    let mut conn_map: ConnectionMap<u32> = ConnectionMap::new();
    assert!(conn_map.insert_peer(&peer_a, tcp_addr_zero()).is_some());
    assert!(conn_map.insert_peer(&peer_b, tcp_addr_zero()).is_some());

    conn_map.clear();
    assert!(!conn_map.contains_peer(70));
    assert!(!conn_map.contains_peer(71));
    assert_eq!(conn_map.peers.len(), 0);
}

#[test]
fn end_of_stream_reports_loss() {
    let mut peer = echo_peer(80, false);
    let mut conn_map: ConnectionMap<u32> = ConnectionMap::new();
    let mut task = conn_map.insert_peer(&peer, tcp_addr_zero()).unwrap();

    peer.socket.close();
    conn_map.relay_step(&mut task, &mut peer, 10);

    assert!(!conn_map.contains_peer(80));
    assert!(matches!(conn_map.events[0], Event::LostPeer(80)));
}
