use vrrop::bag::{BagEntry, EntryKind, Player};
use vrrop::channel::{Broadcast, RecvError};
use vrrop::client_core::{handle_udp_datagram, StatsState, UdpServerEvent};
use vrrop::clock::estimate_offset;
use vrrop::server_core::{handle_datagram, ClientTable, ImageThrottle};
use vrrop::control::{ControlMessage, Message, SetTargetVelocity};
use vrrop::wire::{decode_udp_server, encode_udp_client, encode_udp_server, PingMessage,
    PongMessage, UdpClientMessage, UdpServerMessage};

#[test]
fn backpressure_drops_the_oldest_send() {
    // capacity two, a subscriber that stalls through three sends
    let mut chan: Broadcast<u64> = Broadcast::new(2);
    let mut sub = chan.subscribe();
    chan.send(10);
    chan.send(20);
    chan.send(30);
    match chan.recv(&mut sub) {
        Err(RecvError::Lagged(n)) => assert_eq!(n, 1),
        other => panic!("expected a lag report, got {:?}", other),
    }
    // the next delivery is strictly newer than the first send
    let v = *chan.recv(&mut sub).unwrap();
    assert_eq!(v, 20);
    assert!(v > 10);
    let v = *chan.recv(&mut sub).unwrap();
    assert_eq!(v, 30);
    assert!(matches!(chan.recv(&mut sub), Err(RecvError::Empty)));
    chan.close();
    assert!(matches!(chan.recv(&mut sub), Err(RecvError::Closed)));
}

#[test]
fn clock_offset_converges_with_skew() {
    // the server clock runs one second ahead; round trips take ten
    // milliseconds, stamped at slightly varying points inside the trip
    let skew: i64 = 1_000_000_000;
    let rtt: u64 = 10_000_000;
    let mut offset: i64 = 0;
    for k in 0..3u64 {
        let t0 = 50_000_000_000 + k * 100_000_000;
        let t1 = t0 + rtt;
        let stamped_at = t0 + 3_000_000 + k * 1_000_000;
        let server_time = (stamped_at as i64 + skew) as u64;
        // what the pinger would do with the pong
        offset = estimate_offset(t0 as i64, t1 as i64, server_time as i64);
    }
    assert!((offset - skew).abs() <= 5_000_000);
}

#[test]
fn pong_reply_echoes_the_ping() {
    let ping = UdpClientMessage::Ping(PingMessage { client_time: 777 });
    let datagram = encode_udp_client(&ping);
    let reply = handle_datagram(&datagram, 999).unwrap();
    match decode_udp_server(&reply) {
        Some(UdpServerMessage::Pong(p)) => {
            assert_eq!(p.client_time, 777);
            assert_eq!(p.server_time, 999);
        }
        other => panic!("expected a pong, got {:?}", other),
    }
    // garbage gets no reply
    assert!(handle_datagram(&[1, 2, 3], 999).is_none());
}

#[test]
fn client_table_tracks_liveness() {
    let mut table = ClientTable::new();
    table.record(1, 1_000_000_000);
    table.record(2, 2_000_000_000);
    table.record(1, 6_000_000_000);
    assert_eq!(table.clients().len(), 2);
    // at eight seconds, client two is six seconds stale and is dropped
    table.evict_stale(8_000_000_000);
    assert_eq!(table.clients().len(), 1);
    assert_eq!(table.clients()[0].addr, 1);
}

#[test]
fn image_throttle_passes_one_frame_per_interval() {
    let mut throttle = ImageThrottle::new(0);
    let interval = 1_000_000_000;
    assert!(throttle.should_forward(1_000_000_000, interval));
    assert!(!throttle.should_forward(1_500_000_000, interval));
    assert!(!throttle.should_forward(1_999_999_999, interval));
    assert!(throttle.should_forward(2_000_000_000, interval));
}

#[test]
fn client_interprets_server_datagrams() {
    let pong = UdpServerMessage::Pong(PongMessage {
        client_time: 1_000_000_000,
        server_time: 3_005_000_000,
    });
    let wire = encode_udp_server(&pong);
    // the pong arrives ten milliseconds after the ping left
    match handle_udp_datagram(&wire, 1_010_000_000) {
        UdpServerEvent::OffsetUpdate(off) => assert_eq!(off, 2_000_000_000),
        other => panic!("expected an offset update, got {:?}", other),
    }
    // a pong from before the ping is ignored
    assert!(matches!(handle_udp_datagram(&wire, 999_999_999), UdpServerEvent::Ignored));
    assert!(matches!(handle_udp_datagram(&[0xFF], 1), UdpServerEvent::Ignored));
}

#[test]
fn stats_recorder_keeps_only_recorded_sessions() {
    let mut st = StatsState::new();
    st.record_images(1, 10, 100);
    assert!(!st.is_recording());
    st.start_recording();
    st.record_images(2, 20, 200);
    st.record_odometry(3, 30, -300);
    let taken = st.end_recording();
    assert_eq!(taken.images_stamps, vec![2]);
    assert_eq!(taken.images_original_sizes, vec![20]);
    assert_eq!(taken.images_latencies, vec![200]);
    assert_eq!(taken.odometry_stamps, vec![3]);
    assert_eq!(taken.odometry_latencies, vec![-300]);
    assert!(!st.is_recording());
    // the recorder starts over empty
    st.start_recording();
    st.record_images(4, 40, 400);
    let again = st.end_recording();
    assert_eq!(again.images_stamps, vec![4]);
}

#[test]
fn player_paces_events_against_the_start_time() {
    let entries = vec![
        BagEntry { kind: EntryKind::Odometry, stamp_ns: 5_000_000_000 },
        BagEntry { kind: EntryKind::Images, stamp_ns: 5_500_000_000 },
        BagEntry { kind: EntryKind::Odometry, stamp_ns: 7_000_000_000 },
    ];
    let mut player = Player::new(entries, 100_000_000_000).unwrap();
    assert_eq!(player.poll_next_event_time(), Some(100_000_000_000));
    let e = player.next_event().unwrap();
    assert!(matches!(e.kind, EntryKind::Odometry));
    assert_eq!(e.stamp_ns, 100_000_000_000);
    assert_eq!(player.poll_next_event_time(), Some(100_500_000_000));
    let e = player.next_event().unwrap();
    assert!(matches!(e.kind, EntryKind::Images));
    assert_eq!(e.stamp_ns, 100_500_000_000);
    assert_eq!(player.poll_next_event_time(), Some(102_000_000_000));
    player.next_event().unwrap();
    assert_eq!(player.poll_next_event_time(), None);
    assert!(player.next_event().is_none());

    // an empty bag is refused
    assert!(Player::new(Vec::new(), 0).is_none());
}

#[test]
fn control_messages_round_trip() {
    let v = ControlMessage::SetTargetVelocity(SetTargetVelocity {
        forward: 0.5f32.to_bits(),
        turn: (-0.25f32).to_bits(),
    });
    let wire = v.serialize();
    assert_eq!(ControlMessage::deserialize(&wire), Some(v));
    let l = ControlMessage::SetLegLength(0.12f32.to_bits());
    let wire = l.serialize();
    assert_eq!(ControlMessage::deserialize(&wire), Some(l));
    assert_eq!(ControlMessage::deserialize(&wire[..4]), None);

    let m = Message { forward_vel: 100, turn_vel: -250 };
    let packed = m.pack();
    assert_eq!(packed, vec![100, 0, 0x06, 0xFF]);
    assert_eq!(Message::unpack(&packed), Some(m));
}
