use vrrop::geom::CameraIntrinsics;
use vrrop::wire::{decode_command, decode_images, decode_stats, decode_udp_client,
    decode_udp_server, encode_command, encode_images, encode_stats, encode_udp_client,
    encode_udp_server, f32_bits_finite, odometry_finite, Command, EncodedImagesMessage,
    OdometryMessage, PingMessage, PongMessage, QuatBits, Stats, UdpClientMessage,
    UdpServerMessage, Vec3Bits};

fn sample_odometry() -> OdometryMessage {
    OdometryMessage {
        stamp: 1_700_000_000_123_456_789,
        translation: Vec3Bits { x: 0x3F80_0000, y: 0, z: 0xBF80_0000 },
        rotation: QuatBits { x: 0, y: 0, z: 0, w: 0x3F80_0000 },
    }
}

fn sample_stats() -> Stats {
    Stats {
        images_stamps: vec![1, 2, 3],
        images_original_sizes: vec![100, 200, 300],
        images_latencies: vec![5_000_000, -42, 0],
        odometry_stamps: vec![7],
        odometry_original_sizes: vec![36],
        odometry_latencies: vec![-1],
    }
}

#[test]
fn udp_client_round_trip() {
    let m = UdpClientMessage::Ping(PingMessage { client_time: 123_456_789 });
    let wire = encode_udp_client(&m);
    assert_eq!(wire.len(), 9);
    assert_eq!(decode_udp_client(&wire), Some(m));
    assert_eq!(decode_udp_client(&wire[..8]), None);
    assert_eq!(decode_udp_client(&[]), None);
}

#[test]
fn udp_server_round_trip() {
    let odo = UdpServerMessage::Odometry(sample_odometry());
    let wire = encode_udp_server(&odo);
    assert_eq!(wire.len(), 37);
    assert_eq!(decode_udp_server(&wire), Some(odo));

    let pong = UdpServerMessage::Pong(PongMessage { client_time: 11, server_time: 22 });
    let wire = encode_udp_server(&pong);
    assert_eq!(wire.len(), 17);
    assert_eq!(decode_udp_server(&wire), Some(pong));

    // a truncated datagram is rejected
    assert_eq!(decode_udp_server(&wire[..16]), None);
}

#[test]
fn stats_round_trip() {
    let st = sample_stats();
    let mut wire: Vec<u8> = Vec::new();
    encode_stats(&st, &mut wire);
    let back = decode_stats(&wire).unwrap();
    assert_eq!(back.images_stamps, st.images_stamps);
    assert_eq!(back.images_original_sizes, st.images_original_sizes);
    assert_eq!(back.images_latencies, st.images_latencies);
    assert_eq!(back.odometry_stamps, st.odometry_stamps);
    assert_eq!(back.odometry_original_sizes, st.odometry_original_sizes);
    assert_eq!(back.odometry_latencies, st.odometry_latencies);
    // trailing garbage is rejected
    wire.push(0);
    assert!(decode_stats(&wire).is_none());
}

#[test]
fn command_round_trip() {
    let wire = encode_command(&Command::Reset);
    assert_eq!(wire, vec![0u8]);
    assert!(matches!(decode_command(&wire), Some(Command::Reset)));

    let wire = encode_command(&Command::SaveStats(sample_stats()));
    match decode_command(&wire) {
        Some(Command::SaveStats(st)) => {
            assert_eq!(st.images_latencies, vec![5_000_000, -42, 0]);
            assert_eq!(st.odometry_stamps, vec![7]);
        }
        other => panic!("unexpected decode: {:?}", other),
    }
    assert!(decode_command(&[2u8]).is_none());
    assert!(decode_command(&[]).is_none());
}

#[test]
fn images_round_trip() {
    let intr = CameraIntrinsics { width: 640, height: 480, fx: 612_345, fy: 611_222, cx: 320_500, cy: 239_500 };
    let m = EncodedImagesMessage {
        odometry: sample_odometry(),
        color_image: vec![1, 2, 3, 4, 5],
        color_intrinsics: intr,
        depth_image: vec![9, 8, 7],
        depth_intrinsics: CameraIntrinsics { width: 320, height: 240, fx: 400_000, fy: 400_000, cx: 160_000, cy: 120_000 },
        depth_unit_um: 1000,
    };
    let wire = encode_images(&m);
    let back = decode_images(&wire).unwrap();
    assert_eq!(back.odometry, m.odometry);
    assert_eq!(back.color_image, m.color_image);
    assert_eq!(back.color_intrinsics, m.color_intrinsics);
    assert_eq!(back.depth_image, m.depth_image);
    assert_eq!(back.depth_intrinsics, m.depth_intrinsics);
    assert_eq!(back.depth_unit_um, m.depth_unit_um);
    assert!(decode_images(&wire[..wire.len() - 1]).is_none());
}

#[test]
fn finiteness_follows_the_exponent_bits() {
    assert!(f32_bits_finite(1.0f32.to_bits()));
    assert!(f32_bits_finite((-123.5f32).to_bits()));
    assert!(f32_bits_finite(0.0f32.to_bits()));
    assert!(!f32_bits_finite(f32::INFINITY.to_bits()));
    assert!(!f32_bits_finite(f32::NEG_INFINITY.to_bits()));
    assert!(!f32_bits_finite(f32::NAN.to_bits()));

    let good = sample_odometry();
    assert!(odometry_finite(&good));
    let mut bad = good;
    bad.rotation.w = f32::NAN.to_bits();
    assert!(!odometry_finite(&bad));
}
