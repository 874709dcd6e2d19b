use vrrop::cobs::{cobs_decode, cobs_encode};
use vrrop::framer::{Bridge, Error, MemReader, MemWriter};

fn loopback(wire: Vec<u8>) -> Bridge<MemReader, MemWriter> {
    Bridge::new(MemReader::new(wire), MemWriter::new())
}

fn send_to_wire(payload: &[u8]) -> Vec<u8> {
    let mut tx = Bridge::new(MemReader::new(Vec::new()), MemWriter::new());
    tx.send(payload).unwrap();
    let (_, mut w) = tx.into_parts();
    w.take_bytes()
}

#[test]
fn test() {
    let msg: (f32, f32) = (100.0, 100.0);
    let serialized = bincode::serialize(&msg).unwrap();
    let wire = send_to_wire(&serialized);
    let mut bridge = loopback(wire);
    let mut buf: Vec<u8> = vec![0u8; 256];
    let recv_len = bridge.recv(&mut buf).unwrap();
    let deserialized: (f32, f32) = bincode::deserialize(&buf[..recv_len]).unwrap();
    assert_eq!(msg, deserialized);
}

#[test]
fn framer_happy_path() {
    let payload = [0xAAu8, 0xBB, 0xCC];
    let wire = send_to_wire(&payload);
    // no inner zero; exactly one terminating zero at the end
    assert_eq!(*wire.last().unwrap(), 0u8);
    for &b in &wire[..wire.len() - 1] {
        assert_ne!(b, 0u8);
    }
    let mut bridge = loopback(wire);
    let mut buf: Vec<u8> = Vec::new();
    let n = bridge.recv(&mut buf).unwrap();
    assert_eq!(n, 3);
    assert_eq!(&buf[..], &payload[..]);
}

#[test]
fn framer_overflow() {
    let payload = vec![0x55u8; 255];
    let mut tx = Bridge::new(MemReader::new(Vec::new()), MemWriter::new());
    match tx.send(&payload) {
        Err(Error::BufferOverflow) => {}
        other => panic!("expected BufferOverflow, got {:?}", other),
    }
    let (_, w) = tx.into_parts();
    assert!(w.bytes().is_empty());
}

#[test]
fn framer_resync_after_junk() {
    // pseudo-random non-zero junk, then a delimiter, then a valid frame
    let mut junk: Vec<u8> = Vec::new();
    let mut x: u32 = 12345;
    for _ in 0..128 {
        x = x.wrapping_mul(1103515245).wrapping_add(12345);
        junk.push((x % 255) as u8 + 1);
    }
    junk.push(0);
    let mut stream = junk;
    stream.extend_from_slice(&send_to_wire(&[0x01, 0x02, 0x03]));
    let mut bridge = loopback(stream);
    let mut buf: Vec<u8> = Vec::new();
    // first receive consumes the junk segment and fails its checks
    let first = bridge.recv(&mut buf);
    assert!(matches!(first, Err(Error::InvalidMessage)));
    // the next receive starts at the frame and yields the payload
    let n = bridge.recv(&mut buf).unwrap();
    assert_eq!(n, 3);
    assert_eq!(&buf[..], &[0x01, 0x02, 0x03]);
}

#[test]
fn framer_crc_rejects_any_single_bit_flip() {
    let wire = send_to_wire(&[0x01, 0x02, 0x03]);
    // flip every bit of every byte except the terminator
    for byte in 0..wire.len() - 1 {
        for bit in 0..8 {
            let mut corrupted = wire.clone();
            corrupted[byte] ^= 1 << bit;
            let mut bridge = loopback(corrupted);
            let mut buf: Vec<u8> = Vec::new();
            let r = bridge.recv(&mut buf);
            assert!(
                matches!(r, Err(Error::InvalidMessage)),
                "flip at byte {} bit {} was not rejected: {:?}",
                byte,
                bit,
                r
            );
        }
    }
}

#[test]
fn framer_io_error_clears_sync() {
    // an empty stream: the read fails immediately
    let mut bridge = loopback(Vec::new());
    let mut buf: Vec<u8> = Vec::new();
    assert!(matches!(bridge.recv(&mut buf), Err(Error::IoError)));
}

#[test]
fn cobs_round_trips() {
    let cases: Vec<Vec<u8>> = vec![
        vec![],
        vec![0],
        vec![0, 0],
        vec![1, 2, 3],
        vec![0, 1, 0, 2, 0],
        vec![7; 254],
        vec![7; 255],
        (0..=255u8).collect(),
    ];
    for case in cases {
        let enc = cobs_encode(&case);
        for &b in &enc {
            assert_ne!(b, 0u8);
        }
        let dec = cobs_decode(&enc).unwrap();
        assert_eq!(dec, case);
    }
}

#[test]
fn cobs_matches_reference_encoder() {
    let cases: Vec<Vec<u8>> = vec![
        vec![1, 2, 3],
        vec![0],
        vec![0, 1, 0],
        vec![9; 254],
        vec![9; 300],
        (1..=200u8).collect(),
    ];
    for case in cases {
        let ours = cobs_encode(&case);
        let reference = cobs::encode_vec(&case);
        assert_eq!(ours, reference, "encodings differ for {:?}", case);
    }
}

#[test]
fn wire_frame_matches_reference_layout() {
    // build the expected frame with the reference checksum and stuffing
    let payload = [0xAAu8, 0xBB, 0xCC];
    let crc = crc::Crc::<u16>::new(&crc::CRC_16_XMODEM).checksum(&payload);
    let mut body = payload.to_vec();
    body.push((crc % 256) as u8);
    body.push((crc / 256) as u8);
    let mut expected = cobs::encode_vec(&body);
    expected.push(0);
    assert_eq!(send_to_wire(&payload), expected);
}
