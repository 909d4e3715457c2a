use posekit::protocol::{
    decode_points, encode_points, encode_points_message, parse_length_prefix, push_le32,
    receive_points, ProtocolError, WirePoint,
};

fn wire(x: f32, y: f32, z: f32) -> WirePoint {
    WirePoint {
        x_bits: x.to_bits(),
        y_bits: y.to_bits(),
        z_bits: z.to_bits(),
    }
}

#[test]
fn push_le32_writes_little_endian() {
    let mut out: Vec<u8> = Vec::new();
    push_le32(&mut out, 0x1234_5678);
    assert_eq!(out, vec![0x78, 0x56, 0x34, 0x12]);
}

#[test]
fn parse_length_prefix_reads_little_endian() {
    assert_eq!(parse_length_prefix(&[100, 0, 0, 0]), 100);
    assert_eq!(parse_length_prefix(&[0x78, 0x56, 0x34, 0x12]), 0x1234_5678);
}

#[test]
fn points_round_trip_is_exact() {
    let original = vec![
        wire(0.25, 0.5, 0.9),
        wire(0.0, 1.0, 0.125),
        wire(-0.5, 0.75, 0.3),
    ];
    let payload = encode_points(&original);
    assert_eq!(payload.len(), 36);
    let decoded = decode_points(&payload).unwrap();
    assert_eq!(decoded, original);
    for (a, b) in decoded.iter().zip(original.iter()) {
        assert_eq!(f32::from_bits(a.x_bits), f32::from_bits(b.x_bits));
        assert_eq!(f32::from_bits(a.y_bits), f32::from_bits(b.y_bits));
        assert_eq!(f32::from_bits(a.z_bits), f32::from_bits(b.z_bits));
    }
}

#[test]
fn message_carries_length_prefix_and_payload() {
    // Two points serialize to 24 payload bytes: the message holds exactly
    // 4 + 24 bytes and its prefix declares 24.
    let points = vec![wire(0.5, 0.5, 0.5), wire(0.1, 0.2, 0.3)];
    let message = encode_points_message(&points);
    assert_eq!(message.len(), 28);
    assert_eq!(&message[0..4], &[24, 0, 0, 0]);
    let n = parse_length_prefix(&message[0..4]) as usize;
    assert_eq!(n, message.len() - 4);
    let body = &message[4..];
    assert_eq!(body.len(), n);
    let decoded = receive_points(&message[0..4], body).unwrap();
    assert_eq!(decoded, points);
}

#[test]
fn empty_payload_means_no_pose() {
    // A declared length of zero is valid: the decoder hands back an empty
    // keypoint list and raises no error.
    let header = [0u8, 0, 0, 0];
    let body: [u8; 0] = [];
    let decoded = receive_points(&header, &body).unwrap();
    assert!(decoded.is_empty());
}

#[test]
fn short_read_is_a_protocol_error() {
    // The prefix declares 100 bytes but the stream closed after 60: the
    // cycle fails, no partial keypoint list is produced.
    let header = [100u8, 0, 0, 0];
    let body = [0u8; 60];
    let r = receive_points(&header, &body);
    assert_eq!(
        r,
        Err(ProtocolError::ShortRead {
            expected: 100,
            got: 60
        })
    );
}

#[test]
fn short_header_is_a_protocol_error() {
    let header = [1u8, 0, 0];
    let body: [u8; 0] = [];
    let r = receive_points(&header, &body);
    assert_eq!(r, Err(ProtocolError::ShortHeader { got: 3 }));
}

#[test]
fn ragged_payload_is_a_protocol_error() {
    // 17 bytes is not a whole number of 12-byte records.
    let header = [17u8, 0, 0, 0];
    let body = [0u8; 17];
    let r = receive_points(&header, &body);
    assert_eq!(r, Err(ProtocolError::MalformedPayload { len: 17 }));
    assert_eq!(
        decode_points(&body),
        Err(ProtocolError::MalformedPayload { len: 17 })
    );
}

#[test]
fn encode_points_is_twelve_bytes_per_point() {
    let points = vec![wire(1.0, 2.0, 3.0)];
    let payload = encode_points(&points);
    assert_eq!(payload.len(), 12);
    let expected: Vec<u8> = 1.0f32
        .to_bits()
        .to_le_bytes()
        .iter()
        .chain(2.0f32.to_bits().to_le_bytes().iter())
        .chain(3.0f32.to_bits().to_le_bytes().iter())
        .copied()
        .collect();
    assert_eq!(payload, expected);
}
