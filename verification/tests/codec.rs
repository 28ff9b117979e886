use websocket_server::frame::{DecodeError, OpCode, WebSocketFrame};

fn round_trip_len(n: usize) {
    let frame = WebSocketFrame::from(vec![b'a'; n]);
    let bytes = frame.write();
    let decoded = WebSocketFrame::read(&bytes).expect("decode of encoded frame");
    assert_eq!(decoded, frame);
}

#[test]
fn round_trip_len_0() {
    round_trip_len(0);
}

#[test]
fn round_trip_len_1() {
    round_trip_len(1);
}

#[test]
fn round_trip_len_125() {
    round_trip_len(125);
}

#[test]
fn round_trip_len_126() {
    round_trip_len(126);
}

#[test]
fn round_trip_len_65535() {
    round_trip_len(65535);
}

#[test]
fn round_trip_len_65536() {
    round_trip_len(65536);
}

#[test]
fn tier_compact_125() {
    let bytes = WebSocketFrame::from(vec![b'x'; 125]).write();
    assert_eq!(bytes.len(), 2 + 125);
    assert_eq!(bytes[0], 0x81);
    assert_eq!(bytes[1], 125);
}

#[test]
fn tier_16_bit_126() {
    let bytes = WebSocketFrame::from(vec![b'x'; 126]).write();
    assert_eq!(bytes.len(), 2 + 2 + 126);
    assert_eq!(bytes[1], 126);
    assert_eq!(&bytes[2..4], &[0, 126]);
}

#[test]
fn tier_16_bit_65535() {
    let bytes = WebSocketFrame::from(vec![b'x'; 65535]).write();
    assert_eq!(bytes.len(), 2 + 2 + 65535);
    assert_eq!(bytes[1], 126);
    assert_eq!(&bytes[2..4], &[0xFF, 0xFF]);
}

#[test]
fn tier_64_bit_65536() {
    let bytes = WebSocketFrame::from(vec![b'x'; 65536]).write();
    assert_eq!(bytes.len(), 2 + 8 + 65536);
    assert_eq!(bytes[1], 127);
    assert_eq!(&bytes[2..10], &[0, 0, 0, 0, 0, 1, 0, 0]);
}

#[test]
fn masking_is_involutive() {
    let mask = [0x37, 0xFA, 0x21, 0x3D];
    let original: Vec<u8> = (0u8..=255).collect();
    let mut payload = original.clone();
    WebSocketFrame::apply_mask(mask, &mut payload);
    assert_ne!(payload, original);
    WebSocketFrame::apply_mask(mask, &mut payload);
    assert_eq!(payload, original);
}

#[test]
fn decode_masked_client_frame() {
    // "Hello" masked with the RFC 6455 example key.
    let mask = [0x37u8, 0xFA, 0x21, 0x3D];
    let mut body = b"Hello".to_vec();
    for (i, b) in body.iter_mut().enumerate() {
        *b ^= mask[i % 4];
    }
    let mut bytes = vec![0x81, 0x85];
    bytes.extend_from_slice(&mask);
    bytes.extend_from_slice(&body);
    let frame = WebSocketFrame::read(&bytes).expect("well-formed masked frame");
    assert_eq!(frame.payload, b"Hello".to_vec());
    assert_eq!(frame.get_opcode(), OpCode::TextFrame);
    assert!(frame.header.masked);
    assert_eq!(frame.mask, Some(mask));
    assert!(frame.header.fin);
}

#[test]
fn decode_binary_opcode() {
    let bytes = vec![0x82, 0x01, 0xAB];
    let frame = WebSocketFrame::read(&bytes).expect("binary frame");
    assert_eq!(frame.get_opcode(), OpCode::BinaryFrame);
    assert_eq!(frame.payload, vec![0xAB]);
}

#[test]
fn decode_invalid_opcode() {
    let bytes = vec![0x83, 0x00];
    assert_eq!(WebSocketFrame::read(&bytes), Err(DecodeError::InvalidOpcode(3)));
}

#[test]
fn decode_truncated_header() {
    assert_eq!(WebSocketFrame::read(&[]), Err(DecodeError::Truncated));
    assert_eq!(WebSocketFrame::read(&[0x81]), Err(DecodeError::Truncated));
}

#[test]
fn decode_truncated_payload() {
    assert_eq!(WebSocketFrame::read(&[0x81, 0x05, 1, 2]), Err(DecodeError::Truncated));
}

#[test]
fn decode_truncated_length_extension() {
    assert_eq!(WebSocketFrame::read(&[0x81, 126, 0]), Err(DecodeError::Truncated));
}

#[test]
fn decode_truncated_mask() {
    assert_eq!(WebSocketFrame::read(&[0x81, 0x85, 0x37, 0xFA]), Err(DecodeError::Truncated));
}

#[test]
fn decode_ignores_trailing_bytes() {
    let bytes = vec![0x89, 0x00, 0x81, 0x01, b'a'];
    let frame = WebSocketFrame::read(&bytes).expect("ping frame");
    assert_eq!(frame.get_opcode(), OpCode::Ping);
    assert_eq!(frame.payload.len(), 0);
}
