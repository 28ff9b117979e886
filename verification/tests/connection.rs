use websocket_server::client::{
    bytes_eq, gen_key, ClientState, HandshakeError, Headers, Interest, WebSocketClient,
};
use websocket_server::server::WebSocketServer;

const SAMPLE_KEY: &[u8] = b"dGhlIHNhbXBsZSBub25jZQ==";
const SAMPLE_ACCEPT: &[u8] = b"s3pPLMBiTxaQ9kYGzzhZRbK+xOo=";

fn expected_response() -> Vec<u8> {
    let mut r = b"HTTP/1.1 101 Switching Protocols\r\nConnection: Upgrade\r\nSec-WebSocket-Accept: "
        .to_vec();
    r.extend_from_slice(SAMPLE_ACCEPT);
    r.extend_from_slice(b"\r\nUpgrade: websocket\r\n\r\n");
    r
}

#[test]
fn accept_key_derivation() {
    // The canonical RFC 6455 test vector.
    assert_eq!(gen_key(&SAMPLE_KEY.to_vec()), SAMPLE_ACCEPT.to_vec());
}

#[test]
fn handshake_progression() {
    let mut c = WebSocketClient::new();
    assert_eq!(c.state, ClientState::AwaitingHandshake);
    assert_eq!(c.interest, Interest::Readable);

    c.record_header(b"Upgrade".to_vec(), b"websocket".to_vec());
    c.record_header(b"Sec-WebSocket-Key".to_vec(), SAMPLE_KEY.to_vec());
    c.read_handshake(true);
    assert_eq!(c.state, ClientState::HandshakeResponse);
    assert_eq!(c.interest, Interest::Writable);

    let response = c.write().expect("handshake response");
    assert_eq!(response, expected_response());
    assert_eq!(c.state, ClientState::Connected);
    assert_eq!(c.interest, Interest::Readable);
}

#[test]
fn no_upgrade_no_transition() {
    let mut c = WebSocketClient::new();
    c.read_handshake(false);
    assert_eq!(c.state, ClientState::AwaitingHandshake);
    assert_eq!(c.interest, Interest::Readable);
}

#[test]
fn upgrade_flag_ignored_once_connected() {
    let mut c = WebSocketClient::new();
    c.record_header(b"Sec-WebSocket-Key".to_vec(), SAMPLE_KEY.to_vec());
    c.read_handshake(true);
    c.write().expect("handshake response");
    c.read_handshake(true);
    assert_eq!(c.state, ClientState::Connected);
    assert_eq!(c.interest, Interest::Readable);
}

#[test]
fn missing_key_is_fatal() {
    let mut c = WebSocketClient::new();
    c.read_handshake(true);
    assert_eq!(c.write(), Err(HandshakeError::MissingKey));
    assert_eq!(c.state, ClientState::HandshakeResponse);
}

#[test]
fn later_header_record_shadows_earlier() {
    let mut c = WebSocketClient::new();
    c.record_header(b"Sec-WebSocket-Key".to_vec(), b"bm90IHRoaXMgb25lISEh".to_vec());
    c.record_header(b"Sec-WebSocket-Key".to_vec(), SAMPLE_KEY.to_vec());
    c.read_handshake(true);
    assert_eq!(c.write().expect("handshake response"), expected_response());
}

#[test]
fn bad_frame_leaves_connection_unchanged() {
    let mut c = WebSocketClient::new();
    c.record_header(b"Sec-WebSocket-Key".to_vec(), SAMPLE_KEY.to_vec());
    c.read_handshake(true);
    c.write().expect("handshake response");
    c.read(&[0x83, 0x00]);
    assert_eq!(c.state, ClientState::Connected);
    assert_eq!(c.interest, Interest::Readable);
    assert_eq!(c.outgoing.len(), 0);
}

#[test]
fn end_to_end_masked_text_frame() {
    let mut server = WebSocketServer::new();
    assert_eq!(server.token_counter, 1);

    let token = server.accept_client();
    assert_eq!(token, 2);
    assert!(server.has_client(token));
    assert_eq!(server.client_state(token), ClientState::AwaitingHandshake);
    assert_eq!(server.client_interest(token), Interest::Readable);

    // Read turn: the tokenizer reported the headers and the upgrade.
    server.record_header(token, b"Sec-WebSocket-Key".to_vec(), SAMPLE_KEY.to_vec());
    server.read_handshake(token, true);
    assert_eq!(server.client_state(token), ClientState::HandshakeResponse);
    assert_eq!(server.client_interest(token), Interest::Writable);

    // Write turn: the 101 response goes out, frames may flow.
    assert_eq!(server.write(token).expect("handshake response"), expected_response());
    assert_eq!(server.client_state(token), ClientState::Connected);
    assert_eq!(server.client_interest(token), Interest::Readable);

    // The client sends "Hi there!" in a single masked text frame.
    let mask = [0x11u8, 0x22, 0x33, 0x44];
    let mut body = b"Hi there!".to_vec();
    for (i, b) in body.iter_mut().enumerate() {
        *b ^= mask[i % 4];
    }
    let mut inbound = vec![0x81, 0x89];
    inbound.extend_from_slice(&mask);
    inbound.extend_from_slice(&body);
    server.read(token, &inbound);
    assert_eq!(server.client_interest(token), Interest::Writable);

    // The next write turn emits one unmasked reply frame.
    let outbound = server.write(token).expect("reply frames");
    let mut expected = vec![0x81, 9];
    expected.extend_from_slice(b"Hi there!");
    assert_eq!(outbound, expected);
    assert_eq!(server.client_interest(token), Interest::Readable);
    assert_eq!(server.client_state(token), ClientState::Connected);
}

#[test]
fn headers_record_and_lookup() {
    let mut h = Headers::new();
    assert_eq!(h.get(&b"Host".to_vec()), None);
    h.insert(b"Host".to_vec(), b"example.net".to_vec());
    h.insert(b"Upgrade".to_vec(), b"websocket".to_vec());
    assert_eq!(h.get(&b"Host".to_vec()), Some(b"example.net".to_vec()));
    assert_eq!(h.get(&b"Upgrade".to_vec()), Some(b"websocket".to_vec()));
    assert_eq!(h.get(&b"Connection".to_vec()), None);
    h.insert(b"Host".to_vec(), b"example.org".to_vec());
    assert_eq!(h.get(&b"Host".to_vec()), Some(b"example.org".to_vec()));
}

#[test]
fn byte_equality() {
    assert!(bytes_eq(&b"abc".to_vec(), &b"abc".to_vec()));
    assert!(!bytes_eq(&b"abc".to_vec(), &b"abd".to_vec()));
    assert!(!bytes_eq(&b"abc".to_vec(), &b"ab".to_vec()));
}

#[test]
fn tokens_are_distinct_and_dense() {
    let mut server = WebSocketServer::new();
    let t1 = server.accept_client();
    let t2 = server.accept_client();
    assert_eq!(t1, 2);
    assert_eq!(t2, 3);
    assert!(server.has_client(t1));
    assert!(server.has_client(t2));
    assert!(!server.has_client(4));
    assert!(!server.has_client(0));
}
