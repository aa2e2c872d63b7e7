use ws_echo_server::http::not_found_response;
use ws_echo_server::http::ok_response;
use ws_echo_server::server::WsState;
use ws_echo_server::server::new_connections;
use ws_echo_server::server::poll_pass;
use ws_echo_server::transport::FakeTransport;
use ws_echo_server::transport::RecordedAction;
use ws_echo_server::transport::TransportStatus;

const PORT: u16 = 1337;

fn buffers() -> (Vec<u8>, Vec<u8>) {
    (vec![0u8; 3000], vec![0u8; 500])
}

fn sent_bytes(t: &FakeTransport) -> Vec<u8> {
    let mut out = Vec::new();
    for a in &t.recorded {
        if let RecordedAction::Send(_, data) = a {
            out.extend_from_slice(data);
        }
    }
    out
}

fn contains(haystack: &[u8], needle: &[u8]) -> bool {
    haystack.windows(needle.len()).any(|w| w == needle)
}

#[test]
fn ok_response_has_exact_bytes() {
    let body = b"hi".to_vec();
    let r = ok_response(&body);
    let expected: Vec<u8> =
        b"HTTP/1.1 200 OK\r\nContent-Type: text/html; charset=UTF-8\r\nContent-Length: 2\r\nConnection: close\r\n\r\nhi"
            .to_vec();
    assert_eq!(r, expected);
}

#[test]
fn ok_response_renders_long_content_length() {
    let body = vec![b'a'; 2591];
    let r = ok_response(&body);
    assert!(contains(&r, b"Content-Length: 2591\r\n"));
}

#[test]
fn not_found_response_has_exact_bytes() {
    let r = not_found_response();
    let expected: Vec<u8> =
        b"HTTP/1.1 404 Not Found\r\nContent-Length: 0\r\nConnection: close\r\n\r\n".to_vec();
    assert_eq!(r, expected);
}

#[test]
fn root_path_yields_200_then_close() {
    let mut t = FakeTransport::new(1, TransportStatus::Established, 1000);
    t.rx[0] = Some(b"GET / HTTP/1.1\r\nHost: x\r\n\r\n".to_vec());
    let mut conns = new_connections(1);
    let (mut eth, mut ws) = buffers();
    let html = b"<html>hello</html>".to_vec();
    poll_pass(&mut t, &mut conns, PORT, &mut eth, &mut ws, &html).0.unwrap();
    let sent = sent_bytes(&t);
    assert!(sent.starts_with(b"HTTP/1.1 200"));
    assert!(contains(&sent, b"Connection: close"));
    assert!(sent.ends_with(b"<html>hello</html>"));
    assert!(matches!(
        t.recorded[t.recorded.len() - 1],
        RecordedAction::Close(0)
    ));
}

#[test]
fn other_path_yields_404_then_close() {
    let mut t = FakeTransport::new(1, TransportStatus::Established, 1000);
    t.rx[0] = Some(b"GET /missing HTTP/1.1\r\nHost: x\r\n\r\n".to_vec());
    let mut conns = new_connections(1);
    let (mut eth, mut ws) = buffers();
    let html = b"<html>hello</html>".to_vec();
    poll_pass(&mut t, &mut conns, PORT, &mut eth, &mut ws, &html).0.unwrap();
    let sent = sent_bytes(&t);
    assert!(sent.starts_with(b"HTTP/1.1 404"));
    assert!(contains(&sent, b"Connection: close"));
    assert!(matches!(
        t.recorded[t.recorded.len() - 1],
        RecordedAction::Close(0)
    ));
}

#[test]
fn upgrade_request_opens_the_session() {
    let mut t = FakeTransport::new(1, TransportStatus::Established, 1000);
    t.rx[0] = Some(
        b"GET /chat HTTP/1.1\r\nHost: x\r\nUpgrade: websocket\r\nConnection: Upgrade\r\nSec-WebSocket-Key: dGhlIHNhbXBsZSBub25jZQ==\r\nSec-WebSocket-Version: 13\r\n\r\n"
            .to_vec(),
    );
    let mut conns = new_connections(1);
    let (mut eth, mut ws) = buffers();
    let html = Vec::new();
    poll_pass(&mut t, &mut conns, PORT, &mut eth, &mut ws, &html).0.unwrap();
    let sent = sent_bytes(&t);
    assert!(sent.starts_with(b"HTTP/1.1 101 Switching Protocols"));
    // the accept string for the well-known sample key
    assert!(contains(
        &sent,
        b"Sec-WebSocket-Accept: s3pPLMBiTxaQ9kYGzzhZRbK+xOo="
    ));
    assert_eq!(conns[0].web_socket_state, WsState::Open);
    // no close action: the connection stays up
    assert!(!t
        .recorded
        .iter()
        .any(|a| matches!(a, RecordedAction::Close(_))));
}

#[test]
fn upgraded_session_echoes_on_the_next_pass() {
    let mut t = FakeTransport::new(1, TransportStatus::Established, 1000);
    t.rx[0] = Some(
        b"GET /chat HTTP/1.1\r\nHost: x\r\nUpgrade: websocket\r\nConnection: Upgrade\r\nSec-WebSocket-Key: dGhlIHNhbXBsZSBub25jZQ==\r\nSec-WebSocket-Version: 13\r\n\r\n"
            .to_vec(),
    );
    let mut conns = new_connections(1);
    let (mut eth, mut ws) = buffers();
    let html = Vec::new();
    poll_pass(&mut t, &mut conns, PORT, &mut eth, &mut ws, &html).0.unwrap();
    assert_eq!(conns[0].web_socket_state, WsState::Open);
    t.recorded.clear();
    t.rx[0] = Some(vec![129, 2, b'h', b'i']);
    poll_pass(&mut t, &mut conns, PORT, &mut eth, &mut ws, &html).0.unwrap();
    assert_eq!(sent_bytes(&t), vec![129, 2, b'h', b'i']);
}
