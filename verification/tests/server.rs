use ws_echo_server::codec::FrameKind;
use ws_echo_server::server::Connection;
use ws_echo_server::server::WsState;
use ws_echo_server::server::eth_write;
use ws_echo_server::server::handle_ws_message;
use ws_echo_server::server::new_connections;
use ws_echo_server::server::poll_pass;
use ws_echo_server::server::poll_slot;
use ws_echo_server::server::SlotOutcome;
use ws_echo_server::server::run_web_server;
use ws_echo_server::transport::FakeTransport;
use ws_echo_server::transport::RecordedAction;
use ws_echo_server::transport::TransportStatus;
use ws_echo_server::errors::WebServerError;

const PORT: u16 = 1337;

fn buffers() -> (Vec<u8>, Vec<u8>) {
    (vec![0u8; 3000], vec![0u8; 500])
}

/// Bytes accepted by all send calls, in order.
fn sent_bytes(t: &FakeTransport) -> Vec<u8> {
    let mut out = Vec::new();
    for a in &t.recorded {
        if let RecordedAction::Send(_, data) = a {
            out.extend_from_slice(data);
        }
    }
    out
}

fn count_sends(t: &FakeTransport) -> usize {
    t.recorded
        .iter()
        .filter(|a| matches!(a, RecordedAction::Send(_, _)))
        .count()
}

#[test]
fn socket_handles_pairwise_distinct() {
    let conns = new_connections(8);
    assert_eq!(conns.len(), 8);
    for i in 0..8 {
        for j in 0..8 {
            if i != j {
                assert_ne!(conns[i].socket, conns[j].socket);
            }
        }
    }
}

#[test]
fn closed_slot_issues_exactly_one_open() {
    let mut t = FakeTransport::new(1, TransportStatus::Closed, 1000);
    let mut conns = new_connections(1);
    let (mut eth, mut ws) = buffers();
    let html = Vec::new();
    let r = poll_pass(&mut t, &mut conns, PORT, &mut eth, &mut ws, &html).0;
    assert!(r.is_ok());
    assert_eq!(t.recorded.len(), 1);
    assert!(matches!(t.recorded[0], RecordedAction::Open(0)));
}

#[test]
fn close_wait_slot_issues_exactly_one_open() {
    let mut t = FakeTransport::new(1, TransportStatus::CloseWait, 1000);
    let mut conns = new_connections(1);
    let (mut eth, mut ws) = buffers();
    let html = Vec::new();
    poll_pass(&mut t, &mut conns, PORT, &mut eth, &mut ws, &html).0.unwrap();
    assert_eq!(t.recorded.len(), 1);
    assert!(matches!(t.recorded[0], RecordedAction::Open(0)));
}

#[test]
fn init_slot_listens_on_the_port() {
    let mut t = FakeTransport::new(1, TransportStatus::Init, 1000);
    let mut conns = new_connections(1);
    let (mut eth, mut ws) = buffers();
    let html = Vec::new();
    poll_pass(&mut t, &mut conns, PORT, &mut eth, &mut ws, &html).0.unwrap();
    assert_eq!(t.recorded.len(), 1);
    assert!(matches!(t.recorded[0], RecordedAction::Listen(0, 1337)));
}

#[test]
fn text_frame_is_echoed_once() {
    let mut t = FakeTransport::new(1, TransportStatus::Established, 1000);
    t.rx[0] = Some(vec![129, 5, b'h', b'e', b'l', b'l', b'o']);
    let mut conns = new_connections(1);
    conns[0].web_socket_state = WsState::Open;
    let (mut eth, mut ws) = buffers();
    let html = Vec::new();
    poll_pass(&mut t, &mut conns, PORT, &mut eth, &mut ws, &html).0.unwrap();
    assert_eq!(count_sends(&t), 1);
    assert_eq!(sent_bytes(&t), vec![129, 5, b'h', b'e', b'l', b'l', b'o']);
    assert_eq!(conns[0].web_socket_state, WsState::Open);
}

#[test]
fn masked_text_frame_is_echoed_unmasked() {
    // "hello" masked with key [1, 2, 3, 4]
    let mask = [1u8, 2, 3, 4];
    let mut frame = vec![129, 0x85, 1, 2, 3, 4];
    for (i, b) in b"hello".iter().enumerate() {
        frame.push(b ^ mask[i % 4]);
    }
    let mut t = FakeTransport::new(1, TransportStatus::Established, 1000);
    t.rx[0] = Some(frame);
    let mut conns = new_connections(1);
    conns[0].web_socket_state = WsState::Open;
    let (mut eth, mut ws) = buffers();
    let html = Vec::new();
    poll_pass(&mut t, &mut conns, PORT, &mut eth, &mut ws, &html).0.unwrap();
    assert_eq!(sent_bytes(&t), vec![129, 5, b'h', b'e', b'l', b'l', b'o']);
}

#[test]
fn ping_yields_pong_with_same_payload() {
    let mut t = FakeTransport::new(1, TransportStatus::Established, 1000);
    t.rx[0] = Some(vec![137, 4, b'p', b'i', b'n', b'g']);
    let mut conns = new_connections(1);
    conns[0].web_socket_state = WsState::Open;
    let (mut eth, mut ws) = buffers();
    let html = Vec::new();
    poll_pass(&mut t, &mut conns, PORT, &mut eth, &mut ws, &html).0.unwrap();
    assert_eq!(count_sends(&t), 1);
    assert_eq!(sent_bytes(&t), vec![138, 4, b'p', b'i', b'n', b'g']);
    assert_eq!(conns[0].web_socket_state, WsState::Open);
}

#[test]
fn binary_frame_is_dropped() {
    let mut t = FakeTransport::new(1, TransportStatus::Established, 1000);
    t.rx[0] = Some(vec![130, 3, 1, 2, 3]);
    let mut conns = new_connections(1);
    conns[0].web_socket_state = WsState::Open;
    let (mut eth, mut ws) = buffers();
    let html = Vec::new();
    poll_pass(&mut t, &mut conns, PORT, &mut eth, &mut ws, &html).0.unwrap();
    assert_eq!(t.recorded.len(), 0);
}

#[test]
fn pong_frame_is_dropped() {
    let mut t = FakeTransport::new(1, TransportStatus::Established, 1000);
    t.rx[0] = Some(vec![138, 1, 7]);
    let mut conns = new_connections(1);
    conns[0].web_socket_state = WsState::Open;
    let (mut eth, mut ws) = buffers();
    let html = Vec::new();
    poll_pass(&mut t, &mut conns, PORT, &mut eth, &mut ws, &html).0.unwrap();
    assert_eq!(t.recorded.len(), 0);
}

#[test]
fn close_must_reply_echoes_and_closes() {
    // close status 1000 (3, 232) with reason "ok"
    let mut t = FakeTransport::new(1, TransportStatus::Established, 1000);
    t.rx[0] = Some(vec![136, 4, 3, 232, b'o', b'k']);
    let mut conns = new_connections(1);
    conns[0].web_socket_state = WsState::Open;
    let (mut eth, mut ws) = buffers();
    let html = Vec::new();
    poll_pass(&mut t, &mut conns, PORT, &mut eth, &mut ws, &html).0.unwrap();
    assert_eq!(count_sends(&t), 1);
    assert_eq!(sent_bytes(&t), vec![136, 4, 3, 232, b'o', b'k']);
    assert!(matches!(
        t.recorded[t.recorded.len() - 1],
        RecordedAction::Close(0)
    ));
    assert_eq!(conns[0].web_socket_state, WsState::Closed);
}

#[test]
fn close_completed_closes_without_a_frame() {
    let mut t = FakeTransport::new(1, TransportStatus::Established, 1000);
    let mut conn = Connection::new(5);
    conn.web_socket_state = WsState::Open;
    let (mut eth, ws) = buffers();
    let r = handle_ws_message(&mut t, &mut conn, &mut eth, &ws, FrameKind::CloseCompleted, 0);
    assert!(r.is_ok());
    assert_eq!(t.recorded.len(), 1);
    assert!(matches!(t.recorded[0], RecordedAction::Close(5)));
    assert_eq!(count_sends(&t), 0);
    assert_eq!(conn.web_socket_state, WsState::Closed);
}

#[test]
fn invalid_utf8_text_is_an_encoding_error() {
    let mut t = FakeTransport::new(1, TransportStatus::Established, 1000);
    t.rx[0] = Some(vec![129, 1, 0xFF]);
    let mut conns = new_connections(1);
    conns[0].web_socket_state = WsState::Open;
    let (mut eth, mut ws) = buffers();
    let html = Vec::new();
    let r = poll_pass(&mut t, &mut conns, PORT, &mut eth, &mut ws, &html).0;
    assert!(matches!(r, Err(WebServerError::Utf8Error)));
    assert_eq!(t.recorded.len(), 0);
}

#[test]
fn invalid_utf8_close_reason_is_an_encoding_error() {
    let mut t = FakeTransport::new(1, TransportStatus::Established, 1000);
    t.rx[0] = Some(vec![136, 3, 3, 232, 0xFF]);
    let mut conns = new_connections(1);
    conns[0].web_socket_state = WsState::Open;
    let (mut eth, mut ws) = buffers();
    let html = Vec::new();
    let r = poll_pass(&mut t, &mut conns, PORT, &mut eth, &mut ws, &html).0;
    assert!(matches!(r, Err(WebServerError::Utf8Error)));
    assert_eq!(t.recorded.len(), 0);
}

#[test]
fn write_retry_with_halving_cap_takes_two_calls() {
    let data: Vec<u8> = (0u8..10).collect();
    let mut t = FakeTransport::new(1, TransportStatus::Closed, 5);
    let calls = eth_write(&mut t, 0, &data, data.len()).unwrap();
    assert_eq!(calls, 2);
    assert_eq!(count_sends(&t), 2);
    assert_eq!(sent_bytes(&t), data);
}

#[test]
fn write_retry_odd_length_takes_two_calls() {
    let data: Vec<u8> = vec![9, 8, 7];
    let mut t = FakeTransport::new(1, TransportStatus::Closed, 2);
    let calls = eth_write(&mut t, 0, &data, data.len()).unwrap();
    assert_eq!(calls, 2);
    assert_eq!(sent_bytes(&t), data);
}

#[test]
fn write_retry_one_byte_takes_one_call() {
    let data: Vec<u8> = vec![42];
    let mut t = FakeTransport::new(1, TransportStatus::Closed, 1);
    let calls = eth_write(&mut t, 0, &data, data.len()).unwrap();
    assert_eq!(calls, 1);
    assert_eq!(sent_bytes(&t), data);
}

#[test]
fn transport_error_during_dispatch_halts_remaining_sockets() {
    let mut t = FakeTransport::new(4, TransportStatus::Closed, 1000);
    t.statuses[1] = Some(TransportStatus::Established);
    t.rx[1] = Some(vec![137, 2, b'h', b'i']);
    t.fail_send = true;
    let mut conns = new_connections(4);
    conns[1].web_socket_state = WsState::Open;
    let (mut eth, mut ws) = buffers();
    let html = Vec::new();
    let r = poll_pass(&mut t, &mut conns, PORT, &mut eth, &mut ws, &html).0;
    assert!(matches!(r, Err(WebServerError::Io(_))));
    // socket 0 was opened; sockets 2 and 3 got no action at all
    assert_eq!(t.recorded.len(), 1);
    assert!(matches!(t.recorded[0], RecordedAction::Open(0)));
}

#[test]
fn unknown_status_shuts_the_server_down() {
    let mut t = FakeTransport::new(2, TransportStatus::Closed, 1000);
    t.statuses[0] = None;
    let mut conns = new_connections(2);
    let (mut eth, mut ws) = buffers();
    let html = Vec::new();
    let r = poll_pass(&mut t, &mut conns, PORT, &mut eth, &mut ws, &html).0;
    assert!(matches!(r, Ok(false)));
    assert_eq!(t.recorded.len(), 0);
}

#[test]
fn failed_status_query_is_skipped() {
    let mut t = FakeTransport::new(2, TransportStatus::Closed, 1000);
    t.fail_status = true;
    let mut conns = new_connections(2);
    let (mut eth, mut ws) = buffers();
    let html = Vec::new();
    let r = poll_pass(&mut t, &mut conns, PORT, &mut eth, &mut ws, &html).0;
    assert!(matches!(r, Ok(true)));
    assert_eq!(t.recorded.len(), 0);
}

#[test]
fn run_web_server_stops_on_unknown_status() {
    let mut t = FakeTransport::new(2, TransportStatus::Closed, 1000);
    t.statuses[1] = None;
    let html = Vec::new();
    let r = run_web_server(&mut t, 2, PORT, &html, 10);
    assert!(matches!(r, Ok(true)));
    // the two initial closes, then one open for socket 0 before the shutdown
    assert!(matches!(t.recorded[0], RecordedAction::Close(0)));
    assert!(matches!(t.recorded[1], RecordedAction::Close(1)));
    assert!(matches!(t.recorded[2], RecordedAction::Open(0)));
    assert_eq!(t.recorded.len(), 3);
}

#[test]
fn ping_with_empty_payload_yields_empty_pong() {
    let mut t = FakeTransport::new(1, TransportStatus::Established, 1000);
    t.rx[0] = Some(vec![137, 0]);
    let mut conns = new_connections(1);
    conns[0].web_socket_state = WsState::Open;
    let (mut eth, mut ws) = buffers();
    let html = Vec::new();
    poll_pass(&mut t, &mut conns, PORT, &mut eth, &mut ws, &html).0.unwrap();
    assert_eq!(sent_bytes(&t), vec![138, 0]);
}

#[test]
fn long_text_frame_uses_extended_length_header() {
    let payload: Vec<u8> = std::iter::repeat(b'a').take(200).collect();
    let mut frame = vec![129, 126, 0, 200];
    frame.extend_from_slice(&payload);
    let mut t = FakeTransport::new(1, TransportStatus::Established, 1000);
    t.rx[0] = Some(frame.clone());
    let mut conns = new_connections(1);
    conns[0].web_socket_state = WsState::Open;
    let (mut eth, mut ws) = buffers();
    let html = Vec::new();
    poll_pass(&mut t, &mut conns, PORT, &mut eth, &mut ws, &html).0.unwrap();
    assert_eq!(sent_bytes(&t), frame);
}

#[test]
fn unhandled_status_shuts_the_server_down() {
    let mut t = FakeTransport::new(2, TransportStatus::Closed, 1000);
    t.statuses[0] = Some(TransportStatus::Other);
    let mut conns = new_connections(2);
    let (mut eth, mut ws) = buffers();
    let html = Vec::new();
    let r = poll_pass(&mut t, &mut conns, PORT, &mut eth, &mut ws, &html).0;
    assert!(matches!(r, Ok(false)));
    assert_eq!(t.recorded.len(), 0);
}

#[test]
fn listening_slot_gets_no_action() {
    let mut t = FakeTransport::new(1, TransportStatus::Listen, 1000);
    let mut conns = new_connections(1);
    let (mut eth, mut ws) = buffers();
    let html = Vec::new();
    let r = poll_pass(&mut t, &mut conns, PORT, &mut eth, &mut ws, &html).0;
    assert!(matches!(r, Ok(true)));
    assert_eq!(t.recorded.len(), 0);
}

#[test]
fn malformed_frame_is_a_protocol_error() {
    let mut t = FakeTransport::new(1, TransportStatus::Established, 1000);
    t.rx[0] = Some(vec![129]); // too short to hold a frame header
    let mut conns = new_connections(1);
    conns[0].web_socket_state = WsState::Open;
    let (mut eth, mut ws) = buffers();
    let html = Vec::new();
    let r = poll_pass(&mut t, &mut conns, PORT, &mut eth, &mut ws, &html).0;
    assert!(matches!(r, Err(WebServerError::WebSocket(_))));
    assert_eq!(t.recorded.len(), 0);
}

#[test]
fn malformed_http_request_is_a_protocol_error() {
    let mut t = FakeTransport::new(1, TransportStatus::Established, 1000);
    t.rx[0] = Some(vec![0xFF, 0xFF, 0xFF]);
    let mut conns = new_connections(1);
    let (mut eth, mut ws) = buffers();
    let html = Vec::new();
    let r = poll_pass(&mut t, &mut conns, PORT, &mut eth, &mut ws, &html).0;
    assert!(matches!(r, Err(WebServerError::WebSocket(_))));
    assert_eq!(t.recorded.len(), 0);
}

#[test]
fn poll_slot_reports_what_it_observed() {
    let mut t = FakeTransport::new(1, TransportStatus::Init, 1000);
    let mut conn = Connection::new(0);
    let (mut eth, mut ws) = buffers();
    let html = Vec::new();
    let r = poll_slot(&mut t, &mut conn, PORT, &mut eth, &mut ws, &html);
    assert!(matches!(r, Ok(SlotOutcome::Serviced(TransportStatus::Init))));
    assert_eq!(conn.socket_status, TransportStatus::Init);
    assert!(matches!(t.recorded[0], RecordedAction::Listen(0, 1337)));

    t.fail_status = true;
    let r = poll_slot(&mut t, &mut conn, PORT, &mut eth, &mut ws, &html);
    assert!(matches!(r, Ok(SlotOutcome::QueryFailed)));

    t.fail_status = false;
    t.statuses[0] = None;
    let r = poll_slot(&mut t, &mut conn, PORT, &mut eth, &mut ws, &html);
    assert!(matches!(r, Ok(SlotOutcome::UnknownStatus)));

    t.statuses[0] = Some(TransportStatus::Other);
    let r = poll_slot(&mut t, &mut conn, PORT, &mut eth, &mut ws, &html);
    assert!(matches!(r, Ok(SlotOutcome::UnhandledStatus)));
    assert_eq!(conn.socket_status, TransportStatus::Other);
}
