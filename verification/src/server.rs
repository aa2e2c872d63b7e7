//! The per-socket session multiplexer and protocol dispatcher.
//!
//! One cooperative poll pass visits every session slot once, in index order:
//! it queries the slot's TCP status, issues the lifecycle action that status
//! calls for (open, listen, or receive-and-dispatch), and stops the whole
//! server on the first unrecovered error. Dispatch routes received bytes
//! either through the WebSocket codec (echoing or acknowledging frames) or
//! through HTTP routing (handshake upgrade, the served page, or a 404).
use crate::codec::FrameKind;
use crate::codec::HttpRequest;
use crate::codec::SendKind;
use crate::codec::codec_handshake;
use crate::codec::codec_read;
use crate::codec::codec_write;
use crate::codec::decode_of;
use crate::codec::first_byte_of;
use crate::codec::frame_bytes;
use crate::codec::handshake_response_of;
use crate::codec::http_request_wf;
use crate::codec::parse_http;
use crate::codec::utf8_ok;
use crate::errors::TransportError;
use crate::errors::WebServerError;
use crate::http::not_found_bytes;
use crate::http::not_found_response;
use crate::http::ok_response;
use crate::http::ok_response_bytes;
use crate::transport::TAction;
use crate::transport::Transport;
use crate::transport::TransportStatus;
use crate::transport::action_sock;
use crate::transport::extended_below;
use crate::transport::extended_for;
use crate::transport::is_send_run;
use crate::transport::lemma_extended_below_refl;
use crate::transport::lemma_extended_below_trans;
use crate::transport::lemma_extended_for_below;
use crate::transport::lemma_extended_push;
use crate::transport::lemma_extended_refl;
use crate::transport::lemma_run_bytes_push;
use crate::transport::retry_calls;
use crate::transport::socks_below;
use vstd::prelude::*;

verus! {

/// Size of the session pool: one slot per hardware socket.
pub const NUM_SOCKETS: u8 = 8;

/// The TCP port the server listens on.
pub const PORT: u16 = 1337;

/// Capacity of the shared raw-transport buffer.
pub const ETH_BUFFER_LEN: usize = 3000;

/// Capacity of the shared decoded-payload buffer.
pub const WS_BUFFER_LEN: usize = 500;

/// The session's WebSocket sub-state.
#[derive(Clone, Copy, PartialEq, Eq, Structural, Debug)]
pub enum WsState {
    /// No handshake has completed on the current TCP connection.
    Connecting,
    /// The opening handshake completed; frames flow.
    Open,
    /// The close handshake ran; the slot awaits recycling.
    Closed,
}

/// One session slot: a pool index permanently bound to one socket handle,
/// the last observed TCP status, and the WebSocket sub-state.
pub struct Connection {
    pub socket: u8,
    pub socket_status: TransportStatus,
    pub web_socket_state: WsState,
}

impl Connection {
    pub fn new(socket: u8) -> (c: Connection)
        ensures
            c.socket == socket,
            c.socket_status == TransportStatus::Closed,
            c.web_socket_state == WsState::Connecting,
    {
        Connection {
            socket,
            socket_status: TransportStatus::Closed,
            web_socket_state: WsState::Connecting,
        }
    }
}

/// Slot `i` owns socket handle `i`: the binding that makes handles pairwise
/// distinct and never reassigned.
pub open spec fn connections_wf(conns: Seq<Connection>) -> bool {
    forall|i: int| 0 <= i < conns.len() ==> (#[trigger] conns[i]).socket == i as u8
}

/// Build the session pool, one slot per socket, slot `i` bound to handle `i`.
pub fn new_connections(n: u8) -> (r: Vec<Connection>)
    ensures
        r@.len() == n as int,
        connections_wf(r@),
        forall|i: int|
            0 <= i < n as int ==> (#[trigger] r@[i]).web_socket_state == WsState::Connecting
                && r@[i].socket_status == TransportStatus::Closed,
{
    let mut r: Vec<Connection> = Vec::new();
    let mut i: u8 = 0;
    while i < n
        invariant
            i <= n,
            r@.len() == i as int,
            connections_wf(r@),
            forall|j: int|
                0 <= j < i as int ==> (#[trigger] r@[j]).web_socket_state == WsState::Connecting
                    && r@[j].socket_status == TransportStatus::Closed,
        decreases n - i,
    {
        r.push(Connection::new(i));
        i = i + 1;
    }
    r
}

/// What reacting to one decoded frame does, stated over the action log and
/// the session: text is echoed as one text frame, ping is answered by one
/// pong with the same payload, a close demand is answered by one close reply
/// echoing the payload and exactly one TCP close, a completed close handshake
/// by exactly one TCP close and no frame, and binary and pong frames by
/// nothing at all. Only the close cases change the session's WebSocket state.
pub open spec fn ws_reaction(
    pre_log: Seq<TAction>,
    post_log: Seq<TAction>,
    pre_conn: Connection,
    post_conn: Connection,
    kind: FrameKind,
    payload: Seq<u8>,
) -> bool {
    let sock = pre_conn.socket;
    match kind {
        FrameKind::Text => vstd::utf8::valid_utf8(payload) && post_conn.web_socket_state
            == pre_conn.web_socket_state && exists|run: Seq<TAction>|
            post_log == pre_log + run && is_send_run(
                run,
                sock,
                frame_bytes(first_byte_of(SendKind::Text), payload),
            ),
        FrameKind::Binary => post_log == pre_log && post_conn.web_socket_state
            == pre_conn.web_socket_state,
        FrameKind::Ping => post_conn.web_socket_state == pre_conn.web_socket_state && exists|
            run: Seq<TAction>,
        |
            post_log == pre_log + run && is_send_run(
                run,
                sock,
                frame_bytes(first_byte_of(SendKind::Pong), payload),
            ),
        FrameKind::Pong => post_log == pre_log && post_conn.web_socket_state
            == pre_conn.web_socket_state,
        FrameKind::CloseMustReply => post_conn.web_socket_state == WsState::Closed && exists|
            run: Seq<TAction>,
        |
            post_log == pre_log + run + seq![TAction::Close { sock }] && is_send_run(
                run,
                sock,
                frame_bytes(first_byte_of(SendKind::CloseReply), payload),
            ),
        FrameKind::CloseCompleted => post_log == pre_log.push(TAction::Close { sock })
            && post_conn.web_socket_state == WsState::Closed,
    }
}

/// The payload demanded to be text is not valid UTF-8: a text frame's whole
/// payload, or a close payload's reason past the two status-code bytes.
pub open spec fn utf8_violation(kind: FrameKind, payload: Seq<u8>) -> bool {
    ||| kind == FrameKind::Text && !vstd::utf8::valid_utf8(payload)
    ||| kind == FrameKind::CloseMustReply && payload.len() > 2 && !vstd::utf8::valid_utf8(
        payload.skip(2),
    )
}

/// The lifecycle action one observed status calls for, over the log: closed
/// and close-wait sockets get exactly one open, an initialized socket exactly
/// one listen on the port, an established one a dispatch scoped to its
/// socket, and a listening or unhandled status no action.
pub open spec fn status_reaction(
    pre_log: Seq<TAction>,
    post_log: Seq<TAction>,
    sock: u8,
    port: u16,
    status: TransportStatus,
) -> bool {
    match status {
        TransportStatus::Closed | TransportStatus::CloseWait => post_log == pre_log.push(
            TAction::Open { sock },
        ),
        TransportStatus::Init => post_log == pre_log.push(TAction::Listen { sock, port }),
        TransportStatus::Established => extended_for(pre_log, post_log, sock),
        TransportStatus::Listen | TransportStatus::Other => post_log == pre_log,
    }
}

/// The log grew from `pre` to `post` by one run per slot, in index order:
/// first a run of actions for socket 0, then one for socket 1, and so on up
/// to socket `k - 1` (each run possibly empty).
pub open spec fn extended_per_slot(pre: Seq<TAction>, post: Seq<TAction>, k: int) -> bool
    decreases k,
{
    if k <= 0 {
        post == pre
    } else {
        exists|mid: Seq<TAction>|
            extended_per_slot(pre, mid, k - 1) && #[trigger] extended_for(mid, post, (k - 1) as u8)
    }
}

/// A per-slot extension for `j` slots is one for any larger slot count: the
/// remaining slots contributed empty runs.
pub proof fn lemma_per_slot_pad(pre: Seq<TAction>, post: Seq<TAction>, j: int, n: int)
    requires
        extended_per_slot(pre, post, j),
        0 <= j <= n,
    ensures
        extended_per_slot(pre, post, n),
    decreases n - j,
{
    if j < n {
        lemma_per_slot_pad(pre, post, j, n - 1);
        lemma_extended_refl(post, (n - 1) as u8);
        assert(exists|mid: Seq<TAction>|
            extended_per_slot(pre, mid, n - 1) && #[trigger] extended_for(
                mid,
                post,
                (n - 1) as u8,
            )) by {
            assert(extended_per_slot(pre, post, n - 1) && extended_for(post, post, (n - 1) as u8));
        }
        assert(extended_per_slot(pre, post, n));
    }
}

/// A per-slot extension touches only sockets below any bound at or above the
/// slot count.
pub proof fn lemma_per_slot_below(pre: Seq<TAction>, post: Seq<TAction>, k: int, bound: int)
    requires
        extended_per_slot(pre, post, k),
        k <= bound,
        0 <= bound,
    ensures
        extended_below(pre, post, bound),
    decreases k,
{
    if k <= 0 {
        lemma_extended_below_refl(pre, bound);
        assert(extended_below(pre, post, bound));
    } else {
        let mid = choose|mid: Seq<TAction>|
            extended_per_slot(pre, mid, k - 1) && #[trigger] extended_for(mid, post, (k - 1) as u8);
        lemma_per_slot_below(pre, mid, k - 1, bound);
        lemma_extended_for_below(mid, post, (k - 1) as u8, bound);
        lemma_extended_below_trans(pre, mid, post, bound, bound);
    }
}

/// The closes issued at startup, one per socket in index order.
pub open spec fn init_closes(n: nat) -> Seq<TAction> {
    Seq::new(n, |i: int| TAction::Close { sock: i as u8 })
}

/// The log grew from `pre` to `post` by exactly the first `j` startup closes.
pub open spec fn startup_prefix(pre: Seq<TAction>, post: Seq<TAction>, j: int) -> bool {
    0 <= j && post == pre + init_closes(j as nat)
}

/// The log grew from `pre` to `post` by `k` poll passes over `n` slots, each
/// pass a per-slot extension in index order (a pass cut short contributes
/// empty runs for the slots it never reached).
pub open spec fn pass_chain(pre: Seq<TAction>, post: Seq<TAction>, n: int, k: nat) -> bool
    decreases k,
{
    if k == 0 {
        post == pre
    } else {
        exists|mid: Seq<TAction>|
            pass_chain(pre, mid, n, (k - 1) as nat) && #[trigger] extended_per_slot(mid, post, n)
    }
}

/// Send `data[..len]` on `socket`, retrying until every byte has been
/// accepted. Each call may accept fewer bytes than offered; success is
/// reported only once the accepted bytes add up to exactly `len`. Returns
/// how many send calls were made.
pub fn eth_write<T: Transport>(t: &mut T, socket: u8, data: &Vec<u8>, len: usize) -> (r: Result<
    usize,
    WebServerError,
>)
    requires
        len <= data@.len(),
    ensures
        final(t).send_cap() == old(t).send_cap(),
        extended_for(old(t).log(), final(t).log(), socket),
        r matches Ok(calls) ==> exists|run: Seq<TAction>|
            final(t).log() == old(t).log() + run && is_send_run(
                run,
                socket,
                data@.take(len as int),
            ) && run.len() == calls as int,
        r matches Ok(calls) ==> (old(t).send_cap() matches Some(c) ==> (c >= 1 ==> calls as nat
            == retry_calls(len as nat, c as nat))),
        old(t).send_cap() matches Some(c) ==> (c >= 1 ==> r matches Ok(_)),
        r matches Err(e) ==> e matches WebServerError::Io(_) && exists|run: Seq<TAction>, k: int|
            0 <= k <= len && final(t).log() == old(t).log() + run && is_send_run(
                run,
                socket,
                data@.take(k),
            ),
{
    let mut start: usize = 0;
    let mut calls: usize = 0;
    let ghost mut run: Seq<TAction> = Seq::empty();
    proof {
        assert(old(t).log() + run =~= old(t).log());
        assert(data@.take(0) =~= Seq::<u8>::empty());
    }
    while start < len
        invariant
            len <= data@.len(),
            start <= len,
            calls <= start,
            t.log() == old(t).log() + run,
            is_send_run(run, socket, data@.take(start as int)),
            run.len() == calls as int,
            t.send_cap() == old(t).send_cap(),
            old(t).send_cap() matches Some(c) ==> (c >= 1 ==> calls as nat + retry_calls(
                (len - start) as nat,
                c as nat,
            ) == retry_calls(len as nat, c as nat)),
        decreases len - start,
    {
        match t.send(socket, data, start, len) {
            Ok(n) => {
                proof {
                    let chunk = TAction::Send {
                        sock: socket,
                        data: data@.subrange(start as int, start + n as int),
                    };
                    lemma_run_bytes_push(run, chunk);
                    run = run.push(chunk);
                    assert(data@.take(start as int) + data@.subrange(
                        start as int,
                        start + n as int,
                    ) =~= data@.take(start + n as int));
                    assert(t.log() =~= old(t).log() + run);
                }
                start = start + n;
                calls = calls + 1;
            },
            Err(e) => {
                proof {
                    assert(t.log() =~= old(t).log() + run);
                    assert(extended_for(old(t).log(), t.log(), socket));
                }
                return Err(WebServerError::Io(e));
            },
        }
    }
    proof {
        assert(extended_for(old(t).log(), t.log(), socket));
    }
    Ok(calls)
}

/// Encode the payload `ws_buffer[..count]` as one final frame of the given
/// kind (using the raw-transport buffer as staging) and send it whole.
pub fn ws_write_back<T: Transport>(
    t: &mut T,
    socket: u8,
    eth_buffer: &mut Vec<u8>,
    ws_buffer: &Vec<u8>,
    count: usize,
    kind: SendKind,
) -> (r: Result<(), WebServerError>)
    requires
        count <= ws_buffer@.len(),
        ws_buffer@.len() + 10 <= old(eth_buffer)@.len(),
    ensures
        final(eth_buffer)@.len() == old(eth_buffer)@.len(),
        final(t).send_cap() == old(t).send_cap(),
        extended_for(old(t).log(), final(t).log(), socket),
        r matches Ok(_) ==> exists|run: Seq<TAction>|
            final(t).log() == old(t).log() + run && is_send_run(
                run,
                socket,
                frame_bytes(first_byte_of(kind), ws_buffer@.take(count as int)),
            ),
        r matches Err(e) ==> e matches WebServerError::Io(_),
        old(t).send_cap() matches Some(c) ==> (c >= 1 ==> r matches Ok(_)),
{
    let ghost payload = ws_buffer@.take(count as int);
    proof {
        assert(frame_bytes(first_byte_of(kind), payload).len() <= count + 10);
    }
    match codec_write(kind, ws_buffer, count, eth_buffer) {
        Ok(n) => {
            match eth_write(t, socket, eth_buffer, n) {
                Ok(_) => Ok(()),
                Err(e) => Err(e),
            }
        },
        Err(e) => {
            // unreachable: the frame always fits the raw-transport buffer
            proof {
                lemma_extended_refl(old(t).log(), socket);
            }
            Err(WebServerError::WebSocket(e))
        },
    }
}

/// React to one decoded WebSocket frame for an open session, as the frame's
/// type prescribes: echo text, answer ping with pong, reply to a close and
/// close the TCP connection, close on a completed close handshake, and drop
/// binary and pong frames. Text payloads (and the close reason past the
/// two-byte status code) must be valid UTF-8; a violation is an encoding
/// error and nothing is sent.
pub fn handle_ws_message<T: Transport>(
    t: &mut T,
    conn: &mut Connection,
    eth_buffer: &mut Vec<u8>,
    ws_buffer: &Vec<u8>,
    kind: FrameKind,
    count: usize,
) -> (r: Result<(), WebServerError>)
    requires
        count <= ws_buffer@.len(),
        ws_buffer@.len() + 10 <= old(eth_buffer)@.len(),
    ensures
        final(conn).socket == old(conn).socket,
        final(conn).socket_status == old(conn).socket_status,
        final(eth_buffer)@.len() == old(eth_buffer)@.len(),
        final(t).send_cap() == old(t).send_cap(),
        extended_for(old(t).log(), final(t).log(), old(conn).socket),
        r matches Ok(_) ==> ws_reaction(
            old(t).log(),
            final(t).log(),
            *old(conn),
            *final(conn),
            kind,
            ws_buffer@.take(count as int),
        ),
        r matches Err(e) ==> e matches WebServerError::Io(_) || e matches WebServerError::Utf8Error,
        r matches Err(e) ==> (e matches WebServerError::Utf8Error ==> final(t).log() == old(
            t,
        ).log() && utf8_violation(kind, ws_buffer@.take(count as int))),
        utf8_violation(kind, ws_buffer@.take(count as int)) ==> (r matches Err(e)
            && e matches WebServerError::Utf8Error),
        kind == FrameKind::Binary || kind == FrameKind::Pong ==> r matches Ok(_),
        old(t).send_cap() matches Some(c) ==> ((c >= 1 && (kind == FrameKind::Ping || (kind
            == FrameKind::Text && vstd::utf8::valid_utf8(ws_buffer@.take(count as int)))))
            ==> r matches Ok(_)),
{
    let socket = conn.socket;
    proof {
        assert(ws_buffer@.subrange(0, count as int) =~= ws_buffer@.take(count as int));
        lemma_extended_refl(old(t).log(), socket);
    }
    match kind {
        FrameKind::Text => {
            if !utf8_ok(ws_buffer, 0, count) {
                return Err(WebServerError::Utf8Error);
            }
            ws_write_back(t, socket, eth_buffer, ws_buffer, count, SendKind::Text)
        },
        FrameKind::Binary => Ok(()),
        FrameKind::Ping => ws_write_back(t, socket, eth_buffer, ws_buffer, count, SendKind::Pong),
        FrameKind::Pong => Ok(()),
        FrameKind::CloseMustReply => {
            proof {
                if count > 2 {
                    assert(ws_buffer@.take(count as int).skip(2) =~= ws_buffer@.subrange(
                        2,
                        count as int,
                    ));
                }
            }
            if count > 2 {
                if !utf8_ok(ws_buffer, 2, count) {
                    return Err(WebServerError::Utf8Error);
                }
            }
            match ws_write_back(t, socket, eth_buffer, ws_buffer, count, SendKind::CloseReply) {
                Ok(_) => {},
                Err(e) => {
                    return Err(e);
                },
            }
            let ghost mid_log = t.log();
            match t.close(socket) {
                Ok(_) => {},
                Err(e) => {
                    return Err(WebServerError::Io(e));
                },
            }
            conn.web_socket_state = WsState::Closed;
            proof {
                let run = choose|run: Seq<TAction>|
                    mid_log == old(t).log() + run && is_send_run(
                        run,
                        socket,
                        frame_bytes(first_byte_of(SendKind::CloseReply), ws_buffer@.take(count as int)),
                    );
                assert(t.log() =~= old(t).log() + run + seq![TAction::Close { sock: socket }]);
                lemma_extended_push(
                    old(t).log(),
                    mid_log,
                    socket,
                    TAction::Close { sock: socket },
                );
            }
            Ok(())
        },
        FrameKind::CloseCompleted => {
            match t.close(socket) {
                Ok(_) => {},
                Err(e) => {
                    return Err(WebServerError::Io(e));
                },
            }
            conn.web_socket_state = WsState::Closed;
            proof {
                lemma_extended_push(
                    old(t).log(),
                    old(t).log(),
                    socket,
                    TAction::Close { sock: socket },
                );
            }
            Ok(())
        },
    }
}

/// Send a fully built HTTP response and close the TCP connection.
pub fn send_html_and_close<T: Transport>(t: &mut T, socket: u8, response: &Vec<u8>) -> (r: Result<
    (),
    WebServerError,
>)
    ensures
        final(t).send_cap() == old(t).send_cap(),
        extended_for(old(t).log(), final(t).log(), socket),
        r matches Ok(_) ==> exists|run: Seq<TAction>|
            final(t).log() == old(t).log() + run + seq![TAction::Close { sock: socket }]
                && is_send_run(run, socket, response@),
        r matches Err(e) ==> e matches WebServerError::Io(_),
        r matches Err(e) ==> exists|run: Seq<TAction>, k: int|
            0 <= k <= response@.len() && final(t).log() == old(t).log() + run && is_send_run(
                run,
                socket,
                response@.take(k),
            ),
{
    proof {
        assert(response@.take(response@.len() as int) =~= response@);
    }
    match eth_write(t, socket, response, response.len()) {
        Ok(_) => {},
        Err(e) => {
            return Err(e);
        },
    }
    let ghost mid_log = t.log();
    match t.close(socket) {
        Ok(_) => {},
        Err(e) => {
            proof {
                let run = choose|run: Seq<TAction>|
                    mid_log == old(t).log() + run && is_send_run(run, socket, response@);
                assert(is_send_run(run, socket, response@.take(response@.len() as int)));
            }
            return Err(WebServerError::Io(e));
        },
    }
    proof {
        let run = choose|run: Seq<TAction>|
            mid_log == old(t).log() + run && is_send_run(run, socket, response@);
        assert(t.log() =~= old(t).log() + run + seq![TAction::Close { sock: socket }]);
        lemma_extended_push(old(t).log(), mid_log, socket, TAction::Close { sock: socket });
    }
    Ok(())
}

/// Route one parsed HTTP request: a WebSocket upgrade request is answered
/// with the handshake response (written fully) and opens the session; the
/// root path is answered with the served page and a 404 answers anything
/// else, both followed by a TCP close.
pub fn handle_http_request<T: Transport>(
    t: &mut T,
    conn: &mut Connection,
    eth_buffer: &mut Vec<u8>,
    req: &HttpRequest,
    html: &Vec<u8>,
) -> (r: Result<(), WebServerError>)
    requires
        http_request_wf(*req),
        old(eth_buffer)@.len() >= 1024,
    ensures
        final(conn).socket == old(conn).socket,
        final(conn).socket_status == old(conn).socket_status,
        final(eth_buffer)@.len() == old(eth_buffer)@.len(),
        final(t).send_cap() == old(t).send_cap(),
        extended_for(old(t).log(), final(t).log(), old(conn).socket),
        r matches Ok(_) ==> ({
            let sock = old(conn).socket;
            match req.upgrade_key {
                Some(k) => final(conn).web_socket_state == WsState::Open && exists|
                    run: Seq<TAction>,
                |
                    final(t).log() == old(t).log() + run && is_send_run(
                        run,
                        sock,
                        handshake_response_of(k@),
                    ),
                None => final(conn).web_socket_state == old(conn).web_socket_state && exists|
                    run: Seq<TAction>,
                |
                    final(t).log() == old(t).log() + run + seq![TAction::Close { sock }]
                        && is_send_run(
                        run,
                        sock,
                        if req.path@ == seq![47u8] {
                            ok_response_bytes(html@)
                        } else {
                            not_found_bytes()
                        },
                    ),
            }
        }),
        r matches Err(e) ==> e matches WebServerError::Io(_) || e matches WebServerError::WebSocket(
            _,
        ),
        r matches Err(e) ==> (e matches WebServerError::WebSocket(_) ==> final(t).log() == old(
            t,
        ).log()),
        req.upgrade_key matches Some(_) ==> (old(t).send_cap() matches Some(c) ==> (c >= 1
            ==> r matches Ok(_))),
{
    let socket = conn.socket;
    proof {
        lemma_extended_refl(old(t).log(), socket);
    }
    match &req.upgrade_key {
        Some(key) => {
            let n = match codec_handshake(key, eth_buffer) {
                Ok(n) => n,
                Err(e) => {
                    return Err(WebServerError::WebSocket(e));
                },
            };
            match eth_write(t, socket, eth_buffer, n) {
                Ok(_) => {},
                Err(e) => {
                    return Err(e);
                },
            }
            conn.web_socket_state = WsState::Open;
            Ok(())
        },
        None => {
            let is_root = req.path.len() == 1 && *vstd::slice::slice_index_get(
                req.path.as_slice(),
                0,
            ) == 47u8;
            proof {
                if is_root {
                    assert(req.path@ =~= seq![47u8]);
                } else {
                    assert(req.path@ != seq![47u8]);
                }
            }
            let response = if is_root {
                ok_response(html)
            } else {
                not_found_response()
            };
            send_html_and_close(t, socket, &response)
        },
    }
}

/// Decode one WebSocket frame from the received bytes `eth_buffer[..size]`
/// and react to it. The decode outcome is the fixed function [`decode_of`] of
/// the received bytes and the payload buffer's capacity; the reaction to it
/// is [`ws_reaction`]. A frame the codec rejects (among them a continuation
/// frame: fragmented messages are not reassembled) is a protocol error, and
/// nothing is sent for it.
pub fn ws_read<T: Transport>(
    t: &mut T,
    conn: &mut Connection,
    eth_buffer: &mut Vec<u8>,
    ws_buffer: &mut Vec<u8>,
    size: usize,
) -> (r: Result<(), WebServerError>)
    requires
        size <= old(eth_buffer)@.len(),
        old(ws_buffer)@.len() + 10 <= old(eth_buffer)@.len(),
    ensures
        final(conn).socket == old(conn).socket,
        final(conn).socket_status == old(conn).socket_status,
        final(eth_buffer)@.len() == old(eth_buffer)@.len(),
        final(ws_buffer)@.len() == old(ws_buffer)@.len(),
        final(t).send_cap() == old(t).send_cap(),
        extended_for(old(t).log(), final(t).log(), old(conn).socket),
        ({
            let d = decode_of(old(eth_buffer)@.take(size as int), old(ws_buffer)@.len() as nat);
            &&& ((r matches Err(e) && e matches WebServerError::WebSocket(_)) <==> !d.ok)
            &&& (r matches Err(e) ==> (e matches WebServerError::WebSocket(_) ==> final(t).log()
                == old(t).log()))
            &&& (r matches Err(e) ==> (e matches WebServerError::Utf8Error ==> final(t).log()
                == old(t).log() && d.ok && utf8_violation(d.kind, d.payload)))
            &&& (d.ok && utf8_violation(d.kind, d.payload) ==> (r matches Err(e)
                && e matches WebServerError::Utf8Error))
            &&& (r matches Ok(_) ==> d.ok && ws_reaction(
                old(t).log(),
                final(t).log(),
                *old(conn),
                *final(conn),
                d.kind,
                d.payload,
            ))
            &&& (d.ok && (d.kind == FrameKind::Binary || d.kind == FrameKind::Pong)
                ==> r matches Ok(_))
            &&& (old(t).send_cap() matches Some(c) ==> ((c >= 1 && d.ok && (d.kind
                == FrameKind::Ping || (d.kind == FrameKind::Text && vstd::utf8::valid_utf8(
                d.payload,
            )))) ==> r matches Ok(_)))
        }),
{
    proof {
        lemma_extended_refl(old(t).log(), conn.socket);
    }
    let ghost d = decode_of(eth_buffer@.take(size as int), ws_buffer@.len() as nat);
    match codec_read(eth_buffer, size, ws_buffer) {
        Ok((kind, count)) => {
            proof {
                assert(kind == d.kind && count as int == d.payload.len());
                assert(ws_buffer@.take(count as int) == d.payload);
            }
            handle_ws_message(t, conn, eth_buffer, ws_buffer, kind, count)
        },
        Err(e) => Err(WebServerError::WebSocket(e)),
    }
}

/// Receive whatever bytes are pending for an established session and
/// dispatch them: through the WebSocket codec when the session is open,
/// through HTTP routing otherwise.
pub fn eth_read<T: Transport>(
    t: &mut T,
    conn: &mut Connection,
    eth_buffer: &mut Vec<u8>,
    ws_buffer: &mut Vec<u8>,
    html: &Vec<u8>,
) -> (r: Result<(), WebServerError>)
    requires
        old(ws_buffer)@.len() + 10 <= old(eth_buffer)@.len(),
        old(eth_buffer)@.len() >= 1024,
    ensures
        final(conn).socket == old(conn).socket,
        final(conn).socket_status == old(conn).socket_status,
        final(eth_buffer)@.len() == old(eth_buffer)@.len(),
        final(ws_buffer)@.len() == old(ws_buffer)@.len(),
        final(t).send_cap() == old(t).send_cap(),
        extended_for(old(t).log(), final(t).log(), old(conn).socket),
        r matches Err(e) ==> ((e matches WebServerError::WebSocket(_)
            || e matches WebServerError::Utf8Error) ==> final(t).log() == old(t).log()),
{
    let socket = conn.socket;
    proof {
        lemma_extended_refl(old(t).log(), socket);
    }
    let size_opt = match t.try_receive(socket, eth_buffer) {
        Ok(o) => o,
        Err(e) => {
            return Err(WebServerError::Io(e));
        },
    };
    match size_opt {
        None => Ok(()),
        Some(size) => {
            if conn.web_socket_state == WsState::Open {
                ws_read(t, conn, eth_buffer, ws_buffer, size)
            } else {
                match parse_http(eth_buffer, size) {
                    Ok(req) => handle_http_request(t, conn, eth_buffer, &req, html),
                    Err(e) => Err(WebServerError::WebSocket(e)),
                }
            }
        },
    }
}

/// Perform the lifecycle action one observed TCP status calls for: a closed
/// or close-wait socket is opened (exactly one open action), an initialized
/// socket is put to listen on the configured port, an established socket is
/// read and dispatched, and any other status is left alone.
pub fn apply_status<T: Transport>(
    t: &mut T,
    conn: &mut Connection,
    port: u16,
    eth_buffer: &mut Vec<u8>,
    ws_buffer: &mut Vec<u8>,
    html: &Vec<u8>,
    status: TransportStatus,
) -> (r: Result<(), WebServerError>)
    requires
        old(ws_buffer)@.len() + 10 <= old(eth_buffer)@.len(),
        old(eth_buffer)@.len() >= 1024,
    ensures
        final(conn).socket == old(conn).socket,
        final(conn).socket_status == old(conn).socket_status,
        final(eth_buffer)@.len() == old(eth_buffer)@.len(),
        final(ws_buffer)@.len() == old(ws_buffer)@.len(),
        final(t).send_cap() == old(t).send_cap(),
        extended_for(old(t).log(), final(t).log(), old(conn).socket),
        r matches Ok(_) ==> status_reaction(
            old(t).log(),
            final(t).log(),
            old(conn).socket,
            port,
            status,
        ) && (status != TransportStatus::Established ==> final(conn).web_socket_state == old(
            conn,
        ).web_socket_state),
        status == TransportStatus::Listen || status == TransportStatus::Other ==> r matches Ok(_),
{
    let socket = conn.socket;
    proof {
        lemma_extended_refl(old(t).log(), socket);
    }
    match status {
        TransportStatus::Closed | TransportStatus::CloseWait => {
            match t.open(socket) {
                Ok(_) => {
                    proof {
                        lemma_extended_push(
                            old(t).log(),
                            old(t).log(),
                            socket,
                            TAction::Open { sock: socket },
                        );
                    }
                    Ok(())
                },
                Err(e) => Err(WebServerError::Io(e)),
            }
        },
        TransportStatus::Init => {
            match t.listen(socket, port) {
                Ok(_) => {
                    proof {
                        lemma_extended_push(
                            old(t).log(),
                            old(t).log(),
                            socket,
                            TAction::Listen { sock: socket, port },
                        );
                    }
                    Ok(())
                },
                Err(e) => Err(WebServerError::Io(e)),
            }
        },
        TransportStatus::Established => eth_read(t, conn, eth_buffer, ws_buffer, html),
        TransportStatus::Listen | TransportStatus::Other => Ok(()),
    }
}

/// How visiting one slot went: what status was observed, and what that
/// forced.
#[derive(Clone, Copy, PartialEq, Eq, Structural, Debug)]
pub enum SlotOutcome {
    /// The status query failed: the failure is swallowed, the slot is
    /// skipped this pass, and nothing is done for it.
    QueryFailed,
    /// The driver reported a status value it does not know: the server must
    /// halt.
    UnknownStatus,
    /// A status the server does not handle was observed: the server must
    /// halt.
    UnhandledStatus,
    /// The slot was serviced for this observed status.
    Serviced(TransportStatus),
}

/// Visit one slot: query its TCP status, record a status change, and apply
/// the lifecycle action that status calls for. A failed status query is
/// recovered (the slot is skipped); a status the server does not handle, or
/// one unknown to the driver, demands a halt, which the caller performs.
pub fn poll_slot<T: Transport>(
    t: &mut T,
    conn: &mut Connection,
    port: u16,
    eth_buffer: &mut Vec<u8>,
    ws_buffer: &mut Vec<u8>,
    html: &Vec<u8>,
) -> (r: Result<SlotOutcome, WebServerError>)
    requires
        old(ws_buffer)@.len() + 10 <= old(eth_buffer)@.len(),
        old(eth_buffer)@.len() >= 1024,
    ensures
        final(conn).socket == old(conn).socket,
        final(eth_buffer)@.len() == old(eth_buffer)@.len(),
        final(ws_buffer)@.len() == old(ws_buffer)@.len(),
        final(t).send_cap() == old(t).send_cap(),
        extended_for(old(t).log(), final(t).log(), old(conn).socket),
        r matches Ok(o) ==> match o {
            SlotOutcome::QueryFailed => final(t).log() == old(t).log()
                && *final(conn) == *old(conn),
            SlotOutcome::UnknownStatus => final(t).log() == old(t).log()
                && *final(conn) == *old(conn),
            SlotOutcome::UnhandledStatus => final(t).log() == old(t).log()
                && final(conn).socket_status == TransportStatus::Other
                && final(conn).web_socket_state == old(conn).web_socket_state,
            SlotOutcome::Serviced(st) => st != TransportStatus::Other && final(conn).socket_status
                == st && status_reaction(old(t).log(), final(t).log(), old(conn).socket, port, st)
                && (st != TransportStatus::Established ==> final(conn).web_socket_state
                == old(conn).web_socket_state),
        },
{
    proof {
        lemma_extended_refl(old(t).log(), conn.socket);
    }
    match t.get_status(conn.socket) {
        Err(_e) => {
            // a failed status query is recovered: skip this slot this pass
            Ok(SlotOutcome::QueryFailed)
        },
        Ok(None) => {
            // a status the driver does not know: the server halts
            Ok(SlotOutcome::UnknownStatus)
        },
        Ok(Some(status)) => {
            if conn.socket_status != status {
                // observable status-change event
                conn.socket_status = status;
            }
            if status == TransportStatus::Other {
                // a status the server does not handle: the server halts
                return Ok(SlotOutcome::UnhandledStatus);
            }
            match apply_status(t, conn, port, eth_buffer, ws_buffer, html, status) {
                Ok(_) => Ok(SlotOutcome::Serviced(status)),
                Err(e) => Err(e),
            }
        },
    }
}

/// Visit every slot exactly once, in index order: the log grows by one run
/// per slot, slot 0's first. The first unrecovered error or halt-demanding
/// status stops the pass at once; the returned ghost index names the slot
/// where the pass stopped (the slot count itself when it completed), and
/// slots past it contribute nothing.
pub fn poll_pass<T: Transport>(
    t: &mut T,
    connections: &mut Vec<Connection>,
    port: u16,
    eth_buffer: &mut Vec<u8>,
    ws_buffer: &mut Vec<u8>,
    html: &Vec<u8>,
) -> (r: (Result<bool, WebServerError>, Ghost<int>))
    requires
        connections_wf(old(connections)@),
        old(ws_buffer)@.len() + 10 <= old(eth_buffer)@.len(),
        old(eth_buffer)@.len() >= 1024,
    ensures
        connections_wf(final(connections)@),
        final(connections)@.len() == old(connections)@.len(),
        final(eth_buffer)@.len() == old(eth_buffer)@.len(),
        final(ws_buffer)@.len() == old(ws_buffer)@.len(),
        final(t).send_cap() == old(t).send_cap(),
        0 <= r.1@ <= old(connections)@.len(),
        r.0 matches Ok(true) ==> r.1@ == old(connections)@.len() && extended_per_slot(
            old(t).log(),
            final(t).log(),
            r.1@,
        ),
        !(r.0 matches Ok(true)) ==> r.1@ < old(connections)@.len() && exists|mid: Seq<TAction>|
            extended_per_slot(old(t).log(), mid, r.1@) && #[trigger] extended_for(
                mid,
                final(t).log(),
                r.1@ as u8,
            ),
        extended_below(old(t).log(), final(t).log(), old(connections)@.len() as int),
{
    let mut index: usize = 0;
    proof {
        assert(extended_per_slot(old(t).log(), old(t).log(), 0));
        lemma_extended_below_refl(old(t).log(), old(connections)@.len() as int);
    }
    while index < connections.len()
        invariant
            connections_wf(connections@),
            connections@.len() == old(connections)@.len(),
            index <= connections@.len(),
            eth_buffer@.len() == old(eth_buffer)@.len(),
            ws_buffer@.len() == old(ws_buffer)@.len(),
            old(ws_buffer)@.len() + 10 <= old(eth_buffer)@.len(),
            old(eth_buffer)@.len() >= 1024,
            t.send_cap() == old(t).send_cap(),
            extended_per_slot(old(t).log(), t.log(), index as int),
        decreases connections@.len() - index,
    {
        let ghost pre_log = t.log();
        let conn = vstd::std_specs::vec::vec_index_mut(connections, index);
        let outcome = poll_slot(t, conn, port, eth_buffer, ws_buffer, html);
        proof {
            assert(extended_for(pre_log, t.log(), ((index as int + 1) - 1) as u8));
        }
        match outcome {
            Ok(SlotOutcome::QueryFailed) | Ok(SlotOutcome::Serviced(_)) => {
                proof {
                    assert(extended_per_slot(old(t).log(), t.log(), index as int + 1));
                }
            },
            Ok(SlotOutcome::UnknownStatus) | Ok(SlotOutcome::UnhandledStatus) => {
                proof {
                    lemma_per_slot_below(
                        old(t).log(),
                        pre_log,
                        index as int,
                        connections@.len() as int,
                    );
                    lemma_extended_for_below(
                        pre_log,
                        t.log(),
                        index as u8,
                        connections@.len() as int,
                    );
                    lemma_extended_below_trans(
                        old(t).log(),
                        pre_log,
                        t.log(),
                        connections@.len() as int,
                        connections@.len() as int,
                    );
                }
                return (Ok(false), Ghost(index as int));
            },
            Err(e) => {
                proof {
                    lemma_per_slot_below(
                        old(t).log(),
                        pre_log,
                        index as int,
                        connections@.len() as int,
                    );
                    lemma_extended_for_below(
                        pre_log,
                        t.log(),
                        index as u8,
                        connections@.len() as int,
                    );
                    lemma_extended_below_trans(
                        old(t).log(),
                        pre_log,
                        t.log(),
                        connections@.len() as int,
                        connections@.len() as int,
                    );
                }
                return (Err(e), Ghost(index as int));
            },
        }
        index = index + 1;
    }
    proof {
        lemma_per_slot_below(
            old(t).log(),
            t.log(),
            connections@.len() as int,
            connections@.len() as int,
        );
    }
    (Ok(true), Ghost(connections@.len() as int))
}

/// Run the server: bind one session slot to each socket, close every socket
/// (one close per socket, in index order), then poll the slots round after
/// round; each round is one per-slot pass, so the whole log is the startup
/// closes followed by a chain of passes, and only sockets of the pool are
/// ever touched. `Ok(true)` says the server halted on a status it cannot act
/// on (unknown to the driver, or unhandled); a transport, protocol or
/// encoding error escaping a slot is returned and halts service for every
/// socket. Termination checking asks for a bound, so the caller says how
/// many poll passes to run at most: `Ok(false)` says the budget ran out with
/// the server still healthy, and a deployment calls again in its own outer
/// loop.
pub fn run_web_server<T: Transport>(
    t: &mut T,
    num_sockets: u8,
    port: u16,
    html: &Vec<u8>,
    passes: usize,
) -> (r: Result<bool, WebServerError>)
    ensures
        final(t).send_cap() == old(t).send_cap(),
        extended_below(old(t).log(), final(t).log(), num_sockets as int),
        r matches Ok(_) ==> exists|k: nat|
            #[trigger] pass_chain(
                old(t).log() + init_closes(num_sockets as nat),
                final(t).log(),
                num_sockets as int,
                k,
            ),
        r matches Err(_) ==> (exists|k: nat|
            #[trigger] pass_chain(
                old(t).log() + init_closes(num_sockets as nat),
                final(t).log(),
                num_sockets as int,
                k,
            )) || (exists|j: int|
            j <= num_sockets as int && #[trigger] startup_prefix(
                old(t).log(),
                final(t).log(),
                j,
            )),
{
    let mut eth_buffer: Vec<u8> = vec![0u8; ETH_BUFFER_LEN];
    let mut ws_buffer: Vec<u8> = vec![0u8; WS_BUFFER_LEN];
    let mut connections = new_connections(num_sockets);

    // make sure all the sockets are closed before the loop starts
    let mut i: usize = 0;
    proof {
        assert(old(t).log() + init_closes(0) =~= old(t).log());
        lemma_extended_below_refl(old(t).log(), num_sockets as int);
    }
    while i < connections.len()
        invariant
            connections_wf(connections@),
            connections@.len() == num_sockets as int,
            i <= connections@.len(),
            t.send_cap() == old(t).send_cap(),
            t.log() == old(t).log() + init_closes(i as nat),
            extended_below(old(t).log(), t.log(), num_sockets as int),
        decreases connections@.len() - i,
    {
        let sock = connections[i].socket;
        match t.close(sock) {
            Ok(_) => {
                proof {
                    assert(init_closes((i + 1) as nat) =~= init_closes(i as nat).push(
                        TAction::Close { sock: i as u8 },
                    ));
                    assert(t.log() =~= old(t).log() + init_closes((i + 1) as nat));
                    assert forall|j: int| 0 <= j < (i + 1) as int implies action_sock(
                        #[trigger] init_closes((i + 1) as nat)[j],
                    ) < num_sockets as int by {}
                    assert(socks_below(init_closes((i + 1) as nat), num_sockets as int));
                    assert(extended_below(old(t).log(), t.log(), num_sockets as int));
                }
            },
            Err(e) => {
                proof {
                    assert(startup_prefix(old(t).log(), t.log(), i as int));
                }
                return Err(WebServerError::Io(e));
            },
        }
        i = i + 1;
    }

    let ghost chain_base = t.log();
    let mut pass: usize = 0;
    proof {
        assert(pass_chain(chain_base, t.log(), num_sockets as int, 0));
    }
    while pass < passes
        invariant
            connections_wf(connections@),
            connections@.len() == num_sockets as int,
            eth_buffer@.len() == ETH_BUFFER_LEN,
            ws_buffer@.len() == WS_BUFFER_LEN,
            t.send_cap() == old(t).send_cap(),
            pass <= passes,
            chain_base == old(t).log() + init_closes(num_sockets as nat),
            pass_chain(chain_base, t.log(), num_sockets as int, pass as nat),
            extended_below(old(t).log(), t.log(), num_sockets as int),
        decreases passes - pass,
    {
        let ghost pre_pass = t.log();
        let (outcome, stop) = poll_pass(
            t,
            &mut connections,
            port,
            &mut eth_buffer,
            &mut ws_buffer,
            html,
        );
        proof {
            if !(outcome matches Ok(true)) {
                let kk = stop@;
                let mid = choose|mid: Seq<TAction>|
                    extended_per_slot(pre_pass, mid, kk) && #[trigger] extended_for(
                        mid,
                        t.log(),
                        kk as u8,
                    );
                assert(extended_for(mid, t.log(), ((kk + 1) - 1) as u8));
                assert(extended_per_slot(pre_pass, t.log(), kk + 1));
                lemma_per_slot_pad(pre_pass, t.log(), kk + 1, num_sockets as int);
            }
            assert(extended_per_slot(pre_pass, t.log(), num_sockets as int)) by {
                if outcome matches Ok(true) {
                    lemma_per_slot_pad(pre_pass, t.log(), num_sockets as int, num_sockets as int);
                }
            }
            assert(pass_chain(chain_base, t.log(), num_sockets as int, (pass + 1) as nat));
            lemma_extended_below_trans(
                old(t).log(),
                pre_pass,
                t.log(),
                num_sockets as int,
                num_sockets as int,
            );
        }
        match outcome {
            Ok(true) => {},
            Ok(false) => {
                return Ok(true);
            },
            Err(e) => {
                return Err(e);
            },
        }
        pass = pass + 1;
    }
    Ok(false)
}

} // verus!

