//! Trusted boundary to the WebSocket/HTTP byte codec.
//!
//! Every call is made on a fresh server-role codec whose public state field is
//! forced to the session state the caller tracks, so each call is a plain
//! function from byte values to byte values. The session's own WebSocket
//! sub-state lives in [`crate::server::Connection`] as a plain enum.
use vstd::prelude::*;

verus! {

/// The frame types the server sends.
#[derive(Clone, Copy, PartialEq, Eq, Structural, Debug)]
pub enum SendKind {
    Text,
    Binary,
    Ping,
    Pong,
    CloseReply,
}

/// The frame types the server can receive from the codec.
#[derive(Clone, Copy, PartialEq, Eq, Structural, Debug)]
pub enum FrameKind {
    Text,
    Binary,
    Ping,
    Pong,
    /// The peer initiated the close handshake; a close reply is owed.
    CloseMustReply,
    /// The peer finished a close handshake this side initiated.
    CloseCompleted,
}

/// First header byte of a final (unfragmented) frame of the given kind:
/// FIN bit plus the opcode.
pub open spec fn first_byte_of(kind: SendKind) -> u8 {
    match kind {
        SendKind::Text => 0x81u8,
        SendKind::Binary => 0x82u8,
        SendKind::Ping => 0x89u8,
        SendKind::Pong => 0x8Au8,
        SendKind::CloseReply => 0x88u8,
    }
}

/// Two big-endian bytes of `n`.
pub open spec fn be16(n: nat) -> Seq<u8> {
    seq![((n / 256) % 256) as u8, (n % 256) as u8]
}

/// Eight big-endian bytes of `n`.
pub open spec fn be64(n: nat) -> Seq<u8> {
    seq![
        ((n / 72057594037927936) % 256) as u8,
        ((n / 281474976710656) % 256) as u8,
        ((n / 1099511627776) % 256) as u8,
        ((n / 4294967296) % 256) as u8,
        ((n / 16777216) % 256) as u8,
        ((n / 65536) % 256) as u8,
        ((n / 256) % 256) as u8,
        (n % 256) as u8,
    ]
}

/// The bytes of an unmasked (server-to-client) frame: first header byte `b1`,
/// then the payload length in the form the frame format prescribes, then the
/// payload itself.
pub open spec fn frame_bytes(b1: u8, payload: Seq<u8>) -> Seq<u8> {
    let len = payload.len();
    if len < 126 {
        seq![b1, len as u8] + payload
    } else if len < 65535 {
        seq![b1, 126u8] + be16(len) + payload
    } else {
        seq![b1, 127u8] + be64(len) + payload
    }
}

/// An HTTP request, reduced to what the server routes on: the request path
/// and, for a WebSocket upgrade request, the client's handshake key.
pub struct HttpRequest {
    pub path: Vec<u8>,
    pub upgrade_key: Option<String>,
}

/// The handshake key fits the codec's bounded key type.
pub open spec fn http_request_wf(r: HttpRequest) -> bool {
    r.upgrade_key matches Some(k) ==> vstd::utf8::encode_utf8(k@).len() <= 24
}

/// The codec's 101-switching-protocols response for a handshake key: a fixed
/// function of the key alone (no subprotocol is ever offered).
pub uninterp spec fn handshake_response_of(key: Seq<char>) -> Seq<u8>;

/// What decoding one frame yields: whether the bytes decode at all, the
/// frame's kind, and the payload (at most `cap` bytes of it, `cap` being the
/// payload buffer's capacity).
pub struct DecodeOut {
    pub ok: bool,
    pub kind: FrameKind,
    pub payload: Seq<u8>,
}

/// What the codec's read yields on a fresh open server codec: a function of
/// the input bytes and the payload-buffer capacity alone.
pub uninterp spec fn decode_of(from: Seq<u8>, cap: nat) -> DecodeOut;

/// Relies on embedded_websocket's write on a fresh open server codec: frames
/// are unmasked, the header is determined by the payload length, and the call
/// succeeds exactly when the frame fits the output buffer; on failure the
/// buffer is untouched.
#[verifier::external_body]
pub fn codec_write(kind: SendKind, payload: &Vec<u8>, count: usize, to: &mut Vec<u8>) -> (r:
    Result<usize, embedded_websocket::Error>)
    requires
        count <= payload@.len(),
    ensures
        final(to)@.len() == old(to)@.len(),
        (r matches Ok(n)) <==> frame_bytes(first_byte_of(kind), payload@.take(count as int)).len()
            <= old(to)@.len(),
        r matches Ok(n) ==> n == frame_bytes(first_byte_of(kind), payload@.take(count as int)).len()
            && final(to)@.take(n as int) == frame_bytes(
            first_byte_of(kind),
            payload@.take(count as int),
        ) && final(to)@.skip(n as int) == old(to)@.skip(n as int),
        r matches Err(_) ==> final(to)@ == old(to)@,
{
    let mt = match kind {
        SendKind::Text => embedded_websocket::WebSocketSendMessageType::Text,
        SendKind::Binary => embedded_websocket::WebSocketSendMessageType::Binary,
        SendKind::Ping => embedded_websocket::WebSocketSendMessageType::Ping,
        SendKind::Pong => embedded_websocket::WebSocketSendMessageType::Pong,
        SendKind::CloseReply => embedded_websocket::WebSocketSendMessageType::CloseReply,
    };
    let mut ws = embedded_websocket::WebSocketServer::new_server();
    ws.state = embedded_websocket::WebSocketState::Open;
    ws.write(mt, true, &payload[..count], to.as_mut_slice())
}

/// Relies on embedded_websocket's read on a fresh open server codec: decodes
/// one frame from `from[..n]`, placing its payload (unmasked) at the front of
/// `to`. The outcome is a function of the input bytes and of `to`'s capacity
/// alone, named [`decode_of`]. A continuation frame finds no frame in
/// progress on the fresh codec and is refused: this server does not
/// reassemble fragmented messages, it halts on them as on any malformed
/// frame.
#[verifier::external_body]
pub fn codec_read(from: &Vec<u8>, n: usize, to: &mut Vec<u8>) -> (r: Result<
    (FrameKind, usize),
    embedded_websocket::Error,
>)
    requires
        n <= from@.len(),
    ensures
        final(to)@.len() == old(to)@.len(),
        (r matches Ok(out)) <==> decode_of(from@.take(n as int), old(to)@.len() as nat).ok,
        r matches Ok(out) ==> ({
            let d = decode_of(from@.take(n as int), old(to)@.len() as nat);
            &&& out.0 == d.kind
            &&& out.1 == d.payload.len()
            &&& out.1 <= final(to)@.len()
            &&& final(to)@.take(out.1 as int) == d.payload
        }),
{
    let mut ws = embedded_websocket::WebSocketServer::new_server();
    ws.state = embedded_websocket::WebSocketState::Open;
    let res = ws.read(&from[..n], to.as_mut_slice())?;
    let kind = match res.message_type {
        embedded_websocket::WebSocketReceiveMessageType::Text => FrameKind::Text,
        embedded_websocket::WebSocketReceiveMessageType::Binary => FrameKind::Binary,
        embedded_websocket::WebSocketReceiveMessageType::Ping => FrameKind::Ping,
        embedded_websocket::WebSocketReceiveMessageType::Pong => FrameKind::Pong,
        embedded_websocket::WebSocketReceiveMessageType::CloseMustReply => FrameKind::CloseMustReply,
        embedded_websocket::WebSocketReceiveMessageType::CloseCompleted => FrameKind::CloseCompleted,
    };
    Ok((kind, res.len_to))
}

/// Relies on embedded_websocket's server_accept on a fresh server codec: the
/// switching-protocols response is a fixed, non-empty function of the key; it
/// is assembled in a one-kibibyte staging buffer and copied to the front of
/// `to`, which must be at least that large. Under these bounds the call
/// cannot fail: the response (fixed headers plus a 28-byte accept string) is
/// far below the staging capacity, and the accept string is built from at
/// most 24 key bytes plus the fixed 36-byte GUID in a 64-byte stage.
#[verifier::external_body]
pub fn codec_handshake(key: &String, to: &mut Vec<u8>) -> (r: Result<
    usize,
    embedded_websocket::Error,
>)
    requires
        vstd::utf8::encode_utf8(key@).len() <= 24,
        old(to)@.len() >= 1024,
    ensures
        final(to)@.len() == old(to)@.len(),
        r matches Ok(_),
        r matches Ok(n) ==> n <= final(to)@.len() && 1 <= n && n == handshake_response_of(
            key@,
        ).len() && final(to)@.take(n as int) == handshake_response_of(key@),
{
    let mut ws = embedded_websocket::WebSocketServer::new_server();
    let ws_key = embedded_websocket::WebSocketKey::from(key.as_str());
    ws.server_accept(&ws_key, None, to.as_mut_slice())
}

/// Relies on httparse's Request::parse: yields the request line's path and
/// the raw header name/value pairs of `buf[..n]`; a partial or malformed
/// request is an error. Nothing is assumed about the parsed content.
#[verifier::external_body]
pub fn http_parse_request(buf: &Vec<u8>, n: usize) -> (r: Result<
    (Vec<u8>, Vec<(String, Vec<u8>)>),
    embedded_websocket::Error,
>)
    requires
        n <= buf@.len(),
{
    let mut headers = [httparse::EMPTY_HEADER; 24];
    let mut req = httparse::Request::new(&mut headers);
    match req.parse(&buf[..n]) {
        Ok(httparse::Status::Complete(_)) => {},
        Ok(httparse::Status::Partial) => return Err(embedded_websocket::Error::HttpHeaderIncomplete),
        Err(e) => return Err(embedded_websocket::Error::from(e)),
    }
    let Some(path) = req.path else { return Err(embedded_websocket::Error::HttpHeaderNoPath) };
    let pairs = req.headers.iter().map(|h| (h.name.to_string(), h.value.to_vec())).collect();
    Ok((path.as_bytes().to_vec(), pairs))
}

/// Relies on embedded_websocket's read_http_header: detects a WebSocket
/// upgrade request among the header pairs and hands out its handshake key,
/// which the codec stores in a key type of at most 24 bytes. A key or
/// subprotocol value over that capacity would make the codec's bounded
/// strings give up, so such values are kept out by the caller.
#[verifier::external_body]
pub fn ws_upgrade_key(headers: &Vec<(String, Vec<u8>)>) -> (r: Result<
    Option<String>,
    embedded_websocket::Error,
>)
    requires
        forall|i: int| 0 <= i < headers@.len() ==> (#[trigger] headers@[i]).1@.len() <= 24,
    ensures
        r matches Ok(k_opt) ==> (k_opt matches Some(k) ==> vstd::utf8::encode_utf8(k@).len()
            <= 24),
{
    let it = headers.iter().map(|h| (h.0.as_str(), h.1.as_slice()));
    match embedded_websocket::read_http_header(it) {
        Ok(Some(ctx)) => Ok(Some(ctx.sec_websocket_key.as_str().to_string())),
        Ok(None) => Ok(None),
        Err(e) => Err(e),
    }
}

/// Relies on core::str::from_utf8 (std): it succeeds exactly on valid UTF-8.
#[verifier::external_body]
pub fn utf8_ok(b: &Vec<u8>, start: usize, end: usize) -> (r: bool)
    requires
        start <= end <= b@.len(),
    ensures
        r == vstd::utf8::valid_utf8(b@.subrange(start as int, end as int)),
{
    core::str::from_utf8(&b[start..end]).is_ok()
}

/// Parse the received bytes `buf[..n]` as an HTTP request and reduce it to
/// what routing needs. Any parse failure is a protocol error. Only header
/// values that fit the codec's bounded key type are shown to the upgrade
/// detector: every value it acts on (upgrade flag, key, subprotocols) fits
/// there on a well-formed request, and an oversized one could not be held.
pub fn parse_http(buf: &Vec<u8>, n: usize) -> (r: Result<
    HttpRequest,
    embedded_websocket::Error,
>)
    requires
        n <= buf@.len(),
    ensures
        r matches Ok(req) ==> http_request_wf(req),
{
    let (path, headers) = match http_parse_request(buf, n) {
        Ok(out) => out,
        Err(e) => {
            return Err(e);
        },
    };
    let mut short_headers: Vec<(String, Vec<u8>)> = Vec::new();
    let mut i: usize = 0;
    while i < headers.len()
        invariant
            i <= headers@.len(),
            forall|j: int|
                0 <= j < short_headers@.len() ==> (#[trigger] short_headers@[j]).1@.len() <= 24,
        decreases headers@.len() - i,
    {
        if headers[i].1.len() <= 24 {
            short_headers.push((headers[i].0.clone(), headers[i].1.clone()));
        }
        i = i + 1;
    }
    let upgrade_key = match ws_upgrade_key(&short_headers) {
        Ok(k) => k,
        Err(e) => {
            return Err(e);
        },
    };
    Ok(HttpRequest { path, upgrade_key })
}

} // verus!
