//! Properties that hold across the library's functions, stated and proved
//! once: distinctness of the socket handles, the shape of the canned HTTP
//! responses, what a close reply echoes, and the call count of the
//! write-retry loop under a halving send cap.
use crate::codec::frame_bytes;
use crate::http::ascii_seq;
use crate::http::conn_close_tail;
use crate::http::contains_seq;
use crate::http::dec_rep;
use crate::http::lemma_dec_rep_len;
use crate::http::not_found_bytes;
use crate::http::ok_head;
use crate::http::ok_response_bytes;
use crate::http::starts_with;
use crate::server::Connection;
use crate::server::connections_wf;
use crate::transport::retry_calls;
use vstd::arithmetic::div_mod::lemma_fundamental_div_mod;
use vstd::prelude::*;

verus! {

/// The socket handles bound to the session slots are pairwise distinct, for
/// every pool size the handle type can index.
pub proof fn lemma_handles_distinct(conns: Seq<Connection>)
    requires
        connections_wf(conns),
        conns.len() <= 256,
    ensures
        forall|i: int, j: int|
            0 <= i < conns.len() && 0 <= j < conns.len() && i != j ==> (#[trigger] conns[i]).socket
                != (#[trigger] conns[j]).socket,
{
}

/// Length of the frame header in front of a payload of the given length.
pub open spec fn frame_header_len(payload_len: nat) -> int {
    if payload_len < 126 {
        2
    } else if payload_len < 65535 {
        4
    } else {
        10
    }
}

/// A frame is its header followed by exactly its payload.
pub proof fn lemma_frame_payload_section(b1: u8, p: Seq<u8>)
    ensures
        frame_bytes(b1, p).len() == frame_header_len(p.len()) + p.len(),
        frame_bytes(b1, p).skip(frame_header_len(p.len())) == p,
{
    assert(frame_bytes(b1, p).skip(frame_header_len(p.len())) =~= p);
}

/// A close reply that echoes a close payload `p` (two status-code bytes, then
/// a reason) carries the reason `p[2..]` right after the status code.
pub proof fn lemma_close_reply_echoes_reason(p: Seq<u8>)
    requires
        p.len() > 2,
    ensures
        frame_bytes(0x88u8, p).skip(frame_header_len(p.len()) + 2) == p.skip(2),
{
    lemma_frame_payload_section(0x88u8, p);
    assert(frame_bytes(0x88u8, p).skip(frame_header_len(p.len()) + 2) =~= p.skip(2));
}

/// The 200 response begins with its status line and declares
/// `Connection: close`, whatever the body.
pub proof fn lemma_ok_response_shape(body: Seq<u8>)
    ensures
        starts_with(ok_response_bytes(body), ascii_seq("HTTP/1.1 200"@)),
        contains_seq(ok_response_bytes(body), ascii_seq("Connection: close"@)),
{
    reveal_strlit("HTTP/1.1 200 OK\r\nContent-Type: text/html; charset=UTF-8\r\nContent-Length: ");
    reveal_strlit("HTTP/1.1 200");
    reveal_strlit("\r\nConnection: close\r\n\r\n");
    reveal_strlit("Connection: close");
    lemma_dec_rep_len(body.len());
    let s = ok_response_bytes(body);
    let p = ascii_seq("HTTP/1.1 200"@);
    assert(s.take(12) =~= p);
    let dl = dec_rep(body.len()).len() as int;
    let hl = ok_head().len() as int;
    let i0 = hl + dl + 2;
    assert(conn_close_tail().len() == 23);
    assert forall|j: int| 0 <= j < 17 implies #[trigger] s[i0 + j] == conn_close_tail()[2 + j] by {
        assert(s[i0 + j] == conn_close_tail()[i0 + j - hl - dl]);
    }
    assert(s.subrange(i0, i0 + 17) =~= ascii_seq("Connection: close"@));
}

/// The 404 response begins with its status line and declares
/// `Connection: close`.
pub proof fn lemma_not_found_shape()
    ensures
        starts_with(not_found_bytes(), ascii_seq("HTTP/1.1 404"@)),
        contains_seq(not_found_bytes(), ascii_seq("Connection: close"@)),
{
    reveal_strlit("HTTP/1.1 404 Not Found\r\nContent-Length: 0");
    reveal_strlit("HTTP/1.1 404");
    reveal_strlit("\r\nConnection: close\r\n\r\n");
    reveal_strlit("Connection: close");
    let s = not_found_bytes();
    assert(s.take(12) =~= ascii_seq("HTTP/1.1 404"@));
    let i0: int = 43int;
    assert(s.subrange(i0, i0 + 17) =~= ascii_seq("Connection: close"@));
}

/// A send primitive that accepts half the buffer (rounded up) per call
/// finishes the retry loop in exactly two calls, for every buffer of at
/// least two bytes. (A one-byte buffer finishes in a single call.)
pub proof fn lemma_write_retry_two_calls(len: nat)
    requires
        2 <= len,
    ensures
        retry_calls(len, ((len + 1) / 2) as nat) == 2,
{
    let c = (len + 1) / 2;
    lemma_fundamental_div_mod((len + 1) as int, 2);
    vstd::arithmetic::div_mod::lemma_mod_bound((len + 1) as int, 2);
    assert((len + 1) as int == 2 * ((len + 1) as int / 2) + (len + 1) as int % 2);
    assert(1 <= c);
    assert(c < len);
    assert(len - c <= c);
    assert(retry_calls((len - c) as nat, c) == 1);
    assert(retry_calls(len, c) == 1 + retry_calls((len - c) as nat, c));
}

} // verus!

