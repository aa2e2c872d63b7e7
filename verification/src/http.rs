//! The canned HTTP responses: a 200 response carrying the served page, and a
//! 404 response with an empty body. Both declare `Connection: close`. The
//! exact bytes are pinned down, and the headline shape (status line prefix,
//! `Connection: close` header) is proved of them.
use vstd::prelude::*;

verus! {

/// The bytes of an ASCII string, one byte per character.
pub open spec fn ascii_seq(s: Seq<char>) -> Seq<u8> {
    Seq::new(s.len(), |i: int| s[i] as u8)
}

/// Decimal digits of `n`, most significant first.
pub open spec fn dec_rep(n: nat) -> Seq<u8>
    decreases n,
{
    if n < 10 {
        seq![(48 + n) as u8]
    } else {
        dec_rep(n / 10).push((48 + n % 10) as u8)
    }
}

pub proof fn lemma_dec_rep_len(n: nat)
    ensures
        1 <= dec_rep(n).len(),
    decreases n,
{
    if n >= 10 {
        lemma_dec_rep_len(n / 10);
    }
}

/// Head of the 200 response, up to the value of the content-length header.
pub open spec fn ok_head() -> Seq<u8> {
    ascii_seq("HTTP/1.1 200 OK\r\nContent-Type: text/html; charset=UTF-8\r\nContent-Length: "@)
}

/// End of both response headers: the connection-close header and the blank
/// line that closes the header block.
pub open spec fn conn_close_tail() -> Seq<u8> {
    ascii_seq("\r\nConnection: close\r\n\r\n"@)
}

/// Head of the 404 response.
pub open spec fn not_found_head() -> Seq<u8> {
    ascii_seq("HTTP/1.1 404 Not Found\r\nContent-Length: 0"@)
}

/// The whole 200 response for a page `body`.
pub open spec fn ok_response_bytes(body: Seq<u8>) -> Seq<u8> {
    ok_head() + dec_rep(body.len()) + conn_close_tail() + body
}

/// The whole 404 response.
pub open spec fn not_found_bytes() -> Seq<u8> {
    not_found_head() + conn_close_tail()
}

/// `s` begins with `p`.
pub open spec fn starts_with(s: Seq<u8>, p: Seq<u8>) -> bool {
    p.len() <= s.len() && s.take(p.len() as int) == p
}

/// `p` occurs somewhere in `s`.
pub open spec fn contains_seq(s: Seq<u8>, p: Seq<u8>) -> bool {
    exists|i: int|
        0 <= i && i + p.len() <= s.len() && #[trigger] s.subrange(i, i + p.len()) == p
}

/// Append the decimal digits of `n` to `out`.
pub fn push_decimal(n: usize, out: &mut Vec<u8>)
    ensures
        final(out)@ == old(out)@ + dec_rep(n as nat),
    decreases n,
{
    if n < 10 {
        out.push(48 + (n as u8));
        assert(final(out)@ =~= old(out)@ + dec_rep(n as nat));
    } else {
        push_decimal(n / 10, out);
        out.push(48 + ((n % 10) as u8));
        assert(final(out)@ =~= old(out)@ + dec_rep(n as nat));
    }
}

/// The bytes of an ASCII string slice.
pub fn ascii_lit_bytes(s: &str) -> (r: Vec<u8>)
    requires
        s.is_ascii(),
    ensures
        r@ == ascii_seq(s@),
{
    broadcast use vstd::string::is_ascii_spec_bytes;

    let r = s.as_bytes_vec();
    assert(r@ =~= ascii_seq(s@));
    r
}

/// Build the 200 response around `body`.
pub fn ok_response(body: &Vec<u8>) -> (r: Vec<u8>)
    ensures
        r@ == ok_response_bytes(body@),
{
    let head = "HTTP/1.1 200 OK\r\nContent-Type: text/html; charset=UTF-8\r\nContent-Length: ";
    proof {
        reveal_strlit("HTTP/1.1 200 OK\r\nContent-Type: text/html; charset=UTF-8\r\nContent-Length: ");
        reveal_strlit("\r\nConnection: close\r\n\r\n");
    }
    let mut r = ascii_lit_bytes(head);
    push_decimal(body.len(), &mut r);
    let mut tail = ascii_lit_bytes("\r\nConnection: close\r\n\r\n");
    r.append(&mut tail);
    r.extend_from_slice(body.as_slice());
    assert(r@ =~= ok_response_bytes(body@));
    r
}

/// Build the 404 response.
pub fn not_found_response() -> (r: Vec<u8>)
    ensures
        r@ == not_found_bytes(),
{
    proof {
        reveal_strlit("HTTP/1.1 404 Not Found\r\nContent-Length: 0");
        reveal_strlit("\r\nConnection: close\r\n\r\n");
    }
    let mut r = ascii_lit_bytes("HTTP/1.1 404 Not Found\r\nContent-Length: 0");
    let mut tail = ascii_lit_bytes("\r\nConnection: close\r\n\r\n");
    r.append(&mut tail);
    assert(r@ =~= not_found_bytes());
    r
}

} // verus!
