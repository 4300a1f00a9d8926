//! The computational half of the transport: splitting the receive buffer
//! into lines, decoding a line into a `Message`, and the TLS channel-binding
//! value derived from the peer certificate. The socket work around these
//! lives with the caller.

use vstd::prelude::*;
use vstd::utf8::{decode_utf8, valid_utf8};
use crate::crypto::{sha256, sha256_of};
use crate::proto::{parse_line, parse_line_spec, Message, MessageView, ParseError};

verus! {

// ---------------------------------------------------------------------------
// Line splitting
// ---------------------------------------------------------------------------

/// Index of the first occurrence of `b` in `s`, or -1 if `b` does not occur.
pub open spec fn find_byte_spec(s: Seq<u8>, b: u8) -> int
    decreases s.len(),
{
    if s.len() == 0 {
        -1
    } else if s[0] == b {
        0
    } else {
        let r = find_byte_spec(s.drop_first(), b);
        if r == -1 {
            -1
        } else {
            r + 1
        }
    }
}

proof fn lemma_find_byte_at(s: Seq<u8>, b: u8, i: int)
    requires
        0 <= i < s.len(),
        s[i] == b,
        forall|j: int| 0 <= j < i ==> s[j] != b,
    ensures
        find_byte_spec(s, b) == i,
    decreases s.len(),
{
    if i > 0 {
        lemma_find_byte_at(s.drop_first(), b, i - 1);
    }
}

proof fn lemma_find_byte_none(s: Seq<u8>, b: u8)
    requires
        forall|j: int| 0 <= j < s.len() ==> s[j] != b,
    ensures
        find_byte_spec(s, b) == -1,
    decreases s.len(),
{
    if s.len() > 0 {
        lemma_find_byte_none(s.drop_first(), b);
    }
}

/// A buffered line without its terminator: the bytes before the line feed,
/// less one trailing carriage return.
pub open spec fn strip_cr_spec(s: Seq<u8>) -> Seq<u8> {
    if s.len() > 0 && s.last() == 13 {
        s.drop_last()
    } else {
        s
    }
}

/// The index of the first occurrence of `b` in `v`, if any.
fn find_byte(v: &Vec<u8>, b: u8) -> (r: Option<usize>)
    ensures
        match r {
            Some(i) => find_byte_spec(v@, b) == i as int && i < v.len(),
            None => find_byte_spec(v@, b) == -1,
        },
{
    let n = v.len();
    let mut i: usize = 0;
    while i < n
        invariant
            n == v.len(),
            i <= n,
            forall|j: int| 0 <= j < i ==> v@[j] != b,
        decreases n - i,
    {
        if v[i] == b {
            proof {
                lemma_find_byte_at(v@, b, i as int);
            }
            return Some(i);
        }
        i += 1;
    }
    proof {
        lemma_find_byte_none(v@, b);
    }
    None
}

/// Split one line off the front of the receive buffer: everything up to the
/// first line feed leaves the buffer, and comes back without the line feed
/// and without one trailing carriage return. With no line feed buffered,
/// nothing changes.
pub fn take_line(buf: &mut Vec<u8>) -> (r: Option<Vec<u8>>)
    ensures
        match r {
            None => final(buf)@ == old(buf)@ && find_byte_spec(old(buf)@, 10) == -1,
            Some(line) => ({
                let i = find_byte_spec(old(buf)@, 10);
                &&& 0 <= i < old(buf)@.len()
                &&& final(buf)@ == old(buf)@.skip(i + 1)
                &&& line@ == strip_cr_spec(old(buf)@.take(i))
            }),
        },
{
    let n = buf.len();
    let pos = match find_byte(buf, 10) {
        Some(p) => p,
        None => {
            return None;
        },
    };
    let mut line: Vec<u8> = Vec::new();
    let mut i: usize = 0;
    while i < pos
        invariant
            pos < n,
            n == buf.len(),
            buf@ == old(buf)@,
            i <= pos,
            line@ == buf@.take(pos as int).take(i as int),
        decreases pos - i,
    {
        line.push(buf[i]);
        proof {
            assert(buf@.take(pos as int).take(i as int).push(buf@[i as int]) =~= buf@.take(
                pos as int,
            ).take(i + 1));
        }
        i += 1;
    }
    proof {
        assert(buf@.take(pos as int).take(pos as int) =~= buf@.take(pos as int));
    }
    if line.len() > 0 && line[line.len() - 1] == 13 {
        line.pop();
        proof {
            assert(line@ =~= buf@.take(pos as int).drop_last());
        }
    }
    let mut rest: Vec<u8> = Vec::new();
    let mut j: usize = pos + 1;
    while j < n
        invariant
            pos < n,
            n == buf.len(),
            buf@ == old(buf)@,
            pos + 1 <= j <= n,
            rest@ == buf@.skip(pos as int + 1).take(j - pos - 1),
        decreases n - j,
    {
        rest.push(buf[j]);
        proof {
            assert(buf@.skip(pos as int + 1)[j - pos - 1] == buf@[j as int]);
            assert(buf@.skip(pos as int + 1).take(j - pos - 1).push(buf@[j as int]) =~= buf@.skip(
                pos as int + 1,
            ).take(j - pos));
        }
        j += 1;
    }
    proof {
        assert(buf@.skip(pos as int + 1).take(n - pos - 1) =~= buf@.skip(pos as int + 1));
    }
    *buf = rest;
    Some(line)
}

/// A line as it goes on the wire: with CRLF appended exactly when the line
/// does not already end in CRLF.
pub open spec fn with_crlf_spec(s: Seq<char>) -> Seq<char> {
    if s.len() >= 2 && s[s.len() - 2] == '\r' && s[s.len() - 1] == '\n' {
        s
    } else {
        s + seq!['\r', '\n']
    }
}

/// Frame one outbound line: append CRLF if and only if it is absent.
pub fn with_crlf(line: &str) -> (r: String)
    ensures
        r@ == with_crlf_spec(line@),
{
    let n = line.unicode_len();
    if n >= 2 && line.get_char(n - 2) == '\r' && line.get_char(n - 1) == '\n' {
        String::from_str(line)
    } else {
        let mut out = String::from_str(line);
        crate::strutil::push_char(&mut out, '\r');
        crate::strutil::push_char(&mut out, '\n');
        proof {
            assert(out@ =~= line@ + seq!['\r', '\n']);
        }
        out
    }
}

// ---------------------------------------------------------------------------
// Decoding a line
// ---------------------------------------------------------------------------

/// Relies on `String::from_utf8`: the decoded string exactly when the bytes
/// are valid UTF-8, an error otherwise.
#[verifier::external_body]
fn string_from_utf8(b: Vec<u8>) -> (r: Option<String>)
    ensures
        match r {
            Some(s) => valid_utf8(b@) && s@ == decode_utf8(b@),
            None => !valid_utf8(b@),
        },
{
    String::from_utf8(b).ok()
}

/// The message a buffered line holds: its UTF-8 decoding, parsed; a line
/// that is not UTF-8 decodes to nothing.
pub open spec fn decode_line_spec(b: Seq<u8>) -> Option<MessageView> {
    if valid_utf8(b) {
        parse_line_spec(decode_utf8(b))
    } else {
        None
    }
}

/// Decode one buffered line into a message: bytes that are not UTF-8, like
/// a line without a command, are malformed.
pub fn decode_line(line: Vec<u8>) -> (r: Result<Message, ParseError>)
    ensures
        match r {
            Ok(m) => decode_line_spec(line@) == Some(m@),
            Err(e) => decode_line_spec(line@) is None && e == ParseError::MalformedMessage,
        },
{
    match string_from_utf8(line) {
        Some(s) => parse_line(s.as_str()),
        None => Err(ParseError::MalformedMessage),
    }
}

// ---------------------------------------------------------------------------
// Channel binding
// ---------------------------------------------------------------------------

/// The `tls-server-end-point` channel-binding value of a TLS connection:
/// the SHA-256 digest of the DER encoding of the leaf server certificate.
pub fn tls_server_end_point_of(leaf_der: &[u8]) -> (r: Vec<u8>)
    ensures
        r@ == sha256_of(leaf_der@),
        r@.len() == 32,
{
    sha256(leaf_der)
}

} // verus!
