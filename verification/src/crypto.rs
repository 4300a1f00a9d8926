//! Trusted wrappers around the cryptographic and encoding crates the SASL
//! layer needs. Each wrapper names or states what the outside call returns;
//! everything computed from these results is verified elsewhere.

use vstd::prelude::*;
use base64::Engine;
use hmac::Mac;
use rand::RngCore;
use sha2::Digest;
use subtle::ConstantTimeEq;

verus! {

/// The standard base64 encoding (RFC 4648, with padding) of a byte string.
pub uninterp spec fn b64_of(b: Seq<u8>) -> Seq<char>;

/// The standard base64 decoding of a string: the bytes it encodes, or
/// nothing if it is not valid base64.
pub uninterp spec fn b64_decode_of(s: Seq<char>) -> Option<Seq<u8>>;

/// The SHA-256 digest of a byte string.
pub uninterp spec fn sha256_of(b: Seq<u8>) -> Seq<u8>;

/// The SHA-512 digest of a byte string.
pub uninterp spec fn sha512_of(b: Seq<u8>) -> Seq<u8>;

/// The HMAC-SHA-256 tag over `msg` under `key`.
pub uninterp spec fn hmac_sha256_of(key: Seq<u8>, msg: Seq<u8>) -> Seq<u8>;

/// The HMAC-SHA-512 tag over `msg` under `key`.
pub uninterp spec fn hmac_sha512_of(key: Seq<u8>, msg: Seq<u8>) -> Seq<u8>;

/// The PBKDF2-HMAC-SHA-256 derived key of 32 bytes.
pub uninterp spec fn pbkdf2_sha256_of(password: Seq<u8>, salt: Seq<u8>, rounds: u32) -> Seq<u8>;

/// The PBKDF2-HMAC-SHA-512 derived key of 64 bytes.
pub uninterp spec fn pbkdf2_sha512_of(password: Seq<u8>, salt: Seq<u8>, rounds: u32) -> Seq<u8>;

/// Relies on `base64::engine::general_purpose::STANDARD.encode`: the
/// standard padded encoding of the input — four characters for every three
/// bytes begun — which its own `decode` reads back.
#[verifier::external_body]
pub fn b64_bytes(b: &[u8]) -> (r: String)
    ensures
        r@ == b64_of(b@),
        r@.len() == 4 * ((b@.len() + 2) / 3),
        b64_decode_of(r@) == Some(b@),
{
    base64::engine::general_purpose::STANDARD.encode(b)
}

/// Relies on `base64::engine::general_purpose::STANDARD.decode`: the bytes
/// the input encodes, or an error on text that is not valid base64.
#[verifier::external_body]
pub fn b64_decode(s: &str) -> (r: Option<Vec<u8>>)
    ensures
        match r {
            Some(v) => b64_decode_of(s@) == Some(v@),
            None => b64_decode_of(s@) is None,
        },
{
    base64::engine::general_purpose::STANDARD.decode(s).ok()
}

/// Relies on `sha2::Sha256`: the 32-byte SHA-256 digest of the input.
#[verifier::external_body]
pub fn sha256(b: &[u8]) -> (r: Vec<u8>)
    ensures
        r@ == sha256_of(b@),
        r@.len() == 32,
{
    let mut h = sha2::Sha256::new();
    h.update(b);
    h.finalize().to_vec()
}

/// Relies on `sha2::Sha512`: the 64-byte SHA-512 digest of the input.
#[verifier::external_body]
pub fn sha512(b: &[u8]) -> (r: Vec<u8>)
    ensures
        r@ == sha512_of(b@),
        r@.len() == 64,
{
    let mut h = sha2::Sha512::new();
    h.update(b);
    h.finalize().to_vec()
}

/// Relies on `hmac::Hmac<Sha256>`: the 32-byte HMAC tag; a key of any
/// length is accepted.
#[verifier::external_body]
pub fn hmac_sha256(key: &[u8], msg: &[u8]) -> (r: Vec<u8>)
    ensures
        r@ == hmac_sha256_of(key@, msg@),
        r@.len() == 32,
{
    let mut m = <hmac::Hmac<sha2::Sha256> as Mac>::new_from_slice(key)
        .expect("HMAC accepts any key length");
    m.update(msg);
    m.finalize().into_bytes().to_vec()
}

/// Relies on `hmac::Hmac<Sha512>`: the 64-byte HMAC tag; a key of any
/// length is accepted.
#[verifier::external_body]
pub fn hmac_sha512(key: &[u8], msg: &[u8]) -> (r: Vec<u8>)
    ensures
        r@ == hmac_sha512_of(key@, msg@),
        r@.len() == 64,
{
    let mut m = <hmac::Hmac<sha2::Sha512> as Mac>::new_from_slice(key)
        .expect("HMAC accepts any key length");
    m.update(msg);
    m.finalize().into_bytes().to_vec()
}

/// Relies on `pbkdf2::pbkdf2_hmac::<Sha256>`: fills the output from the
/// password, salt and round count alone; any round count returns.
#[verifier::external_body]
pub fn pbkdf2_sha256(password: &[u8], salt: &[u8], rounds: u32) -> (r: Vec<u8>)
    ensures
        r@ == pbkdf2_sha256_of(password@, salt@, rounds),
        r@.len() == 32,
{
    let mut out = [0u8; 32];
    pbkdf2::pbkdf2_hmac::<sha2::Sha256>(password, salt, rounds, &mut out);
    out.to_vec()
}

/// Relies on `pbkdf2::pbkdf2_hmac::<Sha512>`: fills the output from the
/// password, salt and round count alone; any round count returns.
#[verifier::external_body]
pub fn pbkdf2_sha512(password: &[u8], salt: &[u8], rounds: u32) -> (r: Vec<u8>)
    ensures
        r@ == pbkdf2_sha512_of(password@, salt@, rounds),
        r@.len() == 64,
{
    let mut out = [0u8; 64];
    pbkdf2::pbkdf2_hmac::<sha2::Sha512>(password, salt, rounds, &mut out);
    out.to_vec()
}

/// Relies on `subtle::ConstantTimeEq` for byte slices: `Choice(1)` exactly
/// when the lengths and every byte agree, without short-circuiting.
#[verifier::external_body]
pub fn ct_eq_bytes(a: &[u8], b: &[u8]) -> (r: bool)
    ensures
        r == (a@ == b@),
{
    a.ct_eq(b).unwrap_u8() == 1
}

/// Relies on `rand::rngs::OsRng::fill_bytes`: 18 fresh bytes from the
/// operating system; nothing is known of their values. Should the system
/// generator itself fail, the call aborts rather than return weak bytes.
#[verifier::external_body]
pub fn nonce_bytes() -> (r: Vec<u8>)
    ensures
        r@.len() == 18,
{
    let mut n = [0u8; 18];
    rand::rngs::OsRng.fill_bytes(&mut n);
    n.to_vec()
}

} // verus!
