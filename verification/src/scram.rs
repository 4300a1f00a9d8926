//! The SCRAM client computation (RFC 5802): challenge parsing, channel
//! binding, and the derivation of the client proof and the expected server
//! signature, for the SHA-256 and SHA-512 variants.

use vstd::prelude::*;
use vstd::string::*;
use vstd::utf8::encode_utf8;
use crate::crypto::{
    b64_decode, b64_decode_of, b64_bytes, b64_of, hmac_sha256, hmac_sha256_of, hmac_sha512,
    hmac_sha512_of, pbkdf2_sha256, pbkdf2_sha256_of, pbkdf2_sha512, pbkdf2_sha512_of, sha256,
    sha256_of, sha512, sha512_of,
};
use crate::strutil::{
    all_dec_digits, dec_val, eq_str, find_char, find_char_spec, fits_dec_u32, lemma_find_char_spec,
    parse_dec_u32, push_char, split_on, split_on_spec,
};

verus! {

// ---------------------------------------------------------------------------
// SASL name escaping
// ---------------------------------------------------------------------------

/// The escape of one character in a SASL name.
pub open spec fn sasl_escape(c: char) -> Seq<char> {
    if c == '=' {
        seq!['=', '3', 'D']
    } else if c == ',' {
        seq!['=', '2', 'C']
    } else {
        seq![c]
    }
}

/// A username as it appears in a SCRAM message: `=` and `,` escaped.
pub open spec fn saslname_spec(s: Seq<char>) -> Seq<char>
    decreases s.len(),
{
    if s.len() == 0 {
        seq![]
    } else {
        sasl_escape(s[0]) + saslname_spec(s.drop_first())
    }
}

proof fn lemma_saslname_push(s: Seq<char>, c: char)
    ensures
        saslname_spec(s.push(c)) == saslname_spec(s) + sasl_escape(c),
    decreases s.len(),
{
    if s.len() == 0 {
        assert(s.push(c)[0] == c);
        assert(s.push(c).drop_first() =~= Seq::<char>::empty());
        assert(saslname_spec(Seq::<char>::empty()) == Seq::<char>::empty());
        assert(saslname_spec(s.push(c)) == sasl_escape(c) + saslname_spec(
            s.push(c).drop_first(),
        ));
        assert(saslname_spec(s.push(c)) =~= saslname_spec(s) + sasl_escape(c));
    } else {
        assert(s.push(c).drop_first() =~= s.drop_first().push(c));
        lemma_saslname_push(s.drop_first(), c);
        assert(saslname_spec(s.push(c)) =~= saslname_spec(s) + sasl_escape(c));
    }
}

/// Escape `=` and `,` in a username for use inside a SCRAM message.
pub fn saslname(s: &str) -> (r: String)
    ensures
        r@ == saslname_spec(s@),
{
    let n = s.unicode_len();
    let mut out = String::new();
    let mut i: usize = 0;
    while i < n
        invariant
            n == s@.len(),
            i <= n,
            out@ == saslname_spec(s@.take(i as int)),
        decreases n - i,
    {
        let c = s.get_char(i);
        if c == '=' {
            push_char(&mut out, '=');
            push_char(&mut out, '3');
            push_char(&mut out, 'D');
        } else if c == ',' {
            push_char(&mut out, '=');
            push_char(&mut out, '2');
            push_char(&mut out, 'C');
        } else {
            push_char(&mut out, c);
        }
        proof {
            lemma_saslname_push(s@.take(i as int), s@[i as int]);
            assert(s@.take(i as int).push(s@[i as int]) =~= s@.take(i + 1));
            assert(out@ =~= saslname_spec(s@.take(i + 1)));
        }
        i += 1;
    }
    proof {
        assert(s@.take(n as int) =~= s@);
    }
    out
}

// ---------------------------------------------------------------------------
// Challenge parsing
// ---------------------------------------------------------------------------

/// The last `r=`, `s=` and `i=` values of a field list, scanned in order.
pub open spec fn scan_attrs(fields: Seq<Seq<char>>) -> (
    Option<Seq<char>>,
    Option<Seq<char>>,
    Option<Seq<char>>,
)
    decreases fields.len(),
{
    if fields.len() == 0 {
        (None, None, None)
    } else {
        let prev = scan_attrs(fields.drop_last());
        let f = fields.last();
        let i = find_char_spec(f, '=');
        if i == -1 {
            prev
        } else {
            let k = f.take(i);
            let v = f.skip(i + 1);
            if k == "r"@ {
                (Some(v), prev.1, prev.2)
            } else if k == "s"@ {
                (prev.0, Some(v), prev.2)
            } else if k == "i"@ {
                (prev.0, prev.1, Some(v))
            } else {
                prev
            }
        }
    }
}

/// Whether every `i=` field of the list carries a decimal iteration count
/// that fits a `u32`.
pub open spec fn iter_fields_ok(fields: Seq<Seq<char>>) -> bool {
    forall|j: int|
        0 <= j < fields.len() ==> {
            let f = #[trigger] fields[j];
            let i = find_char_spec(f, '=');
            (i != -1 && f.take(i) == "i"@) ==> fits_dec_u32(f.skip(i + 1))
        }
}

/// The salt, iteration count and server nonce of a SCRAM server-first
/// message, or nothing where one is missing, the salt is not base64, or an
/// iteration count does not read as a number.
pub open spec fn parse_scram_challenge_spec(ch: Seq<char>) -> Option<(Seq<u8>, u32, Seq<char>)> {
    let fields = split_on_spec(ch, ',');
    if !iter_fields_ok(fields) {
        None
    } else {
        let a = scan_attrs(fields);
        match a {
            (Some(nonce), Some(salt_b64), Some(iter_str)) => match b64_decode_of(salt_b64) {
                Some(salt) => Some((salt, dec_val(iter_str) as u32, nonce)),
                None => None,
            },
            _ => None,
        }
    }
}

/// A parsed SCRAM server-first message.
pub struct ScramParsed {
    pub salt: Vec<u8>,
    pub iter: u32,
    pub nonce: String,
}

/// Parse the comma-separated attributes of a SCRAM server-first message,
/// exactly as `parse_scram_challenge_spec` describes.
pub fn parse_scram_challenge(ch: &str) -> (r: Option<ScramParsed>)
    ensures
        match r {
            Some(p) => parse_scram_challenge_spec(ch@) == Some((p.salt@, p.iter, p.nonce@)),
            None => parse_scram_challenge_spec(ch@) is None,
        },
{
    let fields = split_on(ch, ',');
    let n = fields.len();
    let mut nonce: Option<String> = None;
    let mut salt_b64: Option<String> = None;
    let mut iter: Option<u32> = None;
    let mut i: usize = 0;
    while i < n
        invariant
            n == fields.len(),
            i <= n,
            fields.deep_view() == split_on_spec(ch@, ','),
            iter_fields_ok(fields.deep_view().take(i as int)),
            ({
                let a = scan_attrs(fields.deep_view().take(i as int));
                &&& (match nonce {
                    Some(s) => a.0 == Some(s@),
                    None => a.0 is None,
                })
                &&& (match salt_b64 {
                    Some(s) => a.1 == Some(s@),
                    None => a.1 is None,
                })
                &&& (match iter {
                    Some(v) => exists|t: Seq<char>|
                        a.2 == Some(t) && fits_dec_u32(t) && dec_val(t) == v as int,
                    None => a.2 is None,
                })
            }),
        decreases n - i,
    {
        let f = fields[i].as_str();
        let fl = f.unicode_len();
        let ghost pre = fields.deep_view().take(i as int);
        proof {
            assert(fields.deep_view().take(i + 1).drop_last() =~= pre);
            assert(fields.deep_view().take(i + 1).last() == fields.deep_view()[i as int]);
            assert(f@ == fields.deep_view()[i as int]);
        }
        proof {
            reveal_strlit("r");
            reveal_strlit("s");
            reveal_strlit("i");
        }
        match find_char(f, '=') {
            None => {},
            Some(e) => {
                proof {
                    lemma_find_char_spec(f@, '=');
                }
                let k = f.substring_char(0, e);
                let v = f.substring_char(e + 1, fl);
                proof {
                    assert(k@ == f@.take(find_char_spec(f@, '=')));
                    assert(v@ == f@.skip(find_char_spec(f@, '=') + 1));
                }
                if eq_str(k, "r") {
                    nonce = Some(String::from_str(v));
                    proof {
                        reveal_strlit("r");
                        reveal_strlit("i");
                        assert(k@ == "r"@);
                        assert("r"@[0] == 'r');
                        assert("i"@[0] == 'i');
                        assert("r"@ != "i"@);
                        assert(f@.take(find_char_spec(f@, '=')) != "i"@);
                    }
                } else if eq_str(k, "s") {
                    salt_b64 = Some(String::from_str(v));
                    proof {
                        reveal_strlit("s");
                        reveal_strlit("i");
                        assert(k@ == "s"@);
                        assert("s"@[0] == 's');
                        assert("i"@[0] == 'i');
                        assert("s"@ != "i"@);
                        assert(f@.take(find_char_spec(f@, '=')) != "i"@);
                    }
                } else if eq_str(k, "i") {
                    match parse_dec_u32(v) {
                        Some(val) => {
                            iter = Some(val);
                            proof {
                                assert(fits_dec_u32(f@.skip(find_char_spec(f@, '=') + 1)));
                            }
                        },
                        None => {
                            proof {
                                assert(!fits_dec_u32(f@.skip(e as int + 1)));
                                assert(!iter_fields_ok(fields.deep_view()));
                            }
                            return None;
                        },
                    }
                } else {
                    proof {
                        reveal_strlit("r");
                        reveal_strlit("s");
                        reveal_strlit("i");
                        assert(f@.take(find_char_spec(f@, '=')) != "i"@);
                    }
                }
            },
        }
        proof {
            let dv = fields.deep_view();
            assert forall|j: int| 0 <= j < i + 1 implies ({
                let g = #[trigger] dv.take(i + 1)[j];
                let e2 = find_char_spec(g, '=');
                (e2 != -1 && g.take(e2) == "i"@) ==> fits_dec_u32(g.skip(e2 + 1))
            }) by {
                if j < i {
                    assert(dv.take(i + 1)[j] == dv.take(i as int)[j]);
                    assert(iter_fields_ok(dv.take(i as int)));
                } else {
                    assert(dv.take(i + 1)[j] == f@);
                }
            }
            assert(iter_fields_ok(dv.take(i + 1)));
        }
        i += 1;
    }
    proof {
        assert(fields.deep_view().take(n as int) =~= fields.deep_view());
    }
    let nonce = match nonce {
        Some(s) => s,
        None => {
            return None;
        },
    };
    let salt_b64 = match salt_b64 {
        Some(s) => s,
        None => {
            return None;
        },
    };
    let iter = match iter {
        Some(v) => v,
        None => {
            return None;
        },
    };
    let salt = match b64_decode(salt_b64.as_str()) {
        Some(v) => v,
        None => {
            return None;
        },
    };
    Some(ScramParsed { salt, iter, nonce })
}

// ---------------------------------------------------------------------------
// Channel binding and GS2
// ---------------------------------------------------------------------------

/// The SCRAM hash variants the backend speaks.
#[derive(Debug, Clone, Copy, PartialEq, Eq, Structural)]
pub enum ScramAlgo {
    Sha256,
    Sha512,
}

/// The GS2 header of the client-first message: channel binding claimed
/// exactly when binding material is at hand.
pub open spec fn gs2_header_spec(bound: bool) -> Seq<char> {
    if bound {
        "p=tls-server-end-point,,"@
    } else {
        "n,,"@
    }
}

/// The GS2 header as a string.
pub fn gs2_header(bound: bool) -> (r: String)
    ensures
        r@ == gs2_header_spec(bound),
{
    if bound {
        String::from_str("p=tls-server-end-point,,")
    } else {
        String::from_str("n,,")
    }
}

/// The channel-binding input: the GS2 header bytes, with the TLS
/// channel-binding bytes appended when bound.
pub open spec fn cbind_input_spec(binding: Option<Seq<u8>>) -> Seq<u8> {
    match binding {
        Some(b) => encode_utf8(gs2_header_spec(true)) + b,
        None => encode_utf8(gs2_header_spec(false)),
    }
}

/// The `c=` attribute value: the channel-binding input, base64.
pub open spec fn c_attr_spec(binding: Option<Seq<u8>>) -> Seq<char> {
    b64_of(cbind_input_spec(binding))
}

/// The view of an optional binding.
pub open spec fn binding_view(binding: Option<Vec<u8>>) -> Option<Seq<u8>> {
    match binding {
        Some(b) => Some(b@),
        None => None,
    }
}

/// The `c=` attribute value of the client-final message. Decoding it gives
/// back the channel-binding input: `n,,` without TLS, and
/// `p=tls-server-end-point,,` followed by the certificate hash with it.
pub fn cbind_attr(binding: &Option<Vec<u8>>) -> (r: String)
    ensures
        r@ == c_attr_spec(binding_view(*binding)),
        b64_decode_of(r@) == Some(cbind_input_spec(binding_view(*binding))),
{
    match binding {
        Some(b) => {
            let mut input = gs2_header(true).as_str().as_bytes_vec();
            input.extend_from_slice(b.as_slice());
            proof {
                assert(input@ == cbind_input_spec(binding_view(*binding)));
            }
            b64_bytes(input.as_slice())
        },
        None => {
            let input = gs2_header(false).as_str().as_bytes_vec();
            proof {
                assert(input@ == cbind_input_spec(binding_view(*binding)));
            }
            b64_bytes(input.as_slice())
        },
    }
}

// ---------------------------------------------------------------------------
// The key derivation chain
// ---------------------------------------------------------------------------

/// HMAC under the chosen hash.
pub open spec fn scram_hmac(algo: ScramAlgo, key: Seq<u8>, msg: Seq<u8>) -> Seq<u8> {
    match algo {
        ScramAlgo::Sha256 => hmac_sha256_of(key, msg),
        ScramAlgo::Sha512 => hmac_sha512_of(key, msg),
    }
}

/// Digest under the chosen hash.
pub open spec fn scram_h(algo: ScramAlgo, b: Seq<u8>) -> Seq<u8> {
    match algo {
        ScramAlgo::Sha256 => sha256_of(b),
        ScramAlgo::Sha512 => sha512_of(b),
    }
}

/// The salted password: PBKDF2 over the password with the server's salt and
/// round count, sized to the hash.
pub open spec fn salted_password_spec(
    algo: ScramAlgo,
    password: Seq<u8>,
    salt: Seq<u8>,
    rounds: u32,
) -> Seq<u8> {
    match algo {
        ScramAlgo::Sha256 => pbkdf2_sha256_of(password, salt, rounds),
        ScramAlgo::Sha512 => pbkdf2_sha512_of(password, salt, rounds),
    }
}

/// `ClientKey = HMAC(SaltedPassword, "Client Key")`.
pub open spec fn client_key_spec(algo: ScramAlgo, salted: Seq<u8>) -> Seq<u8> {
    scram_hmac(algo, salted, encode_utf8("Client Key"@))
}

/// `ServerKey = HMAC(SaltedPassword, "Server Key")`.
pub open spec fn server_key_spec(algo: ScramAlgo, salted: Seq<u8>) -> Seq<u8> {
    scram_hmac(algo, salted, encode_utf8("Server Key"@))
}

/// Bytewise exclusive or.
pub open spec fn xor_bytes_spec(a: Seq<u8>, b: Seq<u8>) -> Seq<u8> {
    Seq::new(a.len(), |i: int| a[i] ^ b[i])
}

/// `ClientProof = ClientKey XOR HMAC(H(ClientKey), AuthMessage)`.
pub open spec fn client_proof_spec(algo: ScramAlgo, salted: Seq<u8>, auth_message: Seq<char>)
    -> Seq<u8> {
    let ck = client_key_spec(algo, salted);
    let sig = scram_hmac(algo, scram_h(algo, ck), encode_utf8(auth_message));
    xor_bytes_spec(ck, sig)
}

/// `ServerSignature = HMAC(ServerKey, AuthMessage)`.
pub open spec fn server_signature_spec(algo: ScramAlgo, salted: Seq<u8>, auth_message: Seq<char>)
    -> Seq<u8> {
    scram_hmac(algo, server_key_spec(algo, salted), encode_utf8(auth_message))
}

/// `client-final-without-proof = "c=<c>,r=<nonce>"`.
pub open spec fn client_final_wp_spec(binding: Option<Seq<u8>>, nonce: Seq<char>) -> Seq<char> {
    seq!['c', '='] + c_attr_spec(binding) + seq![',', 'r', '='] + nonce
}

/// `AuthMessage = client-first-bare , server-first , client-final-without-proof`.
pub open spec fn auth_message_spec(cfb: Seq<char>, server_first: Seq<char>, cfwp: Seq<char>)
    -> Seq<char> {
    cfb + seq![','] + server_first + seq![','] + cfwp
}

/// Bytewise exclusive or of two equally long byte strings.
fn xor_bytes(a: &Vec<u8>, b: &Vec<u8>) -> (r: Vec<u8>)
    requires
        a.len() == b.len(),
    ensures
        r@ == xor_bytes_spec(a@, b@),
{
    let n = a.len();
    let mut out: Vec<u8> = Vec::new();
    let mut i: usize = 0;
    while i < n
        invariant
            n == a.len(),
            n == b.len(),
            i <= n,
            out@ =~= xor_bytes_spec(a@, b@).take(i as int),
        decreases n - i,
    {
        out.push(a[i] ^ b[i]);
        proof {
            assert(out@ =~= xor_bytes_spec(a@, b@).take(i + 1));
        }
        i += 1;
    }
    proof {
        assert(xor_bytes_spec(a@, b@).take(n as int) =~= xor_bytes_spec(a@, b@));
    }
    out
}

/// HMAC under the chosen hash, executable.
fn hmac_algo(algo: ScramAlgo, key: &Vec<u8>, msg: &Vec<u8>) -> (r: Vec<u8>)
    ensures
        r@ == scram_hmac(algo, key@, msg@),
        r@.len() == (match algo {
            ScramAlgo::Sha256 => 32int,
            ScramAlgo::Sha512 => 64int,
        }),
{
    match algo {
        ScramAlgo::Sha256 => hmac_sha256(key.as_slice(), msg.as_slice()),
        ScramAlgo::Sha512 => hmac_sha512(key.as_slice(), msg.as_slice()),
    }
}

/// Everything the client derives from one server-first message.
pub struct ScramDerived {
    /// `client-final-without-proof , ",p=" , base64(ClientProof)`.
    pub client_final: String,
    /// The auth message the proof signs.
    pub auth_message: String,
    /// The server signature to demand in `v=`.
    pub expected_server_sig: Vec<u8>,
}

/// Whether a derivation is the one RFC 5802 prescribes for these inputs.
pub open spec fn scram_derivation_ok(
    algo: ScramAlgo,
    password: Seq<char>,
    salt: Seq<u8>,
    rounds: u32,
    binding: Option<Seq<u8>>,
    server_nonce: Seq<char>,
    cfb: Seq<char>,
    server_first: Seq<char>,
    d: ScramDerived,
) -> bool {
    let salted = salted_password_spec(algo, encode_utf8(password), salt, rounds);
    let cfwp = client_final_wp_spec(binding, server_nonce);
    let am = auth_message_spec(cfb, server_first, cfwp);
    &&& d.auth_message@ == am
    &&& d.client_final@ == cfwp + seq![',', 'p', '='] + b64_of(
        client_proof_spec(algo, salted, am),
    )
    &&& d.expected_server_sig@ == server_signature_spec(algo, salted, am)
}

/// Derive the client-final message and the expected server signature from a
/// server-first message, exactly as RFC 5802 prescribes: the salted
/// password by PBKDF2, the client proof as `ClientKey XOR
/// HMAC(H(ClientKey), AuthMessage)`, and the server signature as
/// `HMAC(ServerKey, AuthMessage)`.
pub fn scram_derive(
    algo: ScramAlgo,
    password: &str,
    salt: &Vec<u8>,
    rounds: u32,
    binding: &Option<Vec<u8>>,
    server_nonce: &str,
    cfb: &str,
    server_first: &str,
) -> (d: ScramDerived)
    ensures
        scram_derivation_ok(
            algo,
            password@,
            salt@,
            rounds,
            binding_view(*binding),
            server_nonce@,
            cfb@,
            server_first@,
            d,
        ),
{
    let salted = match algo {
        ScramAlgo::Sha256 => pbkdf2_sha256(
            password.as_bytes_vec().as_slice(),
            salt.as_slice(),
            rounds,
        ),
        ScramAlgo::Sha512 => pbkdf2_sha512(
            password.as_bytes_vec().as_slice(),
            salt.as_slice(),
            rounds,
        ),
    };

    // client-final-without-proof
    let c = cbind_attr(binding);
    let mut cfwp = String::from_str("c=");
    cfwp.append(c.as_str());
    cfwp.append(",r=");
    cfwp.append(server_nonce);
    proof {
        reveal_strlit("c=");
        reveal_strlit(",r=");
        assert(cfwp@ =~= client_final_wp_spec(binding_view(*binding), server_nonce@));
    }

    // AuthMessage
    let mut am = String::from_str(cfb);
    am.append(",");
    am.append(server_first);
    am.append(",");
    am.append(cfwp.as_str());
    proof {
        reveal_strlit(",");
        assert(am@ =~= auth_message_spec(cfb@, server_first@, cfwp@));
    }

    // ClientKey, StoredKey, ClientSignature, ClientProof
    let client_key = hmac_algo(algo, &salted, &"Client Key".as_bytes_vec());
    let stored_key = match algo {
        ScramAlgo::Sha256 => sha256(client_key.as_slice()),
        ScramAlgo::Sha512 => sha512(client_key.as_slice()),
    };
    let client_sig = hmac_algo(algo, &stored_key, &am.as_str().as_bytes_vec());
    let proof_bytes = xor_bytes(&client_key, &client_sig);

    let mut client_final = String::from_str(cfwp.as_str());
    client_final.append(",p=");
    client_final.append(b64_bytes(proof_bytes.as_slice()).as_str());
    proof {
        reveal_strlit(",p=");
        let salted_s = salted_password_spec(
            algo,
            encode_utf8(password@),
            salt@,
            rounds,
        );
        assert(proof_bytes@ == client_proof_spec(algo, salted_s, am@));
        assert(client_final@ =~= cfwp@ + seq![',', 'p', '='] + b64_of(
            client_proof_spec(algo, salted_s, am@),
        ));
    }

    // ServerKey and the expected server signature
    let server_key = hmac_algo(algo, &salted, &"Server Key".as_bytes_vec());
    let expected_server_sig = hmac_algo(algo, &server_key, &am.as_str().as_bytes_vec());

    ScramDerived { client_final, auth_message: am, expected_server_sig }
}

} // verus!
