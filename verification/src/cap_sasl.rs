//! The CAP and SASL negotiation driver: a state machine from received
//! messages to lines to send, covering capability listing and request,
//! the PLAIN, EXTERNAL, SCRAM-SHA-256 and SCRAM-SHA-512 mechanisms, and
//! strict verification of the SCRAM server signature.

use vstd::prelude::*;
use vstd::string::*;
use vstd::utf8::encode_utf8;
use crate::crypto::{b64_bytes, b64_decode, b64_decode_of, b64_of, ct_eq_bytes, nonce_bytes};
use crate::proto::{Message, MessageView};
use crate::scram::{
    auth_message_spec, binding_view, client_final_wp_spec, client_proof_spec, gs2_header,
    gs2_header_spec, parse_scram_challenge, parse_scram_challenge_spec, salted_password_spec,
    saslname, saslname_spec, scram_derive, server_signature_spec, ScramAlgo,
};
use crate::session::{last_param, param_at};
use crate::strutil::{
    eq_str, join_space, join_char_spec, push_char, split_on, split_on_spec, split_ws,
    split_ws_spec, starts_with_str, tokens_contain,
};

verus! {

// ---------------------------------------------------------------------------
// Configuration values
// ---------------------------------------------------------------------------

/// The capabilities to ask of the server.
#[derive(Debug, Clone)]
pub struct CapRequest {
    pub want: Vec<String>,
}

impl CapRequest {
    /// The stock request: `server-time` and `message-tags`, plus `sasl`
    /// exactly when a SASL mechanism is configured.
    pub fn defaults(include_sasl: bool) -> (r: Self)
        ensures
            r.want.deep_view() == (if include_sasl {
                seq!["server-time"@, "message-tags"@, "sasl"@]
            } else {
                seq!["server-time"@, "message-tags"@]
            }),
    {
        let mut v: Vec<String> = Vec::new();
        v.push(String::from_str("server-time"));
        v.push(String::from_str("message-tags"));
        if include_sasl {
            v.push(String::from_str("sasl"));
            proof {
                assert(v.deep_view() =~= seq!["server-time"@, "message-tags"@, "sasl"@]);
            }
        } else {
            proof {
                assert(v.deep_view() =~= seq!["server-time"@, "message-tags"@]);
            }
        }
        CapRequest { want: v }
    }
}

/// One configured SASL mechanism with its credentials.
#[derive(Debug, Clone)]
pub enum SaslMech {
    Plain { authzid: Option<String>, username: String, password: String },
    ScramSha256 { authzid: Option<String>, username: String, password: String },
    ScramSha512 { authzid: Option<String>, username: String, password: String },
    External { authzid: Option<String> },
}

/// The abstract value of a `SaslMech`.
pub enum SaslMechView {
    Plain { authzid: Option<Seq<char>>, username: Seq<char>, password: Seq<char> },
    ScramSha256 { authzid: Option<Seq<char>>, username: Seq<char>, password: Seq<char> },
    ScramSha512 { authzid: Option<Seq<char>>, username: Seq<char>, password: Seq<char> },
    External { authzid: Option<Seq<char>> },
}

/// The view of an optional string.
pub open spec fn opt_str_view(o: Option<String>) -> Option<Seq<char>> {
    match o {
        Some(s) => Some(s@),
        None => None,
    }
}

impl View for SaslMech {
    type V = SaslMechView;

    open spec fn view(&self) -> SaslMechView {
        match self {
            SaslMech::Plain { authzid, username, password } => SaslMechView::Plain {
                authzid: opt_str_view(*authzid),
                username: username@,
                password: password@,
            },
            SaslMech::ScramSha256 { authzid, username, password } => SaslMechView::ScramSha256 {
                authzid: opt_str_view(*authzid),
                username: username@,
                password: password@,
            },
            SaslMech::ScramSha512 { authzid, username, password } => SaslMechView::ScramSha512 {
                authzid: opt_str_view(*authzid),
                username: username@,
                password: password@,
            },
            SaslMech::External { authzid } => SaslMechView::External {
                authzid: opt_str_view(*authzid),
            },
        }
    }
}

/// Why negotiation failed.
#[derive(Debug, Clone, Copy, PartialEq, Eq, Structural)]
pub enum NegError {
    /// A SCRAM message was missing a piece or carried a bad nonce or `v=`.
    SaslProtocol,
    /// The server's signature did not match the expected one.
    SaslServerSignatureMismatch,
    /// The server rejected authentication with this numeric.
    SaslRejected(u32),
}

/// What one step of the negotiation decided.
#[derive(Debug, Clone, Copy, PartialEq, Eq, Structural)]
pub enum StepOutcome {
    /// Keep reading messages.
    Continue,
    /// The server welcomed us: negotiation is over.
    Done,
    /// Negotiation failed; the connection is poisoned.
    Failed(NegError),
}

// ---------------------------------------------------------------------------
// The negotiator and its view
// ---------------------------------------------------------------------------

/// The negotiation state machine. It owns no socket: `start` says what to
/// send first, and `on_message` turns each received message into lines to
/// send and a verdict.
#[derive(Debug, Clone)]
pub struct Negotiator {
    pub nick: String,
    pub user: String,
    pub realname: String,
    pub want: Vec<String>,
    pub sasl: Option<SaslMech>,
    /// The TLS channel-binding material, where the transport has any.
    pub binding: Option<Vec<u8>>,
    pub cap_in_progress: bool,
    pub req_sent: bool,
    /// Capabilities the server has offered so far, without duplicates.
    pub offered: Vec<String>,
    pub client_nonce: Option<String>,
    pub client_first_bare: Option<String>,
    pub expected_server_sig: Option<Vec<u8>>,
}

/// The abstract value of a `Negotiator`.
pub struct NegView {
    pub nick: Seq<char>,
    pub user: Seq<char>,
    pub realname: Seq<char>,
    pub want: Seq<Seq<char>>,
    pub sasl: Option<SaslMechView>,
    pub binding: Option<Seq<u8>>,
    pub cap_in_progress: bool,
    pub req_sent: bool,
    pub offered: Seq<Seq<char>>,
    pub client_nonce: Option<Seq<char>>,
    pub client_first_bare: Option<Seq<char>>,
    pub expected_server_sig: Option<Seq<u8>>,
}

impl View for Negotiator {
    type V = NegView;

    open spec fn view(&self) -> NegView {
        NegView {
            nick: self.nick@,
            user: self.user@,
            realname: self.realname@,
            want: self.want.deep_view(),
            sasl: match self.sasl {
                Some(m) => Some(m@),
                None => None,
            },
            binding: binding_view(self.binding),
            cap_in_progress: self.cap_in_progress,
            req_sent: self.req_sent,
            offered: self.offered.deep_view(),
            client_nonce: opt_str_view(self.client_nonce),
            client_first_bare: opt_str_view(self.client_first_bare),
            expected_server_sig: match self.expected_server_sig {
                Some(v) => Some(v@),
                None => None,
            },
        }
    }
}

impl Negotiator {
    /// The SCRAM bookkeeping invariant: the client nonce and the
    /// client-first-bare message are set together.
    pub open spec fn wf(&self) -> bool {
        self@.client_nonce is Some <==> self@.client_first_bare is Some
    }

    /// A fresh negotiator: capability listing underway, nothing offered,
    /// requested or derived yet.
    pub fn new(
        nick: String,
        user: String,
        realname: String,
        caps: CapRequest,
        sasl: Option<SaslMech>,
        binding: Option<Vec<u8>>,
    ) -> (r: Self)
        ensures
            r.wf(),
            r@.nick == nick@,
            r@.user == user@,
            r@.realname == realname@,
            r@.want == caps.want.deep_view(),
            r@.binding == binding_view(binding),
            r@.cap_in_progress == true,
            r@.req_sent == false,
            r@.offered == Seq::<Seq<char>>::empty(),
            r@.client_nonce is None,
            r@.client_first_bare is None,
            r@.expected_server_sig is None,
            r@.sasl == (match sasl {
                Some(m) => Some(m@),
                None => None::<SaslMechView>,
            }),
    {
        let r = Negotiator {
            nick,
            user,
            realname,
            want: caps.want,
            sasl,
            binding,
            cap_in_progress: true,
            req_sent: false,
            offered: Vec::new(),
            client_nonce: None,
            client_first_bare: None,
            expected_server_sig: None,
        };
        proof {
            assert(r.offered.deep_view() =~= Seq::<Seq<char>>::empty());
        }
        r
    }

    /// The registration kickoff, sent before reading anything: `NICK`,
    /// `USER`, `CAP LS 302`, in that order.
    pub fn start(&self) -> (out: Vec<String>)
        ensures
            out.deep_view() == start_lines(self@),
    {
        let mut out: Vec<String> = Vec::new();
        let mut l1 = String::from_str("NICK ");
        l1.append(self.nick.as_str());
        out.push(l1);
        let mut l2 = String::from_str("USER ");
        l2.append(self.user.as_str());
        l2.append(" 0 * :");
        l2.append(self.realname.as_str());
        out.push(l2);
        out.push(String::from_str("CAP LS 302"));
        proof {
            assert(out.deep_view() =~= start_lines(self@));
        }
        out
    }
}

/// The three lines that open registration.
pub open spec fn start_lines(n: NegView) -> Seq<Seq<char>> {
    seq![
        "NICK "@ + n.nick,
        "USER "@ + n.user + " 0 * :"@ + n.realname,
        "CAP LS 302"@,
    ]
}

// ---------------------------------------------------------------------------
// The transition, in specification
// ---------------------------------------------------------------------------

/// Insert each token not yet present, keeping arrival order.
pub open spec fn add_unique(acc: Seq<Seq<char>>, toks: Seq<Seq<char>>) -> Seq<Seq<char>>
    decreases toks.len(),
{
    if toks.len() == 0 {
        acc
    } else {
        let acc2 = if acc.contains(toks[0]) {
            acc
        } else {
            acc.push(toks[0])
        };
        add_unique(acc2, toks.drop_first())
    }
}

/// The names of `want` that `offered` holds, in the order of `want`.
pub open spec fn wanted_of(want: Seq<Seq<char>>, offered: Seq<Seq<char>>) -> Seq<Seq<char>>
    decreases want.len(),
{
    if want.len() == 0 {
        seq![]
    } else {
        let rest = wanted_of(want.drop_last(), offered);
        if offered.contains(want.last()) {
            rest.push(want.last())
        } else {
            rest
        }
    }
}

/// Whether a `CAP LS` line is a continuation: some parameter equals `*`.
pub open spec fn is_continuation(m: MessageView) -> bool {
    exists|i: int| 0 <= i < m.params.len() && m.params[i] == "*"@
}

/// One step's result: the state afterwards, the lines to send, and the
/// verdict.
pub struct Step {
    pub post: NegView,
    pub out: Seq<Seq<char>>,
    pub res: StepOutcome,
}

/// The first `v=` attribute value of a challenge's field list, if any.
pub open spec fn find_v_attr(fields: Seq<Seq<char>>) -> Option<Seq<char>>
    decreases fields.len(),
{
    if fields.len() == 0 {
        None
    } else if "v="@.is_prefix_of(fields[0]) {
        Some(fields[0].skip(2))
    } else {
        find_v_attr(fields.drop_first())
    }
}

/// The capability subcommand: `LS`, `ACK`, `NAK`, ...
pub open spec fn cap_sub(m: MessageView) -> Seq<char> {
    param_at(m, 1)
}

/// The `CAP LS` step: fold the offered names in; on the final line, either
/// request the overlap with the wanted names or end capability negotiation.
pub open spec fn cap_ls_step(pre: NegView, m: MessageView) -> Step {
    let offered = add_unique(pre.offered, split_ws_spec(last_param(m)));
    let mid = NegView { offered, ..pre };
    if !is_continuation(m) && !pre.req_sent {
        let to_req = wanted_of(pre.want, offered);
        if to_req.len() > 0 {
            Step {
                post: NegView { req_sent: true, ..mid },
                out: seq!["CAP REQ :"@ + join_char_spec(to_req, ' ')],
                res: StepOutcome::Continue,
            }
        } else {
            Step {
                post: NegView { cap_in_progress: false, ..mid },
                out: seq!["CAP END"@],
                res: StepOutcome::Continue,
            }
        }
    } else {
        Step { post: mid, out: seq![], res: StepOutcome::Continue }
    }
}

/// The `CAP ACK` step: with `sasl` acknowledged and a mechanism configured,
/// open authentication; SCRAM mechanisms draw a nonce and form
/// client-first-bare.
pub open spec fn cap_ack_step(pre: NegView, m: MessageView, nonce: Seq<char>) -> Step {
    if split_ws_spec(last_param(m)).contains("sasl"@) && pre.sasl is Some {
        match pre.sasl->Some_0 {
            SaslMechView::Plain { .. } => Step {
                post: pre,
                out: seq!["AUTHENTICATE PLAIN"@],
                res: StepOutcome::Continue,
            },
            SaslMechView::External { .. } => Step {
                post: pre,
                out: seq!["AUTHENTICATE EXTERNAL"@],
                res: StepOutcome::Continue,
            },
            SaslMechView::ScramSha256 { username, .. } => Step {
                post: NegView {
                    client_nonce: Some(nonce),
                    client_first_bare: Some(
                        "n="@ + saslname_spec(username) + ",r="@ + nonce,
                    ),
                    ..pre
                },
                out: seq!["AUTHENTICATE SCRAM-SHA-256"@],
                res: StepOutcome::Continue,
            },
            SaslMechView::ScramSha512 { username, .. } => Step {
                post: NegView {
                    client_nonce: Some(nonce),
                    client_first_bare: Some(
                        "n="@ + saslname_spec(username) + ",r="@ + nonce,
                    ),
                    ..pre
                },
                out: seq!["AUTHENTICATE SCRAM-SHA-512"@],
                res: StepOutcome::Continue,
            },
        }
    } else {
        Step { post: pre, out: seq![], res: StepOutcome::Continue }
    }
}

/// The `AUTHENTICATE +` step: answer the server's prompt with the initial
/// response of the configured mechanism. The GS2 header claims channel
/// binding exactly when binding material is at hand.
pub open spec fn auth_plus_step(pre: NegView) -> Step {
    match pre.sasl {
        None => Step { post: pre, out: seq![], res: StepOutcome::Continue },
        Some(mech) => match mech {
            SaslMechView::Plain { authzid, username, password } => {
                let az = match authzid {
                    Some(a) => a,
                    None => Seq::empty(),
                };
                let payload = az + seq!['\u{0}'] + username + seq!['\u{0}'] + password;
                Step {
                    post: pre,
                    out: seq!["AUTHENTICATE "@ + b64_of(encode_utf8(payload))],
                    res: StepOutcome::Continue,
                }
            },
            SaslMechView::External { authzid } => match authzid {
                Some(a) => Step {
                    post: pre,
                    out: seq!["AUTHENTICATE "@ + b64_of(encode_utf8(a))],
                    res: StepOutcome::Continue,
                },
                None => Step {
                    post: pre,
                    out: seq!["AUTHENTICATE +"@],
                    res: StepOutcome::Continue,
                },
            },
            _ => match pre.client_first_bare {
                None => Step {
                    post: pre,
                    out: seq![],
                    res: StepOutcome::Failed(NegError::SaslProtocol),
                },
                Some(cfb) => {
                    let first = gs2_header_spec(pre.binding is Some) + cfb;
                    Step {
                        post: pre,
                        out: seq!["AUTHENTICATE "@ + b64_of(encode_utf8(first))],
                        res: StepOutcome::Continue,
                    }
                },
            },
        },
    }
}

/// The algorithm of a SCRAM mechanism, if the mechanism is SCRAM at all.
pub open spec fn scram_algo_of(m: SaslMechView) -> Option<ScramAlgo> {
    match m {
        SaslMechView::ScramSha256 { .. } => Some(ScramAlgo::Sha256),
        SaslMechView::ScramSha512 { .. } => Some(ScramAlgo::Sha512),
        _ => None,
    }
}

/// The password of a mechanism that has one.
pub open spec fn mech_password(m: SaslMechView) -> Seq<char> {
    match m {
        SaslMechView::Plain { password, .. } => password,
        SaslMechView::ScramSha256 { password, .. } => password,
        SaslMechView::ScramSha512 { password, .. } => password,
        SaslMechView::External { .. } => Seq::empty(),
    }
}

/// The `CAP END` line, sent alone when capability negotiation is still
/// open.
pub open spec fn cap_end_out(pre: NegView) -> Seq<Seq<char>> {
    if pre.cap_in_progress {
        seq!["CAP END"@]
    } else {
        seq![]
    }
}

/// The step on a SCRAM challenge that carries a server signature: decode
/// the `v=` value and compare it, in constant time, against the expected
/// signature; a mismatch is fatal, undecodable base64 a protocol error.
pub open spec fn scram_verify_step(pre: NegView, vb64: Seq<char>) -> Step {
    match pre.expected_server_sig {
        None => Step { post: pre, out: seq![], res: StepOutcome::Continue },
        Some(exp) => match b64_decode_of(vb64) {
            Some(sig) => if sig == exp {
                Step { post: pre, out: seq![], res: StepOutcome::Continue }
            } else {
                Step {
                    post: pre,
                    out: cap_end_out(pre),
                    res: StepOutcome::Failed(NegError::SaslServerSignatureMismatch),
                }
            },
            None => Step {
                post: pre,
                out: cap_end_out(pre),
                res: StepOutcome::Failed(NegError::SaslProtocol),
            },
        },
    }
}

/// The step on a SCRAM server-first message: check the nonce continues our
/// own, derive the client-final message, and remember the server signature
/// to demand later.
pub open spec fn scram_first_step(pre: NegView, algo: ScramAlgo, challenge: Seq<char>) -> Step {
    let fail = Step { post: pre, out: seq![], res: StepOutcome::Failed(NegError::SaslProtocol) };
    match pre.client_nonce {
        None => fail,
        Some(cn) => match parse_scram_challenge_spec(challenge) {
            None => fail,
            Some((salt, rounds, snonce)) => if !cn.is_prefix_of(snonce) {
                fail
            } else {
                match pre.client_first_bare {
                    None => fail,
                    Some(cfb) => {
                        let salted = salted_password_spec(
                            algo,
                            encode_utf8(mech_password(pre.sasl->Some_0)),
                            salt,
                            rounds,
                        );
                        let cfwp = client_final_wp_spec(pre.binding, snonce);
                        let am = auth_message_spec(cfb, challenge, cfwp);
                        let final_msg = cfwp + seq![',', 'p', '='] + b64_of(
                            client_proof_spec(algo, salted, am),
                        );
                        Step {
                            post: NegView {
                                expected_server_sig: Some(
                                    server_signature_spec(algo, salted, am),
                                ),
                                ..pre
                            },
                            out: seq!["AUTHENTICATE "@ + b64_of(encode_utf8(final_msg))],
                            res: StepOutcome::Continue,
                        }
                    },
                }
            },
        },
    }
}

/// The step on `AUTHENTICATE <data>`: base64-decode the challenge (an
/// undecodable one reads as empty), then, for a SCRAM mechanism, verify a
/// server signature if one is present, else treat it as server-first.
pub open spec fn auth_data_step(pre: NegView, data: Seq<char>) -> Step {
    let bytes = match b64_decode_of(data) {
        Some(b) => b,
        None => Seq::empty(),
    };
    let challenge = utf8_lossy_of(bytes);
    match pre.sasl {
        Some(mech) => match scram_algo_of(mech) {
            Some(algo) => match find_v_attr(split_on_spec(challenge, ',')) {
                Some(vb64) => scram_verify_step(pre, vb64),
                None => scram_first_step(pre, algo, challenge),
            },
            None => Step { post: pre, out: seq![], res: StepOutcome::Continue },
        },
        None => Step { post: pre, out: seq![], res: StepOutcome::Continue },
    }
}

/// What one received message does to the negotiation. `nonce` is the
/// base64 form of the client nonce drawn if this message opens a SCRAM
/// exchange; every other step ignores it.
pub open spec fn step(pre: NegView, m: MessageView, nonce: Seq<char>) -> Step {
    if m.command == "CAP"@ {
        if cap_sub(m) == "LS"@ {
            cap_ls_step(pre, m)
        } else if cap_sub(m) == "ACK"@ {
            cap_ack_step(pre, m, nonce)
        } else if cap_sub(m) == "NAK"@ {
            Step {
                post: NegView { cap_in_progress: false, ..pre },
                out: cap_end_out(pre),
                res: StepOutcome::Continue,
            }
        } else {
            Step { post: pre, out: seq![], res: StepOutcome::Continue }
        }
    } else if m.command == "AUTHENTICATE"@ {
        if param_at(m, 0) == "+"@ {
            auth_plus_step(pre)
        } else {
            auth_data_step(pre, param_at(m, 0))
        }
    } else if m.command == "900"@ || m.command == "903"@ {
        Step {
            post: NegView { cap_in_progress: false, ..pre },
            out: cap_end_out(pre),
            res: StepOutcome::Continue,
        }
    } else if m.command == "904"@ || m.command == "905"@ || m.command == "906"@ || m.command
        == "907"@ {
        let code: u32 = if m.command == "904"@ {
            904
        } else if m.command == "905"@ {
            905
        } else if m.command == "906"@ {
            906
        } else {
            907
        };
        Step {
            post: NegView { cap_in_progress: false, ..pre },
            out: cap_end_out(pre),
            res: StepOutcome::Failed(NegError::SaslRejected(code)),
        }
    } else if m.command == "001"@ {
        Step { post: pre, out: seq![], res: StepOutcome::Done }
    } else {
        Step { post: pre, out: seq![], res: StepOutcome::Continue }
    }
}

/// Server-signature verification is strict: with a pending expected
/// signature, a `v=` value that decodes to exactly that signature lets the
/// negotiation continue, and one that decodes to anything else — any
/// altered bit — fails it with a signature mismatch.
pub proof fn lemma_server_signature_strict(pre: NegView, vb64: Seq<char>, sig: Seq<u8>, exp: Seq<u8>)
    requires
        pre.expected_server_sig == Some(exp),
        b64_decode_of(vb64) == Some(sig),
    ensures
        sig == exp ==> scram_verify_step(pre, vb64).res == StepOutcome::Continue,
        sig != exp ==> scram_verify_step(pre, vb64).res == StepOutcome::Failed(
            NegError::SaslServerSignatureMismatch,
        ),
{
}

/// What `String::from_utf8_lossy` makes of a byte string: a function of
/// the bytes alone; valid UTF-8 reads back exactly.
pub uninterp spec fn utf8_lossy_of(b: Seq<u8>) -> Seq<char>;

/// Relies on `String::from_utf8_lossy`: a deterministic reading of the
/// bytes; on valid UTF-8 it is the usual decoding.
#[verifier::external_body]
fn string_from_utf8_lossy(b: &Vec<u8>) -> (r: String)
    ensures
        r@ == utf8_lossy_of(b@),
        vstd::utf8::valid_utf8(b@) ==> r@ == vstd::utf8::decode_utf8(b@),
{
    String::from_utf8_lossy(b.as_slice()).into_owned()
}


// ---------------------------------------------------------------------------
// Executable helpers
// ---------------------------------------------------------------------------

/// How a received `v=` value compares against the expected server
/// signature.
#[derive(Debug, Clone, Copy, PartialEq, Eq, Structural)]
pub enum SigCheck {
    /// The value decodes to exactly the expected signature.
    Match,
    /// The value decodes, but to something else: any altered bit lands here.
    Mismatch,
    /// The value is not base64.
    BadEncoding,
}

/// Compare a base64 `v=` value against the expected server signature, in
/// constant time: `Match` exactly when it decodes to the expected bytes,
/// `Mismatch` on any other decodable value, `BadEncoding` otherwise.
pub fn verify_server_signature(vb64: &str, expected: &Vec<u8>) -> (r: SigCheck)
    ensures
        match b64_decode_of(vb64@) {
            Some(sig) => r == (if sig == expected@ {
                SigCheck::Match
            } else {
                SigCheck::Mismatch
            }),
            None => r == SigCheck::BadEncoding,
        },
{
    match b64_decode(vb64) {
        Some(sig) => {
            if ct_eq_bytes(sig.as_slice(), expected.as_slice()) {
                SigCheck::Match
            } else {
                SigCheck::Mismatch
            }
        },
        None => SigCheck::BadEncoding,
    }
}

/// Whether some parameter is `*`.
fn is_cont_exec(msg: &Message) -> (r: bool)
    ensures
        r == is_continuation(msg@),
{
    let n = msg.params.len();
    let mut i: usize = 0;
    while i < n
        invariant
            n == msg.params.len(),
            i <= n,
            forall|j: int| 0 <= j < i ==> msg.params.deep_view()[j] != "*"@,
        decreases n - i,
    {
        if eq_str(msg.params[i].as_str(), "*") {
            proof {
                assert(msg@.params[i as int] == "*"@);
            }
            return true;
        }
        i += 1;
    }
    proof {
        assert(!is_continuation(msg@));
    }
    false
}

/// The last parameter, or empty.
fn last_param_string(msg: &Message) -> (r: String)
    ensures
        r@ == last_param(msg@),
{
    let n = msg.params.len();
    if n > 0 {
        msg.params[n - 1].clone()
    } else {
        String::new()
    }
}

/// The `i`-th parameter, or empty.
fn param_string(msg: &Message, i: usize) -> (r: String)
    ensures
        r@ == param_at(msg@, i as int),
{
    if i < msg.params.len() {
        msg.params[i].clone()
    } else {
        String::new()
    }
}

/// Insert every token of `toks` not yet present into `acc`, in order.
fn add_unique_exec(acc: &mut Vec<String>, toks: &Vec<String>)
    ensures
        final(acc).deep_view() == add_unique(old(acc).deep_view(), toks.deep_view()),
{
    let n = toks.len();
    let mut i: usize = 0;
    proof {
        assert(toks.deep_view().skip(0) =~= toks.deep_view());
    }
    while i < n
        invariant
            n == toks.len(),
            i <= n,
            add_unique(old(acc).deep_view(), toks.deep_view()) == add_unique(
                acc.deep_view(),
                toks.deep_view().skip(i as int),
            ),
        decreases n - i,
    {
        let ghost pre_acc = acc.deep_view();
        let ghost rest = toks.deep_view().skip(i as int);
        proof {
            assert(rest[0] == toks.deep_view()[i as int]);
            assert(rest.drop_first() =~= toks.deep_view().skip(i as int + 1));
        }
        if !tokens_contain(acc, toks[i].as_str()) {
            acc.push(toks[i].clone());
            proof {
                assert(acc.deep_view() =~= pre_acc.push(toks.deep_view()[i as int]));
            }
        }
        proof {
            assert(add_unique(pre_acc, rest) == add_unique(
                acc.deep_view(),
                toks.deep_view().skip(i as int + 1),
            ));
        }
        i += 1;
    }
    proof {
        assert(toks.deep_view().skip(n as int) =~= Seq::<Seq<char>>::empty());
        assert(add_unique(acc.deep_view(), Seq::<Seq<char>>::empty()) == acc.deep_view());
    }
}

/// The wanted names the server offers, in wanted order.
fn filter_want(want: &Vec<String>, offered: &Vec<String>) -> (r: Vec<String>)
    ensures
        r.deep_view() == wanted_of(want.deep_view(), offered.deep_view()),
{
    let n = want.len();
    let mut out: Vec<String> = Vec::new();
    let mut i: usize = 0;
    proof {
        assert(want.deep_view().take(0) =~= Seq::<Seq<char>>::empty());
        assert(out.deep_view() =~= wanted_of(want.deep_view().take(0), offered.deep_view()));
    }
    while i < n
        invariant
            n == want.len(),
            i <= n,
            out.deep_view() == wanted_of(want.deep_view().take(i as int), offered.deep_view()),
        decreases n - i,
    {
        let ghost pre_out = out.deep_view();
        proof {
            assert(want.deep_view().take(i + 1).drop_last() =~= want.deep_view().take(i as int));
            assert(want.deep_view().take(i + 1).last() == want.deep_view()[i as int]);
        }
        if tokens_contain(offered, want[i].as_str()) {
            out.push(want[i].clone());
        }
        proof {
            assert(out.deep_view() =~= wanted_of(
                want.deep_view().take(i + 1),
                offered.deep_view(),
            ));
        }
        i += 1;
    }
    proof {
        assert(want.deep_view().take(n as int) =~= want.deep_view());
    }
    out
}

/// The first `v=` field of a challenge, if any.
fn find_v_attr_exec(fields: &Vec<String>) -> (r: Option<String>)
    ensures
        match r {
            Some(v) => find_v_attr(fields.deep_view()) == Some(v@),
            None => find_v_attr(fields.deep_view()) is None,
        },
{
    let n = fields.len();
    let mut i: usize = 0;
    proof {
        assert(fields.deep_view().skip(0) =~= fields.deep_view());
    }
    while i < n
        invariant
            n == fields.len(),
            i <= n,
            find_v_attr(fields.deep_view()) == find_v_attr(fields.deep_view().skip(i as int)),
        decreases n - i,
    {
        let ghost rest = fields.deep_view().skip(i as int);
        proof {
            assert(rest[0] == fields.deep_view()[i as int]);
            assert(rest.drop_first() =~= fields.deep_view().skip(i as int + 1));
        }
        let f = fields[i].as_str();
        if starts_with_str(f, "v=") {
            let fl = f.unicode_len();
            proof {
                reveal_strlit("v=");
            }
            let v = f.substring_char(2, fl);
            proof {
                assert(v@ =~= rest[0].skip(2));
            }
            return Some(String::from_str(v));
        }
        i += 1;
    }
    proof {
        assert(fields.deep_view().skip(n as int) =~= Seq::<Seq<char>>::empty());
    }
    None
}

// ---------------------------------------------------------------------------
// The step, executable
// ---------------------------------------------------------------------------

impl Negotiator {
    /// Handle `CAP <t> LS`: fold the offered names in; on the final line
    /// either request the overlap or end capability negotiation.
    fn handle_cap_ls(&mut self, msg: &Message) -> (out: Vec<String>)
        requires
            old(self).wf(),
        ensures
            final(self).wf(),
            final(self)@ == cap_ls_step(old(self)@, msg@).post,
            out.deep_view() == cap_ls_step(old(self)@, msg@).out,
    {
        let caps_str = last_param_string(msg);
        let toks = split_ws(caps_str.as_str());
        add_unique_exec(&mut self.offered, &toks);
        let cont = is_cont_exec(msg);
        if !cont && !self.req_sent {
            let to_req = filter_want(&self.want, &self.offered);
            if to_req.len() > 0 {
                let mut line = String::from_str("CAP REQ :");
                line.append(join_space(&to_req).as_str());
                self.req_sent = true;
                let mut out: Vec<String> = Vec::new();
                out.push(line);
                proof {
                    assert(out.deep_view() =~= cap_ls_step(old(self)@, msg@).out);
                }
                out
            } else {
                self.cap_in_progress = false;
                let mut out: Vec<String> = Vec::new();
                out.push(String::from_str("CAP END"));
                proof {
                    assert(out.deep_view() =~= cap_ls_step(old(self)@, msg@).out);
                }
                out
            }
        } else {
            let out: Vec<String> = Vec::new();
            proof {
                assert(out.deep_view() =~= cap_ls_step(old(self)@, msg@).out);
            }
            out
        }
    }

    /// Handle `CAP <t> ACK`: with `sasl` acknowledged and a mechanism
    /// configured, open authentication; SCRAM draws a fresh nonce.
    fn handle_cap_ack(&mut self, msg: &Message) -> (out: Vec<String>)
        requires
            old(self).wf(),
        ensures
            final(self).wf(),
            exists|nb: Seq<u8>|
                nb.len() == 18 && final(self)@ == cap_ack_step(old(self)@, msg@, b64_of(nb)).post
                    && out.deep_view() == cap_ack_step(old(self)@, msg@, b64_of(nb)).out,
            final(self)@.client_nonce != old(self)@.client_nonce ==> final(self)@.client_nonce
                is Some && final(self)@.client_nonce->Some_0.len() == 24,
    {
        let ghost znb = Seq::<u8>::new(18, |k: int| 0u8);
        let ackd = last_param_string(msg);
        let toks = split_ws(ackd.as_str());
        if tokens_contain(&toks, "sasl") && self.sasl.is_some() {
            let algo_line: Option<(ScramAlgo, &str)> = match &self.sasl {
                Some(SaslMech::Plain { .. }) => None,
                Some(SaslMech::External { .. }) => None,
                Some(SaslMech::ScramSha256 { username, .. }) => Some(
                    (ScramAlgo::Sha256, username.as_str()),
                ),
                Some(SaslMech::ScramSha512 { username, .. }) => Some(
                    (ScramAlgo::Sha512, username.as_str()),
                ),
                None => None,
            };
            match algo_line {
                None => {
                    let mut out: Vec<String> = Vec::new();
                    match &self.sasl {
                        Some(SaslMech::Plain { .. }) => {
                            out.push(String::from_str("AUTHENTICATE PLAIN"));
                            proof {
                                assert(out.deep_view() =~= cap_ack_step(
                                    old(self)@,
                                    msg@,
                                    b64_of(znb),
                                ).out);
                            }
                        },
                        Some(SaslMech::External { .. }) => {
                            out.push(String::from_str("AUTHENTICATE EXTERNAL"));
                            proof {
                                assert(out.deep_view() =~= cap_ack_step(
                                    old(self)@,
                                    msg@,
                                    b64_of(znb),
                                ).out);
                            }
                        },
                        _ => {
                            proof {
                                assert(false);
                            }
                        },
                    }
                    proof {
                        assert(znb.len() == 18);
                    }
                    out
                },
                Some((algo, username)) => {
                    let nb = nonce_bytes();
                    let cnonce = b64_bytes(nb.as_slice());
                    let mut cfb = String::from_str("n=");
                    cfb.append(saslname(username).as_str());
                    cfb.append(",r=");
                    cfb.append(cnonce.as_str());
                    self.client_nonce = Some(cnonce);
                    self.client_first_bare = Some(cfb);
                    let mut out: Vec<String> = Vec::new();
                    match algo {
                        ScramAlgo::Sha256 => {
                            out.push(String::from_str("AUTHENTICATE SCRAM-SHA-256"));
                        },
                        ScramAlgo::Sha512 => {
                            out.push(String::from_str("AUTHENTICATE SCRAM-SHA-512"));
                        },
                    }
                    proof {
                        let st = cap_ack_step(old(self)@, msg@, b64_of(nb@));
                        assert(final(self)@ == st.post);
                        assert(out.deep_view() =~= st.out);
                    }
                    out
                },
            }
        } else {
            let out: Vec<String> = Vec::new();
            proof {
                assert(out.deep_view() =~= cap_ack_step(old(self)@, msg@, b64_of(znb)).out);
                assert(znb.len() == 18);
            }
            out
        }
    }

    /// Handle `AUTHENTICATE +`: the initial response of the configured
    /// mechanism.
    fn handle_auth_plus(&self) -> (r: (Vec<String>, StepOutcome))
        ensures
            r.0.deep_view() == auth_plus_step(self@).out,
            r.1 == auth_plus_step(self@).res,
    {
        match &self.sasl {
            None => {
                let out: Vec<String> = Vec::new();
                proof {
                    assert(out.deep_view() =~= auth_plus_step(self@).out);
                }
                (out, StepOutcome::Continue)
            },
            Some(SaslMech::Plain { authzid, username, password }) => {
                let mut payload = match authzid {
                    Some(a) => a.clone(),
                    None => String::new(),
                };
                push_char(&mut payload, '\u{0}');
                payload.append(username.as_str());
                push_char(&mut payload, '\u{0}');
                payload.append(password.as_str());
                let mut line = String::from_str("AUTHENTICATE ");
                line.append(b64_bytes(payload.as_str().as_bytes_vec().as_slice()).as_str());
                let mut out: Vec<String> = Vec::new();
                out.push(line);
                proof {
                    let az: Seq<char> = match self@.sasl->Some_0 {
                        SaslMechView::Plain { authzid: a, .. } => match a {
                            Some(x) => x,
                            None => Seq::empty(),
                        },
                        _ => Seq::empty(),
                    };
                    assert(payload@ =~= az + seq!['\u{0}'] + username@ + seq!['\u{0}']
                        + password@);
                    assert(out.deep_view() =~= auth_plus_step(self@).out);
                }
                (out, StepOutcome::Continue)
            },
            Some(SaslMech::External { authzid }) => match authzid {
                Some(a) => {
                    let mut line = String::from_str("AUTHENTICATE ");
                    line.append(b64_bytes(a.as_str().as_bytes_vec().as_slice()).as_str());
                    let mut out: Vec<String> = Vec::new();
                    out.push(line);
                    proof {
                        assert(out.deep_view() =~= auth_plus_step(self@).out);
                    }
                    (out, StepOutcome::Continue)
                },
                None => {
                    let mut out: Vec<String> = Vec::new();
                    out.push(String::from_str("AUTHENTICATE +"));
                    proof {
                        assert(out.deep_view() =~= auth_plus_step(self@).out);
                    }
                    (out, StepOutcome::Continue)
                },
            },
            _ => {
                match &self.client_first_bare {
                    None => {
                        let out: Vec<String> = Vec::new();
                        proof {
                            assert(out.deep_view() =~= auth_plus_step(self@).out);
                        }
                        (out, StepOutcome::Failed(NegError::SaslProtocol))
                    },
                    Some(cfb) => {
                        let mut first = gs2_header(self.binding.is_some());
                        first.append(cfb.as_str());
                        let mut line = String::from_str("AUTHENTICATE ");
                        line.append(
                            b64_bytes(first.as_str().as_bytes_vec().as_slice()).as_str(),
                        );
                        let mut out: Vec<String> = Vec::new();
                        out.push(line);
                        proof {
                            assert(out.deep_view() =~= auth_plus_step(self@).out);
                        }
                        (out, StepOutcome::Continue)
                    },
                }
            },
        }
    }

    /// Handle a SCRAM server-first message.
    fn handle_scram_first(&mut self, algo: ScramAlgo, challenge: &str) -> (r: (
        Vec<String>,
        StepOutcome,
    ))
        requires
            old(self).wf(),
            old(self)@.sasl is Some,
            scram_algo_of(old(self)@.sasl->Some_0) == Some(algo),
        ensures
            final(self).wf(),
            final(self)@ == scram_first_step(old(self)@, algo, challenge@).post,
            r.0.deep_view() == scram_first_step(old(self)@, algo, challenge@).out,
            r.1 == scram_first_step(old(self)@, algo, challenge@).res,
    {
        let cn = match &self.client_nonce {
            Some(c) => c.clone(),
            None => {
                let out: Vec<String> = Vec::new();
                proof {
                    assert(out.deep_view() =~= scram_first_step(old(self)@, algo, challenge@).out);
                }
                return (out, StepOutcome::Failed(NegError::SaslProtocol));
            },
        };
        let parsed = match parse_scram_challenge(challenge) {
            Some(p) => p,
            None => {
                let out: Vec<String> = Vec::new();
                proof {
                    assert(out.deep_view() =~= scram_first_step(old(self)@, algo, challenge@).out);
                }
                return (out, StepOutcome::Failed(NegError::SaslProtocol));
            },
        };
        if !starts_with_str(parsed.nonce.as_str(), cn.as_str()) {
            let out: Vec<String> = Vec::new();
            proof {
                assert(out.deep_view() =~= scram_first_step(old(self)@, algo, challenge@).out);
            }
            return (out, StepOutcome::Failed(NegError::SaslProtocol));
        }
        let cfb = match &self.client_first_bare {
            Some(c) => c.clone(),
            None => {
                let out: Vec<String> = Vec::new();
                proof {
                    assert(out.deep_view() =~= scram_first_step(old(self)@, algo, challenge@).out);
                }
                return (out, StepOutcome::Failed(NegError::SaslProtocol));
            },
        };
        let password = match &self.sasl {
            Some(SaslMech::ScramSha256 { password, .. }) => password.clone(),
            Some(SaslMech::ScramSha512 { password, .. }) => password.clone(),
            _ => {
                proof {
                    assert(false);
                }
                String::new()
            },
        };
        let d = scram_derive(
            algo,
            password.as_str(),
            &parsed.salt,
            parsed.iter,
            &self.binding,
            parsed.nonce.as_str(),
            cfb.as_str(),
            challenge,
        );
        let mut line = String::from_str("AUTHENTICATE ");
        line.append(b64_bytes(d.client_final.as_str().as_bytes_vec().as_slice()).as_str());
        self.expected_server_sig = Some(d.expected_server_sig);
        let mut out: Vec<String> = Vec::new();
        out.push(line);
        proof {
            let st = scram_first_step(old(self)@, algo, challenge@);
            assert(password@ == mech_password(old(self)@.sasl->Some_0));
            assert(final(self)@ == st.post);
            assert(out.deep_view() =~= st.out);
        }
        (out, StepOutcome::Continue)
    }

    /// Handle `AUTHENTICATE <data>`.
    fn handle_auth_data(&mut self, data: &str) -> (r: (Vec<String>, StepOutcome))
        requires
            old(self).wf(),
        ensures
            final(self).wf(),
            final(self)@ == auth_data_step(old(self)@, data@).post,
            r.0.deep_view() == auth_data_step(old(self)@, data@).out,
            r.1 == auth_data_step(old(self)@, data@).res,
    {
        let bytes = match b64_decode(data) {
            Some(b) => b,
            None => Vec::new(),
        };
        let challenge = string_from_utf8_lossy(&bytes);
        let algo_opt: Option<ScramAlgo> = match &self.sasl {
            Some(SaslMech::ScramSha256 { .. }) => Some(ScramAlgo::Sha256),
            Some(SaslMech::ScramSha512 { .. }) => Some(ScramAlgo::Sha512),
            _ => None,
        };
        let algo = match algo_opt {
            Some(a) => a,
            None => {
                let out: Vec<String> = Vec::new();
                proof {
                    assert(out.deep_view() =~= auth_data_step(old(self)@, data@).out);
                }
                return (out, StepOutcome::Continue);
            },
        };
        let fields = split_on(challenge.as_str(), ',');
        match find_v_attr_exec(&fields) {
            Some(vb64) => {
                match &self.expected_server_sig {
                    None => {
                        let out: Vec<String> = Vec::new();
                        proof {
                            assert(out.deep_view() =~= auth_data_step(old(self)@, data@).out);
                        }
                        (out, StepOutcome::Continue)
                    },
                    Some(exp) => match verify_server_signature(vb64.as_str(), exp) {
                        SigCheck::Match => {
                            let out: Vec<String> = Vec::new();
                            proof {
                                assert(out.deep_view() =~= auth_data_step(old(self)@, data@).out);
                            }
                            (out, StepOutcome::Continue)
                        },
                        SigCheck::Mismatch => {
                            let mut out: Vec<String> = Vec::new();
                            if self.cap_in_progress {
                                out.push(String::from_str("CAP END"));
                            }
                            proof {
                                assert(out.deep_view() =~= auth_data_step(old(self)@, data@).out);
                            }
                            (out, StepOutcome::Failed(NegError::SaslServerSignatureMismatch))
                        },
                        SigCheck::BadEncoding => {
                            let mut out: Vec<String> = Vec::new();
                            if self.cap_in_progress {
                                out.push(String::from_str("CAP END"));
                            }
                            proof {
                                assert(out.deep_view() =~= auth_data_step(old(self)@, data@).out);
                            }
                            (out, StepOutcome::Failed(NegError::SaslProtocol))
                        },
                    },
                }
            },
            None => {
                let r = self.handle_scram_first(algo, challenge.as_str());
                proof {
                    assert(r.0.deep_view() == auth_data_step(old(self)@, data@).out);
                }
                r
            },
        }
    }

    /// End capability negotiation if it is still open, and say so.
    fn end_cap(&mut self) -> (out: Vec<String>)
        ensures
            final(self)@ == (NegView { cap_in_progress: false, ..old(self)@ }),
            out.deep_view() == cap_end_out(old(self)@),
    {
        if self.cap_in_progress {
            self.cap_in_progress = false;
            let mut out: Vec<String> = Vec::new();
            out.push(String::from_str("CAP END"));
            proof {
                assert(out.deep_view() =~= cap_end_out(old(self)@));
            }
            out
        } else {
            let out: Vec<String> = Vec::new();
            proof {
                assert(out.deep_view() =~= cap_end_out(old(self)@));
            }
            out
        }
    }

    /// Feed one received message to the negotiation: the lines to send in
    /// answer, and whether to keep going, stop on welcome, or fail. The
    /// whole behaviour is `step`, with a fresh 18-byte nonce drawn where a
    /// SCRAM exchange opens; its base64 text, the client nonce, is 24
    /// characters.
    pub fn on_message(&mut self, msg: &Message) -> (r: (Vec<String>, StepOutcome))
        requires
            old(self).wf(),
        ensures
            final(self).wf(),
            exists|nb: Seq<u8>|
                nb.len() == 18 && final(self)@ == step(old(self)@, msg@, b64_of(nb)).post
                    && r.0.deep_view() == step(old(self)@, msg@, b64_of(nb)).out && r.1 == step(
                    old(self)@,
                    msg@,
                    b64_of(nb),
                ).res,
            final(self)@.client_nonce != old(self)@.client_nonce ==> final(self)@.client_nonce
                is Some && final(self)@.client_nonce->Some_0.len() == 24,
    {
        let ghost znb = Seq::<u8>::new(18, |k: int| 0u8);
        proof {
            assert(znb.len() == 18);
        }
        let c = msg.command.clone();
        if eq_str(c.as_str(), "CAP") {
            let sub = param_string(msg, 1);
            if eq_str(sub.as_str(), "LS") {
                let out = self.handle_cap_ls(msg);
                (out, StepOutcome::Continue)
            } else if eq_str(sub.as_str(), "ACK") {
                let out = self.handle_cap_ack(msg);
                proof {
                    let nb = choose|nb: Seq<u8>|
                        nb.len() == 18 && final(self)@ == cap_ack_step(
                            old(self)@,
                            msg@,
                            b64_of(nb),
                        ).post && out.deep_view() == cap_ack_step(
                            old(self)@,
                            msg@,
                            b64_of(nb),
                        ).out;
                    assert(nb.len() == 18 && final(self)@ == step(old(self)@, msg@, b64_of(nb)).post
                        && out.deep_view() == step(old(self)@, msg@, b64_of(nb)).out
                        && StepOutcome::Continue == step(old(self)@, msg@, b64_of(nb)).res);
                }
                (out, StepOutcome::Continue)
            } else if eq_str(sub.as_str(), "NAK") {
                let out = self.end_cap();
                (out, StepOutcome::Continue)
            } else {
                (Vec::new(), StepOutcome::Continue)
            }
        } else if eq_str(c.as_str(), "AUTHENTICATE") {
            let p0 = param_string(msg, 0);
            if eq_str(p0.as_str(), "+") {
                let r = self.handle_auth_plus();
                r
            } else {
                let r = self.handle_auth_data(p0.as_str());
                r
            }
        } else if eq_str(c.as_str(), "900") || eq_str(c.as_str(), "903") {
            let out = self.end_cap();
            (out, StepOutcome::Continue)
        } else if eq_str(c.as_str(), "904") {
            let out = self.end_cap();
            (out, StepOutcome::Failed(NegError::SaslRejected(904)))
        } else if eq_str(c.as_str(), "905") {
            let out = self.end_cap();
            (out, StepOutcome::Failed(NegError::SaslRejected(905)))
        } else if eq_str(c.as_str(), "906") {
            let out = self.end_cap();
            (out, StepOutcome::Failed(NegError::SaslRejected(906)))
        } else if eq_str(c.as_str(), "907") {
            let out = self.end_cap();
            (out, StepOutcome::Failed(NegError::SaslRejected(907)))
        } else if eq_str(c.as_str(), "001") {
            (Vec::new(), StepOutcome::Done)
        } else {
            (Vec::new(), StepOutcome::Continue)
        }
    }
}


} // verus!
