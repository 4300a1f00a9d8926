use base64::Engine;
use hexchat_backend::cap_sasl::{
    CapRequest, NegError, Negotiator, SaslMech, SigCheck, StepOutcome, verify_server_signature,
};
use hexchat_backend::proto::parse_line;
use hexchat_backend::scram::{cbind_attr, gs2_header};
use hexchat_backend::session::{Event, ServerState};
use hmac::{Hmac, Mac};
use sha2::{Digest, Sha512};

fn b64(data: &[u8]) -> String {
    base64::engine::general_purpose::STANDARD.encode(data)
}

fn b64d(s: &str) -> Vec<u8> {
    base64::engine::general_purpose::STANDARD.decode(s).unwrap()
}

fn neg(sasl: Option<SaslMech>, binding: Option<Vec<u8>>) -> Negotiator {
    Negotiator::new(
        "me".to_string(),
        "user".to_string(),
        "Real Name".to_string(),
        CapRequest::defaults(sasl.is_some()),
        sasl,
        binding,
    )
}

fn feed(n: &mut Negotiator, line: &str) -> (Vec<String>, StepOutcome) {
    n.on_message(&parse_line(line).unwrap())
}

#[test]
fn start_sends_nick_user_cap_ls() {
    let n = neg(None, None);
    let lines = n.start();
    assert_eq!(
        lines,
        vec![
            "NICK me".to_string(),
            "USER user 0 * :Real Name".to_string(),
            "CAP LS 302".to_string(),
        ]
    );
}

#[test]
fn plaintext_no_sasl_welcome_completes() {
    let mut n = neg(None, None);
    let (out, res) = feed(&mut n, ":srv 001 me :Welcome");
    assert!(out.is_empty());
    assert_eq!(res, StepOutcome::Done);

    let mut st = ServerState::new("net".to_string(), "me".to_string());
    let ev = st.on_message(parse_line(":srv 001 me :Welcome").unwrap());
    match ev {
        Event::Welcome(t) => assert_eq!(t, "Welcome"),
        other => panic!("expected Welcome, got {:?}", other),
    }
}

#[test]
fn ls_requests_overlap_of_wanted_caps() {
    let mut n = neg(
        Some(SaslMech::Plain {
            authzid: None,
            username: "user".to_string(),
            password: "pass".to_string(),
        }),
        None,
    );
    let (out, res) = feed(&mut n, ":srv CAP me LS :sasl away-notify server-time");
    assert_eq!(out, vec!["CAP REQ :server-time sasl".to_string()]);
    assert_eq!(res, StepOutcome::Continue);
}

#[test]
fn ls_without_sasl_offer_ends_cap_and_welcome_still_arrives() {
    let mut n = neg(
        Some(SaslMech::Plain {
            authzid: None,
            username: "user".to_string(),
            password: "pass".to_string(),
        }),
        None,
    );
    let (out, res) = feed(&mut n, ":srv CAP me LS :away-notify");
    assert_eq!(out, vec!["CAP END".to_string()]);
    assert_eq!(res, StepOutcome::Continue);
    let (out, res) = feed(&mut n, ":srv 001 me :Welcome");
    assert!(out.is_empty());
    assert_eq!(res, StepOutcome::Done);
}

#[test]
fn ls_continuation_defers_request() {
    let mut n = neg(None, None);
    let (out, res) = feed(&mut n, ":srv CAP me LS * :server-time");
    assert!(out.is_empty());
    assert_eq!(res, StepOutcome::Continue);
    let (out, _) = feed(&mut n, ":srv CAP me LS :message-tags");
    assert_eq!(out, vec!["CAP REQ :server-time message-tags".to_string()]);
}

#[test]
fn nak_ends_cap() {
    let mut n = neg(None, None);
    let (out, res) = feed(&mut n, ":srv CAP me NAK :server-time");
    assert_eq!(out, vec!["CAP END".to_string()]);
    assert_eq!(res, StepOutcome::Continue);
    let (out, _) = feed(&mut n, ":srv CAP me NAK :server-time");
    assert!(out.is_empty(), "CAP END is sent only once");
}

#[test]
fn ack_with_plain_opens_authentication() {
    let mut n = neg(
        Some(SaslMech::Plain {
            authzid: None,
            username: "user".to_string(),
            password: "pass".to_string(),
        }),
        None,
    );
    let (out, _) = feed(&mut n, ":srv CAP me ACK :sasl");
    assert_eq!(out, vec!["AUTHENTICATE PLAIN".to_string()]);
}

#[test]
fn plain_initial_response_is_nul_separated_base64() {
    let mut n = neg(
        Some(SaslMech::Plain {
            authzid: None,
            username: "user".to_string(),
            password: "pass".to_string(),
        }),
        None,
    );
    let (out, res) = feed(&mut n, "AUTHENTICATE +");
    assert_eq!(out, vec![format!("AUTHENTICATE {}", b64(b"\x00user\x00pass"))]);
    assert_eq!(res, StepOutcome::Continue);
}

#[test]
fn external_initial_response() {
    let mut n = neg(Some(SaslMech::External { authzid: None }), None);
    let (out, _) = feed(&mut n, "AUTHENTICATE +");
    assert_eq!(out, vec!["AUTHENTICATE +".to_string()]);

    let mut n = neg(Some(SaslMech::External { authzid: Some("adm".to_string()) }), None);
    let (out, _) = feed(&mut n, "AUTHENTICATE +");
    assert_eq!(out, vec![format!("AUTHENTICATE {}", b64(b"adm"))]);
}

#[test]
fn ack_with_scram_sends_mechanism_name() {
    let mut n = neg(
        Some(SaslMech::ScramSha256 {
            authzid: None,
            username: "user".to_string(),
            password: "pencil".to_string(),
        }),
        None,
    );
    let (out, _) = feed(&mut n, ":srv CAP me ACK :sasl");
    assert_eq!(out, vec!["AUTHENTICATE SCRAM-SHA-256".to_string()]);
    let nonce = n.client_nonce.clone().unwrap();
    assert_eq!(nonce.len(), 24, "base64 of 18 fresh bytes");
    let cfb = n.client_first_bare.clone().unwrap();
    assert!(cfb.starts_with("n=user,r="));
}

#[test]
fn scram_client_first_uses_gs2_header() {
    let mut n = neg(
        Some(SaslMech::ScramSha256 {
            authzid: None,
            username: "user".to_string(),
            password: "pencil".to_string(),
        }),
        None,
    );
    n.client_nonce = Some("rOprNGfwEbeRWgbNEkqO".to_string());
    n.client_first_bare = Some("n=user,r=rOprNGfwEbeRWgbNEkqO".to_string());
    let (out, _) = feed(&mut n, "AUTHENTICATE +");
    assert_eq!(out, vec![format!("AUTHENTICATE {}", b64(b"n,,n=user,r=rOprNGfwEbeRWgbNEkqO"))]);
}

const RFC_SERVER_FIRST: &str =
    "r=rOprNGfwEbeRWgbNEkqO%hvYDpWUa2RaTCAfuxFIlj)hNlF$k0,s=W22ZaJ0SNY7soEsUEjb6gQ==,i=4096";
const RFC_CLIENT_FINAL: &str =
    "c=biws,r=rOprNGfwEbeRWgbNEkqO%hvYDpWUa2RaTCAfuxFIlj)hNlF$k0,p=dHzbZapWIk4jUhN+Ute9ytag9zjfMHgsqmmiz7AndVQ=";
const RFC_SERVER_SIG_B64: &str = "6rriTRBi23WpRR/wtup+mMhUZUn/dB5nLTJRsjl95G4=";

fn rfc_negotiator() -> Negotiator {
    let mut n = neg(
        Some(SaslMech::ScramSha256 {
            authzid: None,
            username: "user".to_string(),
            password: "pencil".to_string(),
        }),
        None,
    );
    n.client_nonce = Some("rOprNGfwEbeRWgbNEkqO".to_string());
    n.client_first_bare = Some("n=user,r=rOprNGfwEbeRWgbNEkqO".to_string());
    n
}

#[test]
fn scram_sha256_client_proof_matches_published_vector() {
    let mut n = rfc_negotiator();
    let line = format!("AUTHENTICATE {}", b64(RFC_SERVER_FIRST.as_bytes()));
    let (out, res) = feed(&mut n, &line);
    assert_eq!(out, vec![format!("AUTHENTICATE {}", b64(RFC_CLIENT_FINAL.as_bytes()))]);
    assert_eq!(res, StepOutcome::Continue);
    assert_eq!(n.expected_server_sig.clone().unwrap(), b64d(RFC_SERVER_SIG_B64));
}

#[test]
fn server_signature_accepted_when_expected() {
    let mut n = rfc_negotiator();
    let first = format!("AUTHENTICATE {}", b64(RFC_SERVER_FIRST.as_bytes()));
    feed(&mut n, &first);
    let fin = format!("AUTHENTICATE {}", b64(format!("v={}", RFC_SERVER_SIG_B64).as_bytes()));
    let (out, res) = feed(&mut n, &fin);
    assert!(out.is_empty());
    assert_eq!(res, StepOutcome::Continue);
}

#[test]
fn server_signature_flipped_bit_is_fatal_and_sends_cap_end() {
    let mut n = rfc_negotiator();
    let first = format!("AUTHENTICATE {}", b64(RFC_SERVER_FIRST.as_bytes()));
    feed(&mut n, &first);
    let mut sig = b64d(RFC_SERVER_SIG_B64);
    sig[0] ^= 0x01;
    let fin = format!("AUTHENTICATE {}", b64(format!("v={}", b64(&sig)).as_bytes()));
    let (out, res) = feed(&mut n, &fin);
    assert_eq!(res, StepOutcome::Failed(NegError::SaslServerSignatureMismatch));
    assert_eq!(out, vec!["CAP END".to_string()]);
}

#[test]
fn server_signature_invalid_base64_is_protocol_error() {
    let mut n = rfc_negotiator();
    let first = format!("AUTHENTICATE {}", b64(RFC_SERVER_FIRST.as_bytes()));
    feed(&mut n, &first);
    let fin = format!("AUTHENTICATE {}", b64(b"v=!!!notbase64!!!"));
    let (out, res) = feed(&mut n, &fin);
    assert_eq!(res, StepOutcome::Failed(NegError::SaslProtocol));
    assert_eq!(out, vec!["CAP END".to_string()]);
}

#[test]
fn scram_rejects_nonce_that_does_not_extend_ours() {
    let mut n = rfc_negotiator();
    let challenge = "r=completelyDifferent,s=W22ZaJ0SNY7soEsUEjb6gQ==,i=4096";
    let line = format!("AUTHENTICATE {}", b64(challenge.as_bytes()));
    let (_, res) = feed(&mut n, &line);
    assert_eq!(res, StepOutcome::Failed(NegError::SaslProtocol));
}

#[test]
fn scram_missing_salt_is_protocol_error() {
    let mut n = rfc_negotiator();
    let challenge = "r=rOprNGfwEbeRWgbNEkqOrest,i=4096";
    let line = format!("AUTHENTICATE {}", b64(challenge.as_bytes()));
    let (_, res) = feed(&mut n, &line);
    assert_eq!(res, StepOutcome::Failed(NegError::SaslProtocol));
}

#[test]
fn scram_sha512_with_channel_binding_matches_recomputation() {
    let binding: Vec<u8> = (0u8..32).collect();
    let mut n = neg(
        Some(SaslMech::ScramSha512 {
            authzid: None,
            username: "user".to_string(),
            password: "pencil".to_string(),
        }),
        Some(binding.clone()),
    );
    let cnonce = "clientNONCE";
    let snonce = "clientNONCEserverNONCE";
    n.client_nonce = Some(cnonce.to_string());
    n.client_first_bare = Some(format!("n=user,r={}", cnonce));
    let salt_b64 = b64(b"saltysalt");
    let server_first = format!("r={},s={},i=4096", snonce, salt_b64);
    let line = format!("AUTHENTICATE {}", b64(server_first.as_bytes()));
    let (out, res) = feed(&mut n, &line);
    assert_eq!(res, StepOutcome::Continue);

    // Recompute the expectation with the crypto crates themselves.
    let mut salted = [0u8; 64];
    pbkdf2::pbkdf2_hmac::<Sha512>(b"pencil", b"saltysalt", 4096, &mut salted);
    let mut ck = <Hmac<Sha512> as Mac>::new_from_slice(&salted).unwrap();
    ck.update(b"Client Key");
    let client_key = ck.finalize().into_bytes();
    let stored_key = Sha512::digest(&client_key);
    let mut cbind_input = b"p=tls-server-end-point,,".to_vec();
    cbind_input.extend_from_slice(&binding);
    let cfwp = format!("c={},r={}", b64(&cbind_input), snonce);
    let auth_message = format!("n=user,r={},{},{}", cnonce, server_first, cfwp);
    let mut sig = <Hmac<Sha512> as Mac>::new_from_slice(&stored_key).unwrap();
    sig.update(auth_message.as_bytes());
    let client_sig = sig.finalize().into_bytes();
    let proof: Vec<u8> = client_key.iter().zip(client_sig.iter()).map(|(a, b)| a ^ b).collect();
    let expected_final = format!("{},p={}", cfwp, b64(&proof));
    assert_eq!(out, vec![format!("AUTHENTICATE {}", b64(expected_final.as_bytes()))]);

    let mut skh = <Hmac<Sha512> as Mac>::new_from_slice(&salted).unwrap();
    skh.update(b"Server Key");
    let server_key = skh.finalize().into_bytes();
    let mut ssm = <Hmac<Sha512> as Mac>::new_from_slice(&server_key).unwrap();
    ssm.update(auth_message.as_bytes());
    let expected_server_sig = ssm.finalize().into_bytes().to_vec();
    assert_eq!(n.expected_server_sig.clone().unwrap(), expected_server_sig);
}

#[test]
fn gs2_header_depends_on_binding() {
    assert_eq!(gs2_header(false), "n,,");
    assert_eq!(gs2_header(true), "p=tls-server-end-point,,");
}

#[test]
fn cbind_attr_decodes_to_gs2_without_binding() {
    let c = cbind_attr(&None);
    assert_eq!(c, "biws");
    assert_eq!(b64d(&c), b"n,,");
}

#[test]
fn cbind_attr_decodes_to_header_and_hash_with_binding() {
    let hash: Vec<u8> = (100u8..132).collect();
    let c = cbind_attr(&Some(hash.clone()));
    let mut expected = b"p=tls-server-end-point,,".to_vec();
    expected.extend_from_slice(&hash);
    assert_eq!(b64d(&c), expected);
}

#[test]
fn sasl_rejection_numerics_fail_negotiation() {
    for (code, num) in [(904u32, "904"), (905, "905"), (906, "906"), (907, "907")] {
        let mut n = neg(None, None);
        let (out, res) = feed(&mut n, &format!(":srv {} me :SASL failed", num));
        assert_eq!(out, vec!["CAP END".to_string()]);
        assert_eq!(res, StepOutcome::Failed(NegError::SaslRejected(code)));
    }
}

#[test]
fn sasl_success_numerics_end_cap_and_continue() {
    for num in ["900", "903"] {
        let mut n = neg(None, None);
        let (out, res) = feed(&mut n, &format!(":srv {} me :done", num));
        assert_eq!(out, vec!["CAP END".to_string()]);
        assert_eq!(res, StepOutcome::Continue);
    }
}

#[test]
fn verify_server_signature_cases() {
    let expected = vec![1u8, 2, 3, 4];
    assert_eq!(verify_server_signature(&b64(&expected), &expected), SigCheck::Match);
    let mut wrong = expected.clone();
    wrong[2] ^= 0x80;
    assert_eq!(verify_server_signature(&b64(&wrong), &expected), SigCheck::Mismatch);
    assert_eq!(verify_server_signature("***", &expected), SigCheck::BadEncoding);
}

#[test]
fn full_plain_handshake_sequence() {
    let mut n = neg(
        Some(SaslMech::Plain {
            authzid: None,
            username: "user".to_string(),
            password: "pass".to_string(),
        }),
        None,
    );
    let (out, _) = feed(&mut n, ":srv CAP me LS :sasl");
    assert_eq!(out, vec!["CAP REQ :sasl".to_string()]);
    let (out, _) = feed(&mut n, ":srv CAP me ACK :sasl");
    assert_eq!(out, vec!["AUTHENTICATE PLAIN".to_string()]);
    let (out, _) = feed(&mut n, "AUTHENTICATE +");
    assert_eq!(out, vec![format!("AUTHENTICATE {}", b64(b"\x00user\x00pass"))]);
    let (out, res) = feed(&mut n, ":srv 903 me :SASL authentication successful");
    assert_eq!(out, vec!["CAP END".to_string()]);
    assert_eq!(res, StepOutcome::Continue);
    let (out, res) = feed(&mut n, ":srv 001 me :Welcome");
    assert!(out.is_empty());
    assert_eq!(res, StepOutcome::Done);
}

#[test]
fn scram_challenge_before_ack_is_protocol_error() {
    let mut n = neg(
        Some(SaslMech::ScramSha256 {
            authzid: None,
            username: "user".to_string(),
            password: "pencil".to_string(),
        }),
        None,
    );
    let line = format!("AUTHENTICATE {}", b64(RFC_SERVER_FIRST.as_bytes()));
    let (out, res) = feed(&mut n, &line);
    assert!(out.is_empty());
    assert_eq!(res, StepOutcome::Failed(NegError::SaslProtocol));
}

#[test]
fn scram_prompt_without_client_first_bare_is_protocol_error() {
    let mut n = neg(
        Some(SaslMech::ScramSha256 {
            authzid: None,
            username: "user".to_string(),
            password: "pencil".to_string(),
        }),
        None,
    );
    let (out, res) = feed(&mut n, "AUTHENTICATE +");
    assert!(out.is_empty());
    assert_eq!(res, StepOutcome::Failed(NegError::SaslProtocol));
}

#[test]
fn plain_mechanism_ignores_challenge_data() {
    let mut n = neg(
        Some(SaslMech::Plain {
            authzid: None,
            username: "user".to_string(),
            password: "pass".to_string(),
        }),
        None,
    );
    let (out, res) = feed(&mut n, &format!("AUTHENTICATE {}", b64(b"whatever")));
    assert!(out.is_empty());
    assert_eq!(res, StepOutcome::Continue);
}

#[test]
fn scram_bad_iteration_count_is_protocol_error() {
    let mut n = rfc_negotiator();
    let challenge = "r=rOprNGfwEbeRWgbNEkqOx,s=c2FsdA==,i=lots";
    let (_, res) = feed(&mut n, &format!("AUTHENTICATE {}", b64(challenge.as_bytes())));
    assert_eq!(res, StepOutcome::Failed(NegError::SaslProtocol));
}

#[test]
fn signature_without_pending_expectation_is_ignored() {
    let mut n = rfc_negotiator();
    let fin = format!("AUTHENTICATE {}", b64(format!("v={}", RFC_SERVER_SIG_B64).as_bytes()));
    let (out, res) = feed(&mut n, &fin);
    assert!(out.is_empty());
    assert_eq!(res, StepOutcome::Continue);
}

#[test]
fn unrelated_messages_during_negotiation_are_ignored() {
    let mut n = neg(None, None);
    let (out, res) = feed(&mut n, "PING :token");
    assert!(out.is_empty());
    assert_eq!(res, StepOutcome::Continue);
    let (out, res) = feed(&mut n, ":srv CAP me NEW :echo-message");
    assert!(out.is_empty());
    assert_eq!(res, StepOutcome::Continue);
}
