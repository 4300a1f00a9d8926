use hexchat_backend::config::Settings;
use hexchat_backend::proto::ParseError;
use hexchat_backend::scram::{parse_scram_challenge, saslname};
use hexchat_backend::strutil::{parse_dec_u16, parse_dec_u32, parse_dec_u64, split_ws};
use hexchat_backend::text::strip_colors;
use hexchat_backend::transport::{decode_line, take_line, tls_server_end_point_of, with_crlf};
use sha2::{Digest, Sha256};

#[test]
fn saslname_escapes_equals_and_comma() {
    assert_eq!(saslname("plain"), "plain");
    assert_eq!(saslname("a=b,c"), "a=3Db=2Cc");
    assert_eq!(saslname(",,"), "=2C=2C");
    assert_eq!(saslname(""), "");
}

#[test]
fn scram_challenge_parses_fields_in_any_order() {
    let p = parse_scram_challenge("i=4096,r=abcdef,s=c2FsdA==").unwrap();
    assert_eq!(p.iter, 4096);
    assert_eq!(p.nonce, "abcdef");
    assert_eq!(p.salt, b"salt".to_vec());
}

#[test]
fn scram_challenge_missing_pieces_fail() {
    assert!(parse_scram_challenge("r=abc,i=1").is_none());
    assert!(parse_scram_challenge("r=abc,s=c2FsdA==").is_none());
    assert!(parse_scram_challenge("s=c2FsdA==,i=1").is_none());
    assert!(parse_scram_challenge("r=abc,s=!!!,i=1").is_none());
    assert!(parse_scram_challenge("r=abc,s=c2FsdA==,i=many").is_none());
}

#[test]
fn decimal_parsing_bounds() {
    assert_eq!(parse_dec_u32("0"), Some(0));
    assert_eq!(parse_dec_u32("4294967295"), Some(u32::MAX));
    assert_eq!(parse_dec_u32("4294967296"), None);
    assert_eq!(parse_dec_u16("65535"), Some(u16::MAX));
    assert_eq!(parse_dec_u16("65536"), None);
    assert_eq!(parse_dec_u64("18446744073709551615"), Some(u64::MAX));
    assert_eq!(parse_dec_u64("18446744073709551616"), None);
    assert_eq!(parse_dec_u64(""), None);
    assert_eq!(parse_dec_u64("12a"), None);
}

#[test]
fn split_ws_collapses_runs() {
    assert_eq!(split_ws("  a  bb\tc "), vec!["a".to_string(), "bb".to_string(), "c".to_string()]);
    assert_eq!(split_ws(""), Vec::<String>::new());
    assert_eq!(split_ws("   "), Vec::<String>::new());
}

#[test]
fn settings_default_values() {
    let s = Settings::default();
    assert_eq!(s.server, "irc.libera.chat");
    assert_eq!(s.port, 6697);
    assert!(s.use_tls);
    assert_eq!(s.nick, "HexRs");
    assert_eq!(s.user, "hexrs");
    assert_eq!(s.realname, "HexChat RS");
    assert_eq!(s.autojoin, vec!["#rust".to_string()]);
}

#[test]
fn strip_colors_removes_formatting() {
    assert_eq!(strip_colors("\u{2}bold\u{2} plain"), "bold plain");
    assert_eq!(strip_colors("\u{3}12,04colored\u{3} x"), "colored x");
    assert_eq!(strip_colors("\u{3}4hi"), "hi");
    assert_eq!(strip_colors("a\u{f}b\u{16}c\u{1d}d\u{1f}e"), "abcde");
    assert_eq!(strip_colors("no codes"), "no codes");
}

#[test]
fn take_line_splits_buffer_at_crlf() {
    let mut buf = b"PING :x\r\nPART #c\r\nrest".to_vec();
    let line = take_line(&mut buf).unwrap();
    assert_eq!(line, b"PING :x".to_vec());
    assert_eq!(buf, b"PART #c\r\nrest".to_vec());
    let line = take_line(&mut buf).unwrap();
    assert_eq!(line, b"PART #c".to_vec());
    assert_eq!(buf, b"rest".to_vec());
    assert!(take_line(&mut buf).is_none());
    assert_eq!(buf, b"rest".to_vec());
}

#[test]
fn take_line_accepts_bare_newline() {
    let mut buf = b"PING :x\nmore".to_vec();
    let line = take_line(&mut buf).unwrap();
    assert_eq!(line, b"PING :x".to_vec());
    assert_eq!(buf, b"more".to_vec());
}

#[test]
fn decode_line_parses_and_rejects() {
    let m = decode_line(b"PRIVMSG #c :hi".to_vec()).unwrap();
    assert_eq!(m.command, "PRIVMSG");
    assert_eq!(decode_line(vec![0xff, 0xfe]).unwrap_err(), ParseError::MalformedMessage);
    assert_eq!(decode_line(Vec::new()).unwrap_err(), ParseError::MalformedMessage);
}

#[test]
fn with_crlf_appends_only_when_absent() {
    assert_eq!(with_crlf("NICK me"), "NICK me\r\n");
    assert_eq!(with_crlf("NICK me\r\n"), "NICK me\r\n");
    assert_eq!(with_crlf(""), "\r\n");
    assert_eq!(with_crlf("half\r"), "half\r\r\n");
}

#[test]
fn channel_binding_is_sha256_of_der() {
    let der = b"not really a certificate";
    let got = tls_server_end_point_of(der);
    let expected = Sha256::digest(der).to_vec();
    assert_eq!(got, expected);
    assert_eq!(got.len(), 32);
}
