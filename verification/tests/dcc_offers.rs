use hexchat_backend::dcc::{parse_dcc, DccError, DccKind};

#[test]
fn send_offer_with_size() {
    let o = parse_dcc("DCC SEND file.txt 3232235777 5000 1234").unwrap();
    assert_eq!(o.kind, DccKind::Send);
    assert_eq!(o.filename, Some("file.txt".to_string()));
    assert_eq!(o.ip, 3232235777);
    assert_eq!(o.port, 5000);
    assert_eq!(o.size, Some(1234));
}

#[test]
fn chat_offer_without_size() {
    let o = parse_dcc("DCC CHAT 2130706433 4000").unwrap();
    assert_eq!(o.kind, DccKind::Chat);
    assert_eq!(o.filename, None);
    assert_eq!(o.ip, 2130706433);
    assert_eq!(o.port, 4000);
    assert_eq!(o.size, None);
}

#[test]
fn unparseable_size_reads_as_none() {
    let o = parse_dcc("DCC SEND f 1 2 huge").unwrap();
    assert_eq!(o.size, None);
}

#[test]
fn error_empty() {
    assert_eq!(parse_dcc("").unwrap_err(), DccError::Empty);
    assert_eq!(parse_dcc("   ").unwrap_err(), DccError::Empty);
}

#[test]
fn error_not_dcc() {
    assert_eq!(parse_dcc("VERSION 1").unwrap_err(), DccError::NotDcc);
}

#[test]
fn error_missing_kind() {
    assert_eq!(parse_dcc("DCC").unwrap_err(), DccError::MissingKind);
}

#[test]
fn error_unknown_kind() {
    assert_eq!(parse_dcc("DCC RESUME f 1 2").unwrap_err(), DccError::UnknownKind);
}

#[test]
fn error_missing_filename() {
    assert_eq!(parse_dcc("DCC SEND").unwrap_err(), DccError::MissingFilename);
}

#[test]
fn error_missing_ip_and_port() {
    assert_eq!(parse_dcc("DCC SEND f").unwrap_err(), DccError::MissingIp);
    assert_eq!(parse_dcc("DCC CHAT").unwrap_err(), DccError::MissingIp);
    assert_eq!(parse_dcc("DCC SEND f 1").unwrap_err(), DccError::MissingPort);
}

#[test]
fn error_bad_numbers() {
    assert_eq!(parse_dcc("DCC SEND f notanip 1").unwrap_err(), DccError::BadNumber);
    assert_eq!(parse_dcc("DCC SEND f 1 70000").unwrap_err(), DccError::BadNumber);
    assert_eq!(parse_dcc("DCC SEND f 4294967296 1").unwrap_err(), DccError::BadNumber);
}

#[test]
fn boundary_values_accepted() {
    let o = parse_dcc("DCC CHAT 4294967295 65535").unwrap();
    assert_eq!(o.ip, u32::MAX);
    assert_eq!(o.port, u16::MAX);
}
