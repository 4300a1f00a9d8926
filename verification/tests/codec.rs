use hexchat_backend::proto::{parse_line, Message, ParseError, Prefix, Tags};

#[test]
fn notice_with_prefix_and_trailing() {
    let m = parse_line(":irc.example NOTICE * :hi there").unwrap();
    assert_eq!(m.prefix, Some(Prefix { raw: "irc.example".to_string() }));
    assert_eq!(m.command, "NOTICE");
    assert_eq!(m.params, vec!["*".to_string(), "hi there".to_string()]);
    assert_eq!(m.tags, None);
}

#[test]
fn tagged_privmsg() {
    let m = parse_line("@id=1;tag2 :nick!u@h PRIVMSG #c :hello world").unwrap();
    assert_eq!(
        m.tags,
        Some(Tags(vec![
            ("id".to_string(), Some("1".to_string())),
            ("tag2".to_string(), None),
        ]))
    );
    assert_eq!(m.prefix, Some(Prefix { raw: "nick!u@h".to_string() }));
    assert_eq!(m.command, "PRIVMSG");
    assert_eq!(m.params, vec!["#c".to_string(), "hello world".to_string()]);
}

#[test]
fn empty_trailing_parameter() {
    let m = parse_line("PING :").unwrap();
    assert_eq!(m.command, "PING");
    assert_eq!(m.params, vec!["".to_string()]);
}

#[test]
fn missing_command_is_malformed() {
    assert_eq!(parse_line("").unwrap_err(), ParseError::MalformedMessage);
    assert_eq!(parse_line("   ").unwrap_err(), ParseError::MalformedMessage);
    assert_eq!(parse_line("\r\n").unwrap_err(), ParseError::MalformedMessage);
}

#[test]
fn whitespace_runs_compress() {
    let m = parse_line("PRIVMSG   #c    :hi").unwrap();
    assert_eq!(m.params, vec!["#c".to_string(), "hi".to_string()]);
}

#[test]
fn whitespace_runs_compress_before_command() {
    let m = parse_line(":p  C x").unwrap();
    assert_eq!(m.prefix, Some(Prefix { raw: "p".to_string() }));
    assert_eq!(m.command, "C");
    assert_eq!(m.params, vec!["x".to_string()]);

    let m = parse_line("@t   :p   C x").unwrap();
    assert_eq!(m.tags, Some(Tags(vec![("t".to_string(), None)])));
    assert_eq!(m.prefix, Some(Prefix { raw: "p".to_string() }));
    assert_eq!(m.command, "C");
    assert_eq!(m.params, vec!["x".to_string()]);
}

#[test]
fn serialize_trailing_colon_rules() {
    let m = Message {
        tags: None,
        prefix: None,
        command: "PRIVMSG".to_string(),
        params: vec!["#c".to_string(), "hello world".to_string()],
    };
    assert_eq!(m.to_line(), "PRIVMSG #c :hello world\r\n");

    let bare = Message {
        tags: None,
        prefix: None,
        command: "JOIN".to_string(),
        params: vec!["#c".to_string()],
    };
    assert_eq!(bare.to_line(), "JOIN #c\r\n");

    let empty_last = Message {
        tags: None,
        prefix: None,
        command: "PING".to_string(),
        params: vec!["".to_string()],
    };
    assert_eq!(empty_last.to_line(), "PING :\r\n");

    let colon_initial_last = Message {
        tags: None,
        prefix: None,
        command: "CMD".to_string(),
        params: vec![":hi".to_string()],
    };
    assert_eq!(colon_initial_last.to_line(), "CMD ::hi\r\n");
}

#[test]
fn colon_initial_final_param_round_trips() {
    let m = parse_line("CMD ::hi").unwrap();
    assert_eq!(m.params, vec![":hi".to_string()]);
    let again = parse_line(&m.to_line()).unwrap();
    assert_eq!(again, m);
}

#[test]
fn round_trip_preserves_message() {
    let lines = [
        ":irc.example NOTICE * :hi there",
        "@id=1;tag2 :nick!u@h PRIVMSG #c :hello world",
        "PING :",
        ":nick!u@h JOIN #chan",
        "@a=;b :s 005 x y :z z",
    ];
    for line in lines {
        let m = parse_line(line).unwrap();
        let again = parse_line(&m.to_line()).unwrap();
        assert_eq!(m, again);
    }
}

#[test]
fn tag_order_and_key_only_tags_round_trip() {
    let m = Message {
        tags: Some(Tags(vec![
            ("zz".to_string(), None),
            ("aa".to_string(), Some("1".to_string())),
            ("mm".to_string(), Some("".to_string())),
        ])),
        prefix: None,
        command: "TAGMSG".to_string(),
        params: vec!["#c".to_string()],
    };
    let line = m.to_line();
    assert_eq!(line, "@zz;aa=1;mm= TAGMSG #c\r\n");
    assert!(!line.starts_with("@zz="));
    let back = parse_line(&line).unwrap();
    assert_eq!(back, m);
}

#[test]
fn serialized_line_ends_with_crlf() {
    let m = parse_line("PONG x").unwrap();
    let line = m.to_line();
    assert!(line.ends_with("\r\n"));
    assert_eq!(line, "PONG x\r\n");
}

#[test]
fn empty_tag_blob_yields_one_empty_key() {
    let m = parse_line("@ CMD x").unwrap();
    assert_eq!(m.tags, Some(Tags(vec![("".to_string(), None)])));
    assert_eq!(m.command, "CMD");
}

#[test]
fn empty_prefix_token_parses() {
    let m = parse_line(": CMD x").unwrap();
    assert_eq!(m.prefix, Some(Prefix { raw: "".to_string() }));
    assert_eq!(m.command, "CMD");
    assert_eq!(m.params, vec!["x".to_string()]);
}

#[test]
fn tag_value_may_contain_equals() {
    let m = parse_line("@k=a=b CMD").unwrap();
    assert_eq!(m.tags, Some(Tags(vec![("k".to_string(), Some("a=b".to_string()))])));
}
