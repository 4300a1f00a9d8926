use hexchat_backend::proto::parse_line;
use hexchat_backend::session::{ChannelId, Event, ServerState};

fn fresh() -> ServerState {
    ServerState::new("net".to_string(), "me".to_string())
}

#[test]
fn welcome_event_from_001() {
    let mut st = fresh();
    let ev = st.on_message(parse_line(":srv 001 me :Welcome").unwrap());
    match ev {
        Event::Welcome(t) => assert_eq!(t, "Welcome"),
        other => panic!("expected Welcome, got {:?}", other),
    }
}

#[test]
fn join_then_join_then_part_leaves_one_user() {
    let mut st = fresh();
    st.on_message(parse_line(":a!u@h JOIN #r").unwrap());
    st.on_message(parse_line(":b!u@h JOIN #r").unwrap());
    st.on_message(parse_line(":a!u@h PART #r").unwrap());
    let ch = st.channel(&ChannelId("#r".to_string())).expect("channel exists");
    assert_eq!(ch.users, vec!["b".to_string()]);
}

#[test]
fn join_emits_event_and_creates_channel() {
    let mut st = fresh();
    let ev = st.on_message(parse_line(":nick!u@h JOIN #chan").unwrap());
    match ev {
        Event::Join { nick, channel } => {
            assert_eq!(nick, "nick");
            assert_eq!(channel, "#chan");
        },
        other => panic!("expected Join, got {:?}", other),
    }
    let ch = st.channel(&ChannelId("#chan".to_string())).unwrap();
    assert_eq!(ch.users, vec!["nick".to_string()]);
}

#[test]
fn duplicate_join_keeps_one_entry() {
    let mut st = fresh();
    st.on_message(parse_line(":a!u@h JOIN #r").unwrap());
    st.on_message(parse_line(":a!u@h JOIN #r").unwrap());
    let ch = st.channel(&ChannelId("#r".to_string())).unwrap();
    assert_eq!(ch.users, vec!["a".to_string()]);
}

#[test]
fn part_of_unknown_channel_changes_nothing() {
    let mut st = fresh();
    let ev = st.on_message(parse_line(":a!u@h PART #nowhere").unwrap());
    match ev {
        Event::Part { nick, channel } => {
            assert_eq!(nick, "a");
            assert_eq!(channel, "#nowhere");
        },
        other => panic!("expected Part, got {:?}", other),
    }
    assert!(st.channel(&ChannelId("#nowhere".to_string())).is_none());
}

#[test]
fn privmsg_and_notice_events() {
    let mut st = fresh();
    let ev = st.on_message(parse_line(":a!u@h PRIVMSG #c :hi there").unwrap());
    match ev {
        Event::PrivMsg { from, target, text } => {
            assert_eq!(from, "a");
            assert_eq!(target, "#c");
            assert_eq!(text, "hi there");
        },
        other => panic!("expected PrivMsg, got {:?}", other),
    }
    let ev = st.on_message(parse_line(":srv NOTICE me :warned").unwrap());
    match ev {
        Event::Notice { from, target, text } => {
            assert_eq!(from, "srv");
            assert_eq!(target, "me");
            assert_eq!(text, "warned");
        },
        other => panic!("expected Notice, got {:?}", other),
    }
}

#[test]
fn topic_event_from_332() {
    let mut st = fresh();
    let ev = st.on_message(parse_line(":srv 332 me #c :the topic").unwrap());
    match ev {
        Event::Topic { channel, text } => {
            assert_eq!(channel, "#c");
            assert_eq!(text, "the topic");
        },
        other => panic!("expected Topic, got {:?}", other),
    }
}

#[test]
fn unknown_preserves_message() {
    let mut st = fresh();
    let msg = parse_line(":srv 005 me CHANTYPES=# :are supported").unwrap();
    let ev = st.on_message(msg.clone());
    match ev {
        Event::Unknown(m) => assert_eq!(m, msg),
        other => panic!("expected Unknown, got {:?}", other),
    }
}

#[test]
fn prefix_without_bang_is_whole_nick() {
    let mut st = fresh();
    let ev = st.on_message(parse_line(":server.name JOIN #c").unwrap());
    match ev {
        Event::Join { nick, .. } => assert_eq!(nick, "server.name"),
        other => panic!("expected Join, got {:?}", other),
    }
}
