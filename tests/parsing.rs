use tomsg_rs::reply::parse;
use tomsg_rs::{InternalReply, PushMessage, Reply};

fn normal(line: &str) -> (String, Reply) {
    match parse(line) {
        Ok((tag, InternalReply::Normal(r))) => (tag.into_string(), r),
        other => panic!("unexpected parse of {:?}: {:?}", line, other),
    }
}

#[test]
fn parse_ok_reply() {
    let (tag, r) = normal("0 ok");
    assert_eq!(tag, "0");
    assert!(r.ok().is_some());
}

#[test]
fn parse_pong_reply() {
    let (tag, r) = normal("12 pong");
    assert_eq!(tag, "12");
    assert!(r.pong().is_some());
}

#[test]
fn parse_number_reply() {
    let (_, r) = normal("3 number -42");
    assert_eq!(r.number(), Some(-42));
}

#[test]
fn parse_error_reply_keeps_spaces() {
    let (_, r) = normal("3 error not  logged in");
    assert_eq!(r.error().unwrap().as_str(), "not  logged in");
}

#[test]
fn parse_error_reply_empty_text() {
    let (_, r) = normal("3 error");
    assert_eq!(r.error().unwrap().as_str(), "");
}

#[test]
fn parse_name_reply() {
    let (_, r) = normal("3 name room_1");
    assert_eq!(r.name().unwrap().as_str(), "room_1");
}

#[test]
fn parse_list_reply() {
    let (_, r) = normal("3 list 2 alice bob");
    let names: Vec<String> = r.list().unwrap().into_iter().map(|w| w.into_string()).collect();
    assert_eq!(names, vec!["alice".to_string(), "bob".to_string()]);
}

#[test]
fn parse_empty_list_reply() {
    let (_, r) = normal("3 list 0");
    assert!(r.list().unwrap().is_empty());
}

#[test]
fn parse_message_reply() {
    let (_, r) = normal("5 message r u 1700000000000000 10 -1 hello world");
    let m = r.message().unwrap();
    assert_eq!(m.id.to_i64(), 10);
    assert!(m.reply_on.is_none());
    assert_eq!(m.roomname.as_str(), "r");
    assert_eq!(m.username.as_str(), "u");
    assert_eq!(m.timestamp, 1700000000000000);
    assert_eq!(m.message.as_str(), "hello world");
}

#[test]
fn parse_history_fragments() {
    match parse("0 history 2") {
        Ok((tag, InternalReply::HistoryInit(n))) => {
            assert_eq!(tag.as_str(), "0");
            assert_eq!(n, 2);
        }
        other => panic!("unexpected: {:?}", other),
    }
    match parse("0 history_message 1 r u 1700000000000001 11 10 world") {
        Ok((_, InternalReply::HistoryMessage(i, m))) => {
            assert_eq!(i, 1);
            assert_eq!(m.id.to_i64(), 11);
            assert_eq!(m.reply_on.unwrap().to_i64(), 10);
            assert_eq!(m.message.as_str(), "world");
        }
        other => panic!("unexpected: {:?}", other),
    }
}

#[test]
fn parse_rejects_bad_lines() {
    assert!(parse("0").is_err());
    assert!(parse("0 frobnicate").is_err());
    assert!(parse("0 number twelve").is_err());
    assert!(parse("0 number 9223372036854775808").is_err());
    assert!(parse("0 message r u 17 -5 -1 hi").is_err());
    assert!(parse("0 message r u 17 5 -2 hi").is_err());
    assert!(parse("0 message r u -17 5 -1 hi").is_err());
    assert!(parse("0 message r u 17 5").is_err());
    assert!(parse("0 history").is_err());
}

#[test]
fn parse_push_online() {
    let p = PushMessage::parse("_push online 2 alice").unwrap().unwrap();
    match p {
        PushMessage::Online { sessions, username } => {
            assert_eq!(sessions, 2);
            assert_eq!(username.as_str(), "alice");
        }
        other => panic!("unexpected: {:?}", other),
    }
}

#[test]
fn parse_push_room_events() {
    match PushMessage::parse("_push invite r bob").unwrap().unwrap() {
        PushMessage::Invite { roomname, inviter } => {
            assert_eq!(roomname.as_str(), "r");
            assert_eq!(inviter.as_str(), "bob");
        }
        other => panic!("unexpected: {:?}", other),
    }
    match PushMessage::parse("_push join r carol").unwrap().unwrap() {
        PushMessage::Join { roomname, username } => {
            assert_eq!(roomname.as_str(), "r");
            assert_eq!(username.as_str(), "carol");
        }
        other => panic!("unexpected: {:?}", other),
    }
    match PushMessage::parse("_push leave r dave").unwrap().unwrap() {
        PushMessage::Leave { roomname, username } => {
            assert_eq!(roomname.as_str(), "r");
            assert_eq!(username.as_str(), "dave");
        }
        other => panic!("unexpected: {:?}", other),
    }
}

#[test]
fn parse_push_message() {
    match PushMessage::parse("_push message r u 5 1 0 a b").unwrap().unwrap() {
        PushMessage::Message(m) => {
            assert_eq!(m.id.to_i64(), 1);
            assert_eq!(m.reply_on.unwrap().to_i64(), 0);
            assert_eq!(m.message.as_str(), "a b");
        }
        other => panic!("unexpected: {:?}", other),
    }
}

#[test]
fn parse_push_ping_is_nothing() {
    assert!(PushMessage::parse("_push ping").unwrap().is_none());
}

#[test]
fn parse_push_unknown_kind_fails() {
    assert!(PushMessage::parse("_push bogus 1 2").is_err());
    assert!(PushMessage::parse("_push").is_err());
    assert!(PushMessage::parse("_push online x alice").is_err());
}
