use tomsg_rs::{wire_line, CloseReason, Command, Event, Line, Multiplexer, PushMessage, Reply, SubmitError, Word};

fn w(s: &str) -> Word {
    Word::try_from_str(s).unwrap()
}

fn deliver(ev: Event<u32>) -> (u32, Reply) {
    match ev {
        Event::Deliver(slot, r) => (slot, r),
        other => panic!("expected a delivery, got {:?}", describe(&other)),
    }
}

fn describe(ev: &Event<u32>) -> String {
    match ev {
        Event::Nothing => "nothing".to_string(),
        Event::Push(p) => format!("push {:?}", p),
        Event::Deliver(s, r) => format!("deliver {} {:?}", s, r),
        Event::Close(c, v) => format!("close {:?} {:?}", c, v),
    }
}

fn is_nothing(ev: &Event<u32>) -> bool {
    matches!(ev, Event::Nothing)
}

#[test]
fn ping_round_trip() {
    let mut mux: Multiplexer<u32> = Multiplexer::new();
    let tag = mux.register(1).unwrap();
    assert_eq!(wire_line(&tag, &Command::Ping.to_string()), "0 ping\n");
    let (slot, r) = deliver(mux.handle_line("0 pong"));
    assert_eq!(slot, 1);
    assert!(r.pong().is_some());
}

#[test]
fn register_then_login() {
    let mut mux: Multiplexer<u32> = Multiplexer::new();
    let reg = Command::Register { username: w("a"), password: Line::try_from_str("b").unwrap() };
    let login = Command::Login { username: w("a"), password: Line::try_from_str("b").unwrap() };
    let t0 = mux.register(100).unwrap();
    let t1 = mux.register(200).unwrap();
    assert_eq!(wire_line(&t0, &reg.to_string()), "0 register a b\n");
    assert_eq!(wire_line(&t1, &login.to_string()), "1 login a b\n");
    let (s1, r1) = deliver(mux.handle_line("1 ok"));
    assert_eq!(s1, 200);
    assert!(r1.ok().is_some());
    let (s0, r0) = deliver(mux.handle_line("0 ok"));
    assert_eq!(s0, 100);
    assert!(r0.ok().is_some());
}

#[test]
fn empty_history() {
    let mut mux: Multiplexer<u32> = Multiplexer::new();
    let tag = mux.register(7).unwrap();
    let c = Command::History { roomname: w("r"), count: 5 };
    assert_eq!(wire_line(&tag, &c.to_string()), "0 history r 5\n");
    let (slot, r) = deliver(mux.handle_line("0 history 0"));
    assert_eq!(slot, 7);
    assert!(r.history().unwrap().is_empty());
    // No history is left under way: a stray fragment now breaks the protocol.
    assert!(matches!(
        mux.handle_line("0 history_message 0 r u 1 1 -1 x"),
        Event::Close(CloseReason::Error(_), _)
    ));
}

#[test]
fn two_element_history() {
    let mut mux: Multiplexer<u32> = Multiplexer::new();
    mux.register(7).unwrap();
    assert!(is_nothing(&mux.handle_line("0 history 2")));
    assert!(is_nothing(&mux.handle_line("0 history_message 0 r u 1700000000000000 10 -1 hello")));
    let (slot, r) = deliver(mux.handle_line("0 history_message 1 r u 1700000000000001 11 10 world"));
    assert_eq!(slot, 7);
    let msgs = r.history().unwrap();
    assert_eq!(msgs.len(), 2);
    assert_eq!(msgs[0].id.to_i64(), 10);
    assert!(msgs[0].reply_on.is_none());
    assert_eq!(msgs[0].roomname.as_str(), "r");
    assert_eq!(msgs[0].username.as_str(), "u");
    assert_eq!(msgs[0].timestamp, 1700000000000000);
    assert_eq!(msgs[0].message.as_str(), "hello");
    assert_eq!(msgs[1].id.to_i64(), 11);
    assert_eq!(msgs[1].reply_on.unwrap().to_i64(), 10);
    assert_eq!(msgs[1].timestamp, 1700000000000001);
    assert_eq!(msgs[1].message.as_str(), "world");
}

#[test]
fn push_while_awaiting() {
    let mut mux: Multiplexer<u32> = Multiplexer::new();
    mux.register(1).unwrap();
    let mut pushes = Vec::new();
    for line in ["_push online 2 alice", "_push ping"] {
        match mux.handle_line(line) {
            Event::Push(p) => pushes.push(p),
            Event::Nothing => {}
            other => panic!("unexpected {}", describe(&other)),
        }
    }
    assert_eq!(pushes.len(), 1);
    match &pushes[0] {
        PushMessage::Online { sessions, username } => {
            assert_eq!(*sessions, 2);
            assert_eq!(username.as_str(), "alice");
        }
        other => panic!("unexpected {:?}", other),
    }
    let (slot, r) = deliver(mux.handle_line("0 pong"));
    assert_eq!(slot, 1);
    assert!(r.pong().is_some());
}

#[test]
fn close_with_pending() {
    let mut mux: Multiplexer<u32> = Multiplexer::new();
    let tag = mux.register(9).unwrap();
    assert_eq!(wire_line(&tag, &Command::ListRooms.to_string()), "0 list_rooms\n");
    let slots = mux.close(CloseReason::EOF);
    assert_eq!(slots, vec![9]);
    assert!(mux.is_closed());
    assert!(matches!(mux.close_reason(), Some(CloseReason::EOF)));
}

#[test]
fn close_fails_every_pending_caller() {
    let mut mux: Multiplexer<u32> = Multiplexer::new();
    for s in 0..5u32 {
        mux.register(s).unwrap();
    }
    let (slot, _) = deliver(mux.handle_line("2 ok"));
    assert_eq!(slot, 2);
    assert_eq!(mux.close(CloseReason::EOF), vec![0, 1, 3, 4]);
    assert!(mux.is_closed());
    assert!(mux.close(CloseReason::EOF).is_empty());
}

#[test]
fn submission_after_close_fails_with_reason() {
    let mut mux: Multiplexer<u32> = Multiplexer::new();
    mux.close(CloseReason::Error("reset by peer".to_string()));
    match mux.register(1) {
        Err(SubmitError::Closed(CloseReason::Error(e))) => assert_eq!(e, "reset by peer"),
        other => panic!("unexpected {:?}", other),
    }
    assert!(is_nothing(&mux.handle_line("0 ok")));
}

#[test]
fn tags_are_distinct() {
    let mut mux: Multiplexer<u32> = Multiplexer::new();
    let mut tags = Vec::new();
    for s in 0..50u32 {
        tags.push(mux.register(s).unwrap().into_string());
    }
    let mut sorted = tags.clone();
    sorted.sort();
    sorted.dedup();
    assert_eq!(sorted.len(), 50);
    assert_eq!(tags[0], "0");
    assert_eq!(tags[49], "49");
}

#[test]
fn reply_for_unknown_tag_is_ignored() {
    let mut mux: Multiplexer<u32> = Multiplexer::new();
    mux.register(1).unwrap();
    assert!(is_nothing(&mux.handle_line("99 ok")));
    let (slot, _) = deliver(mux.handle_line("0 ok"));
    assert_eq!(slot, 1);
    assert!(!mux.is_closed());
}

#[test]
fn unknown_push_closes_connection() {
    let mut mux: Multiplexer<u32> = Multiplexer::new();
    mux.register(1).unwrap();
    mux.register(2).unwrap();
    match mux.handle_line("_push bogus") {
        Event::Close(CloseReason::Error(_), slots) => assert_eq!(slots, vec![1, 2]),
        other => panic!("unexpected {}", describe(&other)),
    }
    assert!(mux.is_closed());
    assert!(matches!(mux.close_reason(), Some(CloseReason::Error(_))));
}

#[test]
fn ping_inside_history_does_not_disturb() {
    let mut mux: Multiplexer<u32> = Multiplexer::new();
    mux.register(1).unwrap();
    assert!(is_nothing(&mux.handle_line("0 history 2")));
    assert!(is_nothing(&mux.handle_line("_push ping")));
    assert!(is_nothing(&mux.handle_line("0 history_message 0 r u 1 1 -1 a")));
    assert!(is_nothing(&mux.handle_line("_push ping")));
    let (slot, r) = deliver(mux.handle_line("0 history_message 1 r u 2 2 -1 b"));
    assert_eq!(slot, 1);
    assert_eq!(r.history().unwrap().len(), 2);
}

#[test]
fn history_fragment_out_of_order_closes() {
    let mut mux: Multiplexer<u32> = Multiplexer::new();
    mux.register(1).unwrap();
    assert!(is_nothing(&mux.handle_line("0 history 3")));
    match mux.handle_line("0 history_message 1 r u 1 1 -1 a") {
        Event::Close(CloseReason::Error(_), slots) => assert_eq!(slots, vec![1]),
        other => panic!("unexpected {}", describe(&other)),
    }
}

#[test]
fn second_history_announcement_closes() {
    let mut mux: Multiplexer<u32> = Multiplexer::new();
    mux.register(1).unwrap();
    assert!(is_nothing(&mux.handle_line("0 history 2")));
    assert!(matches!(mux.handle_line("0 history 2"), Event::Close(_, _)));
}

#[test]
fn negative_history_count_closes() {
    let mut mux: Multiplexer<u32> = Multiplexer::new();
    mux.register(1).unwrap();
    assert!(matches!(mux.handle_line("0 history -1"), Event::Close(_, _)));
}

#[test]
fn malformed_reply_closes() {
    let mut mux: Multiplexer<u32> = Multiplexer::new();
    mux.register(1).unwrap();
    assert!(matches!(mux.handle_line("0 whatever"), Event::Close(_, _)));
    assert!(mux.is_closed());
}
