use tomsg_rs::{wire_line, Command, Id, Line, Word};

fn w(s: &str) -> Word {
    Word::try_from_str(s).unwrap()
}

fn l(s: &str) -> Line {
    Line::try_from_str(s).unwrap()
}

#[test]
fn encode_simple_commands() {
    assert_eq!(Command::Ping.to_string(), "ping");
    assert_eq!(Command::Logout.to_string(), "logout");
    assert_eq!(Command::ListRooms.to_string(), "list_rooms");
    assert_eq!(Command::CreateRoom.to_string(), "create_room");
}

#[test]
fn encode_version() {
    assert_eq!(Command::Version(w("4")).to_string(), "version 4");
}

#[test]
fn encode_credentials() {
    let reg = Command::Register { username: w("a"), password: l("b") };
    assert_eq!(reg.to_string(), "register a b");
    let login = Command::Login { username: w("a"), password: l("pass word") };
    assert_eq!(login.to_string(), "login a pass word");
    assert_eq!(Command::ChangePassword(l("new pw")).to_string(), "change_password new pw");
}

#[test]
fn encode_room_commands() {
    assert_eq!(Command::ListMembers { roomname: w("r") }.to_string(), "list_members r");
    assert_eq!(Command::LeaveRoom(w("r")).to_string(), "leave_room r");
    assert_eq!(
        Command::Invite { roomname: w("r"), username: w("u") }.to_string(),
        "invite r u"
    );
}

#[test]
fn encode_send_without_reply() {
    let c = Command::Send { roomname: w("r"), reply_on: None, message: l("hello there") };
    assert_eq!(c.to_string(), "send r -1 hello there");
}

#[test]
fn encode_send_with_reply() {
    let c = Command::Send {
        roomname: w("r"),
        reply_on: Some(Id::try_from(10).unwrap()),
        message: l("hi"),
    };
    assert_eq!(c.to_string(), "send r 10 hi");
}

#[test]
fn encode_sendat() {
    let c = Command::SendAt {
        apikey: w("key"),
        roomname: w("r"),
        reply_on: None,
        timestamp: 1700000000000000,
        message: l("late"),
    };
    assert_eq!(c.to_string(), "sendat key r -1 1700000000000000 late");
}

#[test]
fn encode_history_commands() {
    assert_eq!(Command::History { roomname: w("r"), count: 5 }.to_string(), "history r 5");
    let c = Command::HistoryBefore {
        roomname: w("r"),
        count: 20,
        message_id: Id::try_from(123).unwrap(),
    };
    assert_eq!(c.to_string(), "history_before r 20 123");
    assert_eq!(Command::History { roomname: w("r"), count: -3 }.to_string(), "history r -3");
}

#[test]
fn encode_other_commands() {
    assert_eq!(Command::GetMessage(Id::try_from(0).unwrap()).to_string(), "get_message 0");
    assert_eq!(Command::IsOnline { username: w("bob") }.to_string(), "is_online bob");
    assert_eq!(Command::FirebaseToken(w("tok")).to_string(), "firebase_token tok");
    assert_eq!(
        Command::DeleteFirebaseToken(w("tok")).to_string(),
        "delete_firebase_token tok"
    );
    assert_eq!(Command::UserActive(1).to_string(), "user_active 1");
    assert_eq!(
        Command::UserActive(i64::MIN).to_string(),
        "user_active -9223372036854775808"
    );
}

#[test]
fn encoded_commands_hold_no_newline() {
    let cs = vec![
        Command::Ping,
        Command::Register { username: w("a"), password: l("b c") },
        Command::Send { roomname: w("r"), reply_on: None, message: l("x y z") },
        Command::UserActive(i64::MAX),
    ];
    for c in cs {
        assert!(!c.to_string().contains('\n'));
    }
}

#[test]
fn wire_line_frames_command() {
    let tag = w("0");
    assert_eq!(wire_line(&tag, &Command::Ping.to_string()), "0 ping\n");
    let tag = w("17");
    let c = Command::Login { username: w("a"), password: l("b") };
    assert_eq!(wire_line(&tag, &c.to_string()), "17 login a b\n");
}
