//! Commands that a client sends, and their wire text.
use vstd::prelude::*;

use crate::id::Id;
use crate::line::Line;
use crate::message::opt_id_view;
use crate::text::{
    extend_str, int_text, lemma_nat_text_digits, is_line, is_word, nat_text, push_i64_text, push_u64_text,
    string_of,
};
use crate::word::Word;

verus! {

/// A command that is sendable to a tomsg server, with related information.
#[derive(Debug, PartialEq, Eq, Hash)]
pub enum Command {
    Version(Word),
    Register { username: Word, password: Line },
    Login { username: Word, password: Line },
    ChangePassword(Line),
    Logout,
    ListRooms,
    ListMembers { roomname: Word },
    CreateRoom,
    LeaveRoom(Word),
    Invite { roomname: Word, username: Word },
    Send { roomname: Word, reply_on: Option<Id>, message: Line },
    /// `timestamp` is in microseconds since the Unix epoch.
    SendAt { apikey: Word, roomname: Word, reply_on: Option<Id>, timestamp: u64, message: Line },
    History { roomname: Word, count: i64 },
    HistoryBefore { roomname: Word, count: i64, message_id: Id },
    GetMessage(Id),
    Ping,
    IsOnline { username: Word },
    FirebaseToken(Word),
    DeleteFirebaseToken(Word),
    UserActive(i64),
}

/// `a`, a space, then `b`.
pub open spec fn spaced(a: Seq<char>, b: Seq<char>) -> Seq<char> {
    a + seq![' '] + b
}

/// The wire text of an optional id: `-1` for none.
pub open spec fn reply_on_text(o: Option<Id>) -> Seq<char> {
    match opt_id_view(o) {
        Some(v) => int_text(v as int),
        None => int_text(-1),
    }
}

/// The wire text of a command, without tag and without line end.
pub open spec fn command_text(c: Command) -> Seq<char> {
    match c {
        Command::Version(v) => spaced("version"@, v@),
        Command::Register { username, password } => spaced(
            spaced("register"@, username@),
            password@,
        ),
        Command::Login { username, password } => spaced(spaced("login"@, username@), password@),
        Command::ChangePassword(p) => spaced("change_password"@, p@),
        Command::Logout => "logout"@,
        Command::ListRooms => "list_rooms"@,
        Command::ListMembers { roomname } => spaced("list_members"@, roomname@),
        Command::CreateRoom => "create_room"@,
        Command::LeaveRoom(r) => spaced("leave_room"@, r@),
        Command::Invite { roomname, username } => spaced(
            spaced("invite"@, roomname@),
            username@,
        ),
        Command::Send { roomname, reply_on, message } => spaced(
            spaced(spaced("send"@, roomname@), reply_on_text(reply_on)),
            message@,
        ),
        Command::SendAt { apikey, roomname, reply_on, timestamp, message } => spaced(
            spaced(
                spaced(spaced(spaced("sendat"@, apikey@), roomname@), reply_on_text(reply_on)),
                nat_text(timestamp as nat),
            ),
            message@,
        ),
        Command::History { roomname, count } => spaced(
            spaced("history"@, roomname@),
            int_text(count as int),
        ),
        Command::HistoryBefore { roomname, count, message_id } => spaced(
            spaced(spaced("history_before"@, roomname@), int_text(count as int)),
            int_text(message_id@ as int),
        ),
        Command::GetMessage(id) => spaced("get_message"@, int_text(id@ as int)),
        Command::Ping => "ping"@,
        Command::IsOnline { username } => spaced("is_online"@, username@),
        Command::FirebaseToken(t) => spaced("firebase_token"@, t@),
        Command::DeleteFirebaseToken(t) => spaced("delete_firebase_token"@, t@),
        Command::UserActive(a) => spaced("user_active"@, int_text(a as int)),
    }
}

proof fn lemma_keywords_are_lines()
    ensures
        is_line("version"@),
        is_line("register"@),
        is_line("login"@),
        is_line("change_password"@),
        is_line("logout"@),
        is_line("list_rooms"@),
        is_line("list_members"@),
        is_line("create_room"@),
        is_line("leave_room"@),
        is_line("invite"@),
        is_line("send"@),
        is_line("sendat"@),
        is_line("history"@),
        is_line("history_before"@),
        is_line("get_message"@),
        is_line("ping"@),
        is_line("is_online"@),
        is_line("firebase_token"@),
        is_line("delete_firebase_token"@),
        is_line("user_active"@),
{
    reveal_strlit("version");
    reveal_strlit("register");
    reveal_strlit("login");
    reveal_strlit("change_password");
    reveal_strlit("logout");
    reveal_strlit("list_rooms");
    reveal_strlit("list_members");
    reveal_strlit("create_room");
    reveal_strlit("leave_room");
    reveal_strlit("invite");
    reveal_strlit("send");
    reveal_strlit("sendat");
    reveal_strlit("history");
    reveal_strlit("history_before");
    reveal_strlit("get_message");
    reveal_strlit("ping");
    reveal_strlit("is_online");
    reveal_strlit("firebase_token");
    reveal_strlit("delete_firebase_token");
    reveal_strlit("user_active");
}

/// Base-10 text holds no newline.
pub proof fn lemma_int_text_is_line(v: int)
    ensures
        is_line(int_text(v)),
        is_line(nat_text(v as nat)),
{
    lemma_nat_text_digits((-v) as nat);
    lemma_nat_text_digits(v as nat);
}

/// Joining two newline-free texts with a space gives a newline-free text.
pub proof fn lemma_spaced_is_line(a: Seq<char>, b: Seq<char>)
    requires
        is_line(a),
        is_line(b),
    ensures
        is_line(spaced(a, b)),
{
    let s = spaced(a, b);
    assert forall|i: int| 0 <= i < s.len() implies s[i] != '\n' by {
        if i < a.len() {
            assert(s[i] == a[i]);
        } else if i > a.len() {
            assert(s[i] == b[i - a.len() - 1]);
        }
    }
}

fn push_space(out: &mut Vec<char>, s: &str)
    ensures
        final(out)@ == old(out)@ + seq![' '] + s@,
{
    out.push(' ');
    extend_str(out, s);
}

fn push_reply_on(out: &mut Vec<char>, reply_on: &Option<Id>)
    ensures
        final(out)@ == old(out)@ + seq![' '] + reply_on_text(*reply_on),
{
    out.push(' ');
    match reply_on {
        Some(id) => push_i64_text(out, id.to_i64()),
        None => push_i64_text(out, -1),
    }
}

impl Command {
    /// The wire text of the command, without tag and line end. It holds no
    /// newline.
    pub fn to_string(&self) -> (r: String)
        ensures
            r@ == command_text(*self),
            is_line(r@),
    {
        let mut out: Vec<char> = Vec::new();
        match self {
            Command::Version(v) => {
                extend_str(&mut out, "version");
                push_space(&mut out, v.as_str());
                proof { use_type_invariant(v); }
            },
            Command::Register { username, password } => {
                extend_str(&mut out, "register");
                push_space(&mut out, username.as_str());
                push_space(&mut out, password.as_str());
                proof { use_type_invariant(username); use_type_invariant(password); }
            },
            Command::Login { username, password } => {
                extend_str(&mut out, "login");
                push_space(&mut out, username.as_str());
                push_space(&mut out, password.as_str());
                proof { use_type_invariant(username); use_type_invariant(password); }
            },
            Command::ChangePassword(p) => {
                extend_str(&mut out, "change_password");
                push_space(&mut out, p.as_str());
                proof { use_type_invariant(p); }
            },
            Command::Logout => {
                extend_str(&mut out, "logout");
            },
            Command::ListRooms => {
                extend_str(&mut out, "list_rooms");
            },
            Command::ListMembers { roomname } => {
                extend_str(&mut out, "list_members");
                push_space(&mut out, roomname.as_str());
                proof { use_type_invariant(roomname); }
            },
            Command::CreateRoom => {
                extend_str(&mut out, "create_room");
            },
            Command::LeaveRoom(r) => {
                extend_str(&mut out, "leave_room");
                push_space(&mut out, r.as_str());
                proof { use_type_invariant(r); }
            },
            Command::Invite { roomname, username } => {
                extend_str(&mut out, "invite");
                push_space(&mut out, roomname.as_str());
                push_space(&mut out, username.as_str());
                proof { use_type_invariant(roomname); use_type_invariant(username); }
            },
            Command::Send { roomname, reply_on, message } => {
                extend_str(&mut out, "send");
                push_space(&mut out, roomname.as_str());
                push_reply_on(&mut out, reply_on);
                push_space(&mut out, message.as_str());
                proof { use_type_invariant(roomname); use_type_invariant(message); }
            },
            Command::SendAt { apikey, roomname, reply_on, timestamp, message } => {
                extend_str(&mut out, "sendat");
                push_space(&mut out, apikey.as_str());
                push_space(&mut out, roomname.as_str());
                push_reply_on(&mut out, reply_on);
                out.push(' ');
                push_u64_text(&mut out, *timestamp);
                push_space(&mut out, message.as_str());
                proof {
                    use_type_invariant(apikey);
                    use_type_invariant(roomname);
                    use_type_invariant(message);
                }
            },
            Command::History { roomname, count } => {
                extend_str(&mut out, "history");
                push_space(&mut out, roomname.as_str());
                out.push(' ');
                push_i64_text(&mut out, *count);
                proof { use_type_invariant(roomname); }
            },
            Command::HistoryBefore { roomname, count, message_id } => {
                extend_str(&mut out, "history_before");
                push_space(&mut out, roomname.as_str());
                out.push(' ');
                push_i64_text(&mut out, *count);
                out.push(' ');
                push_i64_text(&mut out, message_id.to_i64());
                proof { use_type_invariant(roomname); }
            },
            Command::GetMessage(id) => {
                extend_str(&mut out, "get_message");
                out.push(' ');
                push_i64_text(&mut out, id.to_i64());
            },
            Command::Ping => {
                extend_str(&mut out, "ping");
            },
            Command::IsOnline { username } => {
                extend_str(&mut out, "is_online");
                push_space(&mut out, username.as_str());
                proof { use_type_invariant(username); }
            },
            Command::FirebaseToken(t) => {
                extend_str(&mut out, "firebase_token");
                push_space(&mut out, t.as_str());
                proof { use_type_invariant(t); }
            },
            Command::DeleteFirebaseToken(t) => {
                extend_str(&mut out, "delete_firebase_token");
                push_space(&mut out, t.as_str());
                proof { use_type_invariant(t); }
            },
            Command::UserActive(a) => {
                extend_str(&mut out, "user_active");
                out.push(' ');
                push_i64_text(&mut out, *a);
            },
        }
        proof {
            lemma_keywords_are_lines();
            assert(out@ =~= command_text(*self));
            lemma_command_text_is_line(*self);
        }
        string_of(&out)
    }
}

proof fn lemma_command_text_is_line(c: Command)
    requires
        command_fields_valid(c),
    ensures
        is_line(command_text(c)),
{
    lemma_keywords_are_lines();
    lemma_int_text_is_line(-1);
    match c {
        Command::Send { reply_on, .. } => {
            lemma_int_text_is_line(opt_id_view(reply_on)->Some_0 as int);
        },
        Command::SendAt { reply_on, timestamp, .. } => {
            lemma_int_text_is_line(opt_id_view(reply_on)->Some_0 as int);
            lemma_int_text_is_line(timestamp as int);
        },
        Command::History { count, .. } => {
            lemma_int_text_is_line(count as int);
        },
        Command::HistoryBefore { count, message_id, .. } => {
            lemma_int_text_is_line(count as int);
            lemma_int_text_is_line(message_id@ as int);
        },
        Command::GetMessage(id) => {
            lemma_int_text_is_line(id@ as int);
        },
        Command::UserActive(a) => {
            lemma_int_text_is_line(a as int);
        },
        _ => {},
    }
    match c {
        Command::Version(v) => lemma_spaced_is_line("version"@, v@),
        Command::Register { username, password } => {
            lemma_spaced_is_line("register"@, username@);
            lemma_spaced_is_line(spaced("register"@, username@), password@);
        },
        Command::Login { username, password } => {
            lemma_spaced_is_line("login"@, username@);
            lemma_spaced_is_line(spaced("login"@, username@), password@);
        },
        Command::ChangePassword(p) => lemma_spaced_is_line("change_password"@, p@),
        Command::ListMembers { roomname } => lemma_spaced_is_line("list_members"@, roomname@),
        Command::LeaveRoom(r) => lemma_spaced_is_line("leave_room"@, r@),
        Command::Invite { roomname, username } => {
            lemma_spaced_is_line("invite"@, roomname@);
            lemma_spaced_is_line(spaced("invite"@, roomname@), username@);
        },
        Command::Send { roomname, reply_on, message } => {
            lemma_spaced_is_line("send"@, roomname@);
            lemma_spaced_is_line(spaced("send"@, roomname@), reply_on_text(reply_on));
            lemma_spaced_is_line(
                spaced(spaced("send"@, roomname@), reply_on_text(reply_on)),
                message@,
            );
        },
        Command::SendAt { apikey, roomname, reply_on, timestamp, message } => {
            let a = spaced("sendat"@, apikey@);
            let b = spaced(a, roomname@);
            let c2 = spaced(b, reply_on_text(reply_on));
            let d = spaced(c2, nat_text(timestamp as nat));
            lemma_spaced_is_line("sendat"@, apikey@);
            lemma_spaced_is_line(a, roomname@);
            lemma_spaced_is_line(b, reply_on_text(reply_on));
            lemma_spaced_is_line(c2, nat_text(timestamp as nat));
            lemma_spaced_is_line(d, message@);
        },
        Command::History { roomname, count } => {
            lemma_spaced_is_line("history"@, roomname@);
            lemma_spaced_is_line(spaced("history"@, roomname@), int_text(count as int));
        },
        Command::HistoryBefore { roomname, count, message_id } => {
            let a = spaced("history_before"@, roomname@);
            lemma_spaced_is_line("history_before"@, roomname@);
            lemma_spaced_is_line(a, int_text(count as int));
            lemma_spaced_is_line(spaced(a, int_text(count as int)), int_text(message_id@ as int));
        },
        Command::GetMessage(id) => lemma_spaced_is_line("get_message"@, int_text(id@ as int)),
        Command::IsOnline { username } => lemma_spaced_is_line("is_online"@, username@),
        Command::FirebaseToken(t) => lemma_spaced_is_line("firebase_token"@, t@),
        Command::DeleteFirebaseToken(t) => lemma_spaced_is_line("delete_firebase_token"@, t@),
        Command::UserActive(a) => lemma_spaced_is_line("user_active"@, int_text(a as int)),
        _ => {},
    }
}

/// Every word and line argument of `c` is valid, as its type guarantees.
pub open spec fn command_fields_valid(c: Command) -> bool {
    match c {
        Command::Version(v) => is_word(v@),
        Command::Register { username, password } => is_word(username@) && is_line(password@),
        Command::Login { username, password } => is_word(username@) && is_line(password@),
        Command::ChangePassword(p) => is_line(p@),
        Command::ListMembers { roomname } => is_word(roomname@),
        Command::LeaveRoom(r) => is_word(r@),
        Command::Invite { roomname, username } => is_word(roomname@) && is_word(username@),
        Command::Send { roomname, message, .. } => is_word(roomname@) && is_line(message@),
        Command::SendAt { apikey, roomname, message, .. } => is_word(apikey@) && is_word(
            roomname@,
        ) && is_line(message@),
        Command::History { roomname, .. } => is_word(roomname@),
        Command::HistoryBefore { roomname, .. } => is_word(roomname@),
        Command::IsOnline { username } => is_word(username@),
        Command::FirebaseToken(t) => is_word(t@),
        Command::DeleteFirebaseToken(t) => is_word(t@),
        _ => true,
    }
}

} // verus!
