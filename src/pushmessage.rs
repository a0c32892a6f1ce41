//! Items that the server pushes without being asked, and how a push line is
//! read.
use vstd::prelude::*;

use crate::message::{message_of, Message, MessageView};
use crate::text::{
    chars_of, i64_of, is_word, parse_i64, same_chars, split_spaces, split_spaces_exec,
    token_views,
};
use crate::word::Word;

verus! {

/// An item pushed from the server to the client.
#[derive(Debug, PartialEq, Eq, Hash)]
pub enum PushMessage {
    /// An update to the online state of a person that you participate with in a room.
    Online {
        /// The number of sessions currently marked as online.
        sessions: i64,
        /// The username of the user.
        username: Word,
    },
    /// A new message is sent in a room that the client participates in.
    Message(Message),
    /// A person invited the current client to a room.
    ///
    /// If `inviter` is the username of the logged-in user on the current client, it means that
    /// another session of the logged-in user joined the room with name `roomname`.
    Invite {
        /// The name of the room the client is invited in.
        roomname: Word,
        /// The username of the user that invited the client.
        inviter: Word,
    },
    /// A person has joined a room you participate in.
    Join {
        /// The room in question.
        roomname: Word,
        /// The username of the user that joined the room.
        username: Word,
    },
    /// A person has left a room you participate in.
    ///
    /// If `username` is the username of the logged-in user on the current client, it means that
    /// another session of the logged-in user left the room with name `roomname`.
    Leave {
        /// The room in question.
        roomname: Word,
        /// The username of the user that left the room.
        username: Word,
    },
}

/// What a `PushMessage` holds, as plain values.
pub enum PushView {
    Online { sessions: i64, username: Seq<char> },
    Message(MessageView),
    Invite { roomname: Seq<char>, inviter: Seq<char> },
    Join { roomname: Seq<char>, username: Seq<char> },
    Leave { roomname: Seq<char>, username: Seq<char> },
}

impl View for PushMessage {
    type V = PushView;

    open spec fn view(&self) -> PushView {
        match self {
            PushMessage::Online { sessions, username } => PushView::Online {
                sessions: *sessions,
                username: username@,
            },
            PushMessage::Message(m) => PushView::Message(m@),
            PushMessage::Invite { roomname, inviter } => PushView::Invite {
                roomname: roomname@,
                inviter: inviter@,
            },
            PushMessage::Join { roomname, username } => PushView::Join {
                roomname: roomname@,
                username: username@,
            },
            PushMessage::Leave { roomname, username } => PushView::Leave {
                roomname: roomname@,
                username: username@,
            },
        }
    }
}

/// Whether the tokens `w` have two words at positions 2 and 3.
pub open spec fn two_words(w: Seq<Seq<char>>) -> bool {
    w.len() >= 4 && is_word(w[2]) && is_word(w[3])
}

/// What the tokens `w` of a push line (its first token is `_push`) say:
/// `Some(Some(p))` for an item, `Some(None)` for a ping, which carries
/// nothing, and `None` for a line that breaks the grammar, an unknown kind
/// among them.
pub open spec fn push_of(w: Seq<Seq<char>>) -> Option<Option<PushView>> {
    if w.len() < 2 {
        None
    } else {
        let kind = w[1];
        if kind == "online"@ {
            if w.len() >= 4 && i64_of(w[2]) is Some && is_word(w[3]) {
                Some(Some(PushView::Online { sessions: i64_of(w[2])->Some_0, username: w[3] }))
            } else {
                None
            }
        } else if kind == "message"@ {
            match message_of(w.skip(2)) {
                Some(m) => Some(Some(PushView::Message(m))),
                None => None,
            }
        } else if kind == "invite"@ {
            if two_words(w) {
                Some(Some(PushView::Invite { roomname: w[2], inviter: w[3] }))
            } else {
                None
            }
        } else if kind == "join"@ {
            if two_words(w) {
                Some(Some(PushView::Join { roomname: w[2], username: w[3] }))
            } else {
                None
            }
        } else if kind == "leave"@ {
            if two_words(w) {
                Some(Some(PushView::Leave { roomname: w[2], username: w[3] }))
            } else {
                None
            }
        } else if kind == "ping"@ {
            Some(None)
        } else {
            None
        }
    }
}

fn unexpected_push(kind: &str) -> (r: String) {
    let mut e = "unexpected push: ".to_owned();
    e.append(kind);
    e
}

impl PushMessage {
    /// Reads a push line (its first token is `_push`, and it is given without
    /// its line end). A ping gives `Ok(None)`; a line that breaks the push
    /// grammar, an unknown kind among them, gives an error.
    pub fn parse(s: &str) -> (r: Result<Option<PushMessage>, String>)
        requires
            split_spaces(s@)[0] == "_push"@,
        ensures
            r is Ok <==> push_of(split_spaces(s@)) is Some,
            r matches Ok(o) ==> push_of(split_spaces(s@)) == Some(
                match o {
                    Some(p) => Some(p@),
                    None => None::<PushView>,
                },
            ),
    {
        let chars = chars_of(s);
        let words = split_spaces_exec(&chars);
        let ghost w = token_views(words@);
        if words.len() < 2 {
            return Err(unexpected_push("short line"));
        }
        let kind = &words[1];
        assert(w[1] == words@[1]@);
        assert(words.len() >= 3 ==> w[2] == words@[2]@);
        assert(words.len() >= 4 ==> w[3] == words@[3]@);
        if same_chars(kind, "online") {
            if words.len() < 4 {
                return Err(unexpected_push("online"));
            }
            let sessions = match parse_i64(&words[2]) {
                Some(n) => n,
                None => return Err(unexpected_push("online")),
            };
            match Word::from_chars(&words[3]) {
                Some(username) => Ok(Some(PushMessage::Online { sessions, username })),
                None => Err(unexpected_push("online")),
            }
        } else if same_chars(kind, "message") {
            match Message::try_parse(&words, 2) {
                Ok(m) => Ok(Some(PushMessage::Message(m))),
                Err(e) => Err(e),
            }
        } else if same_chars(kind, "invite") || same_chars(kind, "join") || same_chars(
            kind,
            "leave",
        ) {
            if words.len() < 4 {
                return Err(unexpected_push("room event"));
            }
            let roomname = match Word::from_chars(&words[2]) {
                Some(r) => r,
                None => return Err(unexpected_push("room event")),
            };
            let other = match Word::from_chars(&words[3]) {
                Some(u) => u,
                None => return Err(unexpected_push("room event")),
            };
            if same_chars(kind, "invite") {
                Ok(Some(PushMessage::Invite { roomname, inviter: other }))
            } else if same_chars(kind, "join") {
                Ok(Some(PushMessage::Join { roomname, username: other }))
            } else {
                Ok(Some(PushMessage::Leave { roomname, username: other }))
            }
        } else if same_chars(kind, "ping") {
            Ok(None)
        } else {
            Err(unexpected_push("unknown kind"))
        }
    }
}

} // verus!
