//! A chat message, and how a message is read from the fields of a frame.
use vstd::prelude::*;

use crate::id::Id;
use crate::line::Line;
use crate::text::{
    i64_of, int_text, is_line, is_word, join_spaces, join_tokens, lemma_int_text_round_trip,
    lemma_int_text_word, lemma_join_split, lemma_nat_text_round_trip, lemma_nat_text_word,
    lemma_split_concat, lemma_split_nonempty, lemma_split_word, nat_text, parse_i64, parse_u64,
    split_spaces, token_views, u64_of,
};
use crate::word::Word;

verus! {

/// A message in a room.
#[derive(Debug, PartialEq, Eq, Hash)]
pub struct Message {
    /// The ID of the message.
    pub id: Id,
    /// The ID of the message this message replies on, if any.
    pub reply_on: Option<Id>,
    /// The name of the room this message is sent in.
    pub roomname: Word,
    /// The username of the author of this message.
    pub username: Word,
    /// The time this message was sent, in microseconds since the Unix epoch.
    pub timestamp: u64,
    /// The contents of this message.
    pub message: Line,
}

/// What a `Message` holds, as plain values.
pub struct MessageView {
    pub id: i64,
    pub reply_on: Option<i64>,
    pub roomname: Seq<char>,
    pub username: Seq<char>,
    pub timestamp: u64,
    pub message: Seq<char>,
}

/// The view of an optional id.
pub open spec fn opt_id_view(o: Option<Id>) -> Option<i64> {
    match o {
        Some(id) => Some(id@),
        None => None,
    }
}

impl View for Message {
    type V = MessageView;

    open spec fn view(&self) -> MessageView {
        MessageView {
            id: self.id@,
            reply_on: opt_id_view(self.reply_on),
            roomname: self.roomname@,
            username: self.username@,
            timestamp: self.timestamp,
            message: self.message@,
        }
    }
}

impl Clone for Message {
    fn clone(&self) -> (r: Self)
        ensures
            r@ == self@,
    {
        Message {
            id: self.id,
            reply_on: self.reply_on,
            roomname: self.roomname.clone(),
            username: self.username.clone(),
            timestamp: self.timestamp,
            message: self.message.clone(),
        }
    }
}

/// The `reply_on` field as it stands on the wire: `-1` for none, else an id.
pub open spec fn reply_on_of(v: i64) -> Option<Option<i64>> {
    if v == -1 {
        Some(None)
    } else if v >= 0 {
        Some(Some(v))
    } else {
        None
    }
}

/// The message that the fields `w` describe: room, user, timestamp, id,
/// reply-on, then the body, which runs to the end of the frame. `None` where
/// a field is missing or invalid.
pub open spec fn message_of(w: Seq<Seq<char>>) -> Option<MessageView> {
    if w.len() < 5 {
        None
    } else {
        match (i64_of(w[3]), i64_of(w[4]), u64_of(w[2])) {
            (Some(id), Some(ro), Some(ts)) => {
                let body = join_spaces(w.skip(5));
                if id >= 0 && reply_on_of(ro) is Some && is_word(w[0]) && is_word(w[1])
                    && is_line(body) {
                    Some(
                        MessageView {
                            id,
                            reply_on: reply_on_of(ro)->Some_0,
                            roomname: w[0],
                            username: w[1],
                            timestamp: ts,
                            message: body,
                        },
                    )
                } else {
                    None
                }
            },
            _ => None,
        }
    }
}

fn field_error(field: &str) -> (r: String) {
    let mut e = "got invalid value for message field: ".to_owned();
    e.append(field);
    e
}

impl Message {
    /// Reads a message from the fields `words[start..]`.
    pub fn try_parse(words: &Vec<Vec<char>>, start: usize) -> (r: Result<Message, String>)
        requires
            start <= words.len(),
        ensures
            r is Ok <==> message_of(token_views(words@).skip(start as int)) is Some,
            r matches Ok(m) ==> message_of(token_views(words@).skip(start as int)) == Some(m@),
    {
        let ghost w = token_views(words@).skip(start as int);
        if words.len() - start < 5 {
            return Err(field_error("count"));
        }
        assert(w[3] == words@[start + 3]@ && w[4] == words@[start + 4]@);
        assert(w[0] == words@[start as int]@ && w[1] == words@[start + 1]@ && w[2] == words@[start + 2]@);
        let id = match parse_i64(&words[start + 3]) {
            Some(v) => v,
            None => return Err(field_error("id")),
        };
        if id < 0 {
            return Err(field_error("id"));
        }
        let id = Id::from_i64_unchecked(id);
        let reply_on = match parse_i64(&words[start + 4]) {
            Some(v) => {
                if v == -1 {
                    None
                } else if v >= 0 {
                    Some(Id::from_i64_unchecked(v))
                } else {
                    return Err(field_error("reply_on"));
                }
            },
            None => return Err(field_error("reply_on")),
        };
        let roomname = match Word::from_chars(&words[start]) {
            Some(w) => w,
            None => return Err(field_error("roomname")),
        };
        let username = match Word::from_chars(&words[start + 1]) {
            Some(w) => w,
            None => return Err(field_error("username")),
        };
        let timestamp = match parse_u64(&words[start + 2]) {
            Some(t) => t,
            None => return Err(field_error("timestamp")),
        };
        let body = join_tokens(words, start + 5);
        assert(token_views(words@).skip(start + 5) =~= w.skip(5));
        let message = match Line::from_chars(&body) {
            Some(l) => l,
            None => return Err(field_error("message")),
        };
        Ok(Message { id, reply_on, roomname, username, timestamp, message })
    }
}

/// The fields of a message that a server sends: room, user, timestamp, id,
/// reply-on (`-1` for none) and body, separated by single spaces.
pub open spec fn message_text(m: MessageView) -> Seq<char> {
    let ro: int = match m.reply_on {
        Some(r) => r as int,
        None => -1,
    };
    let head = m.roomname + seq![' '] + m.username + seq![' '] + nat_text(m.timestamp as nat)
        + seq![' '] + int_text(m.id as int) + seq![' '] + int_text(ro);
    head + seq![' '] + m.message
}

/// A message whose fields meet the constraints of their types.
pub open spec fn message_view_valid(m: MessageView) -> bool {
    &&& m.id >= 0
    &&& (m.reply_on matches Some(r) ==> r >= 0)
    &&& is_word(m.roomname)
    &&& is_word(m.username)
    &&& is_line(m.message)
}

/// Reading the fields of a valid message gives the message back.
pub proof fn lemma_message_round_trip(m: MessageView)
    requires
        message_view_valid(m),
    ensures
        split_spaces(message_text(m)).len() >= 6,
        message_of(split_spaces(message_text(m))) == Some(m),
{
    let ro: int = match m.reply_on {
        Some(r) => r as int,
        None => -1,
    };
    let ts = nat_text(m.timestamp as nat);
    let id = int_text(m.id as int);
    let rt = int_text(ro);
    lemma_nat_text_word(m.timestamp as nat);
    lemma_int_text_word(m.id as int);
    lemma_int_text_word(ro);
    lemma_split_word(m.roomname);
    lemma_split_word(m.username);
    lemma_split_word(ts);
    lemma_split_word(id);
    lemma_split_word(rt);
    let a1 = m.roomname + seq![' '] + m.username;
    let a2 = a1 + seq![' '] + ts;
    let a3 = a2 + seq![' '] + id;
    let a4 = a3 + seq![' '] + rt;
    lemma_split_concat(m.roomname, m.username);
    lemma_split_concat(a1, ts);
    lemma_split_concat(a2, id);
    lemma_split_concat(a3, rt);
    lemma_split_concat(a4, m.message);
    lemma_split_nonempty(m.message);
    lemma_join_split(m.message);
    let w = split_spaces(message_text(m));
    assert(message_text(m) == a4 + seq![' '] + m.message);
    assert(w =~= seq![m.roomname, m.username, ts, id, rt] + split_spaces(m.message));
    assert(w.skip(5) =~= split_spaces(m.message));
    lemma_nat_text_round_trip(m.timestamp);
    lemma_int_text_round_trip(m.id);
    let ro64: i64 = match m.reply_on {
        Some(r) => r,
        None => -1i64,
    };
    lemma_int_text_round_trip(ro64);
    assert(w[2] == ts && w[3] == id && w[4] == rt);
}

} // verus!
