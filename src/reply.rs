//! Replies from the server, and how a tagged reply line is read.
use vstd::prelude::*;

use crate::line::Line;
use crate::message::{
    lemma_message_round_trip, message_of, message_text, message_view_valid, Message, MessageView,
};
use crate::text::{
    chars_of, i64_of, int_text, is_line, is_word, join_spaces, join_tokens, lemma_int_text_round_trip,
    lemma_int_text_word, lemma_join_split, lemma_split_concat, lemma_split_join_words,
    lemma_split_word, parse_i64, same_chars, split_spaces, split_spaces_exec, token_views,
};
use crate::command::lemma_int_text_is_line;
use crate::word::Word;

verus! {

/// A reply to a sent `Command`.
///
/// For every variant there is a method that returns its contents as `Some`
/// when the reply is that variant, and `None` otherwise.
#[derive(Debug)]
pub enum Reply {
    /// The command was processed successfully.
    Okay,
    /// A numeric value.
    Number(i64),
    /// An error text.
    Error(Line),
    /// A name.
    Name(Word),
    /// A list of names.
    List(Vec<Word>),
    /// The answer to `Command::Ping`.
    Pong,
    /// A list of messages from a room's history.
    History(Vec<Message>),
    /// A single message.
    Message(Message),
}

/// What a `Reply` holds, as plain values.
pub enum ReplyView {
    Okay,
    Number(i64),
    Error(Seq<char>),
    Name(Seq<char>),
    List(Seq<Seq<char>>),
    Pong,
    History(Seq<MessageView>),
    Message(MessageView),
}

/// The views of a list of words.
pub open spec fn words_view(v: Seq<Word>) -> Seq<Seq<char>> {
    v.map_values(|w: Word| w@)
}

/// The views of a list of messages.
pub open spec fn messages_view(v: Seq<Message>) -> Seq<MessageView> {
    v.map_values(|m: Message| m@)
}

impl View for Reply {
    type V = ReplyView;

    open spec fn view(&self) -> ReplyView {
        match self {
            Reply::Okay => ReplyView::Okay,
            Reply::Number(n) => ReplyView::Number(*n),
            Reply::Error(e) => ReplyView::Error(e@),
            Reply::Name(n) => ReplyView::Name(n@),
            Reply::List(l) => ReplyView::List(words_view(l@)),
            Reply::Pong => ReplyView::Pong,
            Reply::History(h) => ReplyView::History(messages_view(h@)),
            Reply::Message(m) => ReplyView::Message(m@),
        }
    }
}

impl Reply {
    pub fn ok(self) -> (r: Option<()>)
        ensures
            r is Some <==> self is Okay,
    {
        match self {
            Reply::Okay => Some(()),
            _ => None,
        }
    }

    pub fn number(self) -> (r: Option<i64>)
        ensures
            r == (match self {
                Reply::Number(n) => Some(n),
                _ => None::<i64>,
            }),
    {
        match self {
            Reply::Number(n) => Some(n),
            _ => None,
        }
    }

    pub fn error(self) -> (r: Option<Line>)
        ensures
            r == (match self {
                Reply::Error(e) => Some(e),
                _ => None::<Line>,
            }),
    {
        match self {
            Reply::Error(e) => Some(e),
            _ => None,
        }
    }

    pub fn name(self) -> (r: Option<Word>)
        ensures
            r == (match self {
                Reply::Name(n) => Some(n),
                _ => None::<Word>,
            }),
    {
        match self {
            Reply::Name(n) => Some(n),
            _ => None,
        }
    }

    pub fn list(self) -> (r: Option<Vec<Word>>)
        ensures
            r == (match self {
                Reply::List(l) => Some(l),
                _ => None::<Vec<Word>>,
            }),
    {
        match self {
            Reply::List(l) => Some(l),
            _ => None,
        }
    }

    pub fn pong(self) -> (r: Option<()>)
        ensures
            r is Some <==> self is Pong,
    {
        match self {
            Reply::Pong => Some(()),
            _ => None,
        }
    }

    pub fn history(self) -> (r: Option<Vec<Message>>)
        ensures
            r == (match self {
                Reply::History(h) => Some(h),
                _ => None::<Vec<Message>>,
            }),
    {
        match self {
            Reply::History(h) => Some(h),
            _ => None,
        }
    }

    pub fn message(self) -> (r: Option<Message>)
        ensures
            r == (match self {
                Reply::Message(m) => Some(m),
                _ => None::<Message>,
            }),
    {
        match self {
            Reply::Message(m) => Some(m),
            _ => None,
        }
    }
}


/// One tagged line from the server: a whole reply, or a fragment of a
/// `history` reply.
#[derive(Debug)]
pub enum InternalReply {
    /// A complete reply.
    Normal(Reply),
    /// The start of a history reply announcing this many messages.
    HistoryInit(i64),
    /// One message of a history reply, with its index.
    HistoryMessage(i64, Message),
}

/// What an `InternalReply` holds, as plain values.
pub enum InternalView {
    Normal(ReplyView),
    HistoryInit(i64),
    HistoryMessage(i64, MessageView),
}

impl View for InternalReply {
    type V = InternalView;

    open spec fn view(&self) -> InternalView {
        match self {
            InternalReply::Normal(r) => InternalView::Normal(r@),
            InternalReply::HistoryInit(n) => InternalView::HistoryInit(*n),
            InternalReply::HistoryMessage(i, m) => InternalView::HistoryMessage(*i, m@),
        }
    }
}

/// Every token holds neither a space nor a newline.
pub open spec fn all_words(ts: Seq<Seq<char>>) -> bool {
    forall|i: int| 0 <= i < ts.len() ==> is_word(#[trigger] ts[i])
}

/// What the tokens `w` of a tagged line say after the tag, where `kind` is
/// the second token. `None` where the line breaks the grammar.
pub open spec fn reply_body_of(w: Seq<Seq<char>>) -> Option<InternalView> {
    let kind = w[1];
    if kind == "ok"@ {
        Some(InternalView::Normal(ReplyView::Okay))
    } else if kind == "pong"@ {
        Some(InternalView::Normal(ReplyView::Pong))
    } else if kind == "number"@ {
        if w.len() >= 3 && i64_of(w[2]) is Some {
            Some(InternalView::Normal(ReplyView::Number(i64_of(w[2])->Some_0)))
        } else {
            None
        }
    } else if kind == "error"@ {
        if is_line(join_spaces(w.skip(2))) {
            Some(InternalView::Normal(ReplyView::Error(join_spaces(w.skip(2)))))
        } else {
            None
        }
    } else if kind == "name"@ {
        if w.len() >= 3 && is_word(w[2]) {
            Some(InternalView::Normal(ReplyView::Name(w[2])))
        } else {
            None
        }
    } else if kind == "list"@ {
        if w.len() >= 3 && all_words(w.skip(3)) {
            Some(InternalView::Normal(ReplyView::List(w.skip(3))))
        } else {
            None
        }
    } else if kind == "message"@ {
        match message_of(w.skip(2)) {
            Some(m) => Some(InternalView::Normal(ReplyView::Message(m))),
            None => None,
        }
    } else if kind == "history"@ {
        if w.len() >= 3 && i64_of(w[2]) is Some {
            Some(InternalView::HistoryInit(i64_of(w[2])->Some_0))
        } else {
            None
        }
    } else if kind == "history_message"@ {
        if w.len() >= 3 && i64_of(w[2]) is Some && message_of(w.skip(3)) is Some {
            Some(InternalView::HistoryMessage(i64_of(w[2])->Some_0, message_of(w.skip(3))->Some_0))
        } else {
            None
        }
    } else {
        None
    }
}

/// The tag and contents of the reply line `s`; `None` where it breaks the
/// grammar.
pub open spec fn reply_line_of(s: Seq<char>) -> Option<(Seq<char>, InternalView)> {
    let w = split_spaces(s);
    if w.len() < 2 || !is_word(w[0]) {
        None
    } else {
        match reply_body_of(w) {
            Some(b) => Some((w[0], b)),
            None => None,
        }
    }
}

/// Reads the tokens `words[from..]` as words.
fn words_from(words: &Vec<Vec<char>>, from: usize) -> (r: Option<Vec<Word>>)
    requires
        from <= words.len(),
    ensures
        r is Some <==> all_words(token_views(words@).skip(from as int)),
        r matches Some(v) ==> words_view(v@) == token_views(words@).skip(from as int),
{
    let ghost ts = token_views(words@);
    let mut out: Vec<Word> = Vec::new();
    let mut i: usize = from;
    while i < words.len()
        invariant
            from <= i <= words.len(),
            ts == token_views(words@),
            words_view(out@) == ts.subrange(from as int, i as int),
            all_words(ts.subrange(from as int, i as int)),
        decreases words.len() - i,
    {
        assert(ts[i as int] == words@[i as int]@);
        let ghost before = out@;
        match Word::from_chars(&words[i]) {
            Some(w) => {
                out.push(w);
                assert(out@ == before.push(w));
            },
            None => {
                assert(ts.skip(from as int)[i - from] == ts[i as int]);
                return None;
            },
        }
        i = i + 1;
        assert(words_view(out@) =~= words_view(before).push(ts[i - 1]));
        assert(ts.subrange(from as int, i as int) =~= ts.subrange(from as int, i - 1).push(ts[i - 1]));
    }
    assert(ts.subrange(from as int, words.len() as int) =~= ts.skip(from as int));
    Some(out)
}

fn unexpected(kind: &str) -> (r: String) {
    let mut e = "unexpected response: ".to_owned();
    e.append(kind);
    e
}

/// Reads the reply line `s` (without its line end) into its tag and contents.
/// Fails on a line that breaks the reply grammar.
pub fn parse(s: &str) -> (r: Result<(Word, InternalReply), String>)
    ensures
        r is Ok <==> reply_line_of(s@) is Some,
        r matches Ok((tag, ir)) ==> reply_line_of(s@) == Some((tag@, ir@)),
{
    let chars = chars_of(s);
    let words = split_spaces_exec(&chars);
    let ghost w = token_views(words@);
    if words.len() < 2 {
        return Err(unexpected("short line"));
    }
    let tag = match Word::from_chars(&words[0]) {
        Some(t) => t,
        None => return Err(unexpected("tag")),
    };
    let kind = &words[1];
    assert(w[0] == words@[0]@ && w[1] == words@[1]@);
    assert(words.len() >= 3 ==> w[2] == words@[2]@);
    let body = if same_chars(kind, "ok") {
        InternalReply::Normal(Reply::Okay)
    } else if same_chars(kind, "pong") {
        InternalReply::Normal(Reply::Pong)
    } else if same_chars(kind, "number") {
        if words.len() < 3 {
            return Err(unexpected("number"));
        }
        match parse_i64(&words[2]) {
            Some(n) => InternalReply::Normal(Reply::Number(n)),
            None => return Err(unexpected("number")),
        }
    } else if same_chars(kind, "error") {
        let text = join_tokens(&words, 2);
        match Line::from_chars(&text) {
            Some(l) => InternalReply::Normal(Reply::Error(l)),
            None => return Err(unexpected("error")),
        }
    } else if same_chars(kind, "name") {
        if words.len() < 3 {
            return Err(unexpected("name"));
        }
        match Word::from_chars(&words[2]) {
            Some(n) => InternalReply::Normal(Reply::Name(n)),
            None => return Err(unexpected("name")),
        }
    } else if same_chars(kind, "list") {
        if words.len() < 3 {
            return Err(unexpected("list"));
        }
        match words_from(&words, 3) {
            Some(l) => InternalReply::Normal(Reply::List(l)),
            None => return Err(unexpected("list")),
        }
    } else if same_chars(kind, "message") {
        match Message::try_parse(&words, 2) {
            Ok(m) => InternalReply::Normal(Reply::Message(m)),
            Err(e) => return Err(e),
        }
    } else if same_chars(kind, "history") {
        if words.len() < 3 {
            return Err(unexpected("history"));
        }
        match parse_i64(&words[2]) {
            Some(n) => InternalReply::HistoryInit(n),
            None => return Err(unexpected("history")),
        }
    } else if same_chars(kind, "history_message") {
        if words.len() < 3 {
            return Err(unexpected("history_message"));
        }
        let index = match parse_i64(&words[2]) {
            Some(n) => n,
            None => return Err(unexpected("history_message")),
        };
        match Message::try_parse(&words, 3) {
            Ok(m) => InternalReply::HistoryMessage(index, m),
            Err(e) => return Err(e),
        }
    } else {
        return Err(unexpected("unknown kind"));
    };
    Ok((tag, body))
}


/// `a`, a space, then `b`.
pub open spec fn with_space(a: Seq<char>, b: Seq<char>) -> Seq<char> {
    a + seq![' '] + b
}

/// A reply that fits on one line (any but a history), with valid fields.
pub open spec fn is_simple_reply(r: ReplyView) -> bool {
    match r {
        ReplyView::Okay | ReplyView::Pong | ReplyView::Number(_) => true,
        ReplyView::Error(e) => is_line(e),
        ReplyView::Name(n) => is_word(n),
        ReplyView::List(ws) => all_words(ws) && ws.len() <= i64::MAX,
        ReplyView::Message(m) => message_view_valid(m),
        _ => false,
    }
}

/// The line that a server sends for the simple reply `r` under `tag`,
/// without its line end.
pub open spec fn reply_text(tag: Seq<char>, r: ReplyView) -> Seq<char> {
    match r {
        ReplyView::Okay => with_space(tag, "ok"@),
        ReplyView::Pong => with_space(tag, "pong"@),
        ReplyView::Number(n) => with_space(with_space(tag, "number"@), int_text(n as int)),
        ReplyView::Error(e) => with_space(with_space(tag, "error"@), e),
        ReplyView::Name(n) => with_space(with_space(tag, "name"@), n),
        ReplyView::List(ws) => {
            let head = with_space(with_space(tag, "list"@), int_text(ws.len() as int));
            if ws.len() == 0 {
                head
            } else {
                with_space(head, join_spaces(ws))
            }
        },
        ReplyView::Message(m) => with_space(with_space(tag, "message"@), message_text(m)),
        _ => tag,
    }
}

proof fn lemma_reply_kinds()
    ensures
        is_word("ok"@),
        is_word("pong"@),
        is_word("number"@),
        is_word("error"@),
        is_word("name"@),
        is_word("list"@),
        is_word("message"@),
        "message"@ != "ok"@ && "message"@ != "pong"@ && "message"@ != "number"@
            && "message"@ != "error"@ && "message"@ != "name"@ && "message"@ != "list"@,
        "pong"@ != "ok"@,
        "number"@ != "ok"@ && "number"@ != "pong"@,
        "error"@ != "ok"@ && "error"@ != "pong"@ && "error"@ != "number"@,
        "name"@ != "ok"@ && "name"@ != "pong"@ && "name"@ != "number"@ && "name"@ != "error"@,
        "list"@ != "ok"@ && "list"@ != "pong"@ && "list"@ != "number"@ && "list"@ != "error"@
            && "list"@ != "name"@,
{
    reveal_strlit("ok");
    reveal_strlit("pong");
    reveal_strlit("number");
    reveal_strlit("error");
    reveal_strlit("name");
    reveal_strlit("list");
    reveal_strlit("message");
    assert("message"@.len() == 7);
    assert("ok"@.len() == 2 && "pong"@.len() == 4 && "number"@.len() == 6);
    assert("error"@.len() == 5 && "name"@.len() == 4 && "list"@.len() == 4);
    assert("pong"@[0] != "name"@[0] && "pong"@[0] != "list"@[0] && "name"@[0] != "list"@[0]);
}

/// The tokens of `tag kind rest`, for words `tag` and `kind`.
proof fn lemma_head(tag: Seq<char>, kind: Seq<char>, rest: Seq<char>)
    requires
        is_word(tag),
        is_word(kind),
    ensures
        split_spaces(with_space(with_space(tag, kind), rest)) == seq![tag, kind] + split_spaces(rest),
{
    lemma_split_word(tag);
    lemma_split_word(kind);
    lemma_split_concat(tag, kind);
    lemma_split_concat(with_space(tag, kind), rest);
}

/// The tokens of `tag kind`, for words `tag` and `kind`.
proof fn lemma_two(tag: Seq<char>, kind: Seq<char>)
    requires
        is_word(tag),
        is_word(kind),
    ensures
        split_spaces(with_space(tag, kind)) == seq![tag, kind],
{
    lemma_split_word(tag);
    lemma_split_word(kind);
    lemma_split_concat(tag, kind);
}

proof fn lemma_list_tokens(tag: Seq<char>, ws: Seq<Seq<char>>)
    requires
        is_word(tag),
        all_words(ws),
        ws.len() <= i64::MAX,
    ensures
        split_spaces(reply_text(tag, ReplyView::List(ws))).len() >= 3,
        split_spaces(reply_text(tag, ReplyView::List(ws)))[0] == tag,
        split_spaces(reply_text(tag, ReplyView::List(ws)))[1] == "list"@,
        split_spaces(reply_text(tag, ReplyView::List(ws))).skip(3) == ws,
{
    lemma_reply_kinds();
    let c = int_text(ws.len() as int);
    lemma_int_text_word(ws.len() as int);
    lemma_head(tag, "list"@, c);
    lemma_split_word(c);
    let head = with_space(with_space(tag, "list"@), c);
    assert(split_spaces(head) =~= seq![tag, "list"@, c]);
    let s = reply_text(tag, ReplyView::List(ws));
    if ws.len() == 0 {
        assert(split_spaces(s).skip(3) =~= ws);
    } else {
        lemma_split_concat(head, join_spaces(ws));
        lemma_split_join_words(ws);
        assert(split_spaces(s) =~= seq![tag, "list"@, c] + ws);
        assert(split_spaces(s).skip(3) =~= ws);
    }
}

/// The parser reads the text of every reply that fits on one line back as
/// that reply, under the same tag.
#[verifier::rlimit(40)]
pub proof fn law_reply_round_trip(tag: Seq<char>, r: ReplyView)
    requires
        is_word(tag),
        is_simple_reply(r),
    ensures
        reply_line_of(reply_text(tag, r)) == Some((tag, InternalView::Normal(r))),
{
    lemma_reply_kinds();
    let s = reply_text(tag, r);
    match r {
        ReplyView::Okay => {
            lemma_two(tag, "ok"@);
        },
        ReplyView::Pong => {
            lemma_two(tag, "pong"@);
        },
        ReplyView::Number(n) => {
            let t = int_text(n as int);
            lemma_head(tag, "number"@, t);
            lemma_int_text_round_trip(n);
            lemma_int_text_word(n as int);
            lemma_split_word(t);
            assert(split_spaces(s) =~= seq![tag, "number"@, t]);
        },
        ReplyView::Error(e) => {
            lemma_head(tag, "error"@, e);
            lemma_join_split(e);
            assert(split_spaces(s).skip(2) =~= split_spaces(e));
        },
        ReplyView::Name(n) => {
            lemma_head(tag, "name"@, n);
            lemma_split_word(n);
            assert(split_spaces(s) =~= seq![tag, "name"@, n]);
        },
        ReplyView::List(ws) => {
            lemma_list_tokens(tag, ws);
        },
        ReplyView::Message(m) => {
            lemma_head(tag, "message"@, message_text(m));
            lemma_message_round_trip(m);
            assert(split_spaces(s).skip(2) =~= split_spaces(message_text(m)));
        },
        _ => {},
    }
}

} // verus!
