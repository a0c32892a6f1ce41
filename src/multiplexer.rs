//! The connection core: tag allocation, the table of pending replies,
//! reassembly of history replies, and closing.
//!
//! The multiplexer decides; it does no I/O. The caller registers a completion
//! slot of its own type `S` per command, writes the line that it gets back,
//! hands every line that the server sends to `handle_line`, and carries out
//! the event that comes back: forward a push, complete a slot with a reply, or
//! fail every slot once the connection is closed.
use vstd::prelude::*;

use crate::closereason::CloseReason;
use crate::message::{Message, MessageView};
use crate::pushmessage::{push_of, PushMessage, PushView};
use crate::reply::{messages_view, parse, reply_line_of, InternalReply, InternalView, Reply, ReplyView};
use crate::text::{
    chars_of, lemma_nat_text_word, nat_text, push_u64_text, same_chars, split_spaces,
    split_spaces_exec, string_of, token_views, extend_str,
};
use crate::word::Word;

verus! {

/// What one line from the server is.
pub enum FrameView {
    /// A pushed item.
    Push(PushView),
    /// A pushed ping, which carries nothing.
    Ping,
    /// A tagged reply or reply fragment.
    Reply(Seq<char>, InternalView),
}

/// What the line `s` (without its line end) is; `None` for a line that breaks
/// the protocol.
pub open spec fn frame_of(s: Seq<char>) -> Option<FrameView> {
    let w = split_spaces(s);
    if w[0] == "_push"@ {
        match push_of(w) {
            Some(Some(p)) => Some(FrameView::Push(p)),
            Some(None) => Some(FrameView::Ping),
            None => None,
        }
    } else {
        match reply_line_of(s) {
            Some((t, b)) => Some(FrameView::Reply(t, b)),
            None => None,
        }
    }
}

/// The state of a multiplexer, as plain values.
pub struct MuxState<S> {
    /// The number the next tag is made of.
    pub counter: u64,
    /// The tags awaiting a reply, in order of registration, with their slots.
    pub pending: Seq<(Seq<char>, S)>,
    /// A history reply being reassembled: the count announced, and the
    /// messages so far.
    pub history: Option<(i64, Seq<MessageView>)>,
    /// Why the connection was closed, once it is.
    pub closed: Option<CloseReason>,
}

/// What the caller is to do after a line was handled.
pub enum Event<S> {
    /// Nothing.
    Nothing,
    /// Forward this item to the push channel.
    Push(PushMessage),
    /// Complete this slot with this reply.
    Deliver(S, Reply),
    /// The line broke the protocol and the connection is closed for this
    /// reason: fail each of these slots with it.
    Close(CloseReason, Vec<S>),
}

/// What an `Event` holds, as plain values.
pub enum EventView<S> {
    Nothing,
    Push(PushView),
    Deliver(S, ReplyView),
    Close(Seq<S>),
}

impl<S> View for Event<S> {
    type V = EventView<S>;

    open spec fn view(&self) -> EventView<S> {
        match self {
            Event::Nothing => EventView::Nothing,
            Event::Push(p) => EventView::Push(p@),
            Event::Deliver(s, r) => EventView::Deliver(*s, r@),
            Event::Close(_, v) => EventView::Close(v@),
        }
    }
}

/// The slots of a pending table, in order.
pub open spec fn slots_of<S>(p: Seq<(Seq<char>, S)>) -> Seq<S> {
    p.map_values(|e: (Seq<char>, S)| e.1)
}

/// Whether `tag` is pending in `p`.
pub open spec fn has_tag<S>(p: Seq<(Seq<char>, S)>, tag: Seq<char>) -> bool {
    exists|i: int| 0 <= i < p.len() && p[i].0 == tag
}

/// The tags of `p` are distinct.
pub open spec fn tags_distinct<S>(p: Seq<(Seq<char>, S)>) -> bool {
    forall|i: int, j: int| 0 <= i < p.len() && 0 <= j < p.len() && i != j ==> p[i].0 != p[j].0
}

/// The position of `tag` in `p`, which holds it.
pub open spec fn tag_index<S>(p: Seq<(Seq<char>, S)>, tag: Seq<char>) -> int {
    choose|i: int| 0 <= i < p.len() && p[i].0 == tag
}

/// The tag that the counter value `n` gives.
pub open spec fn tag_text(n: u64) -> Seq<char> {
    nat_text(n as nat)
}

/// The counter after `n`, wrapping to zero.
pub open spec fn next_counter(n: u64) -> u64 {
    if n == u64::MAX {
        0
    } else {
        (n + 1) as u64
    }
}

/// Completes `tag` with `r`, if it is pending; a reply for a tag that is not
/// pending is dropped.
pub open spec fn resolve<S>(st: MuxState<S>, tag: Seq<char>, r: ReplyView) -> (MuxState<S>, EventView<S>) {
    if has_tag(st.pending, tag) {
        let i = tag_index(st.pending, tag);
        (MuxState { pending: st.pending.remove(i), ..st }, EventView::Deliver(st.pending[i].1, r))
    } else {
        (st, EventView::Nothing)
    }
}

/// The state and event after the frame `f`, on an open connection; `None`
/// where the frame breaks the protocol in this state.
pub open spec fn dispatch<S>(st: MuxState<S>, f: FrameView) -> Option<(MuxState<S>, EventView<S>)> {
    match f {
        FrameView::Push(p) => Some((st, EventView::Push(p))),
        FrameView::Ping => Some((st, EventView::Nothing)),
        FrameView::Reply(tag, InternalView::Normal(r)) => Some(resolve(st, tag, r)),
        FrameView::Reply(tag, InternalView::HistoryInit(n)) => {
            if n == 0 {
                Some(resolve(st, tag, ReplyView::History(Seq::empty())))
            } else if n < 0 || st.history is Some {
                None
            } else {
                Some((MuxState { history: Some((n, Seq::empty())), ..st }, EventView::Nothing))
            }
        },
        FrameView::Reply(tag, InternalView::HistoryMessage(i, m)) => match st.history {
            None => None,
            Some((n, buf)) => {
                if i != buf.len() {
                    None
                } else if buf.len() + 1 == n {
                    Some(resolve(MuxState { history: None, ..st }, tag, ReplyView::History(buf.push(m))))
                } else {
                    Some((MuxState { history: Some((n, buf.push(m))), ..st }, EventView::Nothing))
                }
            },
        },
    }
}

/// The connection closed by a protocol violation: every pending slot is
/// failed and the reason is an error.
pub open spec fn violated<S>(st: MuxState<S>, st2: MuxState<S>, ev: EventView<S>) -> bool {
    &&& st2.counter == st.counter
    &&& st2.pending == Seq::<(Seq<char>, S)>::empty()
    &&& st2.history is None
    &&& st2.closed matches Some(CloseReason::Error(_))
    &&& ev == EventView::Close(slots_of(st.pending))
}

/// Handling the line `s` takes the state `st` to `st2` with the event `ev`.
/// Once closed, lines are ignored.
pub open spec fn line_step<S>(st: MuxState<S>, s: Seq<char>, st2: MuxState<S>, ev: EventView<S>) -> bool {
    if st.closed is Some {
        st2 == st && ev == EventView::<S>::Nothing
    } else {
        match frame_of(s) {
            None => violated(st, st2, ev),
            Some(f) => match dispatch(st, f) {
                Some((s2, e)) => st2 == s2 && ev == e,
                None => violated(st, st2, ev),
            },
        }
    }
}

/// The invariant of a multiplexer's state.
pub open spec fn state_wf<S>(st: MuxState<S>) -> bool {
    &&& tags_distinct(st.pending)
    &&& (st.closed is Some ==> st.pending.len() == 0)
    &&& (st.history matches Some((n, buf)) ==> 0 < n && buf.len() < n)
}

/// The state that a command's submission leads to, and the tag it got:
/// `None` where the connection is closed or the tag is still pending.
pub open spec fn submit_step<S>(st: MuxState<S>, slot: S) -> (MuxState<S>, Option<Seq<char>>) {
    if st.closed is Some {
        (st, None)
    } else {
        let tag = tag_text(st.counter);
        let st1 = MuxState { counter: next_counter(st.counter), ..st };
        if has_tag(st.pending, tag) {
            (st1, None)
        } else {
            (MuxState { pending: st.pending.push((tag, slot)), ..st1 }, Some(tag))
        }
    }
}

/// Why a command could not be registered.
#[derive(Debug)]
pub enum SubmitError {
    /// The connection is closed, for this reason.
    Closed(CloseReason),
    /// The tag counter came round to a tag that still awaits its reply.
    TagInUse(Word),
}

/// The multiplexer of one connection. `S` is the caller's completion slot.
pub struct Multiplexer<S> {
    tag_counter: u64,
    pending: Vec<(Word, S)>,
    history: Option<(i64, Vec<Message>)>,
    close_reason: Option<CloseReason>,
}

impl<S> View for Multiplexer<S> {
    type V = MuxState<S>;

    closed spec fn view(&self) -> MuxState<S> {
        MuxState {
            counter: self.tag_counter,
            pending: self.pending@.map_values(|e: (Word, S)| (e.0@, e.1)),
            history: match self.history {
                Some((n, v)) => Some((n, messages_view(v@))),
                None => None,
            },
            closed: self.close_reason,
        }
    }
}

impl<S> Multiplexer<S> {
    /// The invariant of the multiplexer.
    pub open spec fn wf(&self) -> bool {
        state_wf(self@)
    }

    /// A multiplexer with nothing pending, on an open connection.
    pub fn new() -> (r: Self)
        ensures
            r.wf(),
            r@.counter == 0,
            r@.pending.len() == 0,
            r@.history is None,
            r@.closed is None,
    {
        let r = Multiplexer { tag_counter: 0, pending: Vec::new(), history: None, close_reason: None };
        assert(r@.pending =~= Seq::<(Seq<char>, S)>::empty());
        r
    }

    /// A copy of the reason the connection was closed, or `None` while it is
    /// open.
    pub fn close_reason(&self) -> (r: Option<CloseReason>)
        ensures
            r is Some <==> self@.closed is Some,
            r matches Some(c) ==> c.same_as(&self@.closed->Some_0),
    {
        match &self.close_reason {
            Some(c) => Some(c.clone()),
            None => None,
        }
    }

    /// Whether the connection is closed.
    pub fn is_closed(&self) -> (r: bool)
        ensures
            r == self@.closed is Some,
    {
        self.close_reason.is_some()
    }

    /// The position of `tag` among the pending tags.
    fn find(&self, tag: &Word) -> (r: Option<usize>)
        requires
            self.wf(),
        ensures
            r is Some <==> has_tag(self@.pending, tag@),
            r matches Some(i) ==> i == tag_index(self@.pending, tag@) && i < self@.pending.len(),
    {
        let ghost p = self@.pending;
        let tag_chars = chars_of(tag.as_str());
        let mut i: usize = 0;
        while i < self.pending.len()
            invariant
                i <= self.pending.len(),
                p == self@.pending,
                p.len() == self.pending.len(),
                tags_distinct(p),
                tag_chars@ == tag@,
                forall|j: int| 0 <= j < i ==> p[j].0 != tag@,
            decreases self.pending.len() - i,
        {
            assert(p[i as int].0 == self.pending@[i as int].0@);
            let t = chars_of(self.pending[i].0.as_str());
            if t.len() == tag_chars.len() && equal_chars(&t, &tag_chars) {
                proof {
                    assert(t@ =~= tag_chars@);
                    assert(p[i as int].0 == tag@);
                    let k = tag_index(p, tag@);
                    assert(0 <= k < p.len() && p[k].0 == tag@);
                    assert(k == i);
                }
                return Some(i);
            }
            i = i + 1;
        }
        None
    }

    /// Registers `slot` under a fresh tag and returns the tag. Fails, leaving
    /// the table as it was, once the connection is closed, or where the
    /// counter has come round to a tag that is still pending.
    pub fn register(&mut self, slot: S) -> (r: Result<Word, SubmitError>)
        requires
            old(self).wf(),
        ensures
            final(self).wf(),
            final(self)@ == submit_step(old(self)@, slot).0,
            match submit_step(old(self)@, slot).1 {
                Some(tag) => r matches Ok(t) && t@ == tag,
                None => r is Err,
            },
            old(self)@.closed is Some ==> (r matches Err(SubmitError::Closed(c)) && c.same_as(
                &old(self)@.closed->Some_0,
            )),
            old(self)@.closed is None && has_tag(old(self)@.pending, tag_text(old(self)@.counter))
                ==> (r matches Err(SubmitError::TagInUse(t)) && t@ == tag_text(old(self)@.counter)),
    {
        if let Some(c) = &self.close_reason {
            return Err(SubmitError::Closed(c.clone()));
        }
        let mut digits: Vec<char> = Vec::new();
        push_u64_text(&mut digits, self.tag_counter);
        proof {
            lemma_nat_text_word(self.tag_counter as nat);
            assert(digits@ =~= tag_text(self.tag_counter));
        }
        let tag = Word::from_chars_unchecked(&digits);
        self.tag_counter = if self.tag_counter == u64::MAX {
            0
        } else {
            self.tag_counter + 1
        };
        if self.find(&tag).is_some() {
            return Err(SubmitError::TagInUse(tag));
        }
        let ghost before = self.pending@;
        self.pending.push((tag.clone(), slot));
        proof {
            assert(self@.pending =~= before.map_values(|e: (Word, S)| (e.0@, e.1)).push(
                (tag@, slot),
            ));
        }
        Ok(tag)
    }

    /// Handles one line from the server, given without its line end.
    pub fn handle_line(&mut self, line: &str) -> (ev: Event<S>)
        requires
            old(self).wf(),
        ensures
            final(self).wf(),
            line_step(old(self)@, line@, final(self)@, ev@),
    {
        if self.close_reason.is_some() {
            return Event::Nothing;
        }
        let chars = chars_of(line);
        let words = split_spaces_exec(&chars);
        assert(token_views(words@)[0] == words@[0]@);
        if same_chars(&words[0], "_push") {
            match PushMessage::parse(line) {
                Ok(Some(p)) => Event::Push(p),
                Ok(None) => Event::Nothing,
                Err(e) => self.violation(e),
            }
        } else {
            match parse(line) {
                Ok((tag, body)) => self.dispatch(tag, body),
                Err(e) => self.violation(e),
            }
        }
    }

    /// Closes the connection for a protocol violation described by `text`.
    fn violation(&mut self, text: String) -> (ev: Event<S>)
        requires
            old(self).wf(),
            old(self)@.closed is None,
        ensures
            final(self).wf(),
            violated(old(self)@, final(self)@, ev@),
    {
        let reason = CloseReason::Error(text);
        let copy = reason.clone();
        let slots = self.close(reason);
        Event::Close(copy, slots)
    }

    /// Hands the reply `r` to the slot of `tag`, if it is pending.
    fn complete(&mut self, tag: &Word, r: Reply) -> (ev: Event<S>)
        requires
            old(self).wf(),
        ensures
            final(self).wf(),
            (final(self)@, ev@) == resolve(old(self)@, tag@, r@),
    {
        match self.find(tag) {
            Some(i) => {
                let ghost before = self@.pending;
                let (_, slot) = self.pending.remove(i);
                proof {
                    assert(self@.pending =~= before.remove(i as int));
                    let p = self@.pending;
                    assert forall|a: int, b: int|
                        0 <= a < p.len() && 0 <= b < p.len() && a != b implies p[a].0 != p[b].0 by {
                        let a2 = if a < i { a } else { a + 1 };
                        let b2 = if b < i { b } else { b + 1 };
                        assert(p[a] == before[a2]);
                        assert(p[b] == before[b2]);
                    }
                }
                Event::Deliver(slot, r)
            },
            None => Event::Nothing,
        }
    }

    /// Acts on a parsed reply line.
    fn dispatch(&mut self, tag: Word, body: InternalReply) -> (ev: Event<S>)
        requires
            old(self).wf(),
            old(self)@.closed is None,
        ensures
            final(self).wf(),
            match dispatch(old(self)@, FrameView::Reply(tag@, body@)) {
                Some((s2, e)) => final(self)@ == s2 && ev@ == e,
                None => violated(old(self)@, final(self)@, ev@),
            },
    {
        match body {
            InternalReply::Normal(r) => self.complete(&tag, r),
            InternalReply::HistoryInit(n) => {
                if n == 0 {
                    let empty: Vec<Message> = Vec::new();
                    proof {
                        assert(messages_view(empty@) =~= Seq::<MessageView>::empty());
                    }
                    self.complete(&tag, Reply::History(empty))
                } else if n < 0 || self.history.is_some() {
                    self.violation("history announced while another is open".to_owned())
                } else {
                    let empty: Vec<Message> = Vec::new();
                    proof {
                        assert(messages_view(empty@) =~= Seq::<MessageView>::empty());
                    }
                    self.history = Some((n, empty));
                    Event::Nothing
                }
            },
            InternalReply::HistoryMessage(index, m) => {
                let mut current: Option<(i64, Vec<Message>)> = None;
                std::mem::swap(&mut current, &mut self.history);
                match current {
                    None => self.violation("history message without history".to_owned()),
                    Some((n, buf)) => {
                        if index < 0 || index as u64 != buf.len() as u64 {
                            self.history = Some((n, buf));
                            self.violation("history message out of order".to_owned())
                        } else {
                            let mut buf = buf;
                            let ghost before = buf@;
                            buf.push(m);
                            proof {
                                assert(messages_view(buf@) =~= messages_view(before).push(m@));
                            }
                            if buf.len() as i64 == n {
                                self.complete(&tag, Reply::History(buf))
                            } else {
                                self.history = Some((n, buf));
                                Event::Nothing
                            }
                        }
                    },
                }
            },
        }
    }

    /// Closes the connection for `reason` and hands back every pending slot,
    /// in order of registration, to be failed with it. On a connection that
    /// is already closed this does nothing and hands back no slot.
    pub fn close(&mut self, reason: CloseReason) -> (r: Vec<S>)
        requires
            old(self).wf(),
        ensures
            final(self).wf(),
            old(self)@.closed is Some ==> final(self)@ == old(self)@ && r@.len() == 0,
            old(self)@.closed is None ==> {
                &&& final(self)@.closed == Some(reason)
                &&& final(self)@.pending == Seq::<(Seq<char>, S)>::empty()
                &&& final(self)@.history is None
                &&& final(self)@.counter == old(self)@.counter
                &&& r@ == slots_of(old(self)@.pending)
            },
    {
        if self.close_reason.is_some() {
            return Vec::new();
        }
        let mut drained: Vec<(Word, S)> = Vec::new();
        std::mem::swap(&mut drained, &mut self.pending);
        let ghost all = drained@;
        let mut slots: Vec<S> = Vec::new();
        while drained.len() > 0
            invariant
                all.len() == slots@.len() + drained@.len(),
                drained@ == all.skip(slots@.len() as int),
                slots@ == all.take(slots@.len() as int).map_values(|e: (Word, S)| e.1),
            decreases drained.len(),
        {
            let ghost k = slots@.len() as int;
            let (_, slot) = drained.remove(0);
            slots.push(slot);
            proof {
                assert(drained@ =~= all.skip(k + 1));
                assert(slots@ =~= all.take(k + 1).map_values(|e: (Word, S)| e.1));
            }
        }
        self.history = None;
        self.close_reason = Some(reason);
        proof {
            assert(all.take(all.len() as int) =~= all);
            assert(self@.pending =~= Seq::<(Seq<char>, S)>::empty());
            assert(slots@ =~= slots_of(all.map_values(|e: (Word, S)| (e.0@, e.1))));
        }
        slots
    }
}

/// Whether `a` and `b`, of equal length, hold the same characters.
fn equal_chars(a: &Vec<char>, b: &Vec<char>) -> (r: bool)
    requires
        a.len() == b.len(),
    ensures
        r == (a@ == b@),
{
    let mut i: usize = 0;
    while i < a.len()
        invariant
            i <= a.len(),
            a.len() == b.len(),
            forall|j: int| 0 <= j < i ==> a@[j] == b@[j],
        decreases a.len() - i,
    {
        if a[i] != b[i] {
            return false;
        }
        i = i + 1;
    }
    assert(a@ =~= b@);
    true
}

/// The line that carries `command` under `tag`: the tag, a space, the
/// command's text and a line end.
pub fn wire_line(tag: &Word, command: &str) -> (r: String)
    ensures
        r@ == tag@ + seq![' '] + command@ + seq!['\n'],
{
    let mut out: Vec<char> = Vec::new();
    extend_str(&mut out, tag.as_str());
    out.push(' ');
    extend_str(&mut out, command);
    out.push('\n');
    string_of(&out)
}


/// Every tag pending after `p2` was pending in `p1`.
pub open spec fn tags_within<S>(p2: Seq<(Seq<char>, S)>, p1: Seq<(Seq<char>, S)>) -> bool {
    forall|i: int| 0 <= i < p2.len() ==> has_tag(p1, #[trigger] p2[i].0)
}

proof fn lemma_remove_keeps<S>(p: Seq<(Seq<char>, S)>, k: int)
    requires
        tags_distinct(p),
        0 <= k < p.len(),
    ensures
        tags_distinct(p.remove(k)),
        tags_within(p.remove(k), p),
        !has_tag(p.remove(k), p[k].0),
{
    let q = p.remove(k);
    assert forall|a: int| 0 <= a < q.len() implies q[a] == p[if a < k { a } else { a + 1 }] by {}
    assert forall|a: int, b: int| 0 <= a < q.len() && 0 <= b < q.len() && a != b implies q[a].0 != q[b].0 by {
        assert(q[a] == p[if a < k { a } else { a + 1 }]);
        assert(q[b] == p[if b < k { b } else { b + 1 }]);
    }
    assert forall|a: int| 0 <= a < q.len() implies has_tag(p, #[trigger] q[a].0) by {
        let a2 = if a < k { a } else { a + 1 };
        assert(q[a] == p[a2]);
    }
    if has_tag(q, p[k].0) {
        let a = choose|a: int| 0 <= a < q.len() && q[a].0 == p[k].0;
        let a2 = if a < k { a } else { a + 1 };
        assert(q[a] == p[a2]);
    }
}

proof fn lemma_resolve<S>(st: MuxState<S>, tag: Seq<char>, r: ReplyView)
    requires
        state_wf(st),
    ensures
        state_wf(resolve(st, tag, r).0),
        tags_within(resolve(st, tag, r).0.pending, st.pending),
        resolve(st, tag, r).0.counter == st.counter,
        resolve(st, tag, r).0.closed == st.closed,
        resolve(st, tag, r).0.history == st.history,
        !has_tag(resolve(st, tag, r).0.pending, tag),
{
    if has_tag(st.pending, tag) {
        let k = tag_index(st.pending, tag);
        lemma_remove_keeps(st.pending, k);
    } else {
        assert forall|i: int| 0 <= i < st.pending.len() implies has_tag(st.pending, #[trigger] st.pending[i].0) by {}
    }
}

/// A tag that a registration hands out was not pending before; afterwards it
/// is pending exactly once, as the last entry, and all pending tags are
/// still distinct.
pub proof fn law_register_fresh<S>(st: MuxState<S>, slot: S)
    requires
        state_wf(st),
        submit_step(st, slot).1 is Some,
    ensures
        !has_tag(st.pending, submit_step(st, slot).1->Some_0),
        state_wf(submit_step(st, slot).0),
        ({
            let p = submit_step(st, slot).0.pending;
            let t = submit_step(st, slot).1->Some_0;
            &&& p.len() == st.pending.len() + 1
            &&& p[p.len() - 1] == (t, slot)
            &&& forall|i: int| 0 <= i < p.len() - 1 ==> p[i].0 != t
        }),
{
    let t = tag_text(st.counter);
    let p = st.pending.push((t, slot));
    assert forall|i: int| 0 <= i < p.len() - 1 implies p[i].0 != t by {
        assert(p[i] == st.pending[i]);
    }
}

/// Lines from the server never add a pending tag, and keep the invariant.
pub proof fn law_lines_add_no_tag<S>(st: MuxState<S>, s: Seq<char>, st2: MuxState<S>, ev: EventView<S>)
    requires
        state_wf(st),
        line_step(st, s, st2, ev),
    ensures
        state_wf(st2),
        tags_within(st2.pending, st.pending),
{
    if st.closed is Some {
        assert forall|i: int| 0 <= i < st.pending.len() implies has_tag(st.pending, #[trigger] st.pending[i].0) by {}
    } else {
        match frame_of(s) {
            None => {},
            Some(f) => match dispatch(st, f) {
                None => {},
                Some((s2, e)) => {
                    assert forall|i: int| 0 <= i < st.pending.len() implies has_tag(st.pending, #[trigger] st.pending[i].0) by {}
                    match f {
                        FrameView::Reply(tag, InternalView::Normal(r)) => {
                            lemma_resolve(st, tag, r);
                        },
                        FrameView::Reply(tag, InternalView::HistoryInit(n)) => {
                            if n == 0 {
                                lemma_resolve(st, tag, ReplyView::History(Seq::empty()));
                            }
                        },
                        FrameView::Reply(tag, InternalView::HistoryMessage(i, m)) => {
                            let (n, buf) = st.history->Some_0;
                            if buf.len() + 1 == n {
                                let st1 = MuxState { history: None, ..st };
                                lemma_resolve(st1, tag, ReplyView::History(buf.push(m)));
                            }
                        },
                        _ => {},
                    }
                },
            },
        }
    }
}

/// A pushed ping changes nothing: neither the state nor what any caller
/// receives.
pub proof fn law_ping_ignored<S>(st: MuxState<S>, s: Seq<char>, st2: MuxState<S>, ev: EventView<S>)
    requires
        frame_of(s) == Some(FrameView::Ping),
        line_step(st, s, st2, ev),
    ensures
        st2 == st,
        ev == EventView::<S>::Nothing,
{
}

/// The line `_push ping` is a pushed ping.
pub proof fn law_push_ping_line()
    ensures
        frame_of("_push ping"@) == Some(FrameView::Ping),
{
    reveal_strlit("_push ping");
    reveal_strlit("_push");
    reveal_strlit("ping");
    reveal_strlit("online");
    reveal_strlit("message");
    reveal_strlit("invite");
    reveal_strlit("join");
    reveal_strlit("leave");
    assert("_push ping"@ =~= "_push"@ + seq![' '] + "ping"@);
    crate::text::lemma_split_concat("_push"@, "ping"@);
    crate::text::lemma_split_word("_push"@);
    crate::text::lemma_split_word("ping"@);
    let w = split_spaces("_push ping"@);
    assert(w =~= seq!["_push"@, "ping"@]);
    assert(w[1] != "online"@ && w[1] != "message"@ && w[1] != "invite"@);
    assert(w[1] != "join"@ && w[1] != "leave"@);
}

/// A push of a kind that the protocol does not know closes the connection
/// with an error, and every pending caller is failed.
pub proof fn law_unknown_push_closes<S>(st: MuxState<S>, s: Seq<char>, st2: MuxState<S>, ev: EventView<S>)
    requires
        st.closed is None,
        split_spaces(s).len() >= 2,
        split_spaces(s)[0] == "_push"@,
        split_spaces(s)[1] != "online"@,
        split_spaces(s)[1] != "message"@,
        split_spaces(s)[1] != "invite"@,
        split_spaces(s)[1] != "join"@,
        split_spaces(s)[1] != "leave"@,
        split_spaces(s)[1] != "ping"@,
        line_step(st, s, st2, ev),
    ensures
        st2.closed matches Some(CloseReason::Error(_)),
        st2.pending.len() == 0,
        ev == EventView::Close(slots_of(st.pending)),
{
}

/// A history reply is reassembled: after the line `<t> history N` and the
/// lines `<t> history_message i m_i` for `i` in `0..N`, on an open connection
/// with no history under way and `t` pending, the caller of `t` receives
/// exactly one reply, `History` of the `N` messages in order, at the last of
/// these lines, and nothing before; `t` is then no longer pending and no
/// history is under way. For `N == 0` the single `history 0` line delivers the
/// empty history.
pub proof fn law_history_reassembly<S>(
    states: Seq<MuxState<S>>,
    lines: Seq<Seq<char>>,
    events: Seq<EventView<S>>,
    tag: Seq<char>,
    msgs: Seq<MessageView>,
)
    requires
        msgs.len() <= i64::MAX,
        lines.len() == msgs.len() + 1,
        states.len() == lines.len() + 1,
        events.len() == lines.len(),
        forall|i: int| 0 <= i < lines.len() ==> line_step(states[i], lines[i], states[i + 1], events[i]),
        state_wf(states[0]),
        states[0].closed is None,
        states[0].history is None,
        has_tag(states[0].pending, tag),
        frame_of(lines[0]) == Some(FrameView::Reply(tag, InternalView::HistoryInit(msgs.len() as i64))),
        forall|i: int| 0 <= i < msgs.len() ==> frame_of(#[trigger] lines[i + 1]) == Some(
            FrameView::Reply(tag, InternalView::HistoryMessage(i as i64, msgs[i])),
        ),
    ensures
        forall|i: int| 0 <= i < msgs.len() ==> #[trigger] events[i] == EventView::<S>::Nothing,
        events[msgs.len() as int] == EventView::Deliver(
            states[0].pending[tag_index(states[0].pending, tag)].1,
            ReplyView::History(msgs),
        ),
        states[msgs.len() + 1int].pending == states[0].pending.remove(tag_index(states[0].pending, tag)),
        !has_tag(states[msgs.len() + 1int].pending, tag),
        states[msgs.len() + 1int].history is None,
{
    let n = msgs.len() as int;
    let st0 = states[0];
    if n == 0 {
        assert(msgs =~= Seq::<MessageView>::empty());
        lemma_resolve(st0, tag, ReplyView::History(Seq::empty()));
    } else {
        lemma_history_prefix(states, lines, events, tag, msgs, n - 1);
        let stk = states[n];
        assert(line_step(stk, lines[n], states[n + 1], events[n]));
        assert(frame_of(lines[n]) == Some(
            FrameView::Reply(tag, InternalView::HistoryMessage((n - 1) as i64, msgs[n - 1])),
        ));
        assert(msgs.take(n - 1).push(msgs[n - 1]) =~= msgs);
        lemma_resolve(with_history(st0, None), tag, ReplyView::History(msgs));
    }
}

/// After the announcement and the first `k` messages of a history of `n > k`
/// messages, the history holds those `k` and nothing was delivered.
proof fn lemma_history_prefix<S>(
    states: Seq<MuxState<S>>,
    lines: Seq<Seq<char>>,
    events: Seq<EventView<S>>,
    tag: Seq<char>,
    msgs: Seq<MessageView>,
    k: int,
)
    requires
        msgs.len() <= i64::MAX,
        0 <= k < msgs.len(),
        lines.len() == msgs.len() + 1,
        states.len() == lines.len() + 1,
        events.len() == lines.len(),
        forall|i: int| 0 <= i < lines.len() ==> line_step(states[i], lines[i], states[i + 1], events[i]),
        states[0].closed is None,
        states[0].history is None,
        frame_of(lines[0]) == Some(FrameView::Reply(tag, InternalView::HistoryInit(msgs.len() as i64))),
        forall|i: int| 0 <= i < msgs.len() ==> frame_of(#[trigger] lines[i + 1]) == Some(
            FrameView::Reply(tag, InternalView::HistoryMessage(i as i64, msgs[i])),
        ),
    ensures
        states[k + 1] == with_history(states[0], Some((msgs.len() as i64, msgs.take(k)))),
        forall|i: int| 0 <= i <= k ==> #[trigger] events[i] == EventView::<S>::Nothing,
    decreases k,
{
    let n = msgs.len() as int;
    if k == 0 {
        assert(line_step(states[0], lines[0], states[1], events[0]));
        assert(msgs.take(0) =~= Seq::<MessageView>::empty());
    } else {
        lemma_history_prefix(states, lines, events, tag, msgs, k - 1);
        assert(line_step(states[k], lines[k], states[k + 1], events[k]));
        assert(frame_of(lines[k]) == Some(
            FrameView::Reply(tag, InternalView::HistoryMessage((k - 1) as i64, msgs[k - 1])),
        ));
        assert(msgs.take(k - 1).push(msgs[k - 1]) =~= msgs.take(k));
    }
}

/// `st` with its history state replaced by `h`.
pub open spec fn with_history<S>(st: MuxState<S>, h: Option<(i64, Seq<MessageView>)>) -> MuxState<S> {
    MuxState { history: h, ..st }
}

} // verus!
