//! Waiting on one session: the decisions of the long-poll wait and of the
//! streaming wait. The daemon owns the loop (it subscribes, times out and
//! sends); each function here takes what happened and says what to answer
//! and what the store records.

use vstd::prelude::*;
use crate::api::{ApiError, max_message_id, not_found, not_found_message, note_read, read_after, wrap_wait};
use crate::answers::answers_spec;
use crate::models::{
    ActiveWaitInfo, DaemonEvent, Message, MessageView, ScopeView, WaitOverlap, WaitResponse,
    WaitScope, messages_view,
};
use crate::store::{Store, StoreView, after, after_from, last_n, opt_str_view, session_index, transcript};
use crate::text::{opt_view, str_eq};
use crate::waits::{
    OverlapView, WaitInfoView, WaitView, info_of, infos_view, live, overlap_spec, overlaps_view,
    scope_eq, scopes_overlap,
};
use crate::clock::now_micros;

verus! {

broadcast use vstd::string::group_string_axioms;

/// How long a wait lasts when the request names no timeout, in seconds.
pub const DEFAULT_WAIT_SECS: u64 = 60;

/// How long a wait may block: `timeout_secs` seconds, and without limit
/// for 0 (`--timeout 0` waits indefinitely).
pub fn time_limit(timeout_secs: u64) -> (r: Option<u64>)
    ensures
        r == if timeout_secs == 0 { None } else { Some(timeout_secs) },
{
    if timeout_secs == 0 {
        None
    } else {
        Some(timeout_secs)
    }
}

/// What a waiter takes from the broadcast channel.
#[derive(Debug, Clone)]
pub enum Received {
    Event(DaemonEvent),
    /// The receiver fell behind and events were dropped.
    Lagged,
    /// The channel is closed: the daemon is shutting down.
    Closed,
}

/// The parameters of a wait on one session, with their defaults applied.
#[derive(Debug, Clone)]
pub struct SessionWait {
    pub session_id: String,
    /// Only messages with a higher id count.
    pub since: u64,
    pub timeout_secs: u64,
    /// At most this many messages (never 0).
    pub limit: Option<usize>,
    /// Only messages from this sender count.
    pub from: Option<String>,
    /// Who waits, as the wait registry reports it.
    pub identity: String,
    /// Only messages that answer this request count.
    pub reply_to: Option<u64>,
    /// The reader whose read receipt rises with what is delivered.
    pub reader: Option<String>,
}

impl SessionWait {
    /// A wait with the defaults applied: since 0, a 60 second timeout, no
    /// limit for a limit of 0, and the identity `unknown`.
    pub fn new(
        session_id: String,
        since: Option<u64>,
        timeout_secs: Option<u64>,
        limit: Option<usize>,
        from: Option<String>,
        identity: Option<String>,
        reply_to: Option<u64>,
        reader: Option<String>,
    ) -> (r: SessionWait)
        ensures
            r.session_id == session_id,
            r.since == (match since { Some(s) => s, None => 0 }),
            r.timeout_secs == (match timeout_secs { Some(t) => t, None => DEFAULT_WAIT_SECS }),
            r.limit == (match limit { Some(l) => if l > 0 { Some(l) } else { None }, None => None }),
            r.from == from,
            r.identity@ == (match identity { Some(i) => i@, None => "unknown"@ }),
            r.reply_to == reply_to,
            r.reader == reader,
    {
        proof {
            reveal_strlit("unknown");
        }
        let limit = match limit {
            Some(l) => if l > 0 { Some(l) } else { None },
            None => None,
        };
        let identity = match identity {
            Some(i) => i,
            None => "unknown".to_string(),
        };
        SessionWait {
            session_id,
            since: match since { Some(s) => s, None => 0 },
            timeout_secs: match timeout_secs { Some(t) => t, None => DEFAULT_WAIT_SECS },
            limit,
            from,
            identity,
            reply_to,
            reader,
        }
    }
}

/// The messages a wait delivers from the store: those after `since`, from
/// the sender asked for, the newest `limit` of them.
pub open spec fn wait_messages(st: StoreView, w: SessionWait) -> Seq<MessageView> {
    let f = after_from(transcript(st, w.session_id@), w.since, opt_view(w.from));
    match w.limit {
        Some(l) => last_n(f, l as nat),
        None => f,
    }
}

/// Whether the session is known and closed.
pub open spec fn session_closed(st: StoreView, sid: Seq<char>) -> bool {
    match session_index(st.sessions, sid) {
        Some(i) => st.sessions[i].session.closed,
        None => false,
    }
}

/// Whether `r` is the wait answer with these messages and flags, whose
/// cursor is the highest id among the messages.
pub open spec fn answers_with(
    r: WaitResponse,
    msgs: Seq<MessageView>,
    timeout: bool,
    timeout_after: Option<u64>,
    closed: bool,
    overlaps: Seq<OverlapView>,
) -> bool {
    &&& messages_view(r.messages@) == msgs
    &&& r.timeout == timeout
    &&& r.timeout_after == timeout_after
    &&& r.closed == closed
    &&& r.cursor == max_message_id(msgs)
    &&& overlaps_view(r.overlaps@) == overlaps
}

/// Whether a message that arrives during the wait satisfies it: a higher id
/// than `since`, the sender asked for, and, with `reply_to`, an answer to
/// that request.
pub open spec fn wanted(st: StoreView, w: SessionWait, m: MessageView) -> bool {
    &&& m.id > w.since
    &&& match w.from {
        Some(f) => m.sender == f@,
        None => true,
    }
    &&& match w.reply_to {
        Some(t) => answers_spec(after(transcript(st, w.session_id@), 0), m.id, t),
        None => true,
    }
}

/// Whether the wait asks for more than one message.
pub open spec fn wants_several(w: SessionWait) -> bool {
    match w.limit {
        Some(l) => l > 1,
        None => false,
    }
}

/// An answer with no message.
fn finished(timeout: bool, timeout_after: Option<u64>, closed: bool) -> (r: WaitResponse)
    ensures
        answers_with(r, Seq::empty(), timeout, timeout_after, closed, Seq::empty()),
{
    let r = wrap_wait(Vec::new(), timeout, timeout_after, closed, Vec::new());
    assert(messages_view(r.messages@) =~= Seq::<MessageView>::empty());
    assert(overlaps_view(r.overlaps@) =~= Seq::<OverlapView>::empty());
    r
}

/// The messages the wait delivers from the store.
fn fetch(store: &Store, w: &SessionWait) -> (r: Vec<Message>)
    requires
        store.wf(),
    ensures
        messages_view(r@) == wait_messages(store@, *w),
{
    let from: Option<&str> = match &w.from {
        Some(f) => Some(f.as_str()),
        None => None,
    };
    assert(opt_str_view(from) == opt_view(w.from));
    store.get_messages_filtered(w.session_id.as_str(), w.since, w.limit, from)
}

/// Whether `m` satisfies the wait.
fn is_wanted(store: &Store, w: &SessionWait, m: &Message) -> (r: bool)
    requires
        store.wf(),
    ensures
        r == wanted(store@, *w, m@),
{
    if m.id <= w.since {
        return false;
    }
    match &w.from {
        Some(f) => {
            if !str_eq(m.sender.as_str(), f.as_str()) {
                return false;
            }
        },
        None => {},
    }
    match w.reply_to {
        Some(t) => store.message_answers(w.session_id.as_str(), m, t),
        None => true,
    }
}

/// What a long-poll wait does before it blocks.
#[derive(Debug)]
pub enum WaitCheck {
    /// Answer at once.
    Answer(WaitResponse),
    NotFound(ApiError),
    /// Nothing to deliver yet: block on the session's events.
    Block,
}

/// The first check of a long-poll wait: messages already there are
/// answered at once (and read by the reader); otherwise a closed session
/// answers closed, an unknown one 404, and an open one blocks.
pub fn wait_check(store: &mut Store, w: &SessionWait, overlaps: Vec<WaitOverlap>) -> (r: WaitCheck)
    requires
        old(store).wf(),
    ensures
        final(store).wf(),
        if wait_messages(old(store)@, *w).len() > 0 {
            &&& r matches WaitCheck::Answer(resp) && answers_with(
                resp,
                wait_messages(old(store)@, *w),
                false,
                None,
                session_closed(old(store)@, w.session_id@),
                overlaps_view(overlaps@),
            )
            &&& final(store)@ == read_after(old(store)@, w.session_id@, opt_view(w.reader), wait_messages(old(store)@, *w))
        } else {
            &&& final(store)@ == old(store)@
            &&& match session_index(old(store)@.sessions, w.session_id@) {
                None => r matches WaitCheck::NotFound(e) && e.status == 404 && e.error@ == not_found_message(w.session_id@),
                Some(i) => if old(store)@.sessions[i].session.closed {
                    r matches WaitCheck::Answer(resp) && answers_with(resp, Seq::empty(), false, None, true, overlaps_view(overlaps@))
                } else {
                    r is Block
                },
            }
        },
{
    let session = store.get_session(w.session_id.as_str());
    let is_closed = match &session {
        Some(s) => s.closed,
        None => false,
    };
    let existing = fetch(store, w);
    if existing.len() > 0 {
        note_read(store, w.session_id.as_str(), &w.reader, &existing);
        return WaitCheck::Answer(wrap_wait(existing, false, None, is_closed, overlaps));
    }
    assert(messages_view(existing@) =~= Seq::<MessageView>::empty());
    match session {
        Some(s) => {
            if s.closed {
                WaitCheck::Answer(wrap_wait(existing, false, None, true, overlaps))
            } else {
                WaitCheck::Block
            }
        },
        None => WaitCheck::NotFound(not_found(w.session_id.as_str())),
    }
}

/// The check a long-poll wait repeats once it has subscribed, for what
/// arrived in between: a closed session answers closed; messages already
/// there are answered (and read); otherwise it blocks.
pub fn wait_recheck(store: &mut Store, w: &SessionWait, overlaps: Vec<WaitOverlap>) -> (r: WaitCheck)
    requires
        old(store).wf(),
    ensures
        final(store).wf(),
        if session_closed(old(store)@, w.session_id@) {
            &&& r matches WaitCheck::Answer(resp) && answers_with(resp, Seq::empty(), false, None, true, overlaps_view(overlaps@))
            &&& final(store)@ == old(store)@
        } else if wait_messages(old(store)@, *w).len() > 0 {
            &&& r matches WaitCheck::Answer(resp) && answers_with(
                resp,
                wait_messages(old(store)@, *w),
                false,
                None,
                false,
                overlaps_view(overlaps@),
            )
            &&& final(store)@ == read_after(old(store)@, w.session_id@, opt_view(w.reader), wait_messages(old(store)@, *w))
        } else {
            r is Block && final(store)@ == old(store)@
        },
{
    let closed = match store.get_session(w.session_id.as_str()) {
        Some(s) => s.closed,
        None => false,
    };
    if closed {
        let empty: Vec<Message> = Vec::new();
        assert(messages_view(empty@) =~= Seq::<MessageView>::empty());
        return WaitCheck::Answer(wrap_wait(empty, false, None, true, overlaps));
    }
    let existing = fetch(store, w);
    if existing.len() > 0 {
        note_read(store, w.session_id.as_str(), &w.reader, &existing);
        WaitCheck::Answer(wrap_wait(existing, false, None, false, overlaps))
    } else {
        WaitCheck::Block
    }
}

/// What a blocked long-poll wait does with what it received: a wanted
/// message ends it (with the newest messages when the wait asks for
/// several, else that message alone, read by the reader); a closed session
/// or channel ends it closed; anything else keeps it waiting (`None`).
pub fn wait_on_event(store: &mut Store, w: &SessionWait, got: Received) -> (r: Option<WaitResponse>)
    requires
        old(store).wf(),
    ensures
        final(store).wf(),
        match got {
            Received::Event(DaemonEvent::NewMessage(m)) => if wanted(old(store)@, *w, m@) {
                let msgs = if wants_several(*w) { wait_messages(old(store)@, *w) } else { seq![m@] };
                &&& r matches Some(resp) && answers_with(
                    resp,
                    msgs,
                    false,
                    None,
                    session_closed(old(store)@, w.session_id@),
                    Seq::empty(),
                )
                &&& final(store)@ == read_after(old(store)@, w.session_id@, opt_view(w.reader), msgs)
            } else {
                r is None && final(store)@ == old(store)@
            },
            Received::Event(DaemonEvent::SessionClosed) => {
                &&& r matches Some(resp) && answers_with(resp, Seq::empty(), false, None, true, Seq::empty())
                &&& final(store)@ == old(store)@
            },
            Received::Closed => {
                &&& r matches Some(resp) && answers_with(resp, Seq::empty(), false, None, true, Seq::empty())
                &&& final(store)@ == old(store)@
            },
            _ => r is None && final(store)@ == old(store)@,
        },
{
    match got {
        Received::Event(DaemonEvent::NewMessage(m)) => {
            if !is_wanted(store, w, &m) {
                return None;
            }
            let several = match w.limit {
                Some(l) => l > 1,
                None => false,
            };
            let msgs = if several {
                fetch(store, w)
            } else {
                let ghost mv = m@;
                let mut v: Vec<Message> = Vec::new();
                v.push(m);
                assert(messages_view(v@) =~= seq![mv]);
                v
            };
            let closed = match store.get_session(w.session_id.as_str()) {
                Some(s) => s.closed,
                None => false,
            };
            note_read(store, w.session_id.as_str(), &w.reader, &msgs);
            let empty: Vec<WaitOverlap> = Vec::new();
            let resp = wrap_wait(msgs, false, None, closed, empty);
            assert(overlaps_view(resp.overlaps@) =~= Seq::<OverlapView>::empty());
            Some(resp)
        },
        Received::Event(DaemonEvent::SessionClosed) => Some(finished(false, None, true)),
        Received::Closed => Some(finished(false, None, true)),
        _ => None,
    }
}

/// The answer of a long-poll wait that timed out: no message, the cursor
/// left at `since`.
pub fn wait_timed_out(w: &SessionWait, overlaps: Vec<WaitOverlap>) -> (r: WaitResponse)
    ensures
        r.messages@.len() == 0,
        r.timeout,
        r.timeout_after == Some(w.timeout_secs),
        !r.closed,
        r.cursor == Some(w.since),
        r.overlaps@ == overlaps@,
{
    let mut r = wrap_wait(Vec::new(), true, Some(w.timeout_secs), false, overlaps);
    r.cursor = Some(w.since);
    r
}

/// How a streaming wait opens.
#[derive(Debug)]
pub enum StreamStart {
    NotFound(ApiError),
    /// The session is closed: send these messages, then this result.
    Replay(Vec<Message>, WaitResponse),
    /// The session is open: register the wait and subscribe.
    Live,
}

/// The opening of a streaming wait: 404 for an unknown session; a closed
/// session replays its messages after the cursor and ends closed; an open
/// one goes live.
pub fn stream_start(store: &Store, w: &SessionWait) -> (r: StreamStart)
    requires
        store.wf(),
    ensures
        match session_index(store@.sessions, w.session_id@) {
            None => r matches StreamStart::NotFound(e) && e.status == 404 && e.error@ == not_found_message(w.session_id@),
            Some(i) => if store@.sessions[i].session.closed {
                r matches StreamStart::Replay(ms, resp) && messages_view(ms@) == wait_messages(store@, *w)
                    && answers_with(resp, Seq::empty(), false, None, true, Seq::empty())
            } else {
                r is Live
            },
        },
{
    match store.get_session(w.session_id.as_str()) {
        None => StreamStart::NotFound(not_found(w.session_id.as_str())),
        Some(s) => {
            if s.closed {
                StreamStart::Replay(fetch(store, w), finished(false, None, true))
            } else {
                StreamStart::Live
            }
        },
    }
}

/// The messages of `msgs` that answer the wait's request, when it names one.
pub open spec fn answering(st: StoreView, w: SessionWait, msgs: Seq<MessageView>) -> Seq<MessageView> {
    match w.reply_to {
        Some(t) => msgs.filter(|m: MessageView| answers_spec(after(transcript(st, w.session_id@), 0), m.id, t)),
        None => msgs,
    }
}

/// The messages of `msgs` that answer the wait's request.
fn keep_answering(store: &Store, w: &SessionWait, msgs: Vec<Message>) -> (r: Vec<Message>)
    requires
        store.wf(),
    ensures
        messages_view(r@) == answering(store@, *w, messages_view(msgs@)),
{
    let t = match w.reply_to {
        Some(t) => t,
        None => return msgs,
    };
    let ghost tr = after(transcript(store@, w.session_id@), 0);
    let ghost mv = messages_view(msgs@);
    let ghost keep = |m: MessageView| answers_spec(tr, m.id, t);
    let mut out: Vec<Message> = Vec::new();
    let mut i: usize = 0;
    assert(mv.take(0).filter(keep) =~= Seq::<MessageView>::empty());
    assert(messages_view(out@) =~= Seq::<MessageView>::empty());
    while i < msgs.len()
        invariant
            store.wf(),
            tr == after(transcript(store@, w.session_id@), 0),
            keep == (|m: MessageView| answers_spec(tr, m.id, t)),
            mv == messages_view(msgs@),
            0 <= i <= msgs@.len(),
            messages_view(out@) == mv.take(i as int).filter(keep),
        decreases msgs.len() - i,
    {
        reveal_with_fuel(Seq::filter, 1);
        assert(mv.take(i + 1).drop_last() =~= mv.take(i as int));
        assert(mv.take(i + 1).last() == msgs@[i as int]@);
        if store.message_answers(w.session_id.as_str(), &msgs[i], t) {
            let ghost before = out@;
            out.push(msgs[i].copy());
            assert(messages_view(out@) =~= messages_view(before).push(msgs@[i as int]@));
        }
        i += 1;
    }
    assert(mv.take(mv.len() as int) =~= mv);
    out
}

/// The backlog of a live streaming wait: the messages already there that
/// satisfy it. When there are some, they are sent, read by the reader, and
/// the stream ends with this result; otherwise the wait streams.
pub fn stream_backlog(store: &mut Store, w: &SessionWait) -> (r: Option<(Vec<Message>, WaitResponse)>)
    requires
        old(store).wf(),
    ensures
        final(store).wf(),
        answering(old(store)@, *w, wait_messages(old(store)@, *w)).len() > 0 ==> {
            let msgs = answering(old(store)@, *w, wait_messages(old(store)@, *w));
            &&& r matches Some((ms, resp)) && messages_view(ms@) == msgs
                && answers_with(resp, Seq::empty(), false, None, false, Seq::empty())
            &&& final(store)@ == read_after(old(store)@, w.session_id@, opt_view(w.reader), msgs)
        },
        answering(old(store)@, *w, wait_messages(old(store)@, *w)).len() == 0 ==> r is None && final(store)@ == old(store)@,
{
    let existing = fetch(store, w);
    let msgs = keep_answering(store, w, existing);
    if msgs.len() == 0 {
        return None;
    }
    note_read(store, w.session_id.as_str(), &w.reader, &msgs);
    Some((msgs, finished(false, None, false)))
}

/// How many messages a streaming wait delivers before it ends.
pub open spec fn stream_limit(w: SessionWait) -> nat {
    match w.limit {
        Some(l) => l as nat,
        None => 1,
    }
}

/// What a streaming wait sends.
#[derive(Debug)]
pub enum StreamItem {
    Message(Message),
    Overlap(WaitOverlap),
    /// The last event of the stream.
    Result(WaitResponse),
}

/// The remaining seconds of the first active wait of `identity` on `scope`
/// (0 when there is none).
pub open spec fn remaining_for(infos: Seq<WaitInfoView>, identity: Seq<char>, scope: ScopeView) -> int
    decreases infos.len(),
{
    if infos.len() == 0 {
        0
    } else if infos[0].identity == identity && infos[0].scope == scope {
        infos[0].remaining_secs
    } else {
        remaining_for(infos.drop_first(), identity, scope)
    }
}

/// The remaining seconds of the first of `infos` for `identity` on `scope`.
pub(crate) fn find_remaining(infos: &Vec<ActiveWaitInfo>, identity: &String, scope: &WaitScope) -> (r: i64)
    ensures
        r as int == remaining_for(infos_view(infos@), identity@, scope@),
{
    let ghost iv = infos_view(infos@);
    let mut i: usize = 0;
    assert(iv.skip(0) =~= iv);
    while i < infos.len()
        invariant
            iv == infos_view(infos@),
            0 <= i <= infos@.len(),
            remaining_for(iv, identity@, scope@) == remaining_for(iv.skip(i as int), identity@, scope@),
        decreases infos.len() - i,
    {
        assert(iv.skip(i as int)[0] == iv[i as int]);
        if str_eq(infos[i].identity.as_str(), identity.as_str()) && scope_eq(&infos[i].scope, scope) {
            return infos[i].remaining_secs;
        }
        assert(iv.skip(i as int).drop_first() =~= iv.skip(i + 1));
        i += 1;
    }
    assert(iv.skip(i as int) =~= Seq::<WaitInfoView>::empty());
    0
}

/// Whether `items` are the messages `msgs`, in order, followed by the
/// final result (not closed) when `done`.
pub open spec fn delivered(items: Seq<StreamItem>, msgs: Seq<MessageView>, done: bool) -> bool {
    &&& items.len() == msgs.len() + (if done { 1int } else { 0int })
    &&& forall|j: int| 0 <= j < msgs.len() ==> (#[trigger] items[j] matches StreamItem::Message(x) && x@ == msgs[j])
    &&& done ==> (items[msgs.len() as int] matches StreamItem::Result(resp)
        && answers_with(resp, Seq::empty(), false, None, false, Seq::empty()))
}

/// Whether `items` is the single final result, closed or not.
pub open spec fn ends_with(items: Seq<StreamItem>, closed: bool) -> bool {
    &&& items.len() == 1
    &&& items[0] matches StreamItem::Result(resp) && answers_with(resp, Seq::empty(), false, None, closed, Seq::empty())
}

/// What one step of a streaming wait does, as of `now`, with `sent`
/// messages sent so far: the items to send, the new count, whether the
/// stream ends, and the store after it.
pub open spec fn stream_step_spec(
    old_st: StoreView,
    w: SessionWait,
    sent: nat,
    got: Received,
    now: i64,
    items: Seq<StreamItem>,
    count: nat,
    done: bool,
    new_st: StoreView,
) -> bool {
    match got {
        Received::Event(DaemonEvent::NewMessage(m)) => if wanted(old_st, w, m@) {
            &&& count == sent + 1
            &&& done == (count >= stream_limit(w))
            &&& delivered(items, seq![m@], done)
            &&& new_st == read_after(old_st, w.session_id@, opt_view(w.reader), seq![m@])
        } else {
            items.len() == 0 && count == sent && !done && new_st == old_st
        },
        Received::Event(DaemonEvent::WaitUpdate { identity, scope }) => {
            &&& count == sent && !done
            &&& if overlap_spec(ScopeView::Session(w.session_id@), scope@) {
                let infos = live(old_st.waits.waits, now).map_values(|v: WaitView| info_of(v, now));
                &&& items.len() == 1
                &&& items[0] matches StreamItem::Overlap(o) && o.identity@ == identity@ && o.scope@ == scope@
                    && o.remaining_secs as int == remaining_for(infos, identity@, scope@)
                &&& new_st.sessions == old_st.sessions && new_st.reads == old_st.reads && new_st.dedup == old_st.dedup
                &&& new_st.waits.waits == live(old_st.waits.waits, now)
                &&& new_st.waits.next_id == old_st.waits.next_id
            } else {
                items.len() == 0 && new_st == old_st
            }
        },
        Received::Event(DaemonEvent::SessionClosed) => ends_with(items, true) && count == sent && done && new_st == old_st,
        Received::Closed => ends_with(items, true) && count == sent && done && new_st == old_st,
        Received::Lagged => {
            let msgs = answering(old_st, w, wait_messages(old_st, w));
            &&& count == (if sent + msgs.len() > usize::MAX { usize::MAX as nat } else { (sent + msgs.len()) as nat })
            &&& done == (count >= stream_limit(w))
            &&& delivered(items, msgs, done)
            &&& new_st == old_st
        },
        _ => items.len() == 0 && count == sent && !done && new_st == old_st,
    }
}

/// One step of a streaming wait, as of `now`: a wanted message is sent
/// (and read by the reader) and ends the stream once the limit is reached;
/// an overlapping wait is reported with its remaining time; a closed
/// session or channel ends the stream closed; after a lag the messages are
/// sent again from the store. The daemon stops when a send fails.
pub fn stream_step_at(store: &mut Store, w: &SessionWait, sent: usize, got: Received, now: i64) -> (r: (Vec<StreamItem>, usize, bool))
    requires
        old(store).wf(),
        sent < stream_limit(*w),
    ensures
        final(store).wf(),
        stream_step_spec(old(store)@, *w, sent as nat, got, now, r.0@, r.1 as nat, r.2, final(store)@),
{
    let mut items: Vec<StreamItem> = Vec::new();
    let limit: usize = match w.limit {
        Some(l) => l,
        None => 1,
    };
    match got {
        Received::Event(DaemonEvent::NewMessage(m)) => {
            if !is_wanted(store, w, &m) {
                return (items, sent, false);
            }
            let ghost mv = m@;
            let mut v: Vec<Message> = Vec::new();
            v.push(m.copy());
            assert(messages_view(v@) =~= seq![mv]);
            note_read(store, w.session_id.as_str(), &w.reader, &v);
            items.push(StreamItem::Message(m));
            let count = sent + 1;
            let done = count >= limit;
            if done {
                items.push(StreamItem::Result(finished(false, None, false)));
            }
            (items, count, done)
        },
        Received::Event(DaemonEvent::WaitUpdate { identity, scope }) => {
            let mine = WaitScope::Session(w.session_id.clone());
            if !scopes_overlap(&mine, &scope) {
                return (items, sent, false);
            }
            let infos = store.list_active_waits_at(now);
            let remaining = find_remaining(&infos, &identity, &scope);
            items.push(StreamItem::Overlap(WaitOverlap { identity, scope, remaining_secs: remaining }));
            (items, sent, false)
        },
        Received::Event(DaemonEvent::SessionClosed) => {
            items.push(StreamItem::Result(finished(false, None, true)));
            (items, sent, true)
        },
        Received::Closed => {
            items.push(StreamItem::Result(finished(false, None, true)));
            (items, sent, true)
        },
        Received::Lagged => {
            let existing = fetch(store, w);
            let msgs = keep_answering(store, w, existing);
            let ghost mv = messages_view(msgs@);
            let n = msgs.len();
            let mut i: usize = 0;
            while i < n
                invariant
                    n == msgs@.len(),
                    mv == messages_view(msgs@),
                    0 <= i <= n,
                    items@.len() == i,
                    forall|j: int| 0 <= j < i ==> (#[trigger] items@[j] matches StreamItem::Message(x) && x@ == mv[j]),
                decreases n - i,
            {
                items.push(StreamItem::Message(msgs[i].copy()));
                i += 1;
            }
            let count = sent.saturating_add(n);
            let done = count >= limit;
            if done {
                items.push(StreamItem::Result(finished(false, None, false)));
            }
            (items, count, done)
        },
        _ => (items, sent, false),
    }
}

/// One step of a streaming wait, as of the current time.
pub fn stream_step(store: &mut Store, w: &SessionWait, sent: usize, got: Received) -> (r: (Vec<StreamItem>, usize, bool))
    requires
        old(store).wf(),
        sent < stream_limit(*w),
    ensures
        final(store).wf(),
        exists|now: i64| stream_step_spec(old(store)@, *w, sent as nat, got, now, r.0@, r.1 as nat, r.2, final(store)@),
{
    let now = now_micros();
    stream_step_at(store, w, sent, got, now)
}

/// The result a streaming wait sends when it times out.
pub fn stream_timed_out(w: &SessionWait) -> (r: WaitResponse)
    ensures
        answers_with(r, Seq::empty(), true, Some(w.timeout_secs), false, Seq::empty()),
{
    finished(true, Some(w.timeout_secs), false)
}

/// Every message a wait delivers from the store comes after the wait's
/// cursor and from the sender it asked for, and there are no more of them
/// than its limit.
pub proof fn lemma_wait_delivers_after(st: StoreView, w: SessionWait)
    ensures
        forall|i: int| 0 <= i < wait_messages(st, w).len() ==> {
            &&& (#[trigger] wait_messages(st, w)[i]).id > w.since
            &&& match w.from {
                Some(f) => wait_messages(st, w)[i].sender == f@,
                None => true,
            }
        },
        match w.limit {
            Some(l) => wait_messages(st, w).len() <= l,
            None => true,
        },
{
    let f = after_from(transcript(st, w.session_id@), w.since, opt_view(w.from));
    let pred = |m: MessageView| m.id > w.since && (opt_view(w.from) is None || m.sender == opt_view(w.from)->0);
    assert forall|i: int| 0 <= i < f.len() implies pred(#[trigger] f[i]) by {
        transcript(st, w.session_id@).lemma_filter_pred(pred, i);
    }
    assert forall|i: int| 0 <= i < wait_messages(st, w).len() implies {
        &&& (#[trigger] wait_messages(st, w)[i]).id > w.since
        &&& match w.from {
            Some(fr) => wait_messages(st, w)[i].sender == fr@,
            None => true,
        }
    } by {
        match w.limit {
            Some(l) => {
                if f.len() > l {
                    assert(wait_messages(st, w)[i] == f[i + (f.len() - l)]);
                    assert(pred(f[i + (f.len() - l)]));
                } else {
                    assert(pred(f[i]));
                }
            },
            None => {
                assert(pred(f[i]));
            },
        }
    }
}

} // verus!
