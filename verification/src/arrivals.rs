//! Waiting for something new anywhere: a new incoming session (long-poll
//! and streaming) and the next message of any session. The daemon owns the
//! loop around the global channel; these functions decide.

use vstd::prelude::*;
use crate::api::{max_message_id, read_after, wrap_wait};
use crate::models::{DaemonEvent, Message, MessageView, ScopeView, WaitOverlap, WaitResponse, WaitScope, messages_view};
use crate::store::{RecordView, Store, StoreView, after, read_spec, session_index, summaries_view, summary_of, transcript};
use crate::text::{opt_view, str_eq};
use crate::waits::{OverlapView, WaitView, info_of, live, overlap_spec, overlaps_view, scopes_overlap};
use crate::waiting::{DEFAULT_WAIT_SECS, answers_with, remaining_for};
use crate::clock::now_micros;

verus! {

broadcast use vstd::string::group_string_axioms;

/// What a waiter takes from the daemon's global channel.
#[derive(Debug, Clone)]
pub enum Broadcast {
    /// An event of the session with this id.
    Event(String, DaemonEvent),
    /// The receiver fell behind and events were dropped.
    Lagged,
    /// The channel is closed: the daemon is shutting down.
    Closed,
}

/// The views of (session id, cursor) pairs.
pub open spec fn seen_view(v: Seq<(String, u64)>) -> Seq<(Seq<char>, u64)> {
    Seq::new(v.len(), |j: int| (v[j].0@, v[j].1))
}

/// The cursor `seen` holds for session `id` (the last entry for it wins).
pub open spec fn seen_get(seen: Seq<(Seq<char>, u64)>, id: Seq<char>) -> Option<u64>
    decreases seen.len(),
{
    if seen.len() == 0 {
        None
    } else if seen.last().0 == id {
        Some(seen.last().1)
    } else {
        seen_get(seen.drop_last(), id)
    }
}

/// The cursor `seen` holds for session `id`.
pub fn seen_lookup(seen: &Vec<(String, u64)>, id: &str) -> (r: Option<u64>)
    ensures
        r == seen_get(seen_view(seen@), id@),
{
    let ghost sv = seen_view(seen@);
    let mut found: Option<u64> = None;
    let mut i: usize = 0;
    while i < seen.len()
        invariant
            sv == seen_view(seen@),
            0 <= i <= seen@.len(),
            found == seen_get(sv.take(i as int), id@),
        decreases seen.len() - i,
    {
        assert(sv.take(i + 1).drop_last() =~= sv.take(i as int));
        assert(sv.take(i + 1).last() == (seen@[i as int].0@, seen@[i as int].1));
        if str_eq(seen[i].0.as_str(), id) {
            found = Some(seen[i].1);
        }
        i += 1;
    }
    assert(sv.take(sv.len() as int) =~= sv);
    found
}

/// The last message of `msgs` not sent by `me`.
pub open spec fn last_incoming(msgs: Seq<MessageView>, me: Seq<char>) -> Option<MessageView>
    decreases msgs.len(),
{
    if msgs.len() == 0 {
        None
    } else if msgs.last().sender != me {
        Some(msgs.last())
    } else {
        last_incoming(msgs.drop_last(), me)
    }
}

/// The last message of `msgs` not sent by `me`.
fn find_last_incoming(msgs: &Vec<Message>, me: &str) -> (r: Option<Message>)
    ensures
        match last_incoming(messages_view(msgs@), me@) {
            Some(m) => r matches Some(x) && x@ == m,
            None => r is None,
        },
{
    let ghost mv = messages_view(msgs@);
    let mut found: Option<Message> = None;
    let mut i: usize = 0;
    while i < msgs.len()
        invariant
            mv == messages_view(msgs@),
            0 <= i <= msgs@.len(),
            match last_incoming(mv.take(i as int), me@) {
                Some(m) => found matches Some(x) && x@ == m,
                None => found is None,
            },
        decreases msgs.len() - i,
    {
        assert(mv.take(i + 1).drop_last() =~= mv.take(i as int));
        assert(mv.take(i + 1).last() == msgs@[i as int]@);
        if !str_eq(msgs[i].sender.as_str(), me) {
            found = Some(msgs[i].copy());
        }
        i += 1;
    }
    assert(mv.take(mv.len() as int) =~= mv);
    found
}

/// What session `r` offers a waiter `me` with cursors `seen`: nothing when
/// it is closed or is the waiter's own untouched session (cursor 0);
/// otherwise its freshest unread message from another agent, marked as
/// coming from a session the waiter has engaged in (cursor 1 or more).
pub open spec fn candidate(st: StoreView, r: RecordView, me: Seq<char>, seen: Seq<(Seq<char>, u64)>) -> Option<(bool, MessageView)> {
    let known = seen_get(seen, r.session.id);
    let cursor: u64 = match known { Some(c) => c, None => 0 };
    let engaged = known is Some && cursor >= 1;
    if r.session.closed || (known is Some && !engaged) {
        None
    } else {
        match last_incoming(after(transcript(st, r.session.id), cursor), me) {
            Some(m) => Some((engaged, m)),
            None => None,
        }
    }
}

/// Whether `m` is fresher than the best found so far.
pub open spec fn improves(best: Option<(Seq<char>, MessageView)>, m: MessageView) -> bool {
    match best {
        Some(b) => m.timestamp > b.1.timestamp,
        None => true,
    }
}

/// The freshest candidate among sessions the waiter never saw, and among
/// those it engaged in, over `recs` in order (the first wins a tie).
pub open spec fn incoming_scan(st: StoreView, recs: Seq<RecordView>, me: Seq<char>, seen: Seq<(Seq<char>, u64)>) -> (
    Option<(Seq<char>, MessageView)>,
    Option<(Seq<char>, MessageView)>,
)
    decreases recs.len(),
{
    if recs.len() == 0 {
        (None, None)
    } else {
        let (fresh, engaged) = incoming_scan(st, recs.drop_last(), me, seen);
        let id = recs.last().session.id;
        match candidate(st, recs.last(), me, seen) {
            Some((true, m)) => (fresh, if improves(engaged, m) { Some((id, m)) } else { engaged }),
            Some((false, m)) => (if improves(fresh, m) { Some((id, m)) } else { fresh }, engaged),
            None => (fresh, engaged),
        }
    }
}

/// The session an incoming-session wait returns at once: the freshest
/// never-seen session with a message from another agent, else the freshest
/// engaged session with such an unread message.
pub open spec fn incoming_session(st: StoreView, me: Seq<char>, seen: Seq<(Seq<char>, u64)>) -> Option<(Seq<char>, MessageView)> {
    let (fresh, engaged) = incoming_scan(st, st.sessions, me, seen);
    match fresh {
        Some(x) => Some(x),
        None => engaged,
    }
}

/// The view of a found (session id, message) pair.
pub open spec fn pair_view(p: Option<(String, Message)>) -> Option<(Seq<char>, MessageView)> {
    match p {
        Some((s, m)) => Some((s@, m@)),
        None => None,
    }
}

/// Whether `m` is fresher than `best`.
fn is_fresher(best: &Option<(String, Message)>, m: &Message) -> (r: bool)
    ensures
        r == improves(pair_view(*best), m@),
{
    match best {
        Some((_, b)) => m.timestamp > b.timestamp,
        None => true,
    }
}

/// Finds the session a waiter `me` with cursors `seen` should be handed at
/// once (see `incoming_session`).
pub fn find_incoming_session(store: &Store, me: &str, seen: &Vec<(String, u64)>) -> (r: Option<(String, Message)>)
    requires
        store.wf(),
    ensures
        pair_view(r) == incoming_session(store@, me@, seen_view(seen@)),
{
    let sessions = store.list_sessions();
    let ghost sv = store@.sessions;
    assert(summaries_view(sessions@).len() == sessions@.len());
    let ghost sn = seen_view(seen@);
    let mut fresh: Option<(String, Message)> = None;
    let mut engaged_best: Option<(String, Message)> = None;
    let mut i: usize = 0;
    assert(sv.take(0) =~= Seq::<RecordView>::empty());
    while i < sessions.len()
        invariant
            store.wf(),
            sv == store@.sessions,
            sn == seen_view(seen@),
            summaries_view(sessions@) == sv.map_values(|x: RecordView| summary_of(x, store@.reads)),
            sessions@.len() == sv.len(),
            0 <= i <= sessions@.len(),
            pair_view(fresh) == incoming_scan(store@, sv.take(i as int), me@, sn).0,
            pair_view(engaged_best) == incoming_scan(store@, sv.take(i as int), me@, sn).1,
        decreases sessions.len() - i,
    {
        assert(sv.take(i + 1).drop_last() =~= sv.take(i as int));
        assert(sv.take(i + 1).last() == sv[i as int]);
        assert(summaries_view(sessions@)[i as int] == summary_of(sv[i as int], store@.reads));
        let s = &sessions[i];
        if !s.closed {
            let known = seen_lookup(seen, s.id.as_str());
            let cursor: u64 = match known {
                Some(c) => c,
                None => 0,
            };
            let engaged = known.is_some() && cursor >= 1;
            if !(known.is_some() && !engaged) {
                let msgs = store.get_messages_since(s.id.as_str(), cursor);
                match find_last_incoming(&msgs, me) {
                    Some(m) => {
                        if engaged {
                            if is_fresher(&engaged_best, &m) {
                                engaged_best = Some((s.id.clone(), m));
                            }
                        } else {
                            if is_fresher(&fresh, &m) {
                                fresh = Some((s.id.clone(), m));
                            }
                        }
                    },
                    None => {},
                }
            }
        }
        i += 1;
    }
    assert(sv.take(sv.len() as int) =~= sv);
    match fresh {
        Some(x) => Some(x),
        None => engaged_best,
    }
}

/// The name of session `id`, if it exists and has one.
pub open spec fn name_of(st: StoreView, id: Seq<char>) -> Option<Seq<char>> {
    match session_index(st.sessions, id) {
        Some(i) => st.sessions[i].session.name,
        None => None,
    }
}

/// The name of session `session_id`, if it exists and has one.
pub fn session_name_for(store: &Store, session_id: &str) -> (r: Option<String>)
    requires
        store.wf(),
    ensures
        opt_view(r) == name_of(store@, session_id@),
{
    match store.get_session(session_id) {
        Some(s) => s.name,
        None => None,
    }
}

/// The parameters of a wait for a new session, with their defaults.
#[derive(Debug, Clone)]
pub struct NewSessionWait {
    pub timeout_secs: u64,
    /// Who waits, as the wait registry reports it.
    pub identity: String,
    /// The waiting agent: only messages from other agents satisfy its wait,
    /// and its own creations do not.
    pub caller: Option<String>,
    /// The waiter's read cursor per session; a session with a cursor is not
    /// new to it.
    pub seen: Vec<(String, u64)>,
}

impl NewSessionWait {
    /// A wait with the defaults applied: a 60 second timeout and the
    /// identity `unknown`.
    pub fn new(timeout_secs: Option<u64>, identity: Option<String>, caller: Option<String>, seen: Vec<(String, u64)>) -> (r: NewSessionWait)
        ensures
            r.timeout_secs == (match timeout_secs { Some(t) => t, None => DEFAULT_WAIT_SECS }),
            r.identity@ == (match identity { Some(i) => i@, None => "unknown"@ }),
            r.caller == caller,
            r.seen == seen,
    {
        proof {
            reveal_strlit("unknown");
        }
        NewSessionWait {
            timeout_secs: match timeout_secs { Some(t) => t, None => DEFAULT_WAIT_SECS },
            identity: match identity { Some(i) => i, None => "unknown".to_string() },
            caller,
            seen,
        }
    }
}

/// A session handed to a waiter.
#[derive(Debug, Clone)]
pub struct Arrival {
    pub session_id: String,
    /// The session's name (the streaming wait reports it).
    pub name: Option<String>,
    /// The message that made it new, if any.
    pub message: Option<Message>,
}

/// Whether `a` hands over session `sid` with message `m` and the session's
/// name in `st`.
pub open spec fn arrival_is(a: Arrival, st: StoreView, sid: Seq<char>, m: Option<MessageView>) -> bool {
    &&& a.session_id@ == sid
    &&& opt_view(a.name) == name_of(st, sid)
    &&& match m {
        Some(mv) => a.message matches Some(x) && x@ == mv,
        None => a.message is None,
    }
}

/// The scan a new-session wait makes before it blocks, when the waiter
/// names itself: the session `incoming_session` picks, if any, with its
/// message. The long-poll wait records that the waiter has read that
/// message (`mark_read`); the streaming one does not.
pub fn new_session_check(store: &mut Store, w: &NewSessionWait, mark_read: bool) -> (r: Option<Arrival>)
    requires
        old(store).wf(),
    ensures
        final(store).wf(),
        match w.caller {
            None => r is None && final(store)@ == old(store)@,
            Some(me) => match incoming_session(old(store)@, me@, seen_view(w.seen@)) {
                None => r is None && final(store)@ == old(store)@,
                Some((sid, m)) => {
                    &&& r matches Some(a) && arrival_is(a, old(store)@, sid, Some(m))
                    &&& final(store)@ == if mark_read {
                        StoreView { reads: read_spec(old(store)@.reads, sid, me@, m.id), ..old(store)@ }
                    } else {
                        old(store)@
                    }
                },
            },
        },
{
    let me = match &w.caller {
        Some(me) => me,
        None => return None,
    };
    match find_incoming_session(store, me.as_str(), &w.seen) {
        None => None,
        Some((sid, msg)) => {
            let name = session_name_for(store, sid.as_str());
            if mark_read {
                store.record_read(sid.as_str(), me.as_str(), msg.id);
            }
            Some(Arrival { session_id: sid, name, message: Some(msg) })
        },
    }
}

/// What one event does to a new-session wait.
#[derive(Debug)]
pub enum ArrivalStep {
    /// Keep waiting.
    Continue,
    /// The wait is satisfied.
    Found(Arrival),
    /// Report an overlapping wait (streaming only) and keep waiting.
    Overlap(WaitOverlap),
    /// The channel closed.
    ChannelClosed,
}

/// What one event does to a new-session wait, as of `now`, with
/// `existing` sessions when it began.
pub open spec fn arrival_spec(
    old_st: StoreView,
    w: NewSessionWait,
    existing: nat,
    report_overlaps: bool,
    got: Broadcast,
    now: i64,
    r: ArrivalStep,
    new_st: StoreView,
) -> bool {
    match got {
        Broadcast::Event(_, DaemonEvent::SessionCreated(id)) => {
            &&& new_st == old_st
            &&& if w.caller is Some {
                r is Continue
            } else {
                let msgs = after(transcript(old_st, id@), 0);
                r matches ArrivalStep::Found(a) && arrival_is(a, old_st, id@, if msgs.len() > 0 { Some(msgs[0]) } else { None })
            }
        },
        Broadcast::Event(_, DaemonEvent::NewMessage(m)) => match w.caller {
            Some(me) => if m.sender@ == me@ {
                r is Continue && new_st == old_st
            } else {
                &&& new_st == StoreView { reads: read_spec(old_st.reads, m.session_id@, me@, m.id), ..old_st }
                &&& r matches ArrivalStep::Found(a) && arrival_is(a, new_st, m.session_id@, Some(m@))
            },
            None => {
                &&& new_st == old_st
                &&& if old_st.sessions.len() > existing {
                    r matches ArrivalStep::Found(a) && arrival_is(a, old_st, m.session_id@, Some(m@))
                } else {
                    r is Continue
                }
            },
        },
        Broadcast::Event(_, DaemonEvent::WaitUpdate { identity, scope }) => {
            if report_overlaps && overlap_spec(ScopeView::AnyNewSession, scope@) {
                let infos = live(old_st.waits.waits, now).map_values(|v: WaitView| info_of(v, now));
                &&& r matches ArrivalStep::Overlap(o) && o.identity@ == identity@ && o.scope@ == scope@
                    && o.remaining_secs as int == remaining_for(infos, identity@, scope@)
                &&& new_st.sessions == old_st.sessions && new_st.reads == old_st.reads && new_st.dedup == old_st.dedup
                &&& new_st.waits.waits == live(old_st.waits.waits, now)
                &&& new_st.waits.next_id == old_st.waits.next_id
            } else {
                r is Continue && new_st == old_st
            }
        },
        Broadcast::Closed => r is ChannelClosed && new_st == old_st,
        _ => r is Continue && new_st == old_st,
    }
}

/// One event of a new-session wait, as of `now`: without a caller, a new
/// session, or a message once there are more sessions than at the start,
/// satisfies it; with a caller, only a message from another agent does
/// (and the caller has then read it). Overlapping waits are reported when
/// `report_overlaps`.
pub fn arrival_step_at(store: &mut Store, w: &NewSessionWait, existing: usize, report_overlaps: bool, got: Broadcast, now: i64) -> (r: ArrivalStep)
    requires
        old(store).wf(),
    ensures
        final(store).wf(),
        arrival_spec(old(store)@, *w, existing as nat, report_overlaps, got, now, r, final(store)@),
{
    match got {
        Broadcast::Event(_, DaemonEvent::SessionCreated(id)) => {
            if w.caller.is_some() {
                return ArrivalStep::Continue;
            }
            let msgs = store.get_messages_since(id.as_str(), 0);
            let message = if msgs.len() > 0 {
                assert(messages_view(msgs@)[0] == msgs@[0]@);
                Some(msgs[0].copy())
            } else {
                None
            };
            let name = session_name_for(store, id.as_str());
            ArrivalStep::Found(Arrival { session_id: id, name, message })
        },
        Broadcast::Event(_, DaemonEvent::NewMessage(m)) => {
            match &w.caller {
                Some(me) => {
                    if str_eq(m.sender.as_str(), me.as_str()) {
                        return ArrivalStep::Continue;
                    }
                    store.record_read(m.session_id.as_str(), me.as_str(), m.id);
                    let name = session_name_for(store, m.session_id.as_str());
                    ArrivalStep::Found(Arrival { session_id: m.session_id.clone(), name, message: Some(m) })
                },
                None => {
                    let sessions = store.list_sessions();
                    assert(summaries_view(sessions@).len() == sessions@.len());
                    if sessions.len() > existing {
                        let name = session_name_for(store, m.session_id.as_str());
                        ArrivalStep::Found(Arrival { session_id: m.session_id.clone(), name, message: Some(m) })
                    } else {
                        ArrivalStep::Continue
                    }
                },
            }
        },
        Broadcast::Event(_, DaemonEvent::WaitUpdate { identity, scope }) => {
            let mine = WaitScope::AnyNewSession;
            if !report_overlaps || !scopes_overlap(&mine, &scope) {
                return ArrivalStep::Continue;
            }
            let infos = store.list_active_waits_at(now);
            let remaining = crate::waiting::find_remaining(&infos, &identity, &scope);
            ArrivalStep::Overlap(WaitOverlap { identity, scope, remaining_secs: remaining })
        },
        Broadcast::Closed => ArrivalStep::ChannelClosed,
        _ => ArrivalStep::Continue,
    }
}

/// One event of a new-session wait, as of the current time.
pub fn arrival_step(store: &mut Store, w: &NewSessionWait, existing: usize, report_overlaps: bool, got: Broadcast) -> (r: ArrivalStep)
    requires
        old(store).wf(),
    ensures
        final(store).wf(),
        exists|now: i64| arrival_spec(old(store)@, *w, existing as nat, report_overlaps, got, now, r, final(store)@),
{
    let now = now_micros();
    arrival_step_at(store, w, existing, report_overlaps, got, now)
}

/// One event of a wait for the next message of any session: a message ends
/// it (and the reader, when named, has read it); a closed channel ends it
/// closed; anything else keeps it waiting (`None`).
pub fn wait_all_on_event(store: &mut Store, reader: &Option<String>, got: Broadcast) -> (r: Option<WaitResponse>)
    requires
        old(store).wf(),
    ensures
        final(store).wf(),
        match got {
            Broadcast::Event(_, DaemonEvent::NewMessage(m)) => {
                &&& r matches Some(resp) && answers_with(resp, seq![m@], false, None, false, Seq::empty())
                &&& final(store)@ == read_after(old(store)@, m.session_id@, opt_view(*reader), seq![m@])
            },
            Broadcast::Closed => {
                &&& r matches Some(resp) && answers_with(resp, Seq::empty(), false, None, true, Seq::empty())
                &&& final(store)@ == old(store)@
            },
            _ => r is None && final(store)@ == old(store)@,
        },
{
    match got {
        Broadcast::Event(_, DaemonEvent::NewMessage(m)) => {
            let sid = m.session_id.clone();
            let ghost mv = m@;
            let mut v: Vec<Message> = Vec::new();
            v.push(m);
            assert(messages_view(v@) =~= seq![mv]);
            crate::api::note_read(store, sid.as_str(), reader, &v);
            let empty: Vec<WaitOverlap> = Vec::new();
            let resp = wrap_wait(v, false, None, false, empty);
            assert(overlaps_view(resp.overlaps@) =~= Seq::<OverlapView>::empty());
            Some(resp)
        },
        Broadcast::Closed => {
            let none: Vec<Message> = Vec::new();
            let empty: Vec<WaitOverlap> = Vec::new();
            let resp = wrap_wait(none, false, None, true, empty);
            assert(messages_view(resp.messages@) =~= Seq::<MessageView>::empty());
            assert(overlaps_view(resp.overlaps@) =~= Seq::<OverlapView>::empty());
            Some(resp)
        },
        _ => None,
    }
}

/// The answer of a wait for any message that timed out.
pub fn wait_all_timed_out(timeout_secs: u64) -> (r: WaitResponse)
    ensures
        answers_with(r, Seq::empty(), true, Some(timeout_secs), false, Seq::empty()),
{
    let none: Vec<Message> = Vec::new();
    let empty: Vec<WaitOverlap> = Vec::new();
    let resp = wrap_wait(none, true, Some(timeout_secs), false, empty);
    assert(messages_view(resp.messages@) =~= Seq::<MessageView>::empty());
    assert(overlaps_view(resp.overlaps@) =~= Seq::<OverlapView>::empty());
    resp
}

/// The cursor the waiter holds for `sid` (0 without one).
pub open spec fn cursor_of(seen: Seq<(Seq<char>, u64)>, sid: Seq<char>) -> u64 {
    match seen_get(seen, sid) {
        Some(c) => c,
        None => 0,
    }
}

/// Whether session `r` offers the waiter message `m`.
pub open spec fn offers(st: StoreView, r: RecordView, me: Seq<char>, seen: Seq<(Seq<char>, u64)>, m: MessageView) -> bool {
    match candidate(st, r, me, seen) {
        Some((_, x)) => x == m,
        None => false,
    }
}

/// Whether `x` is what some session of `recs` offers the waiter.
pub open spec fn offered(st: StoreView, recs: Seq<RecordView>, me: Seq<char>, seen: Seq<(Seq<char>, u64)>, x: (Seq<char>, MessageView)) -> bool {
    exists|i: int| 0 <= i < recs.len() && recs[i].session.id == x.0 && #[trigger] offers(st, recs[i], me, seen, x.1)
}

/// The last incoming message is one of the messages, from another agent,
/// and every message after it is the waiter's own.
proof fn lemma_last_incoming(msgs: Seq<MessageView>, me: Seq<char>)
    ensures
        last_incoming(msgs, me) matches Some(m) ==> m.sender != me && msgs.contains(m),
        last_incoming(msgs, me) matches Some(m) ==> exists|k: int| 0 <= k < msgs.len() && msgs[k] == m
            && forall|j: int| k < j < msgs.len() ==> (#[trigger] msgs[j]).sender == me,
    decreases msgs.len(),
{
    if msgs.len() > 0 && msgs.last().sender == me {
        lemma_last_incoming(msgs.drop_last(), me);
        if let Some(m) = last_incoming(msgs.drop_last(), me) {
            let k = choose|k: int| 0 <= k < msgs.drop_last().len() && msgs.drop_last()[k] == m
                && forall|j: int| k < j < msgs.drop_last().len() ==> (#[trigger] msgs.drop_last()[j]).sender == me;
            assert(msgs[k] == m);
            assert forall|j: int| k < j < msgs.len() implies (#[trigger] msgs[j]).sender == me by {
                if j < msgs.len() - 1 {
                    assert(msgs.drop_last()[j] == msgs[j]);
                }
            }
        }
    } else if msgs.len() > 0 {
        assert(msgs[msgs.len() - 1] == msgs.last());
    }
}

/// A message from another agent followed only by the waiter's own is the
/// last incoming one.
proof fn lemma_last_incoming_at(msgs: Seq<MessageView>, me: Seq<char>, k: int)
    requires
        0 <= k < msgs.len(),
        msgs[k].sender != me,
        forall|j: int| k < j < msgs.len() ==> (#[trigger] msgs[j]).sender == me,
    ensures
        last_incoming(msgs, me) == Some(msgs[k]),
    decreases msgs.len(),
{
    if k < msgs.len() - 1 {
        assert(msgs[msgs.len() - 1] == msgs.last());
        assert forall|j: int| k < j < msgs.drop_last().len() implies (#[trigger] msgs.drop_last()[j]).sender == me by {
            assert(msgs.drop_last()[j] == msgs[j]);
        }
        lemma_last_incoming_at(msgs.drop_last(), me, k);
        assert(msgs.drop_last()[k] == msgs[k]);
    } else {
        assert(msgs[k] == msgs.last());
    }
}

/// The fresh candidate the scan keeps is at least as recent as what every
/// never-seen session among `recs` offers.
proof fn lemma_scan_freshest(st: StoreView, recs: Seq<RecordView>, me: Seq<char>, seen: Seq<(Seq<char>, u64)>, i: int, x: MessageView)
    requires
        0 <= i < recs.len(),
        candidate(st, recs[i], me, seen) == Some((false, x)),
    ensures
        incoming_scan(st, recs, me, seen).0 matches Some(b) && b.1.timestamp >= x.timestamp,
    decreases recs.len(),
{
    let prev = recs.drop_last();
    if i < recs.len() - 1 {
        assert(prev[i] == recs[i]);
        lemma_scan_freshest(st, prev, me, seen, i, x);
    } else {
        assert(recs[i] == recs.last());
    }
}

/// What the scan keeps is always something a session offered.
proof fn lemma_scan_offered(st: StoreView, recs: Seq<RecordView>, me: Seq<char>, seen: Seq<(Seq<char>, u64)>)
    ensures
        incoming_scan(st, recs, me, seen).0 matches Some(x) ==> offered(st, recs, me, seen, x),
        incoming_scan(st, recs, me, seen).1 matches Some(x) ==> offered(st, recs, me, seen, x),
    decreases recs.len(),
{
    if recs.len() > 0 {
        let prev = recs.drop_last();
        lemma_scan_offered(st, prev, me, seen);
        let last = recs.len() - 1;
        assert(recs[last] == recs.last());
        assert forall|x: (Seq<char>, MessageView)| offered(st, prev, me, seen, x) implies offered(st, recs, me, seen, x) by {
            let i = choose|i: int| 0 <= i < prev.len() && prev[i].session.id == x.0 && #[trigger] offers(st, prev[i], me, seen, x.1);
            assert(recs[i] == prev[i]);
        }
        if let Some((e, m)) = candidate(st, recs.last(), me, seen) {
            let x = (recs.last().session.id, m);
            assert(recs[last].session.id == x.0);
            assert(offers(st, recs[last], me, seen, x.1));
            assert(offered(st, recs, me, seen, x));
        }
    }
}

/// A new-session wait is never handed a closed session, a session the
/// waiter made and never used (cursor 0), a message the waiter sent, or a
/// message it has already read.
pub proof fn lemma_incoming_is_unread_and_foreign(st: StoreView, me: Seq<char>, seen: Seq<(Seq<char>, u64)>)
    ensures
        incoming_session(st, me, seen) matches Some((sid, m)) ==> {
            &&& m.sender != me
            &&& seen_get(seen, sid) != Some(0u64)
            &&& after(transcript(st, sid), cursor_of(seen, sid)).contains(m)
            &&& exists|i: int| 0 <= i < st.sessions.len() && st.sessions[i].session.id == sid && !st.sessions[i].session.closed
        },
{
    lemma_scan_offered(st, st.sessions, me, seen);
    if let Some((sid, m)) = incoming_session(st, me, seen) {
        assert(offered(st, st.sessions, me, seen, (sid, m)));
        let i = choose|i: int| 0 <= i < st.sessions.len() && st.sessions[i].session.id == sid
            && #[trigger] offers(st, st.sessions[i], me, seen, m);
        let r = st.sessions[i];
        lemma_last_incoming(after(transcript(st, r.session.id), cursor_of(seen, r.session.id)), me);
    }
}

/// Position `k` of `msgs` holds the latest message another agent than `me`
/// sent: that message is not `me`'s, and every later one is.
pub open spec fn latest_incoming_at(msgs: Seq<MessageView>, me: Seq<char>, k: int) -> bool {
    &&& 0 <= k < msgs.len()
    &&& msgs[k].sender != me
    &&& forall|j: int| k < j < msgs.len() ==> (#[trigger] msgs[j]).sender == me
}

/// What a new-session wait is handed is the latest incoming message of its
/// session: the last one after the waiter's cursor that another agent
/// sent, with only the waiter's own messages after it.
pub proof fn lemma_incoming_is_latest(st: StoreView, me: Seq<char>, seen: Seq<(Seq<char>, u64)>)
    ensures
        incoming_session(st, me, seen) matches Some((sid, m)) ==> exists|k: int|
            latest_incoming_at(after(transcript(st, sid), cursor_of(seen, sid)), me, k)
            && #[trigger] after(transcript(st, sid), cursor_of(seen, sid))[k] == m,
{
    lemma_scan_offered(st, st.sessions, me, seen);
    if let Some((sid, m)) = incoming_session(st, me, seen) {
        assert(offered(st, st.sessions, me, seen, (sid, m)));
        let i = choose|i: int| 0 <= i < st.sessions.len() && st.sessions[i].session.id == sid
            && #[trigger] offers(st, st.sessions[i], me, seen, m);
        let l = after(transcript(st, sid), cursor_of(seen, sid));
        lemma_last_incoming(l, me);
        let k = choose|k: int| 0 <= k < l.len() && l[k] == m
            && forall|j: int| k < j < l.len() ==> (#[trigger] l[j]).sender == me;
        assert(latest_incoming_at(l, me, k));
    }
}

/// A new-session wait prefers the freshest news: whenever an open session
/// the waiter never saw holds a message from another agent, the wait is
/// handed a message at least as recent as that session's latest incoming
/// one.
pub proof fn lemma_incoming_is_freshest(st: StoreView, me: Seq<char>, seen: Seq<(Seq<char>, u64)>, i: int, k: int)
    requires
        0 <= i < st.sessions.len(),
        !st.sessions[i].session.closed,
        seen_get(seen, st.sessions[i].session.id) is None,
        latest_incoming_at(after(transcript(st, st.sessions[i].session.id), 0), me, k),
    ensures
        incoming_session(st, me, seen) matches Some((_, m))
            && m.timestamp >= after(transcript(st, st.sessions[i].session.id), 0)[k].timestamp,
{
    let l = after(transcript(st, st.sessions[i].session.id), 0);
    lemma_last_incoming_at(l, me, k);
    assert(candidate(st, st.sessions[i], me, seen) == Some((false, l[k])));
    lemma_scan_freshest(st, st.sessions, me, seen, i, l[k]);
}

} // verus!
