//! Watching sessions: the raw event stream of one session and the filtered
//! observation of all of them (history first, then live events). The
//! daemon owns the streams; these functions decide what each one carries.

use vstd::prelude::*;
use crate::api::{ApiError, not_found, not_found_message};
use crate::arrivals::{Broadcast, name_of, seen_get, seen_lookup, seen_view, session_name_for};
use crate::models::{DaemonEvent, Message, MessageView, ObserveEvent, matches_spec, messages_view};
use crate::store::{RecordView, Store, StoreView, after, session_index, summaries_view, summary_of, transcript};
use crate::text::{contains_seq, copy_opt_string, opt_view, str_contains, str_eq};
use crate::waiting::Received;

verus! {

broadcast use vstd::string::group_string_axioms;

/// How the event stream of a session opens.
#[derive(Debug)]
pub enum EventsStart {
    NotFound(ApiError),
    /// The session is closed: a single `closed` event.
    Closed,
    /// The session is open: stream its events.
    Live,
}

/// The opening of a session's event stream: 404 for an unknown session, a
/// single closed event for a closed one, live otherwise.
pub fn events_start(store: &Store, id: &str) -> (r: EventsStart)
    requires
        store.wf(),
    ensures
        match session_index(store@.sessions, id@) {
            None => r matches EventsStart::NotFound(e) && e.status == 404 && e.error@ == not_found_message(id@),
            Some(i) => if store@.sessions[i].session.closed { r is Closed } else { r is Live },
        },
{
    match store.get_session(id) {
        None => EventsStart::NotFound(not_found(id)),
        Some(s) => if s.closed { EventsStart::Closed } else { EventsStart::Live },
    }
}

/// The most messages an event stream delivers: `limit` when it is above 0,
/// otherwise no bound.
pub fn events_limit(limit: Option<usize>) -> (r: usize)
    ensures
        r == match limit {
            Some(l) => if l > 0 { l } else { usize::MAX },
            None => usize::MAX,
        },
{
    match limit {
        Some(l) => if l > 0 { l } else { usize::MAX },
        None => usize::MAX,
    }
}

/// What a session's event stream sends.
#[derive(Debug)]
pub enum EventItem {
    Message(Message),
    Closed,
}

/// One event of a session's event stream, with `count` messages sent of at
/// most `max_count`: once the bound is reached nothing more is sent; a
/// message after `since` is sent and counted; a close is sent.
pub fn events_step(since: u64, max_count: usize, count: usize, got: Received) -> (r: (Option<EventItem>, usize))
    ensures
        if count >= max_count {
            r.0 is None && r.1 == count
        } else {
            match got {
                Received::Event(DaemonEvent::NewMessage(m)) => if m.id > since {
                    r.0 matches Some(EventItem::Message(x)) && x@ == m@ && r.1 == count + 1
                } else {
                    r.0 is None && r.1 == count
                },
                Received::Event(DaemonEvent::SessionClosed) => r.0 matches Some(EventItem::Closed) && r.1 == count,
                _ => r.0 is None && r.1 == count,
            }
        },
{
    if count >= max_count {
        return (None, count);
    }
    match got {
        Received::Event(DaemonEvent::NewMessage(m)) => {
            if m.id > since {
                (Some(EventItem::Message(m)), count + 1)
            } else {
                (None, count)
            }
        },
        Received::Event(DaemonEvent::SessionClosed) => (Some(EventItem::Closed), count),
        _ => (None, count),
    }
}

/// What an observer asks for.
#[derive(Debug, Clone)]
pub struct ObserveFilter {
    /// Messages after this id, in sessions without their own entry.
    pub since: u64,
    /// Per session, messages after this id.
    pub since_map: Vec<(String, u64)>,
    /// Only messages whose text contains this.
    pub needle: Option<String>,
    /// Only messages from this sender.
    pub from: Option<String>,
    /// Only sessions whose name contains this.
    pub channel: Option<String>,
    /// The stream ends after this many seconds without an event.
    pub timeout_secs: Option<u64>,
}

impl ObserveFilter {
    /// A filter with the defaults applied: since 0, and no timeout for a
    /// timeout of 0.
    pub fn new(
        since: Option<u64>,
        since_map: Vec<(String, u64)>,
        needle: Option<String>,
        from: Option<String>,
        channel: Option<String>,
        timeout_secs: Option<u64>,
    ) -> (r: ObserveFilter)
        ensures
            r.since == (match since { Some(s) => s, None => 0 }),
            r.since_map == since_map,
            r.needle == needle,
            r.from == from,
            r.channel == channel,
            r.timeout_secs == (match timeout_secs { Some(t) => if t > 0 { Some(t) } else { None }, None => None }),
    {
        ObserveFilter {
            since: match since { Some(s) => s, None => 0 },
            since_map,
            needle,
            from,
            channel,
            timeout_secs: match timeout_secs { Some(t) => if t > 0 { Some(t) } else { None }, None => None },
        }
    }
}

/// The id after which messages of session `sid` are observed.
pub open spec fn since_for(f: ObserveFilter, sid: Seq<char>) -> u64 {
    match seen_get(seen_view(f.since_map@), sid) {
        Some(c) => c,
        None => f.since,
    }
}

/// Whether a session with this name is observed.
pub open spec fn channel_ok(f: ObserveFilter, name: Option<Seq<char>>) -> bool {
    match f.channel {
        None => true,
        Some(ch) => match name {
            Some(n) => contains_seq(n, ch@),
            None => false,
        },
    }
}

/// Whether a message passes the sender and text filters.
pub open spec fn message_ok(f: ObserveFilter, m: MessageView) -> bool {
    &&& match f.from {
        Some(s) => m.sender == s@,
        None => true,
    }
    &&& match f.needle {
        Some(n) => matches_spec(m.parts, n@),
        None => true,
    }
}

/// The mathematical value of an observation.
pub struct ObserveView {
    pub session_id: Seq<char>,
    pub session_name: Option<Seq<char>>,
    pub kind: Seq<char>,
    pub message: Option<MessageView>,
}

impl View for ObserveEvent {
    type V = ObserveView;

    open spec fn view(&self) -> ObserveView {
        ObserveView {
            session_id: self.session_id@,
            session_name: opt_view(self.session_name),
            kind: self.kind@,
            message: match self.message {
                Some(m) => Some(m@),
                None => None,
            },
        }
    }
}

/// The views of observations.
pub open spec fn observes_view(s: Seq<ObserveEvent>) -> Seq<ObserveView> {
    Seq::new(s.len(), |i: int| s[i]@)
}

/// The observation of message `m` of session `id` named `name`.
pub open spec fn message_seen(id: Seq<char>, name: Option<Seq<char>>, m: MessageView) -> ObserveView {
    ObserveView { session_id: id, session_name: name, kind: "message"@, message: Some(m) }
}

/// The history an observer gets of one session.
pub open spec fn session_history(st: StoreView, r: RecordView, f: ObserveFilter) -> Seq<ObserveView> {
    if channel_ok(f, r.session.name) {
        after(transcript(st, r.session.id), since_for(f, r.session.id))
            .filter(|m: MessageView| message_ok(f, m))
            .map_values(|m: MessageView| message_seen(r.session.id, r.session.name, m))
    } else {
        Seq::empty()
    }
}

/// The history an observer gets of the sessions `recs`, in order.
pub open spec fn history_of(st: StoreView, recs: Seq<RecordView>, f: ObserveFilter) -> Seq<ObserveView>
    decreases recs.len(),
{
    if recs.len() == 0 {
        Seq::empty()
    } else {
        history_of(st, recs.drop_last(), f) + session_history(st, recs.last(), f)
    }
}

/// Whether `m` passes the sender and text filters.
fn passes(f: &ObserveFilter, m: &Message) -> (r: bool)
    ensures
        r == message_ok(*f, m@),
{
    match &f.from {
        Some(s) => {
            if !str_eq(m.sender.as_str(), s.as_str()) {
                return false;
            }
        },
        None => {},
    }
    match &f.needle {
        Some(n) => m.matches(n.as_str()),
        None => true,
    }
}

/// Whether a session named `name` is observed.
fn channel_passes(f: &ObserveFilter, name: &Option<String>) -> (r: bool)
    ensures
        r == channel_ok(*f, opt_view(*name)),
{
    match &f.channel {
        None => true,
        Some(ch) => match name {
            Some(n) => str_contains(n.as_str(), ch.as_str()),
            None => false,
        },
    }
}

/// The history an observer gets first: for each session in order whose
/// name passes the channel filter, its messages after the session's cursor
/// that pass the sender and text filters.
pub fn observe_history(store: &Store, f: &ObserveFilter) -> (r: Vec<ObserveEvent>)
    requires
        store.wf(),
    ensures
        observes_view(r@) == history_of(store@, store@.sessions, *f),
{
    let sessions = store.list_sessions();
    let ghost sv = store@.sessions;
    assert(summaries_view(sessions@).len() == sessions@.len());
    let mut out: Vec<ObserveEvent> = Vec::new();
    let mut i: usize = 0;
    assert(sv.take(0) =~= Seq::<RecordView>::empty());
    assert(observes_view(out@) =~= Seq::<ObserveView>::empty());
    while i < sessions.len()
        invariant
            store.wf(),
            sv == store@.sessions,
            summaries_view(sessions@) == sv.map_values(|x: RecordView| summary_of(x, store@.reads)),
            sessions@.len() == sv.len(),
            0 <= i <= sessions@.len(),
            observes_view(out@) == history_of(store@, sv.take(i as int), *f),
        decreases sessions.len() - i,
    {
        assert(sv.take(i + 1).drop_last() =~= sv.take(i as int));
        assert(sv.take(i + 1).last() == sv[i as int]);
        assert(summaries_view(sessions@)[i as int] == summary_of(sv[i as int], store@.reads));
        let s = &sessions[i];
        let ghost rec = sv[i as int];
        let ghost base = observes_view(out@);
        if channel_passes(f, &s.name) {
            let since = match seen_lookup(&f.since_map, s.id.as_str()) {
                Some(c) => c,
                None => f.since,
            };
            let msgs = store.get_messages_since(s.id.as_str(), since);
            let ghost mv = messages_view(msgs@);
            let ghost ok = |m: MessageView| message_ok(*f, m);
            let ghost seen = |m: MessageView| message_seen(rec.session.id, rec.session.name, m);
            let mut j: usize = 0;
            assert(mv.take(0).filter(ok) =~= Seq::<MessageView>::empty());
            assert(base + mv.take(0).filter(ok).map_values(seen) =~= base);
            while j < msgs.len()
                invariant
                    mv == messages_view(msgs@),
                    ok == (|m: MessageView| message_ok(*f, m)),
                    seen == (|m: MessageView| message_seen(rec.session.id, rec.session.name, m)),
                    s.id@ == rec.session.id,
                    opt_view(s.name) == rec.session.name,
                    0 <= j <= msgs@.len(),
                    observes_view(out@) == base + mv.take(j as int).filter(ok).map_values(seen),
                decreases msgs.len() - j,
            {
                reveal_with_fuel(Seq::filter, 1);
                assert(mv.take(j + 1).drop_last() =~= mv.take(j as int));
                assert(mv.take(j + 1).last() == msgs@[j as int]@);
                if passes(f, &msgs[j]) {
                    let ghost before = observes_view(out@);
                    out.push(ObserveEvent {
                        session_id: s.id.clone(),
                        session_name: copy_opt_string(&s.name),
                        kind: "message".to_string(),
                        message: Some(msgs[j].copy()),
                    });
                    proof {
                        reveal_strlit("message");
                    }
                    assert(observes_view(out@) =~= before.push(seen(msgs@[j as int]@)));
                    assert(mv.take(j + 1).filter(ok) =~= mv.take(j as int).filter(ok).push(msgs@[j as int]@));
                    assert(mv.take(j + 1).filter(ok).map_values(seen) =~= mv.take(j as int).filter(ok).map_values(seen).push(seen(msgs@[j as int]@)));
                } else {
                    assert(mv.take(j + 1).filter(ok) =~= mv.take(j as int).filter(ok));
                }
                j += 1;
            }
            assert(mv.take(mv.len() as int) =~= mv);
            assert(observes_view(out@) =~= base + session_history(store@, rec, *f));
        } else {
            assert(observes_view(out@) =~= base + session_history(store@, rec, *f));
        }
        i += 1;
    }
    assert(sv.take(sv.len() as int) =~= sv);
    out
}

/// What a live observation does with an event.
#[derive(Debug)]
pub enum ObserveStep {
    /// Nothing to send.
    Skip,
    Emit(ObserveEvent),
    /// The channel closed: the stream ends.
    Stop,
}

/// The observation of an event that concerns session `id`, of this kind.
pub open spec fn event_seen(st: StoreView, id: Seq<char>, kind: Seq<char>) -> ObserveView {
    ObserveView { session_id: id, session_name: name_of(st, id), kind: kind, message: None }
}

/// What a live observation does with what it received: events of sessions
/// whose name fails the channel filter are skipped; a message is sent when
/// it is after its session's cursor and passes the filters; closes,
/// creations, reopenings and renames are sent; a closed channel stops it.
pub fn observe_step(store: &Store, f: &ObserveFilter, got: Broadcast) -> (r: ObserveStep)
    requires
        store.wf(),
    ensures
        match got {
            Broadcast::Event(sid, ev) => if !channel_ok(*f, name_of(store@, sid@)) {
                r is Skip
            } else {
                match ev {
                    DaemonEvent::NewMessage(m) => if m.id > since_for(*f, m.session_id@) && message_ok(*f, m@) {
                        r matches ObserveStep::Emit(o) && o@ == message_seen(sid@, name_of(store@, sid@), m@)
                    } else {
                        r is Skip
                    },
                    DaemonEvent::SessionClosed => r matches ObserveStep::Emit(o) && o@ == event_seen(store@, sid@, "closed"@),
                    DaemonEvent::SessionCreated(id) => r matches ObserveStep::Emit(o) && o@ == event_seen(store@, id@, "created"@),
                    DaemonEvent::SessionReopened(id) => r matches ObserveStep::Emit(o) && o@ == event_seen(store@, id@, "reopened"@),
                    DaemonEvent::SessionRenamed { id, .. } => r matches ObserveStep::Emit(o) && o@ == event_seen(store@, id@, "renamed"@),
                    DaemonEvent::WaitUpdate { .. } => r is Skip,
                }
            },
            Broadcast::Lagged => r is Skip,
            Broadcast::Closed => r is Stop,
        },
{
    proof {
        reveal_strlit("message");
        reveal_strlit("closed");
        reveal_strlit("created");
        reveal_strlit("reopened");
        reveal_strlit("renamed");
    }
    match got {
        Broadcast::Event(sid, ev) => {
            let name = session_name_for(store, sid.as_str());
            if !channel_passes(f, &name) {
                return ObserveStep::Skip;
            }
            match ev {
                DaemonEvent::NewMessage(m) => {
                    let since = match seen_lookup(&f.since_map, m.session_id.as_str()) {
                        Some(c) => c,
                        None => f.since,
                    };
                    if m.id <= since || !passes(f, &m) {
                        return ObserveStep::Skip;
                    }
                    ObserveStep::Emit(ObserveEvent { session_id: sid, session_name: name, kind: "message".to_string(), message: Some(m) })
                },
                DaemonEvent::SessionClosed => {
                    ObserveStep::Emit(ObserveEvent { session_id: sid, session_name: name, kind: "closed".to_string(), message: None })
                },
                DaemonEvent::SessionCreated(id) => {
                    let n = session_name_for(store, id.as_str());
                    ObserveStep::Emit(ObserveEvent { session_id: id, session_name: n, kind: "created".to_string(), message: None })
                },
                DaemonEvent::SessionReopened(id) => {
                    let n = session_name_for(store, id.as_str());
                    ObserveStep::Emit(ObserveEvent { session_id: id, session_name: n, kind: "reopened".to_string(), message: None })
                },
                DaemonEvent::SessionRenamed { id, old_name: _, new_name: _ } => {
                    let n = session_name_for(store, id.as_str());
                    ObserveStep::Emit(ObserveEvent { session_id: id, session_name: n, kind: "renamed".to_string(), message: None })
                },
                DaemonEvent::WaitUpdate { .. } => ObserveStep::Skip,
            }
        },
        Broadcast::Lagged => ObserveStep::Skip,
        Broadcast::Closed => ObserveStep::Stop,
    }
}


/// The data of the last event of an observation that timed out after
/// `timeout_secs` seconds without an event.
pub open spec fn observe_timeout_text(timeout_secs: u64) -> Seq<char> {
    "{\"timeout\":true,\"timeout_after\":"@ + crate::text::decimal(timeout_secs as nat) + "}"@
}

/// The data of the last event of an observation that timed out (see
/// `observe_timeout_text`); it names the timeout, as `listen` looks for.
pub fn observe_timed_out(timeout_secs: u64) -> (r: String)
    ensures
        r@ == observe_timeout_text(timeout_secs),
        contains_seq(r@, "\"timeout\""@),
{
    proof {
        reveal_strlit("{\"timeout\":true,\"timeout_after\":");
        reveal_strlit("}");
        reveal_strlit("\"timeout\"");
    }
    let mut s = String::new();
    crate::text::push_str(&mut s, "{\"timeout\":true,\"timeout_after\":");
    crate::text::push_decimal(&mut s, timeout_secs);
    crate::text::push_str(&mut s, "}");
    proof {
        let w = "\"timeout\""@;
        assert(s@.subrange(1, 1 + w.len() as int) =~= w);
        assert(crate::text::occurs_at(s@, w, 1));
    }
    s
}

/// Every message in an observer's history passes both filters at once:
/// it comes from the requested sender when one is given, and some text
/// part contains the requested text when one is given; it is after its
/// session's cursor; and its session is one whose name passes the channel
/// filter.
pub proof fn lemma_history_passes_filters(st: StoreView, f: ObserveFilter, q: int)
    requires
        0 <= q < history_of(st, st.sessions, f).len(),
    ensures
        history_of(st, st.sessions, f)[q].message matches Some(m) ==> {
            &&& f.from matches Some(s) ==> m.sender == s@
            &&& f.needle matches Some(n) ==> matches_spec(m.parts, n@)
            &&& m.id > since_for(f, history_of(st, st.sessions, f)[q].session_id)
        },
        exists|i: int| 0 <= i < st.sessions.len()
            && (#[trigger] st.sessions[i]).session.id == history_of(st, st.sessions, f)[q].session_id
            && channel_ok(f, st.sessions[i].session.name),
{
    lemma_history_entries(st, st.sessions, f, q);
}

proof fn lemma_history_entries(st: StoreView, recs: Seq<RecordView>, f: ObserveFilter, q: int)
    requires
        0 <= q < history_of(st, recs, f).len(),
    ensures
        history_of(st, recs, f)[q].message matches Some(m) && message_ok(f, m)
            && m.id > since_for(f, history_of(st, recs, f)[q].session_id),
        exists|i: int| 0 <= i < recs.len() && (#[trigger] recs[i]).session.id == history_of(st, recs, f)[q].session_id
            && recs[i].session.name == history_of(st, recs, f)[q].session_name
            && channel_ok(f, recs[i].session.name),
    decreases recs.len(),
{
    let before = history_of(st, recs.drop_last(), f);
    if q < before.len() {
        lemma_history_entries(st, recs.drop_last(), f, q);
        let i = choose|i: int| 0 <= i < recs.drop_last().len() && (#[trigger] recs.drop_last()[i]).session.id == before[q].session_id
            && recs.drop_last()[i].session.name == before[q].session_name
            && channel_ok(f, recs.drop_last()[i].session.name);
        assert(recs[i] == recs.drop_last()[i]);
    } else {
        assert(recs[recs.len() - 1] == recs.last());
        let r = recs.last();
        let ok = |m: MessageView| message_ok(f, m);
        let l = after(transcript(st, r.session.id), since_for(f, r.session.id));
        let fl = l.filter(ok);
        let p = q - before.len();
        assert(channel_ok(f, r.session.name));
        assert(session_history(st, r, f)[p] == message_seen(r.session.id, r.session.name, fl[p]));
        l.lemma_filter_pred(ok, p);
        l.lemma_filter_contains_rev(ok, fl[p]);
        let j = choose|j: int| 0 <= j < l.len() && l[j] == fl[p];
        transcript(st, r.session.id).lemma_filter_pred(|m: MessageView| m.id > since_for(f, r.session.id), j);
    }
}

proof fn lemma_history_includes(st: StoreView, recs: Seq<RecordView>, f: ObserveFilter, i: int, p: int)
    requires
        0 <= i < recs.len(),
        0 <= p < session_history(st, recs[i], f).len(),
    ensures
        history_of(st, recs, f).contains(session_history(st, recs[i], f)[p]),
    decreases recs.len(),
{
    let x = session_history(st, recs[i], f)[p];
    let before = history_of(st, recs.drop_last(), f);
    if i == recs.len() - 1 {
        assert(recs[i] == recs.last());
        assert(history_of(st, recs, f)[before.len() + p] == x);
    } else {
        assert(recs.drop_last()[i] == recs[i]);
        lemma_history_includes(st, recs.drop_last(), f, i, p);
        let q = choose|q: int| 0 <= q < before.len() && before[q] == x;
        assert(history_of(st, recs, f)[q] == x);
    }
}

/// Nothing that passes both filters is left out: in a session whose name
/// passes the channel filter, every message after the session's cursor that
/// comes from the requested sender (when one is given) and has a text part
/// containing the requested text (when one is given) is in the history.
pub proof fn lemma_history_keeps_matches(st: StoreView, f: ObserveFilter, i: int, k: int)
    requires
        0 <= i < st.sessions.len(),
        channel_ok(f, st.sessions[i].session.name),
        0 <= k < after(transcript(st, st.sessions[i].session.id), since_for(f, st.sessions[i].session.id)).len(),
        f.from matches Some(s)
            ==> after(transcript(st, st.sessions[i].session.id), since_for(f, st.sessions[i].session.id))[k].sender == s@,
        f.needle matches Some(n)
            ==> matches_spec(after(transcript(st, st.sessions[i].session.id), since_for(f, st.sessions[i].session.id))[k].parts, n@),
    ensures
        history_of(st, st.sessions, f).contains(message_seen(
            st.sessions[i].session.id,
            st.sessions[i].session.name,
            after(transcript(st, st.sessions[i].session.id), since_for(f, st.sessions[i].session.id))[k],
        )),
{
    let r = st.sessions[i];
    let l = after(transcript(st, r.session.id), since_for(f, r.session.id));
    let ok = |m: MessageView| message_ok(f, m);
    l.lemma_filter_contains(ok, k);
    let fl = l.filter(ok);
    let p = choose|p: int| 0 <= p < fl.len() && fl[p] == l[k];
    assert(session_history(st, r, f)[p] == message_seen(r.session.id, r.session.name, l[k]));
    lemma_history_includes(st, st.sessions, f, i, p);
}

/// A live message passes the sender and text filters exactly when it
/// passes each: it comes from the requested sender when one is given, and
/// some text part contains the requested text when one is given.
pub proof fn lemma_live_filters(f: ObserveFilter, m: MessageView)
    ensures
        message_ok(f, m) == ((f.from matches Some(s) ==> m.sender == s@)
            && (f.needle matches Some(n) ==> matches_spec(m.parts, n@))),
{
}

/// A session passes the channel filter exactly when no channel is given,
/// or it has a name that contains the channel.
pub proof fn lemma_channel_filter(f: ObserveFilter, name: Option<Seq<char>>)
    ensures
        channel_ok(f, name) == (f.channel matches Some(ch) ==> (name matches Some(n) && contains_seq(n, ch@))),
{
}

} // verus!
