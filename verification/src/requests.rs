//! The requests the command line makes of the daemon: the paths and query
//! strings of waits, transcripts and observation, and what a `listen`
//! makes of the events it receives.

use vstd::prelude::*;
use crate::api::max_message_id;
use crate::locations::{percent_encode, percent_spec, url_spec, urlencoding};
use crate::models::{Message, ObserveEvent, messages_view};
use crate::text::{contains_seq, decimal, push_decimal, push_str, str_contains, str_eq};
use vstd::string::StringSliceAdditionalSpecFns;

verus! {

broadcast use vstd::string::group_string_axioms;

/// `&key=value`.
pub open spec fn param(key: Seq<char>, value: Seq<char>) -> Seq<char> {
    "&"@ + key + "="@ + value
}

/// `&key=value` when there is a value, nothing otherwise.
pub open spec fn opt_param(key: Seq<char>, value: Option<Seq<char>>) -> Seq<char> {
    match value {
        Some(v) => param(key, v),
        None => Seq::empty(),
    }
}

/// The view of an optional string slice.
pub open spec fn opt_str(s: Option<&str>) -> Option<Seq<char>> {
    match s {
        Some(x) => Some(x@),
        None => None,
    }
}

/// Appends `&key=value`.
fn push_param(s: &mut String, key: &str, value: &str)
    ensures
        final(s)@ == old(s)@ + param(key@, value@),
{
    proof {
        reveal_strlit("&");
        reveal_strlit("=");
    }
    push_str(s, "&");
    push_str(s, key);
    push_str(s, "=");
    push_str(s, value);
    assert(final(s)@ =~= old(s)@ + param(key@, value@));
}

/// Appends `&key=value` when there is a value.
fn push_opt_param(s: &mut String, key: &str, value: Option<&str>)
    ensures
        final(s)@ == old(s)@ + opt_param(key@, opt_str(value)),
{
    match value {
        Some(v) => push_param(s, key, v),
        None => {
            assert(final(s)@ =~= old(s)@ + opt_param(key@, opt_str(value)));
        },
    }
}

/// The limit a query carries: a positive one, none for 0.
pub open spec fn positive(limit: Option<usize>) -> Option<Seq<char>> {
    match limit {
        Some(l) => if l > 0 { Some(decimal(l as nat)) } else { None },
        None => None,
    }
}

/// The path of a streaming wait on session `sid`.
pub open spec fn wait_stream_spec(
    sid: Seq<char>,
    since: u64,
    timeout: u64,
    identity: Seq<char>,
    reader: Seq<char>,
    limit: Option<usize>,
    from: Option<Seq<char>>,
) -> Seq<char> {
    "/api/sessions/"@ + sid + "/wait-stream?since="@ + decimal(since as nat) + "&timeout_secs="@ + decimal(timeout as nat)
        + "&identity="@ + identity + param("sender"@, reader) + opt_param("limit"@, positive(limit)) + opt_param("from"@, from)
}

/// The path `wait` streams from: the session, the id to wait after, the
/// timeout, who waits, the reader, and the limit and sender filters.
pub fn wait_stream_path(
    sid: &str,
    since: u64,
    timeout: u64,
    identity: &str,
    reader: &str,
    limit: Option<usize>,
    from: Option<&str>,
) -> (r: String)
    ensures
        r@ == wait_stream_spec(sid@, since, timeout, identity@, reader@, limit, opt_str(from)),
{
    proof {
        reveal_strlit("/api/sessions/");
        reveal_strlit("/wait-stream?since=");
        reveal_strlit("&timeout_secs=");
        reveal_strlit("&identity=");
    }
    let mut s = String::new();
    push_str(&mut s, "/api/sessions/");
    push_str(&mut s, sid);
    push_str(&mut s, "/wait-stream?since=");
    push_decimal(&mut s, since);
    push_str(&mut s, "&timeout_secs=");
    push_decimal(&mut s, timeout);
    push_str(&mut s, "&identity=");
    push_str(&mut s, identity);
    push_param(&mut s, "sender", reader);
    let ghost mid = s@;
    match limit {
        Some(l) => {
            if l > 0 {
                let mut n = String::new();
                push_decimal(&mut n, l as u64);
                push_param(&mut s, "limit", n.as_str());
            }
        },
        None => {},
    }
    assert(s@ =~= mid + opt_param("limit"@, positive(limit)));
    push_opt_param(&mut s, "from", from);
    assert(s@ =~= wait_stream_spec(sid@, since, timeout, identity@, reader@, limit, opt_str(from)));
    s
}

/// The path of the wait for a reply to message `id` of session `sid`.
pub open spec fn reply_wait_spec(sid: Seq<char>, id: u64, timeout: u64, identity: Seq<char>) -> Seq<char> {
    "/api/sessions/"@ + sid + "/wait-stream?since="@ + decimal(id as nat) + "&timeout_secs="@ + decimal(timeout as nat)
        + "&reply_to="@ + decimal(id as nat) + "&identity="@ + identity
}

/// The path `send --wait` streams from: replies to the message just sent.
pub fn reply_wait_path(sid: &str, id: u64, timeout: u64, identity: &str) -> (r: String)
    ensures
        r@ == reply_wait_spec(sid@, id, timeout, identity@),
{
    proof {
        reveal_strlit("/api/sessions/");
        reveal_strlit("/wait-stream?since=");
        reveal_strlit("&timeout_secs=");
        reveal_strlit("&reply_to=");
        reveal_strlit("&identity=");
    }
    let mut s = String::new();
    push_str(&mut s, "/api/sessions/");
    push_str(&mut s, sid);
    push_str(&mut s, "/wait-stream?since=");
    push_decimal(&mut s, id);
    push_str(&mut s, "&timeout_secs=");
    push_decimal(&mut s, timeout);
    push_str(&mut s, "&reply_to=");
    push_decimal(&mut s, id);
    push_str(&mut s, "&identity=");
    push_str(&mut s, identity);
    assert(s@ =~= reply_wait_spec(sid@, id, timeout, identity@));
    s
}

/// The path of a transcript of session `sid`.
pub open spec fn recap_spec(sid: Seq<char>, since: u64, reader: Seq<char>, from: Option<Seq<char>>, limit: Option<usize>) -> Seq<char> {
    "/api/sessions/"@ + sid + "/recap?since="@ + decimal(since as nat) + param("sender"@, reader) + opt_param("from"@, from)
        + opt_param("limit"@, positive(limit))
}

/// The path `history` reads: the session, the id to start after (0 when
/// none is given), the reader, and the sender and limit filters.
pub fn recap_path(sid: &str, since: Option<u64>, reader: &str, from: Option<&str>, limit: Option<usize>) -> (r: String)
    ensures
        r@ == recap_spec(sid@, match since { Some(s) => s, None => 0 }, reader@, opt_str(from), limit),
{
    proof {
        reveal_strlit("/api/sessions/");
        reveal_strlit("/recap?since=");
    }
    let mut s = String::new();
    push_str(&mut s, "/api/sessions/");
    push_str(&mut s, sid);
    push_str(&mut s, "/recap?since=");
    push_decimal(&mut s, match since { Some(x) => x, None => 0 });
    push_param(&mut s, "sender", reader);
    push_opt_param(&mut s, "from", from);
    let ghost mid = s@;
    match limit {
        Some(l) => {
            if l > 0 {
                let mut n = String::new();
                push_decimal(&mut n, l as u64);
                push_param(&mut s, "limit", n.as_str());
            }
        },
        None => {},
    }
    assert(s@ =~= recap_spec(sid@, match since { Some(x) => x, None => 0 }, reader@, opt_str(from), limit));
    s
}

/// The path of an observation of all sessions.
pub open spec fn observe_spec(
    since: Option<u64>,
    cursors_json: Seq<u8>,
    match_text: Option<Seq<char>>,
    from: Option<Seq<char>>,
    channel: Option<Seq<char>>,
    timeout: Option<u64>,
) -> Seq<char> {
    "/api/observe?since="@ + decimal((match since { Some(s) => s, None => 0 }) as nat)
        + (if since is None { param("since_map"@, percent_spec(cursors_json)) } else { Seq::empty() })
        + opt_param("match"@, match match_text { Some(m) => Some(url_spec(m)), None => None })
        + opt_param("from"@, from) + opt_param("channel"@, channel)
        + param("timeout_secs"@, decimal((match timeout { Some(t) => t, None => 60 }) as nat))
}

/// The path `listen` observes: without `--since`, each session is replayed
/// from its own read cursor (`cursors_json`, the cursors as JSON); the text
/// filter is escaped; the timeout defaults to 60 seconds (0 is no timeout).
pub fn observe_path(
    since: Option<u64>,
    cursors_json: &str,
    match_text: Option<&str>,
    from: Option<&str>,
    channel: Option<&str>,
    timeout: Option<u64>,
) -> (r: String)
    ensures
        r@ == observe_spec(since, cursors_json.spec_bytes(), opt_str(match_text), opt_str(from), opt_str(channel), timeout),
{
    proof {
        reveal_strlit("/api/observe?since=");
    }
    let mut s = String::new();
    push_str(&mut s, "/api/observe?since=");
    push_decimal(&mut s, match since { Some(x) => x, None => 0 });
    let ghost a = s@;
    if since.is_none() {
        let enc = percent_encode(cursors_json);
        push_param(&mut s, "since_map", enc.as_str());
    }
    assert(s@ =~= a + (if since is None { param("since_map"@, percent_spec(cursors_json.spec_bytes())) } else { Seq::empty() }));
    let ghost b = s@;
    match match_text {
        Some(m) => {
            let enc = urlencoding(m);
            push_param(&mut s, "match", enc.as_str());
        },
        None => {},
    }
    assert(s@ =~= b + opt_param("match"@, match opt_str(match_text) { Some(m) => Some(url_spec(m)), None => None }));
    push_opt_param(&mut s, "from", from);
    push_opt_param(&mut s, "channel", channel);
    let mut t = String::new();
    push_decimal(&mut t, match timeout { Some(x) => x, None => 60 });
    push_param(&mut s, "timeout_secs", t.as_str());
    assert(s@ =~= observe_spec(since, cursors_json.spec_bytes(), opt_str(match_text), opt_str(from), opt_str(channel), timeout));
    s
}

/// The `&seen=` suffix of a new-session wait: the waiter's cursors (as
/// JSON), percent-encoded; nothing when it has none.
pub fn seen_param(cursor_count: usize, cursors_json: &str) -> (r: String)
    ensures
        r@ == if cursor_count == 0 { Seq::empty() } else { param("seen"@, percent_spec(cursors_json.spec_bytes())) },
{
    let mut s = String::new();
    if cursor_count > 0 {
        let enc = percent_encode(cursors_json);
        push_param(&mut s, "seen", enc.as_str());
    }
    assert(cursor_count == 0 ==> s@ =~= Seq::<char>::empty());
    s
}

/// The path of a streaming new-session wait.
pub open spec fn wait_new_stream_spec(timeout: u64, identity: Seq<char>, sender: Option<Seq<char>>, seen: Seq<char>) -> Seq<char> {
    "/api/sessions/wait-new-stream?timeout_secs="@ + decimal(timeout as nat) + "&identity="@ + identity
        + opt_param("sender"@, sender) + seen
}

/// The path `wait --new-session` streams from.
pub fn wait_new_stream_path(timeout: u64, identity: &str, sender: Option<&str>, seen: &str) -> (r: String)
    ensures
        r@ == wait_new_stream_spec(timeout, identity@, opt_str(sender), seen@),
{
    proof {
        reveal_strlit("/api/sessions/wait-new-stream?timeout_secs=");
        reveal_strlit("&identity=");
    }
    let mut s = String::new();
    push_str(&mut s, "/api/sessions/wait-new-stream?timeout_secs=");
    push_decimal(&mut s, timeout);
    push_str(&mut s, "&identity=");
    push_str(&mut s, identity);
    push_opt_param(&mut s, "sender", sender);
    push_str(&mut s, seen);
    assert(s@ =~= wait_new_stream_spec(timeout, identity@, opt_str(sender), seen@));
    s
}

/// The path of a long-poll new-session wait.
pub open spec fn wait_new_spec(timeout: u64, sender: Option<Seq<char>>, seen: Seq<char>) -> Seq<char> {
    "/api/sessions/wait-new?timeout_secs="@ + decimal(timeout as nat) + opt_param("sender"@, sender) + seen
}

/// The path a bare `wait` polls when no session is open.
pub fn wait_new_path(timeout: u64, sender: Option<&str>, seen: &str) -> (r: String)
    ensures
        r@ == wait_new_spec(timeout, opt_str(sender), seen@),
{
    proof {
        reveal_strlit("/api/sessions/wait-new?timeout_secs=");
    }
    let mut s = String::new();
    push_str(&mut s, "/api/sessions/wait-new?timeout_secs=");
    push_decimal(&mut s, timeout);
    push_opt_param(&mut s, "sender", sender);
    push_str(&mut s, seen);
    assert(s@ =~= wait_new_spec(timeout, opt_str(sender), seen@));
    s
}

/// The path of the messages of session `sid` after `since`, read by
/// `reader` when named.
pub open spec fn messages_query_spec(sid: Seq<char>, since: u64, reader: Option<Seq<char>>) -> Seq<char> {
    "/api/sessions/"@ + sid + "/messages?since="@ + decimal(since as nat) + opt_param("sender"@, reader)
}

/// The path of the messages of session `sid` after `since`.
pub fn messages_query(sid: &str, since: u64, reader: Option<&str>) -> (r: String)
    ensures
        r@ == messages_query_spec(sid@, since, opt_str(reader)),
{
    proof {
        reveal_strlit("/api/sessions/");
        reveal_strlit("/messages?since=");
    }
    let mut s = String::new();
    push_str(&mut s, "/api/sessions/");
    push_str(&mut s, sid);
    push_str(&mut s, "/messages?since=");
    push_decimal(&mut s, since);
    push_opt_param(&mut s, "sender", reader);
    assert(s@ =~= messages_query_spec(sid@, since, opt_str(reader)));
    s
}

/// The id a bare `wait` waits after: `--since` when given, else the
/// highest id the session already holds (0 for none).
pub fn wait_since(since: Option<u64>, existing: &Vec<Message>) -> (r: u64)
    ensures
        r == match since {
            Some(s) => s,
            None => match max_message_id(messages_view(existing@)) {
                Some(m) => m,
                None => 0,
            },
        },
{
    match since {
        Some(s) => s,
        None => match crate::api::compute_cursor(existing) {
            Some(m) => m,
            None => 0,
        },
    }
}

/// What `listen` has seen so far.
#[derive(Debug, Clone)]
pub struct ListenState {
    /// Message events received.
    pub message_count: u64,
    /// The highest message id shown, per session, in order of first sight
    /// (none in replay: a replay leaves the read cursors alone).
    pub max_by_session: Vec<(String, u64)>,
    /// The stream said it timed out.
    pub timed_out: bool,
}

/// What `listen` does with one event, besides printing it.
#[derive(Debug, Clone)]
pub struct ListenStep {
    /// Record this read cursor now (following the stream, not replaying).
    pub cursor: Option<(String, u64)>,
    /// The event reports dropped messages: warn and show nothing else.
    pub overload: bool,
    /// The event reports the timeout.
    pub timed_out: bool,
}

/// Whether an observation is a message event with a message.
pub open spec fn message_event(evt: Option<ObserveEvent>) -> Option<(Seq<char>, u64)> {
    match evt {
        Some(e) => if e.kind@ == "message"@ {
            match e.message {
                Some(m) => Some((e.session_id@, m.id)),
                None => None,
            }
        } else {
            None
        },
        None => None,
    }
}

/// The views of per-session maxima.
pub open spec fn maxima_view(v: Seq<(String, u64)>) -> Seq<(Seq<char>, u64)> {
    Seq::new(v.len(), |i: int| (v[i].0@, v[i].1))
}

/// `m` with session `sid` raised to at least `id` (a new session is added
/// at the end, starting from 0).
pub open spec fn raise(m: Seq<(Seq<char>, u64)>, sid: Seq<char>, id: u64) -> Seq<(Seq<char>, u64)> {
    if exists|i: int| 0 <= i < m.len() && m[i].0 == sid {
        let i = choose|i: int| 0 <= i < m.len() && m[i].0 == sid;
        if id > m[i].1 { m.update(i, (sid, id)) } else { m }
    } else {
        m.push((sid, id))
    }
}

/// Whether no session appears twice in `m`.
pub open spec fn distinct_sessions(m: Seq<(Seq<char>, u64)>) -> bool {
    forall|i: int, j: int| 0 <= i < j < m.len() ==> m[i].0 != m[j].0
}

impl ListenState {
    /// Nothing seen yet.
    pub fn new() -> (r: ListenState)
        ensures
            r.message_count == 0,
            r.max_by_session@.len() == 0,
            !r.timed_out,
    {
        ListenState { message_count: 0, max_by_session: Vec::new(), timed_out: false }
    }

    /// Takes one received block into account: `data` is its data and
    /// `evt` what it reads as. A message event counts (the count stays at
    /// its largest value) and, unless `replay` (an explicit `--since`), its
    /// read cursor is recorded; data that reports an overload only warns;
    /// data that reports the timeout marks it; in text mode a shown
    /// message raises its session's maximum, except in replay, which leaves
    /// the read cursors alone.
    pub fn step(&mut self, data: &str, evt: &Option<ObserveEvent>, replay: bool, json: bool) -> (r: ListenStep)
        requires
            distinct_sessions(maxima_view(old(self).max_by_session@)),
        ensures
            distinct_sessions(maxima_view(final(self).max_by_session@)),
            final(self).message_count == (if message_kind(*evt) && old(self).message_count < u64::MAX {
                old(self).message_count + 1
            } else {
                old(self).message_count as int
            }),
            r.cursor matches Some((sid, id)) ==> !replay && message_event(*evt) == Some((sid@, id)),
            (!replay && message_event(*evt) is Some) ==> r.cursor is Some,
            r.overload == contains_seq(data@, "\"overload\""@),
            r.timed_out == (!r.overload && contains_seq(data@, "\"timeout\""@)),
            final(self).timed_out == (old(self).timed_out || r.timed_out),
            maxima_view(final(self).max_by_session@) == match message_event(*evt) {
                Some((sid, id)) => if !r.overload && !json && !replay {
                    raise(maxima_view(old(self).max_by_session@), sid, id)
                } else {
                    maxima_view(old(self).max_by_session@)
                },
                None => maxima_view(old(self).max_by_session@),
            },
    {
        proof {
            reveal_strlit("message");
            reveal_strlit("\"overload\"");
            reveal_strlit("\"timeout\"");
        }
        let is_message = match evt {
            Some(e) => str_eq(e.kind.as_str(), "message"),
            None => false,
        };
        if is_message && self.message_count < u64::MAX {
            self.message_count = self.message_count + 1;
        }
        let shown: Option<(String, u64)> = match evt {
            Some(e) => if is_message {
                match &e.message {
                    Some(m) => Some((e.session_id.clone(), m.id)),
                    None => None,
                }
            } else {
                None
            },
            None => None,
        };
        let cursor = if replay {
            None
        } else {
            match &shown {
                Some((s, id)) => Some((s.clone(), *id)),
                None => None,
            }
        };
        if str_contains(data, "\"overload\"") {
            return ListenStep { cursor, overload: true, timed_out: false };
        }
        let timed_out = str_contains(data, "\"timeout\"");
        if timed_out {
            self.timed_out = true;
        }
        if !json && !replay {
            match shown {
                Some((sid, id)) => raise_max(&mut self.max_by_session, sid, id),
                None => {},
            }
        }
        ListenStep { cursor, overload: false, timed_out }
    }
}

/// Whether an observation is a message event.
pub open spec fn message_kind(evt: Option<ObserveEvent>) -> bool {
    match evt {
        Some(e) => e.kind@ == "message"@,
        None => false,
    }
}

/// Raises session `sid`'s maximum to at least `id`.
fn raise_max(m: &mut Vec<(String, u64)>, sid: String, id: u64)
    requires
        distinct_sessions(maxima_view(old(m)@)),
    ensures
        distinct_sessions(maxima_view(final(m)@)),
        maxima_view(final(m)@) == raise(maxima_view(old(m)@), sid@, id),
{
    let ghost mv = maxima_view(m@);
    let mut i: usize = 0;
    while i < m.len()
        invariant
            mv == maxima_view(m@),
            mv == maxima_view(old(m)@),
            distinct_sessions(mv),
            0 <= i <= m@.len(),
            forall|j: int| 0 <= j < i ==> mv[j].0 != sid@,
        decreases m.len() - i,
    {
        if str_eq(m[i].0.as_str(), sid.as_str()) {
            assert(mv[i as int].0 == sid@);
            proof {
                assert(exists|k: int| 0 <= k < mv.len() && mv[k].0 == sid@);
                let k = choose|k: int| 0 <= k < mv.len() && mv[k].0 == sid@;
                if k != i {
                    if k < i {
                        assert(mv[k].0 != mv[i as int].0);
                    } else {
                        assert(mv[i as int].0 != mv[k].0);
                    }
                }
                assert(k == i);
                assert(raise(mv, sid@, id) == if id > mv[i as int].1 { mv.update(i as int, (sid@, id)) } else { mv });
            }
            assert(mv[i as int].1 == m@[i as int].1);
            if id > m[i].1 {
                m.set(i, (sid, id));
                assert(maxima_view(m@) =~= mv.update(i as int, (sid@, id)));
                assert(distinct_sessions(maxima_view(m@))) by {
                    assert forall|a: int, b: int| 0 <= a < b < maxima_view(m@).len() implies maxima_view(m@)[a].0 != maxima_view(m@)[b].0 by {
                        assert(mv[a].0 != mv[b].0);
                    }
                }
            } else {
                assert(maxima_view(m@) == mv);
            }
            return;
        }
        i += 1;
    }
    m.push((sid, id));
    assert(maxima_view(m@) =~= mv.push((sid@, id)));
}

} // verus!
