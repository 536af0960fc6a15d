//! Who is talking: the agents seen in open sessions, ordered by name, and
//! the daemon's status answer.

use vstd::prelude::*;
use crate::models::{AgentSummary, MessageView, PROTOCOL_VERSION, StatusResponse, messages_view};
use crate::store::{RecordView, Store, StoreView, after, summaries_view, summary_of, transcript};
use crate::text::{chars_of, opt_view};
use crate::waits::{WaitView, info_of, infos_view, live};
use crate::clock::now_micros;

verus! {

broadcast use vstd::string::group_string_axioms;

/// `a` comes strictly before `b` in the order of strings: character by
/// character, a proper prefix first.
pub open spec fn str_less(a: Seq<char>, b: Seq<char>) -> bool
    decreases a.len(),
{
    if a.len() == 0 {
        b.len() > 0
    } else if b.len() == 0 {
        false
    } else if a[0] != b[0] {
        a[0] < b[0]
    } else {
        str_less(a.drop_first(), b.drop_first())
    }
}

/// Of two different strings, one comes first.
pub proof fn lemma_str_less_total(a: Seq<char>, b: Seq<char>)
    requires
        a != b,
    ensures
        str_less(a, b) || str_less(b, a),
    decreases a.len(),
{
    if a.len() == 0 {
        assert(b.len() > 0) by {
            if b.len() == 0 {
                assert(a =~= b);
            }
        }
    } else if b.len() == 0 {
    } else if a[0] != b[0] {
    } else {
        if a.drop_first() == b.drop_first() {
            assert(a =~= seq![a[0]] + a.drop_first());
            assert(b =~= seq![b[0]] + b.drop_first());
        }
        lemma_str_less_total(a.drop_first(), b.drop_first());
    }
}

/// No string comes before itself.
pub proof fn lemma_str_less_irreflexive(a: Seq<char>)
    ensures
        !str_less(a, a),
    decreases a.len(),
{
    if a.len() > 0 {
        lemma_str_less_irreflexive(a.drop_first());
    }
}

/// Whether `a` comes strictly before `b`.
pub fn str_lt(a: &str, b: &str) -> (r: bool)
    ensures
        r == str_less(a@, b@),
{
    let va = chars_of(a);
    let vb = chars_of(b);
    let mut i: usize = 0;
    assert(va@.skip(0) =~= va@);
    assert(vb@.skip(0) =~= vb@);
    while i < va.len() && i < vb.len()
        invariant
            va@ == a@,
            vb@ == b@,
            0 <= i <= va@.len(),
            i <= vb@.len(),
            str_less(a@, b@) == str_less(va@.skip(i as int), vb@.skip(i as int)),
        decreases va.len() - i,
    {
        let x = va[i];
        let y = vb[i];
        assert(va@.skip(i as int)[0] == x);
        assert(vb@.skip(i as int)[0] == y);
        if x != y {
            return x < y;
        }
        assert(va@.skip(i as int).drop_first() =~= va@.skip(i + 1));
        assert(vb@.skip(i as int).drop_first() =~= vb@.skip(i + 1));
        i += 1;
    }
    if i == va.len() {
        assert(va@.skip(i as int).len() == 0);
        i < vb.len()
    } else {
        assert(vb@.skip(i as int).len() == 0);
        false
    }
}

/// What is known of each agent: when it was last seen and how many
/// messages it sent.
pub type Tally = Map<Seq<char>, (i64, nat)>;

/// `m` after a message from `sender` at `ts`: the latest time is kept and
/// the count rises by one (it stays at the largest count a machine word
/// holds).
pub open spec fn note(m: Tally, sender: Seq<char>, ts: i64) -> Tally {
    if m.contains_key(sender) {
        let e = m[sender];
        m.insert(sender, (if ts > e.0 { ts } else { e.0 }, if e.1 < usize::MAX { e.1 + 1 } else { e.1 }))
    } else {
        m.insert(sender, (ts, 1))
    }
}

/// `m` after the messages `msgs`, in order.
pub open spec fn note_all(m: Tally, msgs: Seq<MessageView>) -> Tally
    decreases msgs.len(),
{
    if msgs.len() == 0 {
        m
    } else {
        note(note_all(m, msgs.drop_last()), msgs.last().sender, msgs.last().timestamp)
    }
}

/// `m` after the messages of the open sessions among `recs`, in order.
pub open spec fn tally(st: StoreView, recs: Seq<RecordView>, m: Tally) -> Tally
    decreases recs.len(),
{
    if recs.len() == 0 {
        m
    } else {
        let before = tally(st, recs.drop_last(), m);
        if recs.last().session.closed {
            before
        } else {
            note_all(before, after(transcript(st, recs.last().session.id), 0))
        }
    }
}

/// The creation time of the first open session among `recs`.
pub open spec fn first_open(recs: Seq<RecordView>) -> Option<i64>
    decreases recs.len(),
{
    if recs.len() == 0 {
        None
    } else {
        match first_open(recs.drop_last()) {
            Some(c) => Some(c),
            None => if recs.last().session.closed { None } else { Some(recs.last().session.created_at) },
        }
    }
}

/// The agents of the store: the local agent (when there is one and a
/// session is open) counts as seen when the first open session was
/// created, then every message of an open session is noted.
pub open spec fn agent_tally(st: StoreView, local: Option<Seq<char>>) -> Tally {
    let start = match (local, first_open(st.sessions)) {
        (Some(l), Some(c)) => Map::<Seq<char>, (i64, nat)>::empty().insert(l, (c, 0nat)),
        _ => Map::<Seq<char>, (i64, nat)>::empty(),
    };
    tally(st, st.sessions, start)
}

/// Whether the rows `rows` are the tally `m`, one row per agent, in the
/// order of their names.
pub open spec fn rows_are(rows: Seq<AgentSummary>, m: Tally) -> bool {
    &&& forall|j: int| 0 <= j < rows.len() ==> #[trigger] m.contains_key(rows[j].sender@)
        && m[rows[j].sender@] == (rows[j].last_seen, rows[j].message_count as nat)
    &&& forall|k: Seq<char>| #[trigger] m.contains_key(k) ==> exists|j: int| 0 <= j < rows.len() && rows[j].sender@ == k
    &&& forall|i: int, j: int| 0 <= i < j < rows.len() ==> rows[i].sender@ != rows[j].sender@
    &&& forall|j: int| 0 <= j < rows.len() - 1 ==> str_less(#[trigger] rows[j].sender@, rows[j + 1].sender@)
}

/// The row of agent `s`, if any.
fn find_row(rows: &Vec<AgentSummary>, s: &String) -> (r: Option<usize>)
    ensures
        match r {
            Some(k) => k < rows@.len() && rows@[k as int].sender@ == s@,
            None => forall|j: int| 0 <= j < rows@.len() ==> rows@[j].sender@ != s@,
        },
{
    let mut k: usize = 0;
    while k < rows.len()
        invariant
            0 <= k <= rows@.len(),
            forall|j: int| 0 <= j < k ==> rows@[j].sender@ != s@,
        decreases rows.len() - k,
    {
        if crate::text::str_eq(rows[k].sender.as_str(), s.as_str()) {
            return Some(k);
        }
        k += 1;
    }
    None
}

/// Where a row for `s` goes: after every row whose name does not come
/// after `s`, before the first one that does.
fn insert_position(rows: &Vec<AgentSummary>, s: &String) -> (p: usize)
    ensures
        p <= rows@.len(),
        forall|j: int| 0 <= j < p ==> !str_less(s@, rows@[j].sender@),
        p < rows@.len() ==> str_less(s@, rows@[p as int].sender@),
{
    let mut p: usize = 0;
    while p < rows.len()
        invariant
            0 <= p <= rows@.len(),
            forall|j: int| 0 <= j < p ==> !str_less(s@, rows@[j].sender@),
        decreases rows.len() - p,
    {
        if str_lt(s.as_str(), rows[p].sender.as_str()) {
            return p;
        }
        p += 1;
    }
    p
}

/// Notes a message from `sender` at `ts` in the rows.
fn note_row(rows: &mut Vec<AgentSummary>, sender: &String, ts: i64, Ghost(m): Ghost<Tally>)
    requires
        rows_are(old(rows)@, m),
    ensures
        rows_are(final(rows)@, note(m, sender@, ts)),
{
    let found = find_row(rows, sender);
    if let Some(k) = found {
        let ghost old_rows = rows@;
        let last_seen = if ts > rows[k].last_seen { ts } else { rows[k].last_seen };
        let count = if rows[k].message_count < usize::MAX { rows[k].message_count + 1 } else { rows[k].message_count };
        let row = AgentSummary { sender: rows[k].sender.clone(), last_seen, message_count: count };
        rows.set(k, row);
        let ghost m2 = note(m, sender@, ts);
        assert(m.contains_key(sender@));
        assert forall|j: int| 0 <= j < rows@.len() implies #[trigger] m2.contains_key(rows@[j].sender@)
            && m2[rows@[j].sender@] == (rows@[j].last_seen, rows@[j].message_count as nat) by {
            assert(m.contains_key(old_rows[j].sender@));
            if j != k {
                assert(old_rows[j].sender@ != old_rows[k as int].sender@);
            }
        }
        assert forall|key: Seq<char>| #[trigger] m2.contains_key(key) implies exists|j: int| 0 <= j < rows@.len() && rows@[j].sender@ == key by {
            if key != sender@ {
                assert(m.contains_key(key));
                let j = choose|j: int| 0 <= j < old_rows.len() && old_rows[j].sender@ == key;
                assert(rows@[j].sender@ == key);
            } else {
                assert(rows@[k as int].sender@ == key);
            }
        }
        assert forall|j: int| 0 <= j < rows@.len() - 1 implies str_less(#[trigger] rows@[j].sender@, rows@[j + 1].sender@) by {
            assert(str_less(old_rows[j].sender@, old_rows[j + 1].sender@));
        }
    } else {
        assert(!m.contains_key(sender@)) by {
            if m.contains_key(sender@) {
                let j = choose|j: int| 0 <= j < rows@.len() && rows@[j].sender@ == sender@;
                assert(false);
            }
        }
        let p = insert_position(rows, sender);
        let ghost old_rows = rows@;
        let row = AgentSummary { sender: sender.clone(), last_seen: ts, message_count: 1 };
        rows.insert(p, row);
        let ghost m2 = note(m, sender@, ts);
        assert(rows@ == old_rows.insert(p as int, row));
        assert forall|j: int| 0 <= j < rows@.len() implies #[trigger] m2.contains_key(rows@[j].sender@)
            && m2[rows@[j].sender@] == (rows@[j].last_seen, rows@[j].message_count as nat) by {
            if j < p {
                assert(rows@[j] == old_rows[j]);
                assert(m.contains_key(old_rows[j].sender@));
            } else if j > p {
                assert(rows@[j] == old_rows[j - 1]);
                assert(m.contains_key(old_rows[j - 1].sender@));
            }
        }
        assert forall|key: Seq<char>| #[trigger] m2.contains_key(key) implies exists|j: int| 0 <= j < rows@.len() && rows@[j].sender@ == key by {
            if key != sender@ {
                assert(m.contains_key(key));
                let j = choose|j: int| 0 <= j < old_rows.len() && old_rows[j].sender@ == key;
                if j < p {
                    assert(rows@[j] == old_rows[j]);
                } else {
                    assert(rows@[j + 1] == old_rows[j]);
                }
            } else {
                assert(rows@[p as int].sender@ == key);
            }
        }
        assert forall|a: int, b: int| 0 <= a < b < rows@.len() implies rows@[a].sender@ != rows@[b].sender@ by {
            if a < p && b < p {
            } else if a < p && b == p {
                assert(rows@[a] == old_rows[a]);
            } else if a < p {
                assert(rows@[a] == old_rows[a]);
                assert(rows@[b] == old_rows[b - 1]);
            } else if a == p {
                assert(rows@[b] == old_rows[b - 1]);
            } else {
                assert(rows@[a] == old_rows[a - 1]);
                assert(rows@[b] == old_rows[b - 1]);
            }
        }
        assert forall|j: int| 0 <= j < rows@.len() - 1 implies str_less(#[trigger] rows@[j].sender@, rows@[j + 1].sender@) by {
            if j + 1 < p {
                assert(rows@[j] == old_rows[j]);
                assert(rows@[j + 1] == old_rows[j + 1]);
                assert(str_less(old_rows[j].sender@, old_rows[j + 1].sender@));
            } else if j + 1 == p {
                assert(rows@[j] == old_rows[j]);
                assert(!str_less(sender@, old_rows[j].sender@));
                assert(old_rows[j].sender@ != sender@);
                lemma_str_less_total(old_rows[j].sender@, sender@);
            } else if j == p {
                assert(rows@[j + 1] == old_rows[j]);
            } else {
                assert(rows@[j] == old_rows[j - 1]);
                assert(rows@[j + 1] == old_rows[j]);
                assert(str_less(old_rows[j - 1].sender@, old_rows[j].sender@));
            }
        }
    }
}

/// The agents seen in open sessions, one row per agent in the order of
/// their names, with when each was last seen and how many messages it sent
/// (see `agent_tally`). `local` is the agent this daemon's project names.
pub fn agents(store: &Store, local: Option<String>) -> (r: Vec<AgentSummary>)
    requires
        store.wf(),
    ensures
        rows_are(r@, agent_tally(store@, opt_view(local))),
{
    let sessions = store.list_sessions();
    let ghost sv = store@.sessions;
    assert(summaries_view(sessions@).len() == sessions@.len());
    // The creation time of the first open session.
    let mut first: Option<i64> = None;
    let mut i: usize = 0;
    assert(sv.take(0) =~= Seq::<RecordView>::empty());
    while i < sessions.len()
        invariant
            summaries_view(sessions@) == sv.map_values(|x: RecordView| summary_of(x, store@.reads)),
            sessions@.len() == sv.len(),
            0 <= i <= sessions@.len(),
            first == first_open(sv.take(i as int)),
        decreases sessions.len() - i,
    {
        assert(sv.take(i + 1).drop_last() =~= sv.take(i as int));
        assert(summaries_view(sessions@)[i as int] == summary_of(sv[i as int], store@.reads));
        if first.is_none() && !sessions[i].closed {
            first = Some(sessions[i].created_at);
        }
        i += 1;
    }
    assert(sv.take(sv.len() as int) =~= sv);
    let mut rows: Vec<AgentSummary> = Vec::new();
    let ghost start = match (opt_view(local), first_open(sv)) {
        (Some(l), Some(c)) => Map::<Seq<char>, (i64, nat)>::empty().insert(l, (c, 0nat)),
        _ => Map::<Seq<char>, (i64, nat)>::empty(),
    };
    match (local, first) {
        (Some(l), Some(c)) => {
            rows.push(AgentSummary { sender: l, last_seen: c, message_count: 0 });
            assert forall|k: Seq<char>| #[trigger] start.contains_key(k) implies exists|j: int| 0 <= j < rows@.len() && rows@[j].sender@ == k by {
                assert(rows@[0].sender@ == k);
            }
        },
        _ => {
            assert(start =~= Map::<Seq<char>, (i64, nat)>::empty());
        },
    }
    assert(rows_are(rows@, start));
    let mut i: usize = 0;
    while i < sessions.len()
        invariant
            store.wf(),
            sv == store@.sessions,
            summaries_view(sessions@) == sv.map_values(|x: RecordView| summary_of(x, store@.reads)),
            sessions@.len() == sv.len(),
            0 <= i <= sessions@.len(),
            rows_are(rows@, tally(store@, sv.take(i as int), start)),
        decreases sessions.len() - i,
    {
        assert(sv.take(i + 1).drop_last() =~= sv.take(i as int));
        assert(sv.take(i + 1).last() == sv[i as int]);
        assert(summaries_view(sessions@)[i as int] == summary_of(sv[i as int], store@.reads));
        if !sessions[i].closed {
            let msgs = store.get_messages_since(sessions[i].id.as_str(), 0);
            let ghost mv = messages_view(msgs@);
            let ghost base = tally(store@, sv.take(i as int), start);
            let mut j: usize = 0;
            assert(mv.take(0) =~= Seq::<MessageView>::empty());
            while j < msgs.len()
                invariant
                    mv == messages_view(msgs@),
                    0 <= j <= msgs@.len(),
                    rows_are(rows@, note_all(base, mv.take(j as int))),
                decreases msgs.len() - j,
            {
                assert(mv.take(j + 1).drop_last() =~= mv.take(j as int));
                assert(mv.take(j + 1).last() == msgs@[j as int]@);
                note_row(&mut rows, &msgs[j].sender, msgs[j].timestamp, Ghost(note_all(base, mv.take(j as int))));
                j += 1;
            }
            assert(mv.take(mv.len() as int) =~= mv);
        }
        i += 1;
    }
    assert(sv.take(sv.len() as int) =~= sv);
    rows
}

/// The seconds since the epoch at time `now` (0 before it).
pub open spec fn epoch_seconds(now: i64) -> i64 {
    if now >= 0 { (now / 1_000_000) as i64 } else { 0 }
}

/// The daemon's status as of `now`, for process `pid`: the number of
/// sessions, the active waits (expired ones are dropped), the protocol
/// version, and, as `uptime_seconds`, the current time in seconds since
/// the epoch.
pub fn status_at(store: &mut Store, pid: u32, now: i64) -> (r: StatusResponse)
    requires
        old(store).wf(),
    ensures
        final(store).wf(),
        r.pid == pid,
        r.port == 0,
        r.uptime_seconds == epoch_seconds(now),
        r.session_count == old(store)@.sessions.len(),
        infos_view(r.active_waits@) == live(old(store)@.waits.waits, now).map_values(|w: WaitView| info_of(w, now)),
        r.protocol_version == PROTOCOL_VERSION,
        final(store)@.sessions == old(store)@.sessions,
        final(store)@.reads == old(store)@.reads,
        final(store)@.dedup == old(store)@.dedup,
        final(store)@.waits.waits == live(old(store)@.waits.waits, now),
        final(store)@.waits.next_id == old(store)@.waits.next_id,
{
    let sessions = store.list_sessions();
    assert(summaries_view(sessions@).len() == sessions@.len());
    let uptime: i64 = if now >= 0 { (now as u64 / 1_000_000) as i64 } else { 0 };
    let active_waits = store.list_active_waits_at(now);
    StatusResponse {
        pid,
        port: 0,
        uptime_seconds: uptime,
        session_count: sessions.len(),
        active_waits,
        protocol_version: PROTOCOL_VERSION,
    }
}

/// The daemon's status as of the current time.
pub fn status(store: &mut Store, pid: u32) -> (r: StatusResponse)
    requires
        old(store).wf(),
    ensures
        final(store).wf(),
        exists|now: i64| {
            &&& r.uptime_seconds == epoch_seconds(now)
            &&& infos_view(r.active_waits@) == live(old(store)@.waits.waits, now).map_values(|w: WaitView| info_of(w, now))
            &&& final(store)@.waits.waits == live(old(store)@.waits.waits, now)
        },
        r.pid == pid,
        r.port == 0,
        r.session_count == old(store)@.sessions.len(),
        r.protocol_version == PROTOCOL_VERSION,
        final(store)@.sessions == old(store)@.sessions,
        final(store)@.reads == old(store)@.reads,
        final(store)@.dedup == old(store)@.dedup,
        final(store)@.waits.next_id == old(store)@.waits.next_id,
{
    let now = now_micros();
    status_at(store, pid, now)
}

/// Some message of an open session among `recs` was sent by `a` at `t`.
pub open spec fn sent_at(st: StoreView, recs: Seq<RecordView>, a: Seq<char>, t: i64) -> bool {
    exists|i: int, k: int| 0 <= i < recs.len() && !recs[i].session.closed
        && 0 <= k < after(transcript(st, recs[i].session.id), 0).len()
        && (#[trigger] after(transcript(st, recs[i].session.id), 0)[k]).sender == a
        && after(transcript(st, recs[i].session.id), 0)[k].timestamp == t
}

proof fn lemma_note_keeps(m: Tally, s: Seq<char>, ts: i64, a: Seq<char>)
    requires
        m.contains_key(a),
    ensures
        note(m, s, ts).contains_key(a),
        note(m, s, ts)[a].0 >= m[a].0,
{
}

proof fn lemma_note_all_keeps(m: Tally, msgs: Seq<MessageView>, a: Seq<char>)
    requires
        m.contains_key(a),
    ensures
        note_all(m, msgs).contains_key(a),
        note_all(m, msgs)[a].0 >= m[a].0,
    decreases msgs.len(),
{
    if msgs.len() > 0 {
        lemma_note_all_keeps(m, msgs.drop_last(), a);
        lemma_note_keeps(note_all(m, msgs.drop_last()), msgs.last().sender, msgs.last().timestamp, a);
    }
}

proof fn lemma_note_all_sees(m: Tally, msgs: Seq<MessageView>, k: int)
    requires
        0 <= k < msgs.len(),
    ensures
        note_all(m, msgs).contains_key(msgs[k].sender),
        note_all(m, msgs)[msgs[k].sender].0 >= msgs[k].timestamp,
    decreases msgs.len(),
{
    let prev = note_all(m, msgs.drop_last());
    if k < msgs.len() - 1 {
        assert(msgs.drop_last()[k] == msgs[k]);
        lemma_note_all_sees(m, msgs.drop_last(), k);
        lemma_note_keeps(prev, msgs.last().sender, msgs.last().timestamp, msgs[k].sender);
    } else {
        assert(msgs[k] == msgs.last());
    }
}

proof fn lemma_tally_keeps(st: StoreView, recs: Seq<RecordView>, m: Tally, a: Seq<char>)
    requires
        m.contains_key(a),
    ensures
        tally(st, recs, m).contains_key(a),
        tally(st, recs, m)[a].0 >= m[a].0,
    decreases recs.len(),
{
    if recs.len() > 0 {
        lemma_tally_keeps(st, recs.drop_last(), m, a);
        if !recs.last().session.closed {
            lemma_note_all_keeps(tally(st, recs.drop_last(), m), after(transcript(st, recs.last().session.id), 0), a);
        }
    }
}

proof fn lemma_tally_sees(st: StoreView, recs: Seq<RecordView>, m: Tally, i: int, k: int)
    requires
        0 <= i < recs.len(),
        !recs[i].session.closed,
        0 <= k < after(transcript(st, recs[i].session.id), 0).len(),
    ensures
        tally(st, recs, m).contains_key(after(transcript(st, recs[i].session.id), 0)[k].sender),
        tally(st, recs, m)[after(transcript(st, recs[i].session.id), 0)[k].sender].0
            >= after(transcript(st, recs[i].session.id), 0)[k].timestamp,
    decreases recs.len(),
{
    let x = after(transcript(st, recs[i].session.id), 0)[k];
    let prev = tally(st, recs.drop_last(), m);
    if i < recs.len() - 1 {
        assert(recs.drop_last()[i] == recs[i]);
        lemma_tally_sees(st, recs.drop_last(), m, i, k);
        if !recs.last().session.closed {
            lemma_note_all_keeps(prev, after(transcript(st, recs.last().session.id), 0), x.sender);
        }
    } else {
        assert(recs[i] == recs.last());
        lemma_note_all_sees(prev, after(transcript(st, recs.last().session.id), 0), k);
    }
}

/// An agent's last-seen time is the latest of its messages: every message
/// of an open session is counted for its sender, whose last-seen time is
/// at least the message's time.
pub proof fn lemma_last_seen_is_latest(st: StoreView, local: Option<Seq<char>>, i: int, k: int)
    requires
        0 <= i < st.sessions.len(),
        !st.sessions[i].session.closed,
        0 <= k < after(transcript(st, st.sessions[i].session.id), 0).len(),
    ensures
        agent_tally(st, local).contains_key(after(transcript(st, st.sessions[i].session.id), 0)[k].sender),
        agent_tally(st, local)[after(transcript(st, st.sessions[i].session.id), 0)[k].sender].0
            >= after(transcript(st, st.sessions[i].session.id), 0)[k].timestamp,
{
    let start = match (local, first_open(st.sessions)) {
        (Some(l), Some(c)) => Map::<Seq<char>, (i64, nat)>::empty().insert(l, (c, 0nat)),
        _ => Map::<Seq<char>, (i64, nat)>::empty(),
    };
    lemma_tally_sees(st, st.sessions, start, i, k);
}

proof fn lemma_note_source(m: Tally, s: Seq<char>, ts: i64, a: Seq<char>)
    requires
        note(m, s, ts).contains_key(a),
    ensures
        (m.contains_key(a) && note(m, s, ts)[a].0 == m[a].0) || (a == s && note(m, s, ts)[a].0 == ts),
{
}

proof fn lemma_note_all_source(m: Tally, msgs: Seq<MessageView>, a: Seq<char>)
    requires
        note_all(m, msgs).contains_key(a),
    ensures
        (m.contains_key(a) && note_all(m, msgs)[a].0 == m[a].0)
            || exists|k: int| 0 <= k < msgs.len() && (#[trigger] msgs[k]).sender == a
                && msgs[k].timestamp == note_all(m, msgs)[a].0,
    decreases msgs.len(),
{
    if msgs.len() > 0 {
        let prev = note_all(m, msgs.drop_last());
        lemma_note_source(prev, msgs.last().sender, msgs.last().timestamp, a);
        if prev.contains_key(a) && note_all(m, msgs)[a].0 == prev[a].0 {
            lemma_note_all_source(m, msgs.drop_last(), a);
            if !(m.contains_key(a) && prev[a].0 == m[a].0) {
                let k = choose|k: int| 0 <= k < msgs.drop_last().len() && (#[trigger] msgs.drop_last()[k]).sender == a
                    && msgs.drop_last()[k].timestamp == prev[a].0;
                assert(msgs[k] == msgs.drop_last()[k]);
            }
        } else {
            assert(msgs[msgs.len() - 1] == msgs.last());
        }
    }
}

proof fn lemma_tally_source(st: StoreView, recs: Seq<RecordView>, m: Tally, a: Seq<char>)
    requires
        tally(st, recs, m).contains_key(a),
    ensures
        (m.contains_key(a) && tally(st, recs, m)[a].0 == m[a].0) || sent_at(st, recs, a, tally(st, recs, m)[a].0),
    decreases recs.len(),
{
    if recs.len() > 0 {
        let prev = tally(st, recs.drop_last(), m);
        let t = tally(st, recs, m)[a].0;
        let last = recs.len() - 1;
        assert(recs[last] == recs.last());
        let msgs = after(transcript(st, recs.last().session.id), 0);
        if !recs.last().session.closed {
            lemma_note_all_source(prev, msgs, a);
        }
        if prev.contains_key(a) && t == prev[a].0 {
            lemma_tally_source(st, recs.drop_last(), m, a);
            if sent_at(st, recs.drop_last(), a, t) {
                let (i, k) = choose|i: int, k: int| 0 <= i < recs.drop_last().len() && !recs.drop_last()[i].session.closed
                    && 0 <= k < after(transcript(st, recs.drop_last()[i].session.id), 0).len()
                    && (#[trigger] after(transcript(st, recs.drop_last()[i].session.id), 0)[k]).sender == a
                    && after(transcript(st, recs.drop_last()[i].session.id), 0)[k].timestamp == t;
                assert(recs[i] == recs.drop_last()[i]);
                assert(after(transcript(st, recs[i].session.id), 0)[k].sender == a);
            }
        } else {
            let k = choose|k: int| 0 <= k < msgs.len() && (#[trigger] msgs[k]).sender == a && msgs[k].timestamp == t;
            assert(after(transcript(st, recs[last].session.id), 0)[k].sender == a);
        }
    }
}

/// An agent's last-seen time is when it was really seen: the time of one of
/// its messages in an open session, or, for the local agent, the creation
/// time of the first open session.
pub proof fn lemma_last_seen_is_seen(st: StoreView, local: Option<Seq<char>>, a: Seq<char>)
    requires
        agent_tally(st, local).contains_key(a),
    ensures
        sent_at(st, st.sessions, a, agent_tally(st, local)[a].0)
            || (local == Some(a) && first_open(st.sessions) == Some(agent_tally(st, local)[a].0)),
{
    let start = match (local, first_open(st.sessions)) {
        (Some(l), Some(c)) => Map::<Seq<char>, (i64, nat)>::empty().insert(l, (c, 0nat)),
        _ => Map::<Seq<char>, (i64, nat)>::empty(),
    };
    lemma_tally_source(st, st.sessions, start, a);
}

/// How many of `msgs` `a` sent.
pub open spec fn sent_by(msgs: Seq<MessageView>, a: Seq<char>) -> nat {
    msgs.filter(|m: MessageView| m.sender == a).len()
}

/// How many messages `a` sent in the open sessions among `recs`.
pub open spec fn open_sent_by(st: StoreView, recs: Seq<RecordView>, a: Seq<char>) -> nat
    decreases recs.len(),
{
    if recs.len() == 0 {
        0
    } else if recs.last().session.closed {
        open_sent_by(st, recs.drop_last(), a)
    } else {
        open_sent_by(st, recs.drop_last(), a) + sent_by(after(transcript(st, recs.last().session.id), 0), a)
    }
}

/// `n`, or the largest count a machine word holds when `n` is larger.
pub open spec fn capped(n: nat) -> nat {
    if n < usize::MAX { n } else { usize::MAX as nat }
}

/// The count `m` holds for `a` (0 without an entry).
pub open spec fn count_in(m: Tally, a: Seq<char>) -> nat {
    if m.contains_key(a) { m[a].1 } else { 0 }
}

proof fn lemma_note_all_count(m: Tally, msgs: Seq<MessageView>, a: Seq<char>)
    requires
        count_in(m, a) <= usize::MAX,
    ensures
        note_all(m, msgs).contains_key(a) == (m.contains_key(a) || sent_by(msgs, a) > 0),
        count_in(note_all(m, msgs), a) == capped(count_in(m, a) + sent_by(msgs, a)),
    decreases msgs.len(),
{
    reveal_with_fuel(Seq::filter, 1);
    if msgs.len() == 0 {
        assert(sent_by(msgs, a) == 0);
    } else {
        lemma_note_all_count(m, msgs.drop_last(), a);
        let pred = |x: MessageView| x.sender == a;
        if msgs.last().sender == a {
            assert(msgs.filter(pred) == msgs.drop_last().filter(pred).push(msgs.last()));
        } else {
            assert(msgs.filter(pred) == msgs.drop_last().filter(pred));
        }
    }
}

proof fn lemma_tally_count(st: StoreView, recs: Seq<RecordView>, m: Tally, a: Seq<char>)
    requires
        count_in(m, a) <= usize::MAX,
    ensures
        tally(st, recs, m).contains_key(a) == (m.contains_key(a) || open_sent_by(st, recs, a) > 0),
        count_in(tally(st, recs, m), a) == capped(count_in(m, a) + open_sent_by(st, recs, a)),
    decreases recs.len(),
{
    if recs.len() > 0 {
        lemma_tally_count(st, recs.drop_last(), m, a);
        let prev = tally(st, recs.drop_last(), m);
        if !recs.last().session.closed {
            lemma_note_all_count(prev, after(transcript(st, recs.last().session.id), 0), a);
        }
    }
}

/// An agent's message count is the number of messages it sent in open
/// sessions (up to the largest count a machine word holds), and an agent
/// is listed exactly when it sent one there or it is the local agent while
/// a session is open.
pub proof fn lemma_message_count(st: StoreView, local: Option<Seq<char>>, a: Seq<char>)
    ensures
        agent_tally(st, local).contains_key(a)
            == ((local == Some(a) && first_open(st.sessions) is Some) || open_sent_by(st, st.sessions, a) > 0),
        agent_tally(st, local).contains_key(a)
            ==> agent_tally(st, local)[a].1 == capped(open_sent_by(st, st.sessions, a)),
{
    let start = match (local, first_open(st.sessions)) {
        (Some(l), Some(c)) => Map::<Seq<char>, (i64, nat)>::empty().insert(l, (c, 0nat)),
        _ => Map::<Seq<char>, (i64, nat)>::empty(),
    };
    lemma_tally_count(st, st.sessions, start, a);
}

} // verus!
