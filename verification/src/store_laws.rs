//! Laws of the store that relate several operations.

use vstd::prelude::*;
use crate::models::MessageView;
use crate::models::SessionView;
use crate::store::{
    added_sessions, first_list, loaded_new, loaded_sessions, stored_next,
    AddOutcome, ParamsView, RecordView, StoreView, add_spec, close_spec, dedup_index, find_message,
    first_with_id, ids_ordered, indexed_message, new_message, read_index, read_spec, rename_spec,
    reopen_spec, session_index, stored, touched, unique_ids, unique_keys, unique_reads,
    DedupView, index_all, index_messages, upsert, lemma_upsert_unique, create_spec, with_fresh, fresh_record, text_params,
    is_obligation, obligations, pending_of, pending_spec, session_pending, transcript,
};
use crate::answers::{
    answer_state, is_reply_target, is_request_id, lemma_reply_to_answers, lemma_unreferenced_not_answered,
    untouched_request, lemma_untouched_request_open, lemma_out_closes_request,
};
use crate::models::Intent;

verus! {

/// With unique ids, the session at position `i` is the one found by its id.
pub proof fn lemma_session_index_at(s: Seq<RecordView>, i: int)
    requires
        unique_ids(s),
        0 <= i < s.len(),
    ensures
        session_index(s, s[i].session.id) == Some(i),
{
    let k = choose|k: int| 0 <= k < s.len() && s[k].session.id == s[i].session.id;
}

/// Every session keeps its message ids increasing and below its next id.
pub open spec fn all_ids_ordered(st: StoreView) -> bool {
    forall|i: int| 0 <= i < st.sessions.len() ==> ids_ordered(#[trigger] st.sessions[i])
}

proof fn lemma_same_ids(a: Seq<RecordView>, b: Seq<RecordView>)
    requires
        a.len() == b.len(),
        forall|i: int| 0 <= i < a.len() ==> a[i].session.id == b[i].session.id,
        unique_ids(a),
    ensures
        unique_ids(b),
        forall|id: Seq<char>| session_index(a, id) == session_index(b, id),
{
    assert forall|id: Seq<char>| session_index(a, id) == session_index(b, id) by {
        if exists|i: int| 0 <= i < a.len() && a[i].session.id == id {
            let i = choose|i: int| 0 <= i < a.len() && a[i].session.id == id;
            assert(b[i].session.id == id);
            lemma_session_index_at(a, i);
            let j = choose|j: int| 0 <= j < b.len() && b[j].session.id == id;
            assert(a[j].session.id == id);
        } else {
            assert forall|i: int| 0 <= i < b.len() implies b[i].session.id != id by {
                assert(a[i].session.id == b[i].session.id);
            }
        }
    }
}

/// Adding a message keeps every transcript's ids increasing and below the
/// session's next id, and keeps the store well formed.
pub proof fn lemma_add_keeps_ids_ordered(st: StoreView, sid: Seq<char>, p: ParamsView, now: i64)
    requires
        unique_ids(st.sessions),
        unique_keys(st.dedup),
        all_ids_ordered(st),
        session_index(st.sessions, sid) matches Some(i) ==> st.sessions[i].next_msg_id < u64::MAX,
    ensures
        all_ids_ordered(add_spec(st, sid, p, now).0),
        unique_ids(add_spec(st, sid, p, now).0.sessions),
{
    match session_index(st.sessions, sid) {
        None => {},
        Some(i) => {
            if !st.sessions[i].session.closed {
                let m = new_message(st, i, sid, p, now);
                let t = touched(st, i, now);
                lemma_same_ids(st.sessions, t.sessions);
                let s1 = stored(t, i, m);
                lemma_same_ids(st.sessions, s1.sessions);
                assert(all_ids_ordered(t)) by {
                    assert forall|j: int| 0 <= j < t.sessions.len() implies ids_ordered(#[trigger] t.sessions[j]) by {
                        assert(ids_ordered(st.sessions[j]));
                    }
                }
                assert(all_ids_ordered(s1)) by {
                    assert forall|j: int| 0 <= j < s1.sessions.len() implies ids_ordered(#[trigger] s1.sessions[j]) by {
                        assert(ids_ordered(st.sessions[j]));
                        if j == i {
                            let r = s1.sessions[j];
                            assert forall|a: int, b: int| 0 <= a < b < r.messages.len() implies r.messages[a].id < r.messages[b].id by {
                                if b == r.messages.len() - 1 {
                                    assert(r.messages[a] == st.sessions[i].messages[a]);
                                } else {
                                    assert(r.messages[a] == st.sessions[i].messages[a]);
                                    assert(r.messages[b] == st.sessions[i].messages[b]);
                                }
                            }
                            assert forall|a: int| 0 <= a < r.messages.len() implies #[trigger] r.messages[a].id < r.next_msg_id by {
                                if a < r.messages.len() - 1 {
                                    assert(r.messages[a] == st.sessions[i].messages[a]);
                                }
                            }
                        }
                    }
                }
                match p.idempotency_key {
                    None => {},
                    Some(k) => match dedup_index(t.dedup, p.sender, k) {
                        None => {},
                        Some(e) => {
                            let s2 = stored(StoreView { dedup: t.dedup.remove(e), ..t }, i, m);
                            assert(s2.sessions == s1.sessions);
                        },
                    },
                }
            }
        },
    }
}

/// Idempotency: once a send with an idempotency key has been stored, sending
/// the same parameters again to the same session (at any later time) is a
/// duplicate that returns the stored message, and stores nothing new.
pub proof fn lemma_retry_is_duplicate(st: StoreView, sid: Seq<char>, p: ParamsView, t1: i64, t2: i64)
    requires
        unique_ids(st.sessions),
        unique_keys(st.dedup),
        all_ids_ordered(st),
        session_index(st.sessions, sid) matches Some(i) ==> st.sessions[i].next_msg_id < u64::MAX - 1,
        p.idempotency_key is Some,
        add_spec(st, sid, p, t1).1 is Stored,
    ensures
        add_spec(add_spec(st, sid, p, t1).0, sid, p, t2).1 == AddOutcome::Duplicate(add_spec(st, sid, p, t1).1->Stored_0),
        forall|j: int| 0 <= j < st.sessions.len() ==>
            (#[trigger] add_spec(add_spec(st, sid, p, t1).0, sid, p, t2).0.sessions[j]).messages
                == add_spec(st, sid, p, t1).0.sessions[j].messages,
{
    let i = session_index(st.sessions, sid)->Some_0;
    let k = p.idempotency_key->Some_0;
    let m = add_spec(st, sid, p, t1).1->Stored_0;
    let s1 = add_spec(st, sid, p, t1).0;
    let t = touched(st, i, t1);
    lemma_same_ids(st.sessions, t.sessions);
    let base = match dedup_index(t.dedup, p.sender, k) {
        None => t,
        Some(e) => match indexed_message(t, t.dedup[e]) {
            Some(_) => t,
            None => StoreView { dedup: t.dedup.remove(e), ..t },
        },
    };
    assert(s1 == stored(base, i, m));
    lemma_same_ids(st.sessions, s1.sessions);
    // The index of s1 has exactly one entry for (sender, key): the new one.
    let n = s1.dedup.len() - 1;
    assert(s1.dedup[n].sender == p.sender && s1.dedup[n].key == k);
    assert(dedup_index(base.dedup, p.sender, k) is None) by {
        match dedup_index(t.dedup, p.sender, k) {
            None => {},
            Some(e) => {
                if exists|j: int| 0 <= j < base.dedup.len() && base.dedup[j].sender == p.sender && base.dedup[j].key == k {
                    let j = choose|j: int| 0 <= j < base.dedup.len() && base.dedup[j].sender == p.sender && base.dedup[j].key == k;
                    if j < e {
                        assert(t.dedup[j] == base.dedup[j]);
                    } else {
                        assert(t.dedup[j + 1] == base.dedup[j]);
                    }
                }
            },
        }
    }
    assert(dedup_index(s1.dedup, p.sender, k) == Some(n)) by {
        let c = choose|c: int| 0 <= c < s1.dedup.len() && s1.dedup[c].sender == p.sender && s1.dedup[c].key == k;
        if c < n {
            assert(base.dedup[c] == s1.dedup[c]);
        }
    }
    // The second add.
    assert(session_index(s1.sessions, sid) == Some(i));
    let u = touched(s1, i, t2);
    lemma_same_ids(s1.sessions, u.sessions);
    assert(u.dedup == s1.dedup);
    assert(dedup_index(u.dedup, p.sender, k) == Some(n));
    let e = u.dedup[n];
    assert(e.session_id == sid);
    assert(e.message_id == m.id);
    assert(session_index(u.sessions, sid) == Some(i));
    let msgs = u.sessions[i].messages;
    let last = msgs.len() - 1;
    assert(msgs[last] == m);
    assert(ids_ordered(st.sessions[i]));
    assert(first_with_id(msgs, m.id, last)) by {
        assert forall|j: int| 0 <= j < last implies msgs[j].id != m.id by {
            assert(msgs[j] == st.sessions[i].messages[j]);
            assert(st.sessions[i].messages[j].id < st.sessions[i].next_msg_id);
        }
    }
    let c = choose|c: int| first_with_id(msgs, m.id, c);
    assert(c == last);
    assert(find_message(msgs, m.id) == Some(m));
    assert(indexed_message(u, e) == Some(m));
    assert forall|j: int| 0 <= j < st.sessions.len() implies
        (#[trigger] add_spec(s1, sid, p, t2).0.sessions[j]).messages == s1.sessions[j].messages by {
        assert(add_spec(s1, sid, p, t2).0 == u);
    }
}

/// A conflict: once a send with an idempotency key has been stored, sending
/// other parts with the same sender and key to the same session is refused
/// with the stored message.
pub proof fn lemma_other_parts_conflict(st: StoreView, sid: Seq<char>, p: ParamsView, q: ParamsView, t1: i64, t2: i64)
    requires
        unique_ids(st.sessions),
        unique_keys(st.dedup),
        all_ids_ordered(st),
        session_index(st.sessions, sid) matches Some(i) ==> st.sessions[i].next_msg_id < u64::MAX - 1,
        p.idempotency_key is Some,
        q.idempotency_key == p.idempotency_key,
        q.sender == p.sender,
        q.parts != p.parts,
        add_spec(st, sid, p, t1).1 is Stored,
    ensures
        add_spec(add_spec(st, sid, p, t1).0, sid, q, t2).1 == AddOutcome::KeyConflict(add_spec(st, sid, p, t1).1->Stored_0),
{
    lemma_retry_is_duplicate(st, sid, p, t1, t2);
    let s1 = add_spec(st, sid, p, t1).0;
    let i = session_index(st.sessions, sid)->Some_0;
    let u = touched(s1, i, t2);
    assert(touched(s1, i, t2) == u);
}

/// A closed session refuses messages and nothing changes; closing it again
/// answers `false`.
pub proof fn lemma_closed_refuses(st: StoreView, sid: Seq<char>, p: ParamsView, t1: i64, t2: i64)
    requires
        unique_ids(st.sessions),
        close_spec(st, sid, t1).1,
    ensures
        add_spec(close_spec(st, sid, t1).0, sid, p, t2) == (close_spec(st, sid, t1).0, AddOutcome::Unavailable),
        close_spec(close_spec(st, sid, t1).0, sid, t2) == (close_spec(st, sid, t1).0, false),
{
    let i = session_index(st.sessions, sid)->Some_0;
    let s1 = close_spec(st, sid, t1).0;
    lemma_same_ids(st.sessions, s1.sessions);
    assert(s1.sessions[i].session.closed);
}

/// Reopening a closed session opens it again, and it accepts messages.
pub proof fn lemma_reopen_after_close(st: StoreView, sid: Seq<char>, t1: i64, t2: i64)
    requires
        unique_ids(st.sessions),
        close_spec(st, sid, t1).1,
    ensures
        reopen_spec(close_spec(st, sid, t1).0, sid, t2).1,
        ({
            let s2 = reopen_spec(close_spec(st, sid, t1).0, sid, t2).0;
            session_index(s2.sessions, sid) matches Some(i) && !s2.sessions[i].session.closed
        }),
{
    let i = session_index(st.sessions, sid)->Some_0;
    let s1 = close_spec(st, sid, t1).0;
    lemma_same_ids(st.sessions, s1.sessions);
    let s2 = reopen_spec(s1, sid, t2).0;
    lemma_same_ids(s1.sessions, s2.sessions);
}

/// Read receipts never go down: after recording a read, the reader's
/// receipt is at least what it was and at least what was just read.
pub proof fn lemma_read_monotone(reads: Seq<crate::store::ReadView>, sid: Seq<char>, sender: Seq<char>, up_to: u64)
    requires
        unique_reads(reads),
    ensures
        ({
            let r2 = read_spec(reads, sid, sender, up_to);
            &&& read_index(r2, sid, sender) matches Some(j)
            &&& r2[j].up_to >= up_to
            &&& (read_index(reads, sid, sender) matches Some(k) ==> r2[j].up_to >= reads[k].up_to)
            &&& unique_reads(r2)
        }),
{
    let r2 = read_spec(reads, sid, sender, up_to);
    match read_index(reads, sid, sender) {
        Some(k) => {
            assert(r2[k].session_id == sid && r2[k].sender == sender);
            assert forall|a: int, b: int| 0 <= a < r2.len() && 0 <= b < r2.len() && r2[a].session_id == r2[b].session_id
                && r2[a].sender == r2[b].sender implies a == b by {
                assert(r2[a].session_id == reads[a].session_id && r2[a].sender == reads[a].sender);
                assert(r2[b].session_id == reads[b].session_id && r2[b].sender == reads[b].sender);
            }
            let j = choose|j: int| 0 <= j < r2.len() && r2[j].session_id == sid && r2[j].sender == sender;
            assert(j == k);
        },
        None => {
            let n = reads.len() as int;
            assert(r2[n].session_id == sid && r2[n].sender == sender);
            assert forall|a: int, b: int| 0 <= a < r2.len() && 0 <= b < r2.len() && r2[a].session_id == r2[b].session_id
                && r2[a].sender == r2[b].sender implies a == b by {
                if a < n && b < n {
                    assert(r2[a] == reads[a] && r2[b] == reads[b]);
                } else if a < n {
                    assert(r2[a] == reads[a]);
                } else if b < n {
                    assert(r2[b] == reads[b]);
                }
            }
            let j = choose|j: int| 0 <= j < r2.len() && r2[j].session_id == sid && r2[j].sender == sender;
            if j < n {
                assert(r2[j] == reads[j]);
            }
        },
    }
}

/// No two sessions share a name.
pub open spec fn unique_names(s: Seq<RecordView>) -> bool {
    forall|a: int, b: int| 0 <= a < s.len() && 0 <= b < s.len() && s[a].session.name is Some
        && s[a].session.name == s[b].session.name ==> a == b
}

/// Renaming never makes two sessions share a name.
pub proof fn lemma_rename_keeps_names_unique(st: StoreView, sid: Seq<char>, name: Seq<char>)
    requires
        unique_ids(st.sessions),
        unique_names(st.sessions),
    ensures
        unique_names(rename_spec(st, sid, name).0.sessions),
        unique_ids(rename_spec(st, sid, name).0.sessions),
{
    let s2 = rename_spec(st, sid, name).0;
    lemma_same_ids(st.sessions, s2.sessions);
    match session_index(st.sessions, sid) {
        Some(i) => {
            if !crate::store::name_taken(st, sid, name) {
                assert forall|a: int, b: int| 0 <= a < s2.sessions.len() && 0 <= b < s2.sessions.len() && s2.sessions[a].session.name is Some
                    && s2.sessions[a].session.name == s2.sessions[b].session.name implies a == b by {
                    if a == i && b != i {
                        assert(st.sessions[b].session.name == Some(name));
                        assert(st.sessions[b].session.id != sid);
                    } else if b == i && a != i {
                        assert(st.sessions[a].session.name == Some(name));
                        assert(st.sessions[a].session.id != sid);
                    }
                }
            }
        },
        None => {},
    }
}

/// The sessions of a store as the daemon persists them (see
/// `Store::snapshot`).
pub open spec fn persisted_sessions(st: StoreView) -> Seq<SessionView> {
    st.sessions.map_values(|x: RecordView| x.session)
}

/// The transcripts of a store as the daemon persists them.
pub open spec fn persisted_lists(recs: Seq<RecordView>) -> Seq<(Seq<char>, Seq<MessageView>)> {
    recs.filter(|x: RecordView| x.messages.len() > 0).map_values(|x: RecordView| (x.session.id, x.messages))
}

/// The next message ids of a store as the daemon persists them.
pub open spec fn persisted_nexts(recs: Seq<RecordView>) -> Seq<(Seq<char>, u64)> {
    recs.map_values(|x: RecordView| (x.session.id, x.next_msg_id))
}

proof fn lemma_unique_prefix(s: Seq<RecordView>)
    requires
        unique_ids(s),
        s.len() > 0,
    ensures
        unique_ids(s.drop_last()),
        forall|j: int| 0 <= j < s.len() - 1 ==> s[j].session.id != s.last().session.id,
{
    assert forall|j: int| 0 <= j < s.len() - 1 implies s[j].session.id != s.last().session.id by {
        if s[j].session.id == s.last().session.id {
            assert(s[j].session.id == s[s.len() - 1].session.id);
        }
    }
}

/// With unique ids nothing is dropped when loading into an empty store.
proof fn lemma_added_all(recs: Seq<RecordView>)
    requires
        unique_ids(recs),
    ensures
        added_sessions(Seq::<RecordView>::empty(), recs.map_values(|x: RecordView| x.session))
            == recs.map_values(|x: RecordView| x.session),
    decreases recs.len(),
{
    let ls = recs.map_values(|x: RecordView| x.session);
    if recs.len() > 0 {
        lemma_unique_prefix(recs);
        lemma_added_all(recs.drop_last());
        assert(recs.drop_last().map_values(|x: RecordView| x.session) =~= ls.drop_last());
        let prev = added_sessions(Seq::<RecordView>::empty(), ls.drop_last());
        assert(!(exists|j: int| 0 <= j < prev.len() && prev[j].id == ls.last().id)) by {
            if exists|j: int| 0 <= j < prev.len() && prev[j].id == ls.last().id {
                let j = choose|j: int| 0 <= j < prev.len() && prev[j].id == ls.last().id;
                assert(prev[j] == recs[j].session);
                assert(recs[j].session.id != recs.last().session.id);
            }
        }
        assert(prev.push(ls.last()) =~= ls);
    } else {
        assert(ls =~= Seq::<SessionView>::empty());
    }
}

/// The stored next id of each session is its own.
proof fn lemma_stored_next_own(recs: Seq<RecordView>, i: int)
    requires
        unique_ids(recs),
        0 <= i < recs.len(),
    ensures
        stored_next(persisted_nexts(recs), recs[i].session.id) == Some(recs[i].next_msg_id),
    decreases recs.len(),
{
    let ln = persisted_nexts(recs);
    assert(ln.last() == (recs.last().session.id, recs.last().next_msg_id));
    if i < recs.len() - 1 {
        lemma_unique_prefix(recs);
        assert(ln.drop_last() =~= persisted_nexts(recs.drop_last()));
        assert(recs.drop_last()[i] == recs[i]);
        lemma_stored_next_own(recs.drop_last(), i);
    }
}

/// The first entry for `id` in a list with one more entry at its end.
proof fn lemma_first_list_push(a: Seq<(Seq<char>, Seq<MessageView>)>, x: (Seq<char>, Seq<MessageView>), id: Seq<char>)
    ensures
        first_list(a.push(x), id) == match first_list(a, id) {
            Some(l) => Some(l),
            None => if x.0 == id { Some(x.1) } else { None },
        },
    decreases a.len(),
{
    if a.len() > 0 {
        assert(a.push(x)[0] == a[0]);
        assert(a.push(x).drop_first() =~= a.drop_first().push(x));
        lemma_first_list_push(a.drop_first(), x, id);
    } else {
        assert(a.push(x)[0] == x);
        assert(a.push(x).len() == 1);
        assert(a.push(x).drop_first() =~= Seq::<(Seq<char>, Seq<MessageView>)>::empty());
        assert(first_list(Seq::<(Seq<char>, Seq<MessageView>)>::empty(), id) is None);
    }
}

/// The stored transcript of each session is its own (none when it has no
/// message).
proof fn lemma_first_list_own(recs: Seq<RecordView>, i: int)
    requires
        unique_ids(recs),
        0 <= i < recs.len(),
    ensures
        first_list(persisted_lists(recs), recs[i].session.id)
            == if recs[i].messages.len() > 0 { Some(recs[i].messages) } else { None },
    decreases recs.len(),
{
    reveal_with_fuel(Seq::filter, 1);
    let has = |x: RecordView| x.messages.len() > 0;
    let g = |x: RecordView| (x.session.id, x.messages);
    let id = recs[i].session.id;
    let prev = recs.drop_last();
    lemma_unique_prefix(recs);
    let before = prev.filter(has).map_values(g);
    if has(recs.last()) {
        assert(persisted_lists(recs) =~= before.push(g(recs.last())));
        lemma_first_list_push(before, g(recs.last()), id);
    } else {
        assert(persisted_lists(recs) =~= before);
    }
    if i < recs.len() - 1 {
        assert(prev[i] == recs[i]);
        lemma_first_list_own(prev, i);
    } else {
        lemma_first_list_absent(prev, id);
    }
}

/// A session id that no earlier session has has no stored transcript among them.
proof fn lemma_first_list_absent(recs: Seq<RecordView>, id: Seq<char>)
    requires
        forall|j: int| 0 <= j < recs.len() ==> recs[j].session.id != id,
    ensures
        first_list(persisted_lists(recs), id) is None,
    decreases recs.len(),
{
    reveal_with_fuel(Seq::filter, 1);
    if recs.len() > 0 {
        let has = |x: RecordView| x.messages.len() > 0;
        let g = |x: RecordView| (x.session.id, x.messages);
        let prev = recs.drop_last();
        lemma_first_list_absent(prev, id);
        let before = prev.filter(has).map_values(g);
        if has(recs.last()) {
            assert(persisted_lists(recs) =~= before.push(g(recs.last())));
            lemma_first_list_push(before, g(recs.last()), id);
        } else {
            assert(persisted_lists(recs) =~= before);
        }
    } else {
        assert(persisted_lists(recs) =~= Seq::<(Seq<char>, Seq<MessageView>)>::empty());
    }
}

/// A restarted daemon gets its sessions back: loading what a store persisted
/// into an empty store gives the same sessions, with the same names and
/// closed flags, the same transcripts and the same next message ids.
pub proof fn lemma_restart_restores_sessions(st: StoreView, fresh: StoreView)
    requires
        unique_ids(st.sessions),
        fresh.sessions.len() == 0,
    ensures
        loaded_sessions(fresh, persisted_sessions(st), persisted_lists(st.sessions), persisted_nexts(st.sessions))
            == st.sessions,
{
    let recs = st.sessions;
    let ls = persisted_sessions(st);
    let lm = persisted_lists(recs);
    let ln = persisted_nexts(recs);
    lemma_added_all(recs);
    assert(fresh.sessions =~= Seq::<RecordView>::empty());
    assert(added_sessions(fresh.sessions, ls) == ls);
    assert forall|i: int| 0 <= i < recs.len() implies #[trigger] loaded_new(ls[i], lm, ln) == recs[i] by {
        lemma_stored_next_own(recs, i);
        lemma_first_list_own(recs, i);
        if recs[i].messages.len() == 0 {
            assert(recs[i].messages =~= Seq::<MessageView>::empty());
        }
    }
    assert(fresh.sessions.map_values(|r: RecordView| crate::store::loaded_old(r, lm, ln)) =~= Seq::<RecordView>::empty());
    assert(loaded_sessions(fresh, ls, lm, ln) =~= recs);
}


/// The index entry for sender `s` and key `k`, if there is one.
pub open spec fn entry_for(d: Seq<DedupView>, s: Seq<char>, k: Seq<char>) -> Option<DedupView> {
    match dedup_index(d, s, k) {
        Some(j) => Some(d[j]),
        None => None,
    }
}

/// Whether message `m` was sent by `s` with idempotency key `k`.
pub open spec fn keyed_by(m: MessageView, s: Seq<char>, k: Seq<char>) -> bool {
    m.sender == s && m.idempotency_key == Some(k)
}

/// With unique keys, the entry for (`s`, `k`) is the one at any position
/// that carries them.
proof fn lemma_entry_at(d: Seq<DedupView>, s: Seq<char>, k: Seq<char>, j: int)
    requires
        unique_keys(d),
        0 <= j < d.len(),
        d[j].sender == s,
        d[j].key == k,
    ensures
        entry_for(d, s, k) == Some(d[j]),
{
    let c = choose|c: int| 0 <= c < d.len() && d[c].sender == s && d[c].key == k;
}

/// Putting `e` in makes it the entry for its sender and key and leaves the
/// other entries as they were.
proof fn lemma_upsert_entry(d: Seq<DedupView>, e: DedupView, s: Seq<char>, k: Seq<char>)
    requires
        unique_keys(d),
    ensures
        entry_for(upsert(d, e), s, k) == if e.sender == s && e.key == k { Some(e) } else { entry_for(d, s, k) },
{
    lemma_upsert_unique(d, e);
    let d2 = upsert(d, e);
    let (pos, len2) = match dedup_index(d, e.sender, e.key) {
        Some(j) => (j, d.len() as int),
        None => (d.len() as int, d.len() + 1int),
    };
    assert(d2.len() == len2);
    assert(d2[pos] == e);
    assert(forall|a: int| 0 <= a < d.len() && a != pos ==> d2[a] == d[a]);
    if e.sender == s && e.key == k {
        lemma_entry_at(d2, s, k, pos);
    } else {
        match dedup_index(d, s, k) {
            Some(j) => {
                assert(j != pos) by {
                    if j == pos {
                        let w = choose|w: int| 0 <= w < d.len() && d[w].sender == e.sender && d[w].key == e.key;
                    }
                }
                assert(d2[j] == d[j]);
                lemma_entry_at(d2, s, k, j);
            },
            None => {
                assert forall|a: int| 0 <= a < d2.len() implies !(d2[a].sender == s && d2[a].key == k) by {
                    if a != pos {
                        assert(d2[a] == d[a]);
                    }
                }
            },
        }
    }
}

/// Indexing a transcript keeps the keys unique; the entry for (`s`, `k`)
/// stays as it was when no message carries them, and names the last
/// message when that one does.
proof fn lemma_index_messages_entry(d: Seq<DedupView>, sid: Seq<char>, msgs: Seq<MessageView>, s: Seq<char>, k: Seq<char>)
    requires
        unique_keys(d),
    ensures
        unique_keys(index_messages(d, sid, msgs)),
        (forall|j: int| 0 <= j < msgs.len() ==> !keyed_by(#[trigger] msgs[j], s, k))
            ==> entry_for(index_messages(d, sid, msgs), s, k) == entry_for(d, s, k),
        msgs.len() > 0 && keyed_by(msgs.last(), s, k) ==> entry_for(index_messages(d, sid, msgs), s, k)
            == Some(DedupView { sender: s, key: k, session_id: sid, message_id: msgs.last().id }),
    decreases msgs.len(),
{
    if msgs.len() > 0 {
        let rest = msgs.drop_last();
        lemma_index_messages_entry(d, sid, rest, s, k);
        let d1 = index_messages(d, sid, rest);
        let m = msgs.last();
        if (forall|j: int| 0 <= j < msgs.len() ==> !keyed_by(#[trigger] msgs[j], s, k)) {
            assert forall|j: int| 0 <= j < rest.len() implies !keyed_by(#[trigger] rest[j], s, k) by {
                assert(rest[j] == msgs[j]);
            }
            assert(!keyed_by(msgs[msgs.len() - 1], s, k));
        }
        match m.idempotency_key {
            Some(km) => {
                let e = DedupView { sender: m.sender, key: km, session_id: sid, message_id: m.id };
                lemma_upsert_unique(d1, e);
                lemma_upsert_entry(d1, e, s, k);
            },
            None => {},
        }
    }
}

/// Indexing every transcript keeps the keys unique.
proof fn lemma_index_all_unique(d: Seq<DedupView>, recs: Seq<RecordView>)
    requires
        unique_keys(d),
    ensures
        unique_keys(index_all(d, recs)),
    decreases recs.len(),
{
    if recs.len() > 0 {
        lemma_index_all_unique(d, recs.drop_last());
        lemma_index_messages_entry(index_all(d, recs.drop_last()), recs.last().session.id, recs.last().messages, Seq::empty(), Seq::empty());
    }
}

/// After indexing every transcript, the entry for (`s`, `k`) names the last
/// message of session `i` when that message carries them and no later
/// session has a message that does.
proof fn lemma_index_all_entry(d: Seq<DedupView>, recs: Seq<RecordView>, s: Seq<char>, k: Seq<char>, i: int)
    requires
        unique_keys(d),
        0 <= i < recs.len(),
        recs[i].messages.len() > 0,
        keyed_by(recs[i].messages.last(), s, k),
        forall|a: int, j: int| i < a < recs.len() && 0 <= j < recs[a].messages.len()
            ==> !keyed_by(#[trigger] recs[a].messages[j], s, k),
    ensures
        entry_for(index_all(d, recs), s, k)
            == Some(DedupView { sender: s, key: k, session_id: recs[i].session.id, message_id: recs[i].messages.last().id }),
    decreases recs.len(),
{
    let rest = recs.drop_last();
    let last = recs.last();
    lemma_index_all_unique(d, rest);
    lemma_index_messages_entry(index_all(d, rest), last.session.id, last.messages, s, k);
    if i < recs.len() - 1 {
        assert forall|a: int, j: int| i < a < rest.len() && 0 <= j < rest[a].messages.len()
            implies !keyed_by(#[trigger] rest[a].messages[j], s, k) by {
            assert(rest[a] == recs[a]);
        }
        lemma_index_all_entry(d, rest, s, k, i);
        assert(rest[i] == recs[i]);
        assert forall|j: int| 0 <= j < last.messages.len() implies !keyed_by(#[trigger] last.messages[j], s, k) by {
            assert(recs[recs.len() - 1].messages[j] == last.messages[j]);
        }
    }
}

/// Idempotency survives a restart: once a send with a key its sender had
/// not used before has been stored, a daemon restarted from what the store
/// persisted (an empty store that loaded it) answers the same send to the
/// same session as a duplicate that returns the stored message.
pub proof fn lemma_retry_after_restart(st: StoreView, sid: Seq<char>, p: ParamsView, t1: i64, t2: i64, fresh: StoreView)
    requires
        unique_ids(st.sessions),
        unique_keys(st.dedup),
        all_ids_ordered(st),
        session_index(st.sessions, sid) matches Some(i) ==> st.sessions[i].next_msg_id < u64::MAX - 1,
        p.idempotency_key matches Some(k) && forall|a: int, j: int|
            0 <= a < st.sessions.len() && 0 <= j < st.sessions[a].messages.len()
                ==> !keyed_by(#[trigger] st.sessions[a].messages[j], p.sender, k),
        add_spec(st, sid, p, t1).1 is Stored,
        fresh.sessions.len() == 0,
        fresh.dedup.len() == 0,
    ensures
        ({
            let s1 = add_spec(st, sid, p, t1).0;
            let back = loaded_sessions(fresh, persisted_sessions(s1), persisted_lists(s1.sessions), persisted_nexts(s1.sessions));
            let restarted = StoreView { sessions: back, dedup: index_all(fresh.dedup, back), ..fresh };
            add_spec(restarted, sid, p, t2).1 == AddOutcome::Duplicate(add_spec(st, sid, p, t1).1->Stored_0)
        }),
{
    let i = session_index(st.sessions, sid)->Some_0;
    let k = p.idempotency_key->Some_0;
    let m = add_spec(st, sid, p, t1).1->Stored_0;
    let s1 = add_spec(st, sid, p, t1).0;
    lemma_add_keeps_ids_ordered(st, sid, p, t1);
    let t = touched(st, i, t1);
    lemma_same_ids(st.sessions, t.sessions);
    let base = match dedup_index(t.dedup, p.sender, k) {
        None => t,
        Some(e) => match indexed_message(t, t.dedup[e]) {
            Some(_) => t,
            None => StoreView { dedup: t.dedup.remove(e), ..t },
        },
    };
    assert(s1 == stored(base, i, m));
    assert(m == new_message(st, i, sid, p, t1));
    lemma_same_ids(st.sessions, s1.sessions);
    // The restarted daemon has the same sessions.
    lemma_restart_restores_sessions(s1, fresh);
    let back = s1.sessions;
    let d = index_all(fresh.dedup, back);
    assert(fresh.dedup =~= Seq::<DedupView>::empty());
    lemma_index_all_unique(fresh.dedup, back);
    // Its index names the stored message for (sender, key).
    assert(back[i].messages.last() == m);
    assert forall|a: int, j: int| i < a < back.len() && 0 <= j < back[a].messages.len()
        implies !keyed_by(#[trigger] back[a].messages[j], p.sender, k) by {
        assert(back[a].messages == st.sessions[a].messages);
        assert(back[a].messages[j] == st.sessions[a].messages[j]);
    }
    lemma_index_all_entry(fresh.dedup, back, p.sender, k, i);
    lemma_session_index_at(back, i);
    assert(back[i].session.id == sid);
    // The retry.
    let restarted = StoreView { sessions: back, dedup: d, ..fresh };
    assert(session_index(restarted.sessions, sid) == Some(i));
    assert(!restarted.sessions[i].session.closed);
    let u = touched(restarted, i, t2);
    lemma_same_ids(back, u.sessions);
    let e = dedup_index(u.dedup, p.sender, k)->Some_0;
    assert(u.dedup[e] == DedupView { sender: p.sender, key: k, session_id: sid, message_id: m.id });
    assert(session_index(u.sessions, sid) == Some(i));
    let msgs = u.sessions[i].messages;
    let last = msgs.len() - 1;
    assert(msgs[last] == m);
    assert(ids_ordered(st.sessions[i]));
    assert(first_with_id(msgs, m.id, last)) by {
        assert forall|j: int| 0 <= j < last implies msgs[j].id != m.id by {
            assert(msgs[j] == st.sessions[i].messages[j]);
            assert(st.sessions[i].messages[j].id < st.sessions[i].next_msg_id);
        }
    }
    let c = choose|c: int| first_with_id(msgs, m.id, c);
    assert(c == last);
    assert(find_message(msgs, m.id) == Some(m));
    assert(indexed_message(u, u.dedup[e]) == Some(m));
}


/// No obligation of `s` is request `r` of a session whose transcript
/// answers `r`.
proof fn lemma_pending_skips_answered(s: Seq<RecordView>, now: i64, sid: Seq<char>, r: u64)
    requires
        forall|k: int| 0 <= k < s.len() && (#[trigger] s[k]).session.id == sid
            ==> answer_state(s[k].messages).answered.contains(r),
    ensures
        forall|j: int| 0 <= j < pending_spec(s, now).len() ==> !((#[trigger] pending_spec(s, now)[j]).session_id == sid
            && pending_spec(s, now)[j].message_id == r),
    decreases s.len(),
{
    if s.len() > 0 {
        let rest = s.drop_last();
        let last = s.last();
        assert forall|k: int| 0 <= k < rest.len() && (#[trigger] rest[k]).session.id == sid
            implies answer_state(rest[k].messages).answered.contains(r) by {
            assert(rest[k] == s[k]);
        }
        lemma_pending_skips_answered(rest, now, sid, r);
        let before = pending_spec(rest, now);
        let mine = session_pending(last, now);
        assert(pending_spec(s, now) == before + mine);
        assert forall|j: int| 0 <= j < pending_spec(s, now).len() implies !((#[trigger] pending_spec(s, now)[j]).session_id == sid
            && pending_spec(s, now)[j].message_id == r) by {
            if j >= before.len() {
                let q = j - before.len();
                assert(pending_spec(s, now)[j] == mine[q]);
                assert(!last.session.closed);
                let a = answer_state(last.messages);
                let pred = |m: MessageView| is_obligation(a, m);
                let kept = last.messages.filter(pred);
                assert(mine == kept.map_values(|m: MessageView| pending_of(last.session, m, now)));
                assert(mine[q] == pending_of(last.session, kept[q], now));
                last.messages.lemma_filter_pred(pred, q);
                if last.session.id == sid {
                    assert(s[s.len() - 1] == last);
                    assert(a.answered.contains(r));
                }
            }
        }
    }
}

/// A reply clears what it answers: once a message that names request `r`
/// in `reply_to` has been stored in a session, `r` is no longer pending in
/// that session.
pub proof fn lemma_reply_clears_pending(st: StoreView, sid: Seq<char>, p: ParamsView, t: i64, now: i64)
    requires
        unique_ids(st.sessions),
        p.reply_to is Some,
        add_spec(st, sid, p, t).1 is Stored,
    ensures
        forall|j: int| 0 <= j < pending_spec(add_spec(st, sid, p, t).0.sessions, now).len()
            ==> !((#[trigger] pending_spec(add_spec(st, sid, p, t).0.sessions, now)[j]).session_id == sid
                && pending_spec(add_spec(st, sid, p, t).0.sessions, now)[j].message_id == p.reply_to->Some_0),
{
    let r = p.reply_to->Some_0;
    let i = session_index(st.sessions, sid)->Some_0;
    let s1 = add_spec(st, sid, p, t).0;
    let m = add_spec(st, sid, p, t).1->Stored_0;
    let tt = touched(st, i, t);
    lemma_same_ids(st.sessions, tt.sessions);
    lemma_same_ids(st.sessions, s1.sessions);
    let msgs = s1.sessions[i].messages;
    assert(msgs.last() == m);
    assert(m.reply_to == Some(r));
    lemma_reply_to_answers(msgs, msgs.len() - 1, r);
    assert forall|k: int| 0 <= k < s1.sessions.len() && (#[trigger] s1.sessions[k]).session.id == sid
        implies answer_state(s1.sessions[k].messages).answered.contains(r) by {
        lemma_session_index_at(s1.sessions, k);
        assert(s1.sessions[i].session.id == sid);
        lemma_session_index_at(s1.sessions, i);
    }
    lemma_pending_skips_answered(s1.sessions, now, sid, r);
}


/// A stored message is read back: after a send is stored, the session's
/// transcript is the old one followed by the new message, and every other
/// session's transcript is unchanged.
pub proof fn lemma_stored_is_read_back(st: StoreView, sid: Seq<char>, p: ParamsView, t: i64, other: Seq<char>)
    requires
        unique_ids(st.sessions),
        add_spec(st, sid, p, t).1 is Stored,
    ensures
        transcript(add_spec(st, sid, p, t).0, sid) == transcript(st, sid).push(add_spec(st, sid, p, t).1->Stored_0),
        other != sid ==> transcript(add_spec(st, sid, p, t).0, other) == transcript(st, other),
{
    let i = session_index(st.sessions, sid)->Some_0;
    let s1 = add_spec(st, sid, p, t).0;
    let tt = touched(st, i, t);
    lemma_same_ids(st.sessions, tt.sessions);
    lemma_same_ids(st.sessions, s1.sessions);
    assert(session_index(s1.sessions, sid) == Some(i));
    if other != sid {
        match session_index(st.sessions, other) {
            Some(k) => {
                assert(k != i);
                assert(s1.sessions[k].messages == st.sessions[k].messages);
            },
            None => {},
        }
    }
}


/// Every session's next message id is its message count plus one.
pub open spec fn ids_count_messages(st: StoreView) -> bool {
    forall|i: int| 0 <= i < st.sessions.len()
        ==> (#[trigger] st.sessions[i]).next_msg_id == st.sessions[i].messages.len() + 1
}

/// Ids count messages while no send is a retry: a send that is stored (or
/// refused) keeps every session's next id at its message count plus one,
/// and a stored message takes the id that follows the session's count.
pub proof fn lemma_stored_id_follows_count(st: StoreView, sid: Seq<char>, p: ParamsView, t: i64)
    requires
        unique_ids(st.sessions),
        ids_count_messages(st),
        session_index(st.sessions, sid) matches Some(i) ==> st.sessions[i].next_msg_id < u64::MAX,
        !(add_spec(st, sid, p, t).1 is Duplicate),
        !(add_spec(st, sid, p, t).1 is KeyConflict),
    ensures
        ids_count_messages(add_spec(st, sid, p, t).0),
        add_spec(st, sid, p, t).1 matches AddOutcome::Stored(m) ==> m.id == transcript(st, sid).len() + 1,
{
    match session_index(st.sessions, sid) {
        None => {},
        Some(i) => {
            if !st.sessions[i].session.closed {
                let s1 = add_spec(st, sid, p, t).0;
                let tt = touched(st, i, t);
                lemma_same_ids(st.sessions, tt.sessions);
                assert forall|j: int| 0 <= j < s1.sessions.len()
                    implies (#[trigger] s1.sessions[j]).next_msg_id == s1.sessions[j].messages.len() + 1 by {
                    assert(st.sessions[j].next_msg_id == st.sessions[j].messages.len() + 1);
                }
            }
        },
    }
}

/// Creating a session keeps every next id at its session's message count
/// plus one: the new session starts at 1, or at 2 after its first message.
pub proof fn lemma_create_keeps_count(st: StoreView, id: Seq<char>, name: Option<Seq<char>>, initial: Option<(Seq<char>, Seq<char>)>, now: i64)
    requires
        unique_ids(st.sessions),
        session_index(st.sessions, id) is None,
        ids_count_messages(st),
    ensures
        ids_count_messages(create_spec(st, id, name, initial, now)),
{
    let w = with_fresh(st, id, name, now);
    let n = st.sessions.len() as int;
    assert(ids_count_messages(w)) by {
        assert forall|j: int| 0 <= j < w.sessions.len()
            implies (#[trigger] w.sessions[j]).next_msg_id == w.sessions[j].messages.len() + 1 by {
            if j < n {
                assert(w.sessions[j] == st.sessions[j]);
            }
        }
    }
    assert(unique_ids(w.sessions)) by {
        assert forall|a: int, b: int| 0 <= a < w.sessions.len() && 0 <= b < w.sessions.len()
            && w.sessions[a].session.id == w.sessions[b].session.id implies a == b by {
            if a < n && b == n {
                assert(st.sessions[a].session.id == id);
            } else if b < n && a == n {
                assert(st.sessions[b].session.id == id);
            }
        }
    }
    if let Some((sender, content)) = initial {
        lemma_session_index_at(w.sessions, n);
        lemma_stored_id_follows_count(w, id, text_params(sender, content), now);
    }
}

/// Ids keep counting messages across a restart: when every next id of a
/// store is its session's message count plus one, the same holds of an
/// empty store that loaded what it persisted, so the next message of a
/// session with `k` messages gets id `k + 1` there too.
pub proof fn lemma_restart_keeps_count(st: StoreView, fresh: StoreView, after: StoreView)
    requires
        unique_ids(st.sessions),
        ids_count_messages(st),
        fresh.sessions.len() == 0,
        after.sessions == loaded_sessions(fresh, persisted_sessions(st), persisted_lists(st.sessions), persisted_nexts(st.sessions)),
    ensures
        ids_count_messages(after),
{
    lemma_restart_restores_sessions(st, fresh);
}

/// Every obligation of one session is among the obligations of all.
proof fn lemma_session_pending_listed(s: Seq<RecordView>, now: i64, i: int, p: int)
    requires
        0 <= i < s.len(),
        0 <= p < session_pending(s[i], now).len(),
    ensures
        pending_spec(s, now).contains(session_pending(s[i], now)[p]),
    decreases s.len(),
{
    let x = session_pending(s[i], now)[p];
    let before = pending_spec(s.drop_last(), now);
    assert(pending_spec(s, now) == before + session_pending(s.last(), now));
    if i == s.len() - 1 {
        assert(s[i] == s.last());
        assert(pending_spec(s, now)[before.len() + p] == x);
    } else {
        assert(s.drop_last()[i] == s[i]);
        lemma_session_pending_listed(s.drop_last(), now, i, p);
        let q = choose|q: int| 0 <= q < before.len() && before[q] == x;
        assert(pending_spec(s, now)[q] == x);
    }
}

/// A reply or notice sent expecting a reply stays owed while nothing
/// answers it: in an open session whose message ids are distinct, such a
/// message that no message names in `reply_to` is listed among the pending
/// obligations, with its session, id, sender and intent.
pub proof fn lemma_expected_reply_is_pending(st: StoreView, i: int, k: int, now: i64)
    requires
        0 <= i < st.sessions.len(),
        !st.sessions[i].session.closed,
        ids_ordered(st.sessions[i]),
        0 <= k < st.sessions[i].messages.len(),
        st.sessions[i].messages[k].intent == Intent::Reply || st.sessions[i].messages[k].intent == Intent::Fyi,
        st.sessions[i].messages[k].expect_reply,
        forall|j: int| 0 <= j < st.sessions[i].messages.len()
            ==> (#[trigger] st.sessions[i].messages[j]).reply_to != Some(st.sessions[i].messages[k].id),
    ensures
        exists|q: int| 0 <= q < pending_spec(st.sessions, now).len()
            && (#[trigger] pending_spec(st.sessions, now)[q]).session_id == st.sessions[i].session.id
            && pending_spec(st.sessions, now)[q].message_id == st.sessions[i].messages[k].id
            && pending_spec(st.sessions, now)[q].sender == st.sessions[i].messages[k].sender
            && pending_spec(st.sessions, now)[q].intent == st.sessions[i].messages[k].intent,
{
    let r = st.sessions[i];
    let msgs = r.messages;
    let m = msgs[k];
    assert(!is_request_id(msgs, m.id)) by {
        if is_request_id(msgs, m.id) {
            let j = choose|j: int| 0 <= j < msgs.len() && msgs[j].intent == Intent::Req && msgs[j].id == m.id;
            if j < k {
                assert(msgs[j].id < msgs[k].id);
            } else if j > k {
                assert(msgs[k].id < msgs[j].id);
            }
        }
    }
    assert(!is_reply_target(msgs, m.id)) by {
        if is_reply_target(msgs, m.id) {
            let j = choose|j: int| 0 <= j < msgs.len() && msgs[j].reply_to == Some(m.id);
            assert(msgs[j].reply_to != Some(m.id));
        }
    }
    lemma_unreferenced_not_answered(msgs, m.id);
    let a = answer_state(msgs);
    assert(is_obligation(a, m));
    let f = |x: MessageView| is_obligation(a, x);
    msgs.lemma_filter_contains(f, k);
    let fl = msgs.filter(f);
    let p = choose|p: int| 0 <= p < fl.len() && fl[p] == m;
    let sp = session_pending(r, now);
    assert(sp == obligations(msgs, a, r.session, now));
    assert(sp[p] == pending_of(r.session, m, now));
    lemma_session_pending_listed(st.sessions, now, i, p);
    let q = choose|q: int| 0 <= q < pending_spec(st.sessions, now).len() && pending_spec(st.sessions, now)[q] == sp[p];
    assert(pending_spec(st.sessions, now)[q].session_id == r.session.id);
}

/// An open request stays pending while nothing could settle it: in an open
/// session, a request that no message names in `reply_to`, that no `reply`
/// without `reply_to` follows, and whose sender sends no `out` after it, is
/// listed among the pending obligations with its session, id and sender.
pub proof fn lemma_open_request_is_pending(st: StoreView, i: int, k: int, now: i64)
    requires
        0 <= i < st.sessions.len(),
        !st.sessions[i].session.closed,
        untouched_request(st.sessions[i].messages, k),
    ensures
        exists|q: int| 0 <= q < pending_spec(st.sessions, now).len()
            && (#[trigger] pending_spec(st.sessions, now)[q]).session_id == st.sessions[i].session.id
            && pending_spec(st.sessions, now)[q].message_id == st.sessions[i].messages[k].id
            && pending_spec(st.sessions, now)[q].sender == st.sessions[i].messages[k].sender
            && pending_spec(st.sessions, now)[q].intent == Intent::Req,
{
    let r = st.sessions[i];
    let msgs = r.messages;
    let m = msgs[k];
    lemma_untouched_request_open(msgs, k);
    let a = answer_state(msgs);
    assert(is_obligation(a, m));
    let f = |x: MessageView| is_obligation(a, x);
    msgs.lemma_filter_contains(f, k);
    let fl = msgs.filter(f);
    let p = choose|p: int| 0 <= p < fl.len() && fl[p] == m;
    let sp = session_pending(r, now);
    assert(sp[p] == pending_of(r.session, m, now));
    lemma_session_pending_listed(st.sessions, now, i, p);
    let q = choose|q: int| 0 <= q < pending_spec(st.sessions, now).len() && pending_spec(st.sessions, now)[q] == sp[p];
    assert(pending_spec(st.sessions, now)[q].session_id == r.session.id);
}

/// No obligation of `s` is message `r` of a session in which no message
/// with id `r` is owed.
proof fn lemma_pending_skips_settled(s: Seq<RecordView>, now: i64, sid: Seq<char>, r: u64)
    requires
        forall|k: int, j: int| 0 <= k < s.len() && s[k].session.id == sid
            && 0 <= j < s[k].messages.len() && (#[trigger] s[k].messages[j]).id == r
            ==> !is_obligation(answer_state(s[k].messages), s[k].messages[j]),
    ensures
        forall|j: int| 0 <= j < pending_spec(s, now).len() ==> !((#[trigger] pending_spec(s, now)[j]).session_id == sid
            && pending_spec(s, now)[j].message_id == r),
    decreases s.len(),
{
    if s.len() > 0 {
        let rest = s.drop_last();
        let last = s.last();
        assert forall|k: int, j: int| 0 <= k < rest.len() && rest[k].session.id == sid
            && 0 <= j < rest[k].messages.len() && (#[trigger] rest[k].messages[j]).id == r
            implies !is_obligation(answer_state(rest[k].messages), rest[k].messages[j]) by {
            assert(rest[k] == s[k]);
        }
        lemma_pending_skips_settled(rest, now, sid, r);
        let before = pending_spec(rest, now);
        let mine = session_pending(last, now);
        assert(pending_spec(s, now) == before + mine);
        assert forall|j: int| 0 <= j < pending_spec(s, now).len() implies !((#[trigger] pending_spec(s, now)[j]).session_id == sid
            && pending_spec(s, now)[j].message_id == r) by {
            if j >= before.len() {
                let q = j - before.len();
                assert(pending_spec(s, now)[j] == mine[q]);
                let a = answer_state(last.messages);
                let pred = |m: MessageView| is_obligation(a, m);
                let kept = last.messages.filter(pred);
                assert(mine[q] == pending_of(last.session, kept[q], now));
                last.messages.lemma_filter_pred(pred, q);
                if last.session.id == sid && kept[q].id == r {
                    last.messages.lemma_filter_contains_rev(pred, kept[q]);
                    let jj = choose|jj: int| 0 <= jj < last.messages.len() && last.messages[jj] == kept[q];
                    assert(s[s.len() - 1] == last);
                }
            }
        }
    }
}

/// An `out` withdraws its sender's open requests: when a session's last
/// message is an `out` from the sender of a request that nothing settled
/// before it (and that nothing names in `reply_to`), that request is no
/// longer pending.
pub proof fn lemma_out_withdraws_request(st: StoreView, i: int, k: int, now: i64)
    requires
        unique_ids(st.sessions),
        0 <= i < st.sessions.len(),
        ids_ordered(st.sessions[i]),
        st.sessions[i].messages.len() > 0,
        untouched_request(st.sessions[i].messages.drop_last(), k),
        st.sessions[i].messages.last().intent == Intent::Out,
        st.sessions[i].messages.last().sender == st.sessions[i].messages[k].sender,
        st.sessions[i].messages.last().reply_to != Some(st.sessions[i].messages[k].id),
    ensures
        forall|q: int| 0 <= q < pending_spec(st.sessions, now).len()
            ==> !((#[trigger] pending_spec(st.sessions, now)[q]).session_id == st.sessions[i].session.id
                && pending_spec(st.sessions, now)[q].message_id == st.sessions[i].messages[k].id),
{
    let msgs = st.sessions[i].messages;
    let sid = st.sessions[i].session.id;
    let x = msgs[k].id;
    assert(msgs.drop_last()[k] == msgs[k]);
    assert(msgs.drop_last().push(msgs.last()) =~= msgs);
    lemma_out_closes_request(msgs.drop_last(), k, msgs.last());
    assert forall|kk: int, j: int| 0 <= kk < st.sessions.len() && st.sessions[kk].session.id == sid
        && 0 <= j < st.sessions[kk].messages.len() && (#[trigger] st.sessions[kk].messages[j]).id == x
        implies !is_obligation(answer_state(st.sessions[kk].messages), st.sessions[kk].messages[j]) by {
        assert(kk == i);
        if j < k {
            assert(msgs[j].id < msgs[k].id);
        } else if j > k {
            assert(msgs[k].id < msgs[j].id);
        }
    }
    lemma_pending_skips_settled(st.sessions, now, sid, x);
}

/// Whether `e` is owed by message `j` of session `i`: the session is open,
/// the message is the one `e` names (session, id, sender, intent), it is no
/// `out`, it is a request or was sent expecting a reply, and no message of
/// the session names it in `reply_to`.
pub open spec fn owed_by(s: Seq<RecordView>, e: crate::store::PendingView, i: int, j: int) -> bool {
    &&& 0 <= i < s.len()
    &&& !s[i].session.closed
    &&& s[i].session.id == e.session_id
    &&& 0 <= j < s[i].messages.len()
    &&& s[i].messages[j].id == e.message_id
    &&& s[i].messages[j].sender == e.sender
    &&& s[i].messages[j].intent == e.intent
    &&& e.intent != Intent::Out
    &&& (e.intent != Intent::Req ==> s[i].messages[j].expect_reply)
    &&& forall|l: int| 0 <= l < s[i].messages.len() ==> (#[trigger] s[i].messages[l]).reply_to != Some(e.message_id)
}

/// Only what is owed is pending: every obligation listed names a message of
/// an open session, no `out`, a request or a message sent expecting a
/// reply, that no message of its session names in `reply_to`.
pub proof fn lemma_pending_is_owed(s: Seq<RecordView>, now: i64, q: int)
    requires
        0 <= q < pending_spec(s, now).len(),
    ensures
        exists|i: int, j: int| owed_by(s, pending_spec(s, now)[q], i, j),
    decreases s.len(),
{
    let e = pending_spec(s, now)[q];
    let before = pending_spec(s.drop_last(), now);
    if q < before.len() {
        lemma_pending_is_owed(s.drop_last(), now, q);
        let (i, j) = choose|i: int, j: int| owed_by(s.drop_last(), before[q], i, j);
        assert(s[i] == s.drop_last()[i]);
        assert(owed_by(s, e, i, j));
    } else {
        let i = s.len() - 1;
        let r = s.last();
        assert(s[i] == r);
        let p = q - before.len();
        let a = answer_state(r.messages);
        let pred = |m: MessageView| is_obligation(a, m);
        let kept = r.messages.filter(pred);
        assert(!r.session.closed);
        assert(e == pending_of(r.session, kept[p], now));
        r.messages.lemma_filter_pred(pred, p);
        r.messages.lemma_filter_contains_rev(pred, kept[p]);
        let j = choose|j: int| 0 <= j < r.messages.len() && r.messages[j] == kept[p];
        assert forall|l: int| 0 <= l < r.messages.len() implies (#[trigger] r.messages[l]).reply_to != Some(e.message_id) by {
            if r.messages[l].reply_to == Some(e.message_id) {
                lemma_reply_to_answers(r.messages, l, e.message_id);
            }
        }
        assert(owed_by(s, e, i, j));
    }
}

} // verus!
