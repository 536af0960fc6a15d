//! `tala check`: the read cursors it advances, the cursor it reports, and
//! the new messages grouped by session in the order of session ids.

use vstd::prelude::*;
use crate::api::{compute_cursor, max_message_id};
use crate::listing::lemma_str_less_asymmetric;
use crate::models::{Message, MessageView, messages_view, copy_messages};
use crate::roster::{str_less, str_lt};
use crate::text::str_eq;

verus! {

broadcast use vstd::string::group_string_axioms;

/// The views of (session id, cursor) pairs.
pub open spec fn cursors_view(v: Seq<(String, u64)>) -> Seq<(Seq<char>, u64)> {
    Seq::new(v.len(), |i: int| (v[i].0@, v[i].1))
}

/// Whether no session appears twice among the cursors.
pub open spec fn distinct_cursors(m: Seq<(Seq<char>, u64)>) -> bool {
    forall|i: int, j: int| 0 <= i < j < m.len() ==> m[i].0 != m[j].0
}

/// The cursors with session `sid` set to `id` (added at the end when new).
pub open spec fn assign(m: Seq<(Seq<char>, u64)>, sid: Seq<char>, id: u64) -> Seq<(Seq<char>, u64)> {
    if exists|i: int| 0 <= i < m.len() && m[i].0 == sid {
        m.update(choose|i: int| 0 <= i < m.len() && m[i].0 == sid, (sid, id))
    } else {
        m.push((sid, id))
    }
}

/// Sets session `sid`'s cursor to `id`.
pub fn set_cursor(m: &mut Vec<(String, u64)>, sid: String, id: u64)
    requires
        distinct_cursors(cursors_view(old(m)@)),
    ensures
        distinct_cursors(cursors_view(final(m)@)),
        cursors_view(final(m)@) == assign(cursors_view(old(m)@), sid@, id),
{
    let ghost mv = cursors_view(m@);
    let mut i: usize = 0;
    while i < m.len()
        invariant
            mv == cursors_view(m@),
            mv == cursors_view(old(m)@),
            distinct_cursors(mv),
            0 <= i <= m@.len(),
            forall|j: int| 0 <= j < i ==> mv[j].0 != sid@,
        decreases m.len() - i,
    {
        if str_eq(m[i].0.as_str(), sid.as_str()) {
            proof {
                assert(mv[i as int].0 == sid@);
                let k = choose|k: int| 0 <= k < mv.len() && mv[k].0 == sid@;
                if k != i {
                    if k < i {
                        assert(mv[k].0 != mv[i as int].0);
                    } else {
                        assert(mv[i as int].0 != mv[k].0);
                    }
                }
                assert(k == i);
            }
            m.set(i, (sid, id));
            assert(cursors_view(m@) =~= mv.update(i as int, (sid@, id)));
            assert(distinct_cursors(cursors_view(m@))) by {
                assert forall|a: int, b: int| 0 <= a < b < cursors_view(m@).len() implies cursors_view(m@)[a].0 != cursors_view(m@)[b].0 by {
                    assert(mv[a].0 != mv[b].0);
                }
            }
            return;
        }
        i += 1;
    }
    m.push((sid, id));
    assert(cursors_view(m@) =~= mv.push((sid@, id)));
}

/// The views of fetched (session id, messages) pairs.
pub open spec fn fetched_view(v: Seq<(String, Vec<Message>)>) -> Seq<(Seq<char>, Seq<MessageView>)> {
    Seq::new(v.len(), |i: int| (v[i].0@, messages_view(v[i].1@)))
}

/// The cursors after a check: each session that had new messages moves to
/// its highest new id, in the order the sessions were checked.
pub open spec fn advanced(m: Seq<(Seq<char>, u64)>, fetched: Seq<(Seq<char>, Seq<MessageView>)>) -> Seq<(Seq<char>, u64)>
    decreases fetched.len(),
{
    if fetched.len() == 0 {
        m
    } else {
        let before = advanced(m, fetched.drop_last());
        match max_message_id(fetched.last().1) {
            Some(id) => assign(before, fetched.last().0, id),
            None => before,
        }
    }
}

/// Advances the cursors over what a check fetched (see `advanced`).
pub fn advance_cursors(cursors: &mut Vec<(String, u64)>, fetched: &Vec<(String, Vec<Message>)>)
    requires
        distinct_cursors(cursors_view(old(cursors)@)),
    ensures
        distinct_cursors(cursors_view(final(cursors)@)),
        cursors_view(final(cursors)@) == advanced(cursors_view(old(cursors)@), fetched_view(fetched@)),
{
    let ghost start = cursors_view(cursors@);
    let ghost fv = fetched_view(fetched@);
    let mut i: usize = 0;
    assert(fv.take(0) =~= Seq::<(Seq<char>, Seq<MessageView>)>::empty());
    while i < fetched.len()
        invariant
            start == cursors_view(old(cursors)@),
            fv == fetched_view(fetched@),
            0 <= i <= fetched@.len(),
            distinct_cursors(cursors_view(cursors@)),
            cursors_view(cursors@) == advanced(start, fv.take(i as int)),
        decreases fetched.len() - i,
    {
        assert(fv.take(i + 1).drop_last() =~= fv.take(i as int));
        assert(fv.take(i + 1).last() == fv[i as int]);
        match compute_cursor(&fetched[i].1) {
            Some(id) => set_cursor(cursors, fetched[i].0.clone(), id),
            None => {},
        }
        i += 1;
    }
    assert(fv.take(fv.len() as int) =~= fv);
}

/// The largest cursor (0 when there is none).
pub open spec fn max_cursor_spec(m: Seq<(Seq<char>, u64)>) -> u64
    decreases m.len(),
{
    if m.len() == 0 {
        0
    } else {
        let r = max_cursor_spec(m.drop_last());
        if m.last().1 > r { m.last().1 } else { r }
    }
}

/// The single cursor `check` still reports: the largest of the cursors.
pub fn max_cursor(cursors: &Vec<(String, u64)>) -> (r: u64)
    ensures
        r == max_cursor_spec(cursors_view(cursors@)),
{
    let ghost cv = cursors_view(cursors@);
    let mut best: u64 = 0;
    let mut i: usize = 0;
    assert(cv.take(0) =~= Seq::<(Seq<char>, u64)>::empty());
    while i < cursors.len()
        invariant
            cv == cursors_view(cursors@),
            0 <= i <= cursors@.len(),
            best == max_cursor_spec(cv.take(i as int)),
        decreases cursors.len() - i,
    {
        assert(cv.take(i + 1).drop_last() =~= cv.take(i as int));
        assert(cv.take(i + 1).last() == cv[i as int]);
        if cursors[i].1 > best {
            best = cursors[i].1;
        }
        i += 1;
    }
    assert(cv.take(cv.len() as int) =~= cv);
    best
}

/// Whether the groups are in the order of their session ids.
pub open spec fn groups_ordered(g: Seq<(Seq<char>, Seq<MessageView>)>) -> bool {
    forall|j: int| 0 <= j < g.len() - 1 ==> !str_less(#[trigger] g[j + 1].0, g[j].0)
}

/// The sessions that had new messages, with them.
pub open spec fn nonempty(fetched: Seq<(Seq<char>, Seq<MessageView>)>) -> Seq<(Seq<char>, Seq<MessageView>)> {
    fetched.filter(|e: (Seq<char>, Seq<MessageView>)| e.1.len() > 0)
}

/// Where a group for `sid` goes among the ordered groups.
fn group_position(groups: &Vec<(String, Vec<Message>)>, sid: &String) -> (p: usize)
    ensures
        p <= groups@.len(),
        forall|j: int| 0 <= j < p ==> !str_less(sid@, #[trigger] groups@[j].0@),
        p < groups@.len() ==> str_less(sid@, groups@[p as int].0@),
{
    let mut p: usize = 0;
    while p < groups.len()
        invariant
            0 <= p <= groups@.len(),
            forall|j: int| 0 <= j < p ==> !str_less(sid@, #[trigger] groups@[j].0@),
        decreases groups.len() - p,
    {
        if str_lt(sid.as_str(), groups[p].0.as_str()) {
            return p;
        }
        p += 1;
    }
    p
}

/// The new messages of a check grouped by session: the sessions that had
/// some, in the order of their ids, each with its messages in order.
pub fn group_by_session(fetched: &Vec<(String, Vec<Message>)>) -> (r: Vec<(String, Vec<Message>)>)
    ensures
        groups_ordered(fetched_view(r@)),
        fetched_view(r@).to_multiset() == nonempty(fetched_view(fetched@)).to_multiset(),
{
    broadcast use vstd::seq_lib::to_multiset_insert;
    let ghost fv = fetched_view(fetched@);
    let ghost keep = |e: (Seq<char>, Seq<MessageView>)| e.1.len() > 0;
    let mut groups: Vec<(String, Vec<Message>)> = Vec::new();
    let mut i: usize = 0;
    assert(fv.take(0).filter(keep) =~= Seq::<(Seq<char>, Seq<MessageView>)>::empty());
    assert(fetched_view(groups@) =~= Seq::<(Seq<char>, Seq<MessageView>)>::empty());
    while i < fetched.len()
        invariant
            fv == fetched_view(fetched@),
            keep == (|e: (Seq<char>, Seq<MessageView>)| e.1.len() > 0),
            0 <= i <= fetched@.len(),
            groups_ordered(fetched_view(groups@)),
            fetched_view(groups@).to_multiset() == fv.take(i as int).filter(keep).to_multiset(),
        decreases fetched.len() - i,
    {
        reveal_with_fuel(Seq::filter, 1);
        assert(fv.take(i + 1).drop_last() =~= fv.take(i as int));
        assert(fv.take(i + 1).last() == fv[i as int]);
        if fetched[i].1.len() > 0 {
            let sid = fetched[i].0.clone();
            let msgs = copy_messages(&fetched[i].1);
            let p = group_position(&groups, &sid);
            let ghost before = fetched_view(groups@);
            let ghost e = (sid@, messages_view(msgs@));
            assert(e == fv[i as int]);
            proof {
                assert forall|j: int| 0 <= j < p implies !str_less(e.0, before[j].0) by {
                    assert(before[j].0 == groups@[j].0@);
                }
                if p < groups@.len() {
                    assert(before[p as int].0 == groups@[p as int].0@);
                }
            }
            groups.insert(p, (sid, msgs));
            proof {
                let after = fetched_view(groups@);
                assert(after =~= before.insert(p as int, e));
                vstd::seq_lib::to_multiset_insert(before, p as int, e);
                assert(fv.take(i + 1).filter(keep) == fv.take(i as int).filter(keep).push(e));
                vstd::seq_lib::to_multiset_build(fv.take(i as int).filter(keep), e);
                assert forall|j: int| 0 <= j < after.len() - 1 implies !str_less(#[trigger] after[j + 1].0, after[j].0) by {
                    if j + 1 < p {
                        assert(after[j] == before[j] && after[j + 1] == before[j + 1]);
                        assert(!str_less(before[j + 1].0, before[j].0));
                    } else if j + 1 == p {
                        assert(after[j] == before[j] && after[j + 1] == e);
                    } else if j == p {
                        assert(after[j] == e && after[j + 1] == before[j]);
                        lemma_str_less_asymmetric(e.0, before[j].0);
                    } else {
                        assert(after[j] == before[j - 1] && after[j + 1] == before[j]);
                        assert(!str_less(before[(j - 1) + 1].0, before[j - 1].0));
                    }
                }
            }
        } else {
            assert(fv.take(i + 1).filter(keep) == fv.take(i as int).filter(keep));
        }
        i += 1;
    }
    assert(fv.take(fv.len() as int) =~= fv);
    groups
}


/// Whether the messages' ids never decrease.
pub open spec fn ids_ascending(ms: Seq<MessageView>) -> bool {
    forall|i: int, j: int| 0 <= i <= j < ms.len() ==> (#[trigger] ms[i]).id <= (#[trigger] ms[j]).id
}

/// Where a message with id `id` goes among messages in ascending id order:
/// after every message whose id is not larger.
fn id_position(out: &Vec<Message>, id: u64) -> (p: usize)
    ensures
        p <= out@.len(),
        forall|j: int| 0 <= j < p ==> (#[trigger] messages_view(out@)[j]).id <= id,
        p < out@.len() ==> messages_view(out@)[p as int].id > id,
{
    let ghost v = messages_view(out@);
    let mut p: usize = 0;
    while p < out.len()
        invariant
            v == messages_view(out@),
            0 <= p <= out@.len(),
            forall|j: int| 0 <= j < p ==> (#[trigger] v[j]).id <= id,
        decreases out.len() - p,
    {
        assert(v[p as int].id == out@[p as int].id);
        if out[p].id > id {
            return p;
        }
        p += 1;
    }
    p
}

/// Inserting a message where `id_position` puts it keeps ids ascending.
proof fn lemma_insert_ascending(before: Seq<MessageView>, p: int, x: MessageView)
    requires
        ids_ascending(before),
        0 <= p <= before.len(),
        forall|j: int| 0 <= j < p ==> (#[trigger] before[j]).id <= x.id,
        p < before.len() ==> before[p].id > x.id,
    ensures
        ids_ascending(before.insert(p, x)),
{
    let after = before.insert(p, x);
    assert forall|i: int, j: int| 0 <= i <= j < after.len() implies (#[trigger] after[i]).id <= (#[trigger] after[j]).id by {
        if p < before.len() {
            assert(before[p].id > x.id);
        }
        if i < p {
            assert(after[i] == before[i]);
        } else if i > p {
            assert(after[i] == before[i - 1]);
        }
        if j < p {
            assert(after[j] == before[j]);
        } else if j > p {
            assert(after[j] == before[j - 1]);
            if i == p {
                assert(before[p].id <= before[j - 1].id);
            }
        }
    }
}

/// The messages of a check in ascending id order, as one list.
pub fn order_by_id(msgs: Vec<Message>) -> (r: Vec<Message>)
    ensures
        ids_ascending(messages_view(r@)),
        messages_view(r@).to_multiset() == messages_view(msgs@).to_multiset(),
{
    broadcast use vstd::seq_lib::to_multiset_insert;
    let ghost mv = messages_view(msgs@);
    let mut out: Vec<Message> = Vec::new();
    let mut i: usize = 0;
    assert(messages_view(out@) =~= mv.take(0));
    while i < msgs.len()
        invariant
            mv == messages_view(msgs@),
            0 <= i <= msgs@.len(),
            ids_ascending(messages_view(out@)),
            messages_view(out@).to_multiset() == mv.take(i as int).to_multiset(),
        decreases msgs.len() - i,
    {
        let x = msgs[i].copy();
        let p = id_position(&out, x.id);
        let ghost before = messages_view(out@);
        let ghost xv = x@;
        assert(xv == mv[i as int]);
        out.insert(p, x);
        proof {
            let after = messages_view(out@);
            assert(after =~= before.insert(p as int, xv));
            assert(mv.take(i + 1) =~= mv.take(i as int).push(xv));
            vstd::seq_lib::to_multiset_insert(before, p as int, xv);
            vstd::seq_lib::to_multiset_build(mv.take(i as int), xv);
            lemma_insert_ascending(before, p as int, xv);
        }
        i += 1;
    }
    assert(mv.take(mv.len() as int) =~= mv);
    out
}


/// The cursor of session `sid`, if it has one.
pub open spec fn cursor_of(m: Seq<(Seq<char>, u64)>, sid: Seq<char>) -> Option<u64> {
    if exists|i: int| 0 <= i < m.len() && m[i].0 == sid {
        Some(m[choose|i: int| 0 <= i < m.len() && m[i].0 == sid].1)
    } else {
        None
    }
}

/// Whether no session was fetched twice.
pub open spec fn distinct_fetches(f: Seq<(Seq<char>, Seq<MessageView>)>) -> bool {
    forall|i: int, j: int| 0 <= i < j < f.len() ==> f[i].0 != f[j].0
}

proof fn lemma_cursor_at(m: Seq<(Seq<char>, u64)>, sid: Seq<char>, i: int)
    requires
        distinct_cursors(m),
        0 <= i < m.len(),
        m[i].0 == sid,
    ensures
        cursor_of(m, sid) == Some(m[i].1),
{
    let c = choose|c: int| 0 <= c < m.len() && m[c].0 == sid;
    if c != i {
        if c < i {
            assert(m[c].0 != m[i].0);
        } else {
            assert(m[i].0 != m[c].0);
        }
    }
}

/// Assigning a cursor keeps sessions distinct, sets that session's cursor
/// and leaves the others.
proof fn lemma_assign_cursor(m: Seq<(Seq<char>, u64)>, sid: Seq<char>, id: u64, s: Seq<char>)
    requires
        distinct_cursors(m),
    ensures
        distinct_cursors(assign(m, sid, id)),
        cursor_of(assign(m, sid, id), s) == if s == sid { Some(id) } else { cursor_of(m, s) },
{
    let m2 = assign(m, sid, id);
    let pos = if exists|i: int| 0 <= i < m.len() && m[i].0 == sid {
        choose|i: int| 0 <= i < m.len() && m[i].0 == sid
    } else {
        m.len() as int
    };
    assert(m2[pos] == (sid, id));
    assert(forall|a: int| 0 <= a < m.len() && a != pos ==> m2[a] == m[a]);
    assert forall|a: int, b: int| 0 <= a < b < m2.len() implies m2[a].0 != m2[b].0 by {
        if a != pos && b != pos {
            assert(m[a].0 != m[b].0);
        } else if a == pos {
            if b < m.len() && m[b].0 == sid {
                assert(pos < m.len());
                assert(m[pos].0 != m[b].0);
            }
        } else {
            if a < m.len() && m[a].0 == sid {
                assert(pos < m.len());
                assert(m[a].0 != m[pos].0);
            }
        }
    }
    if s == sid {
        lemma_cursor_at(m2, s, pos);
    } else {
        if exists|i: int| 0 <= i < m.len() && m[i].0 == s {
            let j = choose|i: int| 0 <= i < m.len() && m[i].0 == s;
            assert(j != pos);
            lemma_cursor_at(m, s, j);
            lemma_cursor_at(m2, s, j);
        } else {
            assert forall|a: int| 0 <= a < m2.len() implies m2[a].0 != s by {
                if a != pos {
                    assert(m2[a] == m[a]);
                }
            }
        }
    }
}

proof fn lemma_max_message_id_bounds(msgs: Seq<MessageView>)
    ensures
        msgs.len() > 0 ==> max_message_id(msgs) is Some,
        max_message_id(msgs) matches Some(x) ==> forall|j: int| 0 <= j < msgs.len() ==> (#[trigger] msgs[j]).id <= x,
    decreases msgs.len(),
{
    if msgs.len() > 0 {
        let r = msgs.drop_last();
        lemma_max_message_id_bounds(r);
        if let Some(x) = max_message_id(msgs) {
            assert forall|j: int| 0 <= j < msgs.len() implies (#[trigger] msgs[j]).id <= x by {
                if j < msgs.len() - 1 {
                    assert(msgs[j] == r[j]);
                }
            }
        }
    }
}

/// A check leaves nothing it showed for the next check: when each session
/// is fetched once, every session that had new messages ends with a cursor
/// at or above each of them, and a session that was not fetched, or had
/// nothing new, keeps its cursor.
pub proof fn lemma_check_catches_up(m: Seq<(Seq<char>, u64)>, fetched: Seq<(Seq<char>, Seq<MessageView>)>, s: Seq<char>)
    requires
        distinct_cursors(m),
        distinct_fetches(fetched),
    ensures
        distinct_cursors(advanced(m, fetched)),
        forall|k: int| 0 <= k < fetched.len() && fetched[k].0 == s && fetched[k].1.len() > 0 ==> {
            &&& cursor_of(advanced(m, fetched), s) is Some
            &&& forall|j: int| 0 <= j < fetched[k].1.len()
                ==> (#[trigger] fetched[k].1[j]).id <= cursor_of(advanced(m, fetched), s)->Some_0
        },
        (forall|k: int| 0 <= k < fetched.len() && fetched[k].0 == s ==> fetched[k].1.len() == 0)
            ==> cursor_of(advanced(m, fetched), s) == cursor_of(m, s),
    decreases fetched.len(),
{
    if fetched.len() > 0 {
        let rest = fetched.drop_last();
        let e = fetched.last();
        let n = fetched.len() - 1;
        assert forall|i: int, j: int| 0 <= i < j < rest.len() implies rest[i].0 != rest[j].0 by {
            assert(rest[i] == fetched[i] && rest[j] == fetched[j]);
        }
        lemma_check_catches_up(m, rest, s);
        let before = advanced(m, rest);
        lemma_max_message_id_bounds(e.1);
        match max_message_id(e.1) {
            Some(id) => {
                lemma_assign_cursor(before, e.0, id, s);
            },
            None => {},
        }
        assert forall|k: int| 0 <= k < fetched.len() && fetched[k].0 == s && fetched[k].1.len() > 0 implies {
            &&& cursor_of(advanced(m, fetched), s) is Some
            &&& forall|j: int| 0 <= j < fetched[k].1.len()
                ==> (#[trigger] fetched[k].1[j]).id <= cursor_of(advanced(m, fetched), s)->Some_0
        } by {
            if k < n {
                assert(fetched[k] == rest[k]);
                assert(fetched[k].0 != e.0);
            }
        }
        if forall|k: int| 0 <= k < fetched.len() && fetched[k].0 == s ==> fetched[k].1.len() == 0 {
            assert forall|k: int| 0 <= k < rest.len() && rest[k].0 == s implies rest[k].1.len() == 0 by {
                assert(rest[k] == fetched[k]);
            }
            if e.0 == s {
                assert(fetched[n].1.len() == 0);
            }
        }
    }
}

} // verus!
