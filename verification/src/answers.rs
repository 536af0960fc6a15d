//! Which requests of a session are answered, and which were abandoned.
//!
//! Messages are read in order. A request (`req`) opens an obligation. A
//! message with `reply_to` answers its target. A `reply` without `reply_to`
//! answers the oldest open request. An `out` closes every open request of
//! its own sender.

use vstd::prelude::*;
use std::collections::HashSet;
use crate::models::{Intent, Message, MessageView, messages_view};
use crate::text::str_eq;

verus! {

broadcast use vstd::std_specs::hash::group_hash_axioms;

/// An open request: its id and its sender.
pub type OpenReq = (u64, Seq<char>);

/// What has been derived after reading some messages.
pub struct AnswerState {
    pub answered: Set<u64>,
    pub closed: Set<u64>,
    pub open: Seq<OpenReq>,
}

/// The open requests other than the one with id `t`.
pub open spec fn drop_id(open: Seq<OpenReq>, t: u64) -> Seq<OpenReq>
    decreases open.len(),
{
    if open.len() == 0 {
        Seq::empty()
    } else if open.last().0 != t {
        drop_id(open.drop_last(), t).push(open.last())
    } else {
        drop_id(open.drop_last(), t)
    }
}

/// The open requests not sent by `s`.
pub open spec fn drop_sender(open: Seq<OpenReq>, s: Seq<char>) -> Seq<OpenReq>
    decreases open.len(),
{
    if open.len() == 0 {
        Seq::empty()
    } else if open.last().1 != s {
        drop_sender(open.drop_last(), s).push(open.last())
    } else {
        drop_sender(open.drop_last(), s)
    }
}

/// The ids of the open requests sent by `s`.
pub open spec fn ids_of_sender(open: Seq<OpenReq>, s: Seq<char>) -> Set<u64>
    decreases open.len(),
{
    if open.len() == 0 {
        Set::empty()
    } else if open.last().1 == s {
        ids_of_sender(open.drop_last(), s).insert(open.last().0)
    } else {
        ids_of_sender(open.drop_last(), s)
    }
}

/// The state after reading one more message `m`.
pub open spec fn answer_step(st: AnswerState, m: MessageView) -> AnswerState {
    let open1 = if m.intent == Intent::Req { st.open.push((m.id, m.sender)) } else { st.open };
    let answered2 = match m.reply_to {
        Some(t) => st.answered.insert(t),
        None => st.answered,
    };
    let open2 = match m.reply_to {
        Some(t) => drop_id(open1, t),
        None => open1,
    };
    let oldest = m.intent == Intent::Reply && m.reply_to is None && open2.len() > 0;
    let answered3 = if oldest { answered2.insert(open2[0].0) } else { answered2 };
    let open3 = if oldest { open2.drop_first() } else { open2 };
    if m.intent == Intent::Out {
        AnswerState {
            answered: answered3,
            closed: st.closed.union(ids_of_sender(open3, m.sender)),
            open: drop_sender(open3, m.sender),
        }
    } else {
        AnswerState { answered: answered3, closed: st.closed, open: open3 }
    }
}

/// The state after reading `msgs` in order.
pub open spec fn answer_state(msgs: Seq<MessageView>) -> AnswerState
    decreases msgs.len(),
{
    if msgs.len() == 0 {
        AnswerState { answered: Set::empty(), closed: Set::empty(), open: Seq::empty() }
    } else {
        answer_step(answer_state(msgs.drop_last()), msgs.last())
    }
}

/// The views of a list of open requests.
pub open spec fn open_view(v: Seq<(u64, String)>) -> Seq<OpenReq> {
    Seq::new(v.len(), |i: int| (v[i].0, v[i].1@))
}

fn drop_id_exec(open: Vec<(u64, String)>, t: u64) -> (r: Vec<(u64, String)>)
    ensures
        open_view(r@) == drop_id(open_view(open@), t),
{
    let mut kept: Vec<(u64, String)> = Vec::new();
    let ghost ov = open_view(open@);
    let mut i: usize = 0;
    assert(ov.take(0) =~= Seq::<OpenReq>::empty());
    assert(open_view(kept@) =~= Seq::<OpenReq>::empty());
    while i < open.len()
        invariant
            ov == open_view(open@),
            0 <= i <= open@.len(),
            open_view(kept@) == drop_id(ov.take(i as int), t),
        decreases open.len() - i,
    {
        assert(ov.take(i + 1).drop_last() =~= ov.take(i as int));
        assert(ov.take(i + 1).last() == (open@[i as int].0, open@[i as int].1@));
        if open[i].0 != t {
            let ghost before = kept@;
            kept.push((open[i].0, open[i].1.clone()));
            assert(open_view(kept@) =~= open_view(before).push((open@[i as int].0, open@[i as int].1@)));
        }
        i += 1;
    }
    assert(ov.take(ov.len() as int) =~= ov);
    kept
}

fn close_sender_exec(open: Vec<(u64, String)>, s: &String, closed: &mut HashSet<u64>) -> (r: Vec<(u64, String)>)
    ensures
        open_view(r@) == drop_sender(open_view(open@), s@),
        final(closed)@ == old(closed)@.union(ids_of_sender(open_view(open@), s@)),
{
    let mut kept: Vec<(u64, String)> = Vec::new();
    let ghost ov = open_view(open@);
    let mut i: usize = 0;
    assert(ov.take(0) =~= Seq::<OpenReq>::empty());
    assert(open_view(kept@) =~= Seq::<OpenReq>::empty());
    assert(old(closed)@.union(ids_of_sender(ov.take(0), s@)) =~= old(closed)@);
    while i < open.len()
        invariant
            ov == open_view(open@),
            0 <= i <= open@.len(),
            open_view(kept@) == drop_sender(ov.take(i as int), s@),
            closed@ == old(closed)@.union(ids_of_sender(ov.take(i as int), s@)),
        decreases open.len() - i,
    {
        assert(ov.take(i + 1).drop_last() =~= ov.take(i as int));
        assert(ov.take(i + 1).last() == (open@[i as int].0, open@[i as int].1@));
        if str_eq(open[i].1.as_str(), s.as_str()) {
            let ghost before = closed@;
            closed.insert(open[i].0);
            assert(closed@ =~= old(closed)@.union(ids_of_sender(ov.take(i + 1), s@)));
        } else {
            let ghost before = kept@;
            kept.push((open[i].0, open[i].1.clone()));
            assert(open_view(kept@) =~= open_view(before).push((open@[i as int].0, open@[i as int].1@)));
        }
        i += 1;
    }
    assert(ov.take(ov.len() as int) =~= ov);
    kept
}

/// Derives which message ids of a session are answered — by an explicit
/// `reply_to`, by an uncorrelated `reply` answering the oldest open `req`
/// — and which requests were closed by their sender's `out`. Returns the
/// (answered, closed) id sets.
pub fn derive_answered(messages: &[Message]) -> (r: (HashSet<u64>, HashSet<u64>))
    ensures
        r.0@ == answer_state(messages_view(messages@)).answered,
        r.1@ == answer_state(messages_view(messages@)).closed,
{
    let mut answered: HashSet<u64> = HashSet::new();
    let mut closed: HashSet<u64> = HashSet::new();
    let mut open: Vec<(u64, String)> = Vec::new();
    let ghost mv = messages_view(messages@);
    let mut i: usize = 0;
    assert(mv.take(0) =~= Seq::<MessageView>::empty());
    assert(answered@ =~= Set::<u64>::empty());
    assert(closed@ =~= Set::<u64>::empty());
    assert(open_view(open@) =~= Seq::<OpenReq>::empty());
    while i < messages.len()
        invariant
            mv == messages_view(messages@),
            0 <= i <= messages@.len(),
            answered@ == answer_state(mv.take(i as int)).answered,
            closed@ == answer_state(mv.take(i as int)).closed,
            open_view(open@) == answer_state(mv.take(i as int)).open,
        decreases messages.len() - i,
    {
        let m = &messages[i];
        assert(mv.take(i + 1).drop_last() =~= mv.take(i as int));
        assert(mv.take(i + 1).last() == m@);
        let ghost st = answer_state(mv.take(i as int));
        if m.intent == Intent::Req {
            let ghost before = open@;
            open.push((m.id, m.sender.clone()));
            assert(open_view(open@) =~= open_view(before).push((m.id, m.sender@)));
        }
        match m.reply_to {
            Some(t) => {
                answered.insert(t);
                open = drop_id_exec(open, t);
            },
            None => {},
        }
        if m.intent == Intent::Reply && m.reply_to.is_none() && open.len() > 0 {
            let rid = open[0].0;
            let ghost before = open@;
            open.remove(0);
            assert(open_view(open@) =~= open_view(before).drop_first());
            answered.insert(rid);
        }
        if m.intent == Intent::Out {
            open = close_sender_exec(open, &m.sender, &mut closed);
        }
        i += 1;
    }
    assert(mv.take(mv.len() as int) =~= mv);
    (answered, closed)
}

/// Whether `candidate` answers `target` among `msgs`: the target is not
/// answered without the candidate (every message with the candidate's id
/// left out), and is answered with it.
pub open spec fn answers_spec(msgs: Seq<MessageView>, candidate: u64, target: u64) -> bool {
    &&& !answer_state(msgs.filter(|m: MessageView| m.id != candidate)).answered.contains(target)
    &&& answer_state(msgs).answered.contains(target)
}

/// Whether `candidate` answers `target` among `msgs`.
pub fn message_answers_in(msgs: &Vec<Message>, candidate: u64, target: u64) -> (r: bool)
    ensures
        r == answers_spec(messages_view(msgs@), candidate, target),
{
    let mut without: Vec<Message> = Vec::new();
    let ghost mv = messages_view(msgs@);
    let mut i: usize = 0;
    assert(mv.take(0).filter(|m: MessageView| m.id != candidate) =~= Seq::<MessageView>::empty());
    assert(messages_view(without@) =~= Seq::<MessageView>::empty());
    while i < msgs.len()
        invariant
            mv == messages_view(msgs@),
            0 <= i <= msgs@.len(),
            messages_view(without@) == mv.take(i as int).filter(|m: MessageView| m.id != candidate),
        decreases msgs.len() - i,
    {
        reveal_with_fuel(Seq::filter, 1);
        assert(mv.take(i + 1).drop_last() =~= mv.take(i as int));
        assert(mv.take(i + 1).last() == msgs@[i as int]@);
        if msgs[i].id != candidate {
            let ghost before = without@;
            without.push(msgs[i].copy());
            assert(messages_view(without@) =~= messages_view(before).push(msgs@[i as int]@));
        }
        i += 1;
    }
    assert(mv.take(mv.len() as int) =~= mv);
    let (before, _) = derive_answered(without.as_slice());
    if before.contains(&target) {
        return false;
    }
    let (after, _) = derive_answered(msgs.as_slice());
    after.contains(&target)
}

/// Answers only accumulate: once an id is answered it stays answered.
pub proof fn lemma_answered_grows(msgs: Seq<MessageView>, k: int)
    requires
        0 <= k <= msgs.len(),
    ensures
        answer_state(msgs.take(k)).answered.subset_of(answer_state(msgs).answered),
    decreases msgs.len() - k,
{
    if k < msgs.len() {
        lemma_answered_grows(msgs, k + 1);
        assert(msgs.take(k + 1).drop_last() =~= msgs.take(k));
    } else {
        assert(msgs.take(k) =~= msgs);
    }
}

/// A message that names a target in `reply_to` answers it, whatever follows.
pub proof fn lemma_reply_to_answers(msgs: Seq<MessageView>, i: int, t: u64)
    requires
        0 <= i < msgs.len(),
        msgs[i].reply_to == Some(t),
    ensures
        answer_state(msgs).answered.contains(t),
{
    assert(msgs.take(i + 1).drop_last() =~= msgs.take(i));
    assert(msgs.take(i + 1).last() == msgs[i]);
    lemma_answered_grows(msgs, i + 1);
}

proof fn lemma_ids_of_sender_from_open(open: Seq<OpenReq>, s: Seq<char>, x: u64)
    requires
        ids_of_sender(open, s).contains(x),
    ensures
        exists|j: int| 0 <= j < open.len() && open[j].0 == x,
    decreases open.len(),
{
    if open.last().1 == s && open.last().0 == x {
        assert(open[open.len() - 1].0 == x);
    } else {
        lemma_ids_of_sender_from_open(open.drop_last(), s, x);
        let j = choose|j: int| 0 <= j < open.len() - 1 && open.drop_last()[j].0 == x;
        assert(open[j].0 == x);
    }
}

proof fn lemma_drop_id_subseq(open: Seq<OpenReq>, t: u64, x: OpenReq)
    requires
        drop_id(open, t).contains(x),
    ensures
        open.contains(x),
    decreases open.len(),
{
    if open.len() > 0 {
        if open.last().0 != t {
            let d = drop_id(open.drop_last(), t);
            let j = choose|j: int| 0 <= j < d.push(open.last()).len() && d.push(open.last())[j] == x;
            if j < d.len() {
                assert(d.contains(x));
                lemma_drop_id_subseq(open.drop_last(), t, x);
                let k = choose|k: int| 0 <= k < open.drop_last().len() && open.drop_last()[k] == x;
                assert(open[k] == x);
            } else {
                assert(open[open.len() - 1] == x);
            }
        } else {
            lemma_drop_id_subseq(open.drop_last(), t, x);
            let k = choose|k: int| 0 <= k < open.drop_last().len() && open.drop_last()[k] == x;
            assert(open[k] == x);
        }
    }
}

proof fn lemma_drop_sender_subseq(open: Seq<OpenReq>, s: Seq<char>, x: OpenReq)
    requires
        drop_sender(open, s).contains(x),
    ensures
        open.contains(x),
    decreases open.len(),
{
    if open.len() > 0 {
        if open.last().1 != s {
            let d = drop_sender(open.drop_last(), s);
            let j = choose|j: int| 0 <= j < d.push(open.last()).len() && d.push(open.last())[j] == x;
            if j < d.len() {
                assert(d.contains(x));
                lemma_drop_sender_subseq(open.drop_last(), s, x);
                let k = choose|k: int| 0 <= k < open.drop_last().len() && open.drop_last()[k] == x;
                assert(open[k] == x);
            } else {
                assert(open[open.len() - 1] == x);
            }
        } else {
            lemma_drop_sender_subseq(open.drop_last(), s, x);
            let k = choose|k: int| 0 <= k < open.drop_last().len() && open.drop_last()[k] == x;
            assert(open[k] == x);
        }
    }
}

/// `x` is the id of a request among `msgs`.
pub open spec fn is_request_id(msgs: Seq<MessageView>, x: u64) -> bool {
    exists|i: int| 0 <= i < msgs.len() && msgs[i].intent == Intent::Req && msgs[i].id == x
}

/// Some message of `msgs` names `x` in `reply_to`.
pub open spec fn is_reply_target(msgs: Seq<MessageView>, x: u64) -> bool {
    exists|i: int| 0 <= i < msgs.len() && msgs[i].reply_to == Some(x)
}

/// Every open or closed id is the id of a request among the messages, and
/// every answered id is a request's or is named in some `reply_to`.
proof fn lemma_state_ids_are_requests(msgs: Seq<MessageView>)
    ensures
        forall|j: int| 0 <= j < answer_state(msgs).open.len() ==> is_request_id(msgs, #[trigger] answer_state(msgs).open[j].0),
        forall|x: u64| answer_state(msgs).closed.contains(x) ==> is_request_id(msgs, x),
        forall|x: u64| answer_state(msgs).answered.contains(x) ==> is_request_id(msgs, x) || is_reply_target(msgs, x),
    decreases msgs.len(),
{
    if msgs.len() > 0 {
        let prev = msgs.drop_last();
        lemma_state_ids_are_requests(prev);
        let st = answer_state(prev);
        let m = msgs.last();
        let open1 = if m.intent == Intent::Req { st.open.push((m.id, m.sender)) } else { st.open };
        let open2 = match m.reply_to {
            Some(t) => drop_id(open1, t),
            None => open1,
        };
        let oldest = m.intent == Intent::Reply && m.reply_to is None && open2.len() > 0;
        let open3 = if oldest { open2.drop_first() } else { open2 };
        // Every entry of open1 is a request of msgs.
        assert forall|x: OpenReq| open1.contains(x) implies is_request_id(msgs, x.0) by {
            let j = choose|j: int| 0 <= j < open1.len() && open1[j] == x;
            if j < st.open.len() {
                assert(st.open[j] == x);
                assert(is_request_id(prev, st.open[j].0));
                let i = choose|i: int| 0 <= i < prev.len() && prev[i].intent == Intent::Req && prev[i].id == st.open[j].0;
                assert(msgs[i] == prev[i]);
            } else {
                assert(msgs[msgs.len() - 1] == m);
                assert(m.intent == Intent::Req);
            }
        }
        assert forall|x: OpenReq| open2.contains(x) implies open1.contains(x) by {
            if let Some(t) = m.reply_to {
                lemma_drop_id_subseq(open1, t, x);
            }
        }
        assert forall|x: OpenReq| open3.contains(x) implies open2.contains(x) by {
            if oldest {
                let j = choose|j: int| 0 <= j < open3.len() && open3[j] == x;
                assert(open2[j + 1] == x);
            }
        }
        assert forall|j: int| 0 <= j < answer_state(msgs).open.len() implies is_request_id(msgs, #[trigger] answer_state(msgs).open[j].0) by {
            let x = answer_state(msgs).open[j];
            assert(answer_state(msgs).open.contains(x));
            if m.intent == Intent::Out {
                lemma_drop_sender_subseq(open3, m.sender, x);
            }
            assert(open3.contains(x));
            assert(open2.contains(x));
            assert(open1.contains(x));
        }
        assert forall|x: u64| answer_state(msgs).closed.contains(x) implies is_request_id(msgs, x) by {
            if st.closed.contains(x) {
                assert(is_request_id(prev, x));
                let i = choose|i: int| 0 <= i < prev.len() && prev[i].intent == Intent::Req && prev[i].id == x;
                assert(msgs[i] == prev[i]);
            } else {
                lemma_ids_of_sender_from_open(open3, m.sender, x);
                let j = choose|j: int| 0 <= j < open3.len() && open3[j].0 == x;
                assert(open3.contains(open3[j]));
                assert(open2.contains(open3[j]));
                assert(open1.contains(open3[j]));
            }
        }
        assert forall|x: u64| answer_state(msgs).answered.contains(x) implies is_request_id(msgs, x) || is_reply_target(msgs, x) by {
            if st.answered.contains(x) {
                if is_request_id(prev, x) {
                    let i = choose|i: int| 0 <= i < prev.len() && prev[i].intent == Intent::Req && prev[i].id == x;
                    assert(msgs[i] == prev[i]);
                } else {
                    let i = choose|i: int| 0 <= i < prev.len() && prev[i].reply_to == Some(x);
                    assert(msgs[i] == prev[i]);
                }
            } else if m.reply_to == Some(x) {
                assert(msgs[msgs.len() - 1] == m);
            } else {
                assert(open2.contains(open2[0]));
                assert(open1.contains(open2[0]));
            }
        }
    }
}

/// Only requests are ever closed by an `out`.
pub proof fn lemma_closed_are_requests(msgs: Seq<MessageView>, x: u64)
    requires
        answer_state(msgs).closed.contains(x),
    ensures
        is_request_id(msgs, x),
{
    lemma_state_ids_are_requests(msgs);
}

/// A message that is no request and that no message names in `reply_to`
/// is never answered.
pub proof fn lemma_unreferenced_not_answered(msgs: Seq<MessageView>, x: u64)
    requires
        !is_request_id(msgs, x),
        !is_reply_target(msgs, x),
    ensures
        !answer_state(msgs).answered.contains(x),
{
    lemma_state_ids_are_requests(msgs);
}

/// The ids and senders of `reqs`, in order.
pub open spec fn opened(reqs: Seq<MessageView>) -> Seq<OpenReq> {
    Seq::new(reqs.len(), |i: int| (reqs[i].id, reqs[i].sender))
}

/// Requests that name no target open one obligation each, in order, and
/// answer or close nothing.
proof fn lemma_requests_open(reqs: Seq<MessageView>)
    requires
        forall|i: int| 0 <= i < reqs.len() ==> #[trigger] reqs[i].intent == Intent::Req && reqs[i].reply_to is None,
    ensures
        answer_state(reqs).open == opened(reqs),
        answer_state(reqs).answered == Set::<u64>::empty(),
        answer_state(reqs).closed == Set::<u64>::empty(),
    decreases reqs.len(),
{
    if reqs.len() > 0 {
        let prev = reqs.drop_last();
        assert forall|i: int| 0 <= i < prev.len() implies #[trigger] prev[i].intent == Intent::Req && prev[i].reply_to is None by {
            assert(prev[i] == reqs[i]);
        }
        lemma_requests_open(prev);
        assert(reqs[reqs.len() - 1] == reqs.last());
        assert(opened(prev).push((reqs.last().id, reqs.last().sender)) =~= opened(reqs));
    } else {
        assert(opened(reqs) =~= Seq::<OpenReq>::empty());
    }
}

/// Uncorrelated replies answer requests oldest first, each its own: after
/// requests that name no target come no more replies without `reply_to`
/// than there were requests; then the answered ids are exactly those of
/// the first requests, one per reply, and nothing is closed. So `k`
/// uncorrelated replies after `k` requests leave all `k` answered.
pub proof fn lemma_replies_answer_oldest_first(reqs: Seq<MessageView>, replies: Seq<MessageView>)
    requires
        replies.len() <= reqs.len(),
        forall|i: int| 0 <= i < reqs.len() ==> #[trigger] reqs[i].intent == Intent::Req && reqs[i].reply_to is None,
        forall|i: int| 0 <= i < replies.len() ==> #[trigger] replies[i].intent == Intent::Reply && replies[i].reply_to is None,
    ensures
        answer_state(reqs + replies).answered
            == Set::new(|x: u64| exists|i: int| 0 <= i < replies.len() && reqs[i].id == x),
        answer_state(reqs + replies).closed == Set::<u64>::empty(),
        answer_state(reqs + replies).open == opened(reqs).skip(replies.len() as int),
    decreases replies.len(),
{
    if replies.len() == 0 {
        assert(reqs + replies =~= reqs);
        lemma_requests_open(reqs);
        assert(opened(reqs).skip(0) =~= opened(reqs));
        assert(Set::new(|x: u64| exists|i: int| 0 <= i < replies.len() && reqs[i].id == x) =~= Set::<u64>::empty());
    } else {
        let prev = replies.drop_last();
        assert forall|i: int| 0 <= i < prev.len() implies #[trigger] prev[i].intent == Intent::Reply && prev[i].reply_to is None by {
            assert(prev[i] == replies[i]);
        }
        lemma_replies_answer_oldest_first(reqs, prev);
        assert((reqs + replies).drop_last() =~= reqs + prev);
        assert(replies[replies.len() - 1] == replies.last());
        assert((reqs + replies).last() == replies.last());
        let j = prev.len() as int;
        let o = opened(reqs).skip(j);
        assert(o[0] == (reqs[j].id, reqs[j].sender));
        assert(o.drop_first() =~= opened(reqs).skip(j + 1));
        assert(Set::new(|x: u64| exists|i: int| 0 <= i < prev.len() && reqs[i].id == x).insert(reqs[j].id)
            =~= Set::new(|x: u64| exists|i: int| 0 <= i < replies.len() && reqs[i].id == x));
    }
}

proof fn lemma_drop_id_keeps(open: Seq<OpenReq>, t: u64, x: OpenReq)
    requires
        open.contains(x),
        x.0 != t,
    ensures
        drop_id(open, t).contains(x),
    decreases open.len(),
{
    let d = drop_id(open.drop_last(), t);
    if open.last() == x {
        assert(d.push(open.last())[d.len() as int] == x);
    } else {
        let j = choose|j: int| 0 <= j < open.len() && open[j] == x;
        assert(open.drop_last()[j] == x);
        lemma_drop_id_keeps(open.drop_last(), t, x);
        if open.last().0 != t {
            let q = choose|q: int| 0 <= q < d.len() && d[q] == x;
            assert(d.push(open.last())[q] == x);
        }
    }
}

proof fn lemma_drop_sender_keeps(open: Seq<OpenReq>, s: Seq<char>, x: OpenReq)
    requires
        open.contains(x),
        x.1 != s,
    ensures
        drop_sender(open, s).contains(x),
    decreases open.len(),
{
    let d = drop_sender(open.drop_last(), s);
    if open.last() == x {
        assert(d.push(open.last())[d.len() as int] == x);
    } else {
        let j = choose|j: int| 0 <= j < open.len() && open[j] == x;
        assert(open.drop_last()[j] == x);
        lemma_drop_sender_keeps(open.drop_last(), s, x);
        if open.last().1 != s {
            let q = choose|q: int| 0 <= q < d.len() && d[q] == x;
            assert(d.push(open.last())[q] == x);
        }
    }
}

proof fn lemma_ids_of_sender_entry(open: Seq<OpenReq>, s: Seq<char>, x: u64)
    requires
        ids_of_sender(open, s).contains(x),
    ensures
        open.contains((x, s)),
    decreases open.len(),
{
    if open.last().1 == s && open.last().0 == x {
        assert(open[open.len() - 1] == (x, s));
    } else {
        lemma_ids_of_sender_entry(open.drop_last(), s, x);
        let j = choose|j: int| 0 <= j < open.len() - 1 && open.drop_last()[j] == (x, s);
        assert(open[j] == (x, s));
    }
}

proof fn lemma_ids_of_sender_has(open: Seq<OpenReq>, x: OpenReq)
    requires
        open.contains(x),
    ensures
        ids_of_sender(open, x.1).contains(x.0),
    decreases open.len(),
{
    if open.last() != x {
        let j = choose|j: int| 0 <= j < open.len() && open[j] == x;
        assert(open.drop_last()[j] == x);
        lemma_ids_of_sender_has(open.drop_last(), x);
    }
}

/// Whether nothing in `msgs` after position `k` could settle request
/// `msgs[k]`: no message names it in `reply_to`, no later `reply` lacks
/// `reply_to`, and its sender sends no later `out`; and its id is its own.
pub open spec fn untouched_request(msgs: Seq<MessageView>, k: int) -> bool {
    &&& 0 <= k < msgs.len()
    &&& msgs[k].intent == Intent::Req
    &&& forall|j: int| 0 <= j < msgs.len() && j != k ==> (#[trigger] msgs[j]).id != msgs[k].id
    &&& forall|j: int| 0 <= j < msgs.len() ==> (#[trigger] msgs[j]).reply_to != Some(msgs[k].id)
    &&& forall|j: int| k < j < msgs.len() ==> !((#[trigger] msgs[j]).intent == Intent::Reply && msgs[j].reply_to is None)
    &&& forall|j: int| k < j < msgs.len() ==> !((#[trigger] msgs[j]).intent == Intent::Out && msgs[j].sender == msgs[k].sender)
}

/// Before position `k`, nothing in the state mentions the id of `msgs[k]`.
proof fn lemma_request_before(msgs: Seq<MessageView>, k: int, n: int)
    requires
        untouched_request(msgs, k),
        0 <= n <= k,
    ensures
        !answer_state(msgs.take(n)).answered.contains(msgs[k].id),
        !answer_state(msgs.take(n)).closed.contains(msgs[k].id),
        forall|e: OpenReq| answer_state(msgs.take(n)).open.contains(e) ==> e.0 != msgs[k].id,
{
    let pre = msgs.take(n);
    let x = msgs[k].id;
    lemma_state_ids_are_requests(pre);
    assert(!is_request_id(pre, x)) by {
        if is_request_id(pre, x) {
            let i = choose|i: int| 0 <= i < pre.len() && pre[i].intent == Intent::Req && pre[i].id == x;
            assert(msgs[i] == pre[i]);
        }
    }
    assert(!is_reply_target(pre, x)) by {
        if is_reply_target(pre, x) {
            let i = choose|i: int| 0 <= i < pre.len() && pre[i].reply_to == Some(x);
            assert(msgs[i] == pre[i]);
        }
    }
    assert forall|e: OpenReq| answer_state(pre).open.contains(e) implies e.0 != x by {
        let j = choose|j: int| 0 <= j < answer_state(pre).open.len() && answer_state(pre).open[j] == e;
        assert(is_request_id(pre, answer_state(pre).open[j].0));
    }
}

/// From position `k` on, the request stays open, unanswered and unclosed,
/// and it is the only open entry with its id.
proof fn lemma_request_after(msgs: Seq<MessageView>, k: int, n: int)
    requires
        untouched_request(msgs, k),
        k < n <= msgs.len(),
    ensures
        answer_state(msgs.take(n)).open.contains((msgs[k].id, msgs[k].sender)),
        !answer_state(msgs.take(n)).answered.contains(msgs[k].id),
        !answer_state(msgs.take(n)).closed.contains(msgs[k].id),
        forall|e: OpenReq| answer_state(msgs.take(n)).open.contains(e) && e.0 == msgs[k].id ==> e.1 == msgs[k].sender,
    decreases n,
{
    let x = msgs[k].id;
    let s = msgs[k].sender;
    let pre = msgs.take(n - 1);
    assert(msgs.take(n).drop_last() =~= pre);
    assert(msgs.take(n).last() == msgs[n - 1]);
    let st = answer_state(pre);
    let m = msgs[n - 1];
    if n - 1 == k {
        lemma_request_before(msgs, k, k);
    } else {
        lemma_request_after(msgs, k, n - 1);
    }
    let open1 = if m.intent == Intent::Req { st.open.push((m.id, m.sender)) } else { st.open };
    let open2 = match m.reply_to {
        Some(t) => drop_id(open1, t),
        None => open1,
    };
    let oldest = m.intent == Intent::Reply && m.reply_to is None && open2.len() > 0;
    assert(!oldest);
    assert(m.reply_to != Some(x));
    assert(open1.contains((x, s))) by {
        if n - 1 == k {
            assert(open1[st.open.len() as int] == (x, s));
        } else {
            let j = choose|j: int| 0 <= j < st.open.len() && st.open[j] == (x, s);
            if m.intent == Intent::Req {
                assert(open1[j] == (x, s));
            }
        }
    }
    assert forall|e: OpenReq| open1.contains(e) && e.0 == x implies e.1 == s by {
        let j = choose|j: int| 0 <= j < open1.len() && open1[j] == e;
        if j < st.open.len() {
            assert(st.open[j] == e);
            assert(st.open.contains(e));
        } else {
            assert(e == (m.id, m.sender));
            if n - 1 != k {
                assert(msgs[n - 1].id != msgs[k].id);
            }
        }
    }
    if let Some(t) = m.reply_to {
        lemma_drop_id_keeps(open1, t, (x, s));
    }
    assert(open2.contains((x, s)));
    assert forall|e: OpenReq| open2.contains(e) && e.0 == x implies e.1 == s by {
        if let Some(t) = m.reply_to {
            lemma_drop_id_subseq(open1, t, e);
        }
    }
    if m.intent == Intent::Out {
        assert(m.sender != s);
        if ids_of_sender(open2, m.sender).contains(x) {
            lemma_ids_of_sender_entry(open2, m.sender, x);
        }
        lemma_drop_sender_keeps(open2, m.sender, (x, s));
        assert forall|e: OpenReq| drop_sender(open2, m.sender).contains(e) && e.0 == x implies e.1 == s by {
            lemma_drop_sender_subseq(open2, m.sender, e);
        }
    }
}

/// A request stays owed while nothing could settle it: when no message
/// names it in `reply_to`, no `reply` without `reply_to` follows it, and its
/// sender sends no `out` after it, it is neither answered nor closed.
pub proof fn lemma_untouched_request_open(msgs: Seq<MessageView>, k: int)
    requires
        untouched_request(msgs, k),
    ensures
        !answer_state(msgs).answered.contains(msgs[k].id),
        !answer_state(msgs).closed.contains(msgs[k].id),
{
    lemma_request_after(msgs, k, msgs.len() as int);
    assert(msgs.take(msgs.len() as int) =~= msgs);
}

/// An `out` withdraws its sender's requests: a request that nothing settled
/// before its sender's `out` (and that no message names in `reply_to`) is
/// closed and not answered once the `out` is read.
pub proof fn lemma_out_closes_request(msgs: Seq<MessageView>, k: int, out: MessageView)
    requires
        untouched_request(msgs, k),
        out.intent == Intent::Out,
        out.sender == msgs[k].sender,
        out.reply_to != Some(msgs[k].id),
    ensures
        answer_state(msgs.push(out)).closed.contains(msgs[k].id),
        !answer_state(msgs.push(out)).answered.contains(msgs[k].id),
{
    lemma_request_after(msgs, k, msgs.len() as int);
    assert(msgs.take(msgs.len() as int) =~= msgs);
    assert(msgs.push(out).drop_last() =~= msgs);
    let st = answer_state(msgs);
    let x = (msgs[k].id, msgs[k].sender);
    let open2 = match out.reply_to {
        Some(t) => drop_id(st.open, t),
        None => st.open,
    };
    if let Some(t) = out.reply_to {
        lemma_drop_id_keeps(st.open, t, x);
    }
    lemma_ids_of_sender_has(open2, x);
}

} // verus!
