//! The daemon's state: sessions with their transcripts and message
//! counters, read receipts, the idempotency index, and the wait registry.
//! Every operation is a step from one state to the next; the daemon holds
//! the store behind a lock and broadcasts what the steps report.

use vstd::prelude::*;
use crate::models::{
    Intent, Message, MessageView, Part, PartView, Session, SessionSummary, SessionView,
    messages_view, parts_view, copy_parts,
};
use crate::text::{chars_of, copy_opt_string, opt_view, push_str, str_eq, string_push};
use crate::waits::{RegistryView, WaitRegistry, WaitView, OverlapView, WaitInfoView, live, without,
    overlaps_of, overlaps_view, infos_view, info_of};
use crate::models::{ActiveWaitInfo, PendingObligation, WaitOverlap, WaitScope, first_text, snippet_spec};
use crate::answers::{AnswerState, answer_state, answers_spec, message_answers_in};
use crate::clock::{later_by, now_micros, seconds_between, elapsed_seconds};
use crate::session_ids::{ID_SPACE, id_char, lemma_numbered_id, lemma_numbered_ids_fill, numbered_id, numbered_session_id, session_id_form};
use rand::Rng;

verus! {

broadcast use vstd::string::group_string_axioms;

/// A session together with its transcript and the id its next message gets.
#[derive(Debug)]
pub struct SessionRecord {
    pub session: Session,
    pub messages: Vec<Message>,
    pub next_msg_id: u64,
}

/// The mathematical value of a session record.
pub struct RecordView {
    pub session: SessionView,
    pub messages: Seq<MessageView>,
    pub next_msg_id: u64,
}

impl View for SessionRecord {
    type V = RecordView;

    open spec fn view(&self) -> RecordView {
        RecordView {
            session: self.session@,
            messages: messages_view(self.messages@),
            next_msg_id: self.next_msg_id,
        }
    }
}

/// The highest message id a reader has read in a session.
#[derive(Debug)]
pub struct ReadReceipt {
    pub session_id: String,
    pub sender: String,
    pub up_to: u64,
}

/// The mathematical value of a read receipt.
pub struct ReadView {
    pub session_id: Seq<char>,
    pub sender: Seq<char>,
    pub up_to: u64,
}

impl View for ReadReceipt {
    type V = ReadView;

    open spec fn view(&self) -> ReadView {
        ReadView { session_id: self.session_id@, sender: self.sender@, up_to: self.up_to }
    }
}

/// Where the message sent by `sender` with idempotency key `key` was stored.
#[derive(Debug)]
pub struct DedupEntry {
    pub sender: String,
    pub key: String,
    pub session_id: String,
    pub message_id: u64,
}

/// The mathematical value of an idempotency index entry.
pub struct DedupView {
    pub sender: Seq<char>,
    pub key: Seq<char>,
    pub session_id: Seq<char>,
    pub message_id: u64,
}

impl View for DedupEntry {
    type V = DedupView;

    open spec fn view(&self) -> DedupView {
        DedupView {
            sender: self.sender@,
            key: self.key@,
            session_id: self.session_id@,
            message_id: self.message_id,
        }
    }
}

/// The views of sequences of records, receipts and index entries.
pub open spec fn records_view(s: Seq<SessionRecord>) -> Seq<RecordView> {
    Seq::new(s.len(), |i: int| s[i]@)
}

pub open spec fn reads_view(s: Seq<ReadReceipt>) -> Seq<ReadView> {
    Seq::new(s.len(), |i: int| s[i]@)
}

pub open spec fn dedup_view(s: Seq<DedupEntry>) -> Seq<DedupView> {
    Seq::new(s.len(), |i: int| s[i]@)
}

/// The mathematical value of the store.
pub struct StoreView {
    pub sessions: Seq<RecordView>,
    pub reads: Seq<ReadView>,
    pub dedup: Seq<DedupView>,
    /// Active waits, for overlap reports.
    pub waits: RegistryView,
}

/// The position of the session with id `id`, if there is one.
pub open spec fn session_index(s: Seq<RecordView>, id: Seq<char>) -> Option<int> {
    if exists|i: int| 0 <= i < s.len() && s[i].session.id == id {
        Some(choose|i: int| 0 <= i < s.len() && s[i].session.id == id)
    } else {
        None
    }
}

/// No two sessions share an id.
pub open spec fn unique_ids(s: Seq<RecordView>) -> bool {
    forall|i: int, j: int| 0 <= i < s.len() && 0 <= j < s.len() && s[i].session.id == s[j].session.id ==> i == j
}

/// No reader has two receipts for one session.
pub open spec fn unique_reads(s: Seq<ReadView>) -> bool {
    forall|i: int, j: int| 0 <= i < s.len() && 0 <= j < s.len() && s[i].session_id == s[j].session_id
        && s[i].sender == s[j].sender ==> i == j
}

/// No sender has two index entries for one key.
pub open spec fn unique_keys(s: Seq<DedupView>) -> bool {
    forall|i: int, j: int| 0 <= i < s.len() && 0 <= j < s.len() && s[i].sender == s[j].sender
        && s[i].key == s[j].key ==> i == j
}

/// The messages of a session have increasing ids, all below the next id.
pub open spec fn ids_ordered(r: RecordView) -> bool {
    &&& forall|i: int, j: int| 0 <= i < j < r.messages.len() ==> r.messages[i].id < r.messages[j].id
    &&& forall|i: int| 0 <= i < r.messages.len() ==> #[trigger] r.messages[i].id < r.next_msg_id
}

/// The parameters of a new message.
#[derive(Debug, Clone)]
pub struct AddMessageParams {
    pub sender: String,
    pub parts: Vec<Part>,
    pub intent: Intent,
    pub reply_to: Option<u64>,
    pub expect_reply: bool,
    pub waiting_until: Option<i64>,
    pub idempotency_key: Option<String>,
}

/// The mathematical value of message parameters.
pub struct ParamsView {
    pub sender: Seq<char>,
    pub parts: Seq<PartView>,
    pub intent: Intent,
    pub reply_to: Option<u64>,
    pub expect_reply: bool,
    pub waiting_until: Option<i64>,
    pub idempotency_key: Option<Seq<char>>,
}

impl View for AddMessageParams {
    type V = ParamsView;

    open spec fn view(&self) -> ParamsView {
        ParamsView {
            sender: self.sender@,
            parts: parts_view(self.parts@),
            intent: self.intent,
            reply_to: self.reply_to,
            expect_reply: self.expect_reply,
            waiting_until: self.waiting_until,
            idempotency_key: opt_view(self.idempotency_key),
        }
    }
}

/// Outcome of an attempt to add a message.
#[derive(Debug)]
pub enum AddMessageResult {
    /// A new message was stored.
    Stored(Message),
    /// A retry with a known idempotency key and the same parts; the original
    /// message is returned and nothing new was stored.
    Duplicate(Message),
    /// The idempotency key was already used by this sender for other parts;
    /// the conflicting original is returned.
    KeyConflict(Message),
    /// The session is closed or does not exist.
    Unavailable,
}

/// The mathematical value of an outcome.
pub enum AddOutcome {
    Stored(MessageView),
    Duplicate(MessageView),
    KeyConflict(MessageView),
    Unavailable,
}

impl View for AddMessageResult {
    type V = AddOutcome;

    open spec fn view(&self) -> AddOutcome {
        match self {
            AddMessageResult::Stored(m) => AddOutcome::Stored(m@),
            AddMessageResult::Duplicate(m) => AddOutcome::Duplicate(m@),
            AddMessageResult::KeyConflict(m) => AddOutcome::KeyConflict(m@),
            AddMessageResult::Unavailable => AddOutcome::Unavailable,
        }
    }
}

/// The position of the index entry for (`sender`, `key`), if there is one.
pub open spec fn dedup_index(d: Seq<DedupView>, sender: Seq<char>, key: Seq<char>) -> Option<int> {
    if exists|i: int| 0 <= i < d.len() && d[i].sender == sender && d[i].key == key {
        Some(choose|i: int| 0 <= i < d.len() && d[i].sender == sender && d[i].key == key)
    } else {
        None
    }
}

/// `i` is the position of the first message with id `id` in `msgs`.
pub open spec fn first_with_id(msgs: Seq<MessageView>, id: u64, i: int) -> bool {
    &&& 0 <= i < msgs.len()
    &&& msgs[i].id == id
    &&& forall|j: int| 0 <= j < i ==> msgs[j].id != id
}

/// The first message with id `id` in `msgs`, if any.
pub open spec fn find_message(msgs: Seq<MessageView>, id: u64) -> Option<MessageView> {
    if exists|i: int| first_with_id(msgs, id, i) {
        Some(msgs[choose|i: int| first_with_id(msgs, id, i)])
    } else {
        None
    }
}

/// The message stored under an index entry: the first message with the
/// entry's id in the entry's session.
pub open spec fn indexed_message(st: StoreView, e: DedupView) -> Option<MessageView> {
    match session_index(st.sessions, e.session_id) {
        Some(k) => find_message(st.sessions[k].messages, e.message_id),
        None => None,
    }
}

/// The message that an add to session `sid` at position `i` would store.
pub open spec fn new_message(st: StoreView, i: int, sid: Seq<char>, p: ParamsView, now: i64) -> MessageView {
    MessageView {
        id: st.sessions[i].next_msg_id,
        session_id: sid,
        sender: p.sender,
        parts: p.parts,
        timestamp: now,
        intent: p.intent,
        reply_to: p.reply_to,
        expect_reply: p.expect_reply,
        waiting_until: p.waiting_until,
        idempotency_key: p.idempotency_key,
    }
}

/// The state once session `i` has been touched at `now` and its counter advanced.
pub open spec fn touched(st: StoreView, i: int, now: i64) -> StoreView {
    let r = st.sessions[i];
    StoreView {
        sessions: st.sessions.update(i, RecordView {
            session: SessionView { last_activity: now, ..r.session },
            messages: r.messages,
            next_msg_id: (r.next_msg_id + 1) as u64,
        }),
        ..st
    }
}

/// The index without entry `k`.
pub open spec fn dedup_without(d: Seq<DedupView>, k: int) -> Seq<DedupView> {
    d.remove(k)
}

/// The state once message `m` has been appended to session `i` (and, when it
/// carries a key, indexed).
pub open spec fn stored(st: StoreView, i: int, m: MessageView) -> StoreView {
    let r = st.sessions[i];
    StoreView {
        sessions: st.sessions.update(i, RecordView { messages: r.messages.push(m), ..r }),
        dedup: match m.idempotency_key {
            Some(k) => st.dedup.push(DedupView { sender: m.sender, key: k, session_id: m.session_id, message_id: m.id }),
            None => st.dedup,
        },
        ..st
    }
}

/// What adding a message with parameters `p` to session `sid` at time `now`
/// does: refused (nothing changes) when the session is missing or closed;
/// otherwise the session is touched and its counter advanced, and then a
/// known (sender, key) pair whose message still exists answers with that
/// message (a duplicate when the parts are the same, a conflict when not),
/// and anything else stores the new message (a stale index entry is dropped
/// first).
pub open spec fn add_spec(st: StoreView, sid: Seq<char>, p: ParamsView, now: i64) -> (StoreView, AddOutcome) {
    match session_index(st.sessions, sid) {
        None => (st, AddOutcome::Unavailable),
        Some(i) => if st.sessions[i].session.closed {
            (st, AddOutcome::Unavailable)
        } else {
            let m = new_message(st, i, sid, p, now);
            let t = touched(st, i, now);
            match p.idempotency_key {
                None => (stored(t, i, m), AddOutcome::Stored(m)),
                Some(k) => match dedup_index(t.dedup, p.sender, k) {
                    None => (stored(t, i, m), AddOutcome::Stored(m)),
                    Some(e) => match indexed_message(t, t.dedup[e]) {
                        Some(orig) => if orig.parts == p.parts {
                            (t, AddOutcome::Duplicate(orig))
                        } else {
                            (t, AddOutcome::KeyConflict(orig))
                        },
                        None => (stored(StoreView { dedup: t.dedup.remove(e), ..t }, i, m), AddOutcome::Stored(m)),
                    },
                },
            }
        },
    }
}

/// The messages of `msgs` with id above `since`.
pub open spec fn after(msgs: Seq<MessageView>, since: u64) -> Seq<MessageView> {
    msgs.filter(|m: MessageView| m.id > since)
}

/// The messages of `msgs` with id above `since` and, when `from` is given,
/// sent by `from`.
pub open spec fn after_from(msgs: Seq<MessageView>, since: u64, from: Option<Seq<char>>) -> Seq<MessageView> {
    msgs.filter(|m: MessageView| m.id > since && (from is None || m.sender == from->0))
}

/// The last `n` elements of `s` (all of them when there are fewer).
pub open spec fn last_n<A>(s: Seq<A>, n: nat) -> Seq<A> {
    if s.len() <= n { s } else { s.skip(s.len() - n) }
}

/// The transcript of session `sid` (empty when there is no such session).
pub open spec fn transcript(st: StoreView, sid: Seq<char>) -> Seq<MessageView> {
    match session_index(st.sessions, sid) {
        Some(i) => st.sessions[i].messages,
        None => Seq::empty(),
    }
}

/// The store.
#[derive(Debug)]
pub struct Store {
    records: Vec<SessionRecord>,
    read_state: Vec<ReadReceipt>,
    dedup: Vec<DedupEntry>,
    wait_registry: WaitRegistry,
}

impl View for Store {
    type V = StoreView;

    closed spec fn view(&self) -> StoreView {
        StoreView {
            sessions: records_view(self.records@),
            reads: reads_view(self.read_state@),
            dedup: dedup_view(self.dedup@),
            waits: self.wait_registry@,
        }
    }
}

impl Store {
    /// The store is well formed: session ids, read receipts per reader and
    /// session, and index entries per sender and key are unique.
    pub open spec fn wf(&self) -> bool {
        &&& unique_ids(self@.sessions)
        &&& unique_reads(self@.reads)
        &&& unique_keys(self@.dedup)
    }

    /// An empty store.
    pub fn new() -> (r: Store)
        ensures
            r.wf(),
            r@.sessions == Seq::<RecordView>::empty(),
            r@.reads == Seq::<ReadView>::empty(),
            r@.dedup == Seq::<DedupView>::empty(),
            r@.waits.waits.len() == 0,
            r@.waits.next_id == 0,
    {
        let r = Store {
            records: Vec::new(),
            read_state: Vec::new(),
            dedup: Vec::new(),
            wait_registry: WaitRegistry::new(),
        };
        assert(r@.sessions =~= Seq::<RecordView>::empty());
        assert(r@.reads =~= Seq::<ReadView>::empty());
        assert(r@.dedup =~= Seq::<DedupView>::empty());
        r
    }

    /// The position of the session with id `id`.
    fn find(&self, id: &str) -> (r: Option<usize>)
        requires
            self.wf(),
        ensures
            r matches Some(i) ==> session_index(self@.sessions, id@) == Some(i as int),
            r is None ==> session_index(self@.sessions, id@) is None,
    {
        let mut i: usize = 0;
        while i < self.records.len()
            invariant
                self.wf(),
                0 <= i <= self.records@.len(),
                forall|j: int| 0 <= j < i ==> self@.sessions[j].session.id != id@,
            decreases self.records.len() - i,
        {
            assert(self@.sessions[i as int] == self.records@[i as int]@);
            if str_eq(self.records[i].session.id.as_str(), id) {
                proof {
                    assert(self@.sessions[i as int].session.id == id@);
                    let k = choose|k: int| 0 <= k < self@.sessions.len() && self@.sessions[k].session.id == id@;
                    assert(k == i);
                }
                return Some(i);
            }
            i += 1;
        }
        None
    }
}


/// Whether two parts are equal as values.
pub fn part_equal(a: &Part, b: &Part) -> (r: bool)
    ensures
        r == (a@ == b@),
{
    match (a, b) {
        (Part::Text { content: x }, Part::Text { content: y }) => str_eq(x.as_str(), y.as_str()),
        (Part::File { path: x, label: l }, Part::File { path: y, label: m }) => {
            str_eq(x.as_str(), y.as_str()) && opt_str_equal(l, m)
        },
        (Part::Data { value: x, label: l }, Part::Data { value: y, label: m }) => {
            str_eq(x.as_str(), y.as_str()) && opt_str_equal(l, m)
        },
        _ => false,
    }
}

/// Whether two optional strings are equal as values.
pub fn opt_str_equal(a: &Option<String>, b: &Option<String>) -> (r: bool)
    ensures
        r == (opt_view(*a) == opt_view(*b)),
{
    match (a, b) {
        (Some(x), Some(y)) => str_eq(x.as_str(), y.as_str()),
        (None, None) => true,
        _ => false,
    }
}

/// Whether two part lists are equal as values.
pub fn parts_equal(a: &Vec<Part>, b: &Vec<Part>) -> (r: bool)
    ensures
        r == (parts_view(a@) == parts_view(b@)),
{
    if a.len() != b.len() {
        assert(parts_view(a@).len() != parts_view(b@).len());
        return false;
    }
    let mut i: usize = 0;
    while i < a.len()
        invariant
            a@.len() == b@.len(),
            0 <= i <= a@.len(),
            forall|j: int| 0 <= j < i ==> a@[j]@ == b@[j]@,
        decreases a.len() - i,
    {
        if !part_equal(&a[i], &b[i]) {
            assert(parts_view(a@)[i as int] != parts_view(b@)[i as int]);
            return false;
        }
        i += 1;
    }
    assert(parts_view(a@) =~= parts_view(b@));
    true
}

/// The position of the first message with id `id`.
fn find_message_pos(msgs: &Vec<Message>, id: u64) -> (r: Option<usize>)
    ensures
        r matches Some(i) ==> first_with_id(messages_view(msgs@), id, i as int),
        r is None ==> !exists|i: int| first_with_id(messages_view(msgs@), id, i),
{
    let mut i: usize = 0;
    while i < msgs.len()
        invariant
            0 <= i <= msgs@.len(),
            forall|j: int| 0 <= j < i ==> msgs@[j].id != id,
        decreases msgs.len() - i,
    {
        if msgs[i].id == id {
            return Some(i);
        }
        i += 1;
    }
    None
}

proof fn lemma_first_with_id_unique(msgs: Seq<MessageView>, id: u64, i: int, j: int)
    requires
        first_with_id(msgs, id, i),
        first_with_id(msgs, id, j),
    ensures
        i == j,
{
}

impl Store {
    /// The position of the index entry for (`sender`, `key`).
    fn find_dedup(&self, sender: &str, key: &str) -> (r: Option<usize>)
        requires
            self.wf(),
        ensures
            r matches Some(i) ==> dedup_index(self@.dedup, sender@, key@) == Some(i as int),
            r is None ==> dedup_index(self@.dedup, sender@, key@) is None,
    {
        let mut i: usize = 0;
        while i < self.dedup.len()
            invariant
                self.wf(),
                0 <= i <= self.dedup@.len(),
                forall|j: int| 0 <= j < i ==> !(self@.dedup[j].sender == sender@ && self@.dedup[j].key == key@),
            decreases self.dedup.len() - i,
        {
            assert(self@.dedup[i as int] == self.dedup@[i as int]@);
            if str_eq(self.dedup[i].sender.as_str(), sender) && str_eq(self.dedup[i].key.as_str(), key) {
                proof {
                    let k = choose|k: int| 0 <= k < self@.dedup.len() && self@.dedup[k].sender == sender@ && self@.dedup[k].key == key@;
                    assert(k == i);
                }
                return Some(i);
            }
            i += 1;
        }
        None
    }

    /// Adds a message to session `session_id` at time `now` (see `add_spec`):
    /// a closed or missing session refuses it; a retry with a known
    /// idempotency key returns the original message (a duplicate for the
    /// same parts, a conflict for other parts) without storing anything.
    pub fn add_message_with_at(&mut self, session_id: &str, params: AddMessageParams, now: i64) -> (r: AddMessageResult)
        requires
            old(self).wf(),
            session_index(old(self)@.sessions, session_id@) matches Some(i)
                ==> old(self)@.sessions[i].next_msg_id < u64::MAX,
        ensures
            final(self).wf(),
            final(self)@ == add_spec(old(self)@, session_id@, params@, now).0,
            r@ == add_spec(old(self)@, session_id@, params@, now).1,
    {
        let i = match self.find(session_id) {
            Some(i) => i,
            None => return AddMessageResult::Unavailable,
        };
        if self.records[i].session.closed {
            return AddMessageResult::Unavailable;
        }
        let ghost st0 = self@;
        let msg_id = self.records[i].next_msg_id;
        self.records[i].session.last_activity = now;
        self.records[i].next_msg_id = msg_id + 1;
        assert(self@.sessions =~= touched(st0, i as int, now).sessions);
        assert(self@ == touched(st0, i as int, now));
        let ghost t = self@;
        let msg = Message {
            id: msg_id,
            session_id: session_id.to_string(),
            sender: params.sender.clone(),
            parts: copy_parts(&params.parts),
            timestamp: now,
            intent: params.intent,
            reply_to: params.reply_to,
            expect_reply: params.expect_reply,
            waiting_until: params.waiting_until,
            idempotency_key: copy_opt_string(&params.idempotency_key),
        };
        assert(msg@ == new_message(st0, i as int, session_id@, params@, now));
        match &params.idempotency_key {
            Some(key) => {
                match self.find_dedup(params.sender.as_str(), key.as_str()) {
                    Some(e) => {
                        let osid = self.dedup[e].session_id.clone();
                        let omid = self.dedup[e].message_id;
                        assert(self@.dedup[e as int] == self.dedup@[e as int]@);
                        let existing = match self.find(osid.as_str()) {
                            Some(k) => {
                                assert(self@.sessions[k as int] == self.records@[k as int]@);
                                match find_message_pos(&self.records[k].messages, omid) {
                                    Some(p) => {
                                        proof {
                                            let mv = messages_view(self.records@[k as int].messages@);
                                            let q = choose|q: int| first_with_id(mv, omid, q);
                                            lemma_first_with_id_unique(mv, omid, p as int, q);
                                        }
                                        Some(self.records[k].messages[p as usize].copy())
                                    },
                                    None => None,
                                }
                            },
                            None => None,
                        };
                        match existing {
                            Some(orig) => {
                                if parts_equal(&orig.parts, &params.parts) {
                                    return AddMessageResult::Duplicate(orig);
                                } else {
                                    return AddMessageResult::KeyConflict(orig);
                                }
                            },
                            None => {
                                let ghost before = self.dedup@;
                                self.dedup.remove(e);
                                assert(dedup_view(self.dedup@) =~= dedup_view(before).remove(e as int));
                            },
                        }
                    },
                    None => {},
                }
            },
            None => {},
        }
        proof {
            match params@.idempotency_key {
                Some(k) => {
                    if exists|j: int| 0 <= j < self@.dedup.len() && self@.dedup[j].sender == params@.sender && self@.dedup[j].key == k {
                        let j = choose|j: int| 0 <= j < self@.dedup.len() && self@.dedup[j].sender == params@.sender && self@.dedup[j].key == k;
                        match dedup_index(t.dedup, params@.sender, k) {
                            Some(e) => {
                                assert(self@.dedup == t.dedup.remove(e));
                                if j < e {
                                    assert(t.dedup[j] == self@.dedup[j]);
                                } else {
                                    assert(t.dedup[j + 1] == self@.dedup[j]);
                                }
                            },
                            None => {
                                assert(self@.dedup == t.dedup);
                            },
                        }
                        assert(false);
                    }
                },
                None => {},
            }
        }
        self.store_message(i, msg.copy());
        AddMessageResult::Stored(msg)
    }

    /// Appends `m` to session `i` and indexes it when it carries a key.
    fn store_message(&mut self, i: usize, m: Message)
        requires
            old(self).wf(),
            i < old(self)@.sessions.len(),
            m@.idempotency_key matches Some(k) ==> dedup_index(old(self)@.dedup, m@.sender, k) is None,
        ensures
            final(self).wf(),
            final(self)@ == stored(old(self)@, i as int, m@),
    {
        let entry = match &m.idempotency_key {
            Some(k) => Some(DedupEntry {
                sender: m.sender.clone(),
                key: k.clone(),
                session_id: m.session_id.clone(),
                message_id: m.id,
            }),
            None => None,
        };
        let ghost st0 = self@;
        let ghost mv = m@;
        let ghost old_msgs = self.records@[i as int].messages@;
        self.records[i].messages.push(m);
        assert(messages_view(self.records@[i as int].messages@) =~= messages_view(old_msgs).push(mv));
        assert(self@.sessions =~= stored(st0, i as int, mv).sessions);
        match entry {
            Some(e) => {
                let ghost before = self.dedup@;
                self.dedup.push(e);
                assert(dedup_view(self.dedup@) =~= dedup_view(before).push(e@));
            },
            None => {},
        }
        assert(self@.dedup =~= stored(st0, i as int, mv).dedup);
    }
}

/// The summary of a session record given the read receipts.
pub open spec fn summary_of(r: RecordView, reads: Seq<ReadView>) -> SummaryView {
    SummaryView {
        id: r.session.id,
        name: r.session.name,
        created_at: r.session.created_at,
        closed: r.session.closed,
        message_count: r.messages.len(),
        read_by: reads.filter(|x: ReadView| x.session_id == r.session.id).map_values(|x: ReadView| (x.sender, x.up_to)),
    }
}

/// The mathematical value of a session summary.
pub struct SummaryView {
    pub id: Seq<char>,
    pub name: Option<Seq<char>>,
    pub created_at: i64,
    pub closed: bool,
    pub message_count: nat,
    pub read_by: Seq<(Seq<char>, u64)>,
}

/// The views of session summaries.
pub open spec fn summaries_view(s: Seq<SessionSummary>) -> Seq<SummaryView> {
    Seq::new(s.len(), |i: int| SummaryView {
        id: s[i].id@,
        name: opt_view(s[i].name),
        created_at: s[i].created_at,
        closed: s[i].closed,
        message_count: s[i].message_count as nat,
        read_by: Seq::new(s[i].read_by@.len(), |j: int| (s[i].read_by@[j].0@, s[i].read_by@[j].1)),
    })
}

/// The read receipt that `sender` has in session `sid`, if any.
pub open spec fn read_index(reads: Seq<ReadView>, sid: Seq<char>, sender: Seq<char>) -> Option<int> {
    if exists|i: int| 0 <= i < reads.len() && reads[i].session_id == sid && reads[i].sender == sender {
        Some(choose|i: int| 0 <= i < reads.len() && reads[i].session_id == sid && reads[i].sender == sender)
    } else {
        None
    }
}

/// The receipts once `sender` has read up to `up_to` in `sid`: the receipt
/// only ever grows, and a missing one starts at `up_to`.
pub open spec fn read_spec(reads: Seq<ReadView>, sid: Seq<char>, sender: Seq<char>, up_to: u64) -> Seq<ReadView> {
    match read_index(reads, sid, sender) {
        Some(i) => if up_to > reads[i].up_to {
            reads.update(i, ReadView { up_to, ..reads[i] })
        } else {
            reads
        },
        None => reads.push(ReadView { session_id: sid, sender, up_to }),
    }
}

/// The message sent by `add_message`: one text part, informational, no key.
pub open spec fn text_params(sender: Seq<char>, content: Seq<char>) -> ParamsView {
    ParamsView {
        sender,
        parts: seq![PartView::Text { content }],
        intent: Intent::Fyi,
        reply_to: None,
        expect_reply: false,
        waiting_until: None,
        idempotency_key: None,
    }
}

impl Store {
    /// Adds a message at the current time (see `add_message_with_at`).
    pub fn add_message_with(&mut self, session_id: &str, params: AddMessageParams) -> (r: AddMessageResult)
        requires
            old(self).wf(),
            session_index(old(self)@.sessions, session_id@) matches Some(i)
                ==> old(self)@.sessions[i].next_msg_id < u64::MAX,
        ensures
            final(self).wf(),
            exists|now: i64| {
                &&& final(self)@ == add_spec(old(self)@, session_id@, params@, now).0
                &&& r@ == add_spec(old(self)@, session_id@, params@, now).1
            },
    {
        let now = crate::clock::now_micros();
        self.add_message_with_at(session_id, params, now)
    }

    /// Adds a plain text message at time `now`; the stored (or, for a
    /// duplicate, original) message, or nothing when the session refuses it.
    pub fn add_message_at(&mut self, session_id: &str, sender: &str, content: &str, now: i64) -> (r: Option<Message>)
        requires
            old(self).wf(),
            session_index(old(self)@.sessions, session_id@) matches Some(i)
                ==> old(self)@.sessions[i].next_msg_id < u64::MAX,
        ensures
            final(self).wf(),
            final(self)@ == add_spec(old(self)@, session_id@, text_params(sender@, content@), now).0,
            match add_spec(old(self)@, session_id@, text_params(sender@, content@), now).1 {
                AddOutcome::Stored(m) => r matches Some(x) && x@ == m,
                AddOutcome::Duplicate(m) => r matches Some(x) && x@ == m,
                _ => r is None,
            },
    {
        let mut parts: Vec<Part> = Vec::new();
        parts.push(Part::Text { content: content.to_string() });
        let params = AddMessageParams {
            sender: sender.to_string(),
            parts,
            intent: Intent::Fyi,
            reply_to: None,
            expect_reply: false,
            waiting_until: None,
            idempotency_key: None,
        };
        assert(params@.parts =~= seq![PartView::Text { content: content@ }]);
        assert(params@ == text_params(sender@, content@));
        match self.add_message_with_at(session_id, params, now) {
            AddMessageResult::Stored(m) => Some(m),
            AddMessageResult::Duplicate(m) => Some(m),
            AddMessageResult::KeyConflict(_) => None,
            AddMessageResult::Unavailable => None,
        }
    }

    /// Adds a plain text message at the current time.
    pub fn add_message(&mut self, session_id: &str, sender: &str, content: &str) -> (r: Option<Message>)
        requires
            old(self).wf(),
            session_index(old(self)@.sessions, session_id@) matches Some(i)
                ==> old(self)@.sessions[i].next_msg_id < u64::MAX,
        ensures
            final(self).wf(),
            exists|now: i64| {
                &&& final(self)@ == add_spec(old(self)@, session_id@, text_params(sender@, content@), now).0
                &&& match add_spec(old(self)@, session_id@, text_params(sender@, content@), now).1 {
                    AddOutcome::Stored(m) => r matches Some(x) && x@ == m,
                    AddOutcome::Duplicate(m) => r matches Some(x) && x@ == m,
                    _ => r is None,
                }
            },
    {
        let now = crate::clock::now_micros();
        self.add_message_at(session_id, sender, content, now)
    }

    /// What the daemon persists: every session, the transcripts of the
    /// sessions that have messages, and every session's next message id,
    /// in session order.
    pub fn snapshot(&self) -> (r: (Vec<Session>, Vec<(String, Vec<Message>)>, Vec<(String, u64)>))
        ensures
            sessions_in(r.0@) == self@.sessions.map_values(|x: RecordView| x.session),
            lists_in(r.1@) == self@.sessions.filter(|x: RecordView| x.messages.len() > 0)
                .map_values(|x: RecordView| (x.session.id, x.messages)),
            nexts_in(r.2@) == self@.sessions.map_values(|x: RecordView| (x.session.id, x.next_msg_id)),
    {
        let ghost sv = self@.sessions;
        let ghost has = |x: RecordView| x.messages.len() > 0;
        let mut sessions: Vec<Session> = Vec::new();
        let mut lists: Vec<(String, Vec<Message>)> = Vec::new();
        let mut nexts: Vec<(String, u64)> = Vec::new();
        let mut i: usize = 0;
        assert(sv.take(0).filter(has) =~= Seq::<RecordView>::empty());
        assert(lists_in(lists@) =~= Seq::<(Seq<char>, Seq<MessageView>)>::empty());
        while i < self.records.len()
            invariant
                sv == self@.sessions,
                has == (|x: RecordView| x.messages.len() > 0),
                0 <= i <= self.records@.len(),
                sessions_in(sessions@) == sv.take(i as int).map_values(|x: RecordView| x.session),
                lists_in(lists@) == sv.take(i as int).filter(has).map_values(|x: RecordView| (x.session.id, x.messages)),
                nexts_in(nexts@) == sv.take(i as int).map_values(|x: RecordView| (x.session.id, x.next_msg_id)),
            decreases self.records.len() - i,
        {
            reveal_with_fuel(Seq::filter, 1);
            let rec = &self.records[i];
            assert(sv[i as int] == rec@);
            assert(sv.take(i + 1).drop_last() =~= sv.take(i as int));
            assert(sv.take(i + 1).last() == rec@);
            let ghost s0 = sessions@;
            let ghost n0 = nexts@;
            let ghost l0 = lists@;
            sessions.push(rec.session.copy());
            nexts.push((rec.session.id.clone(), rec.next_msg_id));
            assert(sessions_in(sessions@) =~= sessions_in(s0).push(rec@.session));
            assert(sv.take(i + 1).map_values(|x: RecordView| x.session) =~= sv.take(i as int).map_values(|x: RecordView| x.session).push(rec@.session));
            assert(nexts_in(nexts@) =~= nexts_in(n0).push((rec@.session.id, rec@.next_msg_id)));
            assert(sv.take(i + 1).map_values(|x: RecordView| (x.session.id, x.next_msg_id))
                =~= sv.take(i as int).map_values(|x: RecordView| (x.session.id, x.next_msg_id)).push((rec@.session.id, rec@.next_msg_id)));
            if rec.messages.len() > 0 {
                lists.push((rec.session.id.clone(), crate::models::copy_messages(&rec.messages)));
                assert(lists_in(lists@) =~= lists_in(l0).push((rec@.session.id, rec@.messages)));
                assert(sv.take(i + 1).filter(has) == sv.take(i as int).filter(has).push(rec@));
                assert(sv.take(i + 1).filter(has).map_values(|x: RecordView| (x.session.id, x.messages))
                    =~= sv.take(i as int).filter(has).map_values(|x: RecordView| (x.session.id, x.messages)).push((rec@.session.id, rec@.messages)));
            } else {
                assert(sv.take(i + 1).filter(has) == sv.take(i as int).filter(has));
            }
            i += 1;
        }
        assert(sv.take(sv.len() as int) =~= sv);
        (sessions, lists, nexts)
    }

    /// Whether session `session_id` can take another message: it is unknown,
    /// or its next message id is still below the largest one.
    pub fn has_id_room(&self, session_id: &str) -> (r: bool)
        requires
            self.wf(),
        ensures
            r == (session_index(self@.sessions, session_id@) matches Some(i) ==> self@.sessions[i].next_msg_id < u64::MAX),
    {
        match self.find(session_id) {
            Some(i) => {
                assert(self@.sessions[i as int] == self.records@[i as int]@);
                self.records[i].next_msg_id < u64::MAX
            },
            None => true,
        }
    }

    /// The messages of session `session_id` with id above `since`, in order
    /// (none for an unknown session).
    pub fn get_messages_since(&self, session_id: &str, since: u64) -> (r: Vec<Message>)
        requires
            self.wf(),
        ensures
            messages_view(r@) == after(transcript(self@, session_id@), since),
    {
        match self.find(session_id) {
            None => {
                assert(after(Seq::<MessageView>::empty(), since) =~= Seq::<MessageView>::empty());
                Vec::new()
            },
            Some(i) => {
                assert(self@.sessions[i as int] == self.records@[i as int]@);
                filter_messages(&self.records[i].messages, since, None)
            },
        }
    }

    /// The messages of session `session_id` with id above `since`, sent by
    /// `from` when given; with a limit, only the newest `limit` of them, still
    /// in ascending order.
    pub fn get_messages_filtered(&self, session_id: &str, since: u64, limit: Option<usize>, from: Option<&str>) -> (r: Vec<Message>)
        requires
            self.wf(),
        ensures
            messages_view(r@) == match limit {
                Some(l) => last_n(after_from(transcript(self@, session_id@), since, opt_str_view(from)), l as nat),
                None => after_from(transcript(self@, session_id@), since, opt_str_view(from)),
            },
    {
        let all = match self.find(session_id) {
            None => {
                assert(after_from(Seq::<MessageView>::empty(), since, opt_str_view(from)) =~= Seq::<MessageView>::empty());
                Vec::new()
            },
            Some(i) => {
                assert(self@.sessions[i as int] == self.records@[i as int]@);
                filter_messages(&self.records[i].messages, since, from)
            },
        };
        match limit {
            None => all,
            Some(l) => {
                if all.len() <= l {
                    all
                } else {
                    let start = all.len() - l;
                    let mut out: Vec<Message> = Vec::new();
                    let mut j: usize = start;
                    while j < all.len()
                        invariant
                            start <= j <= all@.len(),
                            messages_view(out@) == messages_view(all@).subrange(start as int, j as int),
                        decreases all.len() - j,
                    {
                        let ghost before = out@;
                        let c = all[j].copy();
                        assert(c@ == messages_view(all@)[j as int]);
                        out.push(c);
                        assert(messages_view(out@) =~= messages_view(before).push(c@));
                        assert(messages_view(all@).subrange(start as int, j + 1) =~= messages_view(all@).subrange(start as int, j as int).push(messages_view(all@)[j as int]));
                        j += 1;
                    }
                    assert(messages_view(all@).skip(start as int) =~= messages_view(all@).subrange(start as int, all@.len() as int));
                    out
                }
            },
        }
    }

    /// A copy of the session `session_id`, if it exists.
    pub fn get_session(&self, session_id: &str) -> (r: Option<Session>)
        requires
            self.wf(),
        ensures
            match session_index(self@.sessions, session_id@) {
                Some(i) => r matches Some(s) && s@ == self@.sessions[i].session,
                None => r is None,
            },
    {
        match self.find(session_id) {
            Some(i) => {
                assert(self@.sessions[i as int] == self.records@[i as int]@);
                Some(self.records[i].session.copy())
            },
            None => None,
        }
    }

    /// Whether some session already carries the name `name` (names address
    /// sessions, so they must be unique).
    pub fn session_name_exists(&self, name: &str) -> (r: bool)
        ensures
            r == exists|i: int| 0 <= i < self@.sessions.len() && self@.sessions[i].session.name == Some(name@),
    {
        let mut i: usize = 0;
        while i < self.records.len()
            invariant
                0 <= i <= self.records@.len(),
                forall|j: int| 0 <= j < i ==> self@.sessions[j].session.name != Some(name@),
            decreases self.records.len() - i,
        {
            assert(self@.sessions[i as int] == self.records@[i as int]@);
            match &self.records[i].session.name {
                Some(n) => {
                    if str_eq(n.as_str(), name) {
                        return true;
                    }
                },
                None => {},
            }
            i += 1;
        }
        false
    }

    /// A summary of every session: id, name, creation time, whether closed,
    /// message count, and who has read up to which id.
    pub fn list_sessions(&self) -> (r: Vec<SessionSummary>)
        ensures
            summaries_view(r@) == self@.sessions.map_values(|x: RecordView| summary_of(x, self@.reads)),
    {
        let mut out: Vec<SessionSummary> = Vec::new();
        let mut i: usize = 0;
        while i < self.records.len()
            invariant
                0 <= i <= self.records@.len(),
                out@.len() == i,
                forall|j: int| 0 <= j < i ==> #[trigger] summaries_view(out@)[j] == summary_of(self@.sessions[j], self@.reads),
            decreases self.records.len() - i,
        {
            assert(self@.sessions[i as int] == self.records@[i as int]@);
            let rec = &self.records[i];
            let read_by = self.readers_of(rec.session.id.as_str());
            let summary = SessionSummary {
                id: rec.session.id.clone(),
                name: copy_opt_string(&rec.session.name),
                created_at: rec.session.created_at,
                closed: rec.session.closed,
                message_count: rec.messages.len(),
                read_by,
            };
            let ghost before = out@;
            out.push(summary);
            assert forall|j: int| 0 <= j < i + 1 implies #[trigger] summaries_view(out@)[j] == summary_of(self@.sessions[j], self@.reads) by {
                if j < i {
                    assert(summaries_view(out@)[j] == summaries_view(before)[j]);
                } else {
                    assert(summaries_view(out@)[j].read_by =~= summary_of(self@.sessions[j], self@.reads).read_by);
                }
            }
            i += 1;
        }
        assert(summaries_view(out@) =~= self@.sessions.map_values(|x: RecordView| summary_of(x, self@.reads)));
        out
    }

    /// The (reader, highest id read) pairs of session `sid`, in receipt order.
    fn readers_of(&self, sid: &str) -> (r: Vec<(String, u64)>)
        ensures
            Seq::new(r@.len(), |j: int| (r@[j].0@, r@[j].1))
                == self@.reads.filter(|x: ReadView| x.session_id == sid@).map_values(|x: ReadView| (x.sender, x.up_to)),
    {
        let mut out: Vec<(String, u64)> = Vec::new();
        let ghost rv = self@.reads;
        let mut i: usize = 0;
        assert(rv.take(0).filter(|x: ReadView| x.session_id == sid@) =~= Seq::<ReadView>::empty());
        while i < self.read_state.len()
            invariant
                rv == self@.reads,
                0 <= i <= self.read_state@.len(),
                Seq::new(out@.len(), |j: int| (out@[j].0@, out@[j].1))
                    == rv.take(i as int).filter(|x: ReadView| x.session_id == sid@).map_values(|x: ReadView| (x.sender, x.up_to)),
            decreases self.read_state.len() - i,
        {
            reveal_with_fuel(Seq::filter, 1);
            assert(rv.take(i + 1).drop_last() =~= rv.take(i as int));
            assert(rv.take(i + 1).last() == self.read_state@[i as int]@);
            let ghost before = out@;
            if str_eq(self.read_state[i].session_id.as_str(), sid) {
                out.push((self.read_state[i].sender.clone(), self.read_state[i].up_to));
                assert(Seq::new(out@.len(), |j: int| (out@[j].0@, out@[j].1))
                    =~= Seq::new(before.len(), |j: int| (before[j].0@, before[j].1)).push((self.read_state@[i as int].sender@, self.read_state@[i as int].up_to)));
            }
            i += 1;
        }
        assert(rv.take(rv.len() as int) =~= rv);
        out
    }

    /// Records that `sender` has read session `session_id` up to and
    /// including `up_to`. A receipt never goes down.
    pub fn record_read(&mut self, session_id: &str, sender: &str, up_to: u64)
        requires
            old(self).wf(),
        ensures
            final(self).wf(),
            final(self)@ == (StoreView { reads: read_spec(old(self)@.reads, session_id@, sender@, up_to), ..old(self)@ }),
    {
        let mut i: usize = 0;
        while i < self.read_state.len()
            invariant
                self.wf(),
                self@ == old(self)@,
                0 <= i <= self.read_state@.len(),
                forall|j: int| 0 <= j < i ==> !(self@.reads[j].session_id == session_id@ && self@.reads[j].sender == sender@),
            decreases self.read_state.len() - i,
        {
            assert(self@.reads[i as int] == self.read_state@[i as int]@);
            if str_eq(self.read_state[i].session_id.as_str(), session_id) && str_eq(self.read_state[i].sender.as_str(), sender) {
                proof {
                    let k = choose|k: int| 0 <= k < self@.reads.len() && self@.reads[k].session_id == session_id@ && self@.reads[k].sender == sender@;
                    assert(k == i);
                }
                if up_to > self.read_state[i].up_to {
                    let ghost st0 = self@;
                    self.read_state[i].up_to = up_to;
                    assert(self@.reads =~= st0.reads.update(i as int, ReadView { up_to, ..st0.reads[i as int] }));
                }
                return;
            }
            i += 1;
        }
        let ghost st0 = self@;
        self.read_state.push(ReadReceipt { session_id: session_id.to_string(), sender: sender.to_string(), up_to });
        assert(self@.reads =~= st0.reads.push(ReadView { session_id: session_id@, sender: sender@, up_to }));
    }
}

/// The characters of an optional string slice.
pub open spec fn opt_str_view(s: Option<&str>) -> Option<Seq<char>> {
    match s {
        Some(x) => Some(x@),
        None => None,
    }
}

/// The messages of `msgs` with id above `since`, sent by `from` when given.
pub fn filter_messages(msgs: &Vec<Message>, since: u64, from: Option<&str>) -> (r: Vec<Message>)
    ensures
        messages_view(r@) == after_from(messages_view(msgs@), since, opt_str_view(from)),
        from is None ==> messages_view(r@) == after(messages_view(msgs@), since),
{
    let mut out: Vec<Message> = Vec::new();
    let ghost mv = messages_view(msgs@);
    let ghost f = opt_str_view(from);
    let mut i: usize = 0;
    assert(mv.take(0).filter(|m: MessageView| m.id > since && (f is None || m.sender == f->0)) =~= Seq::<MessageView>::empty());
    while i < msgs.len()
        invariant
            mv == messages_view(msgs@),
            f == opt_str_view(from),
            0 <= i <= msgs@.len(),
            messages_view(out@) == mv.take(i as int).filter(|m: MessageView| m.id > since && (f is None || m.sender == f->0)),
        decreases msgs.len() - i,
    {
        reveal_with_fuel(Seq::filter, 1);
        assert(mv.take(i + 1).drop_last() =~= mv.take(i as int));
        assert(mv.take(i + 1).last() == msgs@[i as int]@);
        let keep = msgs[i].id > since && match from {
            Some(s) => str_eq(msgs[i].sender.as_str(), s),
            None => true,
        };
        if keep {
            let ghost before = out@;
            out.push(msgs[i].copy());
            assert(messages_view(out@) =~= messages_view(before).push(msgs@[i as int]@));
        }
        i += 1;
    }
    assert(mv.take(mv.len() as int) =~= mv);
    proof {
        if from is None {
            assert(mv.filter(|m: MessageView| m.id > since && (f is None || m.sender == f->0))
                =~= mv.filter(|m: MessageView| m.id > since)) by {
                lemma_filter_ext(mv, since, f);
            }
        }
    }
    out
}

proof fn lemma_filter_ext(s: Seq<MessageView>, since: u64, f: Option<Seq<char>>)
    requires
        f is None,
    ensures
        s.filter(|m: MessageView| m.id > since && (f is None || m.sender == f->0)) == s.filter(|m: MessageView| m.id > since),
    decreases s.len(),
{
    reveal_with_fuel(Seq::filter, 1);
    if s.len() > 0 {
        lemma_filter_ext(s.drop_last(), since, f);
    }
    assert(s.filter(|m: MessageView| m.id > since && (f is None || m.sender == f->0)) =~= s.filter(|m: MessageView| m.id > since));
}

/// The error text for a name that another session already carries.
pub open spec fn name_taken_message(name: Seq<char>) -> Seq<char> {
    "A session named '"@ + name + "' already exists"@
}

/// Some session other than `sid` carries the name `name`.
pub open spec fn name_taken(st: StoreView, sid: Seq<char>, name: Seq<char>) -> bool {
    exists|j: int| 0 <= j < st.sessions.len() && st.sessions[j].session.id != sid && st.sessions[j].session.name == Some(name)
}

/// The state with session `i` changed to `s`.
pub open spec fn with_session(st: StoreView, i: int, s: SessionView) -> StoreView {
    StoreView { sessions: st.sessions.update(i, RecordView { session: s, ..st.sessions[i] }), ..st }
}

/// Renaming session `sid` to `name`: refused when another session has the
/// name; otherwise the session (if it exists) takes the name.
pub open spec fn rename_spec(st: StoreView, sid: Seq<char>, name: Seq<char>) -> (StoreView, Result<bool, Seq<char>>) {
    if name_taken(st, sid, name) {
        (st, Err(name_taken_message(name)))
    } else {
        match session_index(st.sessions, sid) {
            Some(i) => (with_session(st, i, SessionView { name: Some(name), ..st.sessions[i].session }), Ok(true)),
            None => (st, Ok(false)),
        }
    }
}

/// Closing session `sid` at `now`: only an open session closes (and is
/// touched); the answer says whether it did.
pub open spec fn close_spec(st: StoreView, sid: Seq<char>, now: i64) -> (StoreView, bool) {
    match session_index(st.sessions, sid) {
        Some(i) => if st.sessions[i].session.closed {
            (st, false)
        } else {
            (with_session(st, i, SessionView { closed: true, last_activity: now, ..st.sessions[i].session }), true)
        },
        None => (st, false),
    }
}

/// Reopening session `sid` at `now`: a closed session opens (and is
/// touched); an open one stays as it is; the answer says whether it exists.
pub open spec fn reopen_spec(st: StoreView, sid: Seq<char>, now: i64) -> (StoreView, bool) {
    match session_index(st.sessions, sid) {
        Some(i) => if !st.sessions[i].session.closed {
            (st, true)
        } else {
            (with_session(st, i, SessionView { closed: false, last_activity: now, ..st.sessions[i].session }), true)
        },
        None => (st, false),
    }
}

/// The idle seconds of a session as an unsigned number (a last activity in
/// the future wraps around, as the cast does).
pub open spec fn idle_seconds(last: i64, now: i64) -> int {
    let e = seconds_between(last, now);
    if e >= 0 { e } else { e + 0x1_0000_0000_0000_0000 }
}

/// Some session was active within `max_idle` seconds of `now`.
pub open spec fn recent_spec(st: StoreView, max_idle: u64, now: i64) -> bool {
    exists|i: int| 0 <= i < st.sessions.len() && idle_seconds(st.sessions[i].session.last_activity, now) <= max_idle
}

/// The mathematical value of an open obligation.
pub struct PendingView {
    pub session_id: Seq<char>,
    pub session_name: Option<Seq<char>>,
    pub message_id: u64,
    pub sender: Seq<char>,
    pub content: Seq<char>,
    pub content_full: Option<Seq<char>>,
    pub elapsed_seconds: int,
    pub intent: Intent,
    pub waiting_until: Option<i64>,
}

/// The views of obligations.
pub open spec fn pendings_view(s: Seq<PendingObligation>) -> Seq<PendingView> {
    Seq::new(s.len(), |i: int| PendingView {
        session_id: s[i].session_id@,
        session_name: opt_view(s[i].session_name),
        message_id: s[i].message_id,
        sender: s[i].sender@,
        content: s[i].content@,
        content_full: opt_view(s[i].content_full),
        elapsed_seconds: s[i].elapsed_seconds as int,
        intent: s[i].intent,
        waiting_until: s[i].waiting_until,
    })
}

/// Whether `m` is still owed an answer: an unanswered, unclosed request, or
/// an unanswered reply or notice that asked for a reply.
pub open spec fn is_obligation(a: AnswerState, m: MessageView) -> bool {
    match m.intent {
        Intent::Req => !a.answered.contains(m.id) && !a.closed.contains(m.id),
        Intent::Reply | Intent::Fyi => m.expect_reply && !a.answered.contains(m.id),
        Intent::Out => false,
    }
}

/// The obligation line for message `m` of session `s` at `now`.
pub open spec fn pending_of(s: SessionView, m: MessageView, now: i64) -> PendingView {
    PendingView {
        session_id: s.id,
        session_name: s.name,
        message_id: m.id,
        sender: m.sender,
        content: snippet_spec(m.parts),
        content_full: first_text(m.parts),
        elapsed_seconds: seconds_between(m.timestamp, now),
        intent: m.intent,
        waiting_until: m.waiting_until,
    }
}

/// The obligation lines, for session `s` at `now`, of the messages of `msgs`
/// that `a` says are still owed.
pub open spec fn obligations(msgs: Seq<MessageView>, a: AnswerState, s: SessionView, now: i64) -> Seq<PendingView> {
    msgs.filter(|m: MessageView| is_obligation(a, m)).map_values(|m: MessageView| pending_of(s, m, now))
}

proof fn lemma_obligations_step(msgs: Seq<MessageView>, a: AnswerState, s: SessionView, now: i64, k: int)
    requires
        0 <= k < msgs.len(),
    ensures
        obligations(msgs.take(k + 1), a, s, now) == if is_obligation(a, msgs[k]) {
            obligations(msgs.take(k), a, s, now).push(pending_of(s, msgs[k], now))
        } else {
            obligations(msgs.take(k), a, s, now)
        },
{
    reveal_with_fuel(Seq::filter, 1);
    assert(msgs.take(k + 1).drop_last() =~= msgs.take(k));
    assert(msgs.take(k + 1).last() == msgs[k]);
    if is_obligation(a, msgs[k]) {
        assert(obligations(msgs.take(k + 1), a, s, now) =~= obligations(msgs.take(k), a, s, now).push(pending_of(s, msgs[k], now)));
    }
}

/// The open obligations of one session (none for a closed session), in
/// message order.
pub open spec fn session_pending(r: RecordView, now: i64) -> Seq<PendingView> {
    if r.session.closed {
        Seq::empty()
    } else {
        obligations(r.messages, answer_state(r.messages), r.session, now)
    }
}

/// The open obligations of all sessions, session by session.
pub open spec fn pending_spec(s: Seq<RecordView>, now: i64) -> Seq<PendingView>
    decreases s.len(),
{
    if s.len() == 0 {
        Seq::empty()
    } else {
        pending_spec(s.drop_last(), now) + session_pending(s.last(), now)
    }
}

/// A new, empty, open session created at `now`.
pub open spec fn fresh_record(id: Seq<char>, name: Option<Seq<char>>, now: i64) -> RecordView {
    RecordView {
        session: SessionView { id, name, created_at: now, last_activity: now, closed: false },
        messages: Seq::empty(),
        next_msg_id: 1,
    }
}


/// A random index below `n` (`rand::thread_rng().gen_range(0..n)`).
///
/// Trusted: the contract claims only that the index is below `n`; which
/// index comes out is left to chance.
#[verifier::external_body]
fn random_below(n: usize) -> (r: usize)
    requires
        n > 0,
    ensures
        r < n,
{
    rand::thread_rng().gen_range(0..n)
}

/// A random session id: `sess_` and five lower-case letters or digits.
pub fn generate_session_id() -> (r: String)
    ensures
        r@.len() == 10,
        r@.take(5) == "sess_"@,
        forall|i: int| 5 <= i < 10 ==> id_char(#[trigger] r@[i]),
        session_id_form(r@),
{
    proof {
        reveal_strlit("sess_");
        reveal_strlit("abcdefghijklmnopqrstuvwxyz0123456789");
    }
    let charset = chars_of("abcdefghijklmnopqrstuvwxyz0123456789");
    assert forall|k: int| 0 <= k < 36 implies id_char(#[trigger] charset@[k]) by {}
    let mut id = String::new();
    push_str(&mut id, "sess_");
    let mut n: usize = 0;
    while n < 5
        invariant
            charset@.len() == 36,
            forall|k: int| 0 <= k < 36 ==> id_char(#[trigger] charset@[k]),
            n <= 5,
            id@.len() == 5 + n,
            id@.take(5) == "sess_"@,
            forall|i: int| 5 <= i < 5 + n ==> id_char(#[trigger] id@[i]),
        decreases 5 - n,
    {
        let k = random_below(36);
        let ghost before = id@;
        string_push(&mut id, charset[k]);
        assert(id@.take(5) =~= before.take(5));
        n += 1;
    }
    id
}

impl Default for AddMessageParams {
    fn default() -> (r: AddMessageParams)
        ensures
            r@.sender.len() == 0,
            r@.parts.len() == 0,
            r@.intent == Intent::Fyi,
            r@.reply_to is None,
            !r@.expect_reply,
            r@.waiting_until is None,
            r@.idempotency_key is None,
    {
        AddMessageParams {
            sender: String::new(),
            parts: Vec::new(),
            intent: Intent::Fyi,
            reply_to: None,
            expect_reply: false,
            waiting_until: None,
            idempotency_key: None,
        }
    }
}

impl Store {
    /// Renames session `session_id` to `name`. Another session carrying the
    /// name refuses the rename; renaming a session to its own name succeeds.
    /// `Ok(false)` when there is no such session. `force` changes nothing.
    pub fn rename_session(&mut self, session_id: &str, name: &str, force: bool) -> (r: Result<bool, String>)
        requires
            old(self).wf(),
        ensures
            final(self).wf(),
            final(self)@ == rename_spec(old(self)@, session_id@, name@).0,
            match rename_spec(old(self)@, session_id@, name@).1 {
                Ok(b) => r == Ok::<bool, String>(b),
                Err(e) => r matches Err(x) && x@ == e,
            },
    {
        let mut j: usize = 0;
        while j < self.records.len()
            invariant
                self.wf(),
                self@ == old(self)@,
                0 <= j <= self.records@.len(),
                forall|k: int| 0 <= k < j ==> !(self@.sessions[k].session.id != session_id@ && self@.sessions[k].session.name == Some(name@)),
            decreases self.records.len() - j,
        {
            assert(self@.sessions[j as int] == self.records@[j as int]@);
            let other = !str_eq(self.records[j].session.id.as_str(), session_id);
            let same_name = match &self.records[j].session.name {
                Some(n) => str_eq(n.as_str(), name),
                None => false,
            };
            if other && same_name {
                proof {
                    reveal_strlit("A session named '");
                    reveal_strlit("' already exists");
                }
                let mut msg = String::new();
                push_str(&mut msg, "A session named '");
                push_str(&mut msg, name);
                push_str(&mut msg, "' already exists");
                assert(msg@ =~= name_taken_message(name@));
                return Err(msg);
            }
            j += 1;
        }
        match self.find(session_id) {
            Some(i) => {
                let ghost st0 = self@;
                self.records[i].session.name = Some(name.to_string());
                assert(self@.sessions =~= with_session(st0, i as int, SessionView { name: Some(name@), ..st0.sessions[i as int].session }).sessions);
                Ok(true)
            },
            None => Ok(false),
        }
    }

    /// Closes session `session_id` at time `now`; `true` when an open session was closed.
    pub fn close_session_at(&mut self, session_id: &str, now: i64) -> (r: bool)
        requires
            old(self).wf(),
        ensures
            final(self).wf(),
            final(self)@ == close_spec(old(self)@, session_id@, now).0,
            r == close_spec(old(self)@, session_id@, now).1,
    {
        match self.find(session_id) {
            Some(i) => {
                if self.records[i].session.closed {
                    return false;
                }
                let ghost st0 = self@;
                self.records[i].session.closed = true;
                self.records[i].session.last_activity = now;
                assert(self@.sessions =~= with_session(st0, i as int, SessionView { closed: true, last_activity: now, ..st0.sessions[i as int].session }).sessions);
                true
            },
            None => false,
        }
    }

    /// Closes session `session_id` at the current time.
    pub fn close_session(&mut self, session_id: &str) -> (r: bool)
        requires
            old(self).wf(),
        ensures
            final(self).wf(),
            exists|now: i64| final(self)@ == close_spec(old(self)@, session_id@, now).0 && r == close_spec(old(self)@, session_id@, now).1,
    {
        let now = now_micros();
        self.close_session_at(session_id, now)
    }

    /// Reopens session `session_id` at time `now`; `true` when the session exists.
    pub fn reopen_session_at(&mut self, session_id: &str, now: i64) -> (r: bool)
        requires
            old(self).wf(),
        ensures
            final(self).wf(),
            final(self)@ == reopen_spec(old(self)@, session_id@, now).0,
            r == reopen_spec(old(self)@, session_id@, now).1,
    {
        match self.find(session_id) {
            Some(i) => {
                if !self.records[i].session.closed {
                    return true;
                }
                let ghost st0 = self@;
                self.records[i].session.closed = false;
                self.records[i].session.last_activity = now;
                assert(self@.sessions =~= with_session(st0, i as int, SessionView { closed: false, last_activity: now, ..st0.sessions[i as int].session }).sessions);
                true
            },
            None => false,
        }
    }

    /// Reopens session `session_id` at the current time.
    pub fn reopen_session(&mut self, session_id: &str) -> (r: bool)
        requires
            old(self).wf(),
        ensures
            final(self).wf(),
            exists|now: i64| final(self)@ == reopen_spec(old(self)@, session_id@, now).0 && r == reopen_spec(old(self)@, session_id@, now).1,
    {
        let now = now_micros();
        self.reopen_session_at(session_id, now)
    }

    /// Whether some session was active within `max_idle_secs` seconds of `now`.
    pub fn has_recent_activity_at(&self, max_idle_secs: u64, now: i64) -> (r: bool)
        ensures
            r == recent_spec(self@, max_idle_secs, now),
    {
        let mut i: usize = 0;
        while i < self.records.len()
            invariant
                0 <= i <= self.records@.len(),
                forall|j: int| 0 <= j < i ==> !(idle_seconds(self@.sessions[j].session.last_activity, now) <= max_idle_secs),
            decreases self.records.len() - i,
        {
            assert(self@.sessions[i as int] == self.records@[i as int]@);
            let e = elapsed_seconds(self.records[i].session.last_activity, now);
            let recent = if e >= 0 {
                (e as u64) <= max_idle_secs
            } else {
                (e as i128) + 0x1_0000_0000_0000_0000i128 <= (max_idle_secs as i128)
            };
            if recent {
                return true;
            }
            i += 1;
        }
        false
    }

    /// Whether some session was active within `max_idle_secs` seconds of now.
    pub fn has_recent_activity(&self, max_idle_secs: u64) -> (r: bool)
        ensures
            exists|now: i64| r == recent_spec(self@, max_idle_secs, now),
    {
        let now = now_micros();
        self.has_recent_activity_at(max_idle_secs, now)
    }

    /// Whether another wait can still be registered (its id would fit).
    pub fn has_wait_room(&self) -> (r: bool)
        ensures
            r == (self@.waits.next_id < u64::MAX),
    {
        self.wait_registry.has_room()
    }

    /// Registers a wait at time `now` (see `WaitRegistry::register_at`).
    pub fn register_wait_at(&mut self, scope: WaitScope, identity: String, timeout_secs: u64, now: i64) -> (r: (u64, Vec<WaitOverlap>))
        requires
            old(self).wf(),
            old(self)@.waits.next_id < u64::MAX,
        ensures
            final(self).wf(),
            r.0 == old(self)@.waits.next_id,
            final(self)@.waits.next_id == old(self)@.waits.next_id + 1,
            overlaps_view(r.1@) == overlaps_of(live(old(self)@.waits.waits, now), scope@, now),
            final(self)@.waits.waits == live(old(self)@.waits.waits, now).push(WaitView {
                id: old(self)@.waits.next_id,
                scope: scope@,
                identity: identity@,
                since: now,
                deadline: later_by(now, timeout_secs),
            }),
            final(self)@.sessions == old(self)@.sessions,
            final(self)@.reads == old(self)@.reads,
            final(self)@.dedup == old(self)@.dedup,
    {
        self.wait_registry.register_at(scope, identity, timeout_secs, now)
    }

    /// Registers a wait at the current time; returns its id and the waits it
    /// overlaps.
    pub fn register_wait(&mut self, scope: WaitScope, identity: String, timeout_secs: u64) -> (r: (u64, Vec<WaitOverlap>))
        requires
            old(self).wf(),
            old(self)@.waits.next_id < u64::MAX,
        ensures
            final(self).wf(),
            r.0 == old(self)@.waits.next_id,
            final(self)@.waits.next_id == old(self)@.waits.next_id + 1,
            exists|now: i64| {
                &&& overlaps_view(r.1@) == overlaps_of(live(old(self)@.waits.waits, now), scope@, now)
                &&& final(self)@.waits.waits == live(old(self)@.waits.waits, now).push(WaitView {
                    id: old(self)@.waits.next_id,
                    scope: scope@,
                    identity: identity@,
                    since: now,
                    deadline: later_by(now, timeout_secs),
                })
            },
            final(self)@.sessions == old(self)@.sessions,
            final(self)@.reads == old(self)@.reads,
            final(self)@.dedup == old(self)@.dedup,
    {
        let now = now_micros();
        self.register_wait_at(scope, identity, timeout_secs, now)
    }

    /// Drops expired waits and lists the active ones, as of `now`.
    pub fn list_active_waits_at(&mut self, now: i64) -> (r: Vec<ActiveWaitInfo>)
        requires
            old(self).wf(),
        ensures
            final(self).wf(),
            final(self)@.waits.waits == live(old(self)@.waits.waits, now),
            final(self)@.waits.next_id == old(self)@.waits.next_id,
            infos_view(r@) == live(old(self)@.waits.waits, now).map_values(|w: WaitView| info_of(w, now)),
            final(self)@.sessions == old(self)@.sessions,
            final(self)@.reads == old(self)@.reads,
            final(self)@.dedup == old(self)@.dedup,
    {
        self.wait_registry.list_at(now)
    }

    /// Drops expired waits and lists the active ones, as of now.
    pub fn list_active_waits(&mut self) -> (r: Vec<ActiveWaitInfo>)
        requires
            old(self).wf(),
        ensures
            final(self).wf(),
            exists|now: i64| {
                &&& final(self)@.waits.waits == live(old(self)@.waits.waits, now)
                &&& infos_view(r@) == live(old(self)@.waits.waits, now).map_values(|w: WaitView| info_of(w, now))
            },
            final(self)@.waits.next_id == old(self)@.waits.next_id,
            final(self)@.sessions == old(self)@.sessions,
            final(self)@.reads == old(self)@.reads,
            final(self)@.dedup == old(self)@.dedup,
    {
        let now = now_micros();
        self.list_active_waits_at(now)
    }

    /// Removes the wait with id `id` (a wait's guard does this when it ends).
    pub fn unregister_wait(&mut self, id: u64)
        requires
            old(self).wf(),
        ensures
            final(self).wf(),
            final(self)@.waits.waits == without(old(self)@.waits.waits, id),
            final(self)@.waits.next_id == old(self)@.waits.next_id,
            final(self)@.sessions == old(self)@.sessions,
            final(self)@.reads == old(self)@.reads,
            final(self)@.dedup == old(self)@.dedup,
    {
        self.wait_registry.unregister(id)
    }

    /// Derives the answered and the closed request ids of a transcript
    /// (see `answers::derive_answered`).
    pub fn derive_answered(messages: &[Message]) -> (r: (std::collections::HashSet<u64>, std::collections::HashSet<u64>))
        ensures
            r.0@ == answer_state(messages_view(messages@)).answered,
            r.1@ == answer_state(messages_view(messages@)).closed,
    {
        crate::answers::derive_answered(messages)
    }

    /// Whether `candidate` answers `target` in session `session_id`: the
    /// target becomes answered only once the candidate is taken into account.
    pub fn message_answers(&self, session_id: &str, candidate: &Message, target: u64) -> (r: bool)
        requires
            self.wf(),
        ensures
            r == answers_spec(after(transcript(self@, session_id@), 0), candidate@.id, target),
    {
        let msgs = self.get_messages_since(session_id, 0);
        message_answers_in(&msgs, candidate.id, target)
    }

    /// Every open obligation across the open sessions at time `now`:
    /// unanswered requests and messages sent expecting a reply.
    pub fn pending_obligations_at(&self, now: i64) -> (r: Vec<PendingObligation>)
        ensures
            pendings_view(r@) == pending_spec(self@.sessions, now),
    {
        let mut out: Vec<PendingObligation> = Vec::new();
        let ghost sv = self@.sessions;
        let mut i: usize = 0;
        assert(sv.take(0) =~= Seq::<RecordView>::empty());
        assert(pendings_view(out@) =~= Seq::<PendingView>::empty());
        while i < self.records.len()
            invariant
                sv == self@.sessions,
                0 <= i <= self.records@.len(),
                pendings_view(out@) == pending_spec(sv.take(i as int), now),
            decreases self.records.len() - i,
        {
            assert(sv.take(i + 1).drop_last() =~= sv.take(i as int));
            assert(sv.take(i + 1).last() == self.records@[i as int]@);
            let rec = &self.records[i];
            let ghost before = out@;
            if rec.session.closed {
                assert(pendings_view(out@) =~= pendings_view(before) + session_pending(rec@, now));
            } else {
                let (answered, closed) = crate::answers::derive_answered(rec.messages.as_slice());
                let ghost mv = messages_view(rec.messages@);
                let ghost sess = rec@.session;
                let mut k: usize = 0;
                assert(mv.take(0).filter(|m: MessageView| is_obligation(answer_state(mv), m)) =~= Seq::<MessageView>::empty());
                assert(pendings_view(out@) =~= pendings_view(before) + obligations(mv.take(0), answer_state(mv), sess, now));
                while k < rec.messages.len()
                    invariant
                        0 <= k <= rec.messages@.len(),
                        mv == messages_view(rec.messages@),
                        sess == rec@.session,
                        answered@ == answer_state(mv).answered,
                        closed@ == answer_state(mv).closed,
                        pendings_view(out@) == pendings_view(before) + obligations(mv.take(k as int), answer_state(mv), sess, now),
                    decreases rec.messages.len() - k,
                {
                    proof {
                        lemma_obligations_step(mv, answer_state(mv), sess, now, k as int);
                    }
                    let m = &rec.messages[k];
                    assert(mv[k as int] == m@);
                    let owed = match m.intent {
                        Intent::Req => !answered.contains(&m.id) && !closed.contains(&m.id),
                        Intent::Reply | Intent::Fyi => m.expect_reply && !answered.contains(&m.id),
                        Intent::Out => false,
                    };
                    assert(owed == is_obligation(answer_state(mv), m@));
                    if owed {
                        let p = PendingObligation {
                            session_id: rec.session.id.clone(),
                            session_name: copy_opt_string(&rec.session.name),
                            message_id: m.id,
                            sender: m.sender.clone(),
                            content: m.snippet(),
                            content_full: m.first_text_content(),
                            elapsed_seconds: elapsed_seconds(m.timestamp, now),
                            intent: m.intent,
                            waiting_until: m.waiting_until,
                        };
                        let ghost prev = out@;
                        out.push(p);
                        assert(pendings_view(out@) =~= pendings_view(prev).push(pending_of(sess, m@, now)));
                        assert(pendings_view(out@) =~= pendings_view(before) + obligations(mv.take(k + 1), answer_state(mv), sess, now));
                    }
                    k += 1;
                }
                assert(mv.take(mv.len() as int) =~= mv);
                assert(pendings_view(out@) =~= pendings_view(before) + session_pending(rec@, now));
            }
            assert(pendings_view(out@) =~= pending_spec(sv.take(i + 1), now));
            i += 1;
        }
        assert(sv.take(sv.len() as int) =~= sv);
        out
    }

    /// Every open obligation across the open sessions, as of now.
    pub fn pending_obligations(&self) -> (r: Vec<PendingObligation>)
        ensures
            exists|now: i64| pendings_view(r@) == pending_spec(self@.sessions, now),
    {
        let now = now_micros();
        self.pending_obligations_at(now)
    }
}

/// The state once a new session record `fresh_record(id, name, now)` has
/// been added.
pub open spec fn with_fresh(st: StoreView, id: Seq<char>, name: Option<Seq<char>>, now: i64) -> StoreView {
    StoreView { sessions: st.sessions.push(fresh_record(id, name, now)), ..st }
}

/// Creating session `id` (named `name`) at `now`, with an optional first
/// message (sender, content): the session is added, then the message.
pub open spec fn create_spec(st: StoreView, id: Seq<char>, name: Option<Seq<char>>, initial: Option<(Seq<char>, Seq<char>)>, now: i64) -> StoreView {
    match initial {
        None => with_fresh(st, id, name, now),
        Some((sender, content)) => add_spec(with_fresh(st, id, name, now), id, text_params(sender, content), now).0,
    }
}

/// The characters of an optional pair of strings.
pub open spec fn pair_view(p: Option<(String, String)>) -> Option<(Seq<char>, Seq<char>)> {
    match p {
        Some((a, b)) => Some((a@, b@)),
        None => None,
    }
}

impl Store {
    /// Creates session `id` at time `now`, optionally named and with a first
    /// message, which then gets id 1.
    pub fn create_session_with_id_at(&mut self, id: String, initial_message: Option<(String, String)>, name: Option<String>, now: i64) -> (r: (String, Option<u64>))
        requires
            old(self).wf(),
            session_index(old(self)@.sessions, id@) is None,
        ensures
            final(self).wf(),
            r.0@ == id@,
            final(self)@ == create_spec(old(self)@, id@, opt_view(name), pair_view(initial_message), now),
            r.1 == (if initial_message is Some { Some(1u64) } else { None::<u64> }),
    {
        let ghost st0 = self@;
        let session = Session {
            id: id.clone(),
            name,
            created_at: now,
            last_activity: now,
            closed: false,
        };
        let ghost sv = session@;
        self.records.push(SessionRecord { session, messages: Vec::new(), next_msg_id: 1 });
        proof {
            let k = st0.sessions.len() as int;
            assert(self@.sessions[k].messages =~= Seq::<MessageView>::empty());
            assert(self@.sessions =~= st0.sessions.push(fresh_record(id@, sv.name, now)));
            assert(self@ == with_fresh(st0, id@, sv.name, now));
            assert(self@.sessions[k].session.id == id@);
            assert forall|a: int, b: int| 0 <= a < self@.sessions.len() && 0 <= b < self@.sessions.len()
                && self@.sessions[a].session.id == self@.sessions[b].session.id implies a == b by {
                if a < k && b < k {
                    assert(self@.sessions[a] == st0.sessions[a]);
                    assert(self@.sessions[b] == st0.sessions[b]);
                } else if a < k {
                    assert(self@.sessions[a] == st0.sessions[a]);
                } else if b < k {
                    assert(self@.sessions[b] == st0.sessions[b]);
                }
            }
            let c = choose|c: int| 0 <= c < self@.sessions.len() && self@.sessions[c].session.id == id@;
            assert(c == k);
            assert(session_index(self@.sessions, id@) == Some(k));
        }
        match initial_message {
            Some((sender, content)) => {
                let first = self.add_message_at(id.as_str(), sender.as_str(), content.as_str(), now);
                let first_id = match first {
                    Some(m) => m.id,
                    None => 0,
                };
                (id, Some(first_id))
            },
            None => (id, None),
        }
    }

    /// The first numbered session id (see `numbered_id`) that no session
    /// has; with fewer sessions than ids, one of the first ones is free.
    fn unused_id(&self) -> (r: String)
        requires
            self.wf(),
            self@.sessions.len() < ID_SPACE,
        ensures
            session_index(self@.sessions, r@) is None,
            session_id_form(r@),
    {
        let n = self.records.len();
        let mut k: usize = 0;
        while k <= n
            invariant
                self.wf(),
                n == self@.sessions.len(),
                n < ID_SPACE,
                0 <= k <= n + 1,
                forall|j: int| 0 <= j < k ==> session_index(self@.sessions, #[trigger] numbered_id(j)) is Some,
            decreases n + 1 - k,
        {
            let c = numbered_session_id(k as u32);
            if self.find(c.as_str()).is_none() {
                proof {
                    lemma_numbered_id(k as int, k as int);
                }
                return c;
            }
            k += 1;
        }
        proof {
            let ids = self@.sessions.map_values(|x: RecordView| x.session.id);
            assert forall|j: int| 0 <= j < n + 1 implies ids.contains(#[trigger] numbered_id(j)) by {
                let i = session_index(self@.sessions, numbered_id(j))->Some_0;
                assert(ids[i] == numbered_id(j));
            }
            lemma_numbered_ids_fill(ids, n + 1);
        }
        String::new()
    }

    /// Whether another session can still get an id of its own: there are
    /// fewer sessions than session ids.
    pub fn has_session_room(&self) -> (r: bool)
        ensures
            r == (self@.sessions.len() < ID_SPACE),
    {
        self.records.len() < ID_SPACE as usize
    }

    /// Creates a session with a fresh random id at the current time,
    /// optionally named and with a first message (which gets id 1). The
    /// answer is the new id and the first message's id. While random draws
    /// collide with existing ids (64 of them), the first free numbered id
    /// is taken instead; there must be fewer sessions than ids.
    pub fn create_session(&mut self, initial_message: Option<(String, String)>, name: Option<String>) -> (r: (String, Option<u64>))
        requires
            old(self).wf(),
            old(self)@.sessions.len() < ID_SPACE,
        ensures
            final(self).wf(),
            session_index(old(self)@.sessions, r.0@) is None,
            r.0@.take(5) == "sess_"@,
            session_id_form(r.0@),
            exists|now: i64| final(self)@ == create_spec(old(self)@, r.0@, opt_view(name), pair_view(initial_message), now),
            r.1 == (if initial_message is Some { Some(1u64) } else { None::<u64> }),
    {
        let mut attempts: usize = 0;
        let mut chosen: Option<String> = None;
        while attempts < 64 && chosen.is_none()
            invariant
                self.wf(),
                attempts <= 64,
                self@.sessions.len() < ID_SPACE,
                chosen matches Some(c) ==> session_index(self@.sessions, c@) is None && session_id_form(c@),
            decreases 64 - attempts,
        {
            let candidate = generate_session_id();
            if self.find(candidate.as_str()).is_none() {
                chosen = Some(candidate);
            }
            attempts += 1;
        }
        let id = match chosen {
            Some(c) => c,
            None => self.unused_id(),
        };
        let now = now_micros();
        self.create_session_with_id_at(id, initial_message, name, now)
    }
}

/// The loaded sessions that the store does not have yet, each id once
/// (the first occurrence wins).
pub open spec fn added_sessions(recs: Seq<RecordView>, ls: Seq<SessionView>) -> Seq<SessionView>
    decreases ls.len(),
{
    if ls.len() == 0 {
        Seq::empty()
    } else {
        let prev = added_sessions(recs, ls.drop_last());
        let id = ls.last().id;
        if (exists|i: int| 0 <= i < recs.len() && recs[i].session.id == id)
            || (exists|j: int| 0 <= j < prev.len() && prev[j].id == id) {
            prev
        } else {
            prev.push(ls.last())
        }
    }
}

/// The stored next id for `id` (the last entry wins).
pub open spec fn stored_next(ln: Seq<(Seq<char>, u64)>, id: Seq<char>) -> Option<u64>
    decreases ln.len(),
{
    if ln.len() == 0 {
        None
    } else if ln.last().0 == id {
        Some(ln.last().1)
    } else {
        stored_next(ln.drop_last(), id)
    }
}

/// The stored transcript for `id` (the first entry wins).
pub open spec fn first_list(lm: Seq<(Seq<char>, Seq<MessageView>)>, id: Seq<char>) -> Option<Seq<MessageView>>
    decreases lm.len(),
{
    if lm.len() == 0 {
        None
    } else if lm[0].0 == id {
        Some(lm[0].1)
    } else {
        first_list(lm.drop_first(), id)
    }
}

/// The largest id in a transcript (0 when empty).
pub open spec fn max_id(l: Seq<MessageView>) -> u64
    decreases l.len(),
{
    if l.len() == 0 {
        0
    } else {
        let m = max_id(l.drop_last());
        if l.last().id > m { l.last().id } else { m }
    }
}

/// A session the store already had, after loading: stored next ids are
/// authoritative, and a stored transcript fills an empty one.
pub open spec fn loaded_old(r: RecordView, lm: Seq<(Seq<char>, Seq<MessageView>)>, ln: Seq<(Seq<char>, u64)>) -> RecordView {
    RecordView {
        session: r.session,
        messages: if r.messages.len() == 0 && first_list(lm, r.session.id) is Some {
            first_list(lm, r.session.id)->Some_0
        } else {
            r.messages
        },
        next_msg_id: match stored_next(ln, r.session.id) {
            Some(n) => n,
            None => r.next_msg_id,
        },
    }
}

/// A loaded session the store did not have: its stored transcript, and its
/// stored next id, or one past its largest message id, or 1.
pub open spec fn loaded_new(s: SessionView, lm: Seq<(Seq<char>, Seq<MessageView>)>, ln: Seq<(Seq<char>, u64)>) -> RecordView {
    RecordView {
        session: s,
        messages: match first_list(lm, s.id) {
            Some(l) => l,
            None => Seq::empty(),
        },
        next_msg_id: match stored_next(ln, s.id) {
            Some(n) => n,
            None => match first_list(lm, s.id) {
                Some(l) => (max_id(l) + 1) as u64,
                None => 1,
            },
        },
    }
}

/// The index with `e` put in (replacing the entry for the same sender and key).
pub open spec fn upsert(d: Seq<DedupView>, e: DedupView) -> Seq<DedupView> {
    match dedup_index(d, e.sender, e.key) {
        Some(j) => d.update(j, e),
        None => d.push(e),
    }
}

/// The index with every keyed message of `msgs` (of session `sid`) put in, in order.
pub open spec fn index_messages(d: Seq<DedupView>, sid: Seq<char>, msgs: Seq<MessageView>) -> Seq<DedupView>
    decreases msgs.len(),
{
    if msgs.len() == 0 {
        d
    } else {
        let d1 = index_messages(d, sid, msgs.drop_last());
        let m = msgs.last();
        match m.idempotency_key {
            Some(k) => upsert(d1, DedupView { sender: m.sender, key: k, session_id: sid, message_id: m.id }),
            None => d1,
        }
    }
}

/// The index with every keyed message of every session put in.
pub open spec fn index_all(d: Seq<DedupView>, recs: Seq<RecordView>) -> Seq<DedupView>
    decreases recs.len(),
{
    if recs.len() == 0 {
        d
    } else {
        index_messages(index_all(d, recs.drop_last()), recs.last().session.id, recs.last().messages)
    }
}

/// The sessions after loading persisted state.
pub open spec fn loaded_sessions(st: StoreView, ls: Seq<SessionView>, lm: Seq<(Seq<char>, Seq<MessageView>)>, ln: Seq<(Seq<char>, u64)>) -> Seq<RecordView> {
    st.sessions.map_values(|r: RecordView| loaded_old(r, lm, ln))
        + added_sessions(st.sessions, ls).map_values(|s: SessionView| loaded_new(s, lm, ln))
}

/// The views of loaded sessions, transcripts and next ids.
pub open spec fn sessions_in(v: Seq<Session>) -> Seq<SessionView> {
    Seq::new(v.len(), |i: int| v[i]@)
}

pub open spec fn lists_in(v: Seq<(String, Vec<Message>)>) -> Seq<(Seq<char>, Seq<MessageView>)> {
    Seq::new(v.len(), |i: int| (v[i].0@, messages_view(v[i].1@)))
}

pub open spec fn nexts_in(v: Seq<(String, u64)>) -> Seq<(Seq<char>, u64)> {
    Seq::new(v.len(), |i: int| (v[i].0@, v[i].1))
}

pub(crate) proof fn lemma_upsert_unique(d: Seq<DedupView>, e: DedupView)
    requires
        unique_keys(d),
    ensures
        unique_keys(upsert(d, e)),
{
    match dedup_index(d, e.sender, e.key) {
        Some(j) => {
            let d2 = d.update(j, e);
            assert forall|a: int, b: int| 0 <= a < d2.len() && 0 <= b < d2.len() && d2[a].sender == d2[b].sender
                && d2[a].key == d2[b].key implies a == b by {
                if a != j && b != j {
                } else if a == j && b != j {
                    assert(d[b].sender == e.sender && d[b].key == e.key);
                } else if b == j && a != j {
                    assert(d[a].sender == e.sender && d[a].key == e.key);
                }
            }
        },
        None => {
            let d2 = d.push(e);
            let n = d.len() as int;
            assert forall|a: int, b: int| 0 <= a < d2.len() && 0 <= b < d2.len() && d2[a].sender == d2[b].sender
                && d2[a].key == d2[b].key implies a == b by {
                if a < n && b < n {
                    assert(d2[a] == d[a] && d2[b] == d[b]);
                } else if a < n {
                    assert(d2[a] == d[a]);
                } else if b < n {
                    assert(d2[b] == d[b]);
                }
            }
        },
    }
}

impl Store {
    /// Puts `e` into the index, replacing the entry for its sender and key.
    fn upsert_dedup(&mut self, e: DedupEntry)
        requires
            old(self).wf(),
        ensures
            final(self).wf(),
            final(self)@ == (StoreView { dedup: upsert(old(self)@.dedup, e@), ..old(self)@ }),
    {
        let ghost st0 = self@;
        proof {
            lemma_upsert_unique(st0.dedup, e@);
        }
        match self.find_dedup(e.sender.as_str(), e.key.as_str()) {
            Some(j) => {
                let ghost ev = e@;
                self.dedup.set(j, e);
                assert(self@.dedup =~= st0.dedup.update(j as int, ev));
            },
            None => {
                let ghost ev = e@;
                self.dedup.push(e);
                assert(self@.dedup =~= st0.dedup.push(ev));
            },
        }
    }
}

fn stored_next_exec(ln: &Vec<(String, u64)>, id: &str) -> (r: Option<u64>)
    ensures
        r == stored_next(nexts_in(ln@), id@),
{
    let ghost nv = nexts_in(ln@);
    let mut found: Option<u64> = None;
    let mut i: usize = 0;
    assert(nv.take(0) =~= Seq::<(Seq<char>, u64)>::empty());
    while i < ln.len()
        invariant
            nv == nexts_in(ln@),
            0 <= i <= ln@.len(),
            found == stored_next(nv.take(i as int), id@),
        decreases ln.len() - i,
    {
        assert(nv.take(i + 1).drop_last() =~= nv.take(i as int));
        assert(nv.take(i + 1).last() == (ln@[i as int].0@, ln@[i as int].1));
        if str_eq(ln[i].0.as_str(), id) {
            found = Some(ln[i].1);
        }
        i += 1;
    }
    assert(nv.take(nv.len() as int) =~= nv);
    found
}

fn first_list_exec(lm: &Vec<(String, Vec<Message>)>, id: &str) -> (r: Option<usize>)
    ensures
        match r {
            Some(j) => j < lm@.len() && first_list(lists_in(lm@), id@) == Some(messages_view(lm@[j as int].1@)),
            None => first_list(lists_in(lm@), id@) is None,
        },
{
    let ghost lv = lists_in(lm@);
    let mut i: usize = 0;
    assert(lv.skip(0) =~= lv);
    while i < lm.len()
        invariant
            lv == lists_in(lm@),
            0 <= i <= lm@.len(),
            first_list(lv, id@) == first_list(lv.skip(i as int), id@),
        decreases lm.len() - i,
    {
        assert(lv.skip(i as int)[0] == (lm@[i as int].0@, messages_view(lm@[i as int].1@)));
        if str_eq(lm[i].0.as_str(), id) {
            return Some(i);
        }
        assert(lv.skip(i as int).drop_first() =~= lv.skip(i + 1));
        i += 1;
    }
    None
}

fn max_id_exec(l: &Vec<Message>) -> (r: u64)
    ensures
        r == max_id(messages_view(l@)),
{
    let ghost mv = messages_view(l@);
    let mut m: u64 = 0;
    let mut i: usize = 0;
    assert(mv.take(0) =~= Seq::<MessageView>::empty());
    while i < l.len()
        invariant
            mv == messages_view(l@),
            0 <= i <= l@.len(),
            m == max_id(mv.take(i as int)),
        decreases l.len() - i,
    {
        assert(mv.take(i + 1).drop_last() =~= mv.take(i as int));
        assert(mv.take(i + 1).last() == l@[i as int]@);
        if l[i].id > m {
            m = l[i].id;
        }
        i += 1;
    }
    assert(mv.take(mv.len() as int) =~= mv);
    m
}

proof fn lemma_max_id_bound(l: Seq<MessageView>)
    requires
        forall|k: int| 0 <= k < l.len() ==> #[trigger] l[k].id < u64::MAX,
    ensures
        max_id(l) < u64::MAX,
    decreases l.len(),
{
    if l.len() > 0 {
        lemma_max_id_bound(l.drop_last());
        assert(l.last() == l[l.len() - 1]);
    }
}

proof fn lemma_added_fresh(recs: Seq<RecordView>, ls: Seq<SessionView>)
    ensures
        forall|j: int| 0 <= j < added_sessions(recs, ls).len() ==>
            !(exists|i: int| 0 <= i < recs.len() && recs[i].session.id == #[trigger] added_sessions(recs, ls)[j].id),
        forall|a: int, b: int| 0 <= a < added_sessions(recs, ls).len() && 0 <= b < added_sessions(recs, ls).len()
            && added_sessions(recs, ls)[a].id == added_sessions(recs, ls)[b].id ==> a == b,
    decreases ls.len(),
{
    if ls.len() > 0 {
        lemma_added_fresh(recs, ls.drop_last());
    }
}

impl Store {
    /// Merges persisted state into the store: sessions it does not have yet
    /// are added; stored next ids are authoritative; a stored transcript
    /// fills a session without messages; a new session without a stored next
    /// id continues after its largest message id (or starts at 1); and the
    /// idempotency index is rebuilt from every keyed message, so duplicate
    /// detection survives a restart.
    pub fn load_persisted(&mut self, sessions: Vec<Session>, messages: Vec<(String, Vec<Message>)>, next_ids: Vec<(String, u64)>)
        requires
            old(self).wf(),
            forall|j: int, k: int| 0 <= j < messages@.len() && 0 <= k < messages@[j].1@.len()
                ==> #[trigger] messages@[j].1@[k].id < u64::MAX,
        ensures
            final(self).wf(),
            final(self)@.sessions == loaded_sessions(old(self)@, sessions_in(sessions@), lists_in(messages@), nexts_in(next_ids@)),
            final(self)@.dedup == index_all(old(self)@.dedup, final(self)@.sessions),
            final(self)@.reads == old(self)@.reads,
            final(self)@.waits == old(self)@.waits,
    {
        let ghost st0 = self@;
        let ghost ls = sessions_in(sessions@);
        let ghost lm = lists_in(messages@);
        let ghost ln = nexts_in(next_ids@);
        // The sessions to add.
        let mut added: Vec<Session> = Vec::new();
        let mut i: usize = 0;
        assert(ls.take(0) =~= Seq::<SessionView>::empty());
        assert(sessions_in(added@) =~= Seq::<SessionView>::empty());
        while i < sessions.len()
            invariant
                self@ == st0,
                self.wf(),
                ls == sessions_in(sessions@),
                0 <= i <= sessions@.len(),
                sessions_in(added@) == added_sessions(st0.sessions, ls.take(i as int)),
            decreases sessions.len() - i,
        {
            assert(ls.take(i + 1).drop_last() =~= ls.take(i as int));
            assert(ls.take(i + 1).last() == sessions@[i as int]@);
            let id = sessions[i].id.as_str();
            let present = self.find(id).is_some();
            let mut seen = false;
            let mut k: usize = 0;
            while k < added.len()
                invariant
                    0 <= k <= added@.len(),
                    seen == exists|j: int| 0 <= j < k && added@[j].id@ == id@,
                decreases added.len() - k,
            {
                if str_eq(added[k].id.as_str(), id) {
                    seen = true;
                }
                k += 1;
            }
            proof {
                let prev = added_sessions(st0.sessions, ls.take(i as int));
                assert(seen == exists|j: int| 0 <= j < prev.len() && prev[j].id == id@) by {
                    if seen {
                        let j = choose|j: int| 0 <= j < k && added@[j].id@ == id@;
                        assert(prev[j] == added@[j]@);
                    }
                    if exists|j: int| 0 <= j < prev.len() && prev[j].id == id@ {
                        let j = choose|j: int| 0 <= j < prev.len() && prev[j].id == id@;
                        assert(prev[j] == added@[j]@);
                    }
                }
            }
            if !present && !seen {
                let ghost before = added@;
                added.push(sessions[i].copy());
                assert(sessions_in(added@) =~= sessions_in(before).push(sessions@[i as int]@));
            }
            i += 1;
        }
        assert(ls.take(ls.len() as int) =~= ls);
        let ghost adds = added_sessions(st0.sessions, ls);
        proof {
            lemma_added_fresh(st0.sessions, ls);
        }
        // Existing sessions.
        let n_old = self.records.len();
        let mut i: usize = 0;
        while i < n_old
            invariant
                n_old == st0.sessions.len(),
                self@.sessions.len() == n_old,
                0 <= i <= n_old,
                lm == lists_in(messages@),
                ln == nexts_in(next_ids@),
                forall|j: int| 0 <= j < i ==> #[trigger] self@.sessions[j] == loaded_old(st0.sessions[j], lm, ln),
                forall|j: int| i <= j < n_old ==> #[trigger] self@.sessions[j] == st0.sessions[j],
                self@.reads == st0.reads,
                self@.dedup == st0.dedup,
                self@.waits == st0.waits,
            decreases n_old - i,
        {
            assert(self@.sessions[i as int] == self.records@[i as int]@);
            let ghost before = self@.sessions;
            let id = self.records[i].session.id.clone();
            if self.records[i].messages.len() == 0 {
                match first_list_exec(&messages, id.as_str()) {
                    Some(j) => {
                        self.records[i].messages = crate::models::copy_messages(&messages[j].1);
                        assert(lm[j as int] == (messages@[j as int].0@, messages_view(messages@[j as int].1@)));
                    },
                    None => {},
                }
            }
            match stored_next_exec(&next_ids, id.as_str()) {
                Some(n) => {
                    self.records[i].next_msg_id = n;
                },
                None => {},
            }
            assert(self@.sessions[i as int] == loaded_old(st0.sessions[i as int], lm, ln));
            assert forall|j: int| 0 <= j < n_old && j != i implies #[trigger] self@.sessions[j] == before[j] by {
                assert(self.records@[j] == old(self).records@[j] || true);
            }
            i += 1;
        }
        // New sessions.
        let mut a: usize = 0;
        while a < added.len()
            invariant
                n_old == st0.sessions.len(),
                sessions_in(added@) == adds,
                0 <= a <= added@.len(),
                lm == lists_in(messages@),
                ln == nexts_in(next_ids@),
                forall|j: int, k: int| 0 <= j < messages@.len() && 0 <= k < messages@[j].1@.len()
                    ==> #[trigger] messages@[j].1@[k].id < u64::MAX,
                self@.sessions.len() == n_old + a,
                forall|j: int| 0 <= j < n_old ==> #[trigger] self@.sessions[j] == loaded_old(st0.sessions[j], lm, ln),
                forall|j: int| 0 <= j < a ==> #[trigger] self@.sessions[n_old + j] == loaded_new(adds[j], lm, ln),
                self@.reads == st0.reads,
                self@.dedup == st0.dedup,
                self@.waits == st0.waits,
            decreases added.len() - a,
        {
            let s = added[a].copy();
            assert(s@ == adds[a as int]);
            let (msgs, fallback) = match first_list_exec(&messages, s.id.as_str()) {
                Some(j) => {
                    let l = crate::models::copy_messages(&messages[j].1);
                    proof {
                        lemma_max_id_bound(messages_view(messages@[j as int].1@));
                    }
                    let mx = max_id_exec(&messages[j].1);
                    (l, mx + 1)
                },
                None => (Vec::new(), 1),
            };
            let next = match stored_next_exec(&next_ids, s.id.as_str()) {
                Some(n) => n,
                None => fallback,
            };
            let ghost before = self@.sessions;
            self.records.push(SessionRecord { session: s, messages: msgs, next_msg_id: next });
            assert(self@.sessions[n_old + a] == loaded_new(adds[a as int], lm, ln)) by {
                assert(self@.sessions[n_old + a] == self.records@[n_old + a]@);
                if first_list(lm, adds[a as int].id) is None {
                    assert(messages_view(self.records@[n_old + a].messages@) =~= Seq::<MessageView>::empty());
                }
            }
            assert forall|j: int| 0 <= j < n_old + a implies #[trigger] self@.sessions[j] == before[j] by {
                assert(self@.sessions[j] == self.records@[j]@);
            }
            a += 1;
        }
        proof {
            let want = loaded_sessions(st0, ls, lm, ln);
            assert(adds.len() == added@.len());
            assert(want.len() == self@.sessions.len());
            assert forall|j: int| 0 <= j < want.len() implies want[j] == self@.sessions[j] by {
                if j < n_old {
                    assert(want[j] == loaded_old(st0.sessions[j], lm, ln));
                } else {
                    assert(want[j] == loaded_new(adds[j - n_old], lm, ln));
                    assert(self@.sessions[n_old + (j - n_old)] == loaded_new(adds[j - n_old], lm, ln));
                }
            }
            assert(self@.sessions =~= want);
        }
        proof {
            assert forall|x: int, y: int| 0 <= x < self@.sessions.len() && 0 <= y < self@.sessions.len()
                && self@.sessions[x].session.id == self@.sessions[y].session.id implies x == y by {
                if x < n_old && y < n_old {
                    assert(self@.sessions[x].session.id == st0.sessions[x].session.id);
                    assert(self@.sessions[y].session.id == st0.sessions[y].session.id);
                } else if x >= n_old && y >= n_old {
                    assert(self@.sessions[x].session.id == adds[x - n_old].id);
                    assert(self@.sessions[y].session.id == adds[y - n_old].id);
                } else if x < n_old {
                    assert(self@.sessions[x].session.id == st0.sessions[x].session.id);
                    assert(self@.sessions[y].session.id == adds[y - n_old].id);
                } else {
                    assert(self@.sessions[y].session.id == st0.sessions[y].session.id);
                    assert(self@.sessions[x].session.id == adds[x - n_old].id);
                }
            }
        }
        // The idempotency index.
        let ghost recs = self@.sessions;
        let mut r: usize = 0;
        assert(recs.take(0) =~= Seq::<RecordView>::empty());
        while r < self.records.len()
            invariant
                self.wf(),
                self@.sessions == recs,
                0 <= r <= recs.len(),
                self@.dedup == index_all(st0.dedup, recs.take(r as int)),
                self@.reads == st0.reads,
                self@.waits == st0.waits,
            decreases self.records.len() - r,
        {
            assert(recs.take(r + 1).drop_last() =~= recs.take(r as int));
            assert(recs.take(r + 1).last() == self.records@[r as int]@);
            let ghost d0 = self@.dedup;
            let ghost mv = recs[r as int].messages;
            let mut k: usize = 0;
            assert(mv.take(0) =~= Seq::<MessageView>::empty());
            while k < self.records[r].messages.len()
                invariant
                    self.wf(),
                    self@.sessions == recs,
                    0 <= r < recs.len(),
                    mv == recs[r as int].messages,
                    mv == messages_view(self.records@[r as int].messages@),
                    0 <= k <= mv.len(),
                    self@.dedup == index_messages(d0, recs[r as int].session.id, mv.take(k as int)),
                    self@.reads == st0.reads,
                    self@.waits == st0.waits,
                decreases mv.len() - k,
            {
                assert(mv.take(k + 1).drop_last() =~= mv.take(k as int));
                assert(mv.take(k + 1).last() == self.records@[r as int].messages@[k as int]@);
                let entry = match &self.records[r].messages[k].idempotency_key {
                    Some(key) => Some(DedupEntry {
                        sender: self.records[r].messages[k].sender.clone(),
                        key: key.clone(),
                        session_id: self.records[r].session.id.clone(),
                        message_id: self.records[r].messages[k].id,
                    }),
                    None => None,
                };
                match entry {
                    Some(e) => {
                        self.upsert_dedup(e);
                    },
                    None => {},
                }
                k += 1;
            }
            assert(mv.take(mv.len() as int) =~= mv);
            r += 1;
        }
        assert(recs.take(recs.len() as int) =~= recs);
    }
}
} // verus!
