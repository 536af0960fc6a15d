//! The daemon's request rules: what each HTTP endpoint does to the store
//! and what it answers (a status code and a body, or an error). The
//! waiting endpoints are split into their decisions; the daemon runs the
//! waiting loop around them.

use vstd::prelude::*;
use crate::models::{
    CloseSessionResponse, CreateSessionRequest, CreateSessionResponse, Intent, Message,
    MessageView, Part, PartView, RecapQuery, RecapResponse, RenameSessionRequest,
    SendMessageRequest, SendMessageResponse, Session, SessionView, WaitOverlap, WaitResponse,
    join, messages_view, parts_view, texts, copy_messages, copy_parts,
};
use crate::store::{
    AddMessageParams, AddMessageResult, AddOutcome, ParamsView, Store, StoreView, add_spec,
    after, after_from, close_spec, create_spec, last_n, name_taken_message, opt_str_view,
    read_spec, rename_spec, reopen_spec, session_index, transcript,
};
use crate::text::{blank, copy_opt_string, decimal, is_blank, opt_view, push_decimal, push_str};
use crate::clock::{add_seconds, later_by, now_micros};

verus! {

broadcast use vstd::string::group_string_axioms;

/// An error answer: an HTTP status and its message.
#[derive(Debug, Clone)]
pub struct ApiError {
    pub status: u16,
    pub error: String,
}

/// `session '<id>' not found`.
pub open spec fn not_found_message(id: Seq<char>) -> Seq<char> {
    "session '"@ + id + "' not found"@
}

/// `session '<id>' is already closed`.
pub open spec fn already_closed_message(id: Seq<char>) -> Seq<char> {
    "session '"@ + id + "' is already closed"@
}

fn quoted_session_message(id: &str, tail: &str) -> (r: String)
    ensures
        r@ == "session '"@ + id@ + tail@,
{
    proof {
        reveal_strlit("session '");
    }
    let mut s = String::new();
    push_str(&mut s, "session '");
    push_str(&mut s, id);
    push_str(&mut s, tail);
    assert(s@ =~= "session '"@ + id@ + tail@);
    s
}

/// The 404 answer for an unknown session.
pub(crate) fn not_found(id: &str) -> (r: ApiError)
    ensures
        r.status == 404,
        r.error@ == not_found_message(id@),
{
    ApiError { status: 404, error: quoted_session_message(id, "' not found") }
}

/// A copy of the store's view with reads, index and waits as they were.
pub open spec fn same_but_sessions(a: StoreView, b: StoreView) -> bool {
    a.reads == b.reads && a.dedup == b.dedup && a.waits == b.waits
}

/// The first message a creation request carries: its text, from its sender
/// or `unknown`.
pub open spec fn initial_of(req: CreateSessionRequest) -> Option<(Seq<char>, Seq<char>)> {
    match req.message {
        Some(m) => Some((match req.sender { Some(s) => s@, None => "unknown"@ }, m@)),
        None => None,
    }
}

/// Creates a session (`POST /api/sessions`). A name that a session already
/// carries is refused with 409 and nothing changes; otherwise the session is
/// created (with the request's message, from its sender or `unknown`) and
/// the answer is 201 with the new id and the first message's id. There must
/// be fewer sessions than session ids.
pub fn create_session_request(store: &mut Store, req: CreateSessionRequest) -> (r: Result<CreateSessionResponse, ApiError>)
    requires
        old(store).wf(),
        old(store)@.sessions.len() < crate::session_ids::ID_SPACE,
    ensures
        final(store).wf(),
        match r {
            Err(e) => {
                &&& req.name matches Some(n) && exists|i: int| 0 <= i < old(store)@.sessions.len()
                    && old(store)@.sessions[i].session.name == Some(n@)
                &&& e.status == 409
                &&& e.error@ == name_taken_message(req.name->Some_0@)
                &&& final(store)@ == old(store)@
            },
            Ok(resp) => {
                &&& !(req.name matches Some(n) && exists|i: int| 0 <= i < old(store)@.sessions.len()
                    && old(store)@.sessions[i].session.name == Some(n@))
                &&& session_index(old(store)@.sessions, resp.id@) is None
                &&& crate::session_ids::session_id_form(resp.id@)
                &&& exists|now: i64| final(store)@ == #[trigger] create_spec(old(store)@, resp.id@, opt_view(req.name), initial_of(req), now)
                &&& resp.first_message_id == (if req.message is Some { Some(1u64) } else { None::<u64> })
            },
        },
{
    match &req.name {
        Some(name) => {
            if store.session_name_exists(name.as_str()) {
                proof {
                    reveal_strlit("A session named '");
                    reveal_strlit("' already exists");
                }
                let mut msg = String::new();
                push_str(&mut msg, "A session named '");
                push_str(&mut msg, name.as_str());
                push_str(&mut msg, "' already exists");
                assert(msg@ =~= name_taken_message(name@));
                return Err(ApiError { status: 409, error: msg });
            }
        },
        None => {},
    }
    proof {
        reveal_strlit("unknown");
    }
    let sender = match req.sender {
        Some(s) => s,
        None => "unknown".to_string(),
    };
    let initial = match req.message {
        Some(m) => Some((sender, m)),
        None => None,
    };
    let (id, first_message_id) = store.create_session(initial, req.name);
    Ok(CreateSessionResponse { id, first_message_id })
}

/// Closes a session (`DELETE /api/sessions/:id`): 404 for an unknown
/// session, 409 for a closed one (nothing changes), else it is closed.
pub fn close_session_request(store: &mut Store, id: &str) -> (r: Result<CloseSessionResponse, ApiError>)
    requires
        old(store).wf(),
    ensures
        final(store).wf(),
        match session_index(old(store)@.sessions, id@) {
            None => r matches Err(e) && e.status == 404 && e.error@ == not_found_message(id@) && final(store)@ == old(store)@,
            Some(i) => if old(store)@.sessions[i].session.closed {
                r matches Err(e) && e.status == 409 && e.error@ == already_closed_message(id@) && final(store)@ == old(store)@
            } else {
                &&& r matches Ok(c) && c.status@ == "closed"@
                &&& exists|now: i64| final(store)@ == close_spec(old(store)@, id@, now).0
            },
        },
{
    match store.get_session(id) {
        None => Err(not_found(id)),
        Some(s) => {
            if s.closed {
                return Err(ApiError { status: 409, error: quoted_session_message(id, "' is already closed") });
            }
            store.close_session(id);
            proof {
                reveal_strlit("closed");
            }
            Ok(CloseSessionResponse { status: "closed".to_string() })
        },
    }
}

/// The parts a send carries: its `parts`, else its legacy `content` as one
/// text part, else none.
pub open spec fn request_parts(parts: Option<Seq<PartView>>, content: Option<Seq<char>>) -> Seq<PartView> {
    match parts {
        Some(p) => p,
        None => match content {
            Some(c) => seq![PartView::Text { content: c }],
            None => Seq::empty(),
        },
    }
}

/// `p` is a blank text part.
pub open spec fn blank_text(p: PartView) -> bool {
    p matches PartView::Text { content } && blank(content)
}

/// A send's parts are empty, or one of its text parts is blank.
pub open spec fn empty_content(parts: Seq<PartView>) -> bool {
    parts.len() == 0 || exists|i: int| 0 <= i < parts.len() && #[trigger] blank_text(parts[i])
}

/// The error text for a reply to a message that is not in the session.
pub open spec fn bad_reply_message(target: u64, id: Seq<char>) -> Seq<char> {
    "reply_to message id "@ + decimal(target as nat) + " does not exist in session '"@ + id + "'"@
}

/// The error text for an idempotency key used for other content.
pub open spec fn conflict_message(m: MessageView) -> Seq<char> {
    "idempotency key conflict: key already used for message "@ + decimal(m.id as nat) + " in session "@
        + m.session_id + " with different content"@
}

/// The mathematical value of a send answer.
pub struct SendView {
    pub status: u16,
    pub message: MessageView,
    pub duplicate: bool,
}

/// What a send answers, given the store before it, the time and the add's outcome.
pub open spec fn send_answer(o: AddOutcome) -> Option<SendView> {
    match o {
        AddOutcome::Stored(m) => Some(SendView { status: 201, message: m, duplicate: false }),
        AddOutcome::Duplicate(m) => Some(SendView { status: 200, message: m, duplicate: true }),
        _ => None,
    }
}

/// The send answer as a view: the message it names and whether it is a duplicate.
pub open spec fn response_matches(resp: SendMessageResponse, v: SendView) -> bool {
    &&& resp.id == v.message.id
    &&& resp.session_id@ == v.message.session_id
    &&& resp.sender@ == v.message.sender
    &&& resp.content@ == join(texts(v.message.parts), "\n"@)
    &&& parts_view(resp.parts@) == v.message.parts
    &&& resp.timestamp == v.message.timestamp
    &&& resp.cursor == Some(v.message.id)
    &&& resp.intent == v.message.intent
    &&& resp.reply_to == v.message.reply_to
    &&& resp.expect_reply == v.message.expect_reply
    &&& resp.waiting_until == v.message.waiting_until
    &&& resp.duplicate == v.duplicate
}

/// The parameters a valid send adds with.
pub open spec fn send_params(req: SendMessageRequest, parts: Seq<PartView>, now: i64) -> ParamsView {
    ParamsView {
        sender: req.sender@,
        parts,
        intent: match req.intent { Some(i) => i, None => Intent::Fyi },
        reply_to: req.reply_to,
        expect_reply: req.expect_reply,
        waiting_until: match req.wait_timeout { Some(s) => Some(later_by(now, s)), None => None },
        idempotency_key: opt_view(req.idempotency_key),
    }
}

fn message_to_response(m: &Message, duplicate: bool) -> (r: SendMessageResponse)
    ensures
        response_matches(r, SendView { status: 0, message: m@, duplicate }),
{
    SendMessageResponse {
        id: m.id,
        session_id: m.session_id.clone(),
        sender: m.sender.clone(),
        content: m.text_content(),
        parts: copy_parts(&m.parts),
        timestamp: m.timestamp,
        cursor: Some(m.id),
        intent: m.intent,
        reply_to: m.reply_to,
        expect_reply: m.expect_reply,
        waiting_until: m.waiting_until,
        duplicate,
    }
}

/// What a send at `now` to session `id` does: the store after it
/// (`new_st`) and the answer `r` (see `send_message_at`).
pub open spec fn send_outcome(
    old_st: StoreView,
    id: Seq<char>,
    req: SendMessageRequest,
    now: i64,
    r: Result<(u16, SendMessageResponse), ApiError>,
    new_st: StoreView,
) -> bool {
    let parts = request_parts(match req.parts { Some(p) => Some(parts_view(p@)), None => None }, opt_view(req.content));
    if req.idempotency_key is None {
        r matches Err(e) && e.status == 400 && e.error@ == "idempotency_key is required on send"@
            && new_st == old_st
    } else if empty_content(parts) {
        r matches Err(e) && e.status == 400 && e.error@ == "message content cannot be empty"@
            && new_st == old_st
    } else if req.reply_to is Some && !(exists|k: int| 0 <= k < after(transcript(old_st, id), 0).len()
        && after(transcript(old_st, id), 0)[k].id == req.reply_to->Some_0) {
        r matches Err(e) && e.status == 400 && e.error@ == bad_reply_message(req.reply_to->Some_0, id)
            && new_st == old_st
    } else {
        let (st2, o) = add_spec(old_st, id, send_params(req, parts, now), now);
        &&& new_st == st2
        &&& match o {
            AddOutcome::Unavailable => r matches Err(e) && if session_index(old_st.sessions, id) is Some {
                e.status == 409 && e.error@ == "session is closed"@
            } else {
                e.status == 404 && e.error@ == not_found_message(id)
            },
            AddOutcome::KeyConflict(m) => r matches Err(e) && e.status == 409 && e.error@ == conflict_message(m),
            _ => r matches Ok((status, resp)) && status == send_answer(o)->Some_0.status
                && response_matches(resp, send_answer(o)->Some_0),
        }
    }
}

/// Sends a message (`POST /api/sessions/:id/messages`) at time `now`. In
/// order: a missing idempotency key is refused (400); empty content or a
/// blank text part is refused (400); a `reply_to` naming no message of the
/// session is refused (400); then the message is added — a closed session
/// answers 409, an unknown one 404, a key used for other content 409, a
/// retry 200 with the original message marked duplicate, and a new message
/// 201. A wait timeout stamps the message with the time the sender waits until.
pub fn send_message_at(store: &mut Store, id: &str, req: SendMessageRequest, now: i64) -> (r: Result<(u16, SendMessageResponse), ApiError>)
    requires
        old(store).wf(),
        session_index(old(store)@.sessions, id@) matches Some(i) ==> old(store)@.sessions[i].next_msg_id < u64::MAX,
    ensures
        final(store).wf(),
        send_outcome(old(store)@, id@, req, now, r, final(store)@),
{
    proof {
        reveal_strlit("idempotency_key is required on send");
        reveal_strlit("message content cannot be empty");
        reveal_strlit("session is closed");
    }
    let key = match &req.idempotency_key {
        Some(k) => k.clone(),
        None => {
            return Err(ApiError { status: 400, error: "idempotency_key is required on send".to_string() });
        },
    };
    let parts: Vec<Part> = match req.parts {
        Some(p) => p,
        None => match req.content {
            Some(c) => {
                let mut v: Vec<Part> = Vec::new();
                v.push(Part::Text { content: c });
                assert(parts_view(v@) =~= seq![PartView::Text { content: c@ }]);
                v
            },
            None => {
                let v: Vec<Part> = Vec::new();
                assert(parts_view(v@) =~= Seq::<PartView>::empty());
                v
            },
        },
    };
    let ghost pv = parts_view(parts@);
    // Empty content.
    let mut empty = parts.len() == 0;
    let mut i: usize = 0;
    while i < parts.len() && !empty
        invariant
            pv == parts_view(parts@),
            0 <= i <= parts@.len(),
            empty == (parts@.len() == 0 || exists|j: int| 0 <= j < i && #[trigger] blank_text(pv[j])),
        decreases parts.len() - i,
    {
        match &parts[i] {
            Part::Text { content } => {
                if is_blank(content.as_str()) {
                    assert(blank_text(pv[i as int]));
                    empty = true;
                }
            },
            _ => {},
        }
        i += 1;
    }
    if empty {
        return Err(ApiError { status: 400, error: "message content cannot be empty".to_string() });
    }
    assert(!empty_content(pv));
    // The reply target must exist.
    match req.reply_to {
        Some(target) => {
            let msgs = store.get_messages_since(id, 0);
            let mut found = false;
            let mut k: usize = 0;
            while k < msgs.len() && !found
                invariant
                    0 <= k <= msgs@.len(),
                    found == exists|j: int| 0 <= j < k && msgs@[j].id == target,
                decreases msgs.len() - k,
            {
                if msgs[k].id == target {
                    found = true;
                }
                k += 1;
            }
            proof {
                let a = after(transcript(old(store)@, id@), 0);
                assert(a == messages_view(msgs@));
                assert(found == exists|j: int| 0 <= j < a.len() && a[j].id == target) by {
                    if found {
                        let j = choose|j: int| 0 <= j < k && msgs@[j].id == target;
                        assert(a[j].id == target);
                    }
                    if exists|j: int| 0 <= j < a.len() && a[j].id == target {
                        let j = choose|j: int| 0 <= j < a.len() && a[j].id == target;
                        assert(msgs@[j].id == target);
                    }
                }
            }
            if !found {
                proof {
                    reveal_strlit("reply_to message id ");
                    reveal_strlit(" does not exist in session '");
                    reveal_strlit("'");
                }
                let mut msg = String::new();
                push_str(&mut msg, "reply_to message id ");
                push_decimal(&mut msg, target);
                push_str(&mut msg, " does not exist in session '");
                push_str(&mut msg, id);
                push_str(&mut msg, "'");
                assert(msg@ =~= bad_reply_message(target, id@));
                return Err(ApiError { status: 400, error: msg });
            }
        },
        None => {},
    }
    let intent = match req.intent {
        Some(i) => i,
        None => Intent::Fyi,
    };
    let waiting_until = match req.wait_timeout {
        Some(secs) => Some(add_seconds(now, secs)),
        None => None,
    };
    let params = AddMessageParams {
        sender: req.sender,
        parts,
        intent,
        reply_to: req.reply_to,
        expect_reply: req.expect_reply,
        waiting_until,
        idempotency_key: Some(key),
    };
    let ghost had = session_index(store@.sessions, id@) is Some;
    let result = store.add_message_with_at(id, params, now);
    match result {
        AddMessageResult::Unavailable => {
            match store.get_session(id) {
                Some(_) => Err(ApiError { status: 409, error: "session is closed".to_string() }),
                None => Err(not_found(id)),
            }
        },
        AddMessageResult::Stored(m) => Ok((201, message_to_response(&m, false))),
        AddMessageResult::Duplicate(m) => Ok((200, message_to_response(&m, true))),
        AddMessageResult::KeyConflict(orig) => {
            proof {
                reveal_strlit("idempotency key conflict: key already used for message ");
                reveal_strlit(" in session ");
                reveal_strlit(" with different content");
            }
            let mut msg = String::new();
            push_str(&mut msg, "idempotency key conflict: key already used for message ");
            push_decimal(&mut msg, orig.id);
            push_str(&mut msg, " in session ");
            push_str(&mut msg, orig.session_id.as_str());
            push_str(&mut msg, " with different content");
            assert(msg@ =~= conflict_message(orig@));
            Err(ApiError { status: 409, error: msg })
        },
    }
}

/// Sends a message at the current time (see `send_message_at`).
pub fn send_message(store: &mut Store, id: &str, req: SendMessageRequest) -> (r: Result<(u16, SendMessageResponse), ApiError>)
    requires
        old(store).wf(),
        session_index(old(store)@.sessions, id@) matches Some(i) ==> old(store)@.sessions[i].next_msg_id < u64::MAX,
    ensures
        final(store).wf(),
        exists|now: i64| send_outcome(old(store)@, id@, req, now, r, final(store)@),
{
    let now = now_micros();
    send_message_at(store, id, req, now)
}

/// The highest id among `msgs`, if any.
pub open spec fn max_message_id(msgs: Seq<MessageView>) -> Option<u64>
    decreases msgs.len(),
{
    if msgs.len() == 0 {
        None
    } else {
        match max_message_id(msgs.drop_last()) {
            Some(m) => if msgs.last().id > m { Some(msgs.last().id) } else { Some(m) },
            None => Some(msgs.last().id),
        }
    }
}

/// The read cursor of a list of messages: the highest id in it.
pub fn compute_cursor(messages: &Vec<Message>) -> (r: Option<u64>)
    ensures
        r == max_message_id(messages_view(messages@)),
{
    let ghost mv = messages_view(messages@);
    let mut best: Option<u64> = None;
    let mut i: usize = 0;
    assert(mv.take(0) =~= Seq::<MessageView>::empty());
    while i < messages.len()
        invariant
            mv == messages_view(messages@),
            0 <= i <= messages@.len(),
            best == max_message_id(mv.take(i as int)),
        decreases messages.len() - i,
    {
        assert(mv.take(i + 1).drop_last() =~= mv.take(i as int));
        assert(mv.take(i + 1).last() == messages@[i as int]@);
        best = match best {
            Some(m) => if messages[i].id > m { Some(messages[i].id) } else { Some(m) },
            None => Some(messages[i].id),
        };
        i += 1;
    }
    assert(mv.take(mv.len() as int) =~= mv);
    best
}

/// A wait answer whose cursor is the highest id among its messages.
pub fn wrap_wait(messages: Vec<Message>, timeout: bool, timeout_after: Option<u64>, closed: bool, overlaps: Vec<WaitOverlap>) -> (r: WaitResponse)
    ensures
        messages_view(r.messages@) == messages_view(messages@),
        r.timeout == timeout,
        r.timeout_after == timeout_after,
        r.closed == closed,
        r.cursor == max_message_id(messages_view(messages@)),
        r.overlaps@ == overlaps@,
{
    let cursor = compute_cursor(&messages);
    WaitResponse { messages, timeout, timeout_after, closed, cursor, overlaps }
}

/// Records that `reader` (when given) has read the messages `msgs` of
/// session `sid`: its receipt rises to their highest id.
pub open spec fn read_after(st: StoreView, sid: Seq<char>, reader: Option<Seq<char>>, msgs: Seq<MessageView>) -> StoreView {
    match (reader, max_message_id(msgs)) {
        (Some(r), Some(m)) => StoreView { reads: read_spec(st.reads, sid, r, m), ..st },
        _ => st,
    }
}

/// Records the read of `msgs` by `reader`, when there is a reader and a message.
pub fn note_read(store: &mut Store, sid: &str, reader: &Option<String>, msgs: &Vec<Message>)
    requires
        old(store).wf(),
    ensures
        final(store).wf(),
        final(store)@ == read_after(old(store)@, sid@, opt_view(*reader), messages_view(msgs@)),
{
    match reader {
        Some(r) => match compute_cursor(msgs) {
            Some(m) => store.record_read(sid, r.as_str(), m),
            None => {},
        },
        None => {},
    }
}

/// Reads the messages of a session after `since` (`GET
/// /api/sessions/:id/messages`); a named reader's receipt rises to the
/// highest id returned.
pub fn get_messages_request(store: &mut Store, id: &str, since: Option<u64>, sender: Option<String>) -> (r: Vec<Message>)
    requires
        old(store).wf(),
    ensures
        final(store).wf(),
        messages_view(r@) == after(transcript(old(store)@, id@), match since { Some(s) => s, None => 0 }),
        final(store)@ == read_after(old(store)@, id@, opt_view(sender), messages_view(r@)),
{
    let s = match since {
        Some(s) => s,
        None => 0,
    };
    let messages = store.get_messages_since(id, s);
    note_read(store, id, &sender, &messages);
    messages
}

/// The messages a transcript request returns for a session.
pub open spec fn recap_messages(st: StoreView, id: Seq<char>, q: RecapQuery) -> Seq<MessageView> {
    let since = match q.cursor { Some(c) => c, None => match q.since { Some(s) => s, None => 0 } };
    let f = after_from(transcript(st, id), since, opt_view(q.from));
    match q.limit {
        Some(l) => last_n(f, l as nat),
        None => f,
    }
}

/// A session's transcript (`GET /api/sessions/:id/recap`): 404 for an
/// unknown session; otherwise the session, its messages after the cursor
/// (or `since`), from the given sender, the newest `limit` of them, and the
/// highest id returned. A named reader's receipt rises to that id.
pub fn recap_request(store: &mut Store, id: &str, q: RecapQuery) -> (r: Result<RecapResponse, ApiError>)
    requires
        old(store).wf(),
    ensures
        final(store).wf(),
        match session_index(old(store)@.sessions, id@) {
            None => r matches Err(e) && e.status == 404 && e.error@ == not_found_message(id@) && final(store)@ == old(store)@,
            Some(i) => r matches Ok(resp) && {
                &&& resp.session@ == old(store)@.sessions[i].session
                &&& messages_view(resp.messages@) == recap_messages(old(store)@, id@, q)
                &&& resp.cursor == max_message_id(recap_messages(old(store)@, id@, q))
                &&& final(store)@ == read_after(old(store)@, id@, opt_view(q.sender), recap_messages(old(store)@, id@, q))
            },
        },
{
    let session = match store.get_session(id) {
        Some(s) => s,
        None => return Err(not_found(id)),
    };
    let since = match q.cursor {
        Some(c) => c,
        None => match q.since {
            Some(s) => s,
            None => 0,
        },
    };
    let from: Option<&str> = match &q.from {
        Some(f) => Some(f.as_str()),
        None => None,
    };
    assert(opt_str_view(from) == opt_view(q.from));
    let messages = store.get_messages_filtered(id, since, q.limit, from);
    let cursor = compute_cursor(&messages);
    note_read(store, id, &q.sender, &messages);
    Ok(RecapResponse { session, messages, cursor })
}

/// The answer to a successful rename.
#[derive(Debug, Clone)]
pub struct RenameResponse {
    pub session_id: String,
    pub name: String,
    pub status: String,
}

/// Renames a session (`POST /api/sessions/:id/rename`): a blank name is
/// refused (400); a name another session carries is refused (409); an
/// unknown session answers 404.
pub fn rename_request(store: &mut Store, id: &str, req: RenameSessionRequest) -> (r: Result<RenameResponse, ApiError>)
    requires
        old(store).wf(),
    ensures
        final(store).wf(),
        if blank(req.name@) {
            r matches Err(e) && e.status == 400 && e.error@ == "session name cannot be empty"@ && final(store)@ == old(store)@
        } else {
            &&& final(store)@ == rename_spec(old(store)@, id@, req.name@).0
            &&& match rename_spec(old(store)@, id@, req.name@).1 {
                Ok(true) => r matches Ok(resp) && resp.session_id@ == id@ && resp.name@ == req.name@ && resp.status@ == "renamed"@,
                Ok(false) => r matches Err(e) && e.status == 404 && e.error@ == not_found_message(id@),
                Err(m) => r matches Err(e) && e.status == 409 && e.error@ == m,
            }
        },
{
    proof {
        reveal_strlit("session name cannot be empty");
        reveal_strlit("renamed");
    }
    if is_blank(req.name.as_str()) {
        return Err(ApiError { status: 400, error: "session name cannot be empty".to_string() });
    }
    match store.rename_session(id, req.name.as_str(), req.force) {
        Ok(true) => Ok(RenameResponse { session_id: id.to_string(), name: req.name, status: "renamed".to_string() }),
        Ok(false) => Err(not_found(id)),
        Err(msg) => Err(ApiError { status: 409, error: msg }),
    }
}

/// Reopens a session (`POST /api/sessions/:id/reopen`): 404 for an unknown
/// session; an open session stays open.
pub fn reopen_request(store: &mut Store, id: &str) -> (r: Result<(), ApiError>)
    requires
        old(store).wf(),
    ensures
        final(store).wf(),
        match session_index(old(store)@.sessions, id@) {
            None => r matches Err(e) && e.status == 404 && e.error@ == not_found_message(id@) && final(store)@ == old(store)@,
            Some(_) => r is Ok && exists|now: i64| final(store)@ == reopen_spec(old(store)@, id@, now).0,
        },
{
    if store.reopen_session(id) {
        Ok(())
    } else {
        Err(not_found(id))
    }
}

} // verus!
