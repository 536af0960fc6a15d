use tala::api::{
    close_session_request, create_session_request, get_messages_request, recap_request, rename_request,
    reopen_request, send_message_at, wrap_wait, compute_cursor,
};
use tala::arrivals::{
    find_incoming_session, new_session_check, arrival_step_at, wait_all_on_event, wait_all_timed_out,
    session_name_for, Arrival, ArrivalStep, Broadcast, NewSessionWait,
};
use tala::models::{
    CreateSessionRequest, DaemonEvent, Intent, Message, Part, RecapQuery, RenameSessionRequest,
    SendMessageRequest, WaitScope, PROTOCOL_VERSION,
};
use tala::observe::{
    events_limit, events_start, events_step, observe_history, observe_step, EventItem, EventsStart,
    ObserveFilter, ObserveStep,
};
use tala::roster::{agents, status_at, str_lt};
use tala::store::Store;
use tala::waiting::{
    stream_backlog, stream_start, stream_step_at, stream_timed_out, wait_check, wait_on_event, wait_recheck,
    wait_timed_out, Received, SessionWait, StreamItem, StreamStart, WaitCheck,
};

fn send_req(sender: &str, content: &str, key: &str) -> SendMessageRequest {
    SendMessageRequest {
        sender: sender.into(),
        content: Some(content.into()),
        parts: None,
        idempotency_key: Some(key.into()),
        intent: None,
        reply_to: None,
        expect_reply: false,
        wait_timeout: None,
    }
}

fn session_with(store: &mut Store, id: &str, msgs: &[(&str, &str)]) {
    store.create_session_with_id_at(id.into(), None, None, 1_000_000);
    for (i, (who, what)) in msgs.iter().enumerate() {
        store.add_message_at(id, who, what, 2_000_000 + i as i64 * 1_000_000);
    }
}

fn message(id: u64, sid: &str, sender: &str) -> Message {
    Message {
        id,
        session_id: sid.into(),
        sender: sender.into(),
        parts: vec![Part::Text { content: format!("m{}", id) }],
        timestamp: 0,
        intent: Intent::Fyi,
        reply_to: None,
        expect_reply: false,
        waiting_until: None,
        idempotency_key: None,
    }
}

#[test]
fn create_request_refuses_a_taken_name() {
    let mut store = Store::new();
    let ok = create_session_request(
        &mut store,
        CreateSessionRequest { message: Some("hi".into()), sender: None, name: Some("room".into()) },
    )
    .unwrap();
    assert_eq!(ok.first_message_id, Some(1));
    let first = store.get_messages_since(&ok.id, 0);
    assert_eq!(first[0].sender, "unknown");
    let err = create_session_request(&mut store, CreateSessionRequest { message: None, sender: None, name: Some("room".into()) })
        .unwrap_err();
    assert_eq!(err.status, 409);
    assert_eq!(err.error, "A session named 'room' already exists");
}

#[test]
fn close_request_answers_404_then_409() {
    let mut store = Store::new();
    session_with(&mut store, "sess_a", &[]);
    let nf = close_session_request(&mut store, "sess_x").unwrap_err();
    assert_eq!((nf.status, nf.error.as_str()), (404, "session 'sess_x' not found"));
    assert_eq!(close_session_request(&mut store, "sess_a").unwrap().status, "closed");
    let again = close_session_request(&mut store, "sess_a").unwrap_err();
    assert_eq!((again.status, again.error.as_str()), (409, "session 'sess_a' is already closed"));
}

#[test]
fn send_request_rules() {
    let mut store = Store::new();
    session_with(&mut store, "sess_a", &[]);
    let mut no_key = send_req("a", "x", "k");
    no_key.idempotency_key = None;
    let e = send_message_at(&mut store, "sess_a", no_key, 5).unwrap_err();
    assert_eq!((e.status, e.error.as_str()), (400, "idempotency_key is required on send"));
    let e = send_message_at(&mut store, "sess_a", send_req("a", "  ", "k"), 5).unwrap_err();
    assert_eq!((e.status, e.error.as_str()), (400, "message content cannot be empty"));
    let mut bad_reply = send_req("a", "x", "k");
    bad_reply.reply_to = Some(9);
    let e = send_message_at(&mut store, "sess_a", bad_reply, 5).unwrap_err();
    assert_eq!(e.status, 400);
    assert_eq!(e.error, "reply_to message id 9 does not exist in session 'sess_a'");
    let (status, resp) = send_message_at(&mut store, "sess_a", send_req("a", "hello", "k1"), 5).unwrap();
    assert_eq!((status, resp.id, resp.duplicate), (201, 1, false));
    assert_eq!(resp.content, "hello");
    let (status, resp) = send_message_at(&mut store, "sess_a", send_req("a", "hello", "k1"), 6).unwrap();
    assert_eq!((status, resp.id, resp.duplicate), (200, 1, true));
    let e = send_message_at(&mut store, "sess_a", send_req("a", "other", "k1"), 7).unwrap_err();
    assert_eq!(e.status, 409);
    assert_eq!(e.error, "idempotency key conflict: key already used for message 1 in session sess_a with different content");
    let e = send_message_at(&mut store, "sess_nope", send_req("a", "x", "k2"), 8).unwrap_err();
    assert_eq!(e.status, 404);
    close_session_request(&mut store, "sess_a").unwrap();
    let e = send_message_at(&mut store, "sess_a", send_req("a", "x", "k3"), 9).unwrap_err();
    assert_eq!((e.status, e.error.as_str()), (409, "session is closed"));
}

#[test]
fn send_with_wait_stamps_the_deadline() {
    let mut store = Store::new();
    session_with(&mut store, "sess_a", &[]);
    let mut req = send_req("a", "question?", "k");
    req.wait_timeout = Some(30);
    let (_, resp) = send_message_at(&mut store, "sess_a", req, 1_000_000).unwrap();
    assert_eq!(resp.waiting_until, Some(31_000_000));
}

#[test]
fn reads_and_transcripts_record_receipts() {
    let mut store = Store::new();
    session_with(&mut store, "sess_a", &[("alice", "1"), ("bob", "2"), ("alice", "3")]);
    let msgs = get_messages_request(&mut store, "sess_a", Some(1), Some("carol".into()));
    assert_eq!(msgs.iter().map(|m| m.id).collect::<Vec<_>>(), vec![2, 3]);
    assert_eq!(store.list_sessions()[0].read_by, vec![("carol".to_string(), 3)]);
    let recap = recap_request(
        &mut store,
        "sess_a",
        RecapQuery { since: None, limit: Some(1), from: Some("alice".into()), cursor: None, sender: Some("dave".into()) },
    )
    .unwrap();
    assert_eq!(recap.messages.iter().map(|m| m.id).collect::<Vec<_>>(), vec![3]);
    assert_eq!(recap.cursor, Some(3));
    let nf = recap_request(&mut store, "sess_x", RecapQuery { since: None, limit: None, from: None, cursor: None, sender: None })
        .unwrap_err();
    assert_eq!(nf.status, 404);
}

#[test]
fn rename_and_reopen_requests() {
    let mut store = Store::new();
    session_with(&mut store, "sess_a", &[]);
    let e = rename_request(&mut store, "sess_a", RenameSessionRequest { name: " ".into(), force: false }).unwrap_err();
    assert_eq!((e.status, e.error.as_str()), (400, "session name cannot be empty"));
    let ok = rename_request(&mut store, "sess_a", RenameSessionRequest { name: "plan".into(), force: false }).unwrap();
    assert_eq!((ok.name.as_str(), ok.status.as_str()), ("plan", "renamed"));
    assert_eq!(reopen_request(&mut store, "sess_x").unwrap_err().status, 404);
    assert!(reopen_request(&mut store, "sess_a").is_ok());
}

#[test]
fn wait_answers_existing_messages_and_records_the_read() {
    let mut store = Store::new();
    session_with(&mut store, "sess_a", &[("alice", "1"), ("bob", "2")]);
    let w = SessionWait::new("sess_a".into(), Some(1), None, Some(0), None, None, None, Some("carol".into()));
    assert_eq!(w.timeout_secs, 60);
    assert_eq!(w.limit, None);
    assert_eq!(w.identity, "unknown");
    match wait_check(&mut store, &w, vec![]) {
        WaitCheck::Answer(resp) => {
            assert_eq!(resp.messages.iter().map(|m| m.id).collect::<Vec<_>>(), vec![2]);
            assert_eq!(resp.cursor, Some(2));
            assert!(!resp.closed && !resp.timeout);
        },
        other => panic!("expected an answer, got {:?}", other),
    }
    assert_eq!(store.list_sessions()[0].read_by, vec![("carol".to_string(), 2)]);
}

#[test]
fn wait_blocks_on_an_open_session_and_fails_on_an_unknown_one() {
    let mut store = Store::new();
    session_with(&mut store, "sess_a", &[("alice", "1")]);
    let w = SessionWait::new("sess_a".into(), Some(1), Some(5), None, None, None, None, None);
    assert!(matches!(wait_check(&mut store, &w, vec![]), WaitCheck::Block));
    assert!(matches!(wait_recheck(&mut store, &w, vec![]), WaitCheck::Block));
    let unknown = SessionWait::new("sess_x".into(), None, None, None, None, None, None, None);
    match wait_check(&mut store, &unknown, vec![]) {
        WaitCheck::NotFound(e) => assert_eq!(e.error, "session 'sess_x' not found"),
        other => panic!("expected 404, got {:?}", other),
    }
    let t = wait_timed_out(&w, vec![]);
    assert!(t.timeout);
    assert_eq!(t.timeout_after, Some(5));
    assert_eq!(t.cursor, Some(1));
}

#[test]
fn wait_on_events_filters_sender_and_closes() {
    let mut store = Store::new();
    session_with(&mut store, "sess_a", &[("alice", "1")]);
    let w = SessionWait::new("sess_a".into(), Some(1), None, None, Some("bob".into()), None, None, None);
    let from_alice = message(2, "sess_a", "alice");
    assert!(wait_on_event(&mut store, &w, Received::Event(DaemonEvent::NewMessage(from_alice))).is_none());
    let from_bob = message(3, "sess_a", "bob");
    let resp = wait_on_event(&mut store, &w, Received::Event(DaemonEvent::NewMessage(from_bob))).unwrap();
    assert_eq!(resp.messages.len(), 1);
    assert_eq!(resp.cursor, Some(3));
    let closed = wait_on_event(&mut store, &w, Received::Event(DaemonEvent::SessionClosed)).unwrap();
    assert!(closed.closed);
    assert!(wait_on_event(&mut store, &w, Received::Lagged).is_none());
    assert!(wait_on_event(&mut store, &w, Received::Closed).unwrap().closed);
}

#[test]
fn stream_wait_replays_a_closed_session() {
    let mut store = Store::new();
    session_with(&mut store, "sess_a", &[("alice", "1"), ("bob", "2")]);
    store.close_session("sess_a");
    let w = SessionWait::new("sess_a".into(), Some(0), None, None, None, None, None, None);
    match stream_start(&store, &w) {
        StreamStart::Replay(msgs, result) => {
            assert_eq!(msgs.len(), 2);
            assert!(result.closed);
            assert!(result.messages.is_empty());
        },
        other => panic!("expected a replay, got {:?}", other),
    }
    let unknown = SessionWait::new("sess_x".into(), None, None, None, None, None, None, None);
    assert!(matches!(stream_start(&store, &unknown), StreamStart::NotFound(_)));
}

#[test]
fn stream_wait_backlog_and_limit() {
    let mut store = Store::new();
    session_with(&mut store, "sess_a", &[("alice", "1")]);
    let w = SessionWait::new("sess_a".into(), Some(1), None, Some(2), None, None, None, Some("carol".into()));
    assert!(matches!(stream_start(&store, &w), StreamStart::Live));
    assert!(stream_backlog(&mut store, &w).is_none());
    let (items, sent, done) =
        stream_step_at(&mut store, &w, 0, Received::Event(DaemonEvent::NewMessage(message(2, "sess_a", "bob"))), 0);
    assert_eq!((items.len(), sent, done), (1, 1, false));
    let (items, sent, done) =
        stream_step_at(&mut store, &w, 1, Received::Event(DaemonEvent::NewMessage(message(3, "sess_a", "bob"))), 0);
    assert_eq!((items.len(), sent, done), (2, 2, true));
    assert!(matches!(&items[1], StreamItem::Result(r) if !r.closed && r.messages.is_empty()));
    assert_eq!(store.list_sessions()[0].read_by, vec![("carol".to_string(), 3)]);
    let (items, _, done) = stream_step_at(&mut store, &w, 0, Received::Event(DaemonEvent::SessionClosed), 0);
    assert!(done && matches!(&items[0], StreamItem::Result(r) if r.closed));
    assert!(stream_timed_out(&w).timeout);
}

#[test]
fn stream_wait_reports_overlapping_waits() {
    let mut store = Store::new();
    session_with(&mut store, "sess_a", &[]);
    store.register_wait_at(WaitScope::Session("sess_a".into()), "alpha".into(), 60, 0);
    let w = SessionWait::new("sess_a".into(), None, None, None, None, Some("beta".into()), None, None);
    let update = DaemonEvent::WaitUpdate { identity: "alpha".into(), scope: WaitScope::Session("sess_a".into()) };
    let (items, _, done) = stream_step_at(&mut store, &w, 0, Received::Event(update), 10_000_000);
    assert!(!done);
    match &items[0] {
        StreamItem::Overlap(o) => {
            assert_eq!(o.identity, "alpha");
            assert_eq!(o.remaining_secs, 50);
        },
        other => panic!("expected an overlap, got {:?}", other),
    }
    let elsewhere = DaemonEvent::WaitUpdate { identity: "alpha".into(), scope: WaitScope::Session("sess_b".into()) };
    let (items, _, _) = stream_step_at(&mut store, &w, 0, Received::Event(elsewhere), 10_000_000);
    assert!(items.is_empty());
}

#[test]
fn incoming_session_prefers_never_seen_and_skips_own_and_read() {
    let mut store = Store::new();
    session_with(&mut store, "sess_own", &[("me", "mine")]);
    session_with(&mut store, "sess_seen", &[("other", "old")]);
    session_with(&mut store, "sess_new", &[("other", "hello")]);
    // sess_own: only my messages; sess_seen: read up to 1.
    let seen = vec![("sess_seen".to_string(), 1u64)];
    let (sid, m) = find_incoming_session(&store, "me", &seen).unwrap();
    assert_eq!(sid, "sess_new");
    assert_eq!(m.sender, "other");
    // With every session seen and read, nothing is returned.
    let all_seen = vec![("sess_seen".to_string(), 1u64), ("sess_new".to_string(), 1u64)];
    assert!(find_incoming_session(&store, "me", &all_seen).is_none());
    // A waiter's untouched own session (cursor 0) is never offered.
    let scratch = vec![("sess_new".to_string(), 0u64), ("sess_seen".to_string(), 1u64)];
    assert!(find_incoming_session(&store, "me", &scratch).is_none());
}

#[test]
fn new_session_wait_marks_the_read_on_long_poll_only() {
    let mut store = Store::new();
    session_with(&mut store, "sess_new", &[("other", "hello")]);
    let w = NewSessionWait::new(None, None, Some("me".into()), vec![]);
    let a: Arrival = new_session_check(&mut store, &w, false).unwrap();
    assert_eq!(a.session_id, "sess_new");
    assert!(store.list_sessions()[0].read_by.is_empty());
    new_session_check(&mut store, &w, true).unwrap();
    assert_eq!(store.list_sessions()[0].read_by, vec![("me".to_string(), 1)]);
    let anonymous = NewSessionWait::new(Some(5), None, None, vec![]);
    assert!(new_session_check(&mut store, &anonymous, true).is_none());
    assert_eq!(anonymous.timeout_secs, 5);
    assert_eq!(session_name_for(&store, "sess_new"), None);
}

#[test]
fn new_session_events() {
    let mut store = Store::new();
    session_with(&mut store, "sess_a", &[("other", "hi")]);
    let caller = NewSessionWait::new(None, None, Some("me".into()), vec![]);
    let created = Broadcast::Event("sess_a".into(), DaemonEvent::SessionCreated("sess_a".into()));
    assert!(matches!(arrival_step_at(&mut store, &caller, 1, false, created.clone(), 0), ArrivalStep::Continue));
    let own = Broadcast::Event("sess_a".into(), DaemonEvent::NewMessage(message(2, "sess_a", "me")));
    assert!(matches!(arrival_step_at(&mut store, &caller, 1, false, own, 0), ArrivalStep::Continue));
    let theirs = Broadcast::Event("sess_a".into(), DaemonEvent::NewMessage(message(3, "sess_a", "other")));
    match arrival_step_at(&mut store, &caller, 1, false, theirs, 0) {
        ArrivalStep::Found(a) => assert_eq!(a.message.unwrap().id, 3),
        other => panic!("expected an arrival, got {:?}", other),
    }
    let anyone = NewSessionWait::new(None, None, None, vec![]);
    match arrival_step_at(&mut store, &anyone, 0, false, created, 0) {
        ArrivalStep::Found(a) => {
            assert_eq!(a.session_id, "sess_a");
            assert_eq!(a.message.unwrap().id, 1);
        },
        other => panic!("expected an arrival, got {:?}", other),
    }
    let more = Broadcast::Event("sess_a".into(), DaemonEvent::NewMessage(message(4, "sess_a", "x")));
    assert!(matches!(arrival_step_at(&mut store, &anyone, 1, false, more, 0), ArrivalStep::Continue));
    assert!(matches!(arrival_step_at(&mut store, &anyone, 1, false, Broadcast::Closed, 0), ArrivalStep::ChannelClosed));
}

#[test]
fn wait_all_takes_the_next_message() {
    let mut store = Store::new();
    session_with(&mut store, "sess_a", &[("other", "hi")]);
    let got = Broadcast::Event("sess_a".into(), DaemonEvent::NewMessage(message(1, "sess_a", "other")));
    let resp = wait_all_on_event(&mut store, &Some("me".into()), got).unwrap();
    assert_eq!(resp.cursor, Some(1));
    assert_eq!(store.list_sessions()[0].read_by, vec![("me".to_string(), 1)]);
    assert!(wait_all_on_event(&mut store, &None, Broadcast::Lagged).is_none());
    assert!(wait_all_on_event(&mut store, &None, Broadcast::Closed).unwrap().closed);
    let t = wait_all_timed_out(7);
    assert_eq!((t.timeout, t.timeout_after), (true, Some(7)));
}

#[test]
fn event_stream_counts_messages_up_to_the_limit() {
    let mut store = Store::new();
    session_with(&mut store, "sess_a", &[]);
    assert!(matches!(events_start(&store, "sess_a"), EventsStart::Live));
    assert!(matches!(events_start(&store, "sess_x"), EventsStart::NotFound(_)));
    assert_eq!(events_limit(Some(0)), usize::MAX);
    assert_eq!(events_limit(Some(2)), 2);
    let (item, count) = events_step(1, 2, 0, Received::Event(DaemonEvent::NewMessage(message(1, "sess_a", "x"))));
    assert!(item.is_none() && count == 0);
    let (item, count) = events_step(1, 2, 0, Received::Event(DaemonEvent::NewMessage(message(2, "sess_a", "x"))));
    assert!(matches!(item, Some(EventItem::Message(_))) && count == 1);
    let (item, count) = events_step(1, 2, 2, Received::Event(DaemonEvent::SessionClosed));
    assert!(item.is_none() && count == 2);
    let (item, _) = events_step(1, 2, 1, Received::Event(DaemonEvent::SessionClosed));
    assert!(matches!(item, Some(EventItem::Closed)));
    store.close_session("sess_a");
    assert!(matches!(events_start(&store, "sess_a"), EventsStart::Closed));
}

#[test]
fn observation_filters_history_and_live_events() {
    let mut store = Store::new();
    session_with(&mut store, "sess_a", &[("alice", "fix parse_row"), ("bob", "ok")]);
    store.create_session_with_id_at("sess_b".into(), None, Some("team-chat".into()), 1);
    store.add_message_at("sess_b", "alice", "parse_row again", 3);
    let f = ObserveFilter::new(None, vec![], Some("parse_row".into()), Some("alice".into()), None, Some(0));
    assert_eq!(f.timeout_secs, None);
    let h = observe_history(&store, &f);
    assert_eq!(h.len(), 2);
    assert_eq!(h[0].session_id, "sess_a");
    assert_eq!(h[1].session_name.as_deref(), Some("team-chat"));
    let by_channel = ObserveFilter::new(None, vec![("sess_b".into(), 1)], None, None, Some("team".into()), None);
    assert!(observe_history(&store, &by_channel).is_empty());
    let live = Broadcast::Event("sess_b".into(), DaemonEvent::NewMessage(message(2, "sess_b", "carol")));
    match observe_step(&store, &by_channel, live) {
        ObserveStep::Emit(o) => assert_eq!((o.kind.as_str(), o.session_id.as_str()), ("message", "sess_b")),
        other => panic!("expected an observation, got {:?}", other),
    }
    let elsewhere = Broadcast::Event("sess_a".into(), DaemonEvent::SessionClosed);
    assert!(matches!(observe_step(&store, &by_channel, elsewhere), ObserveStep::Skip));
    let renamed = Broadcast::Event(
        "sess_b".into(),
        DaemonEvent::SessionRenamed { id: "sess_b".into(), old_name: "x".into(), new_name: "team-chat".into() },
    );
    assert!(matches!(observe_step(&store, &by_channel, renamed), ObserveStep::Emit(o) if o.kind == "renamed"));
    assert!(matches!(observe_step(&store, &by_channel, Broadcast::Closed), ObserveStep::Stop));
}

#[test]
fn agents_are_sorted_by_name_with_counts() {
    let mut store = Store::new();
    session_with(&mut store, "sess_a", &[("zed", "1"), ("amy", "2"), ("zed", "3")]);
    session_with(&mut store, "sess_b", &[("bob", "x")]);
    store.close_session("sess_b");
    let rows = agents(&store, Some("local".into()));
    let names: Vec<&str> = rows.iter().map(|a| a.sender.as_str()).collect();
    assert_eq!(names, vec!["amy", "local", "zed"]);
    assert_eq!(rows[2].message_count, 2);
    assert_eq!(rows[2].last_seen, 4_000_000);
    assert_eq!(rows[1].message_count, 0);
    assert_eq!(rows[1].last_seen, 1_000_000);
    assert!(str_lt("amy", "local") && !str_lt("zed", "zed") && str_lt("ab", "abc"));
}

#[test]
fn status_counts_sessions_and_waits() {
    let mut store = Store::new();
    session_with(&mut store, "sess_a", &[]);
    store.register_wait_at(WaitScope::AnyNewSession, "w".into(), 10, 0);
    let s = status_at(&mut store, 42, 5_000_000);
    assert_eq!((s.pid, s.port, s.session_count), (42, 0, 1));
    assert_eq!(s.uptime_seconds, 5);
    assert_eq!(s.active_waits.len(), 1);
    assert_eq!(s.active_waits[0].remaining_secs, 5);
    assert_eq!(s.protocol_version, PROTOCOL_VERSION);
}

#[test]
fn wait_answers_carry_the_highest_id_as_cursor() {
    let msgs = vec![message(4, "s", "a"), message(9, "s", "a"), message(2, "s", "a")];
    assert_eq!(compute_cursor(&msgs), Some(9));
    assert_eq!(compute_cursor(&vec![]), None);
    let w = wrap_wait(msgs, false, None, true, vec![]);
    assert_eq!(w.cursor, Some(9));
    assert!(w.closed);
}

fn keyed_send(sender: &str, text: &str, key: Option<&str>) -> tala::models::SendMessageRequest {
    tala::models::SendMessageRequest {
        sender: sender.to_string(),
        content: Some(text.to_string()),
        parts: None,
        idempotency_key: key.map(|k| k.to_string()),
        intent: None,
        reply_to: None,
        expect_reply: false,
        wait_timeout: None,
    }
}

fn started_session(store: &mut tala::store::Store) -> String {
    let req = tala::models::CreateSessionRequest { message: None, sender: Some("starter".into()), name: None };
    tala::api::create_session_request(store, req).unwrap().id
}

#[test]
fn e2e_test_idempotency_dedup_and_conflict() {
    let mut store = tala::store::Store::new();
    let sess = started_session(&mut store);

    let (status, first) = tala::api::send_message(&mut store, &sess, keyed_send("wire-agent", "hello", Some("k1"))).unwrap();
    assert_eq!(status, 201, "first send should store");
    assert!(!first.duplicate);

    let (status, dup) = tala::api::send_message(&mut store, &sess, keyed_send("wire-agent", "hello", Some("k1"))).unwrap();
    assert_eq!(status, 200, "duplicate should return OK");
    assert!(dup.duplicate, "duplicate flag set");
    assert_eq!(dup.id, first.id, "original message id returned");
    assert_eq!(dup.session_id, first.session_id);

    let conflict = tala::api::send_message(&mut store, &sess, keyed_send("wire-agent", "different", Some("k1"))).unwrap_err();
    assert_eq!(conflict.status, 409, "key conflict should fail");
    assert!(conflict.error.contains("conflict"), "conflict named: {}", conflict.error);

    let missing = tala::api::send_message(&mut store, &sess, keyed_send("wire-agent", "no-key", None)).unwrap_err();
    assert_eq!(missing.status, 400, "missing key rejected");

    assert_eq!(store.get_messages_since(&sess, 0).len(), 1);
}

#[test]
fn test_idempotency_survives_daemon_restart() {
    let mut store = tala::store::Store::new();
    let sess = started_session(&mut store);
    let (status, _) = tala::api::send_message(&mut store, &sess, keyed_send("wire-agent", "once", Some("k9"))).unwrap();
    assert_eq!(status, 201, "first send should store");

    let (sessions, lists, nexts) = store.snapshot();
    let mut restarted = tala::store::Store::new();
    restarted.load_persisted(sessions, lists, nexts);
    let (status, dup) = tala::api::send_message(&mut restarted, &sess, keyed_send("wire-agent", "once", Some("k9"))).unwrap();
    assert_eq!(status, 200, "dedup must survive restart");
    assert!(dup.duplicate);
    assert_eq!(restarted.get_messages_since(&sess, 0).len(), 1, "retry after restart must not duplicate");
}

#[test]
fn incoming_session_prefers_the_freshest_and_falls_back_to_engaged_sessions() {
    let mut store = Store::new();
    store.create_session_with_id_at("sess_old".into(), None, None, 1_000_000);
    store.add_message_at("sess_old", "other", "early", 2_000_000);
    store.create_session_with_id_at("sess_fresh".into(), None, None, 1_000_000);
    store.add_message_at("sess_fresh", "other", "late", 5_000_000);
    store.create_session_with_id_at("sess_engaged".into(), None, None, 1_000_000);
    store.add_message_at("sess_engaged", "me", "question", 3_000_000);
    store.add_message_at("sess_engaged", "other", "answer", 9_000_000);
    // Never-seen sessions win over engaged ones, freshest first.
    let seen = vec![("sess_engaged".to_string(), 1u64)];
    assert_eq!(find_incoming_session(&store, "me", &seen).unwrap().0, "sess_fresh");
    // With the never-seen ones known, the engaged session's unread answer is offered.
    let known = vec![
        ("sess_engaged".to_string(), 1u64),
        ("sess_old".to_string(), 1u64),
        ("sess_fresh".to_string(), 1u64),
    ];
    let (sid, m) = find_incoming_session(&store, "me", &known).unwrap();
    assert_eq!(sid, "sess_engaged");
    assert_eq!(m.id, 2);
    // Once that answer is read, nothing is left.
    let caught_up = vec![
        ("sess_engaged".to_string(), 2u64),
        ("sess_old".to_string(), 1u64),
        ("sess_fresh".to_string(), 1u64),
    ];
    assert!(find_incoming_session(&store, "me", &caught_up).is_none());
}

#[test]
fn a_zero_timeout_waits_without_limit() {
    assert_eq!(tala::waiting::time_limit(0), None);
    assert_eq!(tala::waiting::time_limit(30), Some(30));
}

#[test]
fn an_observation_ends_with_a_timeout_event() {
    assert_eq!(tala::observe::observe_timed_out(2), "{\"timeout\":true,\"timeout_after\":2}");
    let mut st = tala::requests::ListenState::new();
    let step = st.step(&tala::observe::observe_timed_out(2), &None, false, false);
    assert!(step.timed_out && st.timed_out);
    assert_eq!(st.message_count, 0);
}

#[test]
fn session_ids_have_their_form() {
    let mut store = Store::new();
    assert!(store.has_session_room());
    let (id, first) = store.create_session(None, None);
    assert_eq!(first, None);
    assert_eq!(id.len(), 10);
    assert!(id.starts_with("sess_"));
    assert!(id[5..].chars().all(|c| c.is_ascii_lowercase() || c.is_ascii_digit()));
    assert_eq!(tala::session_ids::numbered_session_id(0), "sess_aaaaa");
    assert_eq!(tala::session_ids::numbered_session_id(35), "sess_aaaa9");
    assert_eq!(tala::session_ids::numbered_session_id(36), "sess_aaaba");
    assert_eq!(tala::session_ids::numbered_session_id(60466175), "sess_99999");
}
