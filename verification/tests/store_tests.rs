use tala::locations::{get_default_sender, tala_home};
use tala::models::{Intent, Message, Part, WaitScope};
use tala::store::{AddMessageParams, AddMessageResult, Store};
use tala::waits::scopes_overlap;

fn text(s: &str) -> Part {
    Part::Text { content: s.to_string() }
}

fn msg(id: u64, sender: &str, intent: Intent, reply_to: Option<u64>) -> Message {
    Message {
        id,
        session_id: "s".into(),
        sender: sender.into(),
        parts: vec![text(&format!("m{}", id))],
        timestamp: 0,
        intent,
        reply_to,
        expect_reply: false,
        waiting_until: None,
        idempotency_key: None,
    }
}

fn params(sender: &str, content: &str, intent: Intent) -> AddMessageParams {
    AddMessageParams {
        sender: sender.into(),
        parts: vec![text(content)],
        intent,
        ..AddMessageParams::default()
    }
}

#[test]
fn test_store_create_session() {
    let mut store = Store::new();
    let (id, _) = store.create_session(None, None);
    assert!(id.starts_with("sess_"), "session ID should start with sess_");
    let session = store.get_session(&id);
    assert!(session.is_some());
    assert_eq!(session.unwrap().id, id);
}

#[test]
fn test_store_add_and_retrieve_messages() {
    let mut store = Store::new();
    let (id, _) = store.create_session(None, None);
    let m = store.add_message(&id, "agent-a", "hello");
    assert!(m.is_some());
    assert_eq!(m.unwrap().id, 1);
    let m = store.add_message(&id, "agent-b", "reply");
    assert!(m.is_some());
    assert_eq!(m.unwrap().id, 2);
    let messages = store.get_messages_since(&id, 0);
    assert_eq!(messages.len(), 2);
    assert_eq!(messages[0].text_content(), "hello");
    assert_eq!(messages[1].text_content(), "reply");
}

#[test]
fn test_store_messages_since() {
    let mut store = Store::new();
    let (id, _) = store.create_session(None, None);
    store.add_message(&id, "a", "first");
    store.add_message(&id, "b", "second");
    store.add_message(&id, "a", "third");
    assert_eq!(store.get_messages_since(&id, 0).len(), 3);
    let since_1 = store.get_messages_since(&id, 1);
    assert_eq!(since_1.len(), 2);
    assert_eq!(since_1[0].text_content(), "second");
    assert!(store.get_messages_since(&id, 3).is_empty());
}

#[test]
fn test_store_close_session() {
    let mut store = Store::new();
    let (id, _) = store.create_session(None, None);
    assert!(store.close_session(&id));
    assert!(!store.close_session(&id));
    assert!(store.get_session(&id).unwrap().closed);
    assert!(store.add_message(&id, "a", "after close").is_none());
}

#[test]
fn test_store_list_sessions() {
    let mut store = Store::new();
    assert!(store.list_sessions().is_empty());
    store.create_session(None, None);
    store.create_session(None, None);
    assert_eq!(store.list_sessions().len(), 2);
}

#[test]
fn test_store_create_with_initial_message() {
    let mut store = Store::new();
    let (id, first) = store.create_session(Some(("init-agent".into(), "initial message".into())), None);
    assert_eq!(first, Some(1), "first message should have ID 1");
    let messages = store.get_messages_since(&id, 0);
    assert_eq!(messages.len(), 1);
    assert_eq!(messages[0].sender, "init-agent");
    assert_eq!(messages[0].text_content(), "initial message");
}

#[test]
fn test_get_default_sender() {
    let sender = get_default_sender(Some("project".to_string()));
    assert!(!sender.is_empty(), "default sender should not be empty");
    assert_eq!(get_default_sender(None), "unknown");
}

#[test]
fn test_derive_answered_correlated() {
    let msgs = vec![msg(1, "alpha", Intent::Req, None), msg(2, "beta", Intent::Reply, Some(1))];
    let (answered, closed) = Store::derive_answered(&msgs);
    assert!(answered.contains(&1));
    assert!(closed.is_empty());
}

#[test]
fn test_derive_answered_uncorrelated_reply_takes_oldest() {
    let msgs = vec![
        msg(1, "alpha", Intent::Req, None),
        msg(2, "alpha", Intent::Req, None),
        msg(3, "beta", Intent::Reply, None),
    ];
    let (answered, _) = Store::derive_answered(&msgs);
    assert!(answered.contains(&1));
    assert!(!answered.contains(&2), "oldest req answered, not the newest");
}

#[test]
fn test_derive_answered_out_closes_senders_requests() {
    let msgs = vec![
        msg(1, "alpha", Intent::Req, None),
        msg(2, "beta", Intent::Req, None),
        msg(3, "alpha", Intent::Out, None),
    ];
    let (_answered, closed) = Store::derive_answered(&msgs);
    assert!(closed.contains(&1), "alpha's out closes alpha's req");
    assert!(!closed.contains(&2), "beta's req untouched by alpha's out");
}

#[test]
fn test_scopes_overlap_rules() {
    let a = WaitScope::Session("x".into());
    let b = WaitScope::Session("x".into());
    let c = WaitScope::Session("y".into());
    let any = WaitScope::AnyNewSession;
    assert!(scopes_overlap(&a, &b));
    assert!(!scopes_overlap(&a, &c));
    assert!(scopes_overlap(&any, &a));
    assert!(scopes_overlap(&a, &any));
    assert!(!scopes_overlap(&any, &any), "new-session pairs suppressed");
}

#[test]
fn test_wait_registry_registers_prunes_and_guards() {
    let mut store = Store::new();
    let t0: i64 = 1_000_000_000;
    let (id, overlaps) = store.register_wait_at(WaitScope::Session("sess_a".into()), "alpha".into(), 60, t0);
    assert!(overlaps.is_empty());
    assert_eq!(store.list_active_waits_at(t0).len(), 1);
    let (_, overlaps2) = store.register_wait_at(WaitScope::Session("sess_a".into()), "beta".into(), 60, t0);
    assert_eq!(overlaps2.len(), 1);
    assert_eq!(overlaps2[0].identity, "alpha");
    let (_, overlaps3) = store.register_wait_at(WaitScope::Session("sess_b".into()), "gamma".into(), 60, t0);
    assert!(overlaps3.is_empty(), "different session: no overlap");
    store.unregister_wait(id);
    assert_eq!(store.list_active_waits_at(t0).len(), 2);
    // Expired entries are pruned on the next registration.
    let later = t0 + 61_000_000;
    let _ = store.register_wait_at(WaitScope::AnyNewSession, "delta".into(), 60, later);
    assert_eq!(store.list_active_waits_at(later).len(), 1);
}

#[test]
fn test_pending_obligations() {
    let mut store = Store::new();
    let (sid, _) = store.create_session(None, None);
    store.add_message_with(&sid, params("alpha", "help", Intent::Req));
    store.add_message_with(&sid, params("alpha", "answered req", Intent::Req));
    store.add_message_with(
        &sid,
        AddMessageParams { reply_to: Some(2), ..params("beta", "fixed", Intent::Reply) },
    );
    store.add_message_with(
        &sid,
        AddMessageParams { expect_reply: true, ..params("beta", "expecting more", Intent::Fyi) },
    );
    let pending = store.pending_obligations();
    assert_eq!(pending.len(), 2, "req 1 + expect_reply msg 4");
    let ids: Vec<u64> = pending.iter().map(|p| p.message_id).collect();
    assert!(ids.contains(&1));
    assert!(ids.contains(&4));
    store.close_session(&sid);
    assert!(store.pending_obligations().is_empty(), "closed sessions excluded");
}

#[test]
fn store_test_idempotency_dedup_and_conflict() {
    let mut store = Store::new();
    let (sid, _) = store.create_session(None, None);
    let keyed = || AddMessageParams {
        idempotency_key: Some("k1".into()),
        ..params("alpha", "retry me", Intent::Fyi)
    };
    let first = match store.add_message_with(&sid, keyed()) {
        AddMessageResult::Stored(m) => m,
        other => panic!("first send must store, got {:?}", other),
    };
    match store.add_message_with(&sid, keyed()) {
        AddMessageResult::Duplicate(m) => assert_eq!(m.id, first.id),
        other => panic!("expected Duplicate, got {:?}", other),
    }
    assert_eq!(store.get_messages_since(&sid, 0).len(), 1);
    let conflict = store.add_message_with(&sid, AddMessageParams { parts: vec![text("different")], ..keyed() });
    assert!(matches!(conflict, AddMessageResult::KeyConflict(_)));
    assert_eq!(store.get_messages_since(&sid, 0).len(), 1);
}

#[test]
fn test_tala_home() {
    let home = tala_home(None, Some("/home/me".to_string()));
    assert!(home.ends_with(".tala"), "tala home should end with .tala");
    assert_eq!(home, "/home/me/.tala");
    assert_eq!(tala_home(Some("/srv/t".to_string()), Some("/home/me".to_string())), "/srv/t");
    assert_eq!(tala_home(None, None), "/tmp/.tala");
    assert_eq!(tala_home(None, Some("/home/me/".to_string())), "/home/me/.tala");
}

#[test]
fn message_ids_count_up_per_session() {
    let mut store = Store::new();
    let (a, _) = store.create_session(None, None);
    let (b, _) = store.create_session(None, None);
    assert_eq!(store.add_message(&a, "x", "1").unwrap().id, 1);
    assert_eq!(store.add_message(&b, "x", "1").unwrap().id, 1);
    assert_eq!(store.add_message(&a, "x", "2").unwrap().id, 2);
}

#[test]
fn reopened_session_accepts_messages_again() {
    let mut store = Store::new();
    let (id, _) = store.create_session(None, None);
    assert!(store.close_session(&id));
    assert!(store.add_message(&id, "a", "refused").is_none());
    assert!(store.reopen_session(&id));
    assert!(!store.get_session(&id).unwrap().closed);
    assert_eq!(store.add_message(&id, "a", "accepted").unwrap().id, 1);
}

#[test]
fn unknown_session_is_unavailable() {
    let mut store = Store::new();
    assert!(store.add_message("sess_nope", "a", "x").is_none());
    assert!(matches!(store.add_message_with("sess_nope", params("a", "x", Intent::Fyi)), AddMessageResult::Unavailable));
    assert!(!store.close_session("sess_nope"));
    assert!(store.get_messages_since("sess_nope", 0).is_empty());
}

#[test]
fn read_receipts_never_go_down() {
    let mut store = Store::new();
    let (id, _) = store.create_session(None, None);
    store.record_read(&id, "bob", 5);
    store.record_read(&id, "bob", 3);
    let s = store.list_sessions();
    assert_eq!(s[0].read_by, vec![("bob".to_string(), 5)]);
    store.record_read(&id, "bob", 7);
    assert_eq!(store.list_sessions()[0].read_by, vec![("bob".to_string(), 7)]);
}

#[test]
fn rename_refuses_a_taken_name() {
    let mut store = Store::new();
    let (a, _) = store.create_session(None, Some("alpha".into()));
    let (b, _) = store.create_session(None, None);
    assert_eq!(store.rename_session(&b, "beta", false), Ok(true));
    let err = store.rename_session(&b, "alpha", false).unwrap_err();
    assert_eq!(err, "A session named 'alpha' already exists");
    assert_eq!(store.rename_session(&a, "alpha", false), Ok(true));
    assert_eq!(store.rename_session("sess_nope", "x", false), Ok(false));
    assert!(store.session_name_exists("beta"));
}

#[test]
fn filtered_messages_keep_the_newest() {
    let mut store = Store::new();
    let (id, _) = store.create_session(None, None);
    for (who, what) in [("a", "1"), ("b", "2"), ("a", "3"), ("a", "4"), ("b", "5")] {
        store.add_message(&id, who, what);
    }
    let from_a = store.get_messages_filtered(&id, 0, None, Some("a"));
    assert_eq!(from_a.iter().map(|m| m.id).collect::<Vec<_>>(), vec![1, 3, 4]);
    let tail = store.get_messages_filtered(&id, 0, Some(2), None);
    assert_eq!(tail.iter().map(|m| m.id).collect::<Vec<_>>(), vec![4, 5]);
    let after = store.get_messages_filtered(&id, 3, Some(10), Some("a"));
    assert_eq!(after.iter().map(|m| m.id).collect::<Vec<_>>(), vec![4]);
}

#[test]
fn recent_activity_follows_the_last_message() {
    let mut store = Store::new();
    assert!(!store.has_recent_activity_at(60, 0));
    let (id, _) = store.create_session_with_id_at("sess_one".into(), None, None, 1_000_000);
    assert_eq!(id, "sess_one");
    store.add_message_at(&id, "a", "hi", 10_000_000);
    assert!(store.has_recent_activity_at(60, 30_000_000));
    assert!(!store.has_recent_activity_at(5, 30_000_000));
}

#[test]
fn message_answers_only_the_message_that_closes_the_request() {
    let mut store = Store::new();
    let (id, _) = store.create_session(None, None);
    store.add_message_with(&id, params("alpha", "q", Intent::Req));
    let reply = match store.add_message_with(&id, AddMessageParams { reply_to: Some(1), ..params("beta", "a", Intent::Reply) }) {
        AddMessageResult::Stored(m) => m,
        other => panic!("expected a stored reply, got {:?}", other),
    };
    assert!(store.message_answers(&id, &reply, 1));
    let q = store.get_messages_since(&id, 0)[0].clone();
    assert!(!store.message_answers(&id, &q, 1));
}

#[test]
fn restart_restores_sessions_messages_and_ids() {
    let mut store = Store::new();
    let (a, _) = store.create_session(Some(("alice".into(), "first".into())), Some("alpha".into()));
    let (b, _) = store.create_session(None, None);
    store.add_message(&a, "bob", "second").unwrap();
    let keyed = AddMessageParams { idempotency_key: Some("k-1".into()), ..params("bob", "third", Intent::Fyi) };
    assert!(matches!(store.add_message_with(&a, keyed), AddMessageResult::Stored(_)));
    assert!(store.has_id_room(&a));
    assert!(store.has_id_room("sess_unknown"));
    assert!(store.has_wait_room());
    let (sessions, lists, nexts) = store.snapshot();
    assert_eq!(sessions.len(), 2);
    assert_eq!(lists.len(), 1);
    assert_eq!(nexts, vec![(a.clone(), 4), (b.clone(), 1)]);

    let mut restarted = Store::new();
    restarted.load_persisted(sessions, lists, nexts);
    assert_eq!(restarted.get_session(&a).unwrap().name, Some("alpha".to_string()));
    let msgs = restarted.get_messages_since(&a, 0);
    assert_eq!(msgs.iter().map(|m| m.id).collect::<Vec<_>>(), vec![1, 2, 3]);
    assert!(restarted.get_messages_since(&b, 0).is_empty());
    let next = restarted.add_message(&a, "alice", "fourth").unwrap();
    assert_eq!(next.id, 4);
    let retry = AddMessageParams { idempotency_key: Some("k-1".into()), ..params("bob", "third", Intent::Fyi) };
    assert!(matches!(restarted.add_message_with(&a, retry), AddMessageResult::Duplicate(_)));
}
