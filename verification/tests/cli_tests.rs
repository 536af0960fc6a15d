use tala::commands::{
    command_is_read_only, command_json_output, compat_verdict, daemon_url, resolve_send_args, Commands,
    CompatVerdict, SessionCommands, EXIT_TIMEOUT,
};
use tala::display::{
    clock_time, format_entry_line, format_listen_line, format_pending, format_wait_line, intent_badge,
    render_deadline_at, scope_description, timeout_label, unread_count,
};
use tala::locations::{
    cursors_path, join_path, local_active_session_path, local_config_path, messages_path, percent_encode,
    sessions_path, urlencoding, get_sender_name,
};
use tala::models::{Intent, Message, ObserveEvent, Part, PendingObligation, SessionSummary, WaitResponse, WaitScope};
use tala::requests::{
    messages_query, observe_path, recap_path, reply_wait_path, seen_param, wait_new_path, wait_new_stream_path,
    wait_since, wait_stream_path, ListenState,
};
use tala::sends::{
    check_part_mix, check_sender, close_failure_code, parse_parts, rename_failure_code, reply_timeout,
    resolve_expect_reply, resolve_intent, send_failure, send_request, uncorrelated_reply,
};
use tala::sse::{classify_event, next_block, parse_block, EventKind, WaitEvent, WaitTally};
use tala::targets::{
    active_closed, default_session, nothing_to_send, open_sessions, resolve_session_ref, send_fallback, send_target, use_target,
    wait_fallback, SendFallback, SendTarget, WaitFallback,
};

fn summary(id: &str, name: Option<&str>, closed: bool) -> SessionSummary {
    SessionSummary {
        id: id.into(),
        name: name.map(|n| n.to_string()),
        created_at: 0,
        closed,
        message_count: 3,
        read_by: vec![],
    }
}

fn message(id: u64, sender: &str) -> Message {
    Message {
        id,
        session_id: "sess_a".into(),
        sender: sender.into(),
        parts: vec![Part::Text { content: "hi".into() }],
        timestamp: 3_723_000_000,
        intent: Intent::Req,
        reply_to: None,
        expect_reply: false,
        waiting_until: None,
        idempotency_key: None,
    }
}

#[test]
fn read_only_commands_and_json_flags() {
    assert!(command_is_read_only(&Commands::Status { json: false }));
    assert!(command_is_read_only(&Commands::Stop));
    assert!(command_is_read_only(&Commands::Use { session_id: None, clear: false, json: false }));
    assert!(!command_is_read_only(&Commands::List { json: false }));
    assert!(command_json_output(&Commands::List { json: true }));
    assert!(!command_json_output(&Commands::Stop));
    assert!(command_json_output(&Commands::Session { command: SessionCommands::Create { name: None, json: true } }));
    assert_eq!(EXIT_TIMEOUT, 3);
}

#[test]
fn send_positionals_are_read_by_shape() {
    assert_eq!(resolve_send_args(Some("hello".into()), None, None), (None, Some("hello".into())));
    assert_eq!(resolve_send_args(Some("sess_ab".into()), None, None), (Some("sess_ab".into()), None));
    assert_eq!(
        resolve_send_args(Some("plan".into()), None, Some("hello".into())),
        (Some("plan".into()), Some("hello".into()))
    );
    assert_eq!(
        resolve_send_args(Some("hello".into()), Some("sess_x".into()), None),
        (Some("sess_x".into()), Some("hello".into()))
    );
}

#[test]
fn compatibility_gate_warns_or_fails() {
    let list = Commands::List { json: false };
    assert!(matches!(compat_verdict(&list, None), CompatVerdict::Proceed));
    assert!(matches!(compat_verdict(&list, Some(tala::models::PROTOCOL_VERSION)), CompatVerdict::Proceed));
    match compat_verdict(&list, Some(0)) {
        CompatVerdict::Fail(m) => assert_eq!(
            m,
            "daemon protocol version 0 is incompatible with this tala (requires 1). Restart the daemon with `tala stop` and retry, or upgrade tala."
        ),
        other => panic!("expected a failure, got {:?}", other),
    }
    assert!(matches!(compat_verdict(&Commands::Status { json: true }, Some(0)), CompatVerdict::Warn(_)));
}

#[test]
fn urls_and_paths() {
    assert_eq!(daemon_url("127.0.0.1", 8080, "/api/status"), "http://127.0.0.1:8080/api/status");
    assert_eq!(local_config_path(), ".tala/config.json");
    assert_eq!(local_active_session_path(), ".tala/active-session");
    assert_eq!(cursors_path(), ".tala/cursors.json");
    assert_eq!(sessions_path("/h/.tala"), "/h/.tala/sessions.json");
    assert_eq!(messages_path("/h/.tala/"), "/h/.tala/messages.json");
    assert_eq!(join_path("", "x"), "x");
    assert_eq!(get_sender_name(Some("o"), Some("c".into()), "d".into()), "o");
    assert_eq!(get_sender_name(None, Some("c".into()), "d".into()), "c");
    assert_eq!(get_sender_name(None, None, "d".into()), "d");
}

#[test]
fn encodings() {
    assert_eq!(percent_encode("a b/{\"k\":1}~"), "a%20b%2F%7B%22k%22%3A1%7D~");
    assert_eq!(percent_encode("é"), "%C3%A9");
    assert_eq!(urlencoding("a b#c&d=e+f%"), "a%20b%23c%26d%3De%2Bf%");
}

#[test]
fn session_references_resolve_by_name_id_or_prefix() {
    let sessions = vec![
        summary("sess_abc", Some("plan"), false),
        summary("sess_abd", Some("dup"), false),
        summary("sess_xyz", Some("dup"), true),
    ];
    assert_eq!(resolve_session_ref(&sessions, "plan", "send"), Ok("sess_abc".to_string()));
    assert_eq!(resolve_session_ref(&sessions, "sess_xyz", "send"), Ok("sess_xyz".to_string()));
    assert_eq!(resolve_session_ref(&sessions, "sess_x", "send"), Ok("sess_xyz".to_string()));
    assert_eq!(
        resolve_session_ref(&sessions, "dup", "send"),
        Err("Multiple sessions named 'dup': sess_abd, sess_xyz. Use session ID instead.".to_string())
    );
    assert_eq!(
        resolve_session_ref(&sessions, "sess_ab", "send"),
        Err("Multiple sessions match 'sess_ab': sess_abc, sess_abd. Use the full session ID.".to_string())
    );
    assert_eq!(
        resolve_session_ref(&sessions, "nope", "wait"),
        Err("session 'nope' not found. Use `tala wait <session-id>` or `tala use <session-id>` to target an existing session.".to_string())
    );
}

#[test]
fn use_targets_open_sessions_only() {
    let sessions = vec![
        summary("sess_abc", Some("plan"), false),
        summary("sess_abd", None, false),
        summary("sess_zzz", Some("old"), true),
    ];
    assert_eq!(use_target(&sessions, "plan").unwrap().id, "sess_abc");
    assert_eq!(use_target(&sessions, "sess_abd").unwrap().id, "sess_abd");
    assert_eq!(
        use_target(&sessions, "sess_ab").unwrap_err(),
        "Multiple sessions match 'sess_ab': sess_abc, sess_abd. Use a more specific ID."
    );
    assert_eq!(
        use_target(&sessions, "sess_z").unwrap_err(),
        "Session 'sess_zzz' is closed. Use `tala session reopen sess_zzz` to open it, then `tala use sess_zzz` to make it active"
    );
    assert_eq!(use_target(&sessions, "old").unwrap_err(), "No active session named or matching 'old'");
    assert_eq!(use_target(&sessions, "zzz").unwrap_err(), "No active session named or matching 'zzz'");
}

#[test]
fn default_session_needs_exactly_one_open() {
    let none: Vec<SessionSummary> = vec![];
    assert_eq!(default_session(&none, "close").unwrap_err(), "No active sessions. Start one with `tala send`");
    let one = vec![summary("sess_a", None, false)];
    assert_eq!(default_session(&one, "close"), Ok("sess_a".to_string()));
    let two = vec![summary("sess_a", None, false), summary("sess_b", None, false)];
    assert_eq!(
        default_session(&two, "close").unwrap_err(),
        "Multiple open sessions: sess_a, sess_b. Specify one with `tala close <session>` or set one with `tala use <session>`"
    );
    let mixed = vec![summary("sess_a", None, true), summary("sess_b", Some("n"), false)];
    assert_eq!(open_sessions(&mixed).len(), 1);
}

#[test]
fn send_fallbacks() {
    assert!(matches!(send_fallback(&vec![]), SendFallback::Create));
    assert!(matches!(send_fallback(&vec![summary("sess_a", None, false)]), SendFallback::Use(s) if s.id == "sess_a"));
    match send_fallback(&vec![summary("sess_a", None, false), summary("sess_b", Some("plan"), false)]) {
        SendFallback::Ambiguous(m) => assert_eq!(m, "No active session set.\n  sess_a  -\n  sess_b  plan\nSet one with `tala use <id>`"),
        other => panic!("expected ambiguity, got {:?}", other),
    }
    assert_eq!(
        nothing_to_send(&vec![summary("sess_a", Some("plan"), false)]),
        "Nothing to send. Use `tala session create` to create a session without a message.\nOpen session: sess_a plan. Set it with `tala use` or target it with `tala send --session <id>`."
    );
    assert_eq!(
        nothing_to_send(&vec![]),
        "Nothing to send. Use `tala session create` to create a session without a message."
    );
}

#[test]
fn part_flags() {
    let parts = parse_parts(&vec!["text:a:b".to_string(), "file:src/x.rs".to_string(), "data:{\"a\": [1, 2]}".to_string()]).unwrap();
    assert_eq!(parts.len(), 3);
    assert!(matches!(&parts[0], Part::Text { content } if content == "a:b"));
    assert!(matches!(&parts[1], Part::File { path, label: None } if path == "src/x.rs"));
    assert!(matches!(&parts[2], Part::Data { value, label: None } if value == "{\"a\":[1,2]}"));
    assert_eq!(parse_parts(&vec!["text:  ".to_string()]).unwrap_err(), "empty text part");
    assert_eq!(parse_parts(&vec!["file:".to_string()]).unwrap_err(), "empty file part");
    assert_eq!(
        parse_parts(&vec!["nocolon".to_string()]).unwrap_err(),
        "invalid --part 'nocolon': expected KIND:VALUE with kind text, file, or data"
    );
    assert_eq!(
        parse_parts(&vec!["text:ok".to_string(), "img:x".to_string()]).unwrap_err(),
        "invalid --part kind 'img': must be one of text, file, data"
    );
    assert!(parse_parts(&vec!["data:{".to_string()]).unwrap_err().starts_with("invalid --part data value '{': "));
}

#[test]
fn intent_precedence() {
    assert_eq!(resolve_intent(Some("out"), Some(1), true), Ok(Intent::Out));
    assert_eq!(resolve_intent(None, Some(1), true), Ok(Intent::Reply));
    assert_eq!(resolve_intent(None, None, true), Ok(Intent::Req));
    assert_eq!(resolve_intent(None, None, false), Ok(Intent::Fyi));
    assert_eq!(
        resolve_intent(Some("ask"), None, false).unwrap_err(),
        "invalid --intent 'ask': must be one of req, fyi, reply, out"
    );
    assert!(uncorrelated_reply(Intent::Reply, None));
    assert!(!uncorrelated_reply(Intent::Reply, Some(1)));
    assert_eq!(resolve_expect_reply(false, Some(1), true, false, Intent::Reply), Ok(true));
    assert_eq!(resolve_expect_reply(false, Some(1), true, true, Intent::Reply), Ok(false));
    assert!(resolve_expect_reply(true, None, false, true, Intent::Req).is_err());
    assert_eq!(resolve_expect_reply(true, None, false, true, Intent::Fyi), Ok(true));
}

#[test]
fn sender_and_content_checks() {
    assert!(check_sender(None, "me").is_ok());
    assert!(check_sender(Some("me"), "me").is_ok());
    assert_eq!(
        check_sender(Some("you"), "me").unwrap_err(),
        "Cannot send as 'you': this project is configured as agent 'me'. Use the configured identity or run from the other agent's project directory."
    );
    assert!(check_part_mix(1, true).is_err());
    assert!(check_part_mix(1, false).is_ok());
    assert_eq!(reply_timeout(Some(5), Some(9)), 5);
    assert_eq!(reply_timeout(None, Some(9)), 9);
    assert_eq!(reply_timeout(None, None), 60);
}

#[test]
fn send_request_carries_a_fresh_key() {
    let parts = vec![Part::Text { content: "x".into() }];
    let a = send_request("me".into(), &parts, Intent::Req, None, false, true, 30);
    let b = send_request("me".into(), &parts, Intent::Req, None, false, false, 30);
    assert_eq!(a.wait_timeout, Some(30));
    assert_eq!(b.wait_timeout, None);
    let key: Vec<char> = a.idempotency_key.as_ref().unwrap().chars().collect();
    assert_eq!(key.len(), 36);
    for (i, c) in key.iter().enumerate() {
        if [8, 13, 18, 23].contains(&i) {
            assert_eq!(*c, '-');
        } else {
            assert!(c.is_ascii_hexdigit() && !c.is_ascii_uppercase());
        }
    }
    assert_eq!(key[14], '4');
    assert!(['8', '9', 'a', 'b'].contains(&key[19]));
    assert_ne!(a.idempotency_key, b.idempotency_key);
}

#[test]
fn refused_sends_and_closes() {
    assert_eq!(
        send_failure("sess_a", "session is closed".into()),
        ("Session sess_a is closed. Use `tala session reopen sess_a` to reopen it.".to_string(), "SESSION_CLOSED")
    );
    assert_eq!(send_failure("sess_a", "gone".into()), ("gone".to_string(), "SESSION_NOT_FOUND"));
    assert_eq!(close_failure_code("session 'x' is already closed"), "SESSION_CLOSED");
    assert_eq!(close_failure_code("session 'x' not found"), "SESSION_NOT_FOUND");
    assert_eq!(rename_failure_code(409), "SESSION_NAME_TAKEN");
    assert_eq!(rename_failure_code(404), "SESSION_NOT_FOUND");
}

#[test]
fn badges_deadlines_and_times() {
    let mut m = message(3, "alice");
    assert_eq!(intent_badge(&m), "[REQ]");
    m.intent = Intent::Reply;
    m.reply_to = Some(1);
    assert_eq!(intent_badge(&m), "[REPLY→1]");
    assert_eq!(clock_time(3_723_000_000), "01:02:03");
    assert_eq!(clock_time(-1_000_000), "23:59:59");
    m.waiting_until = Some(90_000_000);
    assert_eq!(render_deadline_at(&m, true, 7_000_000), " (waiting, 83s left)");
    assert_eq!(render_deadline_at(&m, true, 215_000_000), " (wait expired 2m5s ago)");
    assert_eq!(render_deadline_at(&m, true, 95_000_000), " (wait expired 5s ago)");
    assert_eq!(render_deadline_at(&m, false, 95_000_000), "");
    assert_eq!(timeout_label(0), "no timeout");
    assert_eq!(timeout_label(30), "30s");
    assert_eq!(scope_description(&WaitScope::AnyNewSession), "a new session");
    assert_eq!(scope_description(&WaitScope::Session("sess_a".into())), "session sess_a");
}

#[test]
fn message_lines() {
    let m = message(3, "alice");
    assert_eq!(format_wait_line("sess_a", &m), "[sess sess_a] [3] [REQ]alice (01:02:03):\n    hi");
    assert_eq!(format_listen_line("plan", &m, 0), "[plan] [REQ] alice (01:02:03):");
    assert_eq!(format_entry_line(&m, 0, "", true, false), "[3] [REQ] alice (01:02:03):");
    assert_eq!(format_entry_line(&m, 0, "  ", false, true), "  [3] [REQ]alice (01:02:03):");
}

#[test]
fn pending_lines_say_who_owes_whom() {
    let o = PendingObligation {
        session_id: "sess_a".into(),
        session_name: None,
        message_id: 4,
        sender: "bob".into(),
        content: "help?".into(),
        content_full: Some("help?".into()),
        elapsed_seconds: 125,
        intent: Intent::Req,
        waiting_until: None,
    };
    assert_eq!(
        format_pending(&o, "me", 0),
        "[sess_a] [4] [REQ] bob: help?\n      unanswered for 2m 5 — answer with `tala send --reply-to 4`"
    );
    let mine = PendingObligation { sender: "me".into(), elapsed_seconds: 7, waiting_until: Some(10_000_000), ..o };
    assert_eq!(
        format_pending(&mine, "me", 0),
        "[sess_a] [4] [REQ] me (waiting, 10s left): help?\n      unanswered for 7 — awaiting reply from me"
    );
}

#[test]
fn unread_counts_skip_own_messages() {
    let msgs = vec![message(1, "me"), message(2, "you"), message(3, "you")];
    assert_eq!(unread_count(&msgs, Some("me")), 2);
    assert_eq!(unread_count(&msgs, None), 3);
}

#[test]
fn request_paths() {
    assert_eq!(
        wait_stream_path("sess_a", 4, 60, "me", "me", Some(0), Some("bob")),
        "/api/sessions/sess_a/wait-stream?since=4&timeout_secs=60&identity=me&sender=me&from=bob"
    );
    assert_eq!(
        wait_stream_path("sess_a", 4, 60, "me", "me", Some(2), None),
        "/api/sessions/sess_a/wait-stream?since=4&timeout_secs=60&identity=me&sender=me&limit=2"
    );
    assert_eq!(reply_wait_path("sess_a", 7, 30, "me"), "/api/sessions/sess_a/wait-stream?since=7&timeout_secs=30&reply_to=7&identity=me");
    assert_eq!(recap_path("sess_a", None, "me", None, Some(3)), "/api/sessions/sess_a/recap?since=0&sender=me&limit=3");
    assert_eq!(
        observe_path(None, "{\"s\":1}", Some("a b"), None, Some("team"), None),
        "/api/observe?since=0&since_map=%7B%22s%22%3A1%7D&match=a%20b&channel=team&timeout_secs=60"
    );
    assert_eq!(observe_path(Some(5), "{}", None, Some("x"), None, Some(0)), "/api/observe?since=5&from=x&timeout_secs=0");
    assert_eq!(seen_param(0, "{}"), "");
    assert_eq!(seen_param(1, "{\"a\":1}"), "&seen=%7B%22a%22%3A1%7D");
    assert_eq!(wait_new_stream_path(60, "me", Some("me"), ""), "/api/sessions/wait-new-stream?timeout_secs=60&identity=me&sender=me");
    assert_eq!(wait_new_path(10, None, "&seen=x"), "/api/sessions/wait-new?timeout_secs=10&seen=x");
    assert_eq!(messages_query("sess_a", 2, Some("me")), "/api/sessions/sess_a/messages?since=2&sender=me");
    assert_eq!(wait_since(Some(3), &vec![message(9, "x")]), 3);
    assert_eq!(wait_since(None, &vec![message(9, "x"), message(4, "x")]), 9);
    assert_eq!(wait_since(None, &vec![]), 0);
}

#[test]
fn event_blocks_are_cut_and_read() {
    assert_eq!(next_block("event: x\ndata: 1"), None);
    let (block, rest) = next_block("event: result\ndata: {\"a\":1}\n\nevent: m").unwrap();
    assert_eq!(block, "event: result\ndata: {\"a\":1}");
    assert_eq!(rest, "event: m");
    assert_eq!(parse_block(&block), ("result".to_string(), "{\"a\":1}".to_string()));
    assert_eq!(parse_block("data: one\r\ndata: two"), ("message".to_string(), "two".to_string()));
    assert_eq!(parse_block(": comment"), ("message".to_string(), String::new()));
    assert_eq!(classify_event("overlap"), EventKind::Overlap);
    assert_eq!(classify_event("result"), EventKind::Result);
    assert_eq!(classify_event("closed"), EventKind::Closed);
    assert_eq!(classify_event("hint"), EventKind::Other);
}

#[test]
fn wait_streams_fold_into_one_answer() {
    let mut t = WaitTally::new();
    t.step(WaitEvent::Message(message(5, "bob")));
    t.step(WaitEvent::Message(message(6, "bob")));
    t.step(WaitEvent::Result(WaitResponse {
        messages: vec![],
        timeout: false,
        timeout_after: None,
        closed: false,
        cursor: None,
        overlaps: vec![],
    }));
    let r = t.finish();
    assert_eq!(r.messages.iter().map(|m| m.id).collect::<Vec<_>>(), vec![5, 6]);
    assert_eq!(r.cursor, Some(6));
    let mut t = WaitTally::new();
    t.step(WaitEvent::TimedOut(Some(30)));
    t.step(WaitEvent::Closed);
    let r = t.finish();
    assert!(r.timeout && r.closed);
    assert_eq!(r.timeout_after, Some(30));
}

#[test]
fn listen_counts_messages_and_notes_cursors() {
    let mut st = ListenState::new();
    let evt = Some(ObserveEvent {
        session_id: "sess_a".into(),
        session_name: None,
        kind: "message".into(),
        message: Some(message(4, "bob")),
    });
    let step = st.step("{\"type\":\"message\"}", &evt, false, false);
    assert_eq!(step.cursor, Some(("sess_a".to_string(), 4)));
    assert!(!step.overload && !step.timed_out);
    assert_eq!(st.message_count, 1);
    assert_eq!(st.max_by_session, vec![("sess_a".to_string(), 4)]);
    let replay = st.step("{}", &evt, true, false);
    assert_eq!(replay.cursor, None);
    let over = st.step("{\"overload\":true}", &None, false, false);
    assert!(over.overload);
    let timeout = st.step("{\"timeout\":true}", &None, false, true);
    assert!(timeout.timed_out && st.timed_out);
    assert_eq!(st.message_count, 2);
}

#[test]
fn active_session_files_are_trimmed() {
    assert_eq!(tala::locations::active_session_of("  sess_ab12c\n"), Some("sess_ab12c".to_string()));
    assert_eq!(tala::locations::active_session_of(" \n\t"), None);
    assert_eq!(tala::locations::active_session_of(""), None);
    assert_eq!(tala::text::trim("\u{3000} a b \t"), "a b");
}

#[test]
fn home_and_session_lines() {
    assert_eq!(tala::locations::home_display("/h/.tala", None), "/h/.tala");
    assert_eq!(tala::locations::home_display("/x", Some("/x".into())), "/x (from TALA_HOME=/x)");
    let s = summary("sess_1", Some("alpha"), false);
    assert_eq!(tala::display::active_line(&s), "Active session: sess_1  (alpha)  3 msgs");
    let t = summary("sess_2", None, false);
    assert_eq!(tala::display::session_choice(&t), "  sess_2  -  3 msgs");
}

#[test]
fn status_lists_waits() {
    let w = tala::models::ActiveWaitInfo {
        identity: "bob".into(),
        scope: WaitScope::Session("sess_1".into()),
        since: 0,
        deadline: 0,
        remaining_secs: 42,
    };
    assert_eq!(tala::display::wait_status_line(&w), "    bob  → session sess_1  (42s left)");
}

#[test]
fn data_parts_take_the_json_reading() {
    match tala::sends::data_part("{\"a\": 1}", Ok("{\"a\":1}".to_string())) {
        Ok(Part::Data { value, label }) => {
            assert_eq!(value, "{\"a\":1}");
            assert_eq!(label, None);
        }
        other => panic!("expected a data part, got {:?}", other),
    }
    let err = tala::sends::data_part("nope", Err("expected value at line 1 column 1".to_string())).unwrap_err();
    assert_eq!(err, "invalid --part data value 'nope': expected value at line 1 column 1");
}

#[test]
fn header_and_agent_lines_take_the_shown_time() {
    let s = tala::models::Session { id: "sess_z".into(), name: None, created_at: 0, last_activity: 0, closed: false };
    assert_eq!(tala::display::recap_header_text(&s, "2024-01-01 00:00:00"), "session: sess_z  |  created: 2024-01-01 00:00:00  |  closed: false");
    let a = tala::models::AgentSummary { sender: "eve".into(), last_seen: 0, message_count: 12 };
    assert_eq!(tala::display::agent_line_text(&a, "T"), "  └ eve  last: T UTC  12 msgs");
}

#[test]
fn listen_replay_leaves_cursors_alone() {
    let mut st = ListenState::new();
    let evt = Some(ObserveEvent {
        session_id: "sess_r".into(),
        session_name: None,
        kind: "message".into(),
        message: Some(message(7, "bob")),
    });
    let step = st.step("{\"type\":\"message\"}", &evt, true, false);
    assert_eq!(step.cursor, None);
    assert!(st.max_by_session.is_empty());
    assert_eq!(st.message_count, 1);
}

#[test]
fn wait_chooses_among_open_sessions() {
    assert!(matches!(wait_fallback(&vec![]), WaitFallback::AwaitNew));
    assert!(matches!(wait_fallback(&vec![summary("sess_a", None, false)]), WaitFallback::Only(s) if s.id == "sess_a"));
    assert!(matches!(
        wait_fallback(&vec![summary("sess_a", None, false), summary("sess_b", None, false)]),
        WaitFallback::Choose
    ));
}

#[test]
fn send_targets_in_order() {
    let id = Some("sess_x".to_string());
    let name = Some("plan".to_string());
    let active = Some("sess_act".to_string());
    match send_target(&id, &name, &active) {
        SendTarget::Conflict(m) => {
            assert_eq!(m, "--name creates a new session; it cannot be combined with an explicit session target")
        }
        other => panic!("unexpected {:?}", other),
    }
    assert!(matches!(send_target(&id, &None, &active), SendTarget::Explicit(s) if s == "sess_x"));
    assert!(matches!(send_target(&None, &name, &active), SendTarget::CreateNamed(s) if s == "plan"));
    assert!(matches!(send_target(&None, &None, &active), SendTarget::Active(s) if s == "sess_act"));
    assert!(matches!(send_target(&None, &None, &None), SendTarget::Fallback));
    assert_eq!(
        active_closed("sess_q"),
        "Session sess_q is closed. Use `tala session reopen sess_q` to reopen it."
    );
}
