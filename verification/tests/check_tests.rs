use tala::checking::{advance_cursors, group_by_session, max_cursor, order_by_id};
use tala::display::{agent_line, format_date_time, group_heading, overlap_note, project_name, recap_header, unread_hint};
use tala::listing::{list_line, name_width, pending_in, read_suffix, sort_strings, waiting_on};
use tala::models::{ActiveWaitInfo, AgentSummary, Intent, Message, Part, PendingObligation, Session, SessionSummary, WaitScope};

fn message(id: u64, session: &str) -> Message {
    Message {
        id,
        session_id: session.into(),
        sender: "alice".into(),
        parts: vec![Part::Text { content: "hi".into() }],
        timestamp: 0,
        intent: Intent::Fyi,
        reply_to: None,
        expect_reply: false,
        waiting_until: None,
        idempotency_key: None,
    }
}

fn summary(id: &str, name: Option<&str>, closed: bool, count: usize) -> SessionSummary {
    SessionSummary {
        id: id.into(),
        name: name.map(|n| n.to_string()),
        created_at: 0,
        closed,
        message_count: count,
        read_by: vec![],
    }
}

fn pending(session: &str, id: u64) -> PendingObligation {
    PendingObligation {
        session_id: session.into(),
        session_name: None,
        message_id: id,
        sender: "bob".into(),
        content: "q".into(),
        content_full: Some("q".into()),
        elapsed_seconds: 1,
        intent: Intent::Req,
        waiting_until: None,
    }
}

fn wait(scope: WaitScope) -> ActiveWaitInfo {
    ActiveWaitInfo { identity: "bob".into(), scope, since: 0, deadline: 10, remaining_secs: 10 }
}

#[test]
fn strings_sort_in_code_point_order() {
    let sorted = sort_strings(vec!["b".to_string(), "a".to_string(), "ab".to_string(), "B".to_string()]);
    assert_eq!(sorted, vec!["B".to_string(), "a".to_string(), "ab".to_string(), "b".to_string()]);
    assert!(sort_strings(vec![]).is_empty());
}

#[test]
fn read_suffix_names_other_readers_sorted() {
    let receipts = vec![("bob".to_string(), 5), ("alice".to_string(), 3), ("me".to_string(), 9)];
    assert_eq!(read_suffix(&receipts, Some("me")), "  read: alice@3, bob@5");
    assert_eq!(read_suffix(&receipts, None), "  read: alice@3, bob@5, me@9");
    assert_eq!(read_suffix(&vec![("me".to_string(), 1)], Some("me")), "");
    assert_eq!(read_suffix(&vec![], None), "");
}

#[test]
fn name_column_is_at_least_four_bytes() {
    assert_eq!(name_width(&vec![]), 4);
    assert_eq!(name_width(&vec![summary("s1", None, false, 0), summary("s2", Some("ab"), false, 0)]), 4);
    assert_eq!(name_width(&vec![summary("s1", Some("alpha-long"), false, 0), summary("s2", None, true, 0)]), 10);
}

#[test]
fn list_lines_show_state_counts_and_marker() {
    let open = summary("sess_1", Some("ab"), false, 3);
    assert_eq!(list_line(&open, 4, 2, 1, 0, true, ""), "sess_1  ab    open  3 msgs (2 new, 1 pending) *");
    assert_eq!(list_line(&open, 2, 0, 0, 0, false, ""), "sess_1  ab  open  3 msgs  ");
    let closed = summary("sess_2", None, true, 0);
    assert_eq!(list_line(&closed, 5, 4, 4, 4, false, "  read: a@1"), "sess_2  -      closed  0 msgs    read: a@1");
}

#[test]
fn pending_and_waiting_counts_per_session() {
    let p = vec![pending("s1", 1), pending("s2", 2), pending("s1", 3)];
    assert_eq!(pending_in(&p, "s1"), 2);
    assert_eq!(pending_in(&p, "s3"), 0);
    let w = vec![wait(WaitScope::Session("s1".into())), wait(WaitScope::AnyNewSession), wait(WaitScope::Session("s2".into()))];
    assert_eq!(waiting_on(&w, "s1"), 1);
    assert_eq!(waiting_on(&w, "s9"), 0);
}

#[test]
fn check_advances_each_session_cursor() {
    let mut cursors = vec![("s1".to_string(), 2)];
    let fetched = vec![
        ("s1".to_string(), vec![message(3, "s1"), message(5, "s1")]),
        ("s2".to_string(), vec![message(1, "s2")]),
        ("s3".to_string(), vec![]),
    ];
    advance_cursors(&mut cursors, &fetched);
    assert_eq!(cursors, vec![("s1".to_string(), 5), ("s2".to_string(), 1)]);
    assert_eq!(max_cursor(&cursors), 5);
    assert_eq!(max_cursor(&vec![]), 0);
}

#[test]
fn check_groups_sessions_in_id_order() {
    let fetched = vec![
        ("s2".to_string(), vec![message(1, "s2")]),
        ("s1".to_string(), vec![message(2, "s1"), message(4, "s1")]),
        ("s3".to_string(), vec![]),
    ];
    let groups = group_by_session(&fetched);
    assert_eq!(groups.len(), 2);
    assert_eq!(groups[0].0, "s1");
    assert_eq!(groups[0].1.iter().map(|m| m.id).collect::<Vec<_>>(), vec![2, 4]);
    assert_eq!(groups[1].0, "s2");
}

#[test]
fn check_headings_and_hints() {
    assert_eq!(group_heading("alpha", 2), "[alpha] (2 new message(s))");
    assert_eq!(
        unread_hint(&vec!["s1".to_string(), "s2".to_string()]),
        "⟳ hint: 2 session(s) with an unread message (s1, s2) — run `tala check`"
    );
    assert_eq!(unread_hint(&vec![]), "");
}

#[test]
fn overlap_notes_name_the_other_waiter() {
    assert_eq!(
        overlap_note("bob", &WaitScope::Session("s1".into()), 30, true),
        "⟳ note: bob is waiting on session s1 (30s left) — this wait will not receive that session's messages"
    );
    assert_eq!(overlap_note("eve", &WaitScope::AnyNewSession, -2, false), "⟳ note: eve is waiting on a new session (-2s left)");
}

#[test]
fn project_names_fall_back_to_directory() {
    assert_eq!(project_name(Some("given".into()), Some("dir".into())), "given");
    assert_eq!(project_name(None, Some("dir".into())), "dir");
    assert_eq!(project_name(None, None), "project");
}

#[test]
fn dates_are_utc() {
    assert_eq!(format_date_time(0), "1970-01-01 00:00:00");
    assert_eq!(format_date_time(1_700_000_000_000_000), "2023-11-14 22:13:20");
    assert_eq!(format_date_time(i64::MAX), "");
    let s = Session { id: "sess_a".into(), name: None, created_at: 1_700_000_000_000_000, last_activity: 0, closed: true };
    assert_eq!(recap_header(&s), "session: sess_a  |  created: 2023-11-14 22:13:20  |  closed: true");
    let a = AgentSummary { sender: "bob".into(), last_seen: 0, message_count: 3 };
    assert_eq!(agent_line(&a), "  └ bob  last: 1970-01-01 00:00:00 UTC  3 msgs");
}

#[test]
fn check_lists_messages_by_id() {
    let msgs = vec![message(3, "s1"), message(1, "s2"), message(2, "s1"), message(1, "s1")];
    let ordered = order_by_id(msgs);
    assert_eq!(ordered.iter().map(|m| m.id).collect::<Vec<_>>(), vec![1, 1, 2, 3]);
    assert_eq!(ordered[0].session_id, "s2");
    assert_eq!(ordered[1].session_id, "s1");
    assert!(order_by_id(vec![]).is_empty());
}
