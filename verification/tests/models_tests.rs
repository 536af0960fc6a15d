use tala::models::{Intent, Message, Part};

fn message(parts: Vec<Part>) -> Message {
    Message {
        id: 1,
        session_id: "s".into(),
        sender: "a".into(),
        parts,
        timestamp: 0,
        intent: Intent::Req,
        reply_to: None,
        expect_reply: false,
        waiting_until: None,
        idempotency_key: None,
    }
}

#[test]
fn test_message_snippet_and_match() {
    let msg = message(vec![
        Part::Text { content: "please check parse_row".into() },
        Part::File { path: "x".into(), label: None },
    ]);
    assert_eq!(msg.snippet(), "please check parse_row");
    assert!(msg.matches("parse_row"));
    assert!(!msg.matches("src/api.rs"));

    let file_only = Message { parts: vec![Part::File { path: "x".into(), label: None }], ..msg };
    assert_eq!(file_only.snippet(), "[file]");
    assert!(!file_only.matches("anything"));
    assert_eq!(file_only.render(), "[file: x]");
}

#[test]
fn text_content_joins_text_parts_with_line_breaks() {
    let msg = message(vec![
        Part::Text { content: "first".into() },
        Part::File { path: "src/lib.rs".into(), label: None },
        Part::Text { content: "second".into() },
    ]);
    assert_eq!(msg.text_content(), "first\nsecond");
    assert_eq!(message(vec![]).text_content(), "");
}

#[test]
fn intent_words_and_badges() {
    assert_eq!(Intent::from_str("req"), Some(Intent::Req));
    assert_eq!(Intent::from_str("fyi"), Some(Intent::Fyi));
    assert_eq!(Intent::from_str("reply"), Some(Intent::Reply));
    assert_eq!(Intent::from_str("out"), Some(Intent::Out));
    assert_eq!(Intent::from_str("REQ"), None);
    assert_eq!(Intent::Req.badge(), "REQ");
    assert_eq!(Intent::Reply.badge(), "REPLY");
    assert_eq!(Intent::default(), Intent::Fyi);
}

#[test]
fn part_placeholders() {
    assert_eq!(Part::Text { content: "t".into() }.placeholder(), "[text]");
    assert_eq!(Part::File { path: "p".into(), label: None }.placeholder(), "[file]");
    assert_eq!(Part::Data { value: "{}".into(), label: None }.placeholder(), "[data]");
}

#[test]
fn matching_looks_only_at_text_parts() {
    let msg = message(vec![
        Part::Data { value: "{\"needle\":1}".into(), label: None },
        Part::Text { content: "hay".into() },
    ]);
    assert!(!msg.matches("needle"));
    assert!(msg.matches("ay"));
    assert!(msg.matches(""));
    assert_eq!(msg.snippet(), "hay");
}
