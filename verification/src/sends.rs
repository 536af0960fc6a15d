//! The rules of `tala send`: reading `--part` flags into parts, choosing
//! the intent and whether a reply is expected, the sender check, the
//! request it sends, and what a refused send reports.

use vstd::prelude::*;
use crate::models::{Intent, Part, PartView, SendMessageRequest, intent_named, parts_view, copy_parts};
use crate::seqs::{split_once, split_once_spec};
use crate::text::{blank, chars_of, contains_seq, is_blank, push_str, str_contains, str_eq, string_from_chars};

verus! {

broadcast use vstd::string::group_string_axioms;

/// What reading `text` as JSON gives: its compact JSON text, or the
/// reader's error message.
pub uninterp spec fn json_reading(text: Seq<char>) -> Result<Seq<char>, Seq<char>>;

/// Reads `text` as a JSON value and writes it back compactly
/// (`serde_json::from_str::<serde_json::Value>`, then its `Display`).
///
/// Trusted: the contract only names the outcome (`json_reading`): the same
/// text always gives the same value or the same error message.
#[verifier::external_body]
fn read_json(text: &str) -> (r: Result<String, String>)
    ensures
        match r {
            Ok(v) => json_reading(text@) == Ok::<Seq<char>, Seq<char>>(v@),
            Err(e) => json_reading(text@) == Err::<Seq<char>, Seq<char>>(e@),
        },
{
    match serde_json::from_str::<serde_json::Value>(text) {
        Ok(v) => Ok(v.to_string()),
        Err(e) => Err(e.to_string()),
    }
}

/// Whether `c` is a lower-case hexadecimal digit.
pub open spec fn lower_hex(c: char) -> bool {
    ('0' <= c && c <= '9') || ('a' <= c && c <= 'f')
}

/// Whether `s` reads as a random (version 4) UUID in lower-case hyphenated
/// form: 36 characters, hyphens at 8, 13, 18 and 23, hexadecimal digits
/// elsewhere, version digit `4` and an RFC 4122 variant digit.
pub open spec fn uuid_v4_text(s: Seq<char>) -> bool {
    &&& s.len() == 36
    &&& forall|i: int| 0 <= i < 36 ==> if i == 8 || i == 13 || i == 18 || i == 23 {
        s[i] == '-'
    } else {
        lower_hex(#[trigger] s[i])
    }
    &&& s[14] == '4'
    &&& (s[19] == '8' || s[19] == '9' || s[19] == 'a' || s[19] == 'b')
}

/// A fresh idempotency key (`uuid::Uuid::new_v4`, written hyphenated).
///
/// Trusted: the contract claims the form that `new_v4` and the hyphenated
/// lower-case `Display` of `Uuid` give; which key comes out is random.
#[verifier::external_body]
fn new_key() -> (r: String)
    ensures
        uuid_v4_text(r@),
{
    uuid::Uuid::new_v4().to_string()
}

/// The data part of a `data:` value given how it read as JSON: the compact
/// JSON text, or an error naming the value and the reader's message.
pub open spec fn data_part_spec(v: Seq<char>, reading: Result<Seq<char>, Seq<char>>) -> Result<PartView, Seq<char>> {
    match reading {
        Ok(j) => Ok(PartView::Data { value: j, label: None }),
        Err(e) => Err("invalid --part data value '"@ + v + "': "@ + e),
    }
}

/// The data part of the `data:` value `value`, given what reading it as
/// JSON gave (see `data_part_spec`).
pub fn data_part(value: &str, reading: Result<String, String>) -> (r: Result<Part, String>)
    ensures
        match data_part_spec(value@, match reading { Ok(j) => Ok(j@), Err(e) => Err(e@) }) {
            Ok(p) => r matches Ok(x) && x@ == p,
            Err(e) => r matches Err(m) && m@ == e,
        },
{
    proof {
        reveal_strlit("invalid --part data value '");
        reveal_strlit("': ");
    }
    match reading {
        Ok(j) => Ok(Part::Data { value: j, label: None }),
        Err(e) => {
            let mut m = String::new();
            push_str(&mut m, "invalid --part data value '");
            push_str(&mut m, value);
            push_str(&mut m, "': ");
            push_str(&mut m, e.as_str());
            Err(m)
        },
    }
}

/// What one `--part KIND:VALUE` flag gives: the value is everything after
/// the first colon; `text` must not be blank, `file` not empty, and `data`
/// must read as JSON (kept in compact form).
pub open spec fn part_spec(a: Seq<char>) -> Result<PartView, Seq<char>> {
    match split_once_spec(a, ':') {
        None => Err("invalid --part '"@ + a + "': expected KIND:VALUE with kind text, file, or data"@),
        Some((k, v)) => if k == "text"@ {
            if blank(v) { Err("empty text part"@) } else { Ok(PartView::Text { content: v }) }
        } else if k == "file"@ {
            if v.len() == 0 { Err("empty file part"@) } else { Ok(PartView::File { path: v, label: None }) }
        } else if k == "data"@ {
            data_part_spec(v, json_reading(v))
        } else {
            Err("invalid --part kind '"@ + k + "': must be one of text, file, data"@)
        },
    }
}

/// What the `--part` flags give: the parts in order, or the error of the
/// first flag that fails.
pub open spec fn parts_spec(args: Seq<Seq<char>>) -> Result<Seq<PartView>, Seq<char>>
    decreases args.len(),
{
    if args.len() == 0 {
        Ok(Seq::empty())
    } else {
        match parts_spec(args.drop_last()) {
            Err(e) => Err(e),
            Ok(ps) => match part_spec(args.last()) {
                Ok(p) => Ok(ps.push(p)),
                Err(e) => Err(e),
            },
        }
    }
}

/// The views of strings.
pub open spec fn strings_of(v: Seq<String>) -> Seq<Seq<char>> {
    Seq::new(v.len(), |i: int| v[i]@)
}

/// Reads one `--part` flag (see `part_spec`).
fn parse_part(a: &String) -> (r: Result<Part, String>)
    ensures
        match part_spec(a@) {
            Ok(p) => r matches Ok(x) && x@ == p,
            Err(e) => r matches Err(m) && m@ == e,
        },
{
    proof {
        reveal_strlit("invalid --part '");
        reveal_strlit("': expected KIND:VALUE with kind text, file, or data");
        reveal_strlit("text");
        reveal_strlit("file");
        reveal_strlit("data");
        reveal_strlit("empty text part");
        reveal_strlit("empty file part");
        reveal_strlit("invalid --part data value '");
        reveal_strlit("': ");
        reveal_strlit("invalid --part kind '");
        reveal_strlit("': must be one of text, file, data");
    }
    let v = chars_of(a.as_str());
    match split_once(&v, ':') {
        None => {
            let mut m = String::new();
            push_str(&mut m, "invalid --part '");
            push_str(&mut m, a.as_str());
            push_str(&mut m, "': expected KIND:VALUE with kind text, file, or data");
            assert(m@ =~= "invalid --part '"@ + a@ + "': expected KIND:VALUE with kind text, file, or data"@);
            Err(m)
        },
        Some((k, val)) => {
            let kind = string_from_chars(&k);
            let value = string_from_chars(&val);
            if str_eq(kind.as_str(), "text") {
                if is_blank(value.as_str()) {
                    Err("empty text part".to_string())
                } else {
                    Ok(Part::Text { content: value })
                }
            } else if str_eq(kind.as_str(), "file") {
                if val.len() == 0 {
                    Err("empty file part".to_string())
                } else {
                    Ok(Part::File { path: value, label: None })
                }
            } else if str_eq(kind.as_str(), "data") {
                let reading = read_json(value.as_str());
                data_part(value.as_str(), reading)
            } else {
                let mut m = String::new();
                push_str(&mut m, "invalid --part kind '");
                push_str(&mut m, kind.as_str());
                push_str(&mut m, "': must be one of text, file, data");
                assert(m@ =~= "invalid --part kind '"@ + k@ + "': must be one of text, file, data"@);
                Err(m)
            }
        },
    }
}

/// Reads the `--part KIND:VALUE` flags into parts, in order; the first
/// flag that fails gives the error (code `INVALID_PART`).
pub fn parse_parts(args: &Vec<String>) -> (r: Result<Vec<Part>, String>)
    ensures
        match parts_spec(strings_of(args@)) {
            Ok(ps) => r matches Ok(v) && parts_view(v@) == ps,
            Err(e) => r matches Err(m) && m@ == e,
        },
{
    let ghost av = strings_of(args@);
    let mut out: Vec<Part> = Vec::new();
    let mut i: usize = 0;
    assert(av.take(0) =~= Seq::<Seq<char>>::empty());
    assert(parts_view(out@) =~= Seq::<PartView>::empty());
    while i < args.len()
        invariant
            av == strings_of(args@),
            0 <= i <= args@.len(),
            parts_spec(av.take(i as int)) == Ok::<Seq<PartView>, Seq<char>>(parts_view(out@)),
        decreases args.len() - i,
    {
        assert(av.take(i + 1).drop_last() =~= av.take(i as int));
        assert(av.take(i + 1).last() == args@[i as int]@);
        match parse_part(&args[i]) {
            Ok(p) => {
                let ghost before = out@;
                out.push(p);
                assert(parts_view(out@) =~= parts_view(before).push(p@));
            },
            Err(e) => {
                proof {
                    lemma_parts_error_sticks(av, i as int + 1, e@);
                    assert(av.take(av.len() as int) =~= av);
                }
                return Err(e);
            },
        }
        i += 1;
    }
    assert(av.take(av.len() as int) =~= av);
    Ok(out)
}

/// Once a flag fails, every longer prefix fails with the same error.
proof fn lemma_parts_error_sticks(av: Seq<Seq<char>>, n: int, e: Seq<char>)
    requires
        0 <= n <= av.len(),
        parts_spec(av.take(n)) == Err::<Seq<PartView>, Seq<char>>(e),
    ensures
        parts_spec(av) == Err::<Seq<PartView>, Seq<char>>(e),
    decreases av.len() - n,
{
    if n < av.len() {
        assert(av.take(n + 1).drop_last() =~= av.take(n));
        lemma_parts_error_sticks(av, n + 1, e);
    } else {
        assert(av.take(n) =~= av);
    }
}

/// The error for an intent word that names no intent.
pub open spec fn bad_intent_message(s: Seq<char>) -> Seq<char> {
    "invalid --intent '"@ + s + "': must be one of req, fyi, reply, out"@
}

/// The intent of a send: the `--intent` word when given (an unknown word
/// is an error), else a reply when it replies to a message, else a request
/// when it waits, else FYI.
pub open spec fn intent_spec(arg: Option<Seq<char>>, reply_to: Option<u64>, wait: bool) -> Result<Intent, Seq<char>> {
    match arg {
        Some(s) => match intent_named(s) {
            Some(i) => Ok(i),
            None => Err(bad_intent_message(s)),
        },
        None => Ok(if reply_to is Some { Intent::Reply } else if wait { Intent::Req } else { Intent::Fyi }),
    }
}

/// The view of an optional string slice.
pub open spec fn opt_str(s: Option<&str>) -> Option<Seq<char>> {
    match s {
        Some(x) => Some(x@),
        None => None,
    }
}

/// The intent of a send (see `intent_spec`; code `INVALID_INTENT`).
pub fn resolve_intent(intent_arg: Option<&str>, reply_to: Option<u64>, should_wait: bool) -> (r: Result<Intent, String>)
    ensures
        match intent_spec(opt_str(intent_arg), reply_to, should_wait) {
            Ok(i) => r == Ok::<Intent, String>(i),
            Err(e) => r matches Err(m) && m@ == e,
        },
{
    proof {
        reveal_strlit("invalid --intent '");
        reveal_strlit("': must be one of req, fyi, reply, out");
    }
    match intent_arg {
        Some(s) => match Intent::from_str(s) {
            Some(i) => Ok(i),
            None => {
                let mut m = String::new();
                push_str(&mut m, "invalid --intent '");
                push_str(&mut m, s);
                push_str(&mut m, "': must be one of req, fyi, reply, out");
                assert(m@ =~= bad_intent_message(s@));
                Err(m)
            },
        },
        None => Ok(if reply_to.is_some() { Intent::Reply } else if should_wait { Intent::Req } else { Intent::Fyi }),
    }
}

/// Whether a send is a reply that names no message it replies to (worth a
/// warning).
pub fn uncorrelated_reply(intent: Intent, reply_to: Option<u64>) -> (r: bool)
    ensures
        r == (intent == Intent::Reply && reply_to is None),
{
    match intent {
        Intent::Reply => reply_to.is_none(),
        _ => false,
    }
}

/// The error for `--expect-reply` on a request or a closing message.
pub open spec fn expect_reply_message() -> Seq<char> {
    "--expect-reply is only valid with intent reply or fyi; `--intent req` (or `--wait`) already expects a reply"@
}

/// Whether a send expects a reply: when asked, or when it replies and
/// waits without an explicit intent; a request or a closing message
/// cannot also carry the flag (code `INVALID_INTENT`).
pub fn resolve_expect_reply(expect_reply: bool, reply_to: Option<u64>, should_wait: bool, intent_given: bool, intent: Intent) -> (r: Result<bool, String>)
    ensures
        ({
            let e = expect_reply || (reply_to is Some && should_wait && !intent_given);
            if e && (intent == Intent::Req || intent == Intent::Out) {
                r matches Err(m) && m@ == expect_reply_message()
            } else {
                r == Ok::<bool, String>(e)
            }
        }),
{
    proof {
        reveal_strlit("--expect-reply is only valid with intent reply or fyi; `--intent req` (or `--wait`) already expects a reply");
    }
    let e = expect_reply || (reply_to.is_some() && should_wait && !intent_given);
    let asks = match intent {
        Intent::Req | Intent::Out => true,
        _ => false,
    };
    if e && asks {
        Err("--expect-reply is only valid with intent reply or fyi; `--intent req` (or `--wait`) already expects a reply".to_string())
    } else {
        Ok(e)
    }
}

/// The error for sending as another agent than the configured one.
pub open spec fn sender_mismatch_message(s: Seq<char>, configured: Seq<char>) -> Seq<char> {
    "Cannot send as '"@ + s + "': this project is configured as agent '"@ + configured
        + "'. Use the configured identity or run from the other agent's project directory."@
}

/// A `--sender` override must name the project's configured agent
/// (code `SENDER_MISMATCH`).
pub fn check_sender(sender_override: Option<&str>, configured: &str) -> (r: Result<(), String>)
    ensures
        match sender_override {
            Some(s) => if s@ == configured@ { r is Ok } else { r matches Err(m) && m@ == sender_mismatch_message(s@, configured@) },
            None => r is Ok,
        },
{
    proof {
        reveal_strlit("Cannot send as '");
        reveal_strlit("': this project is configured as agent '");
        reveal_strlit("'. Use the configured identity or run from the other agent's project directory.");
    }
    match sender_override {
        Some(s) => {
            if str_eq(s, configured) {
                Ok(())
            } else {
                let mut m = String::new();
                push_str(&mut m, "Cannot send as '");
                push_str(&mut m, s);
                push_str(&mut m, "': this project is configured as agent '");
                push_str(&mut m, configured);
                push_str(&mut m, "'. Use the configured identity or run from the other agent's project directory.");
                assert(m@ =~= sender_mismatch_message(s@, configured@));
                Err(m)
            }
        },
        None => Ok(()),
    }
}

/// Structured parts cannot be mixed with the other content sources (a
/// message argument, `--message-file`, `--stdin`); code `INVALID_PART`.
pub fn check_part_mix(part_flags: usize, legacy_content: bool) -> (r: Result<(), String>)
    ensures
        part_flags > 0 && legacy_content ==> (r matches Err(m) && m@ == "--part cannot be combined with positional content, --message-file, or --stdin"@),
        !(part_flags > 0 && legacy_content) ==> r is Ok,
{
    if part_flags > 0 && legacy_content {
        Err("--part cannot be combined with positional content, --message-file, or --stdin".to_string())
    } else {
        Ok(())
    }
}

/// How long a send waits for its reply: the `--timeout` given, else the
/// user's configured default, else 60 seconds.
pub fn reply_timeout(chat_timeout: Option<u64>, configured: Option<u64>) -> (r: u64)
    ensures
        r == match chat_timeout {
            Some(t) => t,
            None => match configured {
                Some(c) => c,
                None => 60,
            },
        },
{
    match chat_timeout {
        Some(t) => t,
        None => match configured {
            Some(c) => c,
            None => 60,
        },
    }
}

/// The request a send posts: the parts, a fresh idempotency key (reused
/// by every retry of this send), the intent and reply correlation, and the
/// wait deadline when the sender waits.
pub fn send_request(
    sender: String,
    parts: &Vec<Part>,
    intent: Intent,
    reply_to: Option<u64>,
    expect_reply: bool,
    should_wait: bool,
    timeout: u64,
) -> (r: SendMessageRequest)
    ensures
        r.sender == sender,
        r.content is None,
        r.parts matches Some(ps) && parts_view(ps@) == parts_view(parts@),
        r.idempotency_key matches Some(k) && uuid_v4_text(k@),
        r.intent == Some(intent),
        r.reply_to == reply_to,
        r.expect_reply == expect_reply,
        r.wait_timeout == if should_wait { Some(timeout) } else { None },
{
    SendMessageRequest {
        sender,
        content: None,
        parts: Some(copy_parts(parts)),
        idempotency_key: Some(new_key()),
        intent: Some(intent),
        reply_to,
        expect_reply,
        wait_timeout: if should_wait { Some(timeout) } else { None },
    }
}

/// What a refused send reports: a closed session names the reopen
/// command (code `SESSION_CLOSED`); anything else passes the daemon's
/// error on (code `SESSION_NOT_FOUND`).
pub fn send_failure(session_id: &str, error: String) -> (r: (String, &'static str))
    ensures
        if contains_seq(error@, "closed"@) {
            r.0@ == "Session "@ + session_id@ + " is closed. Use `tala session reopen "@ + session_id@ + "` to reopen it."@
                && r.1@ == "SESSION_CLOSED"@
        } else {
            r.0@ == error@ && r.1@ == "SESSION_NOT_FOUND"@
        },
{
    proof {
        reveal_strlit("Session ");
        reveal_strlit(" is closed. Use `tala session reopen ");
        reveal_strlit("` to reopen it.");
        reveal_strlit("SESSION_CLOSED");
        reveal_strlit("SESSION_NOT_FOUND");
    }
    if str_contains(error.as_str(), "closed") {
        let mut m = String::new();
        push_str(&mut m, "Session ");
        push_str(&mut m, session_id);
        push_str(&mut m, " is closed. Use `tala session reopen ");
        push_str(&mut m, session_id);
        push_str(&mut m, "` to reopen it.");
        assert(m@ =~= "Session "@ + session_id@ + " is closed. Use `tala session reopen "@ + session_id@ + "` to reopen it."@);
        (m, "SESSION_CLOSED")
    } else {
        (error, "SESSION_NOT_FOUND")
    }
}

/// The error code of a refused close: `SESSION_CLOSED` when the daemon
/// says the session is closed, else `SESSION_NOT_FOUND`.
pub fn close_failure_code(error: &str) -> (r: &'static str)
    ensures
        r@ == if contains_seq(error@, "closed"@) { "SESSION_CLOSED"@ } else { "SESSION_NOT_FOUND"@ },
{
    proof {
        reveal_strlit("SESSION_CLOSED");
        reveal_strlit("SESSION_NOT_FOUND");
    }
    if str_contains(error, "closed") { "SESSION_CLOSED" } else { "SESSION_NOT_FOUND" }
}

/// The error code of a refused rename: `SESSION_NAME_TAKEN` for a name
/// conflict (409), else `SESSION_NOT_FOUND`.
pub fn rename_failure_code(status: u16) -> (r: &'static str)
    ensures
        r@ == if status == 409 { "SESSION_NAME_TAKEN"@ } else { "SESSION_NOT_FOUND"@ },
{
    proof {
        reveal_strlit("SESSION_NAME_TAKEN");
        reveal_strlit("SESSION_NOT_FOUND");
    }
    if status == 409 { "SESSION_NAME_TAKEN" } else { "SESSION_NOT_FOUND" }
}

} // verus!
