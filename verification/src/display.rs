//! How the command line shows things: intent badges, wait deadlines, times
//! of day and dates, scopes of waits, and the lines it prints for messages
//! and pending requests.

use vstd::prelude::*;
use crate::clock::{elapsed_seconds, now_micros, seconds_between};
use crate::models::{ActiveWaitInfo, AgentSummary, SessionSummary, Intent, Message, MessageView, PendingObligation, Session, WaitScope, ScopeView, badge_spec, render_parts, messages_view};
use crate::text::{decimal, digit_char, opt_view, push_decimal, push_signed_decimal, push_str, signed_decimal, str_eq, string_push};

verus! {

broadcast use vstd::string::group_string_axioms;

/// The badge of a message: its intent, and the message it replies to,
/// e.g. `[REQ]` or `[REPLY→3]`.
pub open spec fn badge_of(m: MessageView) -> Seq<char> {
    match m.reply_to {
        Some(t) => "["@ + badge_spec(m.intent) + "→"@ + decimal(t as nat) + "]"@,
        None => "["@ + badge_spec(m.intent) + "]"@,
    }
}

/// The badge of a message (see `badge_of`).
pub fn intent_badge(msg: &Message) -> (r: String)
    ensures
        r@ == badge_of(msg@),
{
    proof {
        reveal_strlit("[");
        reveal_strlit("→");
        reveal_strlit("]");
    }
    let mut s = String::new();
    push_str(&mut s, "[");
    push_str(&mut s, msg.intent.badge());
    match msg.reply_to {
        Some(t) => {
            push_str(&mut s, "→");
            push_decimal(&mut s, t);
        },
        None => {},
    }
    push_str(&mut s, "]");
    s
}

/// Whole minutes and remaining seconds of `n` seconds (`n` not negative).
pub open spec fn minutes_of(n: int) -> int {
    n / 60
}

/// How a wait deadline reads at `now`: the seconds left while it runs; once
/// past, nothing unless `show_expired`, else how long ago it expired.
pub open spec fn deadline_text(waiting_until: Option<i64>, show_expired: bool, now: i64) -> Seq<char> {
    match waiting_until {
        None => Seq::empty(),
        Some(until) => {
            let r = seconds_between(now, until);
            if r >= 0 {
                " (waiting, "@ + decimal(r as nat) + "s left)"@
            } else if !show_expired {
                Seq::empty()
            } else {
                let ago = -r;
                if ago / 60 > 0 {
                    " (wait expired "@ + decimal((ago / 60) as nat) + "m"@ + decimal((ago % 60) as nat) + "s ago)"@
                } else {
                    " (wait expired "@ + decimal((ago % 60) as nat) + "s ago)"@
                }
            }
        },
    }
}

/// The deadline of a message as it reads at `now` (see `deadline_text`).
pub fn render_deadline_at(msg: &Message, show_expired: bool, now: i64) -> (r: String)
    ensures
        r@ == deadline_text(msg.waiting_until, show_expired, now),
{
    proof {
        reveal_strlit(" (waiting, ");
        reveal_strlit("s left)");
        reveal_strlit(" (wait expired ");
        reveal_strlit("m");
        reveal_strlit("s ago)");
    }
    let mut s = String::new();
    match msg.waiting_until {
        None => {},
        Some(until) => {
            let r = elapsed_seconds(now, until);
            if r >= 0 {
                push_str(&mut s, " (waiting, ");
                push_decimal(&mut s, r as u64);
                push_str(&mut s, "s left)");
            } else if show_expired {
                let ago: u64 = (-(r as i128)) as u64;
                let mins = ago / 60;
                let secs = ago % 60;
                push_str(&mut s, " (wait expired ");
                if mins > 0 {
                    push_decimal(&mut s, mins);
                    push_str(&mut s, "m");
                }
                push_decimal(&mut s, secs);
                push_str(&mut s, "s ago)");
            }
        },
    }
    s
}

/// The deadline of a message as it reads now.
pub fn render_deadline(msg: &Message, show_expired: bool) -> (r: String)
    ensures
        exists|now: i64| r@ == deadline_text(msg.waiting_until, show_expired, now),
{
    let now = now_micros();
    render_deadline_at(msg, show_expired, now)
}

/// Microseconds in a day.
pub open spec fn day_micros() -> int {
    86_400_000_000
}

/// Two decimal digits of `n` (`n < 100`), with a leading zero.
pub open spec fn two_digits(n: int) -> Seq<char> {
    seq![digit_char((n / 10) as nat), digit_char((n % 10) as nat)]
}

/// The UTC time of day of `ts` (microseconds since the epoch) as
/// `HH:MM:SS`.
pub open spec fn clock_text(ts: i64) -> Seq<char> {
    let secs = (ts as int % day_micros()) / 1_000_000;
    two_digits(secs / 3600) + ":"@ + two_digits((secs % 3600) / 60) + ":"@ + two_digits(secs % 60)
}

/// Appends two decimal digits of `n`.
fn push_two(s: &mut String, n: u64)
    requires
        n < 100,
    ensures
        final(s)@ == old(s)@ + two_digits(n as int),
{
    string_push(s, crate::text::digit_of(n / 10));
    string_push(s, crate::text::digit_of(n % 10));
}

/// The UTC time of day of `ts` as `HH:MM:SS`.
pub fn clock_time(ts: i64) -> (r: String)
    ensures
        r@ == clock_text(ts),
{
    proof {
        reveal_strlit(":");
    }
    let day: i128 = 86_400_000_000;
    let t: i128 = ts as i128;
    let neg: i128 = if t >= 0 { 0 } else { -t };
    let a: i128 = neg % day;
    let pos: i128 = if t >= 0 { t % day } else { 0 };
    let within: i128 = if t >= 0 { pos } else if a == 0 { 0 } else { day - a };
    assert(within == ts as int % day_micros()) by (nonlinear_arith)
        requires
            day == 86_400_000_000,
            t == ts as int,
            t < 0 ==> neg == -t,
            a == neg % day,
            t >= 0 ==> pos == t % day,
            t >= 0 ==> within == pos,
            t < 0 ==> within == (if a == 0 { 0 } else { day - a }),
    {
    }
    let secs: u64 = (within / 1_000_000) as u64;
    let mut s = String::new();
    push_two(&mut s, secs / 3600);
    push_str(&mut s, ":");
    push_two(&mut s, (secs % 3600) / 60);
    push_str(&mut s, ":");
    push_two(&mut s, secs % 60);
    s
}

/// The UTC date and time of `ts` (microseconds since the epoch) as
/// `%Y-%m-%d %H:%M:%S`, or none when chrono cannot represent it.
pub uninterp spec fn utc_date_time(ts: i64) -> Option<Seq<char>>;

/// The UTC date and time of `ts` as `%Y-%m-%d %H:%M:%S`
/// (`chrono::DateTime::from_timestamp_micros`, then `format`).
///
/// Trusted: the contract only names the result (`utc_date_time`), a
/// function of `ts` alone.
#[verifier::external_body]
fn date_time(ts: i64) -> (r: Option<String>)
    ensures
        opt_view(r) == utc_date_time(ts),
{
    match chrono::DateTime::from_timestamp_micros(ts) {
        Some(d) => Some(d.format("%Y-%m-%d %H:%M:%S").to_string()),
        None => None,
    }
}

/// How a timeout is announced: `no timeout` for 0, else the seconds.
pub fn timeout_label(secs: u64) -> (r: String)
    ensures
        r@ == if secs == 0 { "no timeout"@ } else { decimal(secs as nat) + "s"@ },
{
    proof {
        reveal_strlit("no timeout");
        reveal_strlit("s");
    }
    if secs == 0 {
        "no timeout".to_string()
    } else {
        let mut s = String::new();
        push_decimal(&mut s, secs);
        push_str(&mut s, "s");
        s
    }
}

/// What a wait scope reads as.
pub open spec fn scope_text(s: ScopeView) -> Seq<char> {
    match s {
        ScopeView::Session(id) => "session "@ + id,
        ScopeView::AnyNewSession => "a new session"@,
    }
}

/// What a wait scope reads as: `session <id>` or `a new session`.
pub fn scope_description(scope: &WaitScope) -> (r: String)
    ensures
        r@ == scope_text(scope@),
{
    proof {
        reveal_strlit("session ");
        reveal_strlit("a new session");
    }
    match scope {
        WaitScope::Session(id) => {
            let mut s = String::new();
            push_str(&mut s, "session ");
            push_str(&mut s, id.as_str());
            s
        },
        WaitScope::AnyNewSession => "a new session".to_string(),
    }
}

/// The lines a message is shown with by `wait`: the session, the id, the
/// badge and sender and time, then the rendered content indented.
pub open spec fn wait_line(sid: Seq<char>, m: MessageView) -> Seq<char> {
    "[sess "@ + sid + "] ["@ + decimal(m.id as nat) + "] "@ + badge_of(m) + m.sender + " ("@ + clock_text(m.timestamp)
        + "):\n    "@ + render_parts(m.parts)
}

/// The lines a message is shown with by `wait` (see `wait_line`).
pub fn format_wait_line(sid: &str, msg: &Message) -> (r: String)
    ensures
        r@ == wait_line(sid@, msg@),
{
    proof {
        reveal_strlit("[sess ");
        reveal_strlit("] [");
        reveal_strlit("] ");
        reveal_strlit(" (");
        reveal_strlit("):\n    ");
    }
    let mut s = String::new();
    push_str(&mut s, "[sess ");
    push_str(&mut s, sid);
    push_str(&mut s, "] [");
    push_decimal(&mut s, msg.id);
    push_str(&mut s, "] ");
    let b = intent_badge(msg);
    push_str(&mut s, b.as_str());
    push_str(&mut s, msg.sender.as_str());
    push_str(&mut s, " (");
    let t = clock_time(msg.timestamp);
    push_str(&mut s, t.as_str());
    push_str(&mut s, "):\n    ");
    let body = msg.render();
    push_str(&mut s, body.as_str());
    s
}

/// The heading line of a message as `listen` shows it: the session label,
/// the badge, the sender, the time and the deadline (expired ones too).
pub open spec fn listen_line(label: Seq<char>, m: MessageView, now: i64) -> Seq<char> {
    "["@ + label + "] "@ + badge_of(m) + " "@ + m.sender + " ("@ + clock_text(m.timestamp) + "):"@
        + deadline_text(m.waiting_until, true, now)
}

/// The heading line of a message as `listen` shows it, at `now`.
pub fn format_listen_line(label: &str, msg: &Message, now: i64) -> (r: String)
    ensures
        r@ == listen_line(label@, msg@, now),
{
    proof {
        reveal_strlit("[");
        reveal_strlit("] ");
        reveal_strlit(" ");
        reveal_strlit(" (");
        reveal_strlit("):");
    }
    let mut s = String::new();
    push_str(&mut s, "[");
    push_str(&mut s, label);
    push_str(&mut s, "] ");
    let b = intent_badge(msg);
    push_str(&mut s, b.as_str());
    push_str(&mut s, " ");
    push_str(&mut s, msg.sender.as_str());
    push_str(&mut s, " (");
    let t = clock_time(msg.timestamp);
    push_str(&mut s, t.as_str());
    push_str(&mut s, "):");
    let d = render_deadline_at(msg, true, now);
    push_str(&mut s, d.as_str());
    s
}

/// The heading line of a message in a transcript or a check: the id, the
/// badge and sender, the time and the deadline (`indent` spaces first;
/// `spaced` puts a space between badge and sender).
pub open spec fn entry_line(m: MessageView, now: i64, indent: Seq<char>, spaced: bool, show_expired: bool) -> Seq<char> {
    indent + "["@ + decimal(m.id as nat) + "] "@ + badge_of(m) + (if spaced { " "@ } else { Seq::empty() }) + m.sender
        + " ("@ + clock_text(m.timestamp) + "):"@ + deadline_text(m.waiting_until, show_expired, now)
}

/// The heading line of a message in `history` (`spaced`, past deadlines
/// hidden) or `check` (indented, past deadlines shown), at `now`.
pub fn format_entry_line(msg: &Message, now: i64, indent: &str, spaced: bool, show_expired: bool) -> (r: String)
    ensures
        r@ == entry_line(msg@, now, indent@, spaced, show_expired),
{
    proof {
        reveal_strlit("[");
        reveal_strlit("] ");
        reveal_strlit(" ");
        reveal_strlit(" (");
        reveal_strlit("):");
    }
    let mut s = String::new();
    push_str(&mut s, indent);
    push_str(&mut s, "[");
    push_decimal(&mut s, msg.id);
    push_str(&mut s, "] ");
    let b = intent_badge(msg);
    push_str(&mut s, b.as_str());
    if spaced {
        push_str(&mut s, " ");
    }
    push_str(&mut s, msg.sender.as_str());
    push_str(&mut s, " (");
    let t = clock_time(msg.timestamp);
    push_str(&mut s, t.as_str());
    push_str(&mut s, "):");
    let d = render_deadline_at(msg, show_expired, now);
    push_str(&mut s, d.as_str());
    proof {
        if !spaced {
            reveal_strlit("");
        }
    }
    assert(s@ =~= entry_line(msg@, now, indent@, spaced, show_expired));
    s
}

/// `a` divided by `b` (positive), truncated toward zero.
pub open spec fn tdiv(a: int, b: int) -> int {
    if a >= 0 { a / b } else { -((-a) / b) }
}

/// The remainder of `tdiv`, with the sign of `a`.
pub open spec fn tmod(a: int, b: int) -> int {
    a - b * tdiv(a, b)
}

/// The deadline of a pending request at `now`: the seconds left, or that
/// the wait expired.
pub open spec fn pending_deadline(waiting_until: Option<i64>, now: i64) -> Seq<char> {
    match waiting_until {
        Some(until) => if seconds_between(now, until) >= 0 {
            " (waiting, "@ + decimal(seconds_between(now, until) as nat) + "s left)"@
        } else {
            " (wait expired)"@
        },
        None => Seq::empty(),
    }
}

/// How long a request has been unanswered: minutes (when any) and seconds.
pub open spec fn unanswered_text(elapsed: int) -> Seq<char> {
    let mins = tdiv(elapsed, 60);
    let secs = tmod(elapsed, 60);
    (if mins > 0 { signed_decimal(mins) + "m "@ } else { Seq::empty() }) + signed_decimal(secs)
}

/// Who owes the answer: the local agent's own request awaits its
/// recipient; anyone else's is the local agent's to answer.
pub open spec fn owed_text(sender: Seq<char>, me: Seq<char>, id: u64) -> Seq<char> {
    if sender == me {
        "awaiting reply from "@ + sender
    } else {
        "answer with `tala send --reply-to "@ + decimal(id as nat) + "`"@
    }
}

/// The two lines of a pending request, at `now`, for the local agent `me`:
/// where it is, its id, badge, sender, deadline and snippet; then how long
/// it has been unanswered and who owes the answer.
pub open spec fn pending_lines(o: PendingObligation, me: Seq<char>, now: i64) -> Seq<char> {
    let label = match o.session_name { Some(n) => n@, None => o.session_id@ };
    "["@ + label + "] ["@ + decimal(o.message_id as nat) + "] ["@ + badge_spec(o.intent) + "] "@ + o.sender@
        + pending_deadline(o.waiting_until, now) + ": "@ + o.content@ + "\n      unanswered for "@
        + unanswered_text(o.elapsed_seconds as int) + " — "@ + owed_text(o.sender@, me, o.message_id)
}

/// The deadline of a pending request at `now`.
fn format_pending_deadline(waiting_until: Option<i64>, now: i64) -> (r: String)
    ensures
        r@ == pending_deadline(waiting_until, now),
{
    proof {
        reveal_strlit(" (waiting, ");
        reveal_strlit("s left)");
        reveal_strlit(" (wait expired)");
    }
    let mut s = String::new();
    match waiting_until {
        Some(until) => {
            let r = elapsed_seconds(now, until);
            if r >= 0 {
                push_str(&mut s, " (waiting, ");
                push_decimal(&mut s, r as u64);
                push_str(&mut s, "s left)");
            } else {
                push_str(&mut s, " (wait expired)");
            }
        },
        None => {},
    }
    s
}

/// How long a request has been unanswered.
fn format_unanswered(e: i64) -> (r: String)
    ensures
        r@ == unanswered_text(e as int),
{
    proof {
        reveal_strlit("m ");
    }
    let mins: i64 = if e >= 0 { e / 60 } else { -((-(e as i128) / 60) as i64) };
    let secs: i64 = if e >= 0 { e % 60 } else { -((-(e as i128) % 60) as i64) };
    assert(mins as int == tdiv(e as int, 60) && secs as int == tmod(e as int, 60)) by (nonlinear_arith)
        requires
            e >= 0 ==> mins == e / 60 && secs == e % 60,
            e < 0 ==> mins == -((-e) / 60) && secs == -((-e) % 60),
    {
    }
    let mut s = String::new();
    if mins > 0 {
        push_signed_decimal(&mut s, mins);
        push_str(&mut s, "m ");
    }
    push_signed_decimal(&mut s, secs);
    assert(s@ =~= unanswered_text(e as int));
    s
}

/// Who owes the answer to request `id` from `sender`.
fn format_owed(sender: &str, me: &str, id: u64) -> (r: String)
    ensures
        r@ == owed_text(sender@, me@, id),
{
    proof {
        reveal_strlit("awaiting reply from ");
        reveal_strlit("answer with `tala send --reply-to ");
        reveal_strlit("`");
    }
    let mut s = String::new();
    if str_eq(sender, me) {
        push_str(&mut s, "awaiting reply from ");
        push_str(&mut s, sender);
    } else {
        push_str(&mut s, "answer with `tala send --reply-to ");
        push_decimal(&mut s, id);
        push_str(&mut s, "`");
    }
    s
}

/// The two lines of a pending request (see `pending_lines`).
pub fn format_pending(o: &PendingObligation, me: &str, now: i64) -> (r: String)
    ensures
        r@ == pending_lines(*o, me@, now),
{
    proof {
        reveal_strlit("[");
        reveal_strlit("] [");
        reveal_strlit("] ");
        reveal_strlit(": ");
        reveal_strlit("\n      unanswered for ");
        reveal_strlit(" — ");
    }
    let mut s = String::new();
    push_str(&mut s, "[");
    match &o.session_name {
        Some(n) => push_str(&mut s, n.as_str()),
        None => push_str(&mut s, o.session_id.as_str()),
    }
    push_str(&mut s, "] [");
    push_decimal(&mut s, o.message_id);
    push_str(&mut s, "] [");
    push_str(&mut s, o.intent.badge());
    push_str(&mut s, "] ");
    push_str(&mut s, o.sender.as_str());
    let d = format_pending_deadline(o.waiting_until, now);
    push_str(&mut s, d.as_str());
    push_str(&mut s, ": ");
    push_str(&mut s, o.content.as_str());
    push_str(&mut s, "\n      unanswered for ");
    let u = format_unanswered(o.elapsed_seconds);
    push_str(&mut s, u.as_str());
    push_str(&mut s, " — ");
    let h = format_owed(o.sender.as_str(), me, o.message_id);
    push_str(&mut s, h.as_str());
    assert(s@ =~= pending_lines(*o, me@, now));
    s
}

/// How many of `msgs` count as unread for the local agent: those it did not
/// send (all of them when it has no name).
pub open spec fn unread_of(msgs: Seq<MessageView>, local: Option<Seq<char>>) -> nat {
    match local {
        Some(a) => msgs.filter(|m: MessageView| m.sender != a).len(),
        None => msgs.len(),
    }
}

/// How many of `msgs` count as unread for the local agent `local`.
pub fn unread_count(msgs: &Vec<Message>, local: Option<&str>) -> (r: usize)
    ensures
        r as nat == unread_of(messages_view(msgs@), match local { Some(a) => Some(a@), None => None }),
{
    let ghost mv = messages_view(msgs@);
    let a = match local {
        Some(a) => a,
        None => return msgs.len(),
    };
    let ghost pred = |m: MessageView| m.sender != a@;
    let mut n: usize = 0;
    let mut i: usize = 0;
    assert(mv.take(0).filter(pred) =~= Seq::<MessageView>::empty());
    while i < msgs.len()
        invariant
            mv == messages_view(msgs@),
            pred == (|m: MessageView| m.sender != a@),
            0 <= i <= msgs@.len(),
            n as nat == mv.take(i as int).filter(pred).len(),
            n <= i,
        decreases msgs.len() - i,
    {
        reveal_with_fuel(Seq::filter, 1);
        assert(mv.take(i + 1).drop_last() =~= mv.take(i as int));
        assert(mv.take(i + 1).last() == msgs@[i as int]@);
        if !str_eq(msgs[i].sender.as_str(), a) {
            n += 1;
        }
        i += 1;
    }
    assert(mv.take(mv.len() as int) =~= mv);
    n
}

/// The heading of a session's group in `check`: its label and how many new
/// messages it has.
pub fn group_heading(label: &str, count: usize) -> (r: String)
    ensures
        r@ == "["@ + label@ + "] ("@ + decimal(count as nat) + " new message(s))"@,
{
    proof {
        reveal_strlit("[");
        reveal_strlit("] (");
        reveal_strlit(" new message(s))");
    }
    let mut s = String::new();
    push_str(&mut s, "[");
    push_str(&mut s, label);
    push_str(&mut s, "] (");
    push_decimal(&mut s, count as u64);
    push_str(&mut s, " new message(s))");
    s
}

/// The hint naming the sessions with unread messages (nothing when none).
pub fn unread_hint(ids: &Vec<String>) -> (r: String)
    ensures
        r@ == if ids@.len() == 0 {
            Seq::empty()
        } else {
            "⟳ hint: "@ + decimal(ids@.len()) + " session(s) with an unread message ("@
                + crate::models::join(crate::targets::strings_view(ids@), ", "@) + ") — run `tala check`"@
        },
{
    proof {
        reveal_strlit("⟳ hint: ");
        reveal_strlit(" session(s) with an unread message (");
        reveal_strlit(", ");
        reveal_strlit(") — run `tala check`");
    }
    let mut s = String::new();
    if ids.len() > 0 {
        push_str(&mut s, "⟳ hint: ");
        push_decimal(&mut s, ids.len() as u64);
        push_str(&mut s, " session(s) with an unread message (");
        let joined = crate::targets::join_strings(ids, ", ");
        push_str(&mut s, joined.as_str());
        push_str(&mut s, ") — run `tala check`");
    }
    assert(ids@.len() == 0 ==> s@ =~= Seq::<char>::empty());
    s
}

/// The note printed for another wait that overlaps this one; a
/// new-session wait adds that it will not receive that session's messages.
pub fn overlap_note(identity: &str, scope: &WaitScope, remaining: i64, new_session_wait: bool) -> (r: String)
    ensures
        r@ == "⟳ note: "@ + identity@ + " is waiting on "@ + scope_text(scope@) + " ("@ + signed_decimal(remaining as int) + "s left)"@
            + if new_session_wait { " — this wait will not receive that session's messages"@ } else { Seq::empty() },
{
    proof {
        reveal_strlit("⟳ note: ");
        reveal_strlit(" is waiting on ");
        reveal_strlit(" (");
        reveal_strlit("s left)");
        reveal_strlit(" — this wait will not receive that session's messages");
    }
    let mut s = String::new();
    push_str(&mut s, "⟳ note: ");
    push_str(&mut s, identity);
    push_str(&mut s, " is waiting on ");
    let d = scope_description(scope);
    push_str(&mut s, d.as_str());
    push_str(&mut s, " (");
    push_signed_decimal(&mut s, remaining);
    push_str(&mut s, "s left)");
    if new_session_wait {
        push_str(&mut s, " — this wait will not receive that session's messages");
    }
    assert(!new_session_wait ==> s@ =~= "⟳ note: "@ + identity@ + " is waiting on "@ + scope_text(scope@) + " ("@ + signed_decimal(remaining as int) + "s left)"@);
    s
}

/// The agent name `init` configures: the one given, else the working
/// directory's name, else `project`.
pub fn project_name(name: Option<String>, dir_name: Option<String>) -> (r: String)
    ensures
        r@ == match name {
            Some(n) => n@,
            None => match dir_name {
                Some(d) => d@,
                None => "project"@,
            },
        },
{
    proof {
        reveal_strlit("project");
    }
    match name {
        Some(n) => n,
        None => match dir_name {
            Some(d) => d,
            None => "project".to_string(),
        },
    }
}


/// A time as the command line shows it: its UTC date and time, or nothing
/// when it cannot be represented.
pub open spec fn date_text(ts: i64) -> Seq<char> {
    match utc_date_time(ts) {
        Some(d) => d,
        None => Seq::empty(),
    }
}

/// The UTC date and time of `ts` (microseconds since the epoch) as
/// `YYYY-MM-DD HH:MM:SS` (see `date_text`).
pub fn format_date_time(ts: i64) -> (r: String)
    ensures
        r@ == date_text(ts),
{
    match date_time(ts) {
        Some(d) => d,
        None => String::new(),
    }
}

/// The first line of `history`: the session, when it was created
/// (`created`, as shown), and whether it is closed.
pub fn recap_header_text(s: &Session, created: &str) -> (r: String)
    ensures
        r@ == "session: "@ + s.id@ + "  |  created: "@ + created@ + "  |  closed: "@
            + if s.closed { "true"@ } else { "false"@ },
{
    proof {
        reveal_strlit("session: ");
        reveal_strlit("  |  created: ");
        reveal_strlit("  |  closed: ");
        reveal_strlit("true");
        reveal_strlit("false");
    }
    let mut out = String::new();
    push_str(&mut out, "session: ");
    push_str(&mut out, s.id.as_str());
    push_str(&mut out, "  |  created: ");
    push_str(&mut out, created);
    push_str(&mut out, "  |  closed: ");
    if s.closed {
        push_str(&mut out, "true");
    } else {
        push_str(&mut out, "false");
    }
    out
}

/// The first line of `history`, with the creation time in UTC.
pub fn recap_header(s: &Session) -> (r: String)
    ensures
        r@ == "session: "@ + s.id@ + "  |  created: "@ + date_text(s.created_at) + "  |  closed: "@
            + if s.closed { "true"@ } else { "false"@ },
{
    let created = format_date_time(s.created_at);
    recap_header_text(s, created.as_str())
}

/// The line `discover` shows for an agent of a running daemon: its name,
/// when it was last seen (`seen`, as shown, in UTC) and how many messages
/// it sent.
pub fn agent_line_text(a: &AgentSummary, seen: &str) -> (r: String)
    ensures
        r@ == "  └ "@ + a.sender@ + "  last: "@ + seen@ + " UTC  "@ + decimal(a.message_count as nat) + " msgs"@,
{
    proof {
        reveal_strlit("  └ ");
        reveal_strlit("  last: ");
        reveal_strlit(" UTC  ");
        reveal_strlit(" msgs");
    }
    let mut out = String::new();
    push_str(&mut out, "  └ ");
    push_str(&mut out, a.sender.as_str());
    push_str(&mut out, "  last: ");
    push_str(&mut out, seen);
    push_str(&mut out, " UTC  ");
    push_decimal(&mut out, a.message_count as u64);
    push_str(&mut out, " msgs");
    out
}

/// The line `discover` shows for an agent, with its last time in UTC.
pub fn agent_line(a: &AgentSummary) -> (r: String)
    ensures
        r@ == "  └ "@ + a.sender@ + "  last: "@ + date_text(a.last_seen) + " UTC  "@ + decimal(a.message_count as nat) + " msgs"@,
{
    let seen = format_date_time(a.last_seen);
    agent_line_text(a, seen.as_str())
}


/// A session as `use` reports it: `Active session: <id>  (<name>)  <n> msgs`.
pub fn active_line(s: &SessionSummary) -> (r: String)
    ensures
        r@ == "Active session: "@ + s.id@ + "  ("@ + crate::targets::name_or(opt_view(s.name), "-"@) + ")  "@
            + decimal(s.message_count as nat) + " msgs"@,
{
    proof {
        reveal_strlit("Active session: ");
        reveal_strlit("  (");
        reveal_strlit(")  ");
        reveal_strlit("-");
        reveal_strlit(" msgs");
    }
    let mut out = String::new();
    push_str(&mut out, "Active session: ");
    push_str(&mut out, s.id.as_str());
    push_str(&mut out, "  (");
    match &s.name {
        Some(n) => push_str(&mut out, n.as_str()),
        None => push_str(&mut out, "-"),
    }
    push_str(&mut out, ")  ");
    push_decimal(&mut out, s.message_count as u64);
    push_str(&mut out, " msgs");
    out
}

/// A session in a list to choose from: `  <id>  <name>  <n> msgs`.
pub fn session_choice(s: &SessionSummary) -> (r: String)
    ensures
        r@ == "  "@ + s.id@ + "  "@ + crate::targets::name_or(opt_view(s.name), "-"@) + "  "@
            + decimal(s.message_count as nat) + " msgs"@,
{
    proof {
        reveal_strlit("  ");
        reveal_strlit("-");
        reveal_strlit(" msgs");
    }
    let mut out = String::new();
    push_str(&mut out, "  ");
    push_str(&mut out, s.id.as_str());
    push_str(&mut out, "  ");
    match &s.name {
        Some(n) => push_str(&mut out, n.as_str()),
        None => push_str(&mut out, "-"),
    }
    push_str(&mut out, "  ");
    push_decimal(&mut out, s.message_count as u64);
    push_str(&mut out, " msgs");
    out
}


/// An active wait as `status` lists it: who waits, on what, and the seconds
/// left.
pub fn wait_status_line(w: &ActiveWaitInfo) -> (r: String)
    ensures
        r@ == "    "@ + w.identity@ + "  → "@ + scope_text(w.scope@) + "  ("@ + signed_decimal(w.remaining_secs as int) + "s left)"@,
{
    proof {
        reveal_strlit("    ");
        reveal_strlit("  → ");
        reveal_strlit("  (");
        reveal_strlit("s left)");
    }
    let mut out = String::new();
    push_str(&mut out, "    ");
    push_str(&mut out, w.identity.as_str());
    push_str(&mut out, "  → ");
    let d = scope_description(&w.scope);
    push_str(&mut out, d.as_str());
    push_str(&mut out, "  (");
    push_signed_decimal(&mut out, w.remaining_secs);
    push_str(&mut out, "s left)");
    out
}

} // verus!
