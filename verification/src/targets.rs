//! Which session a command means: a reference (name, id or id prefix)
//! resolved against the session list, the open sessions when none is
//! named, and the target of `use`.

use vstd::prelude::*;
use crate::models::{SessionSummary, join};
use crate::store::{SummaryView, summaries_view};
use crate::text::{copy_string, copy_opt_string, has_prefix, opt_view, push_str, starts_with, str_eq, chars_of};

verus! {

broadcast use vstd::string::group_string_axioms;

/// `name`, or `fallback` when there is none.
pub open spec fn name_or(name: Option<Seq<char>>, fallback: Seq<char>) -> Seq<char> {
    match name {
        Some(n) => n,
        None => fallback,
    }
}

/// The ids of `ss`, in order.
pub open spec fn ids_of(ss: Seq<SummaryView>) -> Seq<Seq<char>> {
    ss.map_values(|s: SummaryView| s.id)
}

/// The sessions named `input`.
pub open spec fn named(ss: Seq<SummaryView>, input: Seq<char>) -> Seq<SummaryView> {
    ss.filter(|s: SummaryView| s.name == Some(input))
}

/// The sessions whose id starts with `input`.
pub open spec fn prefixed(ss: Seq<SummaryView>, input: Seq<char>) -> Seq<SummaryView> {
    ss.filter(|s: SummaryView| has_prefix(s.id, input))
}

/// Whether some session has id `input`.
pub open spec fn has_id(ss: Seq<SummaryView>, input: Seq<char>) -> bool {
    exists|j: int| 0 <= j < ss.len() && ss[j].id == input
}

/// The open sessions of `ss`, in order.
pub open spec fn open_ones(ss: Seq<SummaryView>) -> Seq<SummaryView> {
    ss.filter(|s: SummaryView| !s.closed)
}

/// The error for several sessions with one name.
pub open spec fn many_named_message(input: Seq<char>, ids: Seq<Seq<char>>) -> Seq<char> {
    "Multiple sessions named '"@ + input + "': "@ + join(ids, ", "@) + ". Use session ID instead."@
}

/// The error for an ambiguous id prefix.
pub open spec fn many_prefixed_message(input: Seq<char>, ids: Seq<Seq<char>>) -> Seq<char> {
    "Multiple sessions match '"@ + input + "': "@ + join(ids, ", "@) + ". Use the full session ID."@
}

/// The error for a reference that matches nothing.
pub open spec fn no_match_message(input: Seq<char>, cmd: Seq<char>) -> Seq<char> {
    "session '"@ + input + "' not found. Use `tala "@ + cmd + " <session-id>` or `tala use <session-id>` to target an existing session."@
}

/// How a session reference resolves: a unique name first, then an exact
/// id, then a unique id prefix; anything ambiguous or unmatched is an
/// error and never falls back to another session.
pub open spec fn resolve_spec(ss: Seq<SummaryView>, input: Seq<char>, cmd: Seq<char>) -> Result<Seq<char>, Seq<char>> {
    let by_name = named(ss, input);
    let by_prefix = prefixed(ss, input);
    if by_name.len() == 1 {
        Ok(by_name[0].id)
    } else if by_name.len() > 1 {
        Err(many_named_message(input, ids_of(by_name)))
    } else if has_id(ss, input) {
        Ok(input)
    } else if by_prefix.len() == 1 {
        Ok(by_prefix[0].id)
    } else if by_prefix.len() > 1 {
        Err(many_prefixed_message(input, ids_of(by_prefix)))
    } else {
        Err(no_match_message(input, cmd))
    }
}

/// The view of a string result.
pub open spec fn result_view(r: Result<String, String>) -> Result<Seq<char>, Seq<char>> {
    match r {
        Ok(s) => Ok(s@),
        Err(e) => Err(e@),
    }
}

/// The views of strings.
pub open spec fn strings_view(v: Seq<String>) -> Seq<Seq<char>> {
    Seq::new(v.len(), |i: int| v[i]@)
}

/// `pieces` joined with `sep`.
pub fn join_strings(pieces: &Vec<String>, sep: &str) -> (r: String)
    ensures
        r@ == join(strings_view(pieces@), sep@),
{
    let ghost pv = strings_view(pieces@);
    let mut out = String::new();
    let mut i: usize = 0;
    assert(pv.take(0) =~= Seq::<Seq<char>>::empty());
    while i < pieces.len()
        invariant
            pv == strings_view(pieces@),
            0 <= i <= pieces@.len(),
            out@ == join(pv.take(i as int), sep@),
        decreases pieces.len() - i,
    {
        assert(pv.take(i + 1).drop_last() =~= pv.take(i as int));
        assert(pv.take(i + 1).last() == pieces@[i as int]@);
        if i > 0 {
            push_str(&mut out, sep);
        }
        push_str(&mut out, pieces[i].as_str());
        proof {
            if i == 0 {
                assert(pv.take(1).len() == 1);
                assert(out@ =~= join(pv.take(1), sep@));
            } else {
                assert(out@ =~= join(pv.take(i as int), sep@) + sep@ + pieces@[i as int]@);
            }
        }
        i += 1;
    }
    assert(pv.take(pv.len() as int) =~= pv);
    out
}

/// Whether `s` starts with `p`.
fn str_starts_with(s: &str, p: &str) -> (r: bool)
    ensures
        r == has_prefix(s@, p@),
{
    let vs = chars_of(s);
    let vp = chars_of(p);
    starts_with(&vs, &vp)
}

/// Whether session `s` is named `input`.
fn is_named(s: &SessionSummary, input: &str) -> (r: bool)
    ensures
        r == (opt_view(s.name) == Some(input@)),
{
    match &s.name {
        Some(n) => str_eq(n.as_str(), input),
        None => false,
    }
}

/// Which kind of match a search collects.
enum MatchKind {
    Name,
    Prefix,
    OpenName,
    OpenPrefix,
    ClosedPrefix,
}

/// Whether `s` matches `input` as `kind` asks.
spec fn matches_kind(kind: MatchKind, s: SummaryView, input: Seq<char>) -> bool {
    match kind {
        MatchKind::Name => s.name == Some(input),
        MatchKind::Prefix => has_prefix(s.id, input),
        MatchKind::OpenName => !s.closed && s.name == Some(input),
        MatchKind::OpenPrefix => !s.closed && has_prefix(s.id, input),
        MatchKind::ClosedPrefix => s.closed && has_prefix(s.id, input),
    }
}

/// The sessions of `ss` that match `input` as `kind` asks.
spec fn matched(ss: Seq<SummaryView>, kind: MatchKind, input: Seq<char>) -> Seq<SummaryView> {
    ss.filter(|s: SummaryView| matches_kind(kind, s, input))
}

/// The sessions that match `input` as `kind` asks, in order.
fn matching_sessions(sessions: &Vec<SessionSummary>, input: &str, kind: MatchKind) -> (r: Vec<SessionSummary>)
    ensures
        summaries_view(r@) == matched(summaries_view(sessions@), kind, input@),
{
    let ghost sv = summaries_view(sessions@);
    let ghost pred = |s: SummaryView| matches_kind(kind, s, input@);
    let mut out: Vec<SessionSummary> = Vec::new();
    let mut i: usize = 0;
    assert(sv.take(0).filter(pred) =~= Seq::<SummaryView>::empty());
    assert(summaries_view(out@) =~= Seq::<SummaryView>::empty());
    while i < sessions.len()
        invariant
            sv == summaries_view(sessions@),
            pred == (|s: SummaryView| matches_kind(kind, s, input@)),
            0 <= i <= sessions@.len(),
            summaries_view(out@) == sv.take(i as int).filter(pred),
        decreases sessions.len() - i,
    {
        reveal_with_fuel(Seq::filter, 1);
        assert(sv.take(i + 1).drop_last() =~= sv.take(i as int));
        assert(sv.take(i + 1).last() == sv[i as int]);
        let s = &sessions[i];
        let hit = match kind {
            MatchKind::Name => is_named(s, input),
            MatchKind::Prefix => str_starts_with(s.id.as_str(), input),
            MatchKind::OpenName => !s.closed && is_named(s, input),
            MatchKind::OpenPrefix => !s.closed && str_starts_with(s.id.as_str(), input),
            MatchKind::ClosedPrefix => s.closed && str_starts_with(s.id.as_str(), input),
        };
        assert(hit == pred(sv[i as int]));
        let ghost before = out@;
        if hit {
            let c = copy_summary(s);
            out.push(c);
            assert(summaries_view(seq![c])[0] == summaries_view(seq![sessions@[i as int]])[0]);
            assert(summaries_view(out@) =~= summaries_view(before).push(sv[i as int]));
        }
        i += 1;
    }
    assert(sv.take(sv.len() as int) =~= sv);
    out
}

/// The ids of `v`, in order.
pub fn summary_ids(v: &Vec<SessionSummary>) -> (r: Vec<String>)
    ensures
        strings_view(r@) == ids_of(summaries_view(v@)),
{
    let mut ids: Vec<String> = Vec::new();
    let mut i: usize = 0;
    while i < v.len()
        invariant
            0 <= i <= v@.len(),
            ids@.len() == i,
            forall|j: int| 0 <= j < i ==> #[trigger] ids@[j]@ == v@[j].id@,
        decreases v.len() - i,
    {
        ids.push(v[i].id.clone());
        i += 1;
    }
    assert(strings_view(ids@) =~= ids_of(summaries_view(v@)));
    ids
}

/// Whether some session has id `input`.
fn find_id(sessions: &Vec<SessionSummary>, input: &str) -> (r: bool)
    ensures
        r == has_id(summaries_view(sessions@), input@),
{
    let ghost sv = summaries_view(sessions@);
    let mut i: usize = 0;
    while i < sessions.len()
        invariant
            sv == summaries_view(sessions@),
            0 <= i <= sessions@.len(),
            forall|j: int| 0 <= j < i ==> sv[j].id != input@,
        decreases sessions.len() - i,
    {
        assert(sv[i as int].id == sessions@[i as int].id@);
        if str_eq(sessions[i].id.as_str(), input) {
            return true;
        }
        i += 1;
    }
    false
}

/// Resolves a session reference (a name, a full id or a unique id prefix)
/// against the session list (see `resolve_spec`); `cmd_name` names the
/// command in the error.
pub fn resolve_session_ref(sessions: &Vec<SessionSummary>, input: &str, cmd_name: &str) -> (r: Result<String, String>)
    ensures
        result_view(r) == resolve_spec(summaries_view(sessions@), input@, cmd_name@),
{
    proof {
        reveal_strlit("Multiple sessions named '");
        reveal_strlit("': ");
        reveal_strlit(", ");
        reveal_strlit(". Use session ID instead.");
        reveal_strlit("Multiple sessions match '");
        reveal_strlit(". Use the full session ID.");
        reveal_strlit("session '");
        reveal_strlit("' not found. Use `tala ");
        reveal_strlit(" <session-id>` or `tala use <session-id>` to target an existing session.");
    }
    let ghost sv = summaries_view(sessions@);
    let found = matching_sessions(sessions, input, MatchKind::Name);
    assert((|s: SummaryView| matches_kind(MatchKind::Name, s, input@)) =~= (|s: SummaryView| s.name == Some(input@)));
    assert(matched(sv, MatchKind::Name, input@) == named(sv, input@));
    assert(summaries_view(found@).len() == found@.len());
    if found.len() == 1 {
        assert(summaries_view(found@)[0].id == found@[0].id@);
        return Ok(found[0].id.clone());
    }
    if found.len() > 1 {
        let ids = summary_ids(&found);
        let mut msg = String::new();
        push_str(&mut msg, "Multiple sessions named '");
        push_str(&mut msg, input);
        push_str(&mut msg, "': ");
        let joined = join_strings(&ids, ", ");
        push_str(&mut msg, joined.as_str());
        push_str(&mut msg, ". Use session ID instead.");
        assert(msg@ =~= many_named_message(input@, ids_of(named(sv, input@))));
        return Err(msg);
    }
    if find_id(sessions, input) {
        return Ok(input.to_string());
    }
    let found = matching_sessions(sessions, input, MatchKind::Prefix);
    assert((|s: SummaryView| matches_kind(MatchKind::Prefix, s, input@)) =~= (|s: SummaryView| has_prefix(s.id, input@)));
    assert(matched(sv, MatchKind::Prefix, input@) == prefixed(sv, input@));
    assert(summaries_view(found@).len() == found@.len());
    if found.len() == 1 {
        assert(summaries_view(found@)[0].id == found@[0].id@);
        return Ok(found[0].id.clone());
    }
    if found.len() > 1 {
        let ids = summary_ids(&found);
        let mut msg = String::new();
        push_str(&mut msg, "Multiple sessions match '");
        push_str(&mut msg, input);
        push_str(&mut msg, "': ");
        let joined = join_strings(&ids, ", ");
        push_str(&mut msg, joined.as_str());
        push_str(&mut msg, ". Use the full session ID.");
        assert(msg@ =~= many_prefixed_message(input@, ids_of(prefixed(sv, input@))));
        return Err(msg);
    }
    let mut msg = String::new();
    push_str(&mut msg, "session '");
    push_str(&mut msg, input);
    push_str(&mut msg, "' not found. Use `tala ");
    push_str(&mut msg, cmd_name);
    push_str(&mut msg, " <session-id>` or `tala use <session-id>` to target an existing session.");
    assert(msg@ =~= no_match_message(input@, cmd_name@));
    Err(msg)
}

/// A copy of a session summary.
pub fn copy_summary(s: &SessionSummary) -> (r: SessionSummary)
    ensures
        summaries_view(seq![r]) == summaries_view(seq![*s]),
{
    let mut read_by: Vec<(String, u64)> = Vec::new();
    let mut i: usize = 0;
    while i < s.read_by.len()
        invariant
            0 <= i <= s.read_by@.len(),
            read_by@.len() == i,
            forall|j: int| 0 <= j < i ==> (#[trigger] read_by@[j]).0@ == s.read_by@[j].0@ && read_by@[j].1 == s.read_by@[j].1,
        decreases s.read_by.len() - i,
    {
        read_by.push((s.read_by[i].0.clone(), s.read_by[i].1));
        i += 1;
    }
    let r = SessionSummary {
        id: s.id.clone(),
        name: copy_opt_string(&s.name),
        created_at: s.created_at,
        closed: s.closed,
        message_count: s.message_count,
        read_by,
    };
    assert(summaries_view(seq![r])[0].read_by =~= summaries_view(seq![*s])[0].read_by);
    assert(summaries_view(seq![r]) =~= summaries_view(seq![*s]));
    r
}

/// The open sessions, in order.
pub fn open_sessions(sessions: &Vec<SessionSummary>) -> (r: Vec<SessionSummary>)
    ensures
        summaries_view(r@) == open_ones(summaries_view(sessions@)),
{
    let ghost sv = summaries_view(sessions@);
    let ghost pred = |s: SummaryView| !s.closed;
    let mut out: Vec<SessionSummary> = Vec::new();
    let mut i: usize = 0;
    assert(sv.take(0).filter(pred) =~= Seq::<SummaryView>::empty());
    assert(summaries_view(out@) =~= Seq::<SummaryView>::empty());
    while i < sessions.len()
        invariant
            sv == summaries_view(sessions@),
            pred == (|s: SummaryView| !s.closed),
            0 <= i <= sessions@.len(),
            summaries_view(out@) == sv.take(i as int).filter(pred),
        decreases sessions.len() - i,
    {
        reveal_with_fuel(Seq::filter, 1);
        assert(sv.take(i + 1).drop_last() =~= sv.take(i as int));
        assert(sv.take(i + 1).last() == sv[i as int]);
        if !sessions[i].closed {
            let ghost before = out@;
            let c = copy_summary(&sessions[i]);
            out.push(c);
            assert(summaries_view(seq![c])[0] == summaries_view(seq![sessions@[i as int]])[0]);
            assert(summaries_view(out@) =~= summaries_view(before).push(sv[i as int]));
        }
        i += 1;
    }
    assert(sv.take(sv.len() as int) =~= sv);
    out
}

/// The error when no open session exists.
pub open spec fn none_open_message() -> Seq<char> {
    "No active sessions. Start one with `tala send`"@
}

/// The error when several sessions are open and none is named.
pub open spec fn many_open_message(ids: Seq<Seq<char>>, cmd: Seq<char>) -> Seq<char> {
    "Multiple open sessions: "@ + join(ids, ", "@) + ". Specify one with `tala "@ + cmd
        + " <session>` or set one with `tala use <session>`"@
}

/// The session a command uses when none is named and none is active: the
/// only open one; no open session, or several, is an error.
pub fn default_session(open: &Vec<SessionSummary>, cmd_name: &str) -> (r: Result<String, String>)
    ensures
        result_view(r) == if open@.len() == 0 {
            Err(none_open_message())
        } else if open@.len() == 1 {
            Ok(open@[0].id@)
        } else {
            Err(many_open_message(ids_of(summaries_view(open@)), cmd_name@))
        },
{
    proof {
        reveal_strlit("No active sessions. Start one with `tala send`");
        reveal_strlit("Multiple open sessions: ");
        reveal_strlit(", ");
        reveal_strlit(". Specify one with `tala ");
        reveal_strlit(" <session>` or set one with `tala use <session>`");
    }
    if open.len() == 0 {
        return Err("No active sessions. Start one with `tala send`".to_string());
    }
    if open.len() == 1 {
        return Ok(open[0].id.clone());
    }
    let ids = summary_ids(open);
    let mut msg = String::new();
    push_str(&mut msg, "Multiple open sessions: ");
    let joined = join_strings(&ids, ", ");
    push_str(&mut msg, joined.as_str());
    push_str(&mut msg, ". Specify one with `tala ");
    push_str(&mut msg, cmd_name);
    push_str(&mut msg, " <session>` or set one with `tala use <session>`");
    assert(msg@ =~= many_open_message(ids_of(summaries_view(open@)), cmd_name@));
    Err(msg)
}

/// The open sessions named `input`.
pub open spec fn open_named(ss: Seq<SummaryView>, input: Seq<char>) -> Seq<SummaryView> {
    ss.filter(|s: SummaryView| !s.closed && s.name == Some(input))
}

/// The open sessions whose id starts with `input`.
pub open spec fn open_prefixed(ss: Seq<SummaryView>, input: Seq<char>) -> Seq<SummaryView> {
    ss.filter(|s: SummaryView| !s.closed && has_prefix(s.id, input))
}

/// The closed sessions whose id starts with `input`.
pub open spec fn closed_prefixed(ss: Seq<SummaryView>, input: Seq<char>) -> Seq<SummaryView> {
    ss.filter(|s: SummaryView| s.closed && has_prefix(s.id, input))
}

/// The error of `use` for a closed session.
pub open spec fn use_closed_message(id: Seq<char>) -> Seq<char> {
    "Session '"@ + id + "' is closed. Use `tala session reopen "@ + id + "` to open it, then `tala use "@ + id
        + "` to make it active"@
}

/// What `use <input>` makes active: among the open sessions a unique name
/// first, then a unique id or id prefix; an ambiguous name or prefix, a
/// closed session, or no match is an error.
pub open spec fn use_spec(ss: Seq<SummaryView>, input: Seq<char>) -> Result<SummaryView, Seq<char>> {
    let by_name = open_named(ss, input);
    let by_prefix = open_prefixed(ss, input);
    let closed = closed_prefixed(ss, input);
    if by_name.len() == 1 {
        Ok(by_name[0])
    } else if by_name.len() > 1 {
        Err("Multiple sessions named '"@ + input + "'. Use session ID instead."@)
    } else if by_prefix.len() == 1 {
        Ok(by_prefix[0])
    } else if by_prefix.len() > 1 {
        Err("Multiple sessions match '"@ + input + "': "@ + join(ids_of(by_prefix), ", "@) + ". Use a more specific ID."@)
    } else if closed.len() > 0 {
        Err(use_closed_message(closed[0].id))
    } else {
        Err("No active session named or matching '"@ + input + "'"@)
    }
}

/// The session `use <input>` makes active (see `use_spec`).
pub fn use_target(sessions: &Vec<SessionSummary>, input: &str) -> (r: Result<SessionSummary, String>)
    ensures
        match use_spec(summaries_view(sessions@), input@) {
            Ok(v) => r matches Ok(s) && summaries_view(seq![s])[0] == v,
            Err(m) => r matches Err(e) && e@ == m,
        },
{
    proof {
        reveal_strlit("Multiple sessions named '");
        reveal_strlit("'. Use session ID instead.");
        reveal_strlit("Multiple sessions match '");
        reveal_strlit("': ");
        reveal_strlit(", ");
        reveal_strlit(". Use a more specific ID.");
        reveal_strlit("Session '");
        reveal_strlit("' is closed. Use `tala session reopen ");
        reveal_strlit("` to open it, then `tala use ");
        reveal_strlit("` to make it active");
        reveal_strlit("No active session named or matching '");
        reveal_strlit("'");
    }
    let ghost sv = summaries_view(sessions@);
    let by_name = matching_sessions(sessions, input, MatchKind::OpenName);
    assert((|s: SummaryView| matches_kind(MatchKind::OpenName, s, input@)) =~= (|s: SummaryView| !s.closed && s.name == Some(input@)));
    assert(matched(sv, MatchKind::OpenName, input@) == open_named(sv, input@));
    assert(summaries_view(by_name@).len() == by_name@.len());
    if by_name.len() == 1 {
        let c = copy_summary(&by_name[0]);
        assert(summaries_view(seq![by_name@[0]])[0] == summaries_view(by_name@)[0]);
        return Ok(c);
    }
    if by_name.len() > 1 {
        let mut msg = String::new();
        push_str(&mut msg, "Multiple sessions named '");
        push_str(&mut msg, input);
        push_str(&mut msg, "'. Use session ID instead.");
        assert(msg@ =~= "Multiple sessions named '"@ + input@ + "'. Use session ID instead."@);
        return Err(msg);
    }
    let by_prefix = matching_sessions(sessions, input, MatchKind::OpenPrefix);
    assert((|s: SummaryView| matches_kind(MatchKind::OpenPrefix, s, input@)) =~= (|s: SummaryView| !s.closed && has_prefix(s.id, input@)));
    assert(matched(sv, MatchKind::OpenPrefix, input@) == open_prefixed(sv, input@));
    assert(summaries_view(by_prefix@).len() == by_prefix@.len());
    if by_prefix.len() == 1 {
        let c = copy_summary(&by_prefix[0]);
        assert(summaries_view(seq![by_prefix@[0]])[0] == summaries_view(by_prefix@)[0]);
        return Ok(c);
    }
    if by_prefix.len() > 1 {
        let ids = summary_ids(&by_prefix);
        let joined = join_strings(&ids, ", ");
        let mut msg = String::new();
        push_str(&mut msg, "Multiple sessions match '");
        push_str(&mut msg, input);
        push_str(&mut msg, "': ");
        push_str(&mut msg, joined.as_str());
        push_str(&mut msg, ". Use a more specific ID.");
        assert(msg@ =~= "Multiple sessions match '"@ + input@ + "': "@ + join(ids_of(open_prefixed(sv, input@)), ", "@) + ". Use a more specific ID."@);
        return Err(msg);
    }
    let closed = matching_sessions(sessions, input, MatchKind::ClosedPrefix);
    assert((|s: SummaryView| matches_kind(MatchKind::ClosedPrefix, s, input@)) =~= (|s: SummaryView| s.closed && has_prefix(s.id, input@)));
    assert(matched(sv, MatchKind::ClosedPrefix, input@) == closed_prefixed(sv, input@));
    assert(summaries_view(closed@).len() == closed@.len());
    if closed.len() > 0 {
        assert(summaries_view(closed@)[0].id == closed@[0].id@);
        let id = closed[0].id.as_str();
        let mut msg = String::new();
        push_str(&mut msg, "Session '");
        push_str(&mut msg, id);
        push_str(&mut msg, "' is closed. Use `tala session reopen ");
        push_str(&mut msg, id);
        push_str(&mut msg, "` to open it, then `tala use ");
        push_str(&mut msg, id);
        push_str(&mut msg, "` to make it active");
        assert(msg@ =~= use_closed_message(closed@[0].id@));
        return Err(msg);
    }
    let mut msg = String::new();
    push_str(&mut msg, "No active session named or matching '");
    push_str(&mut msg, input);
    push_str(&mut msg, "'");
    assert(msg@ =~= "No active session named or matching '"@ + input@ + "'"@);
    Err(msg)
}

/// What `send` does when no session is named and none is active.
#[derive(Debug)]
pub enum SendFallback {
    /// Create a new session.
    Create,
    /// Send to the only open session.
    Use(SessionSummary),
    /// Fail with this message (code `NO_ACTIVE_SESSION`).
    Ambiguous(String),
}

/// One line of the list of open sessions in an error: two spaces, the id,
/// two spaces, the name or `-`.
pub open spec fn choice_line(s: SummaryView) -> Seq<char> {
    "\n  "@ + s.id + "  "@ + name_or(s.name, "-"@)
}

/// The lines for the open sessions `ss`.
pub open spec fn choice_lines(ss: Seq<SummaryView>) -> Seq<char>
    decreases ss.len(),
{
    if ss.len() == 0 {
        Seq::empty()
    } else {
        choice_lines(ss.drop_last()) + choice_line(ss.last())
    }
}

/// The error of `send` when several sessions are open and none is active.
pub open spec fn no_active_message(open: Seq<SummaryView>) -> Seq<char> {
    "No active session set."@ + choice_lines(open) + "\nSet one with `tala use <id>`"@
}

/// What `send` does with the open sessions `open` when no session is named
/// and none is active: create one when none is open, use the only one,
/// and fail listing them when there are several.
pub fn send_fallback(open: &Vec<SessionSummary>) -> (r: SendFallback)
    ensures
        open@.len() == 0 ==> r is Create,
        open@.len() == 1 ==> (r matches SendFallback::Use(s) && summaries_view(seq![s])[0] == summaries_view(open@)[0]),
        open@.len() > 1 ==> (r matches SendFallback::Ambiguous(m) && m@ == no_active_message(summaries_view(open@))),
{
    proof {
        reveal_strlit("No active session set.");
        reveal_strlit("\n  ");
        reveal_strlit("  ");
        reveal_strlit("-");
        reveal_strlit("\nSet one with `tala use <id>`");
    }
    if open.len() == 0 {
        return SendFallback::Create;
    }
    if open.len() == 1 {
        assert(summaries_view(seq![open@[0]])[0] == summaries_view(open@)[0]);
        return SendFallback::Use(copy_summary(&open[0]));
    }
    let ghost ov = summaries_view(open@);
    let mut msg = String::new();
    push_str(&mut msg, "No active session set.");
    let mut i: usize = 0;
    assert(ov.take(0) =~= Seq::<SummaryView>::empty());
    while i < open.len()
        invariant
            ov == summaries_view(open@),
            0 <= i <= open@.len(),
            msg@ == "No active session set."@ + choice_lines(ov.take(i as int)),
        decreases open.len() - i,
    {
        assert(ov.take(i + 1).drop_last() =~= ov.take(i as int));
        assert(ov.take(i + 1).last() == ov[i as int]);
        let ghost before = msg@;
        push_str(&mut msg, "\n  ");
        push_str(&mut msg, open[i].id.as_str());
        push_str(&mut msg, "  ");
        match &open[i].name {
            Some(n) => push_str(&mut msg, n.as_str()),
            None => push_str(&mut msg, "-"),
        }
        assert(msg@ =~= before + choice_line(ov[i as int]));
        i += 1;
    }
    assert(ov.take(ov.len() as int) =~= ov);
    push_str(&mut msg, "\nSet one with `tala use <id>`");
    assert(msg@ =~= no_active_message(ov));
    SendFallback::Ambiguous(msg)
}

/// The hint `send` adds to "nothing to send" when a session is open.
pub open spec fn open_hint(open: Seq<SummaryView>) -> Seq<char> {
    if open.len() == 0 {
        Seq::empty()
    } else {
        "\nOpen session: "@ + open[0].id + " "@ + name_or(open[0].name, ""@)
            + ". Set it with `tala use` or target it with `tala send --session <id>`."@
    }
}

/// The error of `send` with nothing to send and no session to send to.
pub open spec fn nothing_to_send_message(open: Seq<SummaryView>) -> Seq<char> {
    "Nothing to send. Use `tala session create` to create a session without a message."@ + open_hint(open)
}

/// The error of `send` with nothing to send, naming the first open session.
pub fn nothing_to_send(open: &Vec<SessionSummary>) -> (r: String)
    ensures
        r@ == nothing_to_send_message(summaries_view(open@)),
{
    proof {
        reveal_strlit("Nothing to send. Use `tala session create` to create a session without a message.");
        reveal_strlit("\nOpen session: ");
        reveal_strlit(" ");
        reveal_strlit(". Set it with `tala use` or target it with `tala send --session <id>`.");
        reveal_strlit("");
    }
    let mut msg = String::new();
    push_str(&mut msg, "Nothing to send. Use `tala session create` to create a session without a message.");
    if open.len() > 0 {
        push_str(&mut msg, "\nOpen session: ");
        push_str(&mut msg, open[0].id.as_str());
        push_str(&mut msg, " ");
        match &open[0].name {
            Some(n) => push_str(&mut msg, n.as_str()),
            None => {},
        }
        push_str(&mut msg, ". Set it with `tala use` or target it with `tala send --session <id>`.");
        assert(summaries_view(open@)[0].id == open@[0].id@);
        assert(msg@ =~= nothing_to_send_message(summaries_view(open@)));
    } else {
        assert(msg@ =~= nothing_to_send_message(summaries_view(open@)));
    }
    msg
}


/// Where `wait` waits when no session is named and none is active.
#[derive(Debug)]
pub enum WaitFallback {
    /// No session is open: wait for a new one.
    AwaitNew,
    /// Wait in the only open session.
    Only(SessionSummary),
    /// Several are open: list them and let the user choose.
    Choose,
}

/// What `wait` does with the open sessions `open` when no session is named
/// and none is active: wait for a new session when none is open, wait in
/// the only one, and ask for a choice when there are several.
pub fn wait_fallback(open: &Vec<SessionSummary>) -> (r: WaitFallback)
    ensures
        open@.len() == 0 <==> r is AwaitNew,
        open@.len() == 1 <==> (r matches WaitFallback::Only(s) && summaries_view(seq![s])[0] == summaries_view(open@)[0]),
        open@.len() > 1 <==> r is Choose,
{
    if open.len() == 0 {
        WaitFallback::AwaitNew
    } else if open.len() == 1 {
        assert(summaries_view(seq![open@[0]])[0] == summaries_view(open@)[0]);
        WaitFallback::Only(copy_summary(&open[0]))
    } else {
        WaitFallback::Choose
    }
}

/// Where `send` goes, by the first rule that applies.
#[derive(Debug)]
pub enum SendTarget {
    /// The session named by `--session` (still to be resolved).
    Explicit(String),
    /// `--session` and `--name` together: fail with this message
    /// (code `INVALID_SESSION_NAME`).
    Conflict(String),
    /// Create a new session with this name.
    CreateNamed(String),
    /// The active session, if it is still there and open.
    Active(String),
    /// No session given and none active: see `send_fallback`.
    Fallback,
}

/// The error for `--name` beside an explicit session.
pub open spec fn name_conflict_message() -> Seq<char> {
    "--name creates a new session; it cannot be combined with an explicit session target"@
}

/// The target of `send`: an explicit session first (never together with
/// `--name`), then a new session under `--name`, then the active session,
/// and only then the open sessions.
pub fn send_target(session: &Option<String>, name: &Option<String>, active: &Option<String>) -> (r: SendTarget)
    ensures
        session.is_some() && name.is_none() <==> (r matches SendTarget::Explicit(id) && id@ == session.unwrap()@),
        session.is_some() && name.is_some() <==> (r matches SendTarget::Conflict(m) && m@ == name_conflict_message()),
        session.is_none() && name.is_some() <==> (r matches SendTarget::CreateNamed(n) && n@ == name.unwrap()@),
        session.is_none() && name.is_none() && active.is_some()
            <==> (r matches SendTarget::Active(id) && id@ == active.unwrap()@),
        session.is_none() && name.is_none() && active.is_none() <==> r is Fallback,
{
    proof {
        reveal_strlit("--name creates a new session; it cannot be combined with an explicit session target");
    }
    match session {
        Some(id) => {
            if name.is_some() {
                SendTarget::Conflict(
                    "--name creates a new session; it cannot be combined with an explicit session target".to_string(),
                )
            } else {
                SendTarget::Explicit(copy_string(id))
            }
        },
        None => match name {
            Some(n) => SendTarget::CreateNamed(copy_string(n)),
            None => match active {
                Some(id) => SendTarget::Active(copy_string(id)),
                None => SendTarget::Fallback,
            },
        },
    }
}

/// The error of `send` when the active session is closed.
pub open spec fn active_closed_message(id: Seq<char>) -> Seq<char> {
    "Session "@ + id + " is closed. Use `tala session reopen "@ + id + "` to reopen it."@
}

/// The error of `send` for the closed active session `id`.
pub fn active_closed(id: &str) -> (r: String)
    ensures
        r@ == active_closed_message(id@),
{
    proof {
        reveal_strlit("Session ");
        reveal_strlit(" is closed. Use `tala session reopen ");
        reveal_strlit("` to reopen it.");
    }
    let mut msg = String::new();
    push_str(&mut msg, "Session ");
    push_str(&mut msg, id);
    push_str(&mut msg, " is closed. Use `tala session reopen ");
    push_str(&mut msg, id);
    push_str(&mut msg, "` to reopen it.");
    assert(msg@ =~= active_closed_message(id@));
    msg
}

} // verus!
