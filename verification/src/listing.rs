//! The session list as `tala list` shows it: one line per session with its
//! name padded to a common width, its state and counts, whether it is the
//! active one, and who else has read it.

use vstd::prelude::*;
use crate::models::{ActiveWaitInfo, PendingObligation, ScopeView, SessionSummary, join};
use crate::roster::{lemma_str_less_irreflexive, str_less, str_lt};
use crate::store::{SummaryView, summaries_view};
use crate::targets::{join_strings, name_or, strings_view};
use crate::text::{decimal, push_decimal, push_str, str_eq, string_push};
use vstd::string::StringSliceAdditionalSpecFns;

verus! {

broadcast use vstd::string::group_string_axioms;

/// If `a` comes before `b`, `b` does not come before `a`.
pub proof fn lemma_str_less_asymmetric(a: Seq<char>, b: Seq<char>)
    requires
        str_less(a, b),
    ensures
        !str_less(b, a),
    decreases a.len(),
{
    if a.len() > 0 && b.len() > 0 && a[0] == b[0] {
        lemma_str_less_asymmetric(a.drop_first(), b.drop_first());
    }
}

/// Whether `s` is in the order of strings (equal strings side by side).
pub open spec fn ordered(s: Seq<Seq<char>>) -> bool {
    forall|j: int| 0 <= j < s.len() - 1 ==> !str_less(#[trigger] s[j + 1], s[j])
}

/// Where `x` goes among the ordered strings `v`: after every string that
/// does not come after it, before the first one that does.
fn sorted_position(v: &Vec<String>, x: &String) -> (p: usize)
    ensures
        p <= v@.len(),
        forall|j: int| 0 <= j < p ==> !str_less(x@, #[trigger] v@[j]@),
        p < v@.len() ==> str_less(x@, v@[p as int]@),
{
    let mut p: usize = 0;
    while p < v.len()
        invariant
            0 <= p <= v@.len(),
            forall|j: int| 0 <= j < p ==> !str_less(x@, #[trigger] v@[j]@),
        decreases v.len() - p,
    {
        if str_lt(x.as_str(), v[p].as_str()) {
            return p;
        }
        p += 1;
    }
    p
}

/// The strings of `v` in the order of strings (as `sort` orders them).
pub fn sort_strings(v: Vec<String>) -> (r: Vec<String>)
    ensures
        ordered(strings_view(r@)),
        strings_view(r@).to_multiset() == strings_view(v@).to_multiset(),
{
    broadcast use vstd::seq_lib::to_multiset_insert;
    let mut out: Vec<String> = Vec::new();
    let mut i: usize = 0;
    let ghost vv = strings_view(v@);
    assert(strings_view(out@) =~= vv.take(0));
    while i < v.len()
        invariant
            vv == strings_view(v@),
            0 <= i <= v@.len(),
            ordered(strings_view(out@)),
            strings_view(out@).to_multiset() == vv.take(i as int).to_multiset(),
        decreases v.len() - i,
    {
        let x = v[i].clone();
        let p = sorted_position(&out, &x);
        let ghost before = strings_view(out@);
        let ghost xv = x@;
        proof {
            assert forall|j: int| 0 <= j < p implies !str_less(xv, before[j]) by {
                assert(before[j] == out@[j]@);
            }
            if p < out@.len() {
                assert(before[p as int] == out@[p as int]@);
            }
            assert(ordered(before));
        }
        out.insert(p, x);
        proof {
            let after = strings_view(out@);
            assert(after =~= before.insert(p as int, xv));
            assert(vv.take(i + 1) =~= vv.take(i as int).push(xv));
            vstd::seq_lib::to_multiset_insert(before, p as int, xv);
            vstd::seq_lib::to_multiset_build(vv.take(i as int), xv);
            assert forall|j: int| 0 <= j < after.len() - 1 implies !str_less(#[trigger] after[j + 1], after[j]) by {
                if j + 1 < p {
                    assert(after[j] == before[j] && after[j + 1] == before[j + 1]);
                    assert(!str_less(before[j + 1], before[j]));
                } else if j + 1 == p {
                    assert(after[j] == before[j] && after[j + 1] == xv);
                } else if j == p {
                    assert(after[j] == xv && after[j + 1] == before[j]);
                    lemma_str_less_asymmetric(xv, before[j]);
                } else {
                    assert(after[j] == before[j - 1] && after[j + 1] == before[j]);
                    assert(!str_less(before[(j - 1) + 1], before[j - 1]));
                }
            }
        }
        i += 1;
    }
    assert(vv.take(vv.len() as int) =~= vv);
    out
}

/// How a reader shows: its name, `@`, and the highest id it read.
pub open spec fn reader_label(r: (Seq<char>, u64)) -> Seq<char> {
    r.0 + "@"@ + decimal(r.1 as nat)
}

/// The labels of the readers other than the local agent, in receipt order.
pub open spec fn other_readers(read_by: Seq<(Seq<char>, u64)>, local: Option<Seq<char>>) -> Seq<Seq<char>> {
    read_by.filter(|r: (Seq<char>, u64)| local != Some(r.0)).map_values(|r: (Seq<char>, u64)| reader_label(r))
}

/// The views of (reader, id) pairs.
pub open spec fn receipts_view(v: Seq<(String, u64)>) -> Seq<(Seq<char>, u64)> {
    Seq::new(v.len(), |i: int| (v[i].0@, v[i].1))
}

/// The view of an optional string slice.
pub open spec fn opt_str(s: Option<&str>) -> Option<Seq<char>> {
    match s {
        Some(x) => Some(x@),
        None => None,
    }
}

/// The end of a list line naming the other readers, in the order of
/// strings: `  read: a@3, b@5`; nothing when there are none.
pub fn read_suffix(read_by: &Vec<(String, u64)>, local: Option<&str>) -> (r: String)
    ensures
        exists|sorted: Seq<Seq<char>>| {
            &&& ordered(sorted)
            &&& sorted.to_multiset() == other_readers(receipts_view(read_by@), opt_str(local)).to_multiset()
            &&& r@ == if sorted.len() == 0 { Seq::empty() } else { "  read: "@ + join(sorted, ", "@) }
        },
{
    proof {
        reveal_strlit("@");
        reveal_strlit("  read: ");
        reveal_strlit(", ");
    }
    let ghost rv = receipts_view(read_by@);
    let ghost keep = |r: (Seq<char>, u64)| opt_str(local) != Some(r.0);
    let mut labels: Vec<String> = Vec::new();
    let mut i: usize = 0;
    assert(rv.take(0).filter(keep) =~= Seq::<(Seq<char>, u64)>::empty());
    assert(strings_view(labels@) =~= Seq::<Seq<char>>::empty());
    while i < read_by.len()
        invariant
            rv == receipts_view(read_by@),
            keep == (|r: (Seq<char>, u64)| opt_str(local) != Some(r.0)),
            0 <= i <= read_by@.len(),
            strings_view(labels@) == rv.take(i as int).filter(keep).map_values(|r: (Seq<char>, u64)| reader_label(r)),
        decreases read_by.len() - i,
    {
        reveal_with_fuel(Seq::filter, 1);
        assert(rv.take(i + 1).drop_last() =~= rv.take(i as int));
        assert(rv.take(i + 1).last() == (read_by@[i as int].0@, read_by@[i as int].1));
        let mine = match local {
            Some(l) => str_eq(l, read_by[i].0.as_str()),
            None => false,
        };
        if !mine {
            let ghost before = strings_view(labels@);
            let mut label = String::new();
            push_str(&mut label, read_by[i].0.as_str());
            push_str(&mut label, "@");
            push_decimal(&mut label, read_by[i].1);
            labels.push(label);
            assert(strings_view(labels@) =~= before.push(reader_label(rv[i as int])));
            assert(rv.take(i + 1).filter(keep) == rv.take(i as int).filter(keep).push(rv[i as int]));
            assert(rv.take(i + 1).filter(keep).map_values(|r: (Seq<char>, u64)| reader_label(r))
                =~= rv.take(i as int).filter(keep).map_values(|r: (Seq<char>, u64)| reader_label(r)).push(reader_label(rv[i as int])));
        } else {
            assert(rv.take(i + 1).filter(keep) == rv.take(i as int).filter(keep));
        }
        i += 1;
    }
    assert(rv.take(rv.len() as int) =~= rv);
    assert(keep == (|r: (Seq<char>, u64)| opt_str(local) != Some(r.0)));
    let sorted = sort_strings(labels);
    let mut out = String::new();
    if sorted.len() > 0 {
        push_str(&mut out, "  read: ");
        let joined = join_strings(&sorted, ", ");
        push_str(&mut out, joined.as_str());
    }
    assert(strings_view(sorted@).len() == sorted@.len());
    assert(sorted@.len() == 0 ==> out@ =~= Seq::<char>::empty());
    out
}

/// The name a list line shows: the session's name, or `-`.
pub open spec fn shown_name(n: Option<Seq<char>>) -> Seq<char> {
    name_or(n, "-"@)
}

/// The widest shown name of `ss` in bytes, at least `floor`.
pub open spec fn widest(ss: Seq<SummaryView>, floor: nat) -> nat
    decreases ss.len(),
{
    if ss.len() == 0 {
        floor
    } else {
        let w = widest(ss.drop_last(), floor);
        let n = vstd::utf8::encode_utf8(shown_name(ss.last().name)).len();
        if n > w { n } else { w }
    }
}

/// The width of the name column: the widest shown name in bytes, and at
/// least 4.
pub fn name_width(sessions: &Vec<SessionSummary>) -> (r: usize)
    ensures
        r as nat == widest(summaries_view(sessions@), 4),
{
    proof {
        reveal_strlit("-");
    }
    let ghost sv = summaries_view(sessions@);
    let mut w: usize = 4;
    let mut i: usize = 0;
    assert(sv.take(0) =~= Seq::<SummaryView>::empty());
    while i < sessions.len()
        invariant
            sv == summaries_view(sessions@),
            0 <= i <= sessions@.len(),
            w as nat == widest(sv.take(i as int), 4),
        decreases sessions.len() - i,
    {
        assert(sv.take(i + 1).drop_last() =~= sv.take(i as int));
        assert(sv.take(i + 1).last() == sv[i as int]);
        proof {
            reveal_strlit("-");
        }
        let n: usize = match &sessions[i].name {
            Some(name) => name.as_str().as_bytes().len(),
            None => "-".as_bytes().len(),
        };
        assert(n as nat == vstd::utf8::encode_utf8(shown_name(sv[i as int].name)).len());
        if n > w {
            w = n;
        }
        i += 1;
    }
    assert(sv.take(sv.len() as int) =~= sv);
    w
}

/// `s` followed by spaces up to `width` characters.
pub open spec fn padded(s: Seq<char>, width: nat) -> Seq<char> {
    if s.len() < width { s + Seq::new((width - s.len()) as nat, |i: int| ' ') } else { s }
}

/// How many of `pending` are owed in session `sid`.
pub open spec fn pending_in_spec(pending: Seq<PendingObligation>, sid: Seq<char>) -> nat {
    pending.filter(|p: PendingObligation| p.session_id@ == sid).len()
}

/// How many of `pending` are owed in session `sid`.
pub fn pending_in(pending: &Vec<PendingObligation>, sid: &str) -> (r: usize)
    ensures
        r as nat == pending_in_spec(pending@, sid@),
{
    let ghost pv = pending@;
    let ghost keep = |p: PendingObligation| p.session_id@ == sid@;
    let mut n: usize = 0;
    let mut i: usize = 0;
    assert(pv.take(0).filter(keep) =~= Seq::<PendingObligation>::empty());
    while i < pending.len()
        invariant
            pv == pending@,
            keep == (|p: PendingObligation| p.session_id@ == sid@),
            0 <= i <= pending@.len(),
            n as nat == pv.take(i as int).filter(keep).len(),
            n <= i,
        decreases pending.len() - i,
    {
        reveal_with_fuel(Seq::filter, 1);
        assert(pv.take(i + 1).drop_last() =~= pv.take(i as int));
        assert(pv.take(i + 1).last() == pending@[i as int]);
        if str_eq(pending[i].session_id.as_str(), sid) {
            n += 1;
        }
        i += 1;
    }
    assert(pv.take(pv.len() as int) =~= pv);
    n
}

/// How many of `waits` wait on session `sid`.
pub open spec fn waiting_on_spec(waits: Seq<ActiveWaitInfo>, sid: Seq<char>) -> nat {
    waits.filter(|w: ActiveWaitInfo| w.scope@ == ScopeView::Session(sid)).len()
}

/// How many of `waits` wait on session `sid`.
pub fn waiting_on(waits: &Vec<ActiveWaitInfo>, sid: &str) -> (r: usize)
    ensures
        r as nat == waiting_on_spec(waits@, sid@),
{
    let ghost wv = waits@;
    let ghost keep = |w: ActiveWaitInfo| w.scope@ == ScopeView::Session(sid@);
    let mut n: usize = 0;
    let mut i: usize = 0;
    assert(wv.take(0).filter(keep) =~= Seq::<ActiveWaitInfo>::empty());
    while i < waits.len()
        invariant
            wv == waits@,
            keep == (|w: ActiveWaitInfo| w.scope@ == ScopeView::Session(sid@)),
            0 <= i <= waits@.len(),
            n as nat == wv.take(i as int).filter(keep).len(),
            n <= i,
        decreases waits.len() - i,
    {
        reveal_with_fuel(Seq::filter, 1);
        assert(wv.take(i + 1).drop_last() =~= wv.take(i as int));
        assert(wv.take(i + 1).last() == waits@[i as int]);
        let hit = match &waits[i].scope {
            crate::models::WaitScope::Session(s) => str_eq(s.as_str(), sid),
            crate::models::WaitScope::AnyNewSession => false,
        };
        if hit {
            n += 1;
        }
        i += 1;
    }
    assert(wv.take(wv.len() as int) =~= wv);
    n
}

/// The counts an open session's line shows in brackets: new messages,
/// pending requests and waiters, each only when there are some.
pub open spec fn extra_text(unread: nat, pending: nat, waiting: nat) -> Seq<char> {
    let parts = (if unread > 0 { seq![decimal(unread) + " new"@] } else { Seq::empty() })
        + (if pending > 0 { seq![decimal(pending) + " pending"@] } else { Seq::empty() })
        + (if waiting > 0 { seq![decimal(waiting) + " waiting"@] } else { Seq::empty() });
    if parts.len() == 0 { Seq::empty() } else { " ("@ + join(parts, ", "@) + ")"@ }
}

/// One line of `tala list`: id, name padded to `width`, state, message
/// count, (for an open session) the counts in brackets, ` *` for the
/// active session, and the readers.
pub open spec fn list_line_spec(s: SummaryView, width: nat, unread: nat, pending: nat, waiting: nat, active: bool, suffix: Seq<char>) -> Seq<char> {
    let marker = if active { " *"@ } else { "  "@ };
    let head = s.id + "  "@ + padded(shown_name(s.name), width) + "  "@;
    if s.closed {
        head + "closed"@ + "  "@ + decimal(s.message_count) + " msgs"@ + marker + suffix
    } else {
        head + "open"@ + "  "@ + decimal(s.message_count) + " msgs"@ + extra_text(unread, pending, waiting) + marker + suffix
    }
}

/// The counts in brackets of an open session's line.
fn format_extra(unread: usize, pending: usize, waiting: usize) -> (r: String)
    ensures
        r@ == extra_text(unread as nat, pending as nat, waiting as nat),
{
    proof {
        reveal_strlit(" new");
        reveal_strlit(" pending");
        reveal_strlit(" waiting");
        reveal_strlit(" (");
        reveal_strlit(", ");
        reveal_strlit(")");
    }
    let mut parts: Vec<String> = Vec::new();
    if unread > 0 {
        let mut p = String::new();
        push_decimal(&mut p, unread as u64);
        push_str(&mut p, " new");
        parts.push(p);
    }
    if pending > 0 {
        let mut p = String::new();
        push_decimal(&mut p, pending as u64);
        push_str(&mut p, " pending");
        parts.push(p);
    }
    if waiting > 0 {
        let mut p = String::new();
        push_decimal(&mut p, waiting as u64);
        push_str(&mut p, " waiting");
        parts.push(p);
    }
    let ghost expected = (if unread > 0 { seq![decimal(unread as nat) + " new"@] } else { Seq::empty() })
        + (if pending > 0 { seq![decimal(pending as nat) + " pending"@] } else { Seq::empty() })
        + (if waiting > 0 { seq![decimal(waiting as nat) + " waiting"@] } else { Seq::empty() });
    assert(strings_view(parts@) =~= expected);
    let mut out = String::new();
    if parts.len() > 0 {
        push_str(&mut out, " (");
        let joined = join_strings(&parts, ", ");
        push_str(&mut out, joined.as_str());
        push_str(&mut out, ")");
    }
    assert(parts@.len() == 0 ==> out@ =~= Seq::<char>::empty());
    out
}

/// One line of `tala list` (see `list_line_spec`).
pub fn list_line(s: &SessionSummary, width: usize, unread: usize, pending: usize, waiting: usize, active: bool, suffix: &str) -> (r: String)
    ensures
        r@ == list_line_spec(summaries_view(seq![*s])[0], width as nat, unread as nat, pending as nat, waiting as nat, active, suffix@),
{
    proof {
        reveal_strlit("  ");
        reveal_strlit(" *");
        reveal_strlit("-");
        reveal_strlit("closed");
        reveal_strlit("open");
        reveal_strlit(" msgs");
    }
    let ghost sv = summaries_view(seq![*s])[0];
    let mut out = String::new();
    push_str(&mut out, s.id.as_str());
    push_str(&mut out, "  ");
    let name: &str = match &s.name {
        Some(n) => n.as_str(),
        None => "-",
    };
    assert(name@ == shown_name(sv.name));
    push_str(&mut out, name);
    let v = crate::text::chars_of(name);
    let mut k: usize = v.len();
    let ghost base = out@;
    while k < width
        invariant
            v@ == name@,
            v@.len() <= k <= width || (k == v@.len() && k >= width),
            out@ == base + Seq::new((k - v@.len()) as nat, |i: int| ' '),
        decreases width - k,
    {
        let ghost before = out@;
        string_push(&mut out, ' ');
        assert(out@ =~= base + Seq::new((k + 1 - v@.len()) as nat, |i: int| ' '));
        k += 1;
    }
    assert(out@ =~= base.subrange(0, base.len() - name@.len()) + padded(name@, width as nat)) by {
        if name@.len() < width {
            assert(k == width);
        } else {
            assert(k == v@.len());
            assert(Seq::new(0nat, |i: int| ' ') =~= Seq::<char>::empty());
        }
    }
    push_str(&mut out, "  ");
    if s.closed {
        push_str(&mut out, "closed");
        push_str(&mut out, "  ");
        push_decimal(&mut out, s.message_count as u64);
        push_str(&mut out, " msgs");
    } else {
        push_str(&mut out, "open");
        push_str(&mut out, "  ");
        push_decimal(&mut out, s.message_count as u64);
        push_str(&mut out, " msgs");
        let extra = format_extra(unread, pending, waiting);
        push_str(&mut out, extra.as_str());
    }
    push_str(&mut out, if active { " *" } else { "  " });
    push_str(&mut out, suffix);
    assert(out@ =~= list_line_spec(sv, width as nat, unread as nat, pending as nat, waiting as nat, active, suffix@));
    out
}

} // verus!
