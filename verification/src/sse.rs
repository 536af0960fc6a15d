//! Reading the daemon's event streams on the command line: cutting the
//! received text into event blocks, reading a block's event type and data,
//! and folding the events of a wait stream into one wait answer.

use vstd::prelude::*;
use crate::models::{Message, MessageView, WaitOverlap, WaitResponse, messages_view, copy_messages};
use crate::seqs::{split_chars, split_seq, sub_chars, views};
use crate::text::{chars_of, has_prefix, starts_with, str_eq, string_from_chars};

verus! {

broadcast use vstd::string::group_string_axioms;

/// A blank line (two line feeds) starts at `i` in `s`.
pub open spec fn blank_line_at(s: Seq<char>, i: int) -> bool {
    0 <= i && i + 1 < s.len() && s[i] == '\n' && s[i + 1] == '\n'
}

/// `i` is where the first blank line of `s` starts.
pub open spec fn first_blank(s: Seq<char>, i: int) -> bool {
    blank_line_at(s, i) && forall|j: int| 0 <= j < i ==> !blank_line_at(s, j)
}

/// The first complete event block of `s` and what follows its blank line,
/// if `s` holds a blank line.
pub open spec fn next_block_spec(s: Seq<char>) -> Option<(Seq<char>, Seq<char>)> {
    if exists|i: int| first_blank(s, i) {
        let i = choose|i: int| first_blank(s, i);
        Some((s.subrange(0, i), s.subrange(i + 2, s.len() as int)))
    } else {
        None
    }
}

/// The first blank line is unique.
proof fn lemma_first_blank_unique(s: Seq<char>, i: int, j: int)
    requires
        first_blank(s, i),
        first_blank(s, j),
    ensures
        i == j,
{
}

/// Cuts the first complete event block off `buffer`: the text before the
/// first blank line and the text after it; none while no blank line has
/// arrived.
pub fn next_block(buffer: &str) -> (r: Option<(String, String)>)
    ensures
        match next_block_spec(buffer@) {
            Some((b, rest)) => r matches Some((x, y)) && x@ == b && y@ == rest,
            None => r is None,
        },
{
    let v = chars_of(buffer);
    let n = v.len();
    let mut i: usize = 0;
    while i < n && i + 1 < n
        invariant
            v@ == buffer@,
            n == v@.len(),
            0 <= i,
            i <= n,
            forall|j: int| 0 <= j < i ==> !blank_line_at(v@, j),
        decreases n - i,
    {
        if v[i] == '\n' && v[i + 1] == '\n' {
            assert(first_blank(v@, i as int));
            proof {
                let k = choose|k: int| first_blank(v@, k);
                lemma_first_blank_unique(v@, i as int, k);
            }
            let head = sub_chars(&v, 0, i);
            let tail = sub_chars(&v, i + 2, n);
            return Some((string_from_chars(&head), string_from_chars(&tail)));
        }
        i += 1;
    }
    assert(!exists|k: int| first_blank(v@, k)) by {
        assert forall|k: int| !first_blank(v@, k) by {
            if first_blank(v@, k) {
                assert(k < i || k + 1 >= n);
            }
        }
    }
    None
}

/// `l` without a carriage return that ended it.
pub open spec fn strip_cr(l: Seq<char>) -> Seq<char> {
    if l.len() > 0 && l.last() == '\r' { l.drop_last() } else { l }
}

/// The lines of `s` (as `str::lines`): split at line feeds, a carriage
/// return before a line feed dropped, and no empty line after a final
/// line feed.
pub open spec fn lines_spec(s: Seq<char>) -> Seq<Seq<char>> {
    let p = split_seq(s, '\n');
    let body = p.drop_last().map_values(|l: Seq<char>| strip_cr(l));
    if p.last().len() == 0 { body } else { body.push(p.last()) }
}

/// The value of the first `event: ` line among `ls`.
pub open spec fn first_event(ls: Seq<Seq<char>>) -> Option<Seq<char>>
    decreases ls.len(),
{
    if ls.len() == 0 {
        None
    } else if has_prefix(ls[0], "event: "@) {
        Some(ls[0].skip(7))
    } else {
        first_event(ls.drop_first())
    }
}

/// The value of the last `data: ` line among `ls`.
pub open spec fn last_data(ls: Seq<Seq<char>>) -> Option<Seq<char>>
    decreases ls.len(),
{
    if ls.len() == 0 {
        None
    } else if has_prefix(ls.last(), "data: "@) {
        Some(ls.last().skip(6))
    } else {
        last_data(ls.drop_last())
    }
}

/// The event type of a block: its first `event: ` line, else `message`.
pub open spec fn block_event(b: Seq<char>) -> Seq<char> {
    match first_event(lines_spec(b)) {
        Some(e) => e,
        None => "message"@,
    }
}

/// The data of a block: its last `data: ` line, else nothing.
pub open spec fn block_data(b: Seq<char>) -> Seq<char> {
    match last_data(lines_spec(b)) {
        Some(d) => d,
        None => Seq::empty(),
    }
}

/// The lines of `s` (see `lines_spec`).
fn lines_of(s: &str) -> (r: Vec<Vec<char>>)
    ensures
        views(r@) == lines_spec(s@),
{
    let v = chars_of(s);
    let pieces = split_chars(&v, '\n');
    proof {
        crate::seqs::lemma_split_nonempty(s@, '\n');
    }
    let ghost pv = views(pieces@);
    let n = pieces.len();
    let mut out: Vec<Vec<char>> = Vec::new();
    let mut i: usize = 0;
    while i + 1 < n
        invariant
            pv == views(pieces@),
            pv == split_seq(s@, '\n'),
            n == pieces@.len(),
            n >= 1,
            0 <= i < n,
            views(out@) == pv.take(i as int).map_values(|l: Seq<char>| strip_cr(l)),
        decreases n - i,
    {
        let p = &pieces[i];
        let k = p.len();
        let line = if k > 0 && p[k - 1] == '\r' { sub_chars(p, 0, k - 1) } else { sub_chars(p, 0, k) };
        assert(line@ == strip_cr(pv[i as int])) by {
            assert(pv[i as int] == p@);
            if k > 0 && p@[k - 1] == '\r' {
                assert(p@.drop_last() =~= p@.subrange(0, k - 1));
            } else {
                assert(p@ =~= p@.subrange(0, k as int));
            }
        }
        let ghost before = out@;
        out.push(line);
        assert(views(out@) =~= views(before).push(line@));
        assert(pv.take(i + 1).map_values(|l: Seq<char>| strip_cr(l))
            =~= pv.take(i as int).map_values(|l: Seq<char>| strip_cr(l)).push(strip_cr(pv[i as int])));
        i += 1;
    }
    assert(pv.take(i as int) =~= pv.drop_last());
    let last = &pieces[n - 1];
    assert(pv.last() == last@);
    if last.len() > 0 {
        let ghost before = out@;
        out.push(sub_chars(last, 0, last.len()));
        assert(last@.subrange(0, last@.len() as int) =~= last@);
        assert(views(out@) =~= views(before).push(last@));
    }
    out
}

/// The value of the first `event: ` line among `ls`.
fn find_event(ls: &Vec<Vec<char>>) -> (r: Option<Vec<char>>)
    ensures
        match first_event(views(ls@)) {
            Some(e) => r matches Some(x) && x@ == e,
            None => r is None,
        },
{
    proof {
        reveal_strlit("event: ");
    }
    let ghost lv = views(ls@);
    let prefix = chars_of("event: ");
    let mut i: usize = 0;
    assert(lv.skip(0) =~= lv);
    while i < ls.len()
        invariant
            lv == views(ls@),
            prefix@ == "event: "@,
            prefix@.len() == 7,
            0 <= i <= ls@.len(),
            first_event(lv) == first_event(lv.skip(i as int)),
        decreases ls.len() - i,
    {
        assert(lv.skip(i as int)[0] == ls@[i as int]@);
        if starts_with(&ls[i], &prefix) {
            let l = &ls[i];
            assert(l@.skip(7) =~= l@.subrange(7, l@.len() as int));
            return Some(sub_chars(l, 7, l.len()));
        }
        assert(lv.skip(i as int).drop_first() =~= lv.skip(i + 1));
        i += 1;
    }
    assert(lv.skip(i as int) =~= Seq::<Seq<char>>::empty());
    None
}

/// The value of the last `data: ` line among `ls`.
fn find_data(ls: &Vec<Vec<char>>) -> (r: Option<Vec<char>>)
    ensures
        match last_data(views(ls@)) {
            Some(d) => r matches Some(x) && x@ == d,
            None => r is None,
        },
{
    proof {
        reveal_strlit("data: ");
    }
    let ghost lv = views(ls@);
    let prefix = chars_of("data: ");
    let mut data: Option<Vec<char>> = None;
    let mut j: usize = 0;
    assert(lv.take(0) =~= Seq::<Seq<char>>::empty());
    while j < ls.len()
        invariant
            lv == views(ls@),
            prefix@ == "data: "@,
            prefix@.len() == 6,
            0 <= j <= ls@.len(),
            match last_data(lv.take(j as int)) {
                Some(d) => data matches Some(x) && x@ == d,
                None => data is None,
            },
        decreases ls.len() - j,
    {
        assert(lv.take(j + 1).drop_last() =~= lv.take(j as int));
        assert(lv.take(j + 1).last() == ls@[j as int]@);
        if starts_with(&ls[j], &prefix) {
            let l = &ls[j];
            assert(l@.skip(6) =~= l@.subrange(6, l@.len() as int));
            data = Some(sub_chars(l, 6, l.len()));
        }
        j += 1;
    }
    assert(lv.take(lv.len() as int) =~= lv);
    data
}

/// The event type and the data of an event block.
pub fn parse_block(block: &str) -> (r: (String, String))
    ensures
        r.0@ == block_event(block@),
        r.1@ == block_data(block@),
{
    proof {
        reveal_strlit("event: ");
        reveal_strlit("data: ");
        reveal_strlit("message");
    }
    let ls = lines_of(block);
    let ghost lv = views(ls@);
    let event = find_event(&ls);
    let data = find_data(&ls);
    let e = match event {
        Some(e) => string_from_chars(&e),
        None => "message".to_string(),
    };
    let d = match data {
        Some(d) => string_from_chars(&d),
        None => String::new(),
    };
    (e, d)
}

/// The kinds of events a wait stream carries.
#[derive(Debug, Clone, Copy, PartialEq, Eq, Structural)]
pub enum EventKind {
    Message,
    Overlap,
    Result,
    Closed,
    Other,
}

/// The kind of an event type.
pub open spec fn kind_of(t: Seq<char>) -> EventKind {
    if t == "message"@ {
        EventKind::Message
    } else if t == "overlap"@ {
        EventKind::Overlap
    } else if t == "result"@ {
        EventKind::Result
    } else if t == "closed"@ {
        EventKind::Closed
    } else {
        EventKind::Other
    }
}

/// The kind of an event type.
pub fn classify_event(t: &str) -> (r: EventKind)
    ensures
        r == kind_of(t@),
{
    proof {
        reveal_strlit("message");
        reveal_strlit("overlap");
        reveal_strlit("result");
        reveal_strlit("closed");
    }
    if str_eq(t, "message") {
        EventKind::Message
    } else if str_eq(t, "overlap") {
        EventKind::Overlap
    } else if str_eq(t, "result") {
        EventKind::Result
    } else if str_eq(t, "closed") {
        EventKind::Closed
    } else {
        EventKind::Other
    }
}

/// An event of a wait stream, its data read.
#[derive(Debug)]
pub enum WaitEvent {
    /// A message event whose data is a message.
    Message(Message),
    /// The final result, read as a wait answer.
    Result(WaitResponse),
    /// A final result that only says the wait timed out.
    TimedOut(Option<u64>),
    /// The session closed.
    Closed,
    /// Anything else (overlap notes, unreadable data).
    Other,
}

/// What a wait stream has delivered so far.
#[derive(Debug)]
pub struct WaitTally {
    pub messages: Vec<Message>,
    pub timeout: bool,
    pub timeout_after: Option<u64>,
    pub closed: bool,
    pub cursor: Option<u64>,
}

/// The mathematical value of a tally.
pub struct TallyView {
    pub messages: Seq<MessageView>,
    pub timeout: bool,
    pub timeout_after: Option<u64>,
    pub closed: bool,
    pub cursor: Option<u64>,
}

impl View for WaitTally {
    type V = TallyView;

    open spec fn view(&self) -> TallyView {
        TallyView {
            messages: messages_view(self.messages@),
            timeout: self.timeout,
            timeout_after: self.timeout_after,
            closed: self.closed,
            cursor: self.cursor,
        }
    }
}

/// The tally after one event: a message is kept and becomes the cursor; a
/// result sets the flags, replaces the messages when it carries some, and
/// sets the cursor when it has one; a bare timeout marks a timeout; a
/// close marks closed.
pub open spec fn tally_step(t: TallyView, e: WaitEvent) -> TallyView {
    match e {
        WaitEvent::Message(m) => TallyView { messages: t.messages.push(m@), cursor: Some(m.id), ..t },
        WaitEvent::Result(res) => TallyView {
            messages: if res.messages@.len() > 0 { messages_view(res.messages@) } else { t.messages },
            timeout: res.timeout,
            timeout_after: res.timeout_after,
            closed: res.closed,
            cursor: match res.cursor { Some(c) => Some(c), None => t.cursor },
        },
        WaitEvent::TimedOut(after) => TallyView { timeout: true, timeout_after: after, ..t },
        WaitEvent::Closed => TallyView { closed: true, ..t },
        WaitEvent::Other => t,
    }
}

impl WaitTally {
    /// Nothing delivered yet.
    pub fn new() -> (r: WaitTally)
        ensures
            r@ == (TallyView { messages: Seq::empty(), timeout: false, timeout_after: None, closed: false, cursor: None }),
    {
        let r = WaitTally { messages: Vec::new(), timeout: false, timeout_after: None, closed: false, cursor: None };
        assert(messages_view(r.messages@) =~= Seq::<MessageView>::empty());
        r
    }

    /// Takes one event into account (see `tally_step`).
    pub fn step(&mut self, e: WaitEvent)
        ensures
            final(self)@ == tally_step(old(self)@, e),
    {
        match e {
            WaitEvent::Message(m) => {
                let ghost before = self.messages@;
                self.cursor = Some(m.id);
                self.messages.push(m);
                assert(messages_view(self.messages@) =~= messages_view(before).push(m@));
            },
            WaitEvent::Result(res) => {
                self.timeout = res.timeout;
                self.timeout_after = res.timeout_after;
                self.closed = res.closed;
                if res.messages.len() > 0 {
                    self.messages = res.messages;
                }
                match res.cursor {
                    Some(c) => self.cursor = Some(c),
                    None => {},
                }
            },
            WaitEvent::TimedOut(after) => {
                self.timeout = true;
                self.timeout_after = after;
            },
            WaitEvent::Closed => {
                self.closed = true;
            },
            WaitEvent::Other => {},
        }
    }

    /// The wait answer the stream amounts to (no overlaps: those were
    /// reported as they came).
    pub fn finish(self) -> (r: WaitResponse)
        ensures
            messages_view(r.messages@) == self@.messages,
            r.timeout == self@.timeout,
            r.timeout_after == self@.timeout_after,
            r.closed == self@.closed,
            r.cursor == self@.cursor,
            r.overlaps@.len() == 0,
    {
        WaitResponse {
            messages: self.messages,
            timeout: self.timeout,
            timeout_after: self.timeout_after,
            closed: self.closed,
            cursor: self.cursor,
            overlaps: Vec::new(),
        }
    }
}

} // verus!
