//! The data the daemon and the command line exchange: sessions, messages
//! and their parts, intents, waits, and the request and response shapes.
//! Times are nanoseconds since the Unix epoch.

use vstd::prelude::*;
use crate::text::{
    chars_of, contains_chars, contains_seq, copy_opt_string, opt_view, push_chars, push_str,
    string_push,
};

verus! {

broadcast use vstd::string::group_string_axioms;

/// Wire protocol version. The command line refuses to talk to a daemon
/// that reports another one.
pub const PROTOCOL_VERSION: u32 = 1;

/// What `daemon.json` records about the running daemon.
#[derive(Debug, Clone)]
pub struct DaemonInfo {
    pub pid: u32,
    pub port: u16,
    pub host: String,
    pub started_at: i64,
    /// Older daemons wrote no version; they read as 0, a mismatch.
    pub protocol_version: u32,
}

/// A conversation between agents.
#[derive(Debug, Clone)]
pub struct Session {
    pub id: String,
    pub name: Option<String>,
    pub created_at: i64,
    pub last_activity: i64,
    pub closed: bool,
}

/// The mathematical value of a session.
pub struct SessionView {
    pub id: Seq<char>,
    pub name: Option<Seq<char>>,
    pub created_at: i64,
    pub last_activity: i64,
    pub closed: bool,
}

impl View for Session {
    type V = SessionView;

    open spec fn view(&self) -> SessionView {
        SessionView {
            id: self.id@,
            name: opt_view(self.name),
            created_at: self.created_at,
            last_activity: self.last_activity,
            closed: self.closed,
        }
    }
}

impl Session {
    /// A copy of this session.
    pub fn copy(&self) -> (r: Session)
        ensures
            r@ == self@,
    {
        Session {
            id: self.id.clone(),
            name: copy_opt_string(&self.name),
            created_at: self.created_at,
            last_activity: self.last_activity,
            closed: self.closed,
        }
    }
}

/// A request to rename a session.
#[derive(Debug, Clone)]
pub struct RenameSessionRequest {
    pub name: String,
    pub force: bool,
}

/// What a message declares about the exchange.
#[derive(Debug, Clone, Copy, PartialEq, Eq, Structural)]
pub enum Intent {
    /// Informational; no reply owed.
    Fyi,
    /// A request that expects a reply.
    Req,
    /// An answer.
    Reply,
    /// The exchange is over.
    Out,
}

impl Default for Intent {
    fn default() -> (r: Intent)
        ensures
            r == Intent::Fyi,
    {
        Intent::Fyi
    }
}

/// The badge text of an intent.
pub open spec fn badge_spec(i: Intent) -> Seq<char> {
    match i {
        Intent::Req => "REQ"@,
        Intent::Fyi => "FYI"@,
        Intent::Reply => "REPLY"@,
        Intent::Out => "OUT"@,
    }
}

/// The intent named by a lower-case word.
pub open spec fn intent_named(s: Seq<char>) -> Option<Intent> {
    if s == "req"@ {
        Some(Intent::Req)
    } else if s == "fyi"@ {
        Some(Intent::Fyi)
    } else if s == "reply"@ {
        Some(Intent::Reply)
    } else if s == "out"@ {
        Some(Intent::Out)
    } else {
        None
    }
}

impl Intent {
    /// The badge shown for the intent: `REQ`, `FYI`, `REPLY` or `OUT`.
    pub fn badge(self) -> (r: &'static str)
        ensures
            r@ == badge_spec(self),
    {
        proof {
            reveal_strlit("REQ");
            reveal_strlit("FYI");
            reveal_strlit("REPLY");
            reveal_strlit("OUT");
        }
        match self {
            Intent::Req => "REQ",
            Intent::Fyi => "FYI",
            Intent::Reply => "REPLY",
            Intent::Out => "OUT",
        }
    }

    /// The intent named `req`, `fyi`, `reply` or `out`; any other word names none.
    pub fn from_str(s: &str) -> (r: Option<Intent>)
        ensures
            r == intent_named(s@),
    {
        let v = chars_of(s);
        let req = chars_of("req");
        let fyi = chars_of("fyi");
        let reply = chars_of("reply");
        let out = chars_of("out");
        if crate::text::chars_eq(&v, &req) {
            Some(Intent::Req)
        } else if crate::text::chars_eq(&v, &fyi) {
            Some(Intent::Fyi)
        } else if crate::text::chars_eq(&v, &reply) {
            Some(Intent::Reply)
        } else if crate::text::chars_eq(&v, &out) {
            Some(Intent::Out)
        } else {
            None
        }
    }
}

/// The smallest unit of message content. A message's content is an ordered
/// list of parts; legacy string content is a single text part.
#[derive(Debug, Clone)]
pub enum Part {
    Text { content: String },
    File { path: String, label: Option<String> },
    /// Structured data; `value` is its compact JSON text.
    Data { value: String, label: Option<String> },
}

/// The mathematical value of a part.
pub enum PartView {
    Text { content: Seq<char> },
    File { path: Seq<char>, label: Option<Seq<char>> },
    Data { value: Seq<char>, label: Option<Seq<char>> },
}

impl View for Part {
    type V = PartView;

    open spec fn view(&self) -> PartView {
        match self {
            Part::Text { content } => PartView::Text { content: content@ },
            Part::File { path, label } => PartView::File { path: path@, label: opt_view(*label) },
            Part::Data { value, label } => PartView::Data { value: value@, label: opt_view(*label) },
        }
    }
}

/// The views of a sequence of parts.
pub open spec fn parts_view(s: Seq<Part>) -> Seq<PartView> {
    Seq::new(s.len(), |i: int| s[i]@)
}

/// The placeholder text of a part.
pub open spec fn placeholder_spec(p: PartView) -> Seq<char> {
    match p {
        PartView::Text { .. } => "[text]"@,
        PartView::File { .. } => "[file]"@,
        PartView::Data { .. } => "[data]"@,
    }
}

impl Part {
    /// Short placeholder used in summaries when a message has no text part.
    pub fn placeholder(&self) -> (r: &'static str)
        ensures
            r@ == placeholder_spec(self@),
    {
        proof {
            reveal_strlit("[text]");
            reveal_strlit("[file]");
            reveal_strlit("[data]");
        }
        match self {
            Part::Text { .. } => "[text]",
            Part::File { .. } => "[file]",
            Part::Data { .. } => "[data]",
        }
    }

    /// A copy of this part.
    pub fn copy(&self) -> (r: Part)
        ensures
            r@ == self@,
    {
        match self {
            Part::Text { content } => Part::Text { content: content.clone() },
            Part::File { path, label } => Part::File { path: path.clone(), label: copy_opt_string(label) },
            Part::Data { value, label } => Part::Data { value: value.clone(), label: copy_opt_string(label) },
        }
    }
}

/// A copy of a list of parts.
pub fn copy_parts(v: &Vec<Part>) -> (r: Vec<Part>)
    ensures
        parts_view(r@) == parts_view(v@),
{
    let mut r: Vec<Part> = Vec::new();
    let mut i: usize = 0;
    while i < v.len()
        invariant
            0 <= i <= v@.len(),
            r@.len() == i,
            forall|j: int| 0 <= j < i ==> r@[j]@ == v@[j]@,
        decreases v.len() - i,
    {
        r.push(v[i].copy());
        i += 1;
    }
    assert(parts_view(r@) =~= parts_view(v@));
    r
}

/// A message in a session.
#[derive(Debug, Clone)]
pub struct Message {
    pub id: u64,
    pub session_id: String,
    pub sender: String,
    pub parts: Vec<Part>,
    pub timestamp: i64,
    pub intent: Intent,
    pub reply_to: Option<u64>,
    pub expect_reply: bool,
    pub waiting_until: Option<i64>,
    /// Client-generated idempotency key; none for legacy messages.
    pub idempotency_key: Option<String>,
}

/// The mathematical value of a message.
pub struct MessageView {
    pub id: u64,
    pub session_id: Seq<char>,
    pub sender: Seq<char>,
    pub parts: Seq<PartView>,
    pub timestamp: i64,
    pub intent: Intent,
    pub reply_to: Option<u64>,
    pub expect_reply: bool,
    pub waiting_until: Option<i64>,
    pub idempotency_key: Option<Seq<char>>,
}

impl View for Message {
    type V = MessageView;

    open spec fn view(&self) -> MessageView {
        MessageView {
            id: self.id,
            session_id: self.session_id@,
            sender: self.sender@,
            parts: parts_view(self.parts@),
            timestamp: self.timestamp,
            intent: self.intent,
            reply_to: self.reply_to,
            expect_reply: self.expect_reply,
            waiting_until: self.waiting_until,
            idempotency_key: opt_view(self.idempotency_key),
        }
    }
}

/// The views of a sequence of messages.
pub open spec fn messages_view(s: Seq<Message>) -> Seq<MessageView> {
    Seq::new(s.len(), |i: int| s[i]@)
}

/// The contents of the text parts, in order.
pub open spec fn texts(parts: Seq<PartView>) -> Seq<Seq<char>>
    decreases parts.len(),
{
    if parts.len() == 0 {
        Seq::empty()
    } else {
        let rest = texts(parts.drop_last());
        match parts.last() {
            PartView::Text { content } => rest.push(content),
            _ => rest,
        }
    }
}

/// The pieces joined with `sep` between each two.
pub open spec fn join(pieces: Seq<Seq<char>>, sep: Seq<char>) -> Seq<char>
    decreases pieces.len(),
{
    if pieces.len() == 0 {
        Seq::empty()
    } else if pieces.len() == 1 {
        pieces[0]
    } else {
        join(pieces.drop_last(), sep) + sep + pieces.last()
    }
}

/// The human rendering of one part.
pub open spec fn render_part(p: PartView) -> Seq<char> {
    match p {
        PartView::Text { content } => content,
        PartView::File { path, label } => match label {
            Some(l) => "[file: "@ + path + " ("@ + l + ")]"@,
            None => "[file: "@ + path + "]"@,
        },
        PartView::Data { value, label } => match label {
            Some(l) => "[data: "@ + value + " ("@ + l + ")]"@,
            None => "[data: "@ + value + "]"@,
        },
    }
}

/// The human rendering of a list of parts: each part rendered, with a line
/// break before it whenever something has been written already.
pub open spec fn render_parts(parts: Seq<PartView>) -> Seq<char>
    decreases parts.len(),
{
    if parts.len() == 0 {
        Seq::empty()
    } else {
        let before = render_parts(parts.drop_last());
        let sep = if before.len() > 0 { seq!['\n'] } else { Seq::empty() };
        before + sep + render_part(parts.last())
    }
}

/// The position of the first text part, if any.
pub open spec fn first_text_at(parts: Seq<PartView>, i: int) -> bool {
    &&& 0 <= i < parts.len()
    &&& parts[i] is Text
    &&& forall|j: int| 0 <= j < i ==> !(parts[j] is Text)
}

/// The content of the first text part, if any.
pub open spec fn first_text(parts: Seq<PartView>) -> Option<Seq<char>> {
    if exists|i: int| first_text_at(parts, i) {
        let i = choose|i: int| first_text_at(parts, i);
        Some(parts[i]->Text_content)
    } else {
        None
    }
}

/// The summary snippet: the first text part's first 120 characters, or the
/// first part's placeholder, or nothing.
pub open spec fn snippet_spec(parts: Seq<PartView>) -> Seq<char> {
    match first_text(parts) {
        Some(t) => if t.len() <= 120 { t } else { t.take(120) },
        None => if parts.len() > 0 { placeholder_spec(parts[0]) } else { Seq::empty() },
    }
}

/// `p` is a text part containing `needle`.
pub open spec fn text_contains(p: PartView, needle: Seq<char>) -> bool {
    p matches PartView::Text { content } && contains_seq(content, needle)
}

/// Some text part contains `needle`.
pub open spec fn matches_spec(parts: Seq<PartView>, needle: Seq<char>) -> bool {
    exists|i: int| 0 <= i < parts.len() && #[trigger] text_contains(parts[i], needle)
}

proof fn lemma_first_text_unique(parts: Seq<PartView>, i: int, j: int)
    requires
        first_text_at(parts, i),
        first_text_at(parts, j),
    ensures
        i == j,
{
}

impl Message {
    /// The message's text parts joined by line breaks (the legacy `content` view).
    pub fn text_content(&self) -> (r: String)
        ensures
            r@ == join(texts(self@.parts), "\n"@),
    {
        proof {
            reveal_strlit("\n");
        }
        let mut out = String::new();
        let mut count: usize = 0;
        let mut i: usize = 0;
        assert(parts_view(self.parts@).take(0) =~= Seq::<PartView>::empty());
        while i < self.parts.len()
            invariant
                0 <= i <= self.parts@.len(),
                count == texts(parts_view(self.parts@).take(i as int)).len(),
                count <= i,
                out@ == join(texts(parts_view(self.parts@).take(i as int)), "\n"@),
            decreases self.parts.len() - i,
        {
            let ghost pv = parts_view(self.parts@);
            assert(pv.take(i + 1).drop_last() =~= pv.take(i as int));
            assert(pv.take(i + 1).last() == self.parts@[i as int]@);
            match &self.parts[i] {
                Part::Text { content } => {
                    if count > 0 {
                        string_push(&mut out, '\n');
                    }
                    push_str(&mut out, content.as_str());
                    proof {
                        reveal_strlit("\n");
                        let t = texts(pv.take(i as int));
                        if t.len() == 0 {
                            assert(t.push(content@).len() == 1);
                            assert(out@ =~= join(t.push(content@), "\n"@));
                        } else {
                            assert("\n"@ =~= seq!['\n']);
                            assert(t.push(content@).drop_last() =~= t);
                            assert(t.push(content@).last() == content@);
                            assert(join(t.push(content@), "\n"@) == join(t, "\n"@) + "\n"@ + content@);
                            assert(out@ =~= join(t.push(content@), "\n"@));
                        }
                    }
                    count += 1;
                },
                _ => {},
            }
            i += 1;
        }
        assert(parts_view(self.parts@).take(self.parts@.len() as int) =~= parts_view(self.parts@));
        out
    }

    /// Human rendering: text parts as they are, file and data parts as
    /// annotations, in part order.
    pub fn render(&self) -> (r: String)
        ensures
            r@ == render_parts(self@.parts),
    {
        let mut out = String::new();
        let mut i: usize = 0;
        assert(parts_view(self.parts@).take(0) =~= Seq::<PartView>::empty());
        while i < self.parts.len()
            invariant
                0 <= i <= self.parts@.len(),
                out@ == render_parts(parts_view(self.parts@).take(i as int)),
            decreases self.parts.len() - i,
        {
            let ghost pv = parts_view(self.parts@);
            assert(pv.take(i + 1).drop_last() =~= pv.take(i as int));
            assert(pv.take(i + 1).last() == self.parts@[i as int]@);
            let ghost before = out@;
            if out.as_str().unicode_len() > 0 {
                string_push(&mut out, '\n');
            }
            let ghost mid = out@;
            push_part(&mut out, &self.parts[i]);
            assert(out@ =~= before + (if before.len() > 0 { seq!['\n'] } else { Seq::<char>::empty() })
                + render_part(self.parts@[i as int]@));
            i += 1;
        }
        assert(parts_view(self.parts@).take(self.parts@.len() as int) =~= parts_view(self.parts@));
        out
    }

    /// Snippet for summaries: the first text part (at most 120 characters),
    /// or the placeholder of the first part.
    pub fn snippet(&self) -> (r: String)
        ensures
            r@ == snippet_spec(self@.parts),
    {
        let mut i: usize = 0;
        while i < self.parts.len()
            invariant
                0 <= i <= self.parts@.len(),
                forall|j: int| 0 <= j < i ==> !(self.parts@[j]@ is Text),
            decreases self.parts.len() - i,
        {
            match &self.parts[i] {
                Part::Text { content } => {
                    let v = chars_of(content.as_str());
                    let end: usize = if v.len() <= 120 { v.len() } else { 120 };
                    let mut out = String::new();
                    push_chars(&mut out, &v, 0, end);
                    proof {
                        let pv = parts_view(self.parts@);
                        assert(first_text_at(pv, i as int));
                        let k = choose|k: int| first_text_at(pv, k);
                        lemma_first_text_unique(pv, i as int, k);
                        assert(v@.subrange(0, end as int) =~= (if v@.len() <= 120 { v@ } else { v@.take(120) }));
                    }
                    return out;
                },
                _ => {},
            }
            i += 1;
        }
        proof {
            let pv = parts_view(self.parts@);
            assert(!exists|k: int| first_text_at(pv, k));
        }
        if self.parts.len() > 0 {
            let mut out = String::new();
            push_str(&mut out, self.parts[0].placeholder());
            assert(out@ =~= placeholder_spec(self.parts@[0]@));
            out
        } else {
            String::new()
        }
    }

    /// Whether some text part contains `needle` (match filters look at text only).
    pub fn matches(&self, needle: &str) -> (r: bool)
        ensures
            r == matches_spec(self@.parts, needle@),
    {
        let n = chars_of(needle);
        let mut i: usize = 0;
        while i < self.parts.len()
            invariant
                n@ == needle@,
                0 <= i <= self.parts@.len(),
                forall|j: int| 0 <= j < i ==> !text_contains(#[trigger] self.parts@[j]@, needle@),
            decreases self.parts.len() - i,
        {
            match &self.parts[i] {
                Part::Text { content } => {
                    let h = chars_of(content.as_str());
                    if contains_chars(&h, &n) {
                        assert(parts_view(self.parts@)[i as int] == self.parts@[i as int]@);
                        assert(text_contains(parts_view(self.parts@)[i as int], needle@));
                        return true;
                    }
                },
                _ => {},
            }
            i += 1;
        }
        assert forall|j: int| 0 <= j < parts_view(self.parts@).len() implies !text_contains(#[trigger] parts_view(self.parts@)[j], needle@) by {
            assert(parts_view(self.parts@)[j] == self.parts@[j]@);
        }
        false
    }

    /// The content of the first text part, if there is one.
    pub fn first_text_content(&self) -> (r: Option<String>)
        ensures
            opt_view(r) == first_text(self@.parts),
    {
        let mut i: usize = 0;
        while i < self.parts.len()
            invariant
                0 <= i <= self.parts@.len(),
                forall|j: int| 0 <= j < i ==> !(self.parts@[j]@ is Text),
            decreases self.parts.len() - i,
        {
            match &self.parts[i] {
                Part::Text { content } => {
                    proof {
                        let pv = parts_view(self.parts@);
                        assert(first_text_at(pv, i as int));
                        let k = choose|k: int| first_text_at(pv, k);
                        lemma_first_text_unique(pv, i as int, k);
                    }
                    return Some(content.clone());
                },
                _ => {},
            }
            i += 1;
        }
        proof {
            let pv = parts_view(self.parts@);
            assert(!exists|k: int| first_text_at(pv, k));
        }
        None
    }

    /// A copy of this message.
    pub fn copy(&self) -> (r: Message)
        ensures
            r@ == self@,
    {
        Message {
            id: self.id,
            session_id: self.session_id.clone(),
            sender: self.sender.clone(),
            parts: copy_parts(&self.parts),
            timestamp: self.timestamp,
            intent: self.intent,
            reply_to: self.reply_to,
            expect_reply: self.expect_reply,
            waiting_until: self.waiting_until,
            idempotency_key: copy_opt_string(&self.idempotency_key),
        }
    }
}

/// Appends the rendering of `p` to `out`.
fn push_part(out: &mut String, p: &Part)
    ensures
        final(out)@ == old(out)@ + render_part(p@),
{
    proof {
        reveal_strlit("[file: ");
        reveal_strlit("[data: ");
        reveal_strlit(" (");
        reveal_strlit(")]");
        reveal_strlit("]");
    }
    match p {
        Part::Text { content } => {
            push_str(out, content.as_str());
        },
        Part::File { path, label } => {
            push_str(out, "[file: ");
            push_str(out, path.as_str());
            match label {
                Some(l) => {
                    push_str(out, " (");
                    push_str(out, l.as_str());
                    push_str(out, ")]");
                },
                None => {
                    push_str(out, "]");
                },
            }
        },
        Part::Data { value, label } => {
            push_str(out, "[data: ");
            push_str(out, value.as_str());
            match label {
                Some(l) => {
                    push_str(out, " (");
                    push_str(out, l.as_str());
                    push_str(out, ")]");
                },
                None => {
                    push_str(out, "]");
                },
            }
        },
    }
    assert(final(out)@ =~= old(out)@ + render_part(p@));
}

/// A copy of a list of messages.
pub fn copy_messages(v: &Vec<Message>) -> (r: Vec<Message>)
    ensures
        messages_view(r@) == messages_view(v@),
{
    let mut r: Vec<Message> = Vec::new();
    let mut i: usize = 0;
    while i < v.len()
        invariant
            0 <= i <= v@.len(),
            r@.len() == i,
            forall|j: int| 0 <= j < i ==> r@[j]@ == v@[j]@,
        decreases v.len() - i,
    {
        r.push(v[i].copy());
        i += 1;
    }
    assert(messages_view(r@) =~= messages_view(v@));
    r
}

/// A request to create a session, optionally with a first message and a name.
#[derive(Debug, Clone)]
pub struct CreateSessionRequest {
    pub message: Option<String>,
    pub sender: Option<String>,
    pub name: Option<String>,
}

/// The answer to a session creation.
#[derive(Debug, Clone)]
pub struct CreateSessionResponse {
    pub id: String,
    pub first_message_id: Option<u64>,
}

/// A request to send a message.
#[derive(Debug, Clone)]
pub struct SendMessageRequest {
    pub sender: String,
    /// Legacy single text part; `parts` wins when both are present.
    pub content: Option<String>,
    pub parts: Option<Vec<Part>>,
    /// Required: generated by the client and reused across its retries.
    pub idempotency_key: Option<String>,
    pub intent: Option<Intent>,
    pub reply_to: Option<u64>,
    pub expect_reply: bool,
    pub wait_timeout: Option<u64>,
}

/// The answer to a send.
#[derive(Debug, Clone)]
pub struct SendMessageResponse {
    pub id: u64,
    pub session_id: String,
    pub sender: String,
    /// Legacy `content` view (text parts joined by line breaks).
    pub content: String,
    pub parts: Vec<Part>,
    pub timestamp: i64,
    pub cursor: Option<u64>,
    pub intent: Intent,
    pub reply_to: Option<u64>,
    pub expect_reply: bool,
    pub waiting_until: Option<i64>,
    /// The send repeated an earlier one with the same idempotency key; the
    /// ids name the original message.
    pub duplicate: bool,
}

/// The answer to a wait.
#[derive(Debug, Clone)]
pub struct WaitResponse {
    pub messages: Vec<Message>,
    pub timeout: bool,
    pub timeout_after: Option<u64>,
    pub closed: bool,
    pub cursor: Option<u64>,
    pub overlaps: Vec<WaitOverlap>,
}

/// A session transcript.
#[derive(Debug, Clone)]
pub struct RecapResponse {
    pub session: Session,
    pub messages: Vec<Message>,
    pub cursor: Option<u64>,
}

/// A line of the session list.
#[derive(Debug, Clone)]
pub struct SessionSummary {
    pub id: String,
    pub name: Option<String>,
    pub created_at: i64,
    pub closed: bool,
    pub message_count: usize,
    /// Highest message id read, per reader.
    pub read_by: Vec<(String, u64)>,
}

/// The daemon's status.
#[derive(Debug, Clone)]
pub struct StatusResponse {
    pub pid: u32,
    pub port: u16,
    pub uptime_seconds: i64,
    pub session_count: usize,
    pub active_waits: Vec<ActiveWaitInfo>,
    pub protocol_version: u32,
}

/// The answer to a close.
#[derive(Debug, Clone)]
pub struct CloseSessionResponse {
    pub status: String,
}

/// An error answer.
#[derive(Debug, Clone)]
pub struct ErrorResponse {
    pub error: String,
}

/// What the daemon broadcasts.
#[derive(Debug, Clone)]
pub enum DaemonEvent {
    NewMessage(Message),
    SessionClosed,
    SessionCreated(String),
    SessionReopened(String),
    SessionRenamed { id: String, old_name: String, new_name: String },
    WaitUpdate { identity: String, scope: WaitScope },
}

/// An event as the observe stream reports it.
#[derive(Debug, Clone)]
pub struct ObserveEvent {
    pub session_id: String,
    pub session_name: Option<String>,
    pub kind: String,
    pub message: Option<Message>,
}

/// What the daemon knows of an agent.
#[derive(Debug, Clone)]
pub struct AgentSummary {
    pub sender: String,
    pub last_seen: i64,
    pub message_count: usize,
}

/// What a wait is waiting on.
#[derive(Debug, Clone)]
pub enum WaitScope {
    Session(String),
    AnyNewSession,
}

/// The mathematical value of a wait scope.
pub enum ScopeView {
    Session(Seq<char>),
    AnyNewSession,
}

impl View for WaitScope {
    type V = ScopeView;

    open spec fn view(&self) -> ScopeView {
        match self {
            WaitScope::Session(s) => ScopeView::Session(s@),
            WaitScope::AnyNewSession => ScopeView::AnyNewSession,
        }
    }
}

impl WaitScope {
    /// A copy of this scope.
    pub fn copy(&self) -> (r: WaitScope)
        ensures
            r@ == self@,
    {
        match self {
            WaitScope::Session(s) => WaitScope::Session(s.clone()),
            WaitScope::AnyNewSession => WaitScope::AnyNewSession,
        }
    }
}

/// Another wait that overlaps a new one.
#[derive(Debug, Clone)]
pub struct WaitOverlap {
    pub identity: String,
    pub scope: WaitScope,
    pub remaining_secs: i64,
}

/// An active wait, as status reports it.
#[derive(Debug, Clone)]
pub struct ActiveWaitInfo {
    pub identity: String,
    pub scope: WaitScope,
    pub since: i64,
    pub deadline: i64,
    pub remaining_secs: i64,
}

/// A request or an expected reply that nobody has answered yet.
#[derive(Debug, Clone)]
pub struct PendingObligation {
    pub session_id: String,
    pub session_name: Option<String>,
    pub message_id: u64,
    pub sender: String,
    /// The message's snippet.
    pub content: String,
    /// The full content of the message's first text part.
    pub content_full: Option<String>,
    pub elapsed_seconds: i64,
    pub intent: Intent,
    pub waiting_until: Option<i64>,
}

/// Query parameters of the transcript endpoint.
#[derive(Debug, Clone)]
pub struct RecapQuery {
    pub since: Option<u64>,
    pub limit: Option<usize>,
    pub from: Option<String>,
    pub cursor: Option<u64>,
    /// The reader, whose read receipt is recorded.
    pub sender: Option<String>,
}

} // verus!
