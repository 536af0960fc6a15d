//! The command line: its commands as values, which of them are read-only
//! or ask for JSON output, how the positional arguments of `send` are read,
//! the daemon-compatibility gate, and the local paths and URLs it uses.

use vstd::prelude::*;
use crate::models::PROTOCOL_VERSION;
use crate::text::{decimal, has_prefix, push_decimal, push_str, starts_with, chars_of};

verus! {

broadcast use vstd::string::group_string_axioms;

/// Exit code of a wait that ran out of time with nothing new: distinct from
/// a usage error (2) and from a failure (1).
pub const EXIT_TIMEOUT: i32 = 3;

/// The parsed command line.
#[derive(Debug, Clone)]
pub struct Cli {
    pub command: Commands,
}

/// The commands.
#[derive(Debug, Clone)]
pub enum Commands {
    /// Initialize the project's configuration (its agent name).
    Init { name: Option<String> },
    /// Set, clear or show the active session.
    Use { session_id: Option<String>, clear: bool, json: bool },
    /// Send a message.
    Send {
        session: Option<String>,
        session_arg: Option<String>,
        message: Option<String>,
        name: Option<String>,
        message_file: Option<String>,
        stdin: bool,
        parts: Vec<String>,
        wait: bool,
        sender_name: Option<String>,
        json: bool,
        quiet: bool,
        timeout: Option<u64>,
        intent: Option<String>,
        reply_to: Option<u64>,
        expect_reply: bool,
    },
    /// Wait for messages in a session, or for a new session.
    Wait {
        session: Option<String>,
        session_arg: Option<String>,
        timeout: Option<u64>,
        since: Option<u64>,
        limit: Option<usize>,
        from: Option<String>,
        json: bool,
        new_session: bool,
    },
    /// A session's transcript.
    History {
        session: Option<String>,
        session_arg: Option<String>,
        since: Option<u64>,
        from: Option<String>,
        limit: Option<usize>,
        json: bool,
    },
    /// Observe all sessions.
    Listen {
        since: Option<u64>,
        match_text: Option<String>,
        from: Option<String>,
        name: Option<String>,
        timeout: Option<u64>,
        json: bool,
    },
    /// New messages since the last check.
    Check { json: bool },
    /// List the sessions.
    List { json: bool },
    /// Discover agents of nearby projects.
    Discover { json: bool },
    /// Close a session.
    Close { session: Option<String>, session_arg: Option<String>, json: bool, quiet: bool },
    /// Requests awaiting a reply.
    Pending { json: bool },
    /// The daemon's status.
    Status { json: bool },
    /// Stop the daemon.
    Stop,
    /// Run the daemon (internal).
    Daemon,
    /// Manage sessions.
    Session { command: SessionCommands },
}

/// The session management commands.
#[derive(Debug, Clone)]
pub enum SessionCommands {
    Rename { session_id: String, name: String, json: bool, force: bool },
    Reopen { session_id: String, json: bool },
    Create { name: Option<String>, json: bool },
}

/// Whether `cmd` may inspect a daemon of another protocol version (with a
/// warning) instead of failing.
pub open spec fn read_only(cmd: Commands) -> bool {
    ||| cmd is Status
    ||| cmd is Discover
    ||| cmd is Stop
    ||| cmd is Init
    ||| cmd is Use
    ||| cmd is Daemon
}

/// Read-only commands may inspect a stale daemon (with a warning);
/// everything else must fail before talking to an incompatible daemon.
pub fn command_is_read_only(cmd: &Commands) -> (r: bool)
    ensures
        r == read_only(*cmd),
{
    match cmd {
        Commands::Status { .. } | Commands::Discover { .. } | Commands::Stop | Commands::Init { .. }
        | Commands::Use { .. } | Commands::Daemon => true,
        _ => false,
    }
}

/// The `--json` flag of a command (commands without one answer false).
pub open spec fn json_flag(cmd: Commands) -> bool {
    match cmd {
        Commands::Use { json, .. } => json,
        Commands::Send { json, .. } => json,
        Commands::Wait { json, .. } => json,
        Commands::History { json, .. } => json,
        Commands::Listen { json, .. } => json,
        Commands::List { json } => json,
        Commands::Pending { json } => json,
        Commands::Discover { json } => json,
        Commands::Close { json, .. } => json,
        Commands::Check { json } => json,
        Commands::Status { json } => json,
        Commands::Session { command } => match command {
            SessionCommands::Rename { json, .. } => json,
            SessionCommands::Reopen { json, .. } => json,
            SessionCommands::Create { json, .. } => json,
        },
        _ => false,
    }
}

/// Whether the command asked for JSON output.
pub fn command_json_output(cmd: &Commands) -> (r: bool)
    ensures
        r == json_flag(*cmd),
{
    match cmd {
        Commands::Use { json, .. } => *json,
        Commands::Send { json, .. } => *json,
        Commands::Wait { json, .. } => *json,
        Commands::History { json, .. } => *json,
        Commands::Listen { json, .. } => *json,
        Commands::List { json } => *json,
        Commands::Pending { json } => *json,
        Commands::Discover { json } => *json,
        Commands::Close { json, .. } => *json,
        Commands::Check { json } => *json,
        Commands::Status { json } => *json,
        Commands::Session { command } => match command {
            SessionCommands::Rename { json, .. } => *json,
            SessionCommands::Reopen { json, .. } => *json,
            SessionCommands::Create { json, .. } => *json,
        },
        _ => false,
    }
}

/// Whether `s` looks like a session id.
pub open spec fn looks_like_id(s: Seq<char>) -> bool {
    has_prefix(s, "sess_"@)
}

/// Whether `s` starts with `sess_`.
fn is_session_id(s: &String) -> (r: bool)
    ensures
        r == looks_like_id(s@),
{
    proof {
        reveal_strlit("sess_");
    }
    let v = chars_of(s.as_str());
    let p = chars_of("sess_");
    starts_with(&v, &p)
}

/// The session target of `send`: the `--session` flag, else the first
/// positional when it looks like an id or a message positional follows.
pub open spec fn send_session(session: Option<String>, session_arg: Option<String>, message: Option<String>) -> Option<String> {
    match session_arg {
        Some(s) => Some(s),
        None => match session {
            Some(s) => if looks_like_id(s@) || message is Some { Some(s) } else { None },
            None => None,
        },
    }
}

/// The message of `send`: the message positional, else (with `--session`)
/// the first positional, else the first positional when it was not taken
/// as the session and does not look like an id.
pub open spec fn send_message(session: Option<String>, session_arg: Option<String>, message: Option<String>) -> Option<String> {
    match message {
        Some(m) => Some(m),
        None => if session_arg is Some {
            session
        } else if send_session(session, session_arg, message) is Some {
            None
        } else {
            match session {
                Some(s) => if !looks_like_id(s@) { Some(s) } else { None },
                None => None,
            }
        },
    }
}

/// Reads the positionals of `send`: a lone positional is the message
/// unless it looks like a session id; with two, the first is the session.
pub fn resolve_send_args(session: Option<String>, session_arg: Option<String>, message: Option<String>) -> (r: (Option<String>, Option<String>))
    ensures
        r.0 == send_session(session, session_arg, message),
        r.1 == send_message(session, session_arg, message),
{
    let flag = session_arg.is_some();
    let first_is_session = match &session {
        Some(s) => is_session_id(s) || message.is_some(),
        None => false,
    };
    let first_is_id = match &session {
        Some(s) => is_session_id(s),
        None => false,
    };
    let target = match session_arg {
        Some(s) => Some(s),
        None => if first_is_session { session.clone() } else { None },
    };
    let text = match message {
        Some(m) => Some(m),
        None => if flag {
            session
        } else if target.is_some() {
            None
        } else if first_is_id {
            None
        } else {
            session
        },
    };
    (target, text)
}

/// What the compatibility gate decides.
#[derive(Debug, Clone)]
pub enum CompatVerdict {
    /// The daemon speaks this protocol (or there is none to check).
    Proceed,
    /// Print this warning and go on.
    Warn(String),
    /// Fail with this message (code `VERSION_MISMATCH`).
    Fail(String),
}

/// The message for a daemon speaking protocol `live`.
pub open spec fn mismatch_message(live: u32) -> Seq<char> {
    "daemon protocol version "@ + decimal(live as nat) + " is incompatible with this tala (requires "@
        + decimal(PROTOCOL_VERSION as nat)
        + "). Restart the daemon with `tala stop` and retry, or upgrade tala."@
}

/// The compatibility gate, given the protocol version the running daemon
/// reports (none when no daemon answers): a matching or absent daemon
/// proceeds; otherwise read-only commands warn and the others fail.
pub fn compat_verdict(cmd: &Commands, live: Option<u32>) -> (r: CompatVerdict)
    ensures
        match live {
            None => r is Proceed,
            Some(v) => if v == PROTOCOL_VERSION {
                r is Proceed
            } else if read_only(*cmd) {
                r matches CompatVerdict::Warn(m) && m@ == mismatch_message(v)
            } else {
                r matches CompatVerdict::Fail(m) && m@ == mismatch_message(v)
            },
        },
{
    let v = match live {
        None => return CompatVerdict::Proceed,
        Some(v) => v,
    };
    if v == PROTOCOL_VERSION {
        return CompatVerdict::Proceed;
    }
    proof {
        reveal_strlit("daemon protocol version ");
        reveal_strlit(" is incompatible with this tala (requires ");
        reveal_strlit("). Restart the daemon with `tala stop` and retry, or upgrade tala.");
    }
    let mut msg = String::new();
    push_str(&mut msg, "daemon protocol version ");
    push_decimal(&mut msg, v as u64);
    push_str(&mut msg, " is incompatible with this tala (requires ");
    push_decimal(&mut msg, PROTOCOL_VERSION as u64);
    push_str(&mut msg, "). Restart the daemon with `tala stop` and retry, or upgrade tala.");
    assert(msg@ =~= mismatch_message(v));
    if command_is_read_only(cmd) {
        CompatVerdict::Warn(msg)
    } else {
        CompatVerdict::Fail(msg)
    }
}

/// The URL of `path` on the daemon at `host`:`port`.
pub fn daemon_url(host: &str, port: u16, path: &str) -> (r: String)
    ensures
        r@ == "http://"@ + host@ + ":"@ + decimal(port as nat) + path@,
{
    proof {
        reveal_strlit("http://");
        reveal_strlit(":");
    }
    let mut s = String::new();
    push_str(&mut s, "http://");
    push_str(&mut s, host);
    push_str(&mut s, ":");
    push_decimal(&mut s, port as u64);
    push_str(&mut s, path);
    assert(s@ =~= "http://"@ + host@ + ":"@ + decimal(port as nat) + path@);
    s
}

} // verus!
