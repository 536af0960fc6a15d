//! Where things live: the project-local files, the daemon's home and its
//! files, who the local agent is, and the encodings used in daemon URLs.

use vstd::prelude::*;
use vstd::string::StringSliceAdditionalSpecFns;
use crate::text::{hex_char, hex_digit, push_str, string_push};

verus! {

broadcast use vstd::string::group_string_axioms;

/// The project's configuration file (its agent name).
pub fn local_config_path() -> (r: String)
    ensures
        r@ == ".tala/config.json"@,
{
    ".tala/config.json".to_string()
}

/// The file naming the project's active session.
pub fn local_active_session_path() -> (r: String)
    ensures
        r@ == ".tala/active-session"@,
{
    ".tala/active-session".to_string()
}

/// The project's read cursors, one per session.
pub fn cursors_path() -> (r: String)
    ensures
        r@ == ".tala/cursors.json"@,
{
    ".tala/cursors.json".to_string()
}

/// `name` inside directory `base`: a separator is added unless `base` is
/// empty or already ends with one.
pub open spec fn joined(base: Seq<char>, name: Seq<char>) -> Seq<char> {
    if base.len() == 0 {
        name
    } else if base.last() == '/' {
        base + name
    } else {
        base + seq!['/'] + name
    }
}

/// `name` inside directory `base`.
pub fn join_path(base: &str, name: &str) -> (r: String)
    ensures
        r@ == joined(base@, name@),
{
    let mut s = String::new();
    push_str(&mut s, base);
    let v = crate::text::chars_of(base);
    if v.len() > 0 {
        if v[v.len() - 1] != '/' {
            string_push(&mut s, '/');
        }
    }
    push_str(&mut s, name);
    proof {
        if base@.len() == 0 {
            assert(s@ =~= name@);
        } else if base@.last() == '/' {
            assert(s@ =~= base@ + name@);
        } else {
            assert(s@ =~= base@ + seq!['/'] + name@);
        }
    }
    s
}

/// The daemon's home: `TALA_HOME` when set, else `.tala` in the user's
/// home directory, else `/tmp/.tala`.
pub open spec fn home_spec(tala_home: Option<Seq<char>>, home: Option<Seq<char>>) -> Seq<char> {
    match tala_home {
        Some(t) => t,
        None => match home {
            Some(h) => joined(h, ".tala"@),
            None => "/tmp/.tala"@,
        },
    }
}

/// The daemon's home, given the values of `TALA_HOME` and `HOME`.
pub fn tala_home(tala_home_var: Option<String>, home_var: Option<String>) -> (r: String)
    ensures
        r@ == home_spec(crate::text::opt_view(tala_home_var), crate::text::opt_view(home_var)),
{
    proof {
        reveal_strlit(".tala");
        reveal_strlit("/tmp/.tala");
    }
    match tala_home_var {
        Some(t) => t,
        None => match home_var {
            Some(h) => join_path(h.as_str(), ".tala"),
            None => "/tmp/.tala".to_string(),
        },
    }
}

/// Where the daemon keeps its sessions.
pub fn sessions_path(home: &str) -> (r: String)
    ensures
        r@ == joined(home@, "sessions.json"@),
{
    join_path(home, "sessions.json")
}

/// Where the daemon keeps its messages.
pub fn messages_path(home: &str) -> (r: String)
    ensures
        r@ == joined(home@, "messages.json"@),
{
    join_path(home, "messages.json")
}

/// Where the running daemon describes itself.
pub fn daemon_json_path(home: &str) -> (r: String)
    ensures
        r@ == joined(home@, "daemon.json"@),
{
    join_path(home, "daemon.json")
}

/// The default agent name: the working directory's name, else `unknown`.
pub fn get_default_sender(dir_name: Option<String>) -> (r: String)
    ensures
        r@ == match dir_name { Some(d) => d@, None => "unknown"@ },
{
    proof {
        reveal_strlit("unknown");
    }
    match dir_name {
        Some(d) => d,
        None => "unknown".to_string(),
    }
}

/// The sending agent: an explicit override, else the project's configured
/// name, else the default sender.
pub fn get_sender_name(override_name: Option<&str>, configured: Option<String>, default_sender: String) -> (r: String)
    ensures
        r@ == match override_name {
            Some(o) => o@,
            None => match configured {
                Some(c) => c@,
                None => default_sender@,
            },
        },
{
    match override_name {
        Some(o) => o.to_string(),
        None => match configured {
            Some(c) => c,
            None => default_sender,
        },
    }
}

/// Bytes left as they are in a URL.
pub open spec fn unreserved(b: u8) -> bool {
    ||| (65 <= b && b <= 90)
    ||| (97 <= b && b <= 122)
    ||| (48 <= b && b <= 57)
    ||| b == 45
    ||| b == 95
    ||| b == 46
    ||| b == 126
}

/// The encoding of one byte: itself when unreserved, else `%` and two
/// upper-case hexadecimal digits.
pub open spec fn encode_byte(b: u8) -> Seq<char> {
    if unreserved(b) {
        seq![b as char]
    } else {
        seq!['%', hex_char((b / 16) as nat), hex_char((b % 16) as nat)]
    }
}

/// The percent-encoding of `bytes`.
pub open spec fn percent_spec(bytes: Seq<u8>) -> Seq<char>
    decreases bytes.len(),
{
    if bytes.len() == 0 {
        Seq::empty()
    } else {
        percent_spec(bytes.drop_last()) + encode_byte(bytes.last())
    }
}

/// Percent-encodes every byte of the UTF-8 form of `s` but the unreserved
/// ones (letters, digits, `-`, `_`, `.`, `~`).
pub fn percent_encode(s: &str) -> (r: String)
    ensures
        r@ == percent_spec(s.spec_bytes()),
{
    let bytes = s.as_bytes();
    let mut out = String::new();
    let mut i: usize = 0;
    while i < bytes.len()
        invariant
            bytes@ == s.spec_bytes(),
            0 <= i <= bytes@.len(),
            out@ == percent_spec(bytes@.take(i as int)),
        decreases bytes.len() - i,
    {
        assert(bytes@.take(i + 1).drop_last() =~= bytes@.take(i as int));
        let b = bytes[i];
        let ghost before = out@;
        if (65 <= b && b <= 90) || (97 <= b && b <= 122) || (48 <= b && b <= 57) || b == 45 || b == 95 || b == 46 || b == 126 {
            string_push(&mut out, b as char);
        } else {
            string_push(&mut out, '%');
            string_push(&mut out, hex_digit(b / 16));
            string_push(&mut out, hex_digit(b % 16));
        }
        assert(out@ =~= before + encode_byte(b));
        i += 1;
    }
    assert(bytes@.take(bytes@.len() as int) =~= bytes@);
    out
}

/// The URL form of one character of a query value.
pub open spec fn url_char(c: char) -> Seq<char> {
    if c == ' ' {
        "%20"@
    } else if c == '#' {
        "%23"@
    } else if c == '&' {
        "%26"@
    } else if c == '=' {
        "%3D"@
    } else if c == '+' {
        "%2B"@
    } else {
        seq![c]
    }
}

/// The URL form of a query value.
pub open spec fn url_spec(s: Seq<char>) -> Seq<char>
    decreases s.len(),
{
    if s.len() == 0 {
        Seq::empty()
    } else {
        url_spec(s.drop_last()) + url_char(s.last())
    }
}

/// Escapes the characters that would break a query value: space, `#`,
/// `&`, `=` and `+`.
pub fn urlencoding(s: &str) -> (r: String)
    ensures
        r@ == url_spec(s@),
{
    proof {
        reveal_strlit("%20");
        reveal_strlit("%23");
        reveal_strlit("%26");
        reveal_strlit("%3D");
        reveal_strlit("%2B");
    }
    let v = crate::text::chars_of(s);
    let mut out = String::new();
    let mut i: usize = 0;
    while i < v.len()
        invariant
            v@ == s@,
            0 <= i <= v@.len(),
            out@ == url_spec(v@.take(i as int)),
        decreases v.len() - i,
    {
        assert(v@.take(i + 1).drop_last() =~= v@.take(i as int));
        let c = v[i];
        let ghost before = out@;
        if c == ' ' {
            push_str(&mut out, "%20");
        } else if c == '#' {
            push_str(&mut out, "%23");
        } else if c == '&' {
            push_str(&mut out, "%26");
        } else if c == '=' {
            push_str(&mut out, "%3D");
        } else if c == '+' {
            push_str(&mut out, "%2B");
        } else {
            string_push(&mut out, c);
        }
        assert(out@ =~= before + url_char(c));
        i += 1;
    }
    assert(v@.take(v@.len() as int) =~= v@);
    out
}


/// The active session a `.tala/active-session` file names: its trimmed
/// content, none when that is empty.
pub fn active_session_of(content: &str) -> (r: Option<String>)
    ensures
        match r {
            Some(id) => id@ == crate::text::trimmed(content@) && id@.len() > 0,
            None => crate::text::trimmed(content@).len() == 0,
        },
{
    let id = crate::text::trim(content);
    if id.as_str().unicode_len() == 0 {
        None
    } else {
        Some(id)
    }
}

/// How the daemon's home is shown: the path, and where it came from when
/// `TALA_HOME` set it.
pub fn home_display(home: &str, tala_home_var: Option<String>) -> (r: String)
    ensures
        r@ == match tala_home_var {
            Some(v) => home@ + " (from TALA_HOME="@ + v@ + ")"@,
            None => home@,
        },
{
    proof {
        reveal_strlit(" (from TALA_HOME=");
        reveal_strlit(")");
    }
    let mut out = String::new();
    push_str(&mut out, home);
    if let Some(v) = tala_home_var {
        push_str(&mut out, " (from TALA_HOME=");
        push_str(&mut out, v.as_str());
        push_str(&mut out, ")");
    }
    out
}

} // verus!
