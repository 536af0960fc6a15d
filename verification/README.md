# tala

Agent-to-agent messaging for AI coding tools: a small HTTP daemon holds
sessions of messages, and a command line sends, waits, lists and reads
them.

The library under `src/` is verified with Verus. It holds the session store
(sessions, transcripts, read receipts, the idempotency index, the wait
registry, persistence snapshots), the request rules of the daemon (what
each endpoint answers, how waits and streams behave), and the decisions and
text of the command line (session targeting, intent rules, paths, event
stream parsing, listings). Contracts state each function's result over
mathematical models; laws that relate several operations are proof
functions, mostly in `store_laws.rs`.

`app/` is the program around it: argument parsing, the axum server and its
event channels, the files under `~/.tala` and `.tala/`, and HTTP calls. It
converts between the library's types and their JSON forms.

`tests/` runs the library on concrete values.
