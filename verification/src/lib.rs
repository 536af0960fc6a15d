//! Agent-to-agent messaging: the verified core of the session store, the
//! request rules of the daemon, and the pure decisions of the command line.

pub mod text;
pub mod seqs;
pub mod semver;
pub mod precedence;
pub mod render;
pub mod models;
pub mod clock;
pub mod waits;
pub mod answers;
pub mod session_ids;
pub mod store;
pub mod store_laws;
pub mod api;
pub mod waiting;
pub mod arrivals;
pub mod observe;
pub mod roster;
pub mod commands;
pub mod locations;
pub mod targets;
pub mod sends;
pub mod display;
pub mod sse;
pub mod requests;
pub mod listing;
pub mod checking;
