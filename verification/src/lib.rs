//! Core logic of a workspace terminal application: a bounded replay buffer for
//! terminal output, a local pseudo-terminal session manager that fans output
//! out to subscribers without gaps or duplicates, a client-side model of a
//! session daemon's wire protocol with credit-based flow control, and the
//! in-memory stores backing the surrounding application.

pub mod error;
pub mod flow;
pub mod json;
pub mod layout;
pub mod migrations;
pub mod protocol;
pub mod client;
pub mod context;
pub mod diff;
pub mod profiles;
pub mod pty;
pub mod text;
pub mod types;
pub mod ring;
pub mod terminal;
