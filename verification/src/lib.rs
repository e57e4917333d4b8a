//! A read-only browser for local Codex sessions: the session model, the
//! browsing state machine, protocol decoding and row layout, with their
//! contracts proved by Verus.

pub mod app;
pub mod cli;
pub mod codex;
pub mod domain;
pub mod text;
pub mod tui;
