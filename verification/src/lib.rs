//! Decisions and drawing of an asynchronous direnv front end.
//!
//! The crate holds what a front end that runs `direnv` in the background has to
//! decide and to draw; the input and output around it stays with the caller.

pub mod ctl;
pub mod decimal;
pub mod envrc;
pub mod ingest_laws;
pub mod layout;
pub mod log;
pub mod mux;
pub mod pane;
pub mod pane_laws;
pub mod pty;
pub mod screen;
pub mod sent_laws;
pub mod start;
pub mod timeout;
pub mod watch;
pub mod winsize;
