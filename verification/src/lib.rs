//! Structured access to the line-oriented output of the `flatpak` command-line
//! tool, and the decisions that drive its interactive sessions.
//!
//! Every function here is pure: it takes text or plain values and returns
//! records or decisions. Spawning processes, timers and event delivery belong
//! to the caller.
pub mod cache;
pub mod command;
pub mod deps;
pub mod extensions;
pub mod listing;
pub mod relay;
pub mod session;
pub mod text;
pub mod updates;
