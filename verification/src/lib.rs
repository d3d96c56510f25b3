//! Session supervision and command dispatch engine for a chat bot.
//!
//! The crate models the decision core of a long-running chat client:
//! a reconnect loop with a bounded failure budget, an event router that
//! tracks per-user activity, a keyword-based handler registry with
//! ordered fallthrough dispatch, and a per-server command-prefix table.
//! All I/O (the chat gateway, the persistence backend, the clock) stays
//! outside: callers hand the library plain values and perform the
//! outbound sends it returns.

pub mod context;
pub mod error;
pub mod gateway;
pub mod handlers;
pub mod message_handler;
pub mod models;
pub mod session;
pub mod text;
pub mod time;

pub use error::BotError;
