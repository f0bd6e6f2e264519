//! Verified core of a chat-channel automation bot.
//!
//! The library owns the durable model of channels, their custom commands and
//! numeric counters (`store`), the textual form in which that model is
//! persisted (`json`), and the dispatcher that turns one incoming chat
//! message into store mutations and outbound replies (`dispatch`).
//! Everything that talks to the chat transport or the file system lives
//! outside the library and only hands plain values in and out.

pub mod text;
pub mod num;
pub mod store;
pub mod json;
pub mod dispatch;
pub mod laws;
