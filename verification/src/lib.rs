//! Coordination core for a host-local shared chat-session store.
//!
//! Several independent command-line invocations on one host share a single
//! logical session store. The first process to find the well-known local
//! port free becomes the leader and keeps the authoritative in-memory table,
//! persisting one snapshot file per session; every later process detects the
//! leader and forwards each operation over a small newline-framed JSON
//! protocol. This crate holds the verified heart of that design: the session
//! data model, the in-memory store, the wire and snapshot codec, the role
//! selection rules, and the client-side interpretation of replies. The
//! sockets, files and timers that drive it live outside the library and hand
//! it plain values.

pub mod codec;
pub mod config;
pub mod digits;
pub mod escape;
pub mod history;
mod ids;
pub mod protocol;
pub mod proxy;
pub mod role;
pub mod service;
pub mod session;
pub mod store;
