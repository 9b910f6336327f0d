//! Coordinator of a multi-room chat service.
//!
//! The crate holds the state machine behind a chat server:
//!
//! - [`id`]: the allocator of session identifiers;
//! - [`rooms`]: the room registry;
//! - [`server`]: the server, which owns the session directory, the room
//!   registry and the sequence counter, and its commands;
//! - [`sql`], [`status`], [`wire`]: the chat record, the statements of its
//!   table and its text on the wire;
//! - [`model`], [`trace`]: the mathematical model of the server and what
//!   holds of every run of commands.
//!
//! The server never touches a socket or a database itself: every command
//! returns the notices that the caller has to persist and deliver.

pub mod id;
pub mod model;
pub mod rooms;
pub mod server;
pub mod sql;
pub mod status;
pub mod trace;
pub mod wire;
