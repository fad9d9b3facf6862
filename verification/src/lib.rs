//! A broker between editors and language servers: one server for each project and language,
//! shared by every editor that has the project open.
//!
//! This crate decides; it reads and writes nothing itself. Its caller hands it what arrived
//! (bytes, lines, texts, the time) and does what it answers.
//!
//! - [`framing`]: how a message is cut out of a stream of bytes, and how one is written.
//! - [`json`] and [`message`]: what a message says.
//! - [`session`]: the state of a running server.
//! - [`editor`], [`server`] and [`query`]: what follows when an editor, a server or a client with
//!   a single question sends something.
//! - [`multiplexer`]: which servers run.
//! - [`workspace`], [`path`] and [`config`]: which project and language a file belongs to, and
//!   which command serves it.
//! - [`operations`]: what each operation gives back, told of the operation itself.
//! - [`routing`]: what becomes of each message, told from its members.
//! - [`laws`]: what holds of a server whatever happens to it.

pub mod config;
pub mod editor;
pub mod error;
pub mod framing;
pub mod json;
pub mod laws;
pub mod message;
pub mod multiplexer;
pub mod operations;
pub mod path;
pub mod query;
pub mod routing;
pub mod server;
pub mod session;
pub mod text;
pub mod workspace;
