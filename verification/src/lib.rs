//! Core of an in-memory key-value server speaking a binary, Redis-style
//! request/response protocol: the typed command model, the parsing and
//! validation pipeline that turns an array frame into a command, the shared
//! backend store, and the per-command execution semantics.
//!
//! The raw byte-level frame codec and the connection handling are outside
//! this crate: it consumes and produces already-decoded frames.
pub mod cmd;
pub mod frame;

pub use backend::Backend;
pub use backend::BackendInner;
pub use cmd::Command;
pub use cmd::CommandError;
pub use frame::RespArray;
pub use frame::RespFrame;
pub mod backend;
pub mod laws;
pub mod sorting;
pub mod tables;
