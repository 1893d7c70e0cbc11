//! Verified core of a peer-to-peer file, directory and clipboard transfer tool.
//!
//! The library holds the wire protocol (frame headers, message payloads),
//! the bookkeeping of a transfer in progress, the interpretation of service
//! discovery answers and the state updates of the user interface.
//! Sockets, files, the clipboard, timers and windows are handled by the
//! application around it.

pub mod discovery;
pub mod messages;
pub mod msgpack;
pub mod peers;
pub mod text;
pub mod transfer;
pub mod ui;
pub mod wire;
