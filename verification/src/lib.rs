//! Core of a directory-watching chat bot.
//!
//! The library holds the verified coordination logic: the per-file status
//! table with its change detection, the summary rendering, the inbound
//! command vocabulary, the FIFO dispatcher for outbound messages, and the
//! coordinator state machine that ties them together.  Process bootstrap,
//! filesystem watching and the remote chat transport are thin adapters
//! around this core and live outside the library.

pub mod clock;
pub mod command;
pub mod coordinator;
pub mod outbound;
pub mod status;
pub mod text;
pub mod watch;
