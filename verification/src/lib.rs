//! A persistent key-value store: the verified core.
//!
//! The library holds the record codec, the replay and compaction of the
//! append-only log, the in-memory index, the request protocol and the
//! decisions of the server's lifecycle. Everything that touches a file, a
//! socket or a thread is left to the caller, who hands plain bytes in and
//! carries plain bytes out.

pub mod cli;
pub mod encoding;
pub mod error;
pub mod key;
pub mod laws;
pub mod protocol;
pub mod server;
pub mod storage;
pub mod text;
pub mod thread_pool;

pub use error::StoreError;
pub use protocol::{Command, Response};
pub use storage::{Database, LogEntry, LogFile};
pub use thread_pool::JobQueue;
