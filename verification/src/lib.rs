//! A log-structured, persistent key-value store library.
//!
//! The library verifies the logic of the store: the on-disk log record
//! format, the in-memory index, compaction, the wire protocol between
//! client and server, the engine interface, and the thread-pool
//! supervisor's bookkeeping. File and socket handling live outside the
//! library and exchange plain values with it.

pub mod codec;
pub mod engine;
pub mod pool;
pub mod protocol;
pub mod server;
pub mod sled_engine;
pub mod store;
mod text;

use vstd::prelude::*;

verus! {

/// The behavioural error categories of the store.
#[derive(Clone, Copy, Debug, PartialEq, Eq, Structural)]
pub enum KvError {
    /// A filesystem or socket failure reported by the surrounding program
    /// or by the storage backend.
    Io,
    /// A log line that does not parse, or an index entry pointing at a
    /// record of the wrong kind.
    Corruption,
    /// `remove` was asked for a key that is not present.
    KeyNotFound,
    /// A malformed wire message.
    ProtocolParse,
    /// The engine chosen on the command line differs from the one the
    /// directory was initialised with.
    EngineMismatch,
    /// An unknown engine or thread-pool name.
    ConfigInvalid,
}

impl KvError {
    /// A short text for each error category, for display by callers.
    pub fn as_text(&self) -> (r: &'static str)
        ensures
            self is Io ==> r@ == "IO failure"@,
            self is Corruption ==> r@ == "Log is corrupted"@,
            self is KeyNotFound ==> r@ == "Key not found"@,
            self is ProtocolParse ==> r@ == "Malformed message"@,
            self is EngineMismatch ==> r@
                == "Server cannot be started with a different engine than before"@,
            self is ConfigInvalid ==> r@ == "Invalid configuration"@,
    {
        match self {
            KvError::Io => "IO failure",
            KvError::Corruption => "Log is corrupted",
            KvError::KeyNotFound => "Key not found",
            KvError::ProtocolParse => "Malformed message",
            KvError::EngineMismatch => "Server cannot be started with a different engine than before",
            KvError::ConfigInvalid => "Invalid configuration",
        }
    }
}

} // verus!
