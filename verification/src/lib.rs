//! Core logic of a client for Tasmota devices reached over an MQTT bus.
//!
//! The crate holds the verified heart of the client: the wildcard fan-out
//! plan of the topic multiplexer, the presence tracker that turns liveness
//! announcements into device Added/Removed events, and the chunked
//! file-download state machine with its length and checksum validation.
//! The bus connection itself, and the async plumbing around these parts,
//! live outside the library and only feed it plain values.

use vstd::prelude::*;

pub mod download;
pub mod error;
pub mod mux;
pub mod presence;
pub mod topic;

pub use crate::download::DownloadedFile;
pub use crate::error::DownloadError;

verus! {

/// A device has been added or removed.
#[derive(Debug, Clone, PartialEq, Eq)]
pub enum DeviceUpdate {
    /// A new device has been discovered, or a previously offline device has come back
    Added(String),
    /// A previously discovered device has gone offline
    Removed(String),
}

} // verus!
