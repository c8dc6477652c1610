//! Error values reported by the download protocol.

use vstd::prelude::*;

verus! {

/// A terminal condition of a file download.
///
/// Every device-reported error code and every validation failure of the
/// downloaded artifact is a distinct named value.
#[derive(Debug, Clone, PartialEq, Eq)]
pub enum DownloadError {
    /// The device reported that it aborted the transfer
    DownloadAborted,
    /// The device rejected the password sent with the start command
    InvalidPassword,
    /// The device rejected the chunk size
    BadChunkSize,
    /// The device rejected the requested file type
    InvalidFileType,
    /// The device reported an error code this client does not know
    Unknown(String),
    /// The accumulated data is not as long as the device declared: expected, got
    MismatchedLength(u32, u32),
    /// The declared md5 hash was not a well-formed hex digest
    InvalidHash,
    /// The accumulated data does not hash to the declared md5: expected, got
    MismatchedHash([u8; 16], [u8; 16]),
    /// The device went offline during the download
    Gone,
}

} // verus!
