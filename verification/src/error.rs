//! The error kinds the library reports: transport failures, protocol
//! status mismatches, malformed articles, and checksum mismatches.

use vstd::prelude::*;

verus! {

#[derive(Clone, Copy, Debug, PartialEq, Eq, Structural)]
pub enum DownloadError {
    /// A read or write on the transport failed; the connection is unusable.
    Transport,
    /// The stream closed (zero-length read); the connection is unusable.
    Disconnected,
    /// A response line did not carry the expected status code.
    Protocol { expected: u16, got: u16 },
    /// A response line did not parse as `<code> <message>`.
    BadResponse,
    /// An article line was not the expected header line.
    ExpectHeader,
    /// An article line was not the expected part line.
    ExpectPart,
    /// A directive line was malformed.
    Format,
    /// The decoded bytes did not match the declared checksum.
    Integrity { declared: u32, computed: u32 },
}

} // verus!
