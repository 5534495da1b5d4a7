//! Error taxonomy of the protocol engine.

use vstd::prelude::*;

verus! {

/// Everything that can go wrong while decoding a server reply.
///
/// The first four variants are protocol framing or field-parsing
/// errors: the peer violated the wire format, and the byte alignment
/// of the stream is no longer trustworthy.  `Failure` is different:
/// it is the protocol's normal way of reporting that the server
/// rejected the request (`-ERR`), carrying the diagnostic text of the
/// status line; the stream stays aligned and ready for the next
/// command.
#[derive(Debug)]
pub enum PopError {
    /// The stream ended before the expected line terminator or status
    /// token was complete.
    Truncated,
    /// A line ended in LF without the preceding CR required by the
    /// wire format.
    MalformedLine,
    /// The reply did not start with `+OK` or `-ERR`; carries the
    /// offending bytes.
    UnexpectedStatusToken(Vec<u8>),
    /// A success reply did not match the expected textual grammar;
    /// carries the raw line.
    UnparseableField(Vec<u8>),
    /// The server answered `-ERR`; carries the text after the status
    /// token.
    Failure(Vec<u8>),
}

} // verus!
