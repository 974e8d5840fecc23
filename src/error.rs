//! Errors that end a proxy session.
use vstd::prelude::*;

verus! {

/// Every error is fatal to the session: none is retried, since a retry after
/// a stream position has moved would desynchronise the cipher.
#[derive(Debug, Clone, Copy, PartialEq, Eq, Structural)]
pub enum ProxyError {
    /// A socket read or write failed.
    IoError,
    /// The peer closed its stream: a read returned no bytes.
    ConnectionClosed,
    /// The session key or the connection id exchange was malformed or short.
    HandshakeError,
    /// A payload is longer than the 16-bit length prefix can describe.
    FramingError,
    /// A stream position would pass the largest `u64`.
    OffsetOverflow,
}

} // verus!
