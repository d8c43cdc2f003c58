//! Error taxonomy of the sector cryptosystem.

use vstd::prelude::*;

verus! {

/// Every failure the library can surface.
///
/// - `SizeMismatch`: a buffer size violates the block-size contract.
/// - `InvalidArgument`: an out-of-range entry index or a zero counter handed
///   to a low-level primitive.
/// - `InvalidFormat`: a metadata header does not match (explicit decode only).
/// - `AuthenticationFailed`: AEAD tag verification failed.
/// - `CounterOverflow`: a per-sector counter reached its 32-bit ceiling.
/// - `TransportError`: the underlying storage medium rejected a request.
#[derive(Clone, Copy, Debug, PartialEq, Eq, Structural)]
pub enum DiskError {
    SizeMismatch,
    InvalidArgument,
    InvalidFormat,
    AuthenticationFailed,
    CounterOverflow,
    TransportError,
}

} // verus!
