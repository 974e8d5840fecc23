//! Transport core of an intercepting proxy for a length-prefixed, XOR
//! keystream ciphered protocol: the cipher, the per-direction hook pipeline,
//! the channel offset bookkeeping with message framing, and the relay session.
use vstd::prelude::*;

pub mod cipher;
pub mod hook;
pub mod error;
pub mod channel;
pub mod session;

pub use channel::StreamWrapper;
pub use error::ProxyError;
pub use hook::{ByteHook, Hook};
pub use session::{MitmClient, Side};

verus! {

} // verus!
