//! A small Nostr client library: events, filters, public keys, relay
//! connection bookkeeping, relay message framing and subscription pools.
pub mod error;
pub mod event;
pub mod filter;
pub mod pubkey;
pub mod relay;

pub use error::Error;
pub use event::Event;
pub use filter::Filter;
pub use pubkey::Pubkey;

use vstd::prelude::*;

verus! {

/// The library's result type.
pub type Result<T> = core::result::Result<T, Error>;

/// Adds two numbers; the sum must fit in a `usize`.
pub fn add(left: usize, right: usize) -> (sum: usize)
    requires
        left + right <= usize::MAX,
    ensures
        sum == left + right,
{
    left + right
}

} // verus!
