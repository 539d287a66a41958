//! The crate's one source of randomness: identifiers for connections and
//! sessions are drawn from the process RNG.

use vstd::prelude::*;

verus! {

/// Relies on rand::random (rand 0.8): a value drawn from the thread-local
/// CSPRNG. Nothing can be promised of the value drawn.
pub assume_specification<T>[ rand::random::<T> ]() -> (r: T)
    where
        rand::distributions::Standard: rand::distributions::Distribution<T>,
;

} // verus!
