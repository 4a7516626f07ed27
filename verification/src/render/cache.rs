//! The generations that a render cache was built for.

use vstd::prelude::*;

verus! {

/// The generations of the inputs a render cache was built from; a change in any of them
/// means the cache is stale.
#[derive(Clone, Copy, Debug, Default, PartialEq, Eq, Structural)]
pub struct CacheStamp {
    pub document_generation: u64,
    pub width_generation: u64,
    pub style_generation: u64,
    pub visibility_generation: u64,
    pub environment_generation: u64,
}

} // verus!
