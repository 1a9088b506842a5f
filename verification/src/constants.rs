//! Constants of the container format.

use vstd::prelude::*;

verus! {

/// The highest supported format version.
pub const SUPPORTED_FORMAT_VERSION: u32 = 3;

} // verus!
