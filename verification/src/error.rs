//! Errors reported by the library.

use vstd::prelude::*;

verus! {

/// Why a universe could not be constructed.
#[derive(Clone, Copy, Debug, PartialEq, Eq, Structural)]
pub enum ConstructionError {
    /// The width, the height or the cell size is zero.
    ZeroDimension,
    /// The grid has more cells, or the framebuffer more pixels, than a
    /// 32-bit index can address.
    TooLarge,
    /// The seed does not hold exactly one bit per cell, rounded up to whole
    /// bytes.
    SeedLength,
}

/// The entropy source could not deliver random bytes. The universe is then
/// seeded with zeros and keeps this record.
#[derive(Clone, Copy, Debug, PartialEq, Eq, Structural)]
pub struct EntropySourceError {
    /// The code that the entropy source reported.
    pub code: u32,
}

} // verus!
