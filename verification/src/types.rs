//! Small value types shared across the codec.

use vstd::prelude::*;
use vstd::bytes::*;

verus! {

/// A 16-byte globally-unique identifier, kept as its two little-endian
/// 8-byte halves: `lo` holds bytes 0..8 of the wire form, `hi` bytes 8..16.
#[derive(Debug, Clone, Copy, PartialEq, Eq, Hash, Structural)]
pub struct Guid(pub u64, pub u64);

impl Guid {
    /// The all-zero identifier, written when no identity is known.
    pub fn zero() -> (g: Guid)
        ensures
            g == Guid(0u64, 0u64),
    {
        Guid(0, 0)
    }
}

/// The 16 bytes of an identifier on the wire.
pub open spec fn ser_guid(g: Guid) -> Seq<u8> {
    spec_u64_to_le_bytes(g.0) + spec_u64_to_le_bytes(g.1)
}

} // verus!
