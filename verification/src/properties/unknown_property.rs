//! The opaque fallback for unrecognized property kinds: the original type
//! tag plus the raw, undecoded bytes, preserved so that re-encoding
//! reproduces them exactly.

use vstd::prelude::*;

verus! {

/// A property of a kind the dispatch engine does not recognize, kept as
/// its tag and raw bytes for forward compatibility.
#[derive(Debug, Clone, PartialEq, Eq)]
pub struct UnknownProperty {
    /// The type tag the file carried.
    pub property_type: String,
    /// The undecoded body bytes.
    pub value: Vec<u8>,
}

impl UnknownProperty {
    /// An opaque property from its tag and raw bytes.
    pub fn new(property_type: String, value: Vec<u8>) -> (r: UnknownProperty)
        ensures
            r.property_type@ == property_type@,
            r.value@ == value@,
    {
        UnknownProperty { property_type, value }
    }
}

} // verus!
