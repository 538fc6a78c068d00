//! A map property: ordered key/value pairs of two declared inner types.
//! Struct-typed keys and values are independently hintable through the
//! `Key` and `Value` path segments.

use vstd::prelude::*;

use super::Property;

verus! {

/// One key/value pair of a map property.
#[derive(Debug)]
pub struct MapEntry {
    /// The key.
    pub key: Property,
    /// The value stored under it.
    pub value: Property,
}

/// Ordered key/value pairs with their declared key and value type tags.
#[derive(Debug)]
pub struct MapProperty {
    /// The declared key type tag.
    pub key_type: String,
    /// The declared value type tag.
    pub value_type: String,
    /// The allocation flags field carried by the wire format.
    pub allocation_flags: u32,
    /// The key/value pairs, in file order.
    pub entries: Vec<MapEntry>,
}

impl MapProperty {
    /// A map property from its parts.
    pub fn new(
        key_type: String,
        value_type: String,
        allocation_flags: u32,
        entries: Vec<MapEntry>,
    ) -> (r: MapProperty)
        ensures
            r.key_type@ == key_type@,
            r.value_type@ == value_type@,
            r.allocation_flags == allocation_flags,
            r.entries@ == entries@,
    {
        MapProperty { key_type, value_type, allocation_flags, entries }
    }
}

} // verus!
