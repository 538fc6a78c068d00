//! A set property: an element sequence of one declared inner type plus a
//! removed-element count carried by some file versions.

use vstd::prelude::*;

use super::Property;

verus! {

/// An element sequence with a removed-element count.
#[derive(Debug)]
pub struct SetProperty {
    /// The declared inner type tag; every element's kind must match it at
    /// encode time.
    pub property_type: String,
    /// How many removed elements the file recorded.
    pub removed_count: u32,
    /// The elements.
    pub properties: Vec<Property>,
}

impl SetProperty {
    /// A set property from its parts.
    pub fn new(property_type: String, removed_count: u32, properties: Vec<Property>) -> (r:
        SetProperty)
        ensures
            r.property_type@ == property_type@,
            r.removed_count == removed_count,
            r.properties@ == properties@,
    {
        SetProperty { property_type, removed_count, properties }
    }
}

} // verus!
