//! A plain string property.

use vstd::prelude::*;

verus! {

/// A property holding one string.
#[derive(Debug, Clone, PartialEq, Eq)]
pub struct StrProperty {
    /// The string value.
    pub value: String,
}

impl StrProperty {
    /// A string property from its value.
    pub fn new(value: String) -> (r: StrProperty)
        ensures
            r.value@ == value@,
    {
        StrProperty { value }
    }
}

} // verus!
