//! An enum-reference property: the name of an enum type and the selected
//! member's name.

use vstd::prelude::*;

verus! {

/// A property holding a reference to one member of a named enum type.
#[derive(Debug, Clone, PartialEq, Eq)]
pub struct EnumProperty {
    /// The enum type's name.
    pub enum_type: String,
    /// The selected member's name.
    pub value: String,
}

impl EnumProperty {
    /// An enum property from its type and member names.
    pub fn new(enum_type: String, value: String) -> (r: EnumProperty)
        ensures
            r.enum_type@ == enum_type@,
            r.value@ == value@,
    {
        EnumProperty { enum_type, value }
    }
}

} // verus!
