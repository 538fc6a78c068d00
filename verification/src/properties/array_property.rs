//! An array property: an ordered sequence of elements of one declared
//! inner type. When that type is a struct, the array carries one shared
//! struct-identity block (field name, struct type name, identifier) for
//! all elements, because the wire format stores it once per container.

use vstd::prelude::*;
use vstd::string::StringExecFns;

use crate::types::Guid;
use super::Property;

verus! {

/// The once-per-container identity shared by a struct-typed array's
/// elements.
#[derive(Debug, Clone, PartialEq, Eq)]
pub struct ArrayStructInfo {
    /// The struct type's name, shared by every element.
    pub struct_name: String,
    /// The field name under which the elements were stored.
    pub field_name: String,
    /// The shared 16-byte identifier.
    pub guid: Guid,
}

/// The mathematical value of a struct-identity block.
pub ghost struct ArrayStructInfoV {
    pub field_name: Seq<char>,
    pub struct_name: Seq<char>,
    pub guid: Guid,
}

/// An ordered sequence of elements of one declared inner type.
#[derive(Debug)]
pub struct ArrayProperty {
    /// The declared inner type tag; every element's kind must match it at
    /// encode time.
    pub property_type: String,
    /// The elements.
    pub properties: Vec<Property>,
    /// The shared struct identity, present when the inner type is a
    /// struct.
    pub array_struct_info: Option<ArrayStructInfo>,
}

impl ArrayProperty {
    /// An array property from its inner type tag and elements. Passing a
    /// field name creates an empty struct-identity block, as a caller
    /// building a struct-typed array must.
    pub fn new(property_type: String, field_name: Option<String>, properties: Vec<Property>) -> (r:
        ArrayProperty)
        ensures
            r.property_type@ == property_type@,
            r.properties@ == properties@,
            match field_name {
                Some(f) => r.array_struct_info matches Some(i) && i.field_name@ == f@
                    && i.struct_name@ == Seq::<char>::empty() && i.guid == Guid(0u64, 0u64),
                None => r.array_struct_info is None,
            },
    {
        let array_struct_info = match field_name {
            Some(field_name) => Some(
                ArrayStructInfo { struct_name: String::new(), field_name, guid: Guid(0, 0) },
            ),
            None => None,
        };
        ArrayProperty { property_type, properties, array_struct_info }
    }
}

} // verus!
