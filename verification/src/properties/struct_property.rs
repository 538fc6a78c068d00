//! A struct property: a named, typed value holding either a recognized
//! fixed-layout payload or a nested property bag.

use vstd::prelude::*;

use crate::types::Guid;
use super::struct_types::{DateTime, IntPoint, Quat, Rotator, Vector};
use super::Properties;

verus! {

/// The payload of a struct property: one of the built-in fixed layouts,
/// or a nested name-to-property mapping read with the same loop as the
/// file's top level.
#[derive(Debug)]
pub enum StructValue {
    Vector(Vector),
    Rotator(Rotator),
    Quat(Quat),
    DateTime(DateTime),
    IntPoint(IntPoint),
    Guid(Guid),
    CustomStruct(Properties),
}

/// A named, typed struct value with its 16-byte identifier.
#[derive(Debug)]
pub struct StructProperty {
    /// The struct type's name, which selects the payload's layout.
    pub struct_type: String,
    /// The identifier written alongside the type in the property header.
    pub guid: Guid,
    /// The payload.
    pub value: StructValue,
}

impl StructProperty {
    /// A struct property from its parts.
    pub fn new(struct_type: String, guid: Guid, value: StructValue) -> (r: StructProperty)
        ensures
            r.struct_type@ == struct_type@,
            r.guid == guid,
            r.value == value,
    {
        StructProperty { struct_type, guid, value }
    }
}

} // verus!
