//! The property system: a closed, tagged union over scalar, string, enum,
//! struct, container and opaque kinds, with one string-keyed decode
//! dispatcher and one polymorphic encode entry point.
//!
//! The wire form of every kind is pinned down by [`ser_property`]; what an
//! encode accepts is pinned down by [`prop_serializable`]. A property that
//! appears at the top level or inside a struct carries a self-describing
//! header (its type tag, a 64-bit byte length and a padding byte); one that
//! appears as a container element carries only its body.

pub mod array_property;
pub mod enum_property;
pub mod map_property;
pub mod set_property;
pub mod str_property;
pub mod struct_property;
pub mod struct_types;
pub mod unknown_property;

use vstd::prelude::*;
use vstd::bytes::*;

use crate::cursor_ext::{
    spec_i32_to_le_bytes, spec_i64_to_le_bytes, u16_repr_of_i16, u8_repr_of_i8, Cursor,
};
use crate::error::Error;
use crate::string_codec::{ser_string, str_parse_len, str_parse_ok, str_parse_val, string_serializable, strings_equal};
use vstd::string::StringExecFns;
use crate::types::{ser_guid, Guid};

use self::array_property::{ArrayProperty, ArrayStructInfo, ArrayStructInfoV};
use self::enum_property::EnumProperty;
use self::map_property::{MapEntry, MapProperty};
use self::set_property::SetProperty;
use self::str_property::StrProperty;
use self::struct_property::{StructProperty, StructValue};
use self::struct_types::{DateTime, IntPoint, Quat, Rotator, Vector};
use self::unknown_property::UnknownProperty;

verus! {

/// The mathematical value of a fixed-layout struct payload.
pub ghost enum StructValueV {
    Vector(Vector),
    Rotator(Rotator),
    Quat(Quat),
    DateTime(DateTime),
    IntPoint(IntPoint),
    Guid(Guid),
    CustomStruct(Seq<(Seq<char>, PropertyV)>),
}

/// The mathematical value of a property.
pub ghost enum PropertyV {
    Int8Property(i8),
    ByteProperty(u8),
    Int16Property(i16),
    UInt16Property(u16),
    IntProperty(i32),
    UInt32Property(u32),
    Int64Property(i64),
    UInt64Property(u64),
    FloatProperty(u32),
    DoubleProperty(u64),
    BoolProperty(bool),
    EnumProperty { enum_type: Seq<char>, value: Seq<char> },
    StrProperty { value: Seq<char> },
    StructProperty { struct_type: Seq<char>, guid: Guid, value: StructValueV },
    ArrayProperty {
        property_type: Seq<char>,
        properties: Seq<PropertyV>,
        info: Option<ArrayStructInfoV>,
    },
    SetProperty { property_type: Seq<char>, removed_count: u32, properties: Seq<PropertyV> },
    MapProperty {
        key_type: Seq<char>,
        value_type: Seq<char>,
        allocation_flags: u32,
        entries: Seq<(PropertyV, PropertyV)>,
    },
    UnknownProperty { property_type: Seq<char>, value: Seq<u8> },
}

/// One property of each kind the dispatch engine recognizes, plus the
/// opaque fallback for forward compatibility.
#[derive(Debug)]
pub enum Property {
    Int8Property(i8),
    ByteProperty(u8),
    Int16Property(i16),
    UInt16Property(u16),
    IntProperty(i32),
    UInt32Property(u32),
    Int64Property(i64),
    UInt64Property(u64),
    FloatProperty(u32),
    DoubleProperty(u64),
    BoolProperty(bool),
    EnumProperty(EnumProperty),
    StrProperty(StrProperty),
    StructProperty(StructProperty),
    ArrayProperty(ArrayProperty),
    SetProperty(SetProperty),
    MapProperty(MapProperty),
    UnknownProperty(UnknownProperty),
}

/// An insertion-ordered mapping from property name to property, as the
/// file's top level and generic structs hold their contents. Inserting an
/// existing name replaces its value in place, so names stay unique and
/// iteration order is the order of first insertion.
#[derive(Debug)]
pub struct Properties {
    /// The entries, in insertion order.
    pub entries: Vec<PropertyEntry>,
}

/// One named property of a property bag.
#[derive(Debug)]
pub struct PropertyEntry {
    /// The property's name.
    pub name: String,
    /// The property stored under it.
    pub value: Property,
}

/// What inserting a name into an entry list yields: the value replaced in
/// place if the name is present, the pair appended otherwise.
pub open spec fn spec_entries_insert(
    l: Seq<PropertyEntry>,
    name: String,
    value: Property,
) -> Seq<PropertyEntry>
    decreases l.len(),
{
    if l.len() == 0 {
        seq![PropertyEntry { name, value }]
    } else if l[0].name@ == name@ {
        seq![PropertyEntry { name, value }] + l.subrange(1, l.len() as int)
    } else {
        seq![l[0]] + spec_entries_insert(l.subrange(1, l.len() as int), name, value)
    }
}

/// What looking a name up in an entry list yields: the first entry's value
/// whose name matches.
pub open spec fn spec_entries_get(l: Seq<PropertyEntry>, name: Seq<char>) -> Option<Property>
    decreases l.len(),
{
    if l.len() == 0 {
        None
    } else if l[0].name@ == name {
        Some(l[0].value)
    } else {
        spec_entries_get(l.subrange(1, l.len() as int), name)
    }
}

impl Properties {
    /// An empty mapping.
    pub fn new() -> (r: Properties)
        ensures
            r.entries@.len() == 0,
    {
        Properties { entries: Vec::new() }
    }

    /// How many properties the mapping holds.
    pub fn len(&self) -> (n: usize)
        ensures
            n == self.entries@.len(),
    {
        self.entries.len()
    }

    /// Adds or replaces the property stored under a name.
    #[verifier::loop_isolation(false)]
    pub fn insert(&mut self, name: String, value: Property)
        ensures
            final(self).entries@ == spec_entries_insert(old(self).entries@, name, value),
    {
        let n = self.entries.len();
        let mut i: usize = 0;
        while i < n
            invariant
                i <= n,
                self.entries@ == old(self).entries@,
                forall|k: int| 0 <= k < i ==> self.entries@[k].name@ != name@,
            decreases n - i,
        {
            if crate::string_codec::strings_equal(self.entries[i].name.as_str(), name.as_str()) {
                self.entries[i] = PropertyEntry { name, value };
                proof {
                    lemma_entries_insert_found(old(self).entries@, name, value, i as int);
                }
                return ;
            }
            i = i + 1;
        }
        self.entries.push(PropertyEntry { name, value });
        proof {
            lemma_entries_insert_missing(old(self).entries@, name, value);
        }
    }

    /// Looks a name up.
    pub fn get(&self, name: &str) -> (r: Option<&Property>)
        ensures
            match r {
                Some(v) => spec_entries_get(self.entries@, name@) == Some(*v),
                None => spec_entries_get(self.entries@, name@) is None,
            },
    {
        let n = self.entries.len();
        proof {
            assert(self.entries@.subrange(0, n as int) =~= self.entries@);
        }
        let mut i: usize = 0;
        while i < n
            invariant
                i <= n,
                n == self.entries@.len(),
                spec_entries_get(self.entries@, name@) == spec_entries_get(
                    self.entries@.subrange(i as int, n as int),
                    name@,
                ),
            decreases n - i,
        {
            let ghost pre = self.entries@.subrange(i as int, n as int);
            if crate::string_codec::strings_equal(self.entries[i].name.as_str(), name) {
                return Some(&self.entries[i].value);
            }
            i = i + 1;
            proof {
                assert(pre[0] == self.entries@[i - 1]);
                assert(pre.subrange(1, pre.len() as int) =~= self.entries@.subrange(
                    i as int,
                    n as int,
                ));
            }
        }
        proof {
            assert(self.entries@.subrange(n as int, n as int) =~= Seq::<PropertyEntry>::empty());
        }
        None
    }
}

/// Replacing a present name updates its entry in place.
proof fn lemma_entries_insert_found(l: Seq<PropertyEntry>, name: String, value: Property, i: int)
    requires
        0 <= i < l.len(),
        l[i].name@ == name@,
        forall|k: int| 0 <= k < i ==> l[k].name@ != name@,
    ensures
        spec_entries_insert(l, name, value) == l.update(i, PropertyEntry { name, value }),
    decreases i,
{
    let e = PropertyEntry { name, value };
    if i == 0 {
        assert(spec_entries_insert(l, name, value) =~= l.update(0, e));
    } else {
        let rest = l.subrange(1, l.len() as int);
        lemma_entries_insert_found(rest, name, value, i - 1);
        assert(rest.update(i - 1, e) =~= l.update(i, e).subrange(1, l.len() as int));
        assert(spec_entries_insert(l, name, value) =~= l.update(i, e));
    }
}

/// Inserting an absent name appends its entry.
proof fn lemma_entries_insert_missing(l: Seq<PropertyEntry>, name: String, value: Property)
    requires
        forall|k: int| 0 <= k < l.len() ==> l[k].name@ != name@,
    ensures
        spec_entries_insert(l, name, value) == l.push(PropertyEntry { name, value }),
    decreases l.len(),
{
    let e = PropertyEntry { name, value };
    if l.len() == 0 {
        assert(spec_entries_insert(l, name, value) =~= l.push(e));
    } else {
        let rest = l.subrange(1, l.len() as int);
        lemma_entries_insert_missing(rest, name, value);
        assert(rest.push(e) =~= l.push(e).subrange(1, l.len() as int + 1));
        assert(spec_entries_insert(l, name, value) =~= l.push(e));
    }
}

/// The mathematical value of a property.
pub open spec fn pview(p: Property) -> PropertyV
    decreases p,
{
    match p {
        Property::Int8Property(v) => PropertyV::Int8Property(v),
        Property::ByteProperty(v) => PropertyV::ByteProperty(v),
        Property::Int16Property(v) => PropertyV::Int16Property(v),
        Property::UInt16Property(v) => PropertyV::UInt16Property(v),
        Property::IntProperty(v) => PropertyV::IntProperty(v),
        Property::UInt32Property(v) => PropertyV::UInt32Property(v),
        Property::Int64Property(v) => PropertyV::Int64Property(v),
        Property::UInt64Property(v) => PropertyV::UInt64Property(v),
        Property::FloatProperty(v) => PropertyV::FloatProperty(v),
        Property::DoubleProperty(v) => PropertyV::DoubleProperty(v),
        Property::BoolProperty(v) => PropertyV::BoolProperty(v),
        Property::EnumProperty(e) => PropertyV::EnumProperty {
            enum_type: e.enum_type@,
            value: e.value@,
        },
        Property::StrProperty(s) => PropertyV::StrProperty { value: s.value@ },
        Property::StructProperty(s) => PropertyV::StructProperty {
            struct_type: s.struct_type@,
            guid: s.guid,
            value: match s.value {
                StructValue::Vector(v) => StructValueV::Vector(v),
                StructValue::Rotator(v) => StructValueV::Rotator(v),
                StructValue::Quat(v) => StructValueV::Quat(v),
                StructValue::DateTime(v) => StructValueV::DateTime(v),
                StructValue::IntPoint(v) => StructValueV::IntPoint(v),
                StructValue::Guid(v) => StructValueV::Guid(v),
                StructValue::CustomStruct(props) => StructValueV::CustomStruct(
                    pview_entries(props.entries@),
                ),
            },
        },
        Property::ArrayProperty(a) => PropertyV::ArrayProperty {
            property_type: a.property_type@,
            properties: pview_list(a.properties@),
            info: match a.array_struct_info {
                Some(i) => Some(
                    ArrayStructInfoV {
                        field_name: i.field_name@,
                        struct_name: i.struct_name@,
                        guid: i.guid,
                    },
                ),
                None => None,
            },
        },
        Property::SetProperty(s) => PropertyV::SetProperty {
            property_type: s.property_type@,
            removed_count: s.removed_count,
            properties: pview_list(s.properties@),
        },
        Property::MapProperty(m) => PropertyV::MapProperty {
            key_type: m.key_type@,
            value_type: m.value_type@,
            allocation_flags: m.allocation_flags,
            entries: pview_pairs(m.entries@),
        },
        Property::UnknownProperty(u) => PropertyV::UnknownProperty {
            property_type: u.property_type@,
            value: u.value@,
        },
    }
}

/// The mathematical values of a list of properties.
pub open spec fn pview_list(l: Seq<Property>) -> Seq<PropertyV>
    decreases l,
{
    if l.len() == 0 {
        Seq::empty()
    } else {
        seq![pview(l[0])] + pview_list(l.subrange(1, l.len() as int))
    }
}

/// The mathematical values of a name-to-property list.
pub open spec fn pview_entries(l: Seq<PropertyEntry>) -> Seq<(Seq<char>, PropertyV)>
    decreases l,
{
    if l.len() == 0 {
        Seq::empty()
    } else {
        seq![(l[0].name@, pview(l[0].value))] + pview_entries(l.subrange(1, l.len() as int))
    }
}

/// The mathematical values of a key-to-value pair list.
pub open spec fn pview_pairs(l: Seq<MapEntry>) -> Seq<(PropertyV, PropertyV)>
    decreases l,
{
    if l.len() == 0 {
        Seq::empty()
    } else {
        seq![(pview(l[0].key), pview(l[0].value))] + pview_pairs(l.subrange(1, l.len() as int))
    }
}

impl View for Property {
    type V = PropertyV;

    open spec fn view(&self) -> PropertyV {
        pview(*self)
    }
}

/// A property list views element by element.
pub proof fn lemma_pview_list_index(l: Seq<Property>)
    ensures
        pview_list(l).len() == l.len(),
        forall|i: int| 0 <= i < l.len() ==> pview_list(l)[i] == pview(l[i]),
    decreases l.len(),
{
    if l.len() > 0 {
        lemma_pview_list_index(l.subrange(1, l.len() as int));
    }
}

/// An entry list views entry by entry.
pub proof fn lemma_pview_entries_index(l: Seq<PropertyEntry>)
    ensures
        pview_entries(l).len() == l.len(),
        forall|i: int|
            0 <= i < l.len() ==> pview_entries(l)[i] == (l[i].name@, pview(l[i].value)),
    decreases l.len(),
{
    if l.len() > 0 {
        lemma_pview_entries_index(l.subrange(1, l.len() as int));
    }
}

/// A pair list views pair by pair.
pub proof fn lemma_pview_pairs_index(l: Seq<MapEntry>)
    ensures
        pview_pairs(l).len() == l.len(),
        forall|i: int|
            0 <= i < l.len() ==> pview_pairs(l)[i] == (pview(l[i].key), pview(l[i].value)),
    decreases l.len(),
{
    if l.len() > 0 {
        lemma_pview_pairs_index(l.subrange(1, l.len() as int));
    }
}

/// The type tag under which a property value is written.
pub open spec fn tag_of(p: PropertyV) -> Seq<char> {
    match p {
        PropertyV::Int8Property(_) => "Int8Property"@,
        PropertyV::ByteProperty(_) => "ByteProperty"@,
        PropertyV::Int16Property(_) => "Int16Property"@,
        PropertyV::UInt16Property(_) => "UInt16Property"@,
        PropertyV::IntProperty(_) => "IntProperty"@,
        PropertyV::UInt32Property(_) => "UInt32Property"@,
        PropertyV::Int64Property(_) => "Int64Property"@,
        PropertyV::UInt64Property(_) => "UInt64Property"@,
        PropertyV::FloatProperty(_) => "FloatProperty"@,
        PropertyV::DoubleProperty(_) => "DoubleProperty"@,
        PropertyV::BoolProperty(_) => "BoolProperty"@,
        PropertyV::EnumProperty { .. } => "EnumProperty"@,
        PropertyV::StrProperty { .. } => "StrProperty"@,
        PropertyV::StructProperty { .. } => "StructProperty"@,
        PropertyV::ArrayProperty { .. } => "ArrayProperty"@,
        PropertyV::SetProperty { .. } => "SetProperty"@,
        PropertyV::MapProperty { .. } => "MapProperty"@,
        PropertyV::UnknownProperty { property_type, .. } => property_type,
    }
}

/// Whether a type tag names one of the closed set of kinds the dispatch
/// engine decodes directly (everything but the opaque fallback).
pub open spec fn recognized_tag(t: Seq<char>) -> bool {
    ||| t == "Int8Property"@
    ||| t == "ByteProperty"@
    ||| t == "Int16Property"@
    ||| t == "UInt16Property"@
    ||| t == "IntProperty"@
    ||| t == "UInt32Property"@
    ||| t == "Int64Property"@
    ||| t == "UInt64Property"@
    ||| t == "FloatProperty"@
    ||| t == "DoubleProperty"@
    ||| t == "BoolProperty"@
    ||| t == "EnumProperty"@
    ||| t == "StrProperty"@
    ||| t == "StructProperty"@
    ||| t == "ArrayProperty"@
    ||| t == "SetProperty"@
    ||| t == "MapProperty"@
}

/// The body bytes of the kinds whose body does not nest: scalars, strings,
/// enum references and the opaque fallback.
pub open spec fn simple_body(p: PropertyV) -> Seq<u8> {
    match p {
        PropertyV::Int8Property(v) => seq![u8_repr_of_i8(v)],
        PropertyV::ByteProperty(v) => seq![v],
        PropertyV::Int16Property(v) => spec_u16_to_le_bytes(u16_repr_of_i16(v)),
        PropertyV::UInt16Property(v) => spec_u16_to_le_bytes(v),
        PropertyV::IntProperty(v) => spec_i32_to_le_bytes(v),
        PropertyV::UInt32Property(v) => spec_u32_to_le_bytes(v),
        PropertyV::Int64Property(v) => spec_i64_to_le_bytes(v),
        PropertyV::UInt64Property(v) => spec_u64_to_le_bytes(v),
        PropertyV::FloatProperty(v) => spec_u32_to_le_bytes(v),
        PropertyV::DoubleProperty(v) => spec_u64_to_le_bytes(v),
        PropertyV::BoolProperty(v) => seq![
            if v {
                1u8
            } else {
                0u8
            },
        ],
        PropertyV::EnumProperty { enum_type, value } => ser_string(enum_type) + ser_string(value),
        PropertyV::StrProperty { value } => ser_string(value),
        PropertyV::UnknownProperty { value, .. } => value,
        _ => Seq::empty(),
    }
}

/// Whether a property kind nests other properties.
pub open spec fn is_simple(p: PropertyV) -> bool {
    match p {
        PropertyV::StructProperty { .. } => false,
        PropertyV::ArrayProperty { .. } => false,
        PropertyV::SetProperty { .. } => false,
        PropertyV::MapProperty { .. } => false,
        _ => true,
    }
}

/// The once-per-container struct-identity block of a struct-typed array:
/// the field name, a duplicate type tag, a patched byte length that counts
/// from its own first byte through the element bodies, the shared struct
/// type name, the shared identifier, a padding byte and the bodies.
pub open spec fn ser_struct_identity(inf: ArrayStructInfoV, bodies: Seq<u8>) -> Seq<u8> {
    ser_string(inf.field_name) + ser_string("StructProperty"@) + spec_u64_to_le_bytes(
        (25 + ser_string(inf.struct_name).len() + bodies.len()) as u64,
    ) + ser_string(inf.struct_name) + ser_guid(inf.guid) + seq![0u8] + bodies
}

/// The exact wire form of a property. With a header it is the type tag,
/// a 64-bit byte length, kind-specific header fields, one padding byte and
/// the body; without a header it is the body alone.
pub open spec fn ser_property(p: PropertyV, hdr: bool) -> Seq<u8>
    decreases p, (if hdr {
        1int
    } else {
        0int
    }),
{
    if hdr {
        match p {
            PropertyV::StructProperty { struct_type, guid, .. } => ser_string("StructProperty"@)
                + spec_u64_to_le_bytes(ser_property(p, false).len() as u64) + ser_string(
                struct_type,
            ) + ser_guid(guid) + seq![0u8] + ser_property(p, false),
            PropertyV::ArrayProperty { property_type, properties, info } => {
                let inner = if property_type == "StructProperty"@ {
                    ser_struct_identity(info->0, ser_props(properties, false))
                } else {
                    ser_props(properties, false)
                };
                ser_string("ArrayProperty"@) + spec_u64_to_le_bytes((4 + inner.len()) as u64)
                    + ser_string(property_type) + seq![0u8] + spec_i32_to_le_bytes(
                    properties.len() as i32,
                ) + inner
            },
            PropertyV::SetProperty { property_type, removed_count, properties } => {
                let bodies = ser_props(properties, false);
                ser_string("SetProperty"@) + spec_u64_to_le_bytes((8 + bodies.len()) as u64)
                    + ser_string(property_type) + seq![0u8] + spec_u32_to_le_bytes(removed_count)
                    + spec_i32_to_le_bytes(properties.len() as i32) + bodies
            },
            PropertyV::MapProperty { key_type, value_type, allocation_flags, entries } => {
                let bodies = ser_pairs(entries);
                ser_string("MapProperty"@) + spec_u64_to_le_bytes((8 + bodies.len()) as u64)
                    + ser_string(key_type) + ser_string(value_type) + seq![0u8]
                    + spec_u32_to_le_bytes(allocation_flags) + spec_i32_to_le_bytes(
                    entries.len() as i32,
                ) + bodies
            },
            _ => ser_string(tag_of(p)) + spec_u64_to_le_bytes(simple_body(p).len() as u64)
                + seq![0u8] + simple_body(p),
        }
    } else {
        match p {
            PropertyV::StructProperty { value, .. } => match value {
                StructValueV::Vector(v) => spec_u32_to_le_bytes(v.x) + spec_u32_to_le_bytes(v.y)
                    + spec_u32_to_le_bytes(v.z),
                StructValueV::Rotator(v) => spec_u32_to_le_bytes(v.pitch) + spec_u32_to_le_bytes(
                    v.yaw,
                ) + spec_u32_to_le_bytes(v.roll),
                StructValueV::Quat(v) => spec_u32_to_le_bytes(v.x) + spec_u32_to_le_bytes(v.y)
                    + spec_u32_to_le_bytes(v.z) + spec_u32_to_le_bytes(v.w),
                StructValueV::DateTime(v) => spec_u64_to_le_bytes(v.ticks),
                StructValueV::IntPoint(v) => spec_i32_to_le_bytes(v.x) + spec_i32_to_le_bytes(v.y),
                StructValueV::Guid(g) => ser_guid(g),
                StructValueV::CustomStruct(entries) => ser_prop_entries(entries) + ser_string(
                    "None"@,
                ),
            },
            PropertyV::ArrayProperty { .. } => Seq::empty(),
            PropertyV::SetProperty { .. } => Seq::empty(),
            PropertyV::MapProperty { .. } => Seq::empty(),
            _ => simple_body(p),
        }
    }
}

/// The wire form of container elements, body after body.
pub open spec fn ser_props(l: Seq<PropertyV>, hdr: bool) -> Seq<u8>
    decreases l, 0int,
{
    if l.len() == 0 {
        Seq::empty()
    } else {
        ser_property(l[0], hdr) + ser_props(l.subrange(1, l.len() as int), hdr)
    }
}

/// The wire form of a name-to-property list: each entry is the name, the
/// type tag and the headered value.
pub open spec fn ser_prop_entries(l: Seq<(Seq<char>, PropertyV)>) -> Seq<u8>
    decreases l, 1int,
{
    if l.len() == 0 {
        Seq::empty()
    } else {
        ser_string(l[0].0) + ser_property(l[0].1, true) + ser_prop_entries(
            l.subrange(1, l.len() as int),
        )
    }
}

/// The wire form of map entries: each key body, then its value body.
pub open spec fn ser_pairs(l: Seq<(PropertyV, PropertyV)>) -> Seq<u8>
    decreases l, 1int,
{
    if l.len() == 0 {
        Seq::empty()
    } else {
        ser_property(l[0].0, false) + ser_property(l[0].1, false) + ser_pairs(
            l.subrange(1, l.len() as int),
        )
    }
}

/// Whether encoding a property succeeds: its strings pass the length-field
/// bound, its counts fit their fields, every container element's kind
/// matches the container's declared inner type, and a struct-typed array
/// carries its identity block. A container can only be written with a
/// self-describing header.
pub open spec fn prop_serializable(p: PropertyV, hdr: bool) -> bool
    decreases p, (if hdr {
        1int
    } else {
        0int
    }),
{
    match p {
        PropertyV::EnumProperty { enum_type, value } => string_serializable(enum_type)
            && string_serializable(value),
        PropertyV::StrProperty { value } => string_serializable(value),
        PropertyV::UnknownProperty { property_type, .. } => !hdr || string_serializable(
            property_type,
        ),
        PropertyV::StructProperty { struct_type, value, .. } => (!hdr || string_serializable(
            struct_type,
        )) && match value {
            StructValueV::CustomStruct(entries) => entries_serializable(entries),
            _ => true,
        },
        PropertyV::ArrayProperty { property_type, properties, info } => {
            &&& hdr
            &&& string_serializable(property_type)
            &&& properties.len() <= 0x7fff_ffff
            &&& if property_type == "StructProperty"@ {
                &&& info is Some
                &&& string_serializable(info->0.field_name)
                &&& string_serializable(info->0.struct_name)
                &&& structs_serializable(properties)
            } else {
                elems_serializable(properties, property_type)
            }
        },
        PropertyV::SetProperty { property_type, properties, .. } => {
            &&& hdr
            &&& string_serializable(property_type)
            &&& properties.len() <= 0x7fff_ffff
            &&& elems_serializable(properties, property_type)
        },
        PropertyV::MapProperty { key_type, value_type, entries, .. } => {
            &&& hdr
            &&& string_serializable(key_type)
            &&& string_serializable(value_type)
            &&& entries.len() <= 0x7fff_ffff
            &&& pairs_serializable(entries, key_type, value_type)
        },
        _ => true,
    }
}

/// Every element's kind matches the declared inner tag and its body can be
/// written.
pub open spec fn elems_serializable(l: Seq<PropertyV>, tag: Seq<char>) -> bool
    decreases l, 0int,
{
    if l.len() == 0 {
        true
    } else {
        &&& tag_of(l[0]) == tag
        &&& prop_serializable(l[0], false)
        &&& elems_serializable(l.subrange(1, l.len() as int), tag)
    }
}

/// Every element is a struct whose body can be written.
pub open spec fn structs_serializable(l: Seq<PropertyV>) -> bool
    decreases l, 0int,
{
    if l.len() == 0 {
        true
    } else {
        &&& l[0] is StructProperty
        &&& prop_serializable(l[0], false)
        &&& structs_serializable(l.subrange(1, l.len() as int))
    }
}

/// Every entry's name passes the length-field bound, no name is the
/// sentinel, and every value can be written with its header.
pub open spec fn entries_serializable(l: Seq<(Seq<char>, PropertyV)>) -> bool
    decreases l, 1int,
{
    if l.len() == 0 {
        true
    } else {
        &&& string_serializable(l[0].0)
        &&& l[0].0 != "None"@
        &&& prop_serializable(l[0].1, true)
        &&& entries_serializable(l.subrange(1, l.len() as int))
    }
}

/// Appending an element appends its wire form.
pub proof fn lemma_ser_props_snoc(l: Seq<PropertyV>, x: PropertyV, hdr: bool)
    ensures
        ser_props(l.push(x), hdr) == ser_props(l, hdr) + ser_property(x, hdr),
    decreases l.len(),
{
    if l.len() == 0 {
        assert(l.push(x)[0] == x);
        assert(l.push(x).subrange(1, 1) =~= Seq::<PropertyV>::empty());
        assert(ser_props(l.push(x), hdr) == ser_property(x, hdr) + ser_props(
            Seq::<PropertyV>::empty(),
            hdr,
        ));
        assert(ser_props(l.push(x), hdr) =~= ser_props(l, hdr) + ser_property(x, hdr));
    } else {
        let rest = l.subrange(1, l.len() as int);
        assert(l.push(x)[0] == l[0]);
        assert(l.push(x).subrange(1, l.len() as int + 1) =~= rest.push(x));
        lemma_ser_props_snoc(rest, x, hdr);
        assert(ser_props(l.push(x), hdr) == ser_property(l[0], hdr) + (ser_props(rest, hdr)
            + ser_property(x, hdr)));
        assert(ser_props(l.push(x), hdr) =~= ser_props(l, hdr) + ser_property(x, hdr));
    }
}

/// Appending an entry appends its name, tag and headered wire form.
pub proof fn lemma_ser_prop_entries_snoc(l: Seq<(Seq<char>, PropertyV)>, x: (Seq<char>, PropertyV))
    ensures
        ser_prop_entries(l.push(x)) == ser_prop_entries(l) + ser_string(x.0) + ser_property(
            x.1,
            true,
        ),
    decreases l.len(),
{
    if l.len() == 0 {
        assert(l.push(x)[0] == x);
        assert(l.push(x).subrange(1, 1) =~= Seq::<(Seq<char>, PropertyV)>::empty());
        assert(ser_prop_entries(l.push(x)) == ser_string(x.0) + ser_property(x.1, true)
            + ser_prop_entries(Seq::<(Seq<char>, PropertyV)>::empty()));
        assert(ser_prop_entries(l.push(x)) =~= ser_prop_entries(l) + ser_string(x.0)
            + ser_property(x.1, true));
    } else {
        let rest = l.subrange(1, l.len() as int);
        assert(l.push(x)[0] == l[0]);
        assert(l.push(x).subrange(1, l.len() as int + 1) =~= rest.push(x));
        lemma_ser_prop_entries_snoc(rest, x);
        assert(ser_prop_entries(l.push(x)) == ser_string(l[0].0) + ser_property(l[0].1, true)
            + (ser_prop_entries(rest) + ser_string(x.0) + ser_property(x.1, true)));
        assert(ser_prop_entries(l.push(x)) =~= ser_prop_entries(l) + ser_string(x.0)
            + ser_property(x.1, true));
    }
}

/// Appending a pair appends its key and value bodies.
pub proof fn lemma_ser_pairs_snoc(l: Seq<(PropertyV, PropertyV)>, x: (PropertyV, PropertyV))
    ensures
        ser_pairs(l.push(x)) == ser_pairs(l) + ser_property(x.0, false) + ser_property(x.1, false),
    decreases l.len(),
{
    if l.len() == 0 {
        assert(l.push(x)[0] == x);
        assert(l.push(x).subrange(1, 1) =~= Seq::<(PropertyV, PropertyV)>::empty());
        assert(ser_pairs(l.push(x)) == ser_property(x.0, false) + ser_property(x.1, false)
            + ser_pairs(Seq::<(PropertyV, PropertyV)>::empty()));
        assert(ser_pairs(l.push(x)) =~= ser_pairs(l) + ser_property(x.0, false) + ser_property(
            x.1,
            false,
        ));
    } else {
        let rest = l.subrange(1, l.len() as int);
        assert(l.push(x)[0] == l[0]);
        assert(l.push(x).subrange(1, l.len() as int + 1) =~= rest.push(x));
        lemma_ser_pairs_snoc(rest, x);
        assert(ser_pairs(l.push(x)) == ser_property(l[0].0, false) + ser_property(l[0].1, false)
            + (ser_pairs(rest) + ser_property(x.0, false) + ser_property(x.1, false)));
        assert(ser_pairs(l.push(x)) =~= ser_pairs(l) + ser_property(x.0, false) + ser_property(
            x.1,
            false,
        ));
    }
}

/// Element-wise reading of `elems_serializable`.
pub proof fn lemma_elems_serializable_iff(l: Seq<PropertyV>, tag: Seq<char>)
    ensures
        elems_serializable(l, tag) <==> (forall|i: int|
            0 <= i < l.len() ==> tag_of(#[trigger] l[i]) == tag && prop_serializable(l[i], false)),
    decreases l.len(),
{
    if l.len() > 0 {
        let rest = l.subrange(1, l.len() as int);
        lemma_elems_serializable_iff(rest, tag);
        assert(forall|i: int| 0 <= i < rest.len() ==> rest[i] == #[trigger] l[i + 1]);
        if tag_of(l[0]) == tag && prop_serializable(l[0], false) && elems_serializable(rest, tag) {
            assert forall|i: int| 0 <= i < l.len() implies tag_of(#[trigger] l[i]) == tag
                && prop_serializable(l[i], false) by {
                if i > 0 {
                    assert(l[i] == rest[i - 1]);
                }
            }
        }
    }
}

/// Element-wise reading of `structs_serializable`.
pub proof fn lemma_structs_serializable_iff(l: Seq<PropertyV>)
    ensures
        structs_serializable(l) <==> (forall|i: int|
            0 <= i < l.len() ==> (#[trigger] l[i]) is StructProperty && prop_serializable(
                l[i],
                false,
            )),
    decreases l.len(),
{
    if l.len() > 0 {
        let rest = l.subrange(1, l.len() as int);
        lemma_structs_serializable_iff(rest);
        assert(forall|i: int| 0 <= i < rest.len() ==> rest[i] == #[trigger] l[i + 1]);
        if l[0] is StructProperty && prop_serializable(l[0], false) && structs_serializable(rest) {
            assert forall|i: int| 0 <= i < l.len() implies (#[trigger] l[i]) is StructProperty
                && prop_serializable(l[i], false) by {
                if i > 0 {
                    assert(l[i] == rest[i - 1]);
                }
            }
        }
    }
}

/// Entry-wise reading of `entries_serializable`.
pub proof fn lemma_entries_serializable_iff(l: Seq<(Seq<char>, PropertyV)>)
    ensures
        entries_serializable(l) <==> (forall|i: int|
            0 <= i < l.len() ==> string_serializable((#[trigger] l[i]).0) && l[i].0 != "None"@
                && prop_serializable(l[i].1, true)),
    decreases l.len(),
{
    if l.len() > 0 {
        let rest = l.subrange(1, l.len() as int);
        lemma_entries_serializable_iff(rest);
        assert(forall|i: int| 0 <= i < rest.len() ==> rest[i] == #[trigger] l[i + 1]);
        if string_serializable(l[0].0) && l[0].0 != "None"@ && prop_serializable(l[0].1, true)
            && entries_serializable(rest) {
            assert forall|i: int| 0 <= i < l.len() implies string_serializable(
                (#[trigger] l[i]).0,
            ) && l[i].0 != "None"@ && prop_serializable(l[i].1, true) by {
                if i > 0 {
                    assert(l[i] == rest[i - 1]);
                }
            }
        }
    }
}

/// Pair-wise reading of `pairs_serializable`.
pub proof fn lemma_pairs_serializable_iff(
    l: Seq<(PropertyV, PropertyV)>,
    key_type: Seq<char>,
    value_type: Seq<char>,
)
    ensures
        pairs_serializable(l, key_type, value_type) <==> (forall|i: int|
            0 <= i < l.len() ==> tag_of((#[trigger] l[i]).0) == key_type && prop_serializable(
                l[i].0,
                false,
            ) && tag_of(l[i].1) == value_type && prop_serializable(l[i].1, false)),
    decreases l.len(),
{
    if l.len() > 0 {
        let rest = l.subrange(1, l.len() as int);
        lemma_pairs_serializable_iff(rest, key_type, value_type);
        assert(forall|i: int| 0 <= i < rest.len() ==> rest[i] == #[trigger] l[i + 1]);
        if tag_of(l[0].0) == key_type && prop_serializable(l[0].0, false) && tag_of(l[0].1)
            == value_type && prop_serializable(l[0].1, false) && pairs_serializable(
            rest,
            key_type,
            value_type,
        ) {
            assert forall|i: int| 0 <= i < l.len() implies tag_of((#[trigger] l[i]).0) == key_type
                && prop_serializable(l[i].0, false) && tag_of(l[i].1) == value_type
                && prop_serializable(l[i].1, false) by {
                if i > 0 {
                    assert(l[i] == rest[i - 1]);
                }
            }
        }
    }
}

/// Patching a zeroed length field leaves everything around it in place.
pub proof fn lemma_patch_at(pre: Seq<u8>, tail: Seq<u8>, x: u64, d: Seq<u8>, d2: Seq<u8>)
    requires
        d == pre + spec_u64_to_le_bytes(0u64) + tail,
        d2 == d.subrange(0, pre.len() as int) + spec_u64_to_le_bytes(x) + d.subrange(
            pre.len() as int + 8,
            d.len() as int,
        ),
    ensures
        d2 == pre + spec_u64_to_le_bytes(x) + tail,
{
    lemma_auto_spec_u64_to_from_le_bytes();
    assert(d.subrange(0, pre.len() as int) =~= pre);
    assert(d.subrange(pre.len() as int + 8, d.len() as int) =~= tail);
    assert(d2 =~= pre + spec_u64_to_le_bytes(x) + tail);
}

/// Writes a type tag known to pass the length-field bound.
fn write_tag(cursor: &mut Cursor, tag: &str)
    requires
        string_serializable(tag@),
    ensures
        final(cursor).data@ == old(cursor).data@ + ser_string(tag@),
        final(cursor).pos == final(cursor).data@.len(),
{
    match cursor.write_string(tag) {
        Ok(()) => (),
        Err(_) => {
            proof {
                assert(false);
            }
        },
    }
}

/// The type tag under which a property is written.
pub fn tag_str<'a>(p: &'a Property) -> (t: &'a str)
    ensures
        t@ == tag_of(p@),
{
    match p {
        Property::Int8Property(_) => "Int8Property",
        Property::ByteProperty(_) => "ByteProperty",
        Property::Int16Property(_) => "Int16Property",
        Property::UInt16Property(_) => "UInt16Property",
        Property::IntProperty(_) => "IntProperty",
        Property::UInt32Property(_) => "UInt32Property",
        Property::Int64Property(_) => "Int64Property",
        Property::UInt64Property(_) => "UInt64Property",
        Property::FloatProperty(_) => "FloatProperty",
        Property::DoubleProperty(_) => "DoubleProperty",
        Property::BoolProperty(_) => "BoolProperty",
        Property::EnumProperty(_) => "EnumProperty",
        Property::StrProperty(_) => "StrProperty",
        Property::StructProperty(_) => "StructProperty",
        Property::ArrayProperty(_) => "ArrayProperty",
        Property::SetProperty(_) => "SetProperty",
        Property::MapProperty(_) => "MapProperty",
        Property::UnknownProperty(u) => u.property_type.as_str(),
    }
}

/// The seventeen tag strings of the closed kind set are pairwise distinct.
#[verifier::rlimit(100)]
#[verifier::spinoff_prover]
pub proof fn lemma_tags_distinct()
    ensures
        "Int8Property"@ != "ByteProperty"@,
        "Int8Property"@ != "Int16Property"@,
        "Int8Property"@ != "UInt16Property"@,
        "Int8Property"@ != "IntProperty"@,
        "Int8Property"@ != "UInt32Property"@,
        "Int8Property"@ != "Int64Property"@,
        "Int8Property"@ != "UInt64Property"@,
        "Int8Property"@ != "FloatProperty"@,
        "Int8Property"@ != "DoubleProperty"@,
        "Int8Property"@ != "BoolProperty"@,
        "Int8Property"@ != "EnumProperty"@,
        "Int8Property"@ != "StrProperty"@,
        "Int8Property"@ != "StructProperty"@,
        "Int8Property"@ != "ArrayProperty"@,
        "Int8Property"@ != "SetProperty"@,
        "Int8Property"@ != "MapProperty"@,
        "ByteProperty"@ != "Int16Property"@,
        "ByteProperty"@ != "UInt16Property"@,
        "ByteProperty"@ != "IntProperty"@,
        "ByteProperty"@ != "UInt32Property"@,
        "ByteProperty"@ != "Int64Property"@,
        "ByteProperty"@ != "UInt64Property"@,
        "ByteProperty"@ != "FloatProperty"@,
        "ByteProperty"@ != "DoubleProperty"@,
        "ByteProperty"@ != "BoolProperty"@,
        "ByteProperty"@ != "EnumProperty"@,
        "ByteProperty"@ != "StrProperty"@,
        "ByteProperty"@ != "StructProperty"@,
        "ByteProperty"@ != "ArrayProperty"@,
        "ByteProperty"@ != "SetProperty"@,
        "ByteProperty"@ != "MapProperty"@,
        "Int16Property"@ != "UInt16Property"@,
        "Int16Property"@ != "IntProperty"@,
        "Int16Property"@ != "UInt32Property"@,
        "Int16Property"@ != "Int64Property"@,
        "Int16Property"@ != "UInt64Property"@,
        "Int16Property"@ != "FloatProperty"@,
        "Int16Property"@ != "DoubleProperty"@,
        "Int16Property"@ != "BoolProperty"@,
        "Int16Property"@ != "EnumProperty"@,
        "Int16Property"@ != "StrProperty"@,
        "Int16Property"@ != "StructProperty"@,
        "Int16Property"@ != "ArrayProperty"@,
        "Int16Property"@ != "SetProperty"@,
        "Int16Property"@ != "MapProperty"@,
        "UInt16Property"@ != "IntProperty"@,
        "UInt16Property"@ != "UInt32Property"@,
        "UInt16Property"@ != "Int64Property"@,
        "UInt16Property"@ != "UInt64Property"@,
        "UInt16Property"@ != "FloatProperty"@,
        "UInt16Property"@ != "DoubleProperty"@,
        "UInt16Property"@ != "BoolProperty"@,
        "UInt16Property"@ != "EnumProperty"@,
        "UInt16Property"@ != "StrProperty"@,
        "UInt16Property"@ != "StructProperty"@,
        "UInt16Property"@ != "ArrayProperty"@,
        "UInt16Property"@ != "SetProperty"@,
        "UInt16Property"@ != "MapProperty"@,
        "IntProperty"@ != "UInt32Property"@,
        "IntProperty"@ != "Int64Property"@,
        "IntProperty"@ != "UInt64Property"@,
        "IntProperty"@ != "FloatProperty"@,
        "IntProperty"@ != "DoubleProperty"@,
        "IntProperty"@ != "BoolProperty"@,
        "IntProperty"@ != "EnumProperty"@,
        "IntProperty"@ != "StrProperty"@,
        "IntProperty"@ != "StructProperty"@,
        "IntProperty"@ != "ArrayProperty"@,
        "IntProperty"@ != "SetProperty"@,
        "IntProperty"@ != "MapProperty"@,
        "UInt32Property"@ != "Int64Property"@,
        "UInt32Property"@ != "UInt64Property"@,
        "UInt32Property"@ != "FloatProperty"@,
        "UInt32Property"@ != "DoubleProperty"@,
        "UInt32Property"@ != "BoolProperty"@,
        "UInt32Property"@ != "EnumProperty"@,
        "UInt32Property"@ != "StrProperty"@,
        "UInt32Property"@ != "StructProperty"@,
        "UInt32Property"@ != "ArrayProperty"@,
        "UInt32Property"@ != "SetProperty"@,
        "UInt32Property"@ != "MapProperty"@,
        "Int64Property"@ != "UInt64Property"@,
        "Int64Property"@ != "FloatProperty"@,
        "Int64Property"@ != "DoubleProperty"@,
        "Int64Property"@ != "BoolProperty"@,
        "Int64Property"@ != "EnumProperty"@,
        "Int64Property"@ != "StrProperty"@,
        "Int64Property"@ != "StructProperty"@,
        "Int64Property"@ != "ArrayProperty"@,
        "Int64Property"@ != "SetProperty"@,
        "Int64Property"@ != "MapProperty"@,
        "UInt64Property"@ != "FloatProperty"@,
        "UInt64Property"@ != "DoubleProperty"@,
        "UInt64Property"@ != "BoolProperty"@,
        "UInt64Property"@ != "EnumProperty"@,
        "UInt64Property"@ != "StrProperty"@,
        "UInt64Property"@ != "StructProperty"@,
        "UInt64Property"@ != "ArrayProperty"@,
        "UInt64Property"@ != "SetProperty"@,
        "UInt64Property"@ != "MapProperty"@,
        "FloatProperty"@ != "DoubleProperty"@,
        "FloatProperty"@ != "BoolProperty"@,
        "FloatProperty"@ != "EnumProperty"@,
        "FloatProperty"@ != "StrProperty"@,
        "FloatProperty"@ != "StructProperty"@,
        "FloatProperty"@ != "ArrayProperty"@,
        "FloatProperty"@ != "SetProperty"@,
        "FloatProperty"@ != "MapProperty"@,
        "DoubleProperty"@ != "BoolProperty"@,
        "DoubleProperty"@ != "EnumProperty"@,
        "DoubleProperty"@ != "StrProperty"@,
        "DoubleProperty"@ != "StructProperty"@,
        "DoubleProperty"@ != "ArrayProperty"@,
        "DoubleProperty"@ != "SetProperty"@,
        "DoubleProperty"@ != "MapProperty"@,
        "BoolProperty"@ != "EnumProperty"@,
        "BoolProperty"@ != "StrProperty"@,
        "BoolProperty"@ != "StructProperty"@,
        "BoolProperty"@ != "ArrayProperty"@,
        "BoolProperty"@ != "SetProperty"@,
        "BoolProperty"@ != "MapProperty"@,
        "EnumProperty"@ != "StrProperty"@,
        "EnumProperty"@ != "StructProperty"@,
        "EnumProperty"@ != "ArrayProperty"@,
        "EnumProperty"@ != "SetProperty"@,
        "EnumProperty"@ != "MapProperty"@,
        "StrProperty"@ != "StructProperty"@,
        "StrProperty"@ != "ArrayProperty"@,
        "StrProperty"@ != "SetProperty"@,
        "StrProperty"@ != "MapProperty"@,
        "StructProperty"@ != "ArrayProperty"@,
        "StructProperty"@ != "SetProperty"@,
        "StructProperty"@ != "MapProperty"@,
        "ArrayProperty"@ != "SetProperty"@,
        "ArrayProperty"@ != "MapProperty"@,
        "SetProperty"@ != "MapProperty"@,
{
    reveal_strlit("Int8Property");
    reveal_strlit("ByteProperty");
    reveal_strlit("Int16Property");
    reveal_strlit("UInt16Property");
    reveal_strlit("IntProperty");
    reveal_strlit("UInt32Property");
    reveal_strlit("Int64Property");
    reveal_strlit("UInt64Property");
    reveal_strlit("FloatProperty");
    reveal_strlit("DoubleProperty");
    reveal_strlit("BoolProperty");
    reveal_strlit("EnumProperty");
    reveal_strlit("StrProperty");
    reveal_strlit("StructProperty");
    reveal_strlit("ArrayProperty");
    reveal_strlit("SetProperty");
    reveal_strlit("MapProperty");
    assert("Int8Property"@.len() == 12);
    assert("Int8Property"@[0] == 'I');
    assert("Int8Property"@[1] == 'n');
    assert("Int8Property"@[3] == '8');
    assert("Int8Property"@[4] == 'P');
    assert("ByteProperty"@.len() == 12);
    assert("ByteProperty"@[0] == 'B');
    assert("ByteProperty"@[1] == 'y');
    assert("ByteProperty"@[3] == 'e');
    assert("ByteProperty"@[4] == 'P');
    assert("Int16Property"@.len() == 13);
    assert("Int16Property"@[0] == 'I');
    assert("Int16Property"@[1] == 'n');
    assert("Int16Property"@[3] == '1');
    assert("Int16Property"@[4] == '6');
    assert("UInt16Property"@.len() == 14);
    assert("UInt16Property"@[0] == 'U');
    assert("UInt16Property"@[1] == 'I');
    assert("UInt16Property"@[3] == 't');
    assert("UInt16Property"@[4] == '1');
    assert("IntProperty"@.len() == 11);
    assert("IntProperty"@[0] == 'I');
    assert("IntProperty"@[1] == 'n');
    assert("IntProperty"@[3] == 'P');
    assert("IntProperty"@[4] == 'r');
    assert("UInt32Property"@.len() == 14);
    assert("UInt32Property"@[0] == 'U');
    assert("UInt32Property"@[1] == 'I');
    assert("UInt32Property"@[3] == 't');
    assert("UInt32Property"@[4] == '3');
    assert("Int64Property"@.len() == 13);
    assert("Int64Property"@[0] == 'I');
    assert("Int64Property"@[1] == 'n');
    assert("Int64Property"@[3] == '6');
    assert("Int64Property"@[4] == '4');
    assert("UInt64Property"@.len() == 14);
    assert("UInt64Property"@[0] == 'U');
    assert("UInt64Property"@[1] == 'I');
    assert("UInt64Property"@[3] == 't');
    assert("UInt64Property"@[4] == '6');
    assert("FloatProperty"@.len() == 13);
    assert("FloatProperty"@[0] == 'F');
    assert("FloatProperty"@[1] == 'l');
    assert("FloatProperty"@[3] == 'a');
    assert("FloatProperty"@[4] == 't');
    assert("DoubleProperty"@.len() == 14);
    assert("DoubleProperty"@[0] == 'D');
    assert("DoubleProperty"@[1] == 'o');
    assert("DoubleProperty"@[3] == 'b');
    assert("DoubleProperty"@[4] == 'l');
    assert("BoolProperty"@.len() == 12);
    assert("BoolProperty"@[0] == 'B');
    assert("BoolProperty"@[1] == 'o');
    assert("BoolProperty"@[3] == 'l');
    assert("BoolProperty"@[4] == 'P');
    assert("EnumProperty"@.len() == 12);
    assert("EnumProperty"@[0] == 'E');
    assert("EnumProperty"@[1] == 'n');
    assert("EnumProperty"@[3] == 'm');
    assert("EnumProperty"@[4] == 'P');
    assert("StrProperty"@.len() == 11);
    assert("StrProperty"@[0] == 'S');
    assert("StrProperty"@[1] == 't');
    assert("StrProperty"@[3] == 'P');
    assert("StrProperty"@[4] == 'r');
    assert("StructProperty"@.len() == 14);
    assert("StructProperty"@[0] == 'S');
    assert("StructProperty"@[1] == 't');
    assert("StructProperty"@[3] == 'u');
    assert("StructProperty"@[4] == 'c');
    assert("ArrayProperty"@.len() == 13);
    assert("ArrayProperty"@[0] == 'A');
    assert("ArrayProperty"@[1] == 'r');
    assert("ArrayProperty"@[3] == 'a');
    assert("ArrayProperty"@[4] == 'y');
    assert("SetProperty"@.len() == 11);
    assert("SetProperty"@[0] == 'S');
    assert("SetProperty"@[1] == 'e');
    assert("SetProperty"@[3] == 'P');
    assert("SetProperty"@[4] == 'r');
    assert("MapProperty"@.len() == 11);
    assert("MapProperty"@[0] == 'M');
    assert("MapProperty"@[1] == 'a');
    assert("MapProperty"@[3] == 'P');
    assert("MapProperty"@[4] == 'r');
}

/// The tag strings of the closed kind set, the sentinel and the map path
/// segments all pass the length-field bound.
pub proof fn lemma_tags_serializable()
    ensures
        string_serializable("Int8Property"@),
        string_serializable("ByteProperty"@),
        string_serializable("Int16Property"@),
        string_serializable("UInt16Property"@),
        string_serializable("IntProperty"@),
        string_serializable("UInt32Property"@),
        string_serializable("Int64Property"@),
        string_serializable("UInt64Property"@),
        string_serializable("FloatProperty"@),
        string_serializable("DoubleProperty"@),
        string_serializable("BoolProperty"@),
        string_serializable("EnumProperty"@),
        string_serializable("StrProperty"@),
        string_serializable("StructProperty"@),
        string_serializable("ArrayProperty"@),
        string_serializable("SetProperty"@),
        string_serializable("MapProperty"@),
        string_serializable("None"@),
        string_serializable("Key"@),
        string_serializable("Value"@),
{
    reveal_strlit("Int8Property");
    reveal_strlit("ByteProperty");
    reveal_strlit("Int16Property");
    reveal_strlit("UInt16Property");
    reveal_strlit("IntProperty");
    reveal_strlit("UInt32Property");
    reveal_strlit("Int64Property");
    reveal_strlit("UInt64Property");
    reveal_strlit("FloatProperty");
    reveal_strlit("DoubleProperty");
    reveal_strlit("BoolProperty");
    reveal_strlit("EnumProperty");
    reveal_strlit("StrProperty");
    reveal_strlit("StructProperty");
    reveal_strlit("ArrayProperty");
    reveal_strlit("SetProperty");
    reveal_strlit("MapProperty");
    reveal_strlit("None");
    reveal_strlit("Key");
    reveal_strlit("Value");
}

/// What every property can do: write itself to a byte cursor, with or
/// without its self-describing header.
pub trait PropertyTrait {
    /// Encodes this value at the end of the buffer.
    fn write(&self, cursor: &mut Cursor, include_header: bool) -> Result<(), Error>;
}

impl Property {
    /// Encodes this property at the end of the buffer, exactly as
    /// [`ser_property`] states. Fails, rather than producing malformed
    /// output, exactly when [`prop_serializable`] refuses the value: a
    /// string over the length-field bound, a count over its field, a
    /// container element whose kind does not match the container's declared
    /// inner type, a struct-typed array without its identity block, or a
    /// container without a header.
    #[verifier::rlimit(100)]
    #[verifier::spinoff_prover]
    pub fn write(&self, cursor: &mut Cursor, include_header: bool) -> (r: Result<(), Error>)
        ensures
            prop_serializable(self@, include_header) ==> r is Ok,
            !prop_serializable(self@, include_header) ==> r is Err,
            r is Ok ==> final(cursor).data@ == old(cursor).data@ + ser_property(
                self@,
                include_header,
            ) && final(cursor).pos == final(cursor).data@.len(),
            r is Err ==> (r matches Err(Error::InvalidValue(_))),
        decreases *self,
    {
        proof {
            lemma_tags_serializable();
            lemma_auto_spec_u16_to_from_le_bytes();
            lemma_auto_spec_u32_to_from_le_bytes();
            lemma_auto_spec_u64_to_from_le_bytes();
        }
        match self {
            Property::Int8Property(v) => {
                if include_header {
                    write_tag(cursor, "Int8Property");
                    cursor.write_u64(1);
                    cursor.write_u8(0);
                }
                cursor.write_i8(*v);
                proof {
                    assert(cursor.data@ =~= old(cursor).data@ + ser_property(
                        self@,
                        include_header,
                    ));
                }
                Ok(())
            },
            Property::ByteProperty(v) => {
                if include_header {
                    write_tag(cursor, "ByteProperty");
                    cursor.write_u64(1);
                    cursor.write_u8(0);
                }
                cursor.write_u8(*v);
                proof {
                    assert(cursor.data@ =~= old(cursor).data@ + ser_property(
                        self@,
                        include_header,
                    ));
                }
                Ok(())
            },
            Property::Int16Property(v) => {
                if include_header {
                    write_tag(cursor, "Int16Property");
                    cursor.write_u64(2);
                    cursor.write_u8(0);
                }
                cursor.write_i16(*v);
                proof {
                    assert(cursor.data@ =~= old(cursor).data@ + ser_property(
                        self@,
                        include_header,
                    ));
                }
                Ok(())
            },
            Property::UInt16Property(v) => {
                if include_header {
                    write_tag(cursor, "UInt16Property");
                    cursor.write_u64(2);
                    cursor.write_u8(0);
                }
                cursor.write_u16(*v);
                proof {
                    assert(cursor.data@ =~= old(cursor).data@ + ser_property(
                        self@,
                        include_header,
                    ));
                }
                Ok(())
            },
            Property::IntProperty(v) => {
                if include_header {
                    write_tag(cursor, "IntProperty");
                    cursor.write_u64(4);
                    cursor.write_u8(0);
                }
                cursor.write_i32(*v);
                proof {
                    assert(cursor.data@ =~= old(cursor).data@ + ser_property(
                        self@,
                        include_header,
                    ));
                }
                Ok(())
            },
            Property::UInt32Property(v) => {
                if include_header {
                    write_tag(cursor, "UInt32Property");
                    cursor.write_u64(4);
                    cursor.write_u8(0);
                }
                cursor.write_u32(*v);
                proof {
                    assert(cursor.data@ =~= old(cursor).data@ + ser_property(
                        self@,
                        include_header,
                    ));
                }
                Ok(())
            },
            Property::Int64Property(v) => {
                if include_header {
                    write_tag(cursor, "Int64Property");
                    cursor.write_u64(8);
                    cursor.write_u8(0);
                }
                cursor.write_i64(*v);
                proof {
                    assert(cursor.data@ =~= old(cursor).data@ + ser_property(
                        self@,
                        include_header,
                    ));
                }
                Ok(())
            },
            Property::UInt64Property(v) => {
                if include_header {
                    write_tag(cursor, "UInt64Property");
                    cursor.write_u64(8);
                    cursor.write_u8(0);
                }
                cursor.write_u64(*v);
                proof {
                    assert(cursor.data@ =~= old(cursor).data@ + ser_property(
                        self@,
                        include_header,
                    ));
                }
                Ok(())
            },
            Property::FloatProperty(v) => {
                if include_header {
                    write_tag(cursor, "FloatProperty");
                    cursor.write_u64(4);
                    cursor.write_u8(0);
                }
                cursor.write_u32(*v);
                proof {
                    assert(cursor.data@ =~= old(cursor).data@ + ser_property(
                        self@,
                        include_header,
                    ));
                }
                Ok(())
            },
            Property::DoubleProperty(v) => {
                if include_header {
                    write_tag(cursor, "DoubleProperty");
                    cursor.write_u64(8);
                    cursor.write_u8(0);
                }
                cursor.write_u64(*v);
                proof {
                    assert(cursor.data@ =~= old(cursor).data@ + ser_property(
                        self@,
                        include_header,
                    ));
                }
                Ok(())
            },
            Property::BoolProperty(v) => {
                if include_header {
                    write_tag(cursor, "BoolProperty");
                    cursor.write_u64(1);
                    cursor.write_u8(0);
                }
                cursor.write_u8(
                    if *v {
                        1
                    } else {
                        0
                    },
                );
                proof {
                    assert(cursor.data@ =~= old(cursor).data@ + ser_property(
                        self@,
                        include_header,
                    ));
                }
                Ok(())
            },
            Property::StrProperty(s) => {
                let ghost d0 = cursor.data@;
                let mut off: usize = 0;
                if include_header {
                    write_tag(cursor, "StrProperty");
                    off = cursor.position();
                    cursor.write_u64(0);
                    cursor.write_u8(0);
                }
                let ghost dmid = cursor.data@;
                let body_begin = cursor.position();
                match cursor.write_string(s.value.as_str()) {
                    Ok(()) => (),
                    Err(e) => {
                        return Err(e);
                    },
                };
                if include_header {
                    let end = cursor.position();
                    let ghost dpre = cursor.data@;
                    proof {
                        assert(dpre =~= (d0 + ser_string("StrProperty"@)) + spec_u64_to_le_bytes(
                            0u64,
                        ) + (seq![0u8] + ser_string(s.value@)));
                    }
                    cursor.patch_u64(off, (end - body_begin) as u64);
                    proof {
                        lemma_patch_at(
                            d0 + ser_string("StrProperty"@),
                            seq![0u8] + ser_string(s.value@),
                            (end - body_begin) as u64,
                            dpre,
                            cursor.data@,
                        );
                        crate::string_codec::lemma_ser_string_len(s.value@);
                        assert(cursor.data@ =~= d0 + ser_property(self@, true));
                    }
                } else {
                    proof {
                        assert(cursor.data@ =~= d0 + ser_property(self@, false));
                    }
                }
                Ok(())
            },
            Property::EnumProperty(en) => {
                let ghost d0 = cursor.data@;
                let mut off: usize = 0;
                if include_header {
                    write_tag(cursor, "EnumProperty");
                    off = cursor.position();
                    cursor.write_u64(0);
                    cursor.write_u8(0);
                }
                let ghost dmid = cursor.data@;
                let body_begin = cursor.position();
                match cursor.write_string(en.enum_type.as_str()) {
                    Ok(()) => (),
                    Err(e) => {
                        return Err(e);
                    },
                };
                match cursor.write_string(en.value.as_str()) {
                    Ok(()) => (),
                    Err(e) => {
                        return Err(e);
                    },
                };
                if include_header {
                    let end = cursor.position();
                    let ghost dpre = cursor.data@;
                    proof {
                        assert(dpre =~= (d0 + ser_string("EnumProperty"@)) + spec_u64_to_le_bytes(
                            0u64,
                        ) + (seq![0u8] + (ser_string(en.enum_type@) + ser_string(en.value@))));
                    }
                    cursor.patch_u64(off, (end - body_begin) as u64);
                    proof {
                        lemma_patch_at(
                            d0 + ser_string("EnumProperty"@),
                            seq![0u8] + (ser_string(en.enum_type@) + ser_string(en.value@)),
                            (end - body_begin) as u64,
                            dpre,
                            cursor.data@,
                        );
                        assert(cursor.data@ =~= d0 + ser_property(self@, true));
                    }
                } else {
                    proof {
                        assert(cursor.data@ =~= d0 + ser_property(self@, false));
                    }
                }
                Ok(())
            },
            Property::UnknownProperty(u) => {
                if include_header {
                    match cursor.write_string(u.property_type.as_str()) {
                        Ok(()) => (),
                        Err(e) => {
                            return Err(e);
                        },
                    };
                    cursor.write_u64(u.value.len() as u64);
                    cursor.write_u8(0);
                }
                cursor.write_bytes(u.value.as_slice());
                proof {
                    assert(cursor.data@ =~= old(cursor).data@ + ser_property(
                        self@,
                        include_header,
                    ));
                }
                Ok(())
            },
            Property::StructProperty(sp) => sp.write(cursor, include_header),
            Property::ArrayProperty(a) => a.write(cursor, include_header),
            Property::SetProperty(s) => s.write(cursor, include_header),
            Property::MapProperty(m) => m.write(cursor, include_header),
        }
    }
}

impl PropertyTrait for Property {
    fn write(&self, cursor: &mut Cursor, include_header: bool) -> Result<(), Error> {
        Property::write(self, cursor, include_header)
    }
}

/// The mathematical value of a struct property.
pub open spec fn struct_pview(s: StructProperty) -> PropertyV {
    pview(Property::StructProperty(s))
}

/// The mathematical value of an array property.
pub open spec fn array_pview(a: ArrayProperty) -> PropertyV {
    pview(Property::ArrayProperty(a))
}

/// The mathematical value of a set property.
pub open spec fn set_pview(s: SetProperty) -> PropertyV {
    pview(Property::SetProperty(s))
}

/// The mathematical value of a map property.
pub open spec fn map_pview(m: MapProperty) -> PropertyV {
    pview(Property::MapProperty(m))
}

impl StructProperty {
    /// Encodes this struct at the end of the buffer: with a header, the
    /// tag, patched byte length, type name, identifier and padding byte
    /// come first; the body is the fixed payload or the nested property
    /// loop ended by the sentinel name.
    #[verifier::loop_isolation(false)]
    #[verifier::rlimit(100)]
    #[verifier::spinoff_prover]
    pub fn write(&self, cursor: &mut Cursor, include_header: bool) -> (r: Result<(), Error>)
        ensures
            prop_serializable(struct_pview(*self), include_header) ==> r is Ok,
            !prop_serializable(struct_pview(*self), include_header) ==> r is Err,
            r is Ok ==> final(cursor).data@ == old(cursor).data@ + ser_property(
                struct_pview(*self),
                include_header,
            ) && final(cursor).pos == final(cursor).data@.len(),
            r is Err ==> (r matches Err(Error::InvalidValue(_))),
        decreases *self,
    {
        proof {
            lemma_tags_serializable();
            lemma_auto_spec_u32_to_from_le_bytes();
            lemma_auto_spec_u64_to_from_le_bytes();
        }
        let ghost pv = struct_pview(*self);
        let ghost d0 = cursor.data@;
        let mut off: usize = 0;
        if include_header {
            write_tag(cursor, "StructProperty");
            off = cursor.position();
            cursor.write_u64(0);
            match cursor.write_string(self.struct_type.as_str()) {
                Ok(()) => (),
                Err(e) => {
                    return Err(e);
                },
            };
            cursor.write_u64(self.guid.0);
            cursor.write_u64(self.guid.1);
            cursor.write_u8(0);
        }
        let ghost dmid = cursor.data@;
        let body_begin = cursor.position();
        match &self.value {
            StructValue::Vector(v) => {
                cursor.write_u32(v.x);
                cursor.write_u32(v.y);
                cursor.write_u32(v.z);
            },
            StructValue::Rotator(v) => {
                cursor.write_u32(v.pitch);
                cursor.write_u32(v.yaw);
                cursor.write_u32(v.roll);
            },
            StructValue::Quat(v) => {
                cursor.write_u32(v.x);
                cursor.write_u32(v.y);
                cursor.write_u32(v.z);
                cursor.write_u32(v.w);
            },
            StructValue::DateTime(v) => {
                cursor.write_u64(v.ticks);
            },
            StructValue::IntPoint(v) => {
                cursor.write_i32(v.x);
                cursor.write_i32(v.y);
            },
            StructValue::Guid(g) => {
                cursor.write_u64(g.0);
                cursor.write_u64(g.1);
            },
            StructValue::CustomStruct(props) => {
                match write_custom_entries(cursor, props) {
                    Ok(()) => (),
                    Err(err) => {
                        return Err(err);
                    },
                };
            },
        }
        proof {
            assert(cursor.data@ =~= dmid + ser_property(pv, false));
        }
        if include_header {
            let end = cursor.position();
            let ghost dpre = cursor.data@;
            proof {
                assert(dpre =~= (d0 + ser_string("StructProperty"@)) + spec_u64_to_le_bytes(0u64)
                    + (ser_string(self.struct_type@) + ser_guid(self.guid) + seq![0u8]
                    + ser_property(pv, false)));
            }
            cursor.patch_u64(off, (end - body_begin) as u64);
            proof {
                lemma_patch_at(
                    d0 + ser_string("StructProperty"@),
                    ser_string(self.struct_type@) + ser_guid(self.guid) + seq![0u8] + ser_property(
                        pv,
                        false,
                    ),
                    (end - body_begin) as u64,
                    dpre,
                    cursor.data@,
                );
                assert(cursor.data@ =~= d0 + ser_property(pv, true));
            }
        }
        Ok(())
    }
}

/// Writes a nested property bag entry after entry, each under its name
/// with a self-describing header, and closes it with the sentinel name.
#[verifier::loop_isolation(false)]
#[verifier::rlimit(100)]
#[verifier::spinoff_prover]
fn write_custom_entries(cursor: &mut Cursor, props: &Properties) -> (r: Result<(), Error>)
    ensures
        entries_serializable(pview_entries(props.entries@)) ==> r is Ok,
        !entries_serializable(pview_entries(props.entries@)) ==> r is Err,
        r is Ok ==> final(cursor).data@ == old(cursor).data@ + ser_prop_entries(
            pview_entries(props.entries@),
        ) + ser_string("None"@) && final(cursor).pos == final(cursor).data@.len(),
        r is Err ==> (r matches Err(Error::InvalidValue(_))),
    decreases *props, 0int,
{
    proof {
        lemma_tags_serializable();
    }
    let ghost dmid = cursor.data@;
    let ghost entries_v = pview_entries(props.entries@);
    proof {
        lemma_pview_entries_index(props.entries@);
        lemma_entries_serializable_iff(entries_v);
        assert(entries_v.subrange(0, 0) =~= Seq::<(Seq<char>, PropertyV)>::empty());
        assert(cursor.data@ =~= dmid + ser_prop_entries(entries_v.subrange(0, 0)));
    }
    let n = props.entries.len();
    let mut i: usize = 0;
    while i < n
        invariant
            i <= n,
            n == props.entries@.len(),
            cursor.data@ == dmid + ser_prop_entries(entries_v.subrange(0, i as int)),
            forall|k: int|
                0 <= k < i ==> string_serializable((#[trigger] entries_v[k]).0) && entries_v[k].0
                    != "None"@ && prop_serializable(entries_v[k].1, true),
        decreases n - i,
    {
        let e = &props.entries[i];
        proof {
            assert(entries_v[i as int] == (e.name@, pview(e.value)));
        }
        if strings_equal(e.name.as_str(), "None") {
            proof {
                assert(!entries_serializable(entries_v));
            }
            return Err(Error::InvalidValue("a nested property cannot be named None".to_owned()));
        }
        match cursor.write_string(e.name.as_str()) {
            Ok(()) => (),
            Err(err) => {
                proof {
                    assert(!entries_serializable(entries_v));
                }
                return Err(err);
            },
        };
        match e.value.write(cursor, true) {
            Ok(()) => (),
            Err(err) => {
                proof {
                    assert(!entries_serializable(entries_v));
                }
                return Err(err);
            },
        };
        i = i + 1;
        proof {
            lemma_ser_prop_entries_snoc(entries_v.subrange(0, i - 1), entries_v[i - 1]);
            assert(entries_v.subrange(0, i as int) =~= entries_v.subrange(0, i - 1).push(
                entries_v[i - 1],
            ));
            assert(cursor.data@ =~= dmid + ser_prop_entries(entries_v.subrange(0, i as int)));
        }
    }
    proof {
        assert(entries_v.subrange(0, n as int) =~= entries_v);
    }
    write_tag(cursor, "None");
    proof {
        assert(cursor.data@ =~= dmid + ser_prop_entries(entries_v) + ser_string("None"@));
    }
    Ok(())
}

impl PropertyTrait for StructProperty {
    fn write(&self, cursor: &mut Cursor, include_header: bool) -> Result<(), Error> {
        StructProperty::write(self, cursor, include_header)
    }
}


/// Writes each element's body, requiring every element to be a struct.
#[verifier::loop_isolation(false)]
#[verifier::rlimit(60)]
#[verifier::spinoff_prover]
fn write_struct_elements(cursor: &mut Cursor, properties: &Vec<Property>) -> (r: Result<(), Error>)
    ensures
        structs_serializable(pview_list(properties@)) ==> r is Ok,
        !structs_serializable(pview_list(properties@)) ==> r is Err,
        r is Ok ==> final(cursor).data@ == old(cursor).data@ + ser_props(
            pview_list(properties@),
            false,
        ) && final(cursor).pos == final(cursor).data@.len(),
        r is Err ==> (r matches Err(Error::InvalidValue(_))),
    decreases *properties, 0int,
{
    let ghost tl = pview_list(properties@);
    let ghost d0 = cursor.data@;
    proof {
        lemma_pview_list_index(properties@);
        lemma_structs_serializable_iff(tl);
        assert(tl.subrange(0, 0) =~= Seq::<PropertyV>::empty());
        assert(cursor.data@ =~= d0 + ser_props(tl.subrange(0, 0), false));
    }
    let n = properties.len();
    let mut i: usize = 0;
    while i < n
        invariant
            i <= n,
            n == properties@.len(),
            cursor.data@ == d0 + ser_props(tl.subrange(0, i as int), false),
            i > 0 ==> cursor.pos == cursor.data@.len(),
            forall|k: int|
                0 <= k < i ==> (#[trigger] tl[k]) is StructProperty && prop_serializable(
                    tl[k],
                    false,
                ),
        decreases n - i,
    {
        let e = &properties[i];
        proof {
            assert(tl[i as int] == pview(*e));
        }
        match e {
            Property::StructProperty(sp) => {
                match sp.write(cursor, false) {
                    Ok(()) => (),
                    Err(err) => {
                        proof {
                            assert(!prop_serializable(tl[i as int], false));
                            assert(!structs_serializable(tl));
                        }
                        return Err(err);
                    },
                };
            },
            _ => {
                proof {
                    assert(!(tl[i as int] is StructProperty));
                    assert(!structs_serializable(tl));
                }
                return Err(
                    Error::InvalidValue(
                        "array element does not match the declared inner type".to_owned(),
                    ),
                );
            },
        }
        i = i + 1;
        proof {
            lemma_ser_props_snoc(tl.subrange(0, i - 1), tl[i - 1], false);
            assert(tl.subrange(0, i as int) =~= tl.subrange(0, i - 1).push(tl[i - 1]));
            assert(cursor.data@ =~= d0 + ser_props(tl.subrange(0, i as int), false));
        }
    }
    proof {
        assert(tl.subrange(0, n as int) =~= tl);
    }
    if n == 0 {
        cursor.pos = cursor.data.len();
    }
    Ok(())
}

/// Writes each element's body, requiring every element's kind to match the
/// declared inner type tag.
#[verifier::loop_isolation(false)]
#[verifier::rlimit(60)]
#[verifier::spinoff_prover]
fn write_elements(cursor: &mut Cursor, properties: &Vec<Property>, tag: &str) -> (r: Result<
    (),
    Error,
>)
    ensures
        elems_serializable(pview_list(properties@), tag@) ==> r is Ok,
        !elems_serializable(pview_list(properties@), tag@) ==> r is Err,
        r is Ok ==> final(cursor).data@ == old(cursor).data@ + ser_props(
            pview_list(properties@),
            false,
        ) && final(cursor).pos == final(cursor).data@.len(),
        r is Err ==> (r matches Err(Error::InvalidValue(_))),
    decreases *properties, 0int,
{
    let ghost tl = pview_list(properties@);
    let ghost d0 = cursor.data@;
    proof {
        lemma_pview_list_index(properties@);
        lemma_elems_serializable_iff(tl, tag@);
        assert(tl.subrange(0, 0) =~= Seq::<PropertyV>::empty());
        assert(cursor.data@ =~= d0 + ser_props(tl.subrange(0, 0), false));
    }
    let n = properties.len();
    let mut i: usize = 0;
    while i < n
        invariant
            i <= n,
            n == properties@.len(),
            cursor.data@ == d0 + ser_props(tl.subrange(0, i as int), false),
            i > 0 ==> cursor.pos == cursor.data@.len(),
            forall|k: int|
                0 <= k < i ==> tag_of(#[trigger] tl[k]) == tag@ && prop_serializable(tl[k], false),
        decreases n - i,
    {
        let e = &properties[i];
        proof {
            assert(tl[i as int] == pview(*e));
        }
        if !strings_equal(tag_str(e), tag) {
            proof {
                assert(tag_of(tl[i as int]) != tag@);
                assert(!elems_serializable(tl, tag@));
            }
            return Err(
                Error::InvalidValue(
                    "container element does not match the declared inner type".to_owned(),
                ),
            );
        }
        match e.write(cursor, false) {
            Ok(()) => (),
            Err(err) => {
                proof {
                    assert(!prop_serializable(tl[i as int], false));
                    assert(!elems_serializable(tl, tag@));
                }
                return Err(err);
            },
        };
        i = i + 1;
        proof {
            lemma_ser_props_snoc(tl.subrange(0, i - 1), tl[i - 1], false);
            assert(tl.subrange(0, i as int) =~= tl.subrange(0, i - 1).push(tl[i - 1]));
            assert(cursor.data@ =~= d0 + ser_props(tl.subrange(0, i as int), false));
        }
    }
    proof {
        assert(tl.subrange(0, n as int) =~= tl);
    }
    if n == 0 {
        cursor.pos = cursor.data.len();
    }
    Ok(())
}

/// Writes a struct-typed array's shared identity block and its element
/// bodies, patching the block's own length field after measuring them.
#[verifier::loop_isolation(false)]
#[verifier::rlimit(100)]
#[verifier::spinoff_prover]
fn write_struct_identity_and_bodies(
    cursor: &mut Cursor,
    info: &ArrayStructInfo,
    properties: &Vec<Property>,
) -> (r: Result<(), Error>)
    requires
        old(cursor).pos == old(cursor).data@.len(),
    ensures
        string_serializable(info.field_name@) && string_serializable(info.struct_name@)
            && structs_serializable(pview_list(properties@)) ==> r is Ok,
        !(string_serializable(info.field_name@) && string_serializable(info.struct_name@)
            && structs_serializable(pview_list(properties@))) ==> r is Err,
        r is Ok ==> final(cursor).data@ == old(cursor).data@ + ser_struct_identity(
            ArrayStructInfoV {
                field_name: info.field_name@,
                struct_name: info.struct_name@,
                guid: info.guid,
            },
            ser_props(pview_list(properties@), false),
        ) && final(cursor).pos == final(cursor).data@.len(),
        r is Err ==> (r matches Err(Error::InvalidValue(_))),
    decreases *properties, 1int,
{
    proof {
        lemma_tags_serializable();
        lemma_auto_spec_u64_to_from_le_bytes();
    }
    let ghost d0 = cursor.data@;
    let ghost tl = pview_list(properties@);
    match cursor.write_string(info.field_name.as_str()) {
        Ok(()) => (),
        Err(e) => {
            return Err(e);
        },
    };
    write_tag(cursor, "StructProperty");
    let m_off = cursor.position();
    cursor.write_u64(0);
    match cursor.write_string(info.struct_name.as_str()) {
        Ok(()) => (),
        Err(e) => {
            return Err(e);
        },
    };
    cursor.write_u64(info.guid.0);
    cursor.write_u64(info.guid.1);
    cursor.write_u8(0);
    match write_struct_elements(cursor, properties) {
        Ok(()) => (),
        Err(err) => {
            return Err(err);
        },
    };
    let end_m = cursor.position();
    let ghost dpre = cursor.data@;
    proof {
        assert(dpre =~= (d0 + ser_string(info.field_name@) + ser_string("StructProperty"@))
            + spec_u64_to_le_bytes(0u64) + (ser_string(info.struct_name@) + ser_guid(info.guid)
            + seq![0u8] + ser_props(tl, false)));
    }
    cursor.patch_u64(m_off, (end_m - m_off) as u64);
    proof {
        crate::string_codec::lemma_ser_string_len(info.struct_name@);
        lemma_patch_at(
            d0 + ser_string(info.field_name@) + ser_string("StructProperty"@),
            ser_string(info.struct_name@) + ser_guid(info.guid) + seq![0u8] + ser_props(tl, false),
            (end_m - m_off) as u64,
            dpre,
            cursor.data@,
        );
        assert(cursor.data@ =~= d0 + ser_struct_identity(
            ArrayStructInfoV {
                field_name: info.field_name@,
                struct_name: info.struct_name@,
                guid: info.guid,
            },
            ser_props(tl, false),
        ));
    }
    Ok(())
}

impl ArrayProperty {
    /// Encodes this array at the end of the buffer with the two-pass
    /// length patching the format requires: the byte length after the
    /// padding byte is reserved, the body written and measured, and the
    /// field patched; a struct-typed array does the same once more for its
    /// shared identity block, which appears exactly once however many
    /// elements there are.
    #[verifier::loop_isolation(false)]
    #[verifier::rlimit(100)]
    #[verifier::spinoff_prover]
    pub fn write(&self, cursor: &mut Cursor, include_header: bool) -> (r: Result<(), Error>)
        ensures
            prop_serializable(array_pview(*self), include_header) ==> r is Ok,
            !prop_serializable(array_pview(*self), include_header) ==> r is Err,
            r is Ok ==> final(cursor).data@ == old(cursor).data@ + ser_property(
                array_pview(*self),
                include_header,
            ) && final(cursor).pos == final(cursor).data@.len(),
            r is Err ==> (r matches Err(Error::InvalidValue(_))),
        decreases *self,
    {
        proof {
            lemma_tags_serializable();
            lemma_auto_spec_u32_to_from_le_bytes();
            lemma_auto_spec_u64_to_from_le_bytes();
        }
        let ghost pv = array_pview(*self);
        let ghost tl = pview_list(self.properties@);
        proof {
            lemma_pview_list_index(self.properties@);
            lemma_elems_serializable_iff(tl, self.property_type@);
            lemma_structs_serializable_iff(tl);
        }
        if !include_header {
            return Err(Error::InvalidValue("a nested array needs a header".to_owned()));
        }
        let ghost d0 = cursor.data@;
        write_tag(cursor, "ArrayProperty");
        let off = cursor.position();
        cursor.write_u64(0);
        match cursor.write_string(self.property_type.as_str()) {
            Ok(()) => (),
            Err(e) => {
                return Err(e);
            },
        };
        cursor.write_u8(0);
        let begin_write = cursor.position();
        if self.properties.len() > 0x7fff_ffff {
            return Err(Error::InvalidValue("element count does not fit its field".to_owned()));
        }
        let count = self.properties.len();
        cursor.write_i32(count as i32);
        let ghost dcount = cursor.data@;
        let is_struct = strings_equal(self.property_type.as_str(), "StructProperty");
        if is_struct {
            let info = match &self.array_struct_info {
                Some(i) => i,
                None => {
                    return Err(
                        Error::InvalidValue(
                            "a struct-typed array needs its identity block".to_owned(),
                        ),
                    );
                },
            };
            match write_struct_identity_and_bodies(cursor, info, &self.properties) {
                Ok(()) => (),
                Err(err) => {
                    return Err(err);
                },
            };
            let ghost inner = ser_struct_identity(
                ArrayStructInfoV {
                    field_name: info.field_name@,
                    struct_name: info.struct_name@,
                    guid: info.guid,
                },
                ser_props(tl, false),
            );
            let end_write = cursor.position();
            let ghost dpre = cursor.data@;
            let ghost tail = ser_string(self.property_type@) + seq![0u8] + spec_i32_to_le_bytes(
                count as i32,
            ) + inner;
            proof {
                assert(dpre =~= (d0 + ser_string("ArrayProperty"@)) + spec_u64_to_le_bytes(0u64)
                    + tail);
            }
            cursor.patch_u64(off, (end_write - begin_write) as u64);
            proof {
                lemma_patch_at(
                    d0 + ser_string("ArrayProperty"@),
                    tail,
                    (end_write - begin_write) as u64,
                    dpre,
                    cursor.data@,
                );
                assert(cursor.data@ =~= d0 + ser_property(pv, true));
            }
            Ok(())
        } else {
            match write_elements(cursor, &self.properties, self.property_type.as_str()) {
                Ok(()) => (),
                Err(err) => {
                    return Err(err);
                },
            };
            let end_write = cursor.position();
            let ghost dpre = cursor.data@;
            proof {
                assert(dpre =~= (d0 + ser_string("ArrayProperty"@)) + spec_u64_to_le_bytes(0u64)
                    + (ser_string(self.property_type@) + seq![0u8] + spec_i32_to_le_bytes(
                    count as i32,
                ) + ser_props(tl, false)));
            }
            cursor.patch_u64(off, (end_write - begin_write) as u64);
            proof {
                lemma_patch_at(
                    d0 + ser_string("ArrayProperty"@),
                    ser_string(self.property_type@) + seq![0u8] + spec_i32_to_le_bytes(
                        count as i32,
                    ) + ser_props(tl, false),
                    (end_write - begin_write) as u64,
                    dpre,
                    cursor.data@,
                );
                assert(cursor.data@ =~= d0 + ser_property(pv, true));
            }
            Ok(())
        }
    }
}

impl PropertyTrait for ArrayProperty {
    fn write(&self, cursor: &mut Cursor, include_header: bool) -> Result<(), Error> {
        ArrayProperty::write(self, cursor, include_header)
    }
}

impl SetProperty {
    /// Encodes this set with the same length-prefix-then-patch discipline
    /// as an array, plus the removed-element count field.
    #[verifier::loop_isolation(false)]
    #[verifier::rlimit(100)]
    #[verifier::spinoff_prover]
    pub fn write(&self, cursor: &mut Cursor, include_header: bool) -> (r: Result<(), Error>)
        ensures
            prop_serializable(set_pview(*self), include_header) ==> r is Ok,
            !prop_serializable(set_pview(*self), include_header) ==> r is Err,
            r is Ok ==> final(cursor).data@ == old(cursor).data@ + ser_property(
                set_pview(*self),
                include_header,
            ) && final(cursor).pos == final(cursor).data@.len(),
            r is Err ==> (r matches Err(Error::InvalidValue(_))),
        decreases *self,
    {
        proof {
            lemma_tags_serializable();
            lemma_auto_spec_u32_to_from_le_bytes();
            lemma_auto_spec_u64_to_from_le_bytes();
        }
        let ghost pv = set_pview(*self);
        let ghost tl = pview_list(self.properties@);
        proof {
            lemma_pview_list_index(self.properties@);
            lemma_elems_serializable_iff(tl, self.property_type@);
        }
        if !include_header {
            return Err(Error::InvalidValue("a nested set needs a header".to_owned()));
        }
        let ghost d0 = cursor.data@;
        write_tag(cursor, "SetProperty");
        let off = cursor.position();
        cursor.write_u64(0);
        match cursor.write_string(self.property_type.as_str()) {
            Ok(()) => (),
            Err(e) => {
                return Err(e);
            },
        };
        cursor.write_u8(0);
        let begin_write = cursor.position();
        cursor.write_u32(self.removed_count);
        if self.properties.len() > 0x7fff_ffff {
            return Err(Error::InvalidValue("element count does not fit its field".to_owned()));
        }
        let count = self.properties.len();
        cursor.write_i32(count as i32);
        let ghost dcount = cursor.data@;
        match write_elements(cursor, &self.properties, self.property_type.as_str()) {
            Ok(()) => (),
            Err(err) => {
                return Err(err);
            },
        };
        let end_write = cursor.position();
        let ghost dpre = cursor.data@;
        proof {
            assert(dpre =~= (d0 + ser_string("SetProperty"@)) + spec_u64_to_le_bytes(0u64) + (
            ser_string(self.property_type@) + seq![0u8] + spec_u32_to_le_bytes(self.removed_count)
                + spec_i32_to_le_bytes(count as i32) + ser_props(tl, false)));
        }
        cursor.patch_u64(off, (end_write - begin_write) as u64);
        proof {
            lemma_patch_at(
                d0 + ser_string("SetProperty"@),
                ser_string(self.property_type@) + seq![0u8] + spec_u32_to_le_bytes(
                    self.removed_count,
                ) + spec_i32_to_le_bytes(count as i32) + ser_props(tl, false),
                (end_write - begin_write) as u64,
                dpre,
                cursor.data@,
            );
            assert(cursor.data@ =~= d0 + ser_property(pv, true));
        }
        Ok(())
    }
}

impl PropertyTrait for SetProperty {
    fn write(&self, cursor: &mut Cursor, include_header: bool) -> Result<(), Error> {
        SetProperty::write(self, cursor, include_header)
    }
}

impl MapProperty {
    /// Encodes this map with the same length-prefix-then-patch discipline:
    /// key type, value type, padding, the allocation flags and pair count,
    /// then each key body and value body in order.
    #[verifier::loop_isolation(false)]
    #[verifier::rlimit(100)]
    #[verifier::spinoff_prover]
    pub fn write(&self, cursor: &mut Cursor, include_header: bool) -> (r: Result<(), Error>)
        ensures
            prop_serializable(map_pview(*self), include_header) ==> r is Ok,
            !prop_serializable(map_pview(*self), include_header) ==> r is Err,
            r is Ok ==> final(cursor).data@ == old(cursor).data@ + ser_property(
                map_pview(*self),
                include_header,
            ) && final(cursor).pos == final(cursor).data@.len(),
            r is Err ==> (r matches Err(Error::InvalidValue(_))),
        decreases *self,
    {
        proof {
            lemma_tags_serializable();
            lemma_auto_spec_u32_to_from_le_bytes();
            lemma_auto_spec_u64_to_from_le_bytes();
        }
        let ghost pv = map_pview(*self);
        let ghost tl = pview_pairs(self.entries@);
        proof {
            lemma_pview_pairs_index(self.entries@);
            lemma_pairs_serializable_iff(tl, self.key_type@, self.value_type@);
        }
        if !include_header {
            return Err(Error::InvalidValue("a nested map needs a header".to_owned()));
        }
        let ghost d0 = cursor.data@;
        write_tag(cursor, "MapProperty");
        let off = cursor.position();
        cursor.write_u64(0);
        match cursor.write_string(self.key_type.as_str()) {
            Ok(()) => (),
            Err(e) => {
                return Err(e);
            },
        };
        match cursor.write_string(self.value_type.as_str()) {
            Ok(()) => (),
            Err(e) => {
                return Err(e);
            },
        };
        cursor.write_u8(0);
        let begin_write = cursor.position();
        cursor.write_u32(self.allocation_flags);
        if self.entries.len() > 0x7fff_ffff {
            return Err(Error::InvalidValue("entry count does not fit its field".to_owned()));
        }
        let count = self.entries.len();
        cursor.write_i32(count as i32);
        let ghost dcount = cursor.data@;
        let n = count;
        let mut i: usize = 0;
        proof {
            assert(tl.subrange(0, 0) =~= Seq::<(PropertyV, PropertyV)>::empty());
            assert(cursor.data@ =~= dcount + ser_pairs(tl.subrange(0, 0)));
        }
        while i < n
            invariant
                i <= n,
                n == self.entries@.len(),
                cursor.data@ == dcount + ser_pairs(tl.subrange(0, i as int)),
                cursor.pos == cursor.data@.len(),
                forall|k: int|
                    0 <= k < i ==> tag_of((#[trigger] tl[k]).0) == self.key_type@
                        && prop_serializable(tl[k].0, false) && tag_of(tl[k].1)
                        == self.value_type@ && prop_serializable(tl[k].1, false),
            decreases n - i,
        {
            let e = &self.entries[i];
            proof {
                assert(tl[i as int] == (pview(e.key), pview(e.value)));
            }
            if !strings_equal(tag_str(&e.key), self.key_type.as_str()) {
                proof {
                    assert(tag_of(tl[i as int].0) != self.key_type@);
                    assert(!pairs_serializable(tl, self.key_type@, self.value_type@));
                }
                return Err(
                    Error::InvalidValue("map key does not match the declared key type".to_owned()),
                );
            }
            if !strings_equal(tag_str(&e.value), self.value_type.as_str()) {
                proof {
                    assert(tag_of(tl[i as int].1) != self.value_type@);
                    assert(!pairs_serializable(tl, self.key_type@, self.value_type@));
                }
                return Err(
                    Error::InvalidValue(
                        "map value does not match the declared value type".to_owned(),
                    ),
                );
            }
            match e.key.write(cursor, false) {
                Ok(()) => (),
                Err(err) => {
                    proof {
                        assert(!prop_serializable(tl[i as int].0, false));
                        assert(!pairs_serializable(tl, self.key_type@, self.value_type@));
                    }
                    return Err(err);
                },
            };
            match e.value.write(cursor, false) {
                Ok(()) => (),
                Err(err) => {
                    proof {
                        assert(!prop_serializable(tl[i as int].1, false));
                        assert(!pairs_serializable(tl, self.key_type@, self.value_type@));
                    }
                    return Err(err);
                },
            };
            i = i + 1;
            proof {
                lemma_ser_pairs_snoc(tl.subrange(0, i - 1), tl[i - 1]);
                assert(tl.subrange(0, i as int) =~= tl.subrange(0, i - 1).push(tl[i - 1]));
                assert(cursor.data@ =~= dcount + ser_pairs(tl.subrange(0, i as int)));
            }
        }
        proof {
            assert(tl.subrange(0, n as int) =~= tl);
        }
        let end_write = cursor.position();
        let ghost dpre = cursor.data@;
        proof {
            assert(dpre =~= (d0 + ser_string("MapProperty"@)) + spec_u64_to_le_bytes(0u64) + (
            ser_string(self.key_type@) + ser_string(self.value_type@) + seq![0u8]
                + spec_u32_to_le_bytes(self.allocation_flags) + spec_i32_to_le_bytes(count as i32)
                + ser_pairs(tl)));
        }
        cursor.patch_u64(off, (end_write - begin_write) as u64);
        proof {
            lemma_patch_at(
                d0 + ser_string("MapProperty"@),
                ser_string(self.key_type@) + ser_string(self.value_type@) + seq![0u8]
                    + spec_u32_to_le_bytes(self.allocation_flags) + spec_i32_to_le_bytes(
                    count as i32,
                ) + ser_pairs(tl),
                (end_write - begin_write) as u64,
                dpre,
                cursor.data@,
            );
            assert(cursor.data@ =~= d0 + ser_property(pv, true));
        }
        Ok(())
    }
}

impl PropertyTrait for MapProperty {
    fn write(&self, cursor: &mut Cursor, include_header: bool) -> Result<(), Error> {
        MapProperty::write(self, cursor, include_header)
    }
}

impl Property {
    /// Decodes one property value from the cursor, dispatching on its type
    /// tag. The tag is pushed onto the path stack for the duration of the
    /// decode — success or failure — so that errors deep inside nested
    /// values report the full dotted path.
    ///
    /// A struct tag with no self-describing header takes its type name from
    /// the hint map, keyed by the dotted path; a missing hint stops the
    /// decode with exactly that path and the current offset. An
    /// unrecognized tag is captured opaquely, using the header's length or
    /// the container's suggested length; with neither, the byte span is
    /// unknowable and decoding stops.
    pub fn new(
        cursor: &mut Cursor,
        hints: &crate::hints::HintMap,
        properties_stack: &mut Vec<String>,
        value_type: &str,
        include_header: bool,
        suggested_length: Option<u64>,
    ) -> (r: Result<Property, Error>)
        ensures
            final(cursor).data@ == old(cursor).data@,
            final(properties_stack)@ == old(properties_stack)@,
            old(cursor).pos <= final(cursor).pos,
            r is Ok ==> final(cursor).pos <= final(cursor).data@.len(),
            r is Ok ==> tag_of(r->Ok_0@) == value_type@,
            r is Ok && is_scalar_tag(value_type@) ==> ({
                let b = old(cursor).data@;
                let q = old(cursor).pos + (if include_header {
                    9int
                } else {
                    0int
                });
                &&& r->Ok_0@ == scalar_parse(value_type@, b, q)
                &&& final(cursor).pos == q + scalar_size(value_type@)
            }),
            r is Ok && value_type@ == "StrProperty"@ ==> ({
                let b = old(cursor).data@;
                let q = old(cursor).pos + (if include_header {
                    9int
                } else {
                    0int
                });
                &&& str_parse_ok(b, q)
                &&& r->Ok_0@ == PropertyV::StrProperty { value: str_parse_val(b, q) }
                &&& final(cursor).pos == q + str_parse_len(b, q)
            }),
            r is Ok && value_type@ == "EnumProperty"@ ==> ({
                let b = old(cursor).data@;
                let q = old(cursor).pos + (if include_header {
                    9int
                } else {
                    0int
                });
                let q2 = q + str_parse_len(b, q);
                &&& str_parse_ok(b, q)
                &&& str_parse_ok(b, q2)
                &&& r->Ok_0@ == PropertyV::EnumProperty {
                    enum_type: str_parse_val(b, q),
                    value: str_parse_val(b, q2),
                }
                &&& final(cursor).pos == q2 + str_parse_len(b, q2)
            }),
            r is Ok && !recognized_tag(value_type@) && include_header ==> ({
                let b = old(cursor).data@;
                let p = old(cursor).pos as int;
                let n = spec_u64_from_le_bytes(b.subrange(p, p + 8)) as int;
                &&& r->Ok_0@ == PropertyV::UnknownProperty {
                    property_type: value_type@,
                    value: b.subrange(p + 9, p + 9 + n),
                }
                &&& final(cursor).pos == p + 9 + n
            }),
            r is Ok && !recognized_tag(value_type@) && !include_header && suggested_length is Some
                ==> ({
                let b = old(cursor).data@;
                let p = old(cursor).pos as int;
                let n = suggested_length->0 as int;
                &&& r->Ok_0@ == PropertyV::UnknownProperty {
                    property_type: value_type@,
                    value: b.subrange(p, p + n),
                }
                &&& final(cursor).pos == p + n
            }),
            !recognized_tag(value_type@) && !include_header && suggested_length is None ==> (
            r matches Err(Error::MissingLength(t, po)) && t@ == value_type@ && po == old(
                cursor,
            ).pos && *final(cursor) == *old(cursor)),
            value_type@ == "StructProperty"@ && !include_header && crate::hints::spec_lookup(
                hints.entries@,
                crate::hints::spec_join_path(
                    old(properties_stack).deep_view().push("StructProperty"@),
                ),
            ) is None ==> (r matches Err(Error::MissingHint(t, pa, po)) && t@ == value_type@
                && pa@ == crate::hints::spec_join_path(
                old(properties_stack).deep_view().push("StructProperty"@),
            ) && po == old(cursor).pos && *final(cursor) == *old(cursor)),
            ({
                let pp = prop_parse(
                    old(cursor).data@,
                    hints.entries@,
                    old(properties_stack).deep_view().push(value_type@),
                    old(cursor).pos as int,
                    value_type@,
                    include_header,
                    suggested_length,
                );
                &&& (r is Ok <==> pp is Some)
                &&& (r is Ok ==> r->Ok_0@ == (pp->0).0 && final(cursor).pos == (pp->0).1)
            }),
        decreases old(cursor).data@.len() - old(cursor).pos, 4int,
    {
        properties_stack.push(String::from_str(value_type));
        proof {
            assert(properties_stack.deep_view() =~= old(properties_stack).deep_view().push(
                value_type@,
            ));
        }
        let r = Self::read_value(
            cursor,
            hints,
            properties_stack,
            value_type,
            include_header,
            suggested_length,
        );
        let popped = properties_stack.pop();
        proof {
            assert(properties_stack@ =~= old(properties_stack)@);
        }
        r
    }

    /// Decodes one property value, the type tag already on the path stack.
    #[verifier::rlimit(100)]
    #[verifier::spinoff_prover]
    fn read_value(
        cursor: &mut Cursor,
        hints: &crate::hints::HintMap,
        properties_stack: &mut Vec<String>,
        value_type: &str,
        include_header: bool,
        suggested_length: Option<u64>,
    ) -> (r: Result<Property, Error>)
        ensures
            final(cursor).data@ == old(cursor).data@,
            final(properties_stack)@ == old(properties_stack)@,
            old(cursor).pos <= final(cursor).pos,
            r is Ok ==> final(cursor).pos <= final(cursor).data@.len(),
            r is Ok ==> tag_of(r->Ok_0@) == value_type@,
            r is Ok && is_scalar_tag(value_type@) ==> ({
                let b = old(cursor).data@;
                let q = old(cursor).pos + (if include_header {
                    9int
                } else {
                    0int
                });
                &&& r->Ok_0@ == scalar_parse(value_type@, b, q)
                &&& final(cursor).pos == q + scalar_size(value_type@)
            }),
            r is Ok && value_type@ == "StrProperty"@ ==> ({
                let b = old(cursor).data@;
                let q = old(cursor).pos + (if include_header {
                    9int
                } else {
                    0int
                });
                &&& str_parse_ok(b, q)
                &&& r->Ok_0@ == PropertyV::StrProperty { value: str_parse_val(b, q) }
                &&& final(cursor).pos == q + str_parse_len(b, q)
            }),
            r is Ok && value_type@ == "EnumProperty"@ ==> ({
                let b = old(cursor).data@;
                let q = old(cursor).pos + (if include_header {
                    9int
                } else {
                    0int
                });
                let q2 = q + str_parse_len(b, q);
                &&& str_parse_ok(b, q)
                &&& str_parse_ok(b, q2)
                &&& r->Ok_0@ == PropertyV::EnumProperty {
                    enum_type: str_parse_val(b, q),
                    value: str_parse_val(b, q2),
                }
                &&& final(cursor).pos == q2 + str_parse_len(b, q2)
            }),
            r is Ok && !recognized_tag(value_type@) && include_header ==> ({
                let b = old(cursor).data@;
                let p = old(cursor).pos as int;
                let n = spec_u64_from_le_bytes(b.subrange(p, p + 8)) as int;
                &&& r->Ok_0@ == PropertyV::UnknownProperty {
                    property_type: value_type@,
                    value: b.subrange(p + 9, p + 9 + n),
                }
                &&& final(cursor).pos == p + 9 + n
            }),
            r is Ok && !recognized_tag(value_type@) && !include_header && suggested_length is Some
                ==> ({
                let b = old(cursor).data@;
                let p = old(cursor).pos as int;
                let n = suggested_length->0 as int;
                &&& r->Ok_0@ == PropertyV::UnknownProperty {
                    property_type: value_type@,
                    value: b.subrange(p, p + n),
                }
                &&& final(cursor).pos == p + n
            }),
            !recognized_tag(value_type@) && !include_header && suggested_length is None ==> (
            r matches Err(Error::MissingLength(t, po)) && t@ == value_type@ && po == old(
                cursor,
            ).pos && *final(cursor) == *old(cursor)),
            value_type@ == "StructProperty"@ && !include_header && crate::hints::spec_lookup(
                hints.entries@,
                crate::hints::spec_join_path(old(properties_stack).deep_view()),
            ) is None ==> (r matches Err(Error::MissingHint(t, pa, po)) && t@ == value_type@
                && pa@ == crate::hints::spec_join_path(old(properties_stack).deep_view()) && po
                == old(cursor).pos && *final(cursor) == *old(cursor)),
            ({
                let pp = prop_parse(
                    old(cursor).data@,
                    hints.entries@,
                    old(properties_stack).deep_view(),
                    old(cursor).pos as int,
                    value_type@,
                    include_header,
                    suggested_length,
                );
                &&& (r is Ok <==> pp is Some)
                &&& (r is Ok ==> r->Ok_0@ == (pp->0).0 && final(cursor).pos == (pp->0).1)
            }),
        decreases old(cursor).data@.len() - old(cursor).pos, 3int,
    {
        proof {
            lemma_tags_distinct();
        }
        let ghost b = old(cursor).data@;
        let ghost p = old(cursor).pos as int;
        if strings_equal(value_type, "Int8Property") {
            match read_prop_header(cursor, include_header) {
                Ok(()) => (),
                Err(e) => {
                    return Err(e);
                },
            };
            match cursor.read_i8() {
                Ok(v) => Ok(Property::Int8Property(v)),
                Err(e) => Err(e),
            }
        } else if strings_equal(value_type, "ByteProperty") {
            match read_prop_header(cursor, include_header) {
                Ok(()) => (),
                Err(e) => {
                    return Err(e);
                },
            };
            match cursor.read_u8() {
                Ok(v) => Ok(Property::ByteProperty(v)),
                Err(e) => Err(e),
            }
        } else if strings_equal(value_type, "Int16Property") {
            match read_prop_header(cursor, include_header) {
                Ok(()) => (),
                Err(e) => {
                    return Err(e);
                },
            };
            match cursor.read_i16() {
                Ok(v) => Ok(Property::Int16Property(v)),
                Err(e) => Err(e),
            }
        } else if strings_equal(value_type, "UInt16Property") {
            match read_prop_header(cursor, include_header) {
                Ok(()) => (),
                Err(e) => {
                    return Err(e);
                },
            };
            match cursor.read_u16() {
                Ok(v) => Ok(Property::UInt16Property(v)),
                Err(e) => Err(e),
            }
        } else if strings_equal(value_type, "IntProperty") {
            match read_prop_header(cursor, include_header) {
                Ok(()) => (),
                Err(e) => {
                    return Err(e);
                },
            };
            match cursor.read_i32() {
                Ok(v) => Ok(Property::IntProperty(v)),
                Err(e) => Err(e),
            }
        } else if strings_equal(value_type, "UInt32Property") {
            match read_prop_header(cursor, include_header) {
                Ok(()) => (),
                Err(e) => {
                    return Err(e);
                },
            };
            match cursor.read_u32() {
                Ok(v) => Ok(Property::UInt32Property(v)),
                Err(e) => Err(e),
            }
        } else if strings_equal(value_type, "Int64Property") {
            match read_prop_header(cursor, include_header) {
                Ok(()) => (),
                Err(e) => {
                    return Err(e);
                },
            };
            match cursor.read_i64() {
                Ok(v) => Ok(Property::Int64Property(v)),
                Err(e) => Err(e),
            }
        } else if strings_equal(value_type, "UInt64Property") {
            match read_prop_header(cursor, include_header) {
                Ok(()) => (),
                Err(e) => {
                    return Err(e);
                },
            };
            match cursor.read_u64() {
                Ok(v) => Ok(Property::UInt64Property(v)),
                Err(e) => Err(e),
            }
        } else if strings_equal(value_type, "FloatProperty") {
            match read_prop_header(cursor, include_header) {
                Ok(()) => (),
                Err(e) => {
                    return Err(e);
                },
            };
            match cursor.read_u32() {
                Ok(v) => Ok(Property::FloatProperty(v)),
                Err(e) => Err(e),
            }
        } else if strings_equal(value_type, "DoubleProperty") {
            match read_prop_header(cursor, include_header) {
                Ok(()) => (),
                Err(e) => {
                    return Err(e);
                },
            };
            match cursor.read_u64() {
                Ok(v) => Ok(Property::DoubleProperty(v)),
                Err(e) => Err(e),
            }
        } else if strings_equal(value_type, "BoolProperty") {
            match read_prop_header(cursor, include_header) {
                Ok(()) => (),
                Err(e) => {
                    return Err(e);
                },
            };
            match cursor.read_u8() {
                Ok(v) => Ok(Property::BoolProperty(v != 0)),
                Err(e) => Err(e),
            }
        } else if strings_equal(value_type, "StrProperty") {
            match read_prop_header(cursor, include_header) {
                Ok(()) => (),
                Err(e) => {
                    return Err(e);
                },
            };
            match cursor.read_string() {
                Ok(v) => Ok(Property::StrProperty(StrProperty { value: v })),
                Err(e) => Err(e),
            }
        } else if strings_equal(value_type, "EnumProperty") {
            match read_prop_header(cursor, include_header) {
                Ok(()) => (),
                Err(e) => {
                    return Err(e);
                },
            };
            let enum_type = match cursor.read_string() {
                Ok(v) => v,
                Err(e) => {
                    return Err(e);
                },
            };
            match cursor.read_string() {
                Ok(v) => Ok(Property::EnumProperty(EnumProperty { enum_type, value: v })),
                Err(e) => Err(e),
            }
        } else if strings_equal(value_type, "StructProperty") {
            if !include_header {
                let struct_path = crate::hints::join_path(properties_stack);
                let hint = match hints.get(struct_path.as_str()) {
                    Some(h) => h.clone(),
                    None => {
                        return Err(
                            Error::MissingHint(
                                String::from_str(value_type),
                                struct_path,
                                cursor.position(),
                            ),
                        );
                    },
                };
                match StructProperty::read_with_type_name(
                    cursor,
                    hints,
                    properties_stack,
                    hint.as_str(),
                ) {
                    Ok(v) => Ok(Property::StructProperty(v)),
                    Err(e) => Err(e),
                }
            } else {
                match StructProperty::read_with_header(cursor, hints, properties_stack) {
                    Ok(v) => Ok(Property::StructProperty(v)),
                    Err(e) => Err(e),
                }
            }
        } else if strings_equal(value_type, "ArrayProperty") {
            match ArrayProperty::read(cursor, hints, properties_stack) {
                Ok(v) => Ok(Property::ArrayProperty(v)),
                Err(e) => Err(e),
            }
        } else if strings_equal(value_type, "SetProperty") {
            match SetProperty::read(cursor, hints, properties_stack) {
                Ok(v) => Ok(Property::SetProperty(v)),
                Err(e) => Err(e),
            }
        } else if strings_equal(value_type, "MapProperty") {
            match MapProperty::read(cursor, hints, properties_stack) {
                Ok(v) => Ok(Property::MapProperty(v)),
                Err(e) => Err(e),
            }
        } else {
            if include_header {
                match UnknownProperty::read_with_header(cursor, String::from_str(value_type)) {
                    Ok(v) => Ok(Property::UnknownProperty(v)),
                    Err(e) => Err(e),
                }
            } else {
                match suggested_length {
                    Some(length) => {
                        match UnknownProperty::read_with_length(
                            cursor,
                            String::from_str(value_type),
                            length,
                        ) {
                            Ok(v) => Ok(Property::UnknownProperty(v)),
                            Err(e) => Err(e),
                        }
                    },
                    None => Err(
                        Error::MissingLength(String::from_str(value_type), cursor.position()),
                    ),
                }
            }
        }
    }
}

/// LAW (scalar round trip): decoding a scalar's serialized body yields the
/// value back and consumes exactly its bytes; together with the decoder's
/// exact contracts this makes decode a left inverse of encode on every
/// fixed-size kind.
pub proof fn lemma_scalar_parse_ser(pv: PropertyV, b: Seq<u8>, q: int)
    requires
        is_scalar_tag(tag_of(pv)),
        !(pv is UnknownProperty),
        crate::bytes_at(b, q, ser_property(pv, false)),
    ensures
        scalar_parse(tag_of(pv), b, q) == pv,
        scalar_size(tag_of(pv)) == ser_property(pv, false).len(),
{
    lemma_tags_distinct();
    lemma_auto_spec_u16_to_from_le_bytes();
    lemma_auto_spec_u32_to_from_le_bytes();
    lemma_auto_spec_u64_to_from_le_bytes();
    let body = ser_property(pv, false);
    assert(b.subrange(q, q + body.len()) == body);
    match pv {
        PropertyV::Int8Property(v) => {
            assert(b[q] == body[0]);
        },
        PropertyV::ByteProperty(v) => {
            assert(b[q] == body[0]);
        },
        PropertyV::BoolProperty(v) => {
            assert(b[q] == body[0]);
        },
        PropertyV::Int16Property(v) => {
            assert(b.subrange(q, q + 2) =~= spec_u16_to_le_bytes(u16_repr_of_i16(v)));
        },
        PropertyV::UInt16Property(v) => {
            assert(b.subrange(q, q + 2) =~= spec_u16_to_le_bytes(v));
        },
        PropertyV::IntProperty(v) => {
            assert(b.subrange(q, q + 4) =~= spec_i32_to_le_bytes(v));
            crate::cursor_ext::lemma_i32_repr_roundtrip(v);
        },
        PropertyV::UInt32Property(v) => {
            assert(b.subrange(q, q + 4) =~= spec_u32_to_le_bytes(v));
        },
        PropertyV::FloatProperty(v) => {
            assert(b.subrange(q, q + 4) =~= spec_u32_to_le_bytes(v));
        },
        PropertyV::Int64Property(v) => {
            assert(b.subrange(q, q + 8) =~= spec_i64_to_le_bytes(v));
        },
        PropertyV::UInt64Property(v) => {
            assert(b.subrange(q, q + 8) =~= spec_u64_to_le_bytes(v));
        },
        PropertyV::DoubleProperty(v) => {
            assert(b.subrange(q, q + 8) =~= spec_u64_to_le_bytes(v));
        },
        _ => {
            assert(false);
        },
    }
}

/// LAW (opaque round trip): decoding a headered opaque property's
/// serialized form (the byte length, padding byte and raw bytes that
/// follow its tag) yields exactly the raw bytes back, which is how files
/// with unrecognized kinds survive a decode and re-encode byte for byte.
pub proof fn lemma_unknown_parse_ser(value: Seq<u8>, b: Seq<u8>, p: int)
    requires
        value.len() <= 0xffff_ffff_ffff_ffff,
        crate::bytes_at(
            b,
            p,
            spec_u64_to_le_bytes(value.len() as u64) + seq![0u8] + value,
        ),
    ensures
        spec_u64_from_le_bytes(b.subrange(p, p + 8)) == value.len(),
        b.subrange(p + 9, p + 9 + value.len()) == value,
{
    lemma_auto_spec_u64_to_from_le_bytes();
    assert(spec_u64_to_le_bytes(value.len() as u64) + seq![0u8] + value =~= spec_u64_to_le_bytes(
        value.len() as u64,
    ) + (seq![0u8] + value));
    crate::lemma_bytes_at_split(
        b,
        p,
        spec_u64_to_le_bytes(value.len() as u64),
        seq![0u8] + value,
    );
    crate::lemma_bytes_at_split(b, p + 8, seq![0u8], value);
    assert(b.subrange(p, p + 8) == spec_u64_to_le_bytes(value.len() as u64));
    assert(b.subrange(p + 9, p + 9 + value.len()) =~= value);
}

/// Whether a tag names one of the fixed-size scalar kinds.
pub open spec fn is_scalar_tag(t: Seq<char>) -> bool {
    ||| t == "Int8Property"@
    ||| t == "ByteProperty"@
    ||| t == "Int16Property"@
    ||| t == "UInt16Property"@
    ||| t == "IntProperty"@
    ||| t == "UInt32Property"@
    ||| t == "Int64Property"@
    ||| t == "UInt64Property"@
    ||| t == "FloatProperty"@
    ||| t == "DoubleProperty"@
    ||| t == "BoolProperty"@
}

/// How many bytes a scalar kind's body occupies.
pub open spec fn scalar_size(t: Seq<char>) -> int {
    if t == "Int8Property"@ || t == "ByteProperty"@ || t == "BoolProperty"@ {
        1
    } else if t == "Int16Property"@ || t == "UInt16Property"@ {
        2
    } else if t == "IntProperty"@ || t == "UInt32Property"@ || t == "FloatProperty"@ {
        4
    } else {
        8
    }
}

/// The scalar value decoded from a body at position `q`.
pub open spec fn scalar_parse(t: Seq<char>, b: Seq<u8>, q: int) -> PropertyV {
    if t == "Int8Property"@ {
        PropertyV::Int8Property(crate::cursor_ext::i8_of_u8_repr(b[q]))
    } else if t == "ByteProperty"@ {
        PropertyV::ByteProperty(b[q])
    } else if t == "BoolProperty"@ {
        PropertyV::BoolProperty(b[q] != 0)
    } else if t == "Int16Property"@ {
        PropertyV::Int16Property(
            crate::cursor_ext::i16_of_u16_repr(spec_u16_from_le_bytes(b.subrange(q, q + 2))),
        )
    } else if t == "UInt16Property"@ {
        PropertyV::UInt16Property(spec_u16_from_le_bytes(b.subrange(q, q + 2)))
    } else if t == "IntProperty"@ {
        PropertyV::IntProperty(
            crate::cursor_ext::i32_of_u32_repr(spec_u32_from_le_bytes(b.subrange(q, q + 4))),
        )
    } else if t == "UInt32Property"@ {
        PropertyV::UInt32Property(spec_u32_from_le_bytes(b.subrange(q, q + 4)))
    } else if t == "FloatProperty"@ {
        PropertyV::FloatProperty(spec_u32_from_le_bytes(b.subrange(q, q + 4)))
    } else if t == "Int64Property"@ {
        PropertyV::Int64Property(
            crate::cursor_ext::i64_of_u64_repr(spec_u64_from_le_bytes(b.subrange(q, q + 8))),
        )
    } else if t == "UInt64Property"@ {
        PropertyV::UInt64Property(spec_u64_from_le_bytes(b.subrange(q, q + 8)))
    } else {
        PropertyV::DoubleProperty(spec_u64_from_le_bytes(b.subrange(q, q + 8)))
    }
}

/// Reads the length and padding fields of a self-describing per-property
/// header, whose values the decoder does not act on.
fn read_prop_header(cursor: &mut Cursor, include_header: bool) -> (r: Result<(), Error>)
    ensures
        final(cursor).data@ == old(cursor).data@,
        r is Ok ==> final(cursor).pos == old(cursor).pos + (if include_header {
            9int
        } else {
            0int
        }),
        r is Ok && include_header ==> final(cursor).pos <= final(cursor).data@.len(),
        old(cursor).pos <= final(cursor).pos,
        !include_header ==> r is Ok && *final(cursor) == *old(cursor),
        r is Ok <==> !include_header || old(cursor).pos + 9 <= old(cursor).data@.len(),
{
    if include_header {
        match cursor.read_u64() {
            Ok(_) => (),
            Err(e) => {
                return Err(e);
            },
        };
        match cursor.read_u8() {
            Ok(_) => (),
            Err(e) => {
                return Err(e);
            },
        };
    }
    Ok(())
}

impl UnknownProperty {
    /// Decodes an opaque property whose byte length comes from its own
    /// header: the raw bytes are captured exactly, so re-encoding
    /// reproduces them.
    pub fn read_with_header(cursor: &mut Cursor, property_type: String) -> (r: Result<
        UnknownProperty,
        Error,
    >)
        ensures
            final(cursor).data@ == old(cursor).data@,
            old(cursor).pos <= final(cursor).pos,
            ({
                let b = old(cursor).data@;
                let p = old(cursor).pos as int;
                let n = spec_u64_from_le_bytes(b.subrange(p, p + 8)) as int;
                &&& (r is Ok <==> p + 9 <= b.len() && p + 9 + n <= b.len())
                &&& r is Ok ==> r->Ok_0.property_type@ == property_type@
                    && r->Ok_0.value@ == b.subrange(p + 9, p + 9 + n) && final(cursor).pos == p + 9
                    + n
            }),
    {
        let n = match cursor.read_u64() {
            Ok(x) => x,
            Err(e) => {
                return Err(e);
            },
        };
        match cursor.read_u8() {
            Ok(_) => (),
            Err(e) => {
                return Err(e);
            },
        };
        let total = cursor.data.len();
        if n > total as u64 {
            return Err(Error::Eof(cursor.position()));
        }
        let value = match cursor.read_bytes(n as usize) {
            Ok(v) => v,
            Err(e) => {
                return Err(e);
            },
        };
        Ok(UnknownProperty { property_type, value })
    }

    /// Decodes an opaque property whose byte length the enclosing container
    /// suggested, there being no self-describing header to carry one.
    pub fn read_with_length(cursor: &mut Cursor, property_type: String, length: u64) -> (r: Result<
        UnknownProperty,
        Error,
    >)
        ensures
            final(cursor).data@ == old(cursor).data@,
            old(cursor).pos <= final(cursor).pos,
            ({
                let b = old(cursor).data@;
                let p = old(cursor).pos as int;
                &&& (r is Ok <==> p + length <= b.len())
                &&& r is Ok ==> r->Ok_0.property_type@ == property_type@
                    && r->Ok_0.value@ == b.subrange(p, p + length) && final(cursor).pos == p
                    + length
            }),
    {
        let total = cursor.data.len();
        if length > total as u64 {
            return Err(Error::Eof(cursor.position()));
        }
        let value = match cursor.read_bytes(length as usize) {
            Ok(v) => v,
            Err(e) => {
                return Err(e);
            },
        };
        Ok(UnknownProperty { property_type, value })
    }
}

impl StructProperty {
    /// Decodes a struct whose header (byte length, type name, identifier,
    /// padding) is present at the cursor, then its body.
    pub fn read_with_header(
        cursor: &mut Cursor,
        hints: &crate::hints::HintMap,
        properties_stack: &mut Vec<String>,
    ) -> (r: Result<StructProperty, Error>)
        ensures
            final(cursor).data@ == old(cursor).data@,
            final(properties_stack)@ == old(properties_stack)@,
            old(cursor).pos <= final(cursor).pos,
            r is Ok ==> final(cursor).pos <= final(cursor).data@.len(),
            ({
                let pp = struct_hdr_parse(
                    old(cursor).data@,
                    hints.entries@,
                    old(properties_stack).deep_view(),
                    old(cursor).pos as int,
                );
                &&& (r is Ok <==> pp is Some)
                &&& (r is Ok ==> struct_pview(r->Ok_0) == (pp->0).0 && final(cursor).pos == (
                pp->0).1)
            }),
        decreases old(cursor).data@.len() - old(cursor).pos, 2int,
    {
        let ghost b = old(cursor).data@;
        let ghost p = old(cursor).pos as int;
        let ghost h = hints.entries@;
        let ghost stkv = old(properties_stack).deep_view();
        match cursor.read_u64() {
            Ok(_) => (),
            Err(e) => {
                return Err(e);
            },
        };
        let struct_type = match cursor.read_string() {
            Ok(s) => s,
            Err(e) => {
                return Err(e);
            },
        };
        let ghost q1 = p + 8 + str_parse_len(b, p + 8);
        let lo = match cursor.read_u64() {
            Ok(x) => x,
            Err(e) => {
                return Err(e);
            },
        };
        let hi = match cursor.read_u64() {
            Ok(x) => x,
            Err(e) => {
                return Err(e);
            },
        };
        match cursor.read_u8() {
            Ok(_) => (),
            Err(e) => {
                return Err(e);
            },
        };
        proof {
            assert(b.subrange(q1, q1 + 8) =~= b.subrange(q1, q1 + 8));
            assert(b.subrange(q1 + 8, q1 + 16) =~= b.subrange(q1 + 8, q1 + 8 + 8));
        }
        let r = Self::read_body(cursor, hints, properties_stack, struct_type, Guid(lo, hi));
        proof {
            if r is Ok {
                assert(struct_hdr_parse(b, h, stkv, p) is Some);
            }
        }
        r
    }

    /// Decodes a struct body whose type name came from out of band: the
    /// hint map, or an array's shared identity block. Such a value carries
    /// no identifier of its own, so it gets the zero identifier.
    pub fn read_with_type_name(
        cursor: &mut Cursor,
        hints: &crate::hints::HintMap,
        properties_stack: &mut Vec<String>,
        struct_name: &str,
    ) -> (r: Result<StructProperty, Error>)
        ensures
            final(cursor).data@ == old(cursor).data@,
            final(properties_stack)@ == old(properties_stack)@,
            old(cursor).pos <= final(cursor).pos,
            r is Ok ==> final(cursor).pos <= final(cursor).data@.len(),
            ({
                let pp = struct_body_parse(
                    old(cursor).data@,
                    hints.entries@,
                    old(properties_stack).deep_view(),
                    old(cursor).pos as int,
                    struct_name@,
                );
                &&& (r is Ok <==> pp is Some)
                &&& (r is Ok ==> struct_pview(r->Ok_0) == (PropertyV::StructProperty {
                    struct_type: struct_name@,
                    guid: Guid(0, 0),
                    value: (pp->0).0,
                }) && final(cursor).pos == (pp->0).1)
            }),
        decreases old(cursor).data@.len() - old(cursor).pos, 2int,
    {
        Self::read_body(cursor, hints, properties_stack, String::from_str(struct_name), Guid(0, 0))
    }

    /// Decodes a struct body: a recognized type name selects its fixed
    /// layout, anything else is the nested property loop ended by the
    /// sentinel name.
    #[verifier::loop_isolation(false)]
    #[verifier::rlimit(100)]
    #[verifier::spinoff_prover]
    fn read_body(
        cursor: &mut Cursor,
        hints: &crate::hints::HintMap,
        properties_stack: &mut Vec<String>,
        struct_type: String,
        guid: Guid,
    ) -> (r: Result<StructProperty, Error>)
        ensures
            final(cursor).data@ == old(cursor).data@,
            final(properties_stack)@ == old(properties_stack)@,
            old(cursor).pos <= final(cursor).pos,
            r is Ok ==> final(cursor).pos <= final(cursor).data@.len(),
            ({
                let pp = struct_body_parse(
                    old(cursor).data@,
                    hints.entries@,
                    old(properties_stack).deep_view(),
                    old(cursor).pos as int,
                    struct_type@,
                );
                &&& (r is Ok <==> pp is Some)
                &&& (r is Ok ==> struct_pview(r->Ok_0) == (PropertyV::StructProperty {
                    struct_type: struct_type@,
                    guid,
                    value: (pp->0).0,
                }) && final(cursor).pos == (pp->0).1)
            }),
        decreases old(cursor).data@.len() - old(cursor).pos, 1int,
    {
        let ghost b = old(cursor).data@;
        let ghost p = old(cursor).pos as int;
        let ghost h = hints.entries@;
        let ghost stkv = old(properties_stack).deep_view();
        let value = if strings_equal(struct_type.as_str(), "Vector") {
            let x = match cursor.read_u32() {
                Ok(v) => v,
                Err(e) => {
                    return Err(e);
                },
            };
            let y = match cursor.read_u32() {
                Ok(v) => v,
                Err(e) => {
                    return Err(e);
                },
            };
            let z = match cursor.read_u32() {
                Ok(v) => v,
                Err(e) => {
                    return Err(e);
                },
            };
            proof {
                assert(b.subrange(p + 4, p + 8) =~= b.subrange(p + 4, p + 4 + 4));
                assert(b.subrange(p + 8, p + 12) =~= b.subrange(p + 8, p + 8 + 4));
            }
            StructValue::Vector(Vector { x, y, z })
        } else if strings_equal(struct_type.as_str(), "Rotator") {
            let pitch = match cursor.read_u32() {
                Ok(v) => v,
                Err(e) => {
                    return Err(e);
                },
            };
            let yaw = match cursor.read_u32() {
                Ok(v) => v,
                Err(e) => {
                    return Err(e);
                },
            };
            let roll = match cursor.read_u32() {
                Ok(v) => v,
                Err(e) => {
                    return Err(e);
                },
            };
            proof {
                assert(b.subrange(p + 4, p + 8) =~= b.subrange(p + 4, p + 4 + 4));
                assert(b.subrange(p + 8, p + 12) =~= b.subrange(p + 8, p + 8 + 4));
            }
            StructValue::Rotator(Rotator { pitch, yaw, roll })
        } else if strings_equal(struct_type.as_str(), "Quat") {
            let x = match cursor.read_u32() {
                Ok(v) => v,
                Err(e) => {
                    return Err(e);
                },
            };
            let y = match cursor.read_u32() {
                Ok(v) => v,
                Err(e) => {
                    return Err(e);
                },
            };
            let z = match cursor.read_u32() {
                Ok(v) => v,
                Err(e) => {
                    return Err(e);
                },
            };
            let w = match cursor.read_u32() {
                Ok(v) => v,
                Err(e) => {
                    return Err(e);
                },
            };
            proof {
                assert(b.subrange(p + 4, p + 8) =~= b.subrange(p + 4, p + 4 + 4));
                assert(b.subrange(p + 8, p + 12) =~= b.subrange(p + 8, p + 8 + 4));
                assert(b.subrange(p + 12, p + 16) =~= b.subrange(p + 12, p + 12 + 4));
            }
            StructValue::Quat(Quat { x, y, z, w })
        } else if strings_equal(struct_type.as_str(), "DateTime") {
            let ticks = match cursor.read_u64() {
                Ok(v) => v,
                Err(e) => {
                    return Err(e);
                },
            };
            StructValue::DateTime(DateTime { ticks })
        } else if strings_equal(struct_type.as_str(), "IntPoint") {
            let x = match cursor.read_i32() {
                Ok(v) => v,
                Err(e) => {
                    return Err(e);
                },
            };
            let y = match cursor.read_i32() {
                Ok(v) => v,
                Err(e) => {
                    return Err(e);
                },
            };
            proof {
                assert(b.subrange(p + 4, p + 8) =~= b.subrange(p + 4, p + 4 + 4));
            }
            StructValue::IntPoint(IntPoint { x, y })
        } else if strings_equal(struct_type.as_str(), "Guid") {
            let lo = match cursor.read_u64() {
                Ok(v) => v,
                Err(e) => {
                    return Err(e);
                },
            };
            let hi = match cursor.read_u64() {
                Ok(v) => v,
                Err(e) => {
                    return Err(e);
                },
            };
            proof {
                assert(b.subrange(p + 8, p + 16) =~= b.subrange(p + 8, p + 8 + 8));
            }
            StructValue::Guid(Guid(lo, hi))
        } else {
            let mut props = Properties::new();
            let ghost mut acc: Seq<(Seq<char>, PropertyV)> = Seq::empty();
            let ghost mut p_name: int = p;
            let mut name = match cursor.read_string() {
                Ok(s) => s,
                Err(e) => {
                    return Err(e);
                },
            };
            proof {
                assert(props.entries@ =~= Seq::<PropertyEntry>::empty());
                assert(pview_entries(props.entries@) =~= ventries_insert_all(Seq::empty(), acc));
            }
            while !strings_equal(name.as_str(), "None")
                invariant
                    cursor.data@ == old(cursor).data@,
                    properties_stack@ == old(properties_stack)@,
                    old(cursor).pos <= cursor.pos <= cursor.data@.len(),
                    str_parse_ok(b, p_name),
                    name@ == str_parse_val(b, p_name),
                    p <= p_name,
                    cursor.pos == p_name + str_parse_len(b, p_name),
                    pview_entries(props.entries@) == ventries_insert_all(Seq::empty(), acc),
                    (bag_parse(b, h, stkv, p) is Some <==> bag_parse(b, h, stkv, p_name)
                        is Some),
                    bag_parse(b, h, stkv, p) is Some ==> (bag_parse(b, h, stkv, p)->0).0 == acc
                        + (bag_parse(b, h, stkv, p_name)->0).0 && (bag_parse(b, h, stkv, p)->0).1
                        == (bag_parse(b, h, stkv, p_name)->0).1,
                decreases cursor.data@.len() - cursor.pos,
            {
                let ghost q1 = cursor.pos as int;
                let ptype = match cursor.read_string() {
                    Ok(s) => s,
                    Err(e) => {
                        proof {
                            assert(bag_parse(b, h, stkv, p_name) is None);
                        }
                        return Err(e);
                    },
                };
                let ghost q2 = cursor.pos as int;
                properties_stack.push(name.clone());
                proof {
                    assert(properties_stack.deep_view() =~= stkv.push(name@));
                }
                let value = Property::new(
                    cursor,
                    hints,
                    properties_stack,
                    ptype.as_str(),
                    true,
                    None,
                );
                let popped = properties_stack.pop();
                proof {
                    assert(properties_stack@ =~= old(properties_stack)@);
                    assert(stkv.push(name@).push(ptype@) =~= stkv.push(str_parse_val(b, p_name)).push(
                        str_parse_val(b, q1),
                    ));
                }
                match value {
                    Ok(v) => {
                        let ghost e_pos = cursor.pos as int;
                        let ghost step = prop_parse(
                            b,
                            h,
                            stkv.push(name@).push(ptype@),
                            q2,
                            ptype@,
                            true,
                            None,
                        );
                        proof {
                            assert(step is Some && (step->0).0 == pview(v) && (step->0).1
                                == e_pos);
                            assert(p_name < e_pos <= b.len());
                            assert(bag_parse(b, h, stkv, p_name) is Some <==> bag_parse(
                                b,
                                h,
                                stkv,
                                e_pos,
                            ) is Some);
                            if bag_parse(b, h, stkv, e_pos) is Some {
                                assert((bag_parse(b, h, stkv, p_name)->0).0 == seq![
                                    (name@, pview(v)),
                                ] + (bag_parse(b, h, stkv, e_pos)->0).0);
                                assert((bag_parse(b, h, stkv, p_name)->0).1 == (bag_parse(
                                    b,
                                    h,
                                    stkv,
                                    e_pos,
                                )->0).1);
                                if bag_parse(b, h, stkv, p) is Some {
                                    assert(acc + (seq![(name@, pview(v))] + (bag_parse(
                                        b,
                                        h,
                                        stkv,
                                        e_pos,
                                    )->0).0) =~= acc.push((name@, pview(v))) + (bag_parse(
                                        b,
                                        h,
                                        stkv,
                                        e_pos,
                                    )->0).0);
                                }
                            }
                        }
                        let ghost entries_before = props.entries@;
                        props.insert(name, v);
                        proof {
                            lemma_pview_ventries_insert(entries_before, name, v);
                            lemma_ventries_insert_all_snoc(
                                Seq::empty(),
                                acc,
                                (name@, pview(v)),
                            );
                            acc = acc.push((name@, pview(v)));
                        }
                        name = match cursor.read_string() {
                            Ok(s) => s,
                            Err(e) => {
                                proof {
                                    assert(bag_parse(b, h, stkv, e_pos) is None);
                                }
                                return Err(e);
                            },
                        };
                        proof {
                            p_name = e_pos;
                        }
                    },
                    Err(e) => {
                        proof {
                            assert(bag_parse(b, h, stkv, p_name) is None);
                        }
                        return Err(e);
                    },
                };
            }
            proof {
                assert(bag_parse(b, h, stkv, p_name) == Some(
                    (Seq::<(Seq<char>, PropertyV)>::empty(), p_name + str_parse_len(b, p_name)),
                ));
                assert(bag_parse(b, h, stkv, p) is Some);
                assert(acc + Seq::<(Seq<char>, PropertyV)>::empty() =~= acc);
                assert((bag_parse(b, h, stkv, p)->0).0 == acc);
                assert((bag_parse(b, h, stkv, p)->0).1 == cursor.pos);
            }
            StructValue::CustomStruct(props)
        };
        Ok(StructProperty { struct_type, guid, value })
    }
}

impl ArrayProperty {
    /// Decodes an array: its byte length, inner type tag, padding byte and
    /// element count, then either the shared struct-identity block followed
    /// by headerless struct bodies, or headerless elements of the inner
    /// type, each handed a best-effort suggested byte length for the opaque
    /// fallback.
    #[verifier::loop_isolation(false)]
    #[verifier::rlimit(100)]
    #[verifier::spinoff_prover]
    pub fn read(
        cursor: &mut Cursor,
        hints: &crate::hints::HintMap,
        properties_stack: &mut Vec<String>,
    ) -> (r: Result<ArrayProperty, Error>)
        ensures
            final(cursor).data@ == old(cursor).data@,
            final(properties_stack)@ == old(properties_stack)@,
            old(cursor).pos <= final(cursor).pos,
            r is Ok ==> final(cursor).pos <= final(cursor).data@.len(),
            ({
                let pp = array_parse(
                    old(cursor).data@,
                    hints.entries@,
                    old(properties_stack).deep_view(),
                    old(cursor).pos as int,
                );
                &&& (r is Ok <==> pp is Some)
                &&& (r is Ok ==> array_pview(r->Ok_0) == (pp->0).0 && final(cursor).pos == (
                pp->0).1)
            }),
        decreases old(cursor).data@.len() - old(cursor).pos, 2int,
    {
        let ghost b = old(cursor).data@;
        let ghost p = old(cursor).pos as int;
        let ghost h = hints.entries@;
        let ghost stkv = old(properties_stack).deep_view();
        let length = match cursor.read_u64() {
            Ok(x) => x,
            Err(e) => {
                return Err(e);
            },
        };
        let property_type = match cursor.read_string() {
            Ok(s) => s,
            Err(e) => {
                return Err(e);
            },
        };
        match cursor.read_u8() {
            Ok(_) => (),
            Err(e) => {
                return Err(e);
            },
        };
        let ghost q1 = p + 8 + str_parse_len(b, p + 8);
        let count_field = match cursor.read_i32() {
            Ok(x) => x,
            Err(e) => {
                return Err(e);
            },
        };
        proof {
            assert(b.subrange(q1 + 1, q1 + 5) =~= b.subrange(q1 + 1, q1 + 1 + 4));
        }
        if count_field < 0 {
            return Err(Error::InvalidValue("negative element count".to_owned()));
        }
        let count = count_field as usize;
        let ghost q2 = q1 + 5;
        if strings_equal(property_type.as_str(), "StructProperty") {
            let field_name = match cursor.read_string() {
                Ok(s) => s,
                Err(e) => {
                    return Err(e);
                },
            };
            let ghost q3 = q2 + str_parse_len(b, q2);
            let _duplicate_type = match cursor.read_string() {
                Ok(s) => s,
                Err(e) => {
                    return Err(e);
                },
            };
            let ghost q4 = q3 + str_parse_len(b, q3);
            let _length_without_name = match cursor.read_u64() {
                Ok(x) => x,
                Err(e) => {
                    return Err(e);
                },
            };
            let struct_name = match cursor.read_string() {
                Ok(s) => s,
                Err(e) => {
                    return Err(e);
                },
            };
            let ghost q5 = q4 + 8 + str_parse_len(b, q4 + 8);
            let lo = match cursor.read_u64() {
                Ok(x) => x,
                Err(e) => {
                    return Err(e);
                },
            };
            let hi = match cursor.read_u64() {
                Ok(x) => x,
                Err(e) => {
                    return Err(e);
                },
            };
            match cursor.read_u8() {
                Ok(_) => (),
                Err(e) => {
                    return Err(e);
                },
            };
            proof {
                assert(b.subrange(q5, q5 + 8) =~= b.subrange(q5, q5 + 8));
                assert(b.subrange(q5 + 8, q5 + 16) =~= b.subrange(q5 + 8, q5 + 8 + 8));
            }
            let ghost q6 = q5 + 17;
            let ghost sname = struct_name@;
            let ghost full = struct_elems_parse(b, h, stkv, q6, sname, count as nat);
            let mut properties: Vec<Property> = Vec::new();
            let ghost mut acc: Seq<PropertyV> = Seq::empty();
            let mut i: usize = 0;
            proof {
                assert(pview_list(properties@) =~= acc);
            }
            while i < count
                invariant
                    i <= count,
                    cursor.data@ == old(cursor).data@,
                    properties_stack@ == old(properties_stack)@,
                    properties_stack.deep_view() == stkv,
                    old(cursor).pos < cursor.pos <= cursor.data@.len(),
                    pview_list(properties@) == acc,
                    (full is Some <==> struct_elems_parse(
                        b,
                        h,
                        stkv,
                        cursor.pos as int,
                        sname,
                        (count - i) as nat,
                    ) is Some),
                    full is Some ==> (full->0).0 == acc + (struct_elems_parse(
                        b,
                        h,
                        stkv,
                        cursor.pos as int,
                        sname,
                        (count - i) as nat,
                    )->0).0 && (full->0).1 == (struct_elems_parse(
                        b,
                        h,
                        stkv,
                        cursor.pos as int,
                        sname,
                        (count - i) as nat,
                    )->0).1,
                decreases count - i,
            {
                let ghost cur = cursor.pos as int;
                let sp = match StructProperty::read_with_type_name(
                    cursor,
                    hints,
                    properties_stack,
                    struct_name.as_str(),
                ) {
                    Ok(v) => v,
                    Err(e) => {
                        proof {
                            assert(struct_body_parse(b, h, stkv, cur, sname) is None);
                            assert(struct_elems_parse(b, h, stkv, cur, sname, (count - i) as nat)
                                is None);
                        }
                        return Err(e);
                    },
                };
                let ghost e_pos = cursor.pos as int;
                proof {
                    let bodyr = struct_body_parse(b, h, stkv, cur, sname);
                    assert(bodyr is Some && struct_pview(sp) == (PropertyV::StructProperty {
                        struct_type: sname,
                        guid: Guid(0, 0),
                        value: (bodyr->0).0,
                    }) && e_pos == (bodyr->0).1);
                    assert(struct_elems_parse(b, h, stkv, cur, sname, (count - i) as nat)
                        is Some <==> struct_elems_parse(
                        b,
                        h,
                        stkv,
                        e_pos,
                        sname,
                        (count - i - 1) as nat,
                    ) is Some);
                    if full is Some {
                        assert((struct_elems_parse(b, h, stkv, cur, sname, (count - i) as nat)->0).0
                            == seq![struct_pview(sp)] + (struct_elems_parse(
                            b,
                            h,
                            stkv,
                            e_pos,
                            sname,
                            (count - i - 1) as nat,
                        )->0).0);
                        assert(acc + (seq![struct_pview(sp)] + (struct_elems_parse(
                            b,
                            h,
                            stkv,
                            e_pos,
                            sname,
                            (count - i - 1) as nat,
                        )->0).0) =~= acc.push(struct_pview(sp)) + (struct_elems_parse(
                            b,
                            h,
                            stkv,
                            e_pos,
                            sname,
                            (count - i - 1) as nat,
                        )->0).0);
                    }
                    lemma_pview_list_index(properties@);
                }
                properties.push(Property::StructProperty(sp));
                proof {
                    lemma_pview_list_index(properties@);
                    assert(pview_list(properties@) =~= acc.push(struct_pview(sp)));
                    acc = acc.push(struct_pview(sp));
                }
                i = i + 1;
            }
            proof {
                assert(struct_elems_parse(b, h, stkv, cursor.pos as int, sname, 0) == Some(
                    (Seq::<PropertyV>::empty(), cursor.pos as int),
                ));
                assert(full is Some);
                assert(acc + Seq::<PropertyV>::empty() =~= acc);
            }
            Ok(
                ArrayProperty {
                    property_type,
                    properties,
                    array_struct_info: Some(
                        ArrayStructInfo { struct_name, field_name, guid: Guid(lo, hi) },
                    ),
                },
            )
        } else {
            let ghost ptag = property_type@;
            let ghost sug: u64 = if count > 0 && length >= 4 {
                (((length as int) - 4) / (count as int)) as u64
            } else {
                0u64
            };
            let ghost full = elems_parse(b, h, stkv, q2, ptag, count as nat, sug);
            let mut properties: Vec<Property> = Vec::new();
            let ghost mut acc: Seq<PropertyV> = Seq::empty();
            let mut i: usize = 0;
            proof {
                assert(pview_list(properties@) =~= acc);
            }
            while i < count
                invariant
                    i <= count,
                    cursor.data@ == old(cursor).data@,
                    properties_stack@ == old(properties_stack)@,
                    properties_stack.deep_view() == stkv,
                    old(cursor).pos < cursor.pos <= cursor.data@.len(),
                    pview_list(properties@) == acc,
                    (full is Some <==> elems_parse(
                        b,
                        h,
                        stkv,
                        cursor.pos as int,
                        ptag,
                        (count - i) as nat,
                        sug,
                    ) is Some),
                    full is Some ==> (full->0).0 == acc + (elems_parse(
                        b,
                        h,
                        stkv,
                        cursor.pos as int,
                        ptag,
                        (count - i) as nat,
                        sug,
                    )->0).0 && (full->0).1 == (elems_parse(
                        b,
                        h,
                        stkv,
                        cursor.pos as int,
                        ptag,
                        (count - i) as nat,
                        sug,
                    )->0).1,
                decreases count - i,
            {
                let suggested: u64 = if length >= 4 {
                    (length - 4) / (count as u64)
                } else {
                    0
                };
                proof {
                    assert(suggested == sug);
                }
                let ghost cur = cursor.pos as int;
                let pr = match Property::new(
                    cursor,
                    hints,
                    properties_stack,
                    property_type.as_str(),
                    false,
                    Some(suggested),
                ) {
                    Ok(v) => v,
                    Err(e) => {
                        proof {
                            assert(prop_parse(b, h, stkv.push(ptag), cur, ptag, false, Some(sug))
                                is None);
                            assert(elems_parse(b, h, stkv, cur, ptag, (count - i) as nat, sug)
                                is None);
                        }
                        return Err(e);
                    },
                };
                let ghost e_pos = cursor.pos as int;
                proof {
                    let step = prop_parse(b, h, stkv.push(ptag), cur, ptag, false, Some(sug));
                    assert(step is Some && (step->0).0 == pview(pr) && (step->0).1 == e_pos);
                    assert(elems_parse(b, h, stkv, cur, ptag, (count - i) as nat, sug) is Some
                        <==> elems_parse(b, h, stkv, e_pos, ptag, (count - i - 1) as nat, sug)
                        is Some);
                    if full is Some {
                        assert((elems_parse(b, h, stkv, cur, ptag, (count - i) as nat, sug)->0).0
                            == seq![pview(pr)] + (elems_parse(
                            b,
                            h,
                            stkv,
                            e_pos,
                            ptag,
                            (count - i - 1) as nat,
                            sug,
                        )->0).0);
                        assert(acc + (seq![pview(pr)] + (elems_parse(
                            b,
                            h,
                            stkv,
                            e_pos,
                            ptag,
                            (count - i - 1) as nat,
                            sug,
                        )->0).0) =~= acc.push(pview(pr)) + (elems_parse(
                            b,
                            h,
                            stkv,
                            e_pos,
                            ptag,
                            (count - i - 1) as nat,
                            sug,
                        )->0).0);
                    }
                    lemma_pview_list_index(properties@);
                }
                properties.push(pr);
                proof {
                    lemma_pview_list_index(properties@);
                    assert(pview_list(properties@) =~= acc.push(pview(pr)));
                    acc = acc.push(pview(pr));
                }
                i = i + 1;
            }
            proof {
                assert(elems_parse(b, h, stkv, cursor.pos as int, ptag, 0, sug) == Some(
                    (Seq::<PropertyV>::empty(), cursor.pos as int),
                ));
                assert(full is Some);
                assert(acc + Seq::<PropertyV>::empty() =~= acc);
            }
            Ok(ArrayProperty { property_type, properties, array_struct_info: None })
        }
    }
}

impl SetProperty {
    /// Decodes a set: the same framing as an array plus the removed-element
    /// count, with elements read headerless under the same best-effort
    /// suggested length.
    #[verifier::loop_isolation(false)]
    #[verifier::rlimit(100)]
    #[verifier::spinoff_prover]
    pub fn read(
        cursor: &mut Cursor,
        hints: &crate::hints::HintMap,
        properties_stack: &mut Vec<String>,
    ) -> (r: Result<SetProperty, Error>)
        ensures
            final(cursor).data@ == old(cursor).data@,
            final(properties_stack)@ == old(properties_stack)@,
            old(cursor).pos <= final(cursor).pos,
            r is Ok ==> final(cursor).pos <= final(cursor).data@.len(),
            ({
                let pp = set_parse(
                    old(cursor).data@,
                    hints.entries@,
                    old(properties_stack).deep_view(),
                    old(cursor).pos as int,
                );
                &&& (r is Ok <==> pp is Some)
                &&& (r is Ok ==> set_pview(r->Ok_0) == (pp->0).0 && final(cursor).pos == (
                pp->0).1)
            }),
        decreases old(cursor).data@.len() - old(cursor).pos, 2int,
    {
        let ghost b = old(cursor).data@;
        let ghost p = old(cursor).pos as int;
        let ghost h = hints.entries@;
        let ghost stkv = old(properties_stack).deep_view();
        let length = match cursor.read_u64() {
            Ok(x) => x,
            Err(e) => {
                return Err(e);
            },
        };
        let property_type = match cursor.read_string() {
            Ok(s) => s,
            Err(e) => {
                return Err(e);
            },
        };
        let ghost q1 = p + 8 + str_parse_len(b, p + 8);
        match cursor.read_u8() {
            Ok(_) => (),
            Err(e) => {
                return Err(e);
            },
        };
        let removed_count = match cursor.read_u32() {
            Ok(x) => x,
            Err(e) => {
                return Err(e);
            },
        };
        let count_field = match cursor.read_i32() {
            Ok(x) => x,
            Err(e) => {
                return Err(e);
            },
        };
        proof {
            assert(b.subrange(q1 + 1, q1 + 5) =~= b.subrange(q1 + 1, q1 + 1 + 4));
            assert(b.subrange(q1 + 5, q1 + 9) =~= b.subrange(q1 + 5, q1 + 5 + 4));
        }
        if count_field < 0 {
            return Err(Error::InvalidValue("negative element count".to_owned()));
        }
        let count = count_field as usize;
        let ghost q2 = q1 + 9;
        let ghost ptag = property_type@;
        let ghost sug: u64 = if count > 0 && length >= 8 {
            (((length as int) - 8) / (count as int)) as u64
        } else {
            0u64
        };
        let ghost full = elems_parse(b, h, stkv, q2, ptag, count as nat, sug);
        let mut properties: Vec<Property> = Vec::new();
        let ghost mut acc: Seq<PropertyV> = Seq::empty();
        let mut i: usize = 0;
        proof {
            assert(pview_list(properties@) =~= acc);
        }
        while i < count
            invariant
                i <= count,
                cursor.data@ == old(cursor).data@,
                properties_stack@ == old(properties_stack)@,
                properties_stack.deep_view() == stkv,
                old(cursor).pos < cursor.pos <= cursor.data@.len(),
                pview_list(properties@) == acc,
                (full is Some <==> elems_parse(
                    b,
                    h,
                    stkv,
                    cursor.pos as int,
                    ptag,
                    (count - i) as nat,
                    sug,
                ) is Some),
                full is Some ==> (full->0).0 == acc + (elems_parse(
                    b,
                    h,
                    stkv,
                    cursor.pos as int,
                    ptag,
                    (count - i) as nat,
                    sug,
                )->0).0 && (full->0).1 == (elems_parse(
                    b,
                    h,
                    stkv,
                    cursor.pos as int,
                    ptag,
                    (count - i) as nat,
                    sug,
                )->0).1,
            decreases count - i,
        {
            let suggested: u64 = if length >= 8 {
                (length - 8) / (count as u64)
            } else {
                0
            };
            proof {
                assert(suggested == sug);
            }
            let ghost cur = cursor.pos as int;
            let pr = match Property::new(
                cursor,
                hints,
                properties_stack,
                property_type.as_str(),
                false,
                Some(suggested),
            ) {
                Ok(v) => v,
                Err(e) => {
                    proof {
                        assert(prop_parse(b, h, stkv.push(ptag), cur, ptag, false, Some(sug))
                            is None);
                        assert(elems_parse(b, h, stkv, cur, ptag, (count - i) as nat, sug)
                            is None);
                    }
                    return Err(e);
                },
            };
            let ghost e_pos = cursor.pos as int;
            proof {
                let step = prop_parse(b, h, stkv.push(ptag), cur, ptag, false, Some(sug));
                assert(step is Some && (step->0).0 == pview(pr) && (step->0).1 == e_pos);
                assert(elems_parse(b, h, stkv, cur, ptag, (count - i) as nat, sug) is Some
                    <==> elems_parse(b, h, stkv, e_pos, ptag, (count - i - 1) as nat, sug)
                    is Some);
                if full is Some {
                    assert((elems_parse(b, h, stkv, cur, ptag, (count - i) as nat, sug)->0).0
                        == seq![pview(pr)] + (elems_parse(
                        b,
                        h,
                        stkv,
                        e_pos,
                        ptag,
                        (count - i - 1) as nat,
                        sug,
                    )->0).0);
                    assert(acc + (seq![pview(pr)] + (elems_parse(
                        b,
                        h,
                        stkv,
                        e_pos,
                        ptag,
                        (count - i - 1) as nat,
                        sug,
                    )->0).0) =~= acc.push(pview(pr)) + (elems_parse(
                        b,
                        h,
                        stkv,
                        e_pos,
                        ptag,
                        (count - i - 1) as nat,
                        sug,
                    )->0).0);
                }
                lemma_pview_list_index(properties@);
            }
            properties.push(pr);
            proof {
                lemma_pview_list_index(properties@);
                assert(pview_list(properties@) =~= acc.push(pview(pr)));
                acc = acc.push(pview(pr));
            }
            i = i + 1;
        }
        proof {
            assert(elems_parse(b, h, stkv, cursor.pos as int, ptag, 0, sug) == Some(
                (Seq::<PropertyV>::empty(), cursor.pos as int),
            ));
            assert(full is Some);
            assert(acc + Seq::<PropertyV>::empty() =~= acc);
        }
        Ok(SetProperty { property_type, removed_count, properties })
    }
}

impl MapProperty {
    /// Decodes a map: its byte length, key and value type tags, padding,
    /// allocation flags and pair count, then each key body and value body.
    /// Struct-typed keys and values are hinted under the `Key` and `Value`
    /// path segments.
    #[verifier::loop_isolation(false)]
    #[verifier::rlimit(100)]
    #[verifier::spinoff_prover]
    pub fn read(
        cursor: &mut Cursor,
        hints: &crate::hints::HintMap,
        properties_stack: &mut Vec<String>,
    ) -> (r: Result<MapProperty, Error>)
        ensures
            final(cursor).data@ == old(cursor).data@,
            final(properties_stack)@ == old(properties_stack)@,
            old(cursor).pos <= final(cursor).pos,
            r is Ok ==> final(cursor).pos <= final(cursor).data@.len(),
            ({
                let pp = map_parse(
                    old(cursor).data@,
                    hints.entries@,
                    old(properties_stack).deep_view(),
                    old(cursor).pos as int,
                );
                &&& (r is Ok <==> pp is Some)
                &&& (r is Ok ==> map_pview(r->Ok_0) == (pp->0).0 && final(cursor).pos == (
                pp->0).1)
            }),
        decreases old(cursor).data@.len() - old(cursor).pos, 2int,
    {
        let ghost b = old(cursor).data@;
        let ghost p = old(cursor).pos as int;
        let ghost h = hints.entries@;
        let ghost stkv = old(properties_stack).deep_view();
        match cursor.read_u64() {
            Ok(_) => (),
            Err(e) => {
                return Err(e);
            },
        };
        let key_type = match cursor.read_string() {
            Ok(s) => s,
            Err(e) => {
                return Err(e);
            },
        };
        let ghost q1 = p + 8 + str_parse_len(b, p + 8);
        let value_type = match cursor.read_string() {
            Ok(s) => s,
            Err(e) => {
                return Err(e);
            },
        };
        let ghost q2 = q1 + str_parse_len(b, q1);
        match cursor.read_u8() {
            Ok(_) => (),
            Err(e) => {
                return Err(e);
            },
        };
        let allocation_flags = match cursor.read_u32() {
            Ok(x) => x,
            Err(e) => {
                return Err(e);
            },
        };
        let count_field = match cursor.read_i32() {
            Ok(x) => x,
            Err(e) => {
                return Err(e);
            },
        };
        proof {
            assert(b.subrange(q2 + 1, q2 + 5) =~= b.subrange(q2 + 1, q2 + 1 + 4));
            assert(b.subrange(q2 + 5, q2 + 9) =~= b.subrange(q2 + 5, q2 + 5 + 4));
        }
        if count_field < 0 {
            return Err(Error::InvalidValue("negative entry count".to_owned()));
        }
        let count = count_field as usize;
        let ghost q3 = q2 + 9;
        let ghost ktag = key_type@;
        let ghost vtag = value_type@;
        let ghost full = pairs_parse(b, h, stkv, q3, ktag, vtag, count as nat);
        let mut entries: Vec<MapEntry> = Vec::new();
        let ghost mut acc: Seq<(PropertyV, PropertyV)> = Seq::empty();
        let mut i: usize = 0;
        proof {
            assert(pview_pairs(entries@) =~= acc);
        }
        while i < count
            invariant
                i <= count,
                cursor.data@ == old(cursor).data@,
                properties_stack@ == old(properties_stack)@,
                properties_stack.deep_view() == stkv,
                old(cursor).pos < cursor.pos <= cursor.data@.len(),
                pview_pairs(entries@) == acc,
                (full is Some <==> pairs_parse(
                    b,
                    h,
                    stkv,
                    cursor.pos as int,
                    ktag,
                    vtag,
                    (count - i) as nat,
                ) is Some),
                full is Some ==> (full->0).0 == acc + (pairs_parse(
                    b,
                    h,
                    stkv,
                    cursor.pos as int,
                    ktag,
                    vtag,
                    (count - i) as nat,
                )->0).0 && (full->0).1 == (pairs_parse(
                    b,
                    h,
                    stkv,
                    cursor.pos as int,
                    ktag,
                    vtag,
                    (count - i) as nat,
                )->0).1,
            decreases count - i,
        {
            let ghost cur = cursor.pos as int;
            properties_stack.push(String::from_str("Key"));
            proof {
                assert(properties_stack.deep_view() =~= stkv.push("Key"@));
            }
            let key_r = Property::new(
                cursor,
                hints,
                properties_stack,
                key_type.as_str(),
                false,
                None,
            );
            let popped_key = properties_stack.pop();
            proof {
                assert(properties_stack@ =~= old(properties_stack)@);
                assert(properties_stack.deep_view() =~= stkv);
            }
            let key = match key_r {
                Ok(v) => v,
                Err(e) => {
                    proof {
                        assert(prop_parse(b, h, stkv.push("Key"@).push(ktag), cur, ktag, false, None)
                            is None);
                        assert(pairs_parse(b, h, stkv, cur, ktag, vtag, (count - i) as nat)
                            is None);
                    }
                    return Err(e);
                },
            };
            let ghost k_pos = cursor.pos as int;
            properties_stack.push(String::from_str("Value"));
            proof {
                assert(properties_stack.deep_view() =~= stkv.push("Value"@));
            }
            let value_r = Property::new(
                cursor,
                hints,
                properties_stack,
                value_type.as_str(),
                false,
                None,
            );
            let popped_value = properties_stack.pop();
            proof {
                assert(properties_stack@ =~= old(properties_stack)@);
                assert(properties_stack.deep_view() =~= stkv);
            }
            let value = match value_r {
                Ok(v) => v,
                Err(e) => {
                    proof {
                        assert(prop_parse(
                            b,
                            h,
                            stkv.push("Value"@).push(vtag),
                            k_pos,
                            vtag,
                            false,
                            None,
                        ) is None);
                        assert(pairs_parse(b, h, stkv, cur, ktag, vtag, (count - i) as nat)
                            is None);
                    }
                    return Err(e);
                },
            };
            let ghost e_pos = cursor.pos as int;
            proof {
                assert(pairs_parse(b, h, stkv, cur, ktag, vtag, (count - i) as nat) is Some
                    <==> pairs_parse(b, h, stkv, e_pos, ktag, vtag, (count - i - 1) as nat)
                    is Some);
                if full is Some {
                    assert((pairs_parse(b, h, stkv, cur, ktag, vtag, (count - i) as nat)->0).0
                        == seq![(pview(key), pview(value))] + (pairs_parse(
                        b,
                        h,
                        stkv,
                        e_pos,
                        ktag,
                        vtag,
                        (count - i - 1) as nat,
                    )->0).0);
                    assert(acc + (seq![(pview(key), pview(value))] + (pairs_parse(
                        b,
                        h,
                        stkv,
                        e_pos,
                        ktag,
                        vtag,
                        (count - i - 1) as nat,
                    )->0).0) =~= acc.push((pview(key), pview(value))) + (pairs_parse(
                        b,
                        h,
                        stkv,
                        e_pos,
                        ktag,
                        vtag,
                        (count - i - 1) as nat,
                    )->0).0);
                }
                lemma_pview_pairs_index(entries@);
            }
            let ghost kv = (pview(key), pview(value));
            entries.push(MapEntry { key, value });
            proof {
                lemma_pview_pairs_index(entries@);
                assert(pview_pairs(entries@) =~= acc.push(kv));
                acc = acc.push(kv);
            }
            i = i + 1;
        }
        proof {
            assert(pairs_parse(b, h, stkv, cursor.pos as int, ktag, vtag, 0) == Some(
                (Seq::<(PropertyV, PropertyV)>::empty(), cursor.pos as int),
            ));
            assert(full is Some);
            assert(acc + Seq::<(PropertyV, PropertyV)>::empty() =~= acc);
        }
        Ok(MapProperty { key_type, value_type, allocation_flags, entries })
    }
}

/// Every key and value matches its declared type and can be written.
pub open spec fn pairs_serializable(
    l: Seq<(PropertyV, PropertyV)>,
    key_type: Seq<char>,
    value_type: Seq<char>,
) -> bool
    decreases l, 1int,
{
    if l.len() == 0 {
        true
    } else {
        &&& tag_of(l[0].0) == key_type
        &&& prop_serializable(l[0].0, false)
        &&& tag_of(l[0].1) == value_type
        &&& prop_serializable(l[0].1, false)
        &&& pairs_serializable(l.subrange(1, l.len() as int), key_type, value_type)
    }
}


/// What inserting a name into a bag of mathematical values yields: the
/// value replaced in place if the name is present, the pair appended
/// otherwise. This is [`spec_entries_insert`] at the level of views.
pub open spec fn ventries_insert(
    l: Seq<(Seq<char>, PropertyV)>,
    name: Seq<char>,
    value: PropertyV,
) -> Seq<(Seq<char>, PropertyV)>
    decreases l.len(),
{
    if l.len() == 0 {
        seq![(name, value)]
    } else if l[0].0 == name {
        seq![(name, value)] + l.subrange(1, l.len() as int)
    } else {
        seq![l[0]] + ventries_insert(l.subrange(1, l.len() as int), name, value)
    }
}

/// The bag obtained by inserting each pair of `l` in order, starting from
/// `acc`: what the decoder's insertion loop builds from the raw name/value
/// pairs it reads.
pub open spec fn ventries_insert_all(
    acc: Seq<(Seq<char>, PropertyV)>,
    l: Seq<(Seq<char>, PropertyV)>,
) -> Seq<(Seq<char>, PropertyV)>
    decreases l.len(),
{
    if l.len() == 0 {
        acc
    } else {
        ventries_insert_all(ventries_insert(acc, l[0].0, l[0].1), l.subrange(1, l.len() as int))
    }
}

/// Inserting into an entry list and then viewing it is viewing it and then
/// inserting at the level of views.
pub proof fn lemma_pview_ventries_insert(l: Seq<PropertyEntry>, name: String, value: Property)
    ensures
        pview_entries(spec_entries_insert(l, name, value)) == ventries_insert(
            pview_entries(l),
            name@,
            pview(value),
        ),
    decreases l.len(),
{
    let e = PropertyEntry { name, value };
    if l.len() == 0 {
        let ins = seq![e];
        assert(ins[0] == e);
        assert(ins.subrange(1, 1) =~= Seq::<PropertyEntry>::empty());
        assert(pview_entries(Seq::<PropertyEntry>::empty()) =~= Seq::<(Seq<char>, PropertyV)>::empty());
        assert(pview_entries(ins) == seq![(ins[0].name@, pview(ins[0].value))] + pview_entries(
            ins.subrange(1, 1),
        ));
        assert(pview_entries(ins) =~= seq![(name@, pview(value))]);
        assert(pview_entries(spec_entries_insert(l, name, value)) =~= ventries_insert(
            pview_entries(l),
            name@,
            pview(value),
        ));
    } else {
        let rest = l.subrange(1, l.len() as int);
        assert(pview_entries(l) == seq![(l[0].name@, pview(l[0].value))] + pview_entries(rest));
        assert(pview_entries(l)[0] == (l[0].name@, pview(l[0].value)));
        assert(pview_entries(l).subrange(1, pview_entries(l).len() as int) =~= pview_entries(rest));
        if l[0].name@ == name@ {
            let ins = seq![e] + rest;
            assert(ins[0] == e);
            assert(ins.subrange(1, ins.len() as int) =~= rest);
            assert(pview_entries(spec_entries_insert(l, name, value)) =~= ventries_insert(
                pview_entries(l),
                name@,
                pview(value),
            ));
        } else {
            lemma_pview_ventries_insert(rest, name, value);
            let ins = seq![l[0]] + spec_entries_insert(rest, name, value);
            assert(ins[0] == l[0]);
            assert(ins.subrange(1, ins.len() as int) =~= spec_entries_insert(rest, name, value));
            assert(pview_entries(spec_entries_insert(l, name, value)) =~= ventries_insert(
                pview_entries(l),
                name@,
                pview(value),
            ));
        }
    }
}

/// Folding one more pair into a bag folds it into the fold of the rest.
pub proof fn lemma_ventries_insert_all_snoc(
    acc: Seq<(Seq<char>, PropertyV)>,
    l: Seq<(Seq<char>, PropertyV)>,
    x: (Seq<char>, PropertyV),
)
    ensures
        ventries_insert_all(acc, l.push(x)) == ventries_insert(
            ventries_insert_all(acc, l),
            x.0,
            x.1,
        ),
    decreases l.len(),
{
    if l.len() == 0 {
        assert(l.push(x)[0] == x);
        assert(l.push(x).subrange(1, 1) =~= Seq::<(Seq<char>, PropertyV)>::empty());
        assert(ventries_insert_all(acc, l.push(x)) == ventries_insert_all(
            ventries_insert(acc, x.0, x.1),
            Seq::<(Seq<char>, PropertyV)>::empty(),
        ));
        assert(ventries_insert_all(
            ventries_insert(acc, x.0, x.1),
            Seq::<(Seq<char>, PropertyV)>::empty(),
        ) == ventries_insert(acc, x.0, x.1));
        assert(ventries_insert_all(acc, l) == acc);
    } else {
        let rest = l.subrange(1, l.len() as int);
        assert(l.push(x)[0] == l[0]);
        assert(l.push(x).subrange(1, l.len() as int + 1) =~= rest.push(x));
        assert(ventries_insert_all(acc, l.push(x)) == ventries_insert_all(
            ventries_insert(acc, l[0].0, l[0].1),
            rest.push(x),
        ));
        assert(ventries_insert_all(acc, l) == ventries_insert_all(
            ventries_insert(acc, l[0].0, l[0].1),
            rest,
        ));
        lemma_ventries_insert_all_snoc(ventries_insert(acc, l[0].0, l[0].1), rest, x);
    }
}

/// Decoding one property value at position `p` of buffer `b`, the type tag
/// string already consumed: what the dispatch engine returns and where it
/// leaves the cursor, or nothing where it stops with an error. `stk` is the
/// dotted-path stack as it stands inside the dispatcher, its own tag
/// included; `hints` supplies type names for headerless struct values; a
/// headerless unrecognized tag takes `sug` bytes, there being no header to
/// carry a length.
pub open spec fn prop_parse(
    b: Seq<u8>,
    hints: Seq<(String, String)>,
    stk: Seq<Seq<char>>,
    p: int,
    tag: Seq<char>,
    hdr: bool,
    sug: Option<u64>,
) -> Option<(PropertyV, int)>
    decreases b.len() - p, 3int, 0int,
{
    let q = p + if hdr {
        9int
    } else {
        0int
    };
    if p < 0 {
        None
    } else if is_scalar_tag(tag) {
        if (!hdr || p + 9 <= b.len()) && q + scalar_size(tag) <= b.len() {
            Some((scalar_parse(tag, b, q), q + scalar_size(tag)))
        } else {
            None
        }
    } else if tag == "StrProperty"@ {
        if (!hdr || p + 9 <= b.len()) && str_parse_ok(b, q) {
            Some(
                (
                    PropertyV::StrProperty { value: str_parse_val(b, q) },
                    q + str_parse_len(b, q),
                ),
            )
        } else {
            None
        }
    } else if tag == "EnumProperty"@ {
        if (!hdr || p + 9 <= b.len()) && str_parse_ok(b, q) && str_parse_ok(
            b,
            q + str_parse_len(b, q),
        ) {
            let q2 = q + str_parse_len(b, q);
            Some(
                (
                    PropertyV::EnumProperty {
                        enum_type: str_parse_val(b, q),
                        value: str_parse_val(b, q2),
                    },
                    q2 + str_parse_len(b, q2),
                ),
            )
        } else {
            None
        }
    } else if tag == "StructProperty"@ {
        if hdr {
            struct_hdr_parse(b, hints, stk, p)
        } else {
            match crate::hints::spec_lookup(hints, crate::hints::spec_join_path(stk)) {
                Some(h) => match struct_body_parse(b, hints, stk, p, h) {
                    Some((v, e)) => Some(
                        (
                            PropertyV::StructProperty {
                                struct_type: h,
                                guid: Guid(0, 0),
                                value: v,
                            },
                            e,
                        ),
                    ),
                    None => None,
                },
                None => None,
            }
        }
    } else if tag == "ArrayProperty"@ {
        array_parse(b, hints, stk, p)
    } else if tag == "SetProperty"@ {
        set_parse(b, hints, stk, p)
    } else if tag == "MapProperty"@ {
        map_parse(b, hints, stk, p)
    } else {
        if hdr {
            let n = spec_u64_from_le_bytes(b.subrange(p, p + 8)) as int;
            if p + 9 <= b.len() && p + 9 + n <= b.len() {
                Some(
                    (
                        PropertyV::UnknownProperty {
                            property_type: tag,
                            value: b.subrange(p + 9, p + 9 + n),
                        },
                        p + 9 + n,
                    ),
                )
            } else {
                None
            }
        } else {
            match sug {
                Some(n) => if p + n <= b.len() {
                    Some(
                        (
                            PropertyV::UnknownProperty {
                                property_type: tag,
                                value: b.subrange(p, p + n as int),
                            },
                            p + n as int,
                        ),
                    )
                } else {
                    None
                },
                None => None,
            }
        }
    }
}

/// Decoding a struct whose self-describing header sits at `p`: the byte
/// length field, the struct type name, the 16-byte identifier and the
/// padding byte, then the body the type name selects.
pub open spec fn struct_hdr_parse(
    b: Seq<u8>,
    hints: Seq<(String, String)>,
    stk: Seq<Seq<char>>,
    p: int,
) -> Option<(PropertyV, int)>
    decreases b.len() - p, 2int, 1int,
{
    if p < 0 || p + 8 > b.len() {
        None
    } else if !str_parse_ok(b, p + 8) {
        None
    } else {
        let stype = str_parse_val(b, p + 8);
        let q1 = p + 8 + str_parse_len(b, p + 8);
        if !(p < q1 + 17 <= b.len()) {
            None
        } else {
            let g = Guid(
                spec_u64_from_le_bytes(b.subrange(q1, q1 + 8)),
                spec_u64_from_le_bytes(b.subrange(q1 + 8, q1 + 16)),
            );
            match struct_body_parse(b, hints, stk, q1 + 17, stype) {
                Some((v, e)) => Some(
                    (PropertyV::StructProperty { struct_type: stype, guid: g, value: v }, e),
                ),
                None => None,
            }
        }
    }
}

/// Decoding a struct body at `p` whose type name came from out of band: a
/// recognized name selects its fixed layout; any other name selects the
/// nested property loop ended by the sentinel name, whose pairs are folded
/// into a bag exactly as the decoder's insertion loop folds them.
pub open spec fn struct_body_parse(
    b: Seq<u8>,
    hints: Seq<(String, String)>,
    stk: Seq<Seq<char>>,
    p: int,
    stype: Seq<char>,
) -> Option<(StructValueV, int)>
    decreases b.len() - p, 2int, 0int,
{
    if p < 0 {
        None
    } else if stype == "Vector"@ {
        if p + 12 <= b.len() {
            Some(
                (
                    StructValueV::Vector(
                        Vector {
                            x: spec_u32_from_le_bytes(b.subrange(p, p + 4)),
                            y: spec_u32_from_le_bytes(b.subrange(p + 4, p + 8)),
                            z: spec_u32_from_le_bytes(b.subrange(p + 8, p + 12)),
                        },
                    ),
                    p + 12,
                ),
            )
        } else {
            None
        }
    } else if stype == "Rotator"@ {
        if p + 12 <= b.len() {
            Some(
                (
                    StructValueV::Rotator(
                        Rotator {
                            pitch: spec_u32_from_le_bytes(b.subrange(p, p + 4)),
                            yaw: spec_u32_from_le_bytes(b.subrange(p + 4, p + 8)),
                            roll: spec_u32_from_le_bytes(b.subrange(p + 8, p + 12)),
                        },
                    ),
                    p + 12,
                ),
            )
        } else {
            None
        }
    } else if stype == "Quat"@ {
        if p + 16 <= b.len() {
            Some(
                (
                    StructValueV::Quat(
                        Quat {
                            x: spec_u32_from_le_bytes(b.subrange(p, p + 4)),
                            y: spec_u32_from_le_bytes(b.subrange(p + 4, p + 8)),
                            z: spec_u32_from_le_bytes(b.subrange(p + 8, p + 12)),
                            w: spec_u32_from_le_bytes(b.subrange(p + 12, p + 16)),
                        },
                    ),
                    p + 16,
                ),
            )
        } else {
            None
        }
    } else if stype == "DateTime"@ {
        if p + 8 <= b.len() {
            Some(
                (
                    StructValueV::DateTime(
                        DateTime { ticks: spec_u64_from_le_bytes(b.subrange(p, p + 8)) },
                    ),
                    p + 8,
                ),
            )
        } else {
            None
        }
    } else if stype == "IntPoint"@ {
        if p + 8 <= b.len() {
            Some(
                (
                    StructValueV::IntPoint(
                        IntPoint {
                            x: crate::cursor_ext::i32_of_u32_repr(
                                spec_u32_from_le_bytes(b.subrange(p, p + 4)),
                            ),
                            y: crate::cursor_ext::i32_of_u32_repr(
                                spec_u32_from_le_bytes(b.subrange(p + 4, p + 8)),
                            ),
                        },
                    ),
                    p + 8,
                ),
            )
        } else {
            None
        }
    } else if stype == "Guid"@ {
        if p + 16 <= b.len() {
            Some(
                (
                    StructValueV::Guid(
                        Guid(
                            spec_u64_from_le_bytes(b.subrange(p, p + 8)),
                            spec_u64_from_le_bytes(b.subrange(p + 8, p + 16)),
                        ),
                    ),
                    p + 16,
                ),
            )
        } else {
            None
        }
    } else {
        match bag_parse(b, hints, stk, p) {
            Some((pairs, e)) => Some(
                (
                    StructValueV::CustomStruct(ventries_insert_all(Seq::empty(), pairs)),
                    e,
                ),
            ),
            None => None,
        }
    }
}

/// Decoding a name-to-property loop at `p`: pairs of name string, type tag
/// string and headered property value, until the name reads as the
/// sentinel. Yields the raw pairs in file order and the position just
/// after the sentinel name.
pub open spec fn bag_parse(
    b: Seq<u8>,
    hints: Seq<(String, String)>,
    stk: Seq<Seq<char>>,
    p: int,
) -> Option<(Seq<(Seq<char>, PropertyV)>, int)>
    decreases b.len() - p, 1int, 0int,
{
    if !str_parse_ok(b, p) {
        None
    } else {
        let name = str_parse_val(b, p);
        let q1 = p + str_parse_len(b, p);
        if name == "None"@ {
            Some((Seq::empty(), q1))
        } else if !str_parse_ok(b, q1) {
            None
        } else {
            let ptag = str_parse_val(b, q1);
            let q2 = q1 + str_parse_len(b, q1);
            match prop_parse(b, hints, stk.push(name).push(ptag), q2, ptag, true, None) {
                Some((v, e)) => if p < e <= b.len() {
                    match bag_parse(b, hints, stk, e) {
                        Some((rest, e2)) => Some((seq![(name, v)] + rest, e2)),
                        None => None,
                    }
                } else {
                    None
                },
                None => None,
            }
        }
    }
}

/// Decoding an array at `p`: the byte length field, the inner type tag, a
/// padding byte and the element count, then either the shared
/// struct-identity block and `count` headerless struct bodies, or `count`
/// headerless elements of the inner type, each handed the even split of
/// the remaining declared bytes as a suggested length.
pub open spec fn array_parse(
    b: Seq<u8>,
    hints: Seq<(String, String)>,
    stk: Seq<Seq<char>>,
    p: int,
) -> Option<(PropertyV, int)>
    decreases b.len() - p, 2int, 2int,
{
    if p < 0 || p + 8 > b.len() {
        None
    } else if !str_parse_ok(b, p + 8) {
        None
    } else {
        let len_field = spec_u64_from_le_bytes(b.subrange(p, p + 8));
        let ptag = str_parse_val(b, p + 8);
        let q1 = p + 8 + str_parse_len(b, p + 8);
        if q1 + 5 > b.len() {
            None
        } else {
            let count = crate::cursor_ext::i32_of_u32_repr(
                spec_u32_from_le_bytes(b.subrange(q1 + 1, q1 + 5)),
            ) as int;
            let q2 = q1 + 5;
            if count < 0 {
                None
            } else if ptag == "StructProperty"@ {
                if !str_parse_ok(b, q2) {
                    None
                } else {
                    let fname = str_parse_val(b, q2);
                    let q3 = q2 + str_parse_len(b, q2);
                    if !str_parse_ok(b, q3) {
                        None
                    } else {
                        let q4 = q3 + str_parse_len(b, q3);
                        if q4 + 8 > b.len() || !str_parse_ok(b, q4 + 8) {
                            None
                        } else {
                            let sname = str_parse_val(b, q4 + 8);
                            let q5 = q4 + 8 + str_parse_len(b, q4 + 8);
                            if !(p < q5 + 17 <= b.len()) {
                                None
                            } else {
                                let g = Guid(
                                    spec_u64_from_le_bytes(b.subrange(q5, q5 + 8)),
                                    spec_u64_from_le_bytes(b.subrange(q5 + 8, q5 + 16)),
                                );
                                match struct_elems_parse(b, hints, stk, q5 + 17, sname, count as nat) {
                                    Some((elems, e)) => Some(
                                        (
                                            PropertyV::ArrayProperty {
                                                property_type: ptag,
                                                properties: elems,
                                                info: Some(
                                                    ArrayStructInfoV {
                                                        field_name: fname,
                                                        struct_name: sname,
                                                        guid: g,
                                                    },
                                                ),
                                            },
                                            e,
                                        ),
                                    ),
                                    None => None,
                                }
                            }
                        }
                    }
                }
            } else {
                let sug: u64 = if count > 0 && len_field >= 4 {
                    (((len_field as int) - 4) / count) as u64
                } else {
                    0u64
                };
                if !(p < q2 <= b.len()) {
                    None
                } else {
                    match elems_parse(b, hints, stk, q2, ptag, count as nat, sug) {
                        Some((elems, e)) => Some(
                            (
                                PropertyV::ArrayProperty {
                                    property_type: ptag,
                                    properties: elems,
                                    info: None,
                                },
                                e,
                            ),
                        ),
                        None => None,
                    }
                }
            }
        }
    }
}

/// Decoding a set at `p`: the array's framing plus the removed-element
/// count, elements read headerless under the even split of the remaining
/// declared bytes.
pub open spec fn set_parse(
    b: Seq<u8>,
    hints: Seq<(String, String)>,
    stk: Seq<Seq<char>>,
    p: int,
) -> Option<(PropertyV, int)>
    decreases b.len() - p, 2int, 2int,
{
    if p < 0 || p + 8 > b.len() {
        None
    } else if !str_parse_ok(b, p + 8) {
        None
    } else {
        let len_field = spec_u64_from_le_bytes(b.subrange(p, p + 8));
        let ptag = str_parse_val(b, p + 8);
        let q1 = p + 8 + str_parse_len(b, p + 8);
        if q1 + 9 > b.len() {
            None
        } else {
            let removed = spec_u32_from_le_bytes(b.subrange(q1 + 1, q1 + 5));
            let count = crate::cursor_ext::i32_of_u32_repr(
                spec_u32_from_le_bytes(b.subrange(q1 + 5, q1 + 9)),
            ) as int;
            let q2 = q1 + 9;
            if count < 0 || !(p < q2 <= b.len()) {
                None
            } else {
                let sug: u64 = if count > 0 && len_field >= 8 {
                    (((len_field as int) - 8) / count) as u64
                } else {
                    0u64
                };
                match elems_parse(b, hints, stk, q2, ptag, count as nat, sug) {
                    Some((elems, e)) => Some(
                        (
                            PropertyV::SetProperty {
                                property_type: ptag,
                                removed_count: removed,
                                properties: elems,
                            },
                            e,
                        ),
                    ),
                    None => None,
                }
            }
        }
    }
}

/// Decoding a map at `p`: the byte length field, the key and value type
/// tags, a padding byte, the allocation flags and the pair count, then
/// each key body and value body in turn.
pub open spec fn map_parse(
    b: Seq<u8>,
    hints: Seq<(String, String)>,
    stk: Seq<Seq<char>>,
    p: int,
) -> Option<(PropertyV, int)>
    decreases b.len() - p, 2int, 2int,
{
    if p < 0 || p + 8 > b.len() {
        None
    } else if !str_parse_ok(b, p + 8) {
        None
    } else {
        let ktag = str_parse_val(b, p + 8);
        let q1 = p + 8 + str_parse_len(b, p + 8);
        if !str_parse_ok(b, q1) {
            None
        } else {
            let vtag = str_parse_val(b, q1);
            let q2 = q1 + str_parse_len(b, q1);
            if q2 + 9 > b.len() {
                None
            } else {
                let alloc = spec_u32_from_le_bytes(b.subrange(q2 + 1, q2 + 5));
                let count = crate::cursor_ext::i32_of_u32_repr(
                    spec_u32_from_le_bytes(b.subrange(q2 + 5, q2 + 9)),
                ) as int;
                let q3 = q2 + 9;
                if count < 0 || !(p < q3 <= b.len()) {
                    None
                } else {
                    match pairs_parse(b, hints, stk, q3, ktag, vtag, count as nat) {
                        Some((entries, e)) => Some(
                            (
                                PropertyV::MapProperty {
                                    key_type: ktag,
                                    value_type: vtag,
                                    allocation_flags: alloc,
                                    entries,
                                },
                                e,
                            ),
                        ),
                        None => None,
                    }
                }
            }
        }
    }
}

/// Decoding `count` headerless container elements of one declared type,
/// each handed the container's suggested byte length.
pub open spec fn elems_parse(
    b: Seq<u8>,
    hints: Seq<(String, String)>,
    stk: Seq<Seq<char>>,
    p: int,
    tag: Seq<char>,
    count: nat,
    sug: u64,
) -> Option<(Seq<PropertyV>, int)>
    decreases b.len() - p, 4int, count,
{
    if count == 0 {
        Some((Seq::empty(), p))
    } else {
        match prop_parse(b, hints, stk.push(tag), p, tag, false, Some(sug)) {
            Some((v, e)) => if p <= e <= b.len() {
                match elems_parse(b, hints, stk, e, tag, (count - 1) as nat, sug) {
                    Some((rest, e2)) => Some((seq![v] + rest, e2)),
                    None => None,
                }
            } else {
                None
            },
            None => None,
        }
    }
}

/// Decoding `count` headerless struct bodies sharing one type name, as the
/// elements of a struct-typed array do.
pub open spec fn struct_elems_parse(
    b: Seq<u8>,
    hints: Seq<(String, String)>,
    stk: Seq<Seq<char>>,
    p: int,
    sname: Seq<char>,
    count: nat,
) -> Option<(Seq<PropertyV>, int)>
    decreases b.len() - p, 4int, count,
{
    if count == 0 {
        Some((Seq::empty(), p))
    } else {
        match struct_body_parse(b, hints, stk, p, sname) {
            Some((v, e)) => if p <= e <= b.len() {
                match struct_elems_parse(b, hints, stk, e, sname, (count - 1) as nat) {
                    Some((rest, e2)) => Some(
                        (
                            seq![
                                PropertyV::StructProperty {
                                    struct_type: sname,
                                    guid: Guid(0, 0),
                                    value: v,
                                },
                            ] + rest,
                            e2,
                        ),
                    ),
                    None => None,
                }
            } else {
                None
            },
            None => None,
        }
    }
}

/// Decoding `count` key/value pairs, keys hinted under the `Key` path
/// segment and values under `Value`.
pub open spec fn pairs_parse(
    b: Seq<u8>,
    hints: Seq<(String, String)>,
    stk: Seq<Seq<char>>,
    p: int,
    ktag: Seq<char>,
    vtag: Seq<char>,
    count: nat,
) -> Option<(Seq<(PropertyV, PropertyV)>, int)>
    decreases b.len() - p, 4int, count,
{
    if count == 0 {
        Some((Seq::empty(), p))
    } else {
        match prop_parse(b, hints, stk.push("Key"@).push(ktag), p, ktag, false, None) {
            Some((k, e1)) => if p <= e1 <= b.len() {
                match prop_parse(b, hints, stk.push("Value"@).push(vtag), e1, vtag, false, None) {
                    Some((v, e2)) => if e1 <= e2 <= b.len() {
                        match pairs_parse(b, hints, stk, e2, ktag, vtag, (count - 1) as nat) {
                            Some((rest, e3)) => Some((seq![(k, v)] + rest, e3)),
                            None => None,
                        }
                    } else {
                        None
                    },
                    None => None,
                }
            } else {
                None
            },
            None => None,
        }
    }
}


/// The struct type names with a fixed-layout payload.
pub open spec fn fixed_struct_name(t: Seq<char>) -> bool {
    ||| t == "Vector"@
    ||| t == "Rotator"@
    ||| t == "Quat"@
    ||| t == "DateTime"@
    ||| t == "IntPoint"@
    ||| t == "Guid"@
}

/// Whether a struct payload is the one its type name selects on decode.
pub open spec fn struct_value_matches(t: Seq<char>, v: StructValueV) -> bool {
    match v {
        StructValueV::Vector(_) => t == "Vector"@,
        StructValueV::Rotator(_) => t == "Rotator"@,
        StructValueV::Quat(_) => t == "Quat"@,
        StructValueV::DateTime(_) => t == "DateTime"@,
        StructValueV::IntPoint(_) => t == "IntPoint"@,
        StructValueV::Guid(_) => t == "Guid"@,
        StructValueV::CustomStruct(_) => !fixed_struct_name(t),
    }
}

/// An inner type tag whose elements re-frame themselves inside a
/// container: their byte span on decode depends on their own bytes alone,
/// never on the container's suggested length or on a hint.
pub open spec fn simple_elem_tag(t: Seq<char>) -> bool {
    is_scalar_tag(t) || t == "StrProperty"@ || t == "EnumProperty"@
}

/// Whether a property's encoded form carries everything its decode needs,
/// so that decoding it yields exactly this value back. This excludes the
/// two places where decode depends on out-of-band input: headerless opaque
/// elements (sized by the container's heuristic) and headerless struct
/// elements of sets and maps (typed by the hint map); and it asks that a
/// struct's payload be the one its type name selects and that the shared
/// identity of a struct-typed array agree with its elements, since decode
/// reconstructs the elements from that single block.
pub open spec fn self_framing(p: PropertyV) -> bool
    decreases p, 1int,
{
    match p {
        PropertyV::StructProperty { struct_type, value, .. } => struct_value_matches(
            struct_type,
            value,
        ) && (match value {
            StructValueV::CustomStruct(entries) => bag_framing(entries),
            _ => true,
        }),
        PropertyV::ArrayProperty { property_type, properties, info } => {
            if property_type == "StructProperty"@ {
                info is Some && struct_elems_framing(properties, info->0.struct_name)
            } else {
                simple_elem_tag(property_type) && elems_not_opaque(properties) && info is None
            }
        },
        PropertyV::SetProperty { property_type, properties, .. } => simple_elem_tag(property_type)
            && elems_not_opaque(properties),
        PropertyV::MapProperty { key_type, value_type, entries, .. } => simple_elem_tag(key_type)
            && simple_elem_tag(value_type) && pairs_not_opaque(entries),
        PropertyV::UnknownProperty { property_type, value } => !recognized_tag(property_type)
            && value.len() <= 0xffff_ffff_ffff_ffff,
        _ => true,
    }
}

/// No element hides behind the opaque fallback, whose byte span on decode
/// would come from the container's heuristic rather than its own bytes.
pub open spec fn elems_not_opaque(l: Seq<PropertyV>) -> bool
    decreases l,
{
    if l.len() == 0 {
        true
    } else {
        !(l[0] is UnknownProperty) && elems_not_opaque(l.subrange(1, l.len() as int))
    }
}

/// No key or value hides behind the opaque fallback.
pub open spec fn pairs_not_opaque(l: Seq<(PropertyV, PropertyV)>) -> bool
    decreases l,
{
    if l.len() == 0 {
        true
    } else {
        !(l[0].0 is UnknownProperty) && !(l[0].1 is UnknownProperty) && pairs_not_opaque(
            l.subrange(1, l.len() as int),
        )
    }
}

/// Every element records the array's shared identity: the shared type
/// name, the zero identifier a reconstructed element carries, and a
/// payload of the layout that name selects.
pub open spec fn struct_elems_framing(l: Seq<PropertyV>, sname: Seq<char>) -> bool
    decreases l, 0int,
{
    if l.len() == 0 {
        true
    } else {
        &&& (l[0] matches PropertyV::StructProperty { struct_type, guid, .. } && struct_type
            == sname && guid == Guid(0, 0))
        &&& self_framing(l[0])
        &&& struct_elems_framing(l.subrange(1, l.len() as int), sname)
    }
}

/// Every entry's value is self-framing and no name repeats, so the
/// decoder's insertion loop reproduces the list as it stands.
pub open spec fn bag_framing(l: Seq<(Seq<char>, PropertyV)>) -> bool
    decreases l, 2int,
{
    if l.len() == 0 {
        true
    } else {
        &&& self_framing(l[0].1)
        &&& (forall|j: int| 1 <= j < l.len() ==> (#[trigger] l[j]).0 != l[0].0)
        &&& bag_framing(l.subrange(1, l.len() as int))
    }
}

/// Inserting a name absent from a bag appends the pair.
pub proof fn lemma_ventries_insert_fresh(
    l: Seq<(Seq<char>, PropertyV)>,
    name: Seq<char>,
    value: PropertyV,
)
    requires
        forall|i: int| 0 <= i < l.len() ==> (#[trigger] l[i]).0 != name,
    ensures
        ventries_insert(l, name, value) == l.push((name, value)),
    decreases l.len(),
{
    if l.len() == 0 {
        assert(ventries_insert(l, name, value) =~= l.push((name, value)));
    } else {
        let rest = l.subrange(1, l.len() as int);
        assert(forall|i: int| 0 <= i < rest.len() ==> (#[trigger] rest[i]).0 != name);
        lemma_ventries_insert_fresh(rest, name, value);
        assert(ventries_insert(l, name, value) =~= l.push((name, value)));
    }
}

/// Folding pairs whose names are fresh for the bag and for one another
/// appends them all in order.
pub proof fn lemma_ventries_insert_all_framed(
    acc: Seq<(Seq<char>, PropertyV)>,
    l: Seq<(Seq<char>, PropertyV)>,
)
    requires
        bag_framing(l),
        forall|i: int, k: int|
            0 <= i < l.len() && 0 <= k < acc.len() ==> (#[trigger] l[i]).0 != (
            #[trigger] acc[k]).0,
    ensures
        ventries_insert_all(acc, l) == acc + l,
    decreases l.len(),
{
    if l.len() == 0 {
        assert(ventries_insert_all(acc, l) =~= acc + l);
    } else {
        let rest = l.subrange(1, l.len() as int);
        assert(forall|i: int| 0 <= i < l.len() ==> l[i].0 == (#[trigger] l[i]).0);
        lemma_ventries_insert_fresh(acc, l[0].0, l[0].1);
        let acc2 = acc.push(l[0]);
        assert(acc2 =~= acc.push((l[0].0, l[0].1)));
        assert(forall|i: int, k: int|
            0 <= i < rest.len() && 0 <= k < acc2.len() ==> (#[trigger] rest[i]).0 != (
            #[trigger] acc2[k]).0) by {
            assert(forall|i: int| 0 <= i < rest.len() ==> (#[trigger] rest[i]) == l[i + 1]);
        }
        lemma_ventries_insert_all_framed(acc2, rest);
        assert(ventries_insert_all(acc, l) == ventries_insert_all(acc2, rest));
        assert(acc2 + rest =~= acc + l);
    }
}

/// LAW (simple element round trip): a scalar, string or enum body written
/// without a header decodes back to exactly the value written, whatever
/// suggested length, hints and path surround it.
pub proof fn lemma_simple_parse_ser(
    b: Seq<u8>,
    h: Seq<(String, String)>,
    stk: Seq<Seq<char>>,
    p: int,
    pv: PropertyV,
    sug: Option<u64>,
)
    requires
        is_simple(pv),
        !(pv is UnknownProperty),
        prop_serializable(pv, false),
        crate::bytes_at(b, p, ser_property(pv, false)),
    ensures
        prop_parse(b, h, stk, p, tag_of(pv), false, sug) == Some(
            (pv, p + ser_property(pv, false).len()),
        ),
{
    lemma_tags_distinct();
    let tag = tag_of(pv);
    match pv {
        PropertyV::StrProperty { value } => {
            crate::string_codec::lemma_parse_ser_string(value, b, p);
        },
        PropertyV::EnumProperty { enum_type, value } => {
            crate::lemma_bytes_at_split(b, p, ser_string(enum_type), ser_string(value));
            crate::string_codec::lemma_parse_ser_string(enum_type, b, p);
            crate::string_codec::lemma_parse_ser_string(value, b, p + ser_string(enum_type).len());
        },
        PropertyV::StructProperty { .. } => {
            assert(false);
        },
        PropertyV::ArrayProperty { .. } => {
            assert(false);
        },
        PropertyV::SetProperty { .. } => {
            assert(false);
        },
        PropertyV::MapProperty { .. } => {
            assert(false);
        },
        PropertyV::UnknownProperty { .. } => {
            assert(false);
        },
        _ => {
            lemma_scalar_parse_ser(pv, b, p);
        },
    }
}


/// The suggested element length an array decode at `p` hands its
/// elements: the even split of the remaining declared bytes.
pub open spec fn array_parse_sug(b: Seq<u8>, p: int, count: int) -> u64 {
    let len_field = spec_u64_from_le_bytes(b.subrange(p, p + 8));
    if count > 0 && len_field >= 4 {
        (((len_field as int) - 4) / count) as u64
    } else {
        0u64
    }
}

/// The suggested element length a set decode at `p` hands its elements.
pub open spec fn set_parse_sug(b: Seq<u8>, p: int, count: int) -> u64 {
    let len_field = spec_u64_from_le_bytes(b.subrange(p, p + 8));
    if count > 0 && len_field >= 8 {
        (((len_field as int) - 8) / count) as u64
    } else {
        0u64
    }
}

/// LAW (container element round trip): writing simple elements body after
/// body and decoding them back under any suggested length yields the
/// elements unchanged.
pub proof fn lemma_elems_parse_ser(
    b: Seq<u8>,
    h: Seq<(String, String)>,
    stk: Seq<Seq<char>>,
    p: int,
    l: Seq<PropertyV>,
    tag: Seq<char>,
    sug: u64,
)
    requires
        simple_elem_tag(tag),
        elems_serializable(l, tag),
        elems_not_opaque(l),
        crate::bytes_at(b, p, ser_props(l, false)),
    ensures
        elems_parse(b, h, stk, p, tag, l.len(), sug) == Some((l, p + ser_props(l, false).len())),
    decreases l.len(),
{
    if l.len() == 0 {
        assert(ser_props(l, false) =~= Seq::<u8>::empty());
        assert(elems_parse(b, h, stk, p, tag, 0, sug) == Some((Seq::<PropertyV>::empty(), p)));
        assert(l =~= Seq::<PropertyV>::empty());
    } else {
        let rest = l.subrange(1, l.len() as int);
        crate::lemma_bytes_at_split(b, p, ser_property(l[0], false), ser_props(rest, false));
        assert(is_simple(l[0])) by {
            lemma_tags_distinct();
        }
        lemma_simple_parse_ser(b, h, stk.push(tag), p, l[0], Some(sug));
        let e = p + ser_property(l[0], false).len();
        lemma_elems_parse_ser(b, h, stk, e, rest, tag, sug);
        assert(elems_parse(b, h, stk, p, tag, l.len(), sug) == Some(
            (seq![l[0]] + rest, p + ser_props(l, false).len()),
        ));
        assert(seq![l[0]] + rest =~= l);
    }
}

/// LAW (map entry round trip): writing simple key and value bodies pair
/// after pair and decoding them back yields the pairs unchanged.
pub proof fn lemma_pairs_parse_ser(
    b: Seq<u8>,
    h: Seq<(String, String)>,
    stk: Seq<Seq<char>>,
    p: int,
    l: Seq<(PropertyV, PropertyV)>,
    ktag: Seq<char>,
    vtag: Seq<char>,
)
    requires
        simple_elem_tag(ktag),
        simple_elem_tag(vtag),
        pairs_serializable(l, ktag, vtag),
        pairs_not_opaque(l),
        crate::bytes_at(b, p, ser_pairs(l)),
    ensures
        pairs_parse(b, h, stk, p, ktag, vtag, l.len()) == Some((l, p + ser_pairs(l).len())),
    decreases l.len(),
{
    if l.len() == 0 {
        assert(ser_pairs(l) =~= Seq::<u8>::empty());
        assert(l =~= Seq::<(PropertyV, PropertyV)>::empty());
    } else {
        let rest = l.subrange(1, l.len() as int);
        let sk = ser_property(l[0].0, false);
        let sv = ser_property(l[0].1, false);
        assert(ser_pairs(l) =~= sk + (sv + ser_pairs(rest)));
        crate::lemma_bytes_at_split(b, p, sk, sv + ser_pairs(rest));
        crate::lemma_bytes_at_split(b, p + sk.len(), sv, ser_pairs(rest));
        assert(is_simple(l[0].0) && is_simple(l[0].1)) by {
            lemma_tags_distinct();
        }
        lemma_simple_parse_ser(b, h, stk.push("Key"@).push(ktag), p, l[0].0, None);
        lemma_simple_parse_ser(b, h, stk.push("Value"@).push(vtag), p + sk.len(), l[0].1, None);
        lemma_pairs_parse_ser(b, h, stk, p + sk.len() + sv.len(), rest, ktag, vtag);
        assert(pairs_parse(b, h, stk, p, ktag, vtag, l.len()) == Some(
            (seq![(l[0].0, l[0].1)] + rest, p + ser_pairs(l).len()),
        ));
        assert(seq![(l[0].0, l[0].1)] + rest =~= l);
    }
}

/// The fixed-layout struct type names are pairwise distinct.
proof fn lemma_struct_names_distinct()
    ensures
        "Vector"@ != "Rotator"@,
        "Vector"@ != "Quat"@,
        "Vector"@ != "DateTime"@,
        "Vector"@ != "IntPoint"@,
        "Vector"@ != "Guid"@,
        "Rotator"@ != "Quat"@,
        "Rotator"@ != "DateTime"@,
        "Rotator"@ != "IntPoint"@,
        "Rotator"@ != "Guid"@,
        "Quat"@ != "DateTime"@,
        "Quat"@ != "IntPoint"@,
        "Quat"@ != "Guid"@,
        "DateTime"@ != "IntPoint"@,
        "DateTime"@ != "Guid"@,
        "IntPoint"@ != "Guid"@,
{
    reveal_strlit("Vector");
    reveal_strlit("Rotator");
    reveal_strlit("Quat");
    reveal_strlit("DateTime");
    reveal_strlit("IntPoint");
    reveal_strlit("Guid");
    assert("Vector"@.len() == 6);
    assert("Rotator"@.len() == 7);
    assert("Quat"@.len() == 4);
    assert("DateTime"@.len() == 8);
    assert("IntPoint"@.len() == 8);
    assert("Guid"@.len() == 4);
    assert("DateTime"@[0] == 'D');
    assert("IntPoint"@[0] == 'I');
    assert("Quat"@[0] == 'Q');
    assert("Guid"@[0] == 'G');
}

/// LAW (struct body round trip): a struct payload written without its
/// header decodes back, under the type name that selected its layout, to
/// exactly the payload written.
#[verifier::rlimit(100)]
#[verifier::spinoff_prover]
pub proof fn lemma_struct_body_parse_ser(
    b: Seq<u8>,
    h: Seq<(String, String)>,
    stk: Seq<Seq<char>>,
    p: int,
    stype: Seq<char>,
    v: StructValueV,
)
    requires
        struct_value_matches(stype, v),
        0 <= p,
        match v {
            StructValueV::CustomStruct(entries) => entries_serializable(entries) && bag_framing(
                entries,
            ),
            _ => true,
        },
        crate::bytes_at(
            b,
            p,
            ser_property(
                PropertyV::StructProperty { struct_type: stype, guid: Guid(0, 0), value: v },
                false,
            ),
        ),
    ensures
        struct_body_parse(b, h, stk, p, stype) == Some(
            (
                v,
                p + ser_property(
                    PropertyV::StructProperty { struct_type: stype, guid: Guid(0, 0), value: v },
                    false,
                ).len(),
            ),
        ),
    decreases v, 7int,
{
    lemma_auto_spec_u32_to_from_le_bytes();
    lemma_auto_spec_u64_to_from_le_bytes();
    lemma_struct_names_distinct();
    let body = ser_property(
        PropertyV::StructProperty { struct_type: stype, guid: Guid(0, 0), value: v },
        false,
    );
    match v {
        StructValueV::Vector(w) => {
            assert(body =~= spec_u32_to_le_bytes(w.x) + (spec_u32_to_le_bytes(w.y)
                + spec_u32_to_le_bytes(w.z)));
            crate::lemma_bytes_at_split(
                b,
                p,
                spec_u32_to_le_bytes(w.x),
                spec_u32_to_le_bytes(w.y) + spec_u32_to_le_bytes(w.z),
            );
            crate::lemma_bytes_at_split(
                b,
                p + 4,
                spec_u32_to_le_bytes(w.y),
                spec_u32_to_le_bytes(w.z),
            );
            assert(b.subrange(p, p + 4) == spec_u32_to_le_bytes(w.x));
            assert(b.subrange(p + 4, p + 8) =~= b.subrange(p + 4, p + 4 + 4));
            assert(b.subrange(p + 8, p + 12) =~= b.subrange(p + 8, p + 8 + 4));
            assert(struct_body_parse(b, h, stk, p, stype) == Some((v, p + 12)));
            assert(body.len() == 12);
        },
        StructValueV::Rotator(w) => {
            assert(body =~= spec_u32_to_le_bytes(w.pitch) + (spec_u32_to_le_bytes(w.yaw)
                + spec_u32_to_le_bytes(w.roll)));
            crate::lemma_bytes_at_split(
                b,
                p,
                spec_u32_to_le_bytes(w.pitch),
                spec_u32_to_le_bytes(w.yaw) + spec_u32_to_le_bytes(w.roll),
            );
            crate::lemma_bytes_at_split(
                b,
                p + 4,
                spec_u32_to_le_bytes(w.yaw),
                spec_u32_to_le_bytes(w.roll),
            );
            assert(b.subrange(p, p + 4) == spec_u32_to_le_bytes(w.pitch));
            assert(b.subrange(p + 4, p + 8) =~= b.subrange(p + 4, p + 4 + 4));
            assert(b.subrange(p + 8, p + 12) =~= b.subrange(p + 8, p + 8 + 4));
            assert(stype != "Vector"@);
            assert(p + 12 <= b.len());
            assert(spec_u32_from_le_bytes(b.subrange(p, p + 4)) == w.pitch);
            assert(spec_u32_from_le_bytes(b.subrange(p + 4, p + 8)) == w.yaw);
            assert(spec_u32_from_le_bytes(b.subrange(p + 8, p + 12)) == w.roll);
            assert((Rotator {
                pitch: spec_u32_from_le_bytes(b.subrange(p, p + 4)),
                yaw: spec_u32_from_le_bytes(b.subrange(p + 4, p + 8)),
                roll: spec_u32_from_le_bytes(b.subrange(p + 8, p + 12)),
            }) == w);
            assert(struct_body_parse(b, h, stk, p, stype) == Some((v, p + 12)));
            assert(body.len() == 12);
        },
        StructValueV::Quat(w) => {
            assert(body =~= spec_u32_to_le_bytes(w.x) + (spec_u32_to_le_bytes(w.y) + (
            spec_u32_to_le_bytes(w.z) + spec_u32_to_le_bytes(w.w))));
            crate::lemma_bytes_at_split(
                b,
                p,
                spec_u32_to_le_bytes(w.x),
                spec_u32_to_le_bytes(w.y) + (spec_u32_to_le_bytes(w.z) + spec_u32_to_le_bytes(
                    w.w,
                )),
            );
            crate::lemma_bytes_at_split(
                b,
                p + 4,
                spec_u32_to_le_bytes(w.y),
                spec_u32_to_le_bytes(w.z) + spec_u32_to_le_bytes(w.w),
            );
            crate::lemma_bytes_at_split(
                b,
                p + 8,
                spec_u32_to_le_bytes(w.z),
                spec_u32_to_le_bytes(w.w),
            );
            assert(b.subrange(p, p + 4) == spec_u32_to_le_bytes(w.x));
            assert(b.subrange(p + 4, p + 8) =~= b.subrange(p + 4, p + 4 + 4));
            assert(b.subrange(p + 8, p + 12) =~= b.subrange(p + 8, p + 8 + 4));
            assert(b.subrange(p + 12, p + 16) =~= b.subrange(p + 12, p + 12 + 4));
            assert(struct_body_parse(b, h, stk, p, stype) == Some((v, p + 16)));
            assert(body.len() == 16);
        },
        StructValueV::DateTime(w) => {
            assert(body =~= spec_u64_to_le_bytes(w.ticks));
            assert(b.subrange(p, p + 8) == spec_u64_to_le_bytes(w.ticks));
            assert(struct_body_parse(b, h, stk, p, stype) == Some((v, p + 8)));
            assert(body.len() == 8);
        },
        StructValueV::IntPoint(w) => {
            assert(body =~= spec_i32_to_le_bytes(w.x) + spec_i32_to_le_bytes(w.y));
            crate::lemma_bytes_at_split(b, p, spec_i32_to_le_bytes(w.x), spec_i32_to_le_bytes(w.y));
            assert(b.subrange(p, p + 4) == spec_i32_to_le_bytes(w.x));
            assert(b.subrange(p + 4, p + 8) =~= b.subrange(p + 4, p + 4 + 4));
            crate::cursor_ext::lemma_i32_repr_roundtrip(w.x);
            crate::cursor_ext::lemma_i32_repr_roundtrip(w.y);
            assert(struct_body_parse(b, h, stk, p, stype) == Some((v, p + 8)));
            assert(body.len() == 8);
        },
        StructValueV::Guid(g) => {
            assert(body =~= spec_u64_to_le_bytes(g.0) + spec_u64_to_le_bytes(g.1));
            crate::lemma_bytes_at_split(b, p, spec_u64_to_le_bytes(g.0), spec_u64_to_le_bytes(g.1));
            assert(b.subrange(p, p + 8) == spec_u64_to_le_bytes(g.0));
            assert(b.subrange(p + 8, p + 16) =~= b.subrange(p + 8, p + 8 + 8));
            assert(struct_body_parse(b, h, stk, p, stype) == Some((v, p + 16)));
            assert(body.len() == 16);
        },
        StructValueV::CustomStruct(entries) => {
            assert(body =~= ser_prop_entries(entries) + ser_string("None"@));
            lemma_bag_parse_ser(b, h, stk, p, entries);
            lemma_ventries_insert_all_framed(Seq::empty(), entries);
            assert(Seq::<(Seq<char>, PropertyV)>::empty() + entries =~= entries);
            assert(ventries_insert_all(Seq::empty(), entries) == entries);
            assert(!fixed_struct_name(stype));
            assert(struct_body_parse(b, h, stk, p, stype) == Some((v, p + body.len())));
        },
    }
}

/// LAW (shared-identity element round trip): struct bodies written one
/// after the other decode back, under the array's shared type name, to
/// exactly the elements written.
pub proof fn lemma_struct_elems_parse_ser(
    b: Seq<u8>,
    h: Seq<(String, String)>,
    stk: Seq<Seq<char>>,
    p: int,
    l: Seq<PropertyV>,
    sname: Seq<char>,
)
    requires
        0 <= p,
        structs_serializable(l),
        struct_elems_framing(l, sname),
        crate::bytes_at(b, p, ser_props(l, false)),
    ensures
        struct_elems_parse(b, h, stk, p, sname, l.len()) == Some(
            (l, p + ser_props(l, false).len()),
        ),
    decreases l, 6int,
{
    if l.len() == 0 {
        assert(ser_props(l, false) =~= Seq::<u8>::empty());
        assert(l =~= Seq::<PropertyV>::empty());
    } else {
        let rest = l.subrange(1, l.len() as int);
        crate::lemma_bytes_at_split(b, p, ser_property(l[0], false), ser_props(rest, false));
        match l[0] {
            PropertyV::StructProperty { struct_type, guid, value } => {
                assert(struct_type == sname && guid == Guid(0, 0));
                assert(self_framing(l[0]));
                assert(struct_value_matches(sname, value));
                assert(prop_serializable(l[0], false));
                assert(ser_property(l[0], false) == ser_property(
                    PropertyV::StructProperty {
                        struct_type: sname,
                        guid: Guid(0, 0),
                        value,
                    },
                    false,
                ));
                lemma_struct_body_parse_ser(b, h, stk, p, sname, value);
                let e = p + ser_property(l[0], false).len();
                lemma_struct_elems_parse_ser(b, h, stk, e, rest, sname);
                assert(struct_elems_parse(b, h, stk, p, sname, l.len()) == Some(
                    (seq![l[0]] + rest, p + ser_props(l, false).len()),
                ));
                assert(seq![l[0]] + rest =~= l);
            },
            _ => {
                assert(false);
            },
        }
    }
}

/// LAW (property bag round trip): a name-to-property list written entry
/// after entry and closed with the sentinel decodes back to exactly the
/// raw pairs written, ending just past the sentinel name.
#[verifier::rlimit(100)]
#[verifier::spinoff_prover]
pub proof fn lemma_bag_parse_ser(
    b: Seq<u8>,
    h: Seq<(String, String)>,
    stk: Seq<Seq<char>>,
    p: int,
    entries: Seq<(Seq<char>, PropertyV)>,
)
    requires
        0 <= p,
        entries_serializable(entries),
        bag_framing(entries),
        crate::bytes_at(b, p, ser_prop_entries(entries) + ser_string("None"@)),
    ensures
        bag_parse(b, h, stk, p) == Some(
            (entries, p + ser_prop_entries(entries).len() + ser_string("None"@).len()),
        ),
    decreases entries, 5int,
{
    lemma_tags_serializable();
    if entries.len() == 0 {
        assert(ser_prop_entries(entries) =~= Seq::<u8>::empty());
        assert(Seq::<u8>::empty() + ser_string("None"@) =~= ser_string("None"@));
        crate::string_codec::lemma_parse_ser_string("None"@, b, p);
        assert(entries =~= Seq::<(Seq<char>, PropertyV)>::empty());
    } else {
        let rest = entries.subrange(1, entries.len() as int);
        let name = entries[0].0;
        let v = entries[0].1;
        let sn = ser_string(name);
        let sp = ser_property(v, true);
        assert(ser_prop_entries(entries) + ser_string("None"@) =~= sn + (sp + (ser_prop_entries(
            rest,
        ) + ser_string("None"@))));
        crate::lemma_bytes_at_split(b, p, sn, sp + (ser_prop_entries(rest) + ser_string("None"@)));
        crate::lemma_bytes_at_split(
            b,
            p + sn.len(),
            sp,
            ser_prop_entries(rest) + ser_string("None"@),
        );
        crate::string_codec::lemma_parse_ser_string(name, b, p);
        let q1 = p + sn.len();
        lemma_prop_parse_ser(b, h, stk.push(name).push(tag_of(v)), q1, v);
        let q2 = q1 + ser_string(tag_of(v)).len();
        let e = q1 + sp.len();
        assert(name != "None"@);
        assert(stk.push(name).push(tag_of(v)) =~= stk.push(str_parse_val(b, p)).push(
            str_parse_val(b, q1),
        ));
        assert(prop_parse(
            b,
            h,
            stk.push(str_parse_val(b, p)).push(str_parse_val(b, q1)),
            q2,
            str_parse_val(b, q1),
            true,
            None,
        ) == Some((v, e)));
        lemma_bag_parse_ser(b, h, stk, e, rest);
        assert(bag_parse(b, h, stk, p) == Some(
            (
                seq![(name, v)] + rest,
                p + ser_prop_entries(entries).len() + ser_string("None"@).len(),
            ),
        ));
        assert(seq![(name, v)] + rest =~= entries);
    }
}


/// The headered round trip for a scalar, string or enum property.
#[verifier::rlimit(100)]
#[verifier::spinoff_prover]
proof fn lemma_prop_parse_ser_simple(
    b: Seq<u8>,
    h: Seq<(String, String)>,
    stk: Seq<Seq<char>>,
    p: int,
    pv: PropertyV,
)
    requires
        0 <= p,
        is_simple(pv),
        !(pv is UnknownProperty),
        prop_serializable(pv, true),
        crate::bytes_at(b, p, ser_property(pv, true)),
    ensures
        str_parse_ok(b, p),
        str_parse_val(b, p) == tag_of(pv),
        str_parse_len(b, p) == ser_string(tag_of(pv)).len(),
        prop_parse(b, h, stk, p + ser_string(tag_of(pv)).len(), tag_of(pv), true, None) == Some(
            (pv, p + ser_property(pv, true).len()),
        ),
{
    lemma_tags_distinct();
    lemma_tags_serializable();
    lemma_auto_spec_u64_to_from_le_bytes();
    let tag = tag_of(pv);
    let s1 = ser_string(tag);
    let s2 = spec_u64_to_le_bytes(simple_body(pv).len() as u64);
    let s4 = seq![0u8];
    let s5 = simple_body(pv);
    assert(ser_property(pv, true) =~= s1 + (s2 + (s4 + s5)));
    crate::lemma_bytes_at_split(b, p, s1, s2 + (s4 + s5));
    crate::string_codec::lemma_parse_ser_string(tag, b, p);
    let t0 = p + s1.len();
    crate::lemma_bytes_at_split(b, t0, s2, s4 + s5);
    crate::lemma_bytes_at_split(b, t0 + 8, s4, s5);
    assert(s5 == ser_property(pv, false));
    if is_scalar_tag(tag) {
        lemma_scalar_parse_ser(pv, b, t0 + 9);
    } else if tag == "StrProperty"@ {
        match pv {
            PropertyV::StrProperty { value } => {
                crate::string_codec::lemma_parse_ser_string(value, b, t0 + 9);
            },
            _ => {
                assert(false);
            },
        }
    } else {
        match pv {
            PropertyV::EnumProperty { enum_type, value } => {
                crate::lemma_bytes_at_split(b, t0 + 9, ser_string(enum_type), ser_string(value));
                crate::string_codec::lemma_parse_ser_string(enum_type, b, t0 + 9);
                crate::string_codec::lemma_parse_ser_string(
                    value,
                    b,
                    t0 + 9 + ser_string(enum_type).len(),
                );
            },
            _ => {
                assert(false);
            },
        }
    }
    assert(prop_parse(b, h, stk, t0, tag, true, None) == Some(
        (pv, p + ser_property(pv, true).len()),
    ));
}

/// The headered round trip for an opaque property.
#[verifier::rlimit(100)]
#[verifier::spinoff_prover]
proof fn lemma_prop_parse_ser_unknown(
    b: Seq<u8>,
    h: Seq<(String, String)>,
    stk: Seq<Seq<char>>,
    p: int,
    pv: PropertyV,
)
    requires
        0 <= p,
        pv is UnknownProperty,
        prop_serializable(pv, true),
        self_framing(pv),
        crate::bytes_at(b, p, ser_property(pv, true)),
    ensures
        str_parse_ok(b, p),
        str_parse_val(b, p) == tag_of(pv),
        str_parse_len(b, p) == ser_string(tag_of(pv)).len(),
        prop_parse(b, h, stk, p + ser_string(tag_of(pv)).len(), tag_of(pv), true, None) == Some(
            (pv, p + ser_property(pv, true).len()),
        ),
{
    lemma_tags_distinct();
    lemma_auto_spec_u64_to_from_le_bytes();
    match pv {
        PropertyV::UnknownProperty { property_type, value } => {
            let s1 = ser_string(property_type);
            let s2 = spec_u64_to_le_bytes(value.len() as u64);
            let s4 = seq![0u8];
            assert(ser_property(pv, true) =~= s1 + (s2 + (s4 + value)));
            crate::lemma_bytes_at_split(b, p, s1, s2 + (s4 + value));
            crate::string_codec::lemma_parse_ser_string(property_type, b, p);
            let t0 = p + s1.len();
            crate::lemma_bytes_at_split(b, t0, s2, s4 + value);
            crate::lemma_bytes_at_split(b, t0 + 8, s4, value);
            assert(b.subrange(t0, t0 + 8) == spec_u64_to_le_bytes(value.len() as u64));
            assert(b.subrange(t0 + 9, t0 + 9 + value.len()) =~= value);
            assert(!recognized_tag(property_type));
            assert(prop_parse(b, h, stk, t0, tag_of(pv), true, None) == Some(
                (pv, p + ser_property(pv, true).len()),
            ));
        },
        _ => {
            assert(false);
        },
    }
}

/// The headered round trip for a struct property.
#[verifier::rlimit(100)]
#[verifier::spinoff_prover]
proof fn lemma_prop_parse_ser_struct(
    b: Seq<u8>,
    h: Seq<(String, String)>,
    stk: Seq<Seq<char>>,
    p: int,
    pv: PropertyV,
)
    requires
        0 <= p,
        pv is StructProperty,
        prop_serializable(pv, true),
        self_framing(pv),
        crate::bytes_at(b, p, ser_property(pv, true)),
    ensures
        str_parse_ok(b, p),
        str_parse_val(b, p) == tag_of(pv),
        str_parse_len(b, p) == ser_string(tag_of(pv)).len(),
        prop_parse(b, h, stk, p + ser_string(tag_of(pv)).len(), tag_of(pv), true, None) == Some(
            (pv, p + ser_property(pv, true).len()),
        ),
    decreases pv, 8int,
{
    lemma_tags_distinct();
    lemma_tags_serializable();
    lemma_auto_spec_u64_to_from_le_bytes();
    match pv {
        PropertyV::StructProperty { struct_type, guid, value } => {
            let s1 = ser_string("StructProperty"@);
            let s2 = spec_u64_to_le_bytes(ser_property(pv, false).len() as u64);
            let s3 = ser_string(struct_type);
            let s5 = seq![0u8];
            let s6 = ser_property(pv, false);
            assert(ser_property(pv, true) =~= s1 + (s2 + (s3 + (spec_u64_to_le_bytes(guid.0) + (
            spec_u64_to_le_bytes(guid.1) + (s5 + s6))))));
            crate::lemma_bytes_at_split(b, p, s1, s2 + (s3 + (spec_u64_to_le_bytes(guid.0) + (
            spec_u64_to_le_bytes(guid.1) + (s5 + s6)))));
            crate::string_codec::lemma_parse_ser_string("StructProperty"@, b, p);
            let t0 = p + s1.len();
            crate::lemma_bytes_at_split(b, t0, s2, s3 + (spec_u64_to_le_bytes(guid.0) + (
            spec_u64_to_le_bytes(guid.1) + (s5 + s6))));
            crate::lemma_bytes_at_split(b, t0 + 8, s3, spec_u64_to_le_bytes(guid.0) + (
            spec_u64_to_le_bytes(guid.1) + (s5 + s6)));
            crate::string_codec::lemma_parse_ser_string(struct_type, b, t0 + 8);
            let q1 = t0 + 8 + s3.len();
            crate::lemma_bytes_at_split(b, q1, spec_u64_to_le_bytes(guid.0), spec_u64_to_le_bytes(
                guid.1,
            ) + (s5 + s6));
            crate::lemma_bytes_at_split(b, q1 + 8, spec_u64_to_le_bytes(guid.1), s5 + s6);
            crate::lemma_bytes_at_split(b, q1 + 16, s5, s6);
            assert(b.subrange(q1, q1 + 8) == spec_u64_to_le_bytes(guid.0));
            assert(b.subrange(q1 + 8, q1 + 16) =~= b.subrange(q1 + 8, q1 + 8 + 8));
            assert(ser_property(pv, false) == ser_property(
                PropertyV::StructProperty { struct_type, guid: Guid(0, 0), value },
                false,
            ));
            lemma_struct_body_parse_ser(b, h, stk, q1 + 17, struct_type, value);
            assert(struct_hdr_parse(b, h, stk, t0) == Some(
                (pv, p + ser_property(pv, true).len()),
            ));
            assert(prop_parse(b, h, stk, t0, tag_of(pv), true, None) == Some(
                (pv, p + ser_property(pv, true).len()),
            ));
        },
        _ => {
            assert(false);
        },
    }
}

/// The headered round trip for an array property.
#[verifier::rlimit(100)]
#[verifier::spinoff_prover]
proof fn lemma_prop_parse_ser_array(
    b: Seq<u8>,
    h: Seq<(String, String)>,
    stk: Seq<Seq<char>>,
    p: int,
    pv: PropertyV,
)
    requires
        0 <= p,
        pv is ArrayProperty,
        prop_serializable(pv, true),
        self_framing(pv),
        crate::bytes_at(b, p, ser_property(pv, true)),
    ensures
        str_parse_ok(b, p),
        str_parse_val(b, p) == tag_of(pv),
        str_parse_len(b, p) == ser_string(tag_of(pv)).len(),
        prop_parse(b, h, stk, p + ser_string(tag_of(pv)).len(), tag_of(pv), true, None) == Some(
            (pv, p + ser_property(pv, true).len()),
        ),
    decreases pv, 8int,
{
    lemma_tags_distinct();
    lemma_tags_serializable();
    lemma_auto_spec_u32_to_from_le_bytes();
    lemma_auto_spec_u64_to_from_le_bytes();
    match pv {
        PropertyV::ArrayProperty { property_type, properties, info } => {
            let inner = if property_type == "StructProperty"@ {
                ser_struct_identity(info->0, ser_props(properties, false))
            } else {
                ser_props(properties, false)
            };
            let s1 = ser_string("ArrayProperty"@);
            let s2 = spec_u64_to_le_bytes((4 + inner.len()) as u64);
            let s3 = ser_string(property_type);
            let s4 = seq![0u8];
            let s5 = spec_i32_to_le_bytes(properties.len() as i32);
            assert(ser_property(pv, true) =~= s1 + (s2 + (s3 + (s4 + (s5 + inner)))));
            crate::lemma_bytes_at_split(b, p, s1, s2 + (s3 + (s4 + (s5 + inner))));
            crate::string_codec::lemma_parse_ser_string("ArrayProperty"@, b, p);
            let t0 = p + s1.len();
            crate::lemma_bytes_at_split(b, t0, s2, s3 + (s4 + (s5 + inner)));
            crate::lemma_bytes_at_split(b, t0 + 8, s3, s4 + (s5 + inner));
            crate::string_codec::lemma_parse_ser_string(property_type, b, t0 + 8);
            let q1 = t0 + 8 + s3.len();
            crate::lemma_bytes_at_split(b, q1, s4, s5 + inner);
            crate::lemma_bytes_at_split(b, q1 + 1, s5, inner);
            let cnt: i32 = properties.len() as i32;
            assert(b.subrange(q1 + 1, q1 + 5) =~= b.subrange(q1 + 1, q1 + 1 + 4));
            assert(b.subrange(q1 + 1, q1 + 1 + 4) == spec_i32_to_le_bytes(cnt));
            crate::cursor_ext::lemma_i32_repr_roundtrip(cnt);
            let q2 = q1 + 5;
            if property_type == "StructProperty"@ {
                let inf = info->0;
                let bodies = ser_props(properties, false);
                let t1 = ser_string(inf.field_name);
                let t2 = ser_string("StructProperty"@);
                let t3 = spec_u64_to_le_bytes(
                    (25 + ser_string(inf.struct_name).len() + bodies.len()) as u64,
                );
                let t4 = ser_string(inf.struct_name);
                let t5 = seq![0u8];
                assert(inner =~= t1 + (t2 + (t3 + (t4 + (spec_u64_to_le_bytes(inf.guid.0) + (
                spec_u64_to_le_bytes(inf.guid.1) + (t5 + bodies)))))));
                crate::lemma_bytes_at_split(b, q2, t1, t2 + (t3 + (t4 + (spec_u64_to_le_bytes(
                    inf.guid.0,
                ) + (spec_u64_to_le_bytes(inf.guid.1) + (t5 + bodies))))));
                crate::string_codec::lemma_parse_ser_string(inf.field_name, b, q2);
                let q3 = q2 + t1.len();
                crate::lemma_bytes_at_split(b, q3, t2, t3 + (t4 + (spec_u64_to_le_bytes(
                    inf.guid.0,
                ) + (spec_u64_to_le_bytes(inf.guid.1) + (t5 + bodies)))));
                crate::string_codec::lemma_parse_ser_string("StructProperty"@, b, q3);
                let q4 = q3 + t2.len();
                crate::lemma_bytes_at_split(b, q4, t3, t4 + (spec_u64_to_le_bytes(inf.guid.0) + (
                spec_u64_to_le_bytes(inf.guid.1) + (t5 + bodies))));
                crate::lemma_bytes_at_split(b, q4 + 8, t4, spec_u64_to_le_bytes(inf.guid.0) + (
                spec_u64_to_le_bytes(inf.guid.1) + (t5 + bodies)));
                crate::string_codec::lemma_parse_ser_string(inf.struct_name, b, q4 + 8);
                let q5 = q4 + 8 + t4.len();
                crate::lemma_bytes_at_split(
                    b,
                    q5,
                    spec_u64_to_le_bytes(inf.guid.0),
                    spec_u64_to_le_bytes(inf.guid.1) + (t5 + bodies),
                );
                crate::lemma_bytes_at_split(
                    b,
                    q5 + 8,
                    spec_u64_to_le_bytes(inf.guid.1),
                    t5 + bodies,
                );
                crate::lemma_bytes_at_split(b, q5 + 16, t5, bodies);
                assert(b.subrange(q5, q5 + 8) == spec_u64_to_le_bytes(inf.guid.0));
                assert(b.subrange(q5 + 8, q5 + 16) =~= b.subrange(q5 + 8, q5 + 8 + 8));
                lemma_struct_elems_parse_ser(b, h, stk, q5 + 17, properties, inf.struct_name);
                assert(info == Some(
                    ArrayStructInfoV {
                        field_name: inf.field_name,
                        struct_name: inf.struct_name,
                        guid: inf.guid,
                    },
                ));
                assert(array_parse(b, h, stk, t0) == Some(
                    (pv, p + ser_property(pv, true).len()),
                ));
            } else {
                lemma_elems_parse_ser(
                    b,
                    h,
                    stk,
                    q2,
                    properties,
                    property_type,
                    array_parse_sug(b, t0, properties.len() as int),
                );
                assert(info is None);
                assert(pv == (PropertyV::ArrayProperty {
                    property_type,
                    properties,
                    info: None,
                }));
                assert(array_parse(b, h, stk, t0) == Some(
                    (pv, p + ser_property(pv, true).len()),
                ));
            }
            assert(prop_parse(b, h, stk, t0, tag_of(pv), true, None) == Some(
                (pv, p + ser_property(pv, true).len()),
            ));
        },
        _ => {
            assert(false);
        },
    }
}

/// The headered round trip for a set property.
#[verifier::rlimit(100)]
#[verifier::spinoff_prover]
proof fn lemma_prop_parse_ser_set(
    b: Seq<u8>,
    h: Seq<(String, String)>,
    stk: Seq<Seq<char>>,
    p: int,
    pv: PropertyV,
)
    requires
        0 <= p,
        pv is SetProperty,
        prop_serializable(pv, true),
        self_framing(pv),
        crate::bytes_at(b, p, ser_property(pv, true)),
    ensures
        str_parse_ok(b, p),
        str_parse_val(b, p) == tag_of(pv),
        str_parse_len(b, p) == ser_string(tag_of(pv)).len(),
        prop_parse(b, h, stk, p + ser_string(tag_of(pv)).len(), tag_of(pv), true, None) == Some(
            (pv, p + ser_property(pv, true).len()),
        ),
{
    lemma_tags_distinct();
    lemma_tags_serializable();
    lemma_auto_spec_u32_to_from_le_bytes();
    lemma_auto_spec_u64_to_from_le_bytes();
    match pv {
        PropertyV::SetProperty { property_type, removed_count, properties } => {
            let bodies = ser_props(properties, false);
            let s1 = ser_string("SetProperty"@);
            let s2 = spec_u64_to_le_bytes((8 + bodies.len()) as u64);
            let s3 = ser_string(property_type);
            let s4 = seq![0u8];
            let s5 = spec_u32_to_le_bytes(removed_count);
            let s6 = spec_i32_to_le_bytes(properties.len() as i32);
            assert(ser_property(pv, true) =~= s1 + (s2 + (s3 + (s4 + (s5 + (s6 + bodies))))));
            crate::lemma_bytes_at_split(b, p, s1, s2 + (s3 + (s4 + (s5 + (s6 + bodies)))));
            crate::string_codec::lemma_parse_ser_string("SetProperty"@, b, p);
            let t0 = p + s1.len();
            crate::lemma_bytes_at_split(b, t0, s2, s3 + (s4 + (s5 + (s6 + bodies))));
            crate::lemma_bytes_at_split(b, t0 + 8, s3, s4 + (s5 + (s6 + bodies)));
            crate::string_codec::lemma_parse_ser_string(property_type, b, t0 + 8);
            let q1 = t0 + 8 + s3.len();
            crate::lemma_bytes_at_split(b, q1, s4, s5 + (s6 + bodies));
            crate::lemma_bytes_at_split(b, q1 + 1, s5, s6 + bodies);
            crate::lemma_bytes_at_split(b, q1 + 5, s6, bodies);
            let cnt: i32 = properties.len() as i32;
            assert(b.subrange(q1 + 1, q1 + 5) =~= b.subrange(q1 + 1, q1 + 1 + 4));
            assert(b.subrange(q1 + 1, q1 + 1 + 4) == spec_u32_to_le_bytes(removed_count));
            assert(b.subrange(q1 + 5, q1 + 9) =~= b.subrange(q1 + 5, q1 + 5 + 4));
            assert(b.subrange(q1 + 5, q1 + 5 + 4) == spec_i32_to_le_bytes(cnt));
            crate::cursor_ext::lemma_i32_repr_roundtrip(cnt);
            lemma_elems_parse_ser(
                b,
                h,
                stk,
                q1 + 9,
                properties,
                property_type,
                set_parse_sug(b, t0, properties.len() as int),
            );
            assert(set_parse(b, h, stk, t0) == Some((pv, p + ser_property(pv, true).len())));
            assert(prop_parse(b, h, stk, t0, tag_of(pv), true, None) == Some(
                (pv, p + ser_property(pv, true).len()),
            ));
        },
        _ => {
            assert(false);
        },
    }
}

/// The headered round trip for a map property.
#[verifier::rlimit(100)]
#[verifier::spinoff_prover]
proof fn lemma_prop_parse_ser_map(
    b: Seq<u8>,
    h: Seq<(String, String)>,
    stk: Seq<Seq<char>>,
    p: int,
    pv: PropertyV,
)
    requires
        0 <= p,
        pv is MapProperty,
        prop_serializable(pv, true),
        self_framing(pv),
        crate::bytes_at(b, p, ser_property(pv, true)),
    ensures
        str_parse_ok(b, p),
        str_parse_val(b, p) == tag_of(pv),
        str_parse_len(b, p) == ser_string(tag_of(pv)).len(),
        prop_parse(b, h, stk, p + ser_string(tag_of(pv)).len(), tag_of(pv), true, None) == Some(
            (pv, p + ser_property(pv, true).len()),
        ),
{
    lemma_tags_distinct();
    lemma_tags_serializable();
    lemma_auto_spec_u32_to_from_le_bytes();
    lemma_auto_spec_u64_to_from_le_bytes();
    match pv {
        PropertyV::MapProperty { key_type, value_type, allocation_flags, entries } => {
            let bodies = ser_pairs(entries);
            let s1 = ser_string("MapProperty"@);
            let s2 = spec_u64_to_le_bytes((8 + bodies.len()) as u64);
            let s3 = ser_string(key_type);
            let s3b = ser_string(value_type);
            let s4 = seq![0u8];
            let s5 = spec_u32_to_le_bytes(allocation_flags);
            let s6 = spec_i32_to_le_bytes(entries.len() as i32);
            assert(ser_property(pv, true) =~= s1 + (s2 + (s3 + (s3b + (s4 + (s5 + (s6
                + bodies)))))));
            crate::lemma_bytes_at_split(b, p, s1, s2 + (s3 + (s3b + (s4 + (s5 + (s6 + bodies))))));
            crate::string_codec::lemma_parse_ser_string("MapProperty"@, b, p);
            let t0 = p + s1.len();
            crate::lemma_bytes_at_split(b, t0, s2, s3 + (s3b + (s4 + (s5 + (s6 + bodies)))));
            crate::lemma_bytes_at_split(b, t0 + 8, s3, s3b + (s4 + (s5 + (s6 + bodies))));
            crate::string_codec::lemma_parse_ser_string(key_type, b, t0 + 8);
            let q1 = t0 + 8 + s3.len();
            crate::lemma_bytes_at_split(b, q1, s3b, s4 + (s5 + (s6 + bodies)));
            crate::string_codec::lemma_parse_ser_string(value_type, b, q1);
            let q2 = q1 + s3b.len();
            crate::lemma_bytes_at_split(b, q2, s4, s5 + (s6 + bodies));
            crate::lemma_bytes_at_split(b, q2 + 1, s5, s6 + bodies);
            crate::lemma_bytes_at_split(b, q2 + 5, s6, bodies);
            let cnt: i32 = entries.len() as i32;
            assert(b.subrange(q2 + 1, q2 + 5) =~= b.subrange(q2 + 1, q2 + 1 + 4));
            assert(b.subrange(q2 + 1, q2 + 1 + 4) == spec_u32_to_le_bytes(allocation_flags));
            assert(b.subrange(q2 + 5, q2 + 9) =~= b.subrange(q2 + 5, q2 + 5 + 4));
            assert(b.subrange(q2 + 5, q2 + 5 + 4) == spec_i32_to_le_bytes(cnt));
            crate::cursor_ext::lemma_i32_repr_roundtrip(cnt);
            lemma_pairs_parse_ser(b, h, stk, q2 + 9, entries, key_type, value_type);
            assert(map_parse(b, h, stk, t0) == Some((pv, p + ser_property(pv, true).len())));
            assert(prop_parse(b, h, stk, t0, tag_of(pv), true, None) == Some(
                (pv, p + ser_property(pv, true).len()),
            ));
        },
        _ => {
            assert(false);
        },
    }
}

/// LAW (property round trip): a property written with its self-describing
/// header decodes back — the tag string first, then the dispatched value —
/// to exactly the property written, whenever its encoded form carries
/// everything decode needs ([`self_framing`]).
pub proof fn lemma_prop_parse_ser(
    b: Seq<u8>,
    h: Seq<(String, String)>,
    stk: Seq<Seq<char>>,
    p: int,
    pv: PropertyV,
)
    requires
        0 <= p,
        prop_serializable(pv, true),
        self_framing(pv),
        crate::bytes_at(b, p, ser_property(pv, true)),
    ensures
        str_parse_ok(b, p),
        str_parse_val(b, p) == tag_of(pv),
        str_parse_len(b, p) == ser_string(tag_of(pv)).len(),
        prop_parse(b, h, stk, p + ser_string(tag_of(pv)).len(), tag_of(pv), true, None) == Some(
            (pv, p + ser_property(pv, true).len()),
        ),
    decreases pv, 9int,
{
    match pv {
        PropertyV::StructProperty { .. } => {
            lemma_prop_parse_ser_struct(b, h, stk, p, pv);
        },
        PropertyV::ArrayProperty { .. } => {
            lemma_prop_parse_ser_array(b, h, stk, p, pv);
        },
        PropertyV::SetProperty { .. } => {
            lemma_prop_parse_ser_set(b, h, stk, p, pv);
        },
        PropertyV::MapProperty { .. } => {
            lemma_prop_parse_ser_map(b, h, stk, p, pv);
        },
        PropertyV::UnknownProperty { .. } => {
            lemma_prop_parse_ser_unknown(b, h, stk, p, pv);
        },
        _ => {
            lemma_prop_parse_ser_simple(b, h, stk, p, pv);
        },
    }
}

} // verus!
