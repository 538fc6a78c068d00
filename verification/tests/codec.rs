use gvas::cursor_ext::{Cursor, CursorExt};
use gvas::error::Error;
use gvas::hints::HintMap;
use gvas::properties::array_property::ArrayProperty;
use gvas::properties::enum_property::EnumProperty;
use gvas::properties::map_property::{MapEntry, MapProperty};
use gvas::properties::set_property::SetProperty;
use gvas::properties::str_property::StrProperty;
use gvas::properties::struct_property::{StructProperty, StructValue};
use gvas::properties::struct_types::{DateTime, IntPoint, Quat, Rotator, Vector};
use gvas::properties::unknown_property::UnknownProperty;
use gvas::properties::{Properties, Property, PropertyTrait};
use gvas::types::Guid;
use gvas::{FCustomVersion, FEngineVersion, GvasFile, GvasHeader};

fn sample_header() -> GvasHeader {
    GvasHeader::new(
        0x53415647,
        2,
        522,
        FEngineVersion::new(4, 27, 2, 18319896, "++UE4+Release-4.27".to_string()),
        3,
        vec![
            FCustomVersion::new(Guid(0x1122334455667788, 0x99aabbccddeeff00), 17),
            FCustomVersion::new(Guid(1, 2), -4),
        ],
        "MySaveGame_C".to_string(),
    )
}

fn encode_file(file: &GvasFile) -> Vec<u8> {
    let mut cursor = Cursor::new(Vec::new());
    file.write(&mut cursor).expect("encoding a well-formed file succeeds");
    cursor.into_inner()
}

fn decode_file(bytes: Vec<u8>) -> GvasFile {
    let mut cursor = Cursor::new(bytes);
    GvasFile::read(&mut cursor).expect("decoding succeeds")
}

#[test]
fn string_ascii_round_trip() {
    let mut cursor = Cursor::new(Vec::new());
    cursor.write_string("Hello, world!").unwrap();
    let bytes = cursor.into_inner();
    // length field is byte length + 1, then the bytes, then one zero byte
    assert_eq!(bytes.len(), 4 + 13 + 1);
    assert_eq!(&bytes[0..4], &[14, 0, 0, 0]);
    assert_eq!(&bytes[4..17], b"Hello, world!");
    assert_eq!(bytes[17], 0);
    let mut cursor = Cursor::new(bytes);
    assert_eq!(cursor.read_string().unwrap(), "Hello, world!");
}

#[test]
fn string_empty_round_trip() {
    let mut cursor = Cursor::new(Vec::new());
    cursor.write_string("").unwrap();
    let bytes = cursor.into_inner();
    assert_eq!(bytes, vec![1, 0, 0, 0, 0]);
    let mut cursor = Cursor::new(bytes);
    assert_eq!(cursor.read_string().unwrap(), "");
}

#[test]
fn string_utf16_round_trip() {
    let mut cursor = Cursor::new(Vec::new());
    cursor.write_string("héllo \u{1F600}").unwrap();
    let bytes = cursor.into_inner();
    // 8 code units (the emoji takes a surrogate pair), plus the terminator
    assert_eq!(&bytes[0..4], &(-9i32).to_le_bytes());
    assert_eq!(bytes.len(), 4 + 2 * 9);
    let mut cursor = Cursor::new(bytes);
    assert_eq!(cursor.read_string().unwrap(), "héllo \u{1F600}");
}

#[test]
fn string_zero_length_yields_empty_and_stops() {
    let mut bytes = 0i32.to_le_bytes().to_vec();
    bytes.push(0xAB);
    let mut cursor = Cursor::new(bytes);
    assert_eq!(cursor.read_string().unwrap(), "");
    assert_eq!(cursor.position(), 4);
}

#[test]
fn string_length_sentinel_rejected() {
    let bytes = i32::MIN.to_le_bytes().to_vec();
    let mut cursor = Cursor::new(bytes);
    match cursor.read_string() {
        Err(Error::InvalidString(n)) => assert_eq!(n, i32::MIN),
        other => panic!("expected InvalidString, got {:?}", other),
    }
}

#[test]
fn string_length_out_of_bounds_rejected() {
    for n in [131073i32, -131073i32, i32::MAX] {
        let bytes = n.to_le_bytes().to_vec();
        let mut cursor = Cursor::new(bytes);
        match cursor.read_string() {
            Err(Error::InvalidString(m)) => assert_eq!(m, n),
            other => panic!("expected InvalidString, got {:?}", other),
        }
    }
    // the bound itself is accepted (the buffer just ends too early)
    let bytes = 131072i32.to_le_bytes().to_vec();
    let mut cursor = Cursor::new(bytes);
    match cursor.read_string() {
        Err(Error::Eof(_)) => (),
        other => panic!("expected Eof, got {:?}", other),
    }
}

#[test]
fn string_invalid_utf16_rejected() {
    // length -2: one code unit plus terminator; 0xD800 is an unpaired
    // high surrogate
    let mut bytes = (-2i32).to_le_bytes().to_vec();
    bytes.extend_from_slice(&0xD800u16.to_le_bytes());
    bytes.extend_from_slice(&[0, 0]);
    let mut cursor = Cursor::new(bytes);
    match cursor.read_string() {
        Err(Error::InvalidUtf16(_)) => (),
        other => panic!("expected InvalidUtf16, got {:?}", other),
    }
}

#[test]
fn string_invalid_utf8_becomes_placeholder() {
    // length 3: two content bytes (invalid UTF-8) and a terminator
    let mut bytes = 3i32.to_le_bytes().to_vec();
    bytes.extend_from_slice(&[0xFF, 0xFE, 0]);
    let mut cursor = Cursor::new(bytes);
    assert_eq!(cursor.read_string().unwrap(), "None");
}

#[test]
fn header_round_trip() {
    let header = sample_header();
    let mut cursor = Cursor::new(Vec::new());
    header.write(&mut cursor).unwrap();
    let mut cursor = Cursor::new(cursor.into_inner());
    let back = GvasHeader::read(&mut cursor).unwrap();
    assert_eq!(back, header);
}

#[test]
fn scalar_property_exact_bytes() {
    let mut cursor = Cursor::new(Vec::new());
    Property::IntProperty(-2).write(&mut cursor, true).unwrap();
    let bytes = cursor.into_inner();
    let mut expected = Vec::new();
    expected.extend_from_slice(&12i32.to_le_bytes()); // tag length field
    expected.extend_from_slice(b"IntProperty\0");
    expected.extend_from_slice(&4u64.to_le_bytes()); // body length
    expected.push(0); // padding
    expected.extend_from_slice(&(-2i32).to_le_bytes());
    assert_eq!(bytes, expected);
}

#[test]
fn file_round_trip_scalars_and_strings() {
    let mut properties = Properties::new();
    properties.insert("Health".to_string(), Property::IntProperty(-12345));
    properties.insert("Stamina".to_string(), Property::FloatProperty(0x3F800000));
    properties.insert("Alive".to_string(), Property::BoolProperty(true));
    properties.insert("Level".to_string(), Property::ByteProperty(7));
    properties.insert("Big".to_string(), Property::UInt64Property(u64::MAX));
    properties.insert(
        "Name".to_string(),
        Property::StrProperty(StrProperty::new("Ünïcode hero \u{1F9D9}".to_string())),
    );
    properties.insert(
        "Class".to_string(),
        Property::EnumProperty(EnumProperty::new("EClass".to_string(), "EClass::Mage".to_string())),
    );
    let file = GvasFile { header: sample_header(), properties };

    let bytes = encode_file(&file);
    let decoded = decode_file(bytes.clone());
    // decode(encode(decode(bytes))) == decode(bytes), compared through the
    // injective encoding
    let bytes2 = encode_file(&decoded);
    assert_eq!(bytes, bytes2);
    let decoded2 = decode_file(bytes2);
    assert_eq!(decoded2.header, decoded.header);
    assert_eq!(decoded2.properties.len(), decoded.properties.len());
    match decoded.properties.get("Health") {
        Some(Property::IntProperty(v)) => assert_eq!(*v, -12345),
        other => panic!("unexpected {:?}", other),
    }
    match decoded.properties.get("Name") {
        Some(Property::StrProperty(s)) => assert_eq!(s.value, "Ünïcode hero \u{1F9D9}"),
        other => panic!("unexpected {:?}", other),
    }
}

fn vector_struct(x: u32, y: u32, z: u32) -> StructProperty {
    StructProperty::new(
        "Vector".to_string(),
        Guid(0, 0),
        StructValue::Vector(Vector::new(x, y, z)),
    )
}

#[test]
fn file_round_trip_nested_containers() {
    let mut nested = Properties::new();
    nested.insert("Ticks".to_string(), Property::UInt64Property(42));
    nested.insert(
        "When".to_string(),
        Property::StructProperty(StructProperty::new(
            "DateTime".to_string(),
            Guid(5, 6),
            StructValue::DateTime(DateTime::new(637_500_000_000_000_000)),
        )),
    );
    let mut properties = Properties::new();
    properties.insert(
        "Inventory".to_string(),
        Property::ArrayProperty(ArrayProperty {
            property_type: "IntProperty".to_string(),
            properties: vec![
                Property::IntProperty(1),
                Property::IntProperty(-2),
                Property::IntProperty(3),
            ],
            array_struct_info: None,
        }),
    );
    properties.insert(
        "Tags".to_string(),
        Property::SetProperty(SetProperty::new(
            "StrProperty".to_string(),
            0,
            vec![Property::StrProperty(StrProperty::new("alpha".to_string()))],
        )),
    );
    properties.insert(
        "Scores".to_string(),
        Property::MapProperty(MapProperty::new(
            "StrProperty".to_string(),
            "IntProperty".to_string(),
            0,
            vec![MapEntry {
                key: Property::StrProperty(StrProperty::new("boss".to_string())),
                value: Property::IntProperty(9000),
            }],
        )),
    );
    properties.insert(
        "State".to_string(),
        Property::StructProperty(StructProperty::new(
            "MyState".to_string(),
            Guid(7, 8),
            StructValue::CustomStruct(nested),
        )),
    );
    properties.insert(
        "Spawn".to_string(),
        Property::StructProperty(vector_struct(0x3F800000, 0x40000000, 0x40400000)),
    );
    properties.insert(
        "Facing".to_string(),
        Property::StructProperty(StructProperty::new(
            "Rotator".to_string(),
            Guid(0, 0),
            StructValue::Rotator(Rotator::new(1, 2, 3)),
        )),
    );
    properties.insert(
        "Spin".to_string(),
        Property::StructProperty(StructProperty::new(
            "Quat".to_string(),
            Guid(0, 0),
            StructValue::Quat(Quat::new(1, 2, 3, 4)),
        )),
    );
    properties.insert(
        "Cell".to_string(),
        Property::StructProperty(StructProperty::new(
            "IntPoint".to_string(),
            Guid(0, 0),
            StructValue::IntPoint(IntPoint::new(-3, 4)),
        )),
    );
    let file = GvasFile { header: sample_header(), properties };

    let bytes = encode_file(&file);
    let decoded = decode_file(bytes.clone());
    let bytes2 = encode_file(&decoded);
    assert_eq!(bytes, bytes2);
    match decoded.properties.get("Inventory") {
        Some(Property::ArrayProperty(a)) => {
            assert_eq!(a.property_type, "IntProperty");
            assert_eq!(a.properties.len(), 3);
            match &a.properties[1] {
                Property::IntProperty(v) => assert_eq!(*v, -2),
                other => panic!("unexpected {:?}", other),
            }
        }
        other => panic!("unexpected {:?}", other),
    }
}

#[test]
fn array_struct_identity_shared_once() {
    // an array of N struct elements carries exactly one identity block
    let elements = |n: usize| -> Vec<Property> {
        (0..n)
            .map(|i| Property::StructProperty(vector_struct(i as u32, 0, 0)))
            .collect()
    };
    let encode_array = |n: usize| -> Vec<u8> {
        let arr = ArrayProperty {
            property_type: "StructProperty".to_string(),
            properties: elements(n),
            array_struct_info: Some(gvas::properties::array_property::ArrayStructInfo {
                struct_name: "Vector".to_string(),
                field_name: "Positions".to_string(),
                guid: Guid(0xAA, 0xBB),
            }),
        };
        let mut cursor = Cursor::new(Vec::new());
        arr.write(&mut cursor, true).unwrap();
        cursor.into_inner()
    };
    let one = encode_array(1);
    let three = encode_array(3);
    let count_occurrences = |haystack: &[u8], needle: &[u8]| -> usize {
        (0..haystack.len().saturating_sub(needle.len() - 1))
            .filter(|&i| &haystack[i..i + needle.len()] == needle)
            .count()
    };
    // the struct type name appears once in the identity block, however
    // many elements there are
    assert_eq!(count_occurrences(&one, b"Vector\0"), 1);
    assert_eq!(count_occurrences(&three, b"Vector\0"), 1);
    // each element's body is 12 bytes; three elements add exactly 24
    assert_eq!(three.len(), one.len() + 24);

    // the two length fields exactly span their bodies
    let tag_len = 4 + "ArrayProperty".len() + 1;
    let outer = u64::from_le_bytes(three[tag_len..tag_len + 8].try_into().unwrap());
    let after_outer = tag_len + 8 + (4 + "StructProperty".len() + 1) + 1;
    assert_eq!(outer as usize, three.len() - after_outer);
    // the identity block's length field counts from its own first byte
    let inner_off = after_outer + 4 + (4 + "Positions".len() + 1) + (4 + "StructProperty".len() + 1);
    let inner = u64::from_le_bytes(three[inner_off..inner_off + 8].try_into().unwrap());
    assert_eq!(inner as usize, three.len() - inner_off);

    // and the whole array round-trips
    let mut properties = Properties::new();
    properties.insert("Positions".to_string(), Property::ArrayProperty(ArrayProperty {
        property_type: "StructProperty".to_string(),
        properties: elements(3),
        array_struct_info: Some(gvas::properties::array_property::ArrayStructInfo {
            struct_name: "Vector".to_string(),
            field_name: "Positions".to_string(),
            guid: Guid(0xAA, 0xBB),
        }),
    }));
    let file = GvasFile { header: sample_header(), properties };
    let bytes = encode_file(&file);
    let decoded = decode_file(bytes);
    match decoded.properties.get("Positions") {
        Some(Property::ArrayProperty(a)) => {
            assert_eq!(a.properties.len(), 3);
            let info = a.array_struct_info.as_ref().unwrap();
            assert_eq!(info.struct_name, "Vector");
            assert_eq!(info.guid, Guid(0xAA, 0xBB));
        }
        other => panic!("unexpected {:?}", other),
    }
}

#[test]
fn missing_hint_reports_exact_path() {
    // a map from struct keys to ints, whose keys carry no type tags
    let mut properties = Properties::new();
    properties.insert(
        "UnLockedMissionParameters".to_string(),
        Property::MapProperty(MapProperty::new(
            "StructProperty".to_string(),
            "IntProperty".to_string(),
            0,
            vec![MapEntry {
                key: Property::StructProperty(StructProperty::new(
                    "Guid".to_string(),
                    Guid(0, 0),
                    StructValue::Guid(Guid(0x0102030405060708, 0x090a0b0c0d0e0f10)),
                )),
                value: Property::IntProperty(5),
            }],
        )),
    );
    let file = GvasFile { header: sample_header(), properties };
    let bytes = encode_file(&file);

    // without a hint, decoding stops with the dotted path to supply
    let mut cursor = Cursor::new(bytes.clone());
    match GvasFile::read(&mut cursor) {
        Err(Error::MissingHint(tag, path, _offset)) => {
            assert_eq!(tag, "StructProperty");
            assert_eq!(
                path,
                "UnLockedMissionParameters.MapProperty.Key.StructProperty"
            );
        }
        other => panic!("expected MissingHint, got {:?}", other),
    }

    // with the hint, the same bytes decode and round-trip
    let mut hints = HintMap::new();
    hints.insert(
        "UnLockedMissionParameters.MapProperty.Key.StructProperty".to_string(),
        "Guid".to_string(),
    );
    let mut cursor = Cursor::new(bytes.clone());
    let decoded = GvasFile::read_with_hints(&mut cursor, &hints).unwrap();
    let bytes2 = encode_file(&decoded);
    assert_eq!(bytes, bytes2);
}

#[test]
fn unknown_kind_preserved_exactly() {
    let raw = vec![0xDE, 0xAD, 0xBE, 0xEF, 0x42];
    let mut properties = Properties::new();
    properties.insert(
        "Mystery".to_string(),
        Property::UnknownProperty(UnknownProperty::new(
            "FancyNewProperty".to_string(),
            raw.clone(),
        )),
    );
    properties.insert("After".to_string(), Property::IntProperty(1));
    let file = GvasFile { header: sample_header(), properties };
    let bytes = encode_file(&file);
    let decoded = decode_file(bytes.clone());
    match decoded.properties.get("Mystery") {
        Some(Property::UnknownProperty(u)) => {
            assert_eq!(u.property_type, "FancyNewProperty");
            assert_eq!(u.value, raw);
        }
        other => panic!("unexpected {:?}", other),
    }
    // opaque pass-through: re-encoding reproduces the original bytes
    assert_eq!(encode_file(&decoded), bytes);
}

#[test]
fn mismatched_array_element_rejected() {
    let arr = ArrayProperty::new(
        "IntProperty".to_string(),
        None,
        vec![Property::StructProperty(vector_struct(1, 2, 3))],
    );
    let mut cursor = Cursor::new(Vec::new());
    match arr.write(&mut cursor, true) {
        Err(Error::InvalidValue(_)) => (),
        other => panic!("expected InvalidValue, got {:?}", other),
    }
}

#[test]
fn struct_array_without_identity_rejected() {
    let arr = ArrayProperty {
        property_type: "StructProperty".to_string(),
        properties: vec![Property::StructProperty(vector_struct(1, 2, 3))],
        array_struct_info: None,
    };
    let mut cursor = Cursor::new(Vec::new());
    match arr.write(&mut cursor, true) {
        Err(Error::InvalidValue(_)) => (),
        other => panic!("expected InvalidValue, got {:?}", other),
    }
}

#[test]
fn mismatched_map_value_rejected() {
    let map = MapProperty::new(
        "IntProperty".to_string(),
        "IntProperty".to_string(),
        0,
        vec![MapEntry {
            key: Property::IntProperty(1),
            value: Property::BoolProperty(true),
        }],
    );
    let mut cursor = Cursor::new(Vec::new());
    match map.write(&mut cursor, true) {
        Err(Error::InvalidValue(_)) => (),
        other => panic!("expected InvalidValue, got {:?}", other),
    }
}

#[test]
fn truncated_file_reports_eof() {
    let file = GvasFile { header: sample_header(), properties: Properties::new() };
    let mut bytes = encode_file(&file);
    bytes.truncate(10);
    let mut cursor = Cursor::new(bytes);
    match GvasFile::read(&mut cursor) {
        Err(Error::Eof(_)) => (),
        other => panic!("expected Eof, got {:?}", other),
    }
}

#[test]
fn unknown_without_length_reports_missing_length() {
    // a map whose key type is unrecognized: the decoder has no way to know
    // how many bytes to skip
    let mut bytes = Vec::new();
    {
        let file = GvasFile { header: sample_header(), properties: Properties::new() };
        let full = encode_file(&file);
        // header bytes only (strip the sentinel and padding)
        bytes.extend_from_slice(&full[..full.len() - 9 - 4]);
    }
    let mut cursor = Cursor::new(Vec::new());
    cursor.write_string("Weird").unwrap();
    cursor.write_string("MapProperty").unwrap();
    cursor.write_u64(0); // byte length (unchecked by the decoder)
    cursor.write_string("MysteryKeyProperty").unwrap();
    cursor.write_string("IntProperty").unwrap();
    cursor.write_u8(0);
    cursor.write_u32(0); // allocation flags
    cursor.write_i32(1); // one entry
    bytes.extend_from_slice(&cursor.into_inner());
    let mut cursor = Cursor::new(bytes);
    match GvasFile::read(&mut cursor) {
        Err(Error::MissingLength(tag, _)) => assert_eq!(tag, "MysteryKeyProperty"),
        other => panic!("expected MissingLength, got {:?}", other),
    }
}

#[test]
fn oversized_string_rejected_at_encode() {
    let long = "x".repeat(131072);
    let mut cursor = Cursor::new(Vec::new());
    match cursor.write_string(&long) {
        Err(Error::InvalidValue(_)) => (),
        other => panic!("expected InvalidValue, got {:?}", other),
    }
    // one character shorter fits
    let ok = "x".repeat(131071);
    let mut cursor = Cursor::new(Vec::new());
    cursor.write_string(&ok).unwrap();
    let mut cursor = Cursor::new(cursor.into_inner());
    assert_eq!(cursor.read_string().unwrap(), ok);
}

#[test]
fn cursor_trait_methods_match_inherent() {
    let mut cursor = Cursor::new(Vec::new());
    CursorExt::write_string(&mut cursor, "abc").unwrap();
    let mut cursor = Cursor::new(cursor.into_inner());
    assert_eq!(CursorExt::read_string(&mut cursor).unwrap(), "abc");
}

#[test]
fn properties_insert_replaces_in_place() {
    let mut properties = Properties::new();
    properties.insert("A".to_string(), Property::IntProperty(1));
    properties.insert("B".to_string(), Property::IntProperty(2));
    properties.insert("A".to_string(), Property::IntProperty(3));
    assert_eq!(properties.len(), 2);
    match properties.get("A") {
        Some(Property::IntProperty(v)) => assert_eq!(*v, 3),
        other => panic!("unexpected {:?}", other),
    }
    // order of first insertion is kept
    assert_eq!(properties.entries[0].name, "A");
    assert_eq!(properties.entries[1].name, "B");
}

#[test]
fn empty_property_bag_round_trip() {
    let file = GvasFile { header: sample_header(), properties: Properties::new() };
    let bytes = encode_file(&file);
    let decoded = decode_file(bytes.clone());
    assert_eq!(decoded.properties.len(), 0);
    assert_eq!(encode_file(&decoded), bytes);
}

#[test]
fn hint_map_first_entry_wins() {
    let mut hints = HintMap::new();
    hints.insert("P.StructProperty".to_string(), "Guid".to_string());
    hints.insert("P.StructProperty".to_string(), "Vector".to_string());
    assert_eq!(hints.get("P.StructProperty").unwrap(), "Guid");
    assert!(hints.get("Q.StructProperty").is_none());
}

#[test]
fn array_of_unknowns_split_evenly() {
    // an array whose inner tag is unrecognized: each element takes an even
    // split of the remaining declared bytes as its suggested length
    let mut cursor = Cursor::new(Vec::new());
    cursor.write_u64(10); // declared byte length: count field + 2 * 3 bytes
    cursor.write_string("MysteryProperty").unwrap();
    cursor.write_u8(0);
    cursor.write_i32(2); // two elements
    for byte in [1u8, 2, 3, 4, 5, 6] {
        cursor.write_u8(byte);
    }
    let bytes = cursor.into_inner();
    let expected_end = bytes.len();
    let mut cursor = Cursor::new(bytes);
    let hints = HintMap::new();
    let mut stack: Vec<String> = Vec::new();
    let array = ArrayProperty::read(&mut cursor, &hints, &mut stack).expect("array decodes");
    assert_eq!(cursor.position(), expected_end);
    assert_eq!(array.property_type, "MysteryProperty");
    assert_eq!(array.properties.len(), 2);
    match &array.properties[0] {
        Property::UnknownProperty(u) => {
            assert_eq!(u.property_type, "MysteryProperty");
            assert_eq!(u.value, vec![1, 2, 3]);
        },
        other => panic!("expected an opaque element, got {:?}", other),
    }
    match &array.properties[1] {
        Property::UnknownProperty(u) => {
            assert_eq!(u.property_type, "MysteryProperty");
            assert_eq!(u.value, vec![4, 5, 6]);
        },
        other => panic!("expected an opaque element, got {:?}", other),
    }
}
