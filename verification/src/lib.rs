//! A verified codec for GVAS game-engine save files.
//!
//! A save file is a header followed by a property bag: named, type-tagged
//! values that may nest (structs, arrays, sets, maps). The codec decodes an
//! in-memory byte buffer into a structured value and re-encodes it; the
//! contracts state the exact bytes produced by every encoder and pin down
//! when decoding succeeds and what it returns.
//!
//! When a struct value sits inside an array, set or map the wire format
//! carries no type tag for it; the caller must supply one through a
//! [`hints::HintMap`] keyed by the dotted property path, and a decode that
//! lacks one stops with [`error::Error::MissingHint`] naming the exact path
//! and offset to add.

pub mod cursor_ext;
pub mod error;
pub mod hints;
pub mod properties;
pub mod string_codec;
pub mod types;

use vstd::prelude::*;
use vstd::bytes::*;

use crate::cursor_ext::{i32_of_u32_repr, spec_i32_to_le_bytes, Cursor};
use crate::error::Error;
use crate::string_codec::{
    ser_string, str_parse_len, str_parse_ok, str_parse_val, string_serializable,
};
use crate::types::{ser_guid, Guid};

verus! {

/// Whether `x` bytes of serialized data sit at position `p` of buffer `b`.
pub open spec fn bytes_at(b: Seq<u8>, p: int, x: Seq<u8>) -> bool {
    &&& 0 <= p
    &&& p + x.len() <= b.len()
    &&& b.subrange(p, p + x.len()) == x
}

/// Serialized data splits into a prefix at `p` and a suffix right after it.
pub proof fn lemma_bytes_at_split(b: Seq<u8>, p: int, x: Seq<u8>, y: Seq<u8>)
    requires
        bytes_at(b, p, x + y),
    ensures
        bytes_at(b, p, x),
        bytes_at(b, p + x.len(), y),
{
    assert forall|j: int| 0 <= j < x.len() implies b.subrange(p, p + x.len() as int)[j]
        == x[j] by {
        assert(b.subrange(p, p + (x + y).len() as int)[j] == (x + y)[j]);
    }
    assert(b.subrange(p, p + x.len()) =~= x);
    assert forall|j: int|
        0 <= j < y.len() implies b.subrange(p + x.len(), p + x.len() + y.len())[j] == y[j] by {
        assert(b.subrange(p, p + (x + y).len() as int)[x.len() + j] == (x + y)[x.len() + j]);
    }
    assert(b.subrange(p + x.len(), p + x.len() + y.len()) =~= y);
}

/// The mathematical value of an engine version record.
pub ghost struct EngineVersionV {
    pub major: u16,
    pub minor: u16,
    pub patch: u16,
    pub change_list: u32,
    pub branch: Seq<char>,
}

/// The engine version in which a save file was written.
#[derive(Debug, Clone, PartialEq, Eq)]
pub struct FEngineVersion {
    pub major: u16,
    pub minor: u16,
    pub patch: u16,
    pub change_list: u32,
    pub branch: String,
}

impl View for FEngineVersion {
    type V = EngineVersionV;

    open spec fn view(&self) -> EngineVersionV {
        EngineVersionV {
            major: self.major,
            minor: self.minor,
            patch: self.patch,
            change_list: self.change_list,
            branch: self.branch@,
        }
    }
}

/// The wire form of an engine version record.
pub open spec fn ser_engine_version(v: EngineVersionV) -> Seq<u8> {
    spec_u16_to_le_bytes(v.major) + spec_u16_to_le_bytes(v.minor) + spec_u16_to_le_bytes(v.patch)
        + spec_u32_to_le_bytes(v.change_list) + ser_string(v.branch)
}

/// Whether an engine version record can be written back.
pub open spec fn engine_version_serializable(v: EngineVersionV) -> bool {
    string_serializable(v.branch)
}

/// Whether an engine version record can be decoded at position `p`.
pub open spec fn engine_parse_ok(b: Seq<u8>, p: int) -> bool {
    &&& 0 <= p
    &&& p + 10 <= b.len()
    &&& str_parse_ok(b, p + 10)
}

/// How many bytes decoding an engine version record at `p` consumes.
pub open spec fn engine_parse_len(b: Seq<u8>, p: int) -> int {
    10 + str_parse_len(b, p + 10)
}

/// The engine version record decoded at position `p`.
pub open spec fn engine_parse_val(b: Seq<u8>, p: int) -> EngineVersionV {
    EngineVersionV {
        major: spec_u16_from_le_bytes(b.subrange(p, p + 2)),
        minor: spec_u16_from_le_bytes(b.subrange(p + 2, p + 4)),
        patch: spec_u16_from_le_bytes(b.subrange(p + 4, p + 6)),
        change_list: spec_u32_from_le_bytes(b.subrange(p + 6, p + 10)),
        branch: str_parse_val(b, p + 10),
    }
}

impl FEngineVersion {
    /// An engine version record from its parts.
    pub fn new(major: u16, minor: u16, patch: u16, change_list: u32, branch: String) -> (r:
        FEngineVersion)
        ensures
            r@ == (EngineVersionV { major, minor, patch, change_list, branch: branch@ }),
    {
        FEngineVersion { major, minor, patch, change_list, branch }
    }

    /// Decodes an engine version record at the cursor.
    pub fn read(cursor: &mut Cursor) -> (r: Result<FEngineVersion, Error>)
        ensures
            final(cursor).data@ == old(cursor).data@,
            old(cursor).pos <= final(cursor).pos,
            r is Ok <==> engine_parse_ok(old(cursor).data@, old(cursor).pos as int),
            r is Ok ==> ({
                &&& r->Ok_0@ == engine_parse_val(old(cursor).data@, old(cursor).pos as int)
                &&& engine_version_serializable(r->Ok_0@)
                &&& final(cursor).pos == old(cursor).pos + engine_parse_len(
                    old(cursor).data@,
                    old(cursor).pos as int,
                )
            }),
    {
        let ghost b = old(cursor).data@;
        let ghost p = old(cursor).pos as int;
        let major = match cursor.read_u16() {
            Ok(x) => x,
            Err(e) => {
                return Err(e);
            },
        };
        let minor = match cursor.read_u16() {
            Ok(x) => x,
            Err(e) => {
                return Err(e);
            },
        };
        let patch = match cursor.read_u16() {
            Ok(x) => x,
            Err(e) => {
                return Err(e);
            },
        };
        let change_list = match cursor.read_u32() {
            Ok(x) => x,
            Err(e) => {
                return Err(e);
            },
        };
        let branch = match cursor.read_string() {
            Ok(x) => x,
            Err(e) => {
                return Err(e);
            },
        };
        proof {
            assert(b.subrange(p, p + 2) =~= b.subrange(p, p + 2));
            assert(b.subrange(p + 2, p + 4) =~= b.subrange(p + 2, p + 2 + 2));
            assert(b.subrange(p + 4, p + 6) =~= b.subrange(p + 4, p + 4 + 2));
            assert(b.subrange(p + 6, p + 10) =~= b.subrange(p + 6, p + 6 + 4));
        }
        Ok(FEngineVersion { major, minor, patch, change_list, branch })
    }

    /// Encodes this record at the end of the buffer; fails exactly when the
    /// branch string is too long for its length field.
    pub fn write(&self, cursor: &mut Cursor) -> (r: Result<(), Error>)
        ensures
            r is Ok <==> engine_version_serializable(self@),
            r is Ok ==> final(cursor).data@ == old(cursor).data@ + ser_engine_version(self@)
                && final(cursor).pos == final(cursor).data@.len(),
            r is Err ==> (r matches Err(Error::InvalidValue(_))),
    {
        cursor.write_u16(self.major);
        cursor.write_u16(self.minor);
        cursor.write_u16(self.patch);
        cursor.write_u32(self.change_list);
        let r = cursor.write_string(self.branch.as_str());
        match r {
            Ok(()) => {
                proof {
                    assert(final(cursor).data@ =~= old(cursor).data@ + ser_engine_version(self@));
                }
                Ok(())
            },
            Err(e) => Err(e),
        }
    }
}

/// LAW: decoding a serialized engine version record yields it back and
/// consumes exactly its bytes.
pub proof fn lemma_engine_parse_ser(v: EngineVersionV, b: Seq<u8>, p: int)
    requires
        engine_version_serializable(v),
        bytes_at(b, p, ser_engine_version(v)),
    ensures
        engine_parse_ok(b, p),
        engine_parse_val(b, p) == v,
        engine_parse_len(b, p) == ser_engine_version(v).len(),
{
    lemma_auto_spec_u16_to_from_le_bytes();
    lemma_auto_spec_u32_to_from_le_bytes();
    let s1 = spec_u16_to_le_bytes(v.major);
    let s2 = spec_u16_to_le_bytes(v.minor);
    let s3 = spec_u16_to_le_bytes(v.patch);
    let s4 = spec_u32_to_le_bytes(v.change_list);
    let s5 = ser_string(v.branch);
    assert(ser_engine_version(v) =~= s1 + (s2 + (s3 + (s4 + s5))));
    lemma_bytes_at_split(b, p, s1, s2 + (s3 + (s4 + s5)));
    lemma_bytes_at_split(b, p + 2, s2, s3 + (s4 + s5));
    lemma_bytes_at_split(b, p + 4, s3, s4 + s5);
    lemma_bytes_at_split(b, p + 6, s4, s5);
    crate::string_codec::lemma_parse_ser_string(v.branch, b, p + 10);
    assert(b.subrange(p, p + 2) == s1);
    assert(b.subrange(p + 2, p + 4) =~= b.subrange(p + 2, p + 2 + 2));
    assert(b.subrange(p + 4, p + 6) =~= b.subrange(p + 4, p + 4 + 2));
    assert(b.subrange(p + 6, p + 10) =~= b.subrange(p + 6, p + 6 + 4));
    crate::string_codec::lemma_ser_string_len(v.branch);
}

/// One custom version: a 16-byte identifier and a version number.
#[derive(Debug, Clone, Copy, PartialEq, Eq, Structural)]
pub struct FCustomVersion {
    pub key: Guid,
    pub version: i32,
}

impl FCustomVersion {
    /// A custom version entry from its parts.
    pub fn new(key: Guid, version: i32) -> (r: FCustomVersion)
        ensures
            r == (FCustomVersion { key, version }),
    {
        FCustomVersion { key, version }
    }

    /// Decodes a custom version entry at the cursor.
    pub fn read(cursor: &mut Cursor) -> (r: Result<FCustomVersion, Error>)
        ensures
            final(cursor).data@ == old(cursor).data@,
            old(cursor).pos <= final(cursor).pos,
            r is Ok <==> old(cursor).pos + 20 <= old(cursor).data@.len(),
            r is Ok ==> r->Ok_0 == cv_parse_val(old(cursor).data@, old(cursor).pos as int)
                && final(cursor).pos == old(cursor).pos + 20,
    {
        let ghost b = old(cursor).data@;
        let ghost p = old(cursor).pos as int;
        let lo = match cursor.read_u64() {
            Ok(x) => x,
            Err(e) => {
                return Err(e);
            },
        };
        let hi = match cursor.read_u64() {
            Ok(x) => x,
            Err(e) => {
                return Err(e);
            },
        };
        let version = match cursor.read_i32() {
            Ok(x) => x,
            Err(e) => {
                return Err(e);
            },
        };
        proof {
            assert(b.subrange(p + 8, p + 16) =~= b.subrange(p + 8, p + 8 + 8));
            assert(b.subrange(p + 16, p + 20) =~= b.subrange(p + 16, p + 16 + 4));
        }
        Ok(FCustomVersion { key: Guid(lo, hi), version })
    }

    /// Encodes this entry at the end of the buffer.
    pub fn write(&self, cursor: &mut Cursor) -> (r: Result<(), Error>)
        ensures
            r is Ok,
            final(cursor).data@ == old(cursor).data@ + ser_custom_version(*self),
            final(cursor).pos == final(cursor).data@.len(),
    {
        cursor.write_u64(self.key.0);
        cursor.write_u64(self.key.1);
        cursor.write_i32(self.version);
        proof {
            assert(final(cursor).data@ =~= old(cursor).data@ + ser_custom_version(*self));
        }
        Ok(())
    }
}

/// The wire form of one custom version entry.
pub open spec fn ser_custom_version(c: FCustomVersion) -> Seq<u8> {
    ser_guid(c.key) + spec_i32_to_le_bytes(c.version)
}

/// The custom version entry decoded at position `p`.
pub open spec fn cv_parse_val(b: Seq<u8>, p: int) -> FCustomVersion {
    FCustomVersion {
        key: Guid(
            spec_u64_from_le_bytes(b.subrange(p, p + 8)),
            spec_u64_from_le_bytes(b.subrange(p + 8, p + 16)),
        ),
        version: i32_of_u32_repr(spec_u32_from_le_bytes(b.subrange(p + 16, p + 20))),
    }
}

/// The wire form of a custom version list, entry after entry.
pub open spec fn ser_custom_versions(list: Seq<FCustomVersion>) -> Seq<u8>
    decreases list.len(),
{
    if list.len() == 0 {
        Seq::empty()
    } else {
        ser_custom_version(list[0]) + ser_custom_versions(list.subrange(1, list.len() as int))
    }
}

/// A custom version list serializes to 20 bytes per entry.
pub proof fn lemma_ser_custom_versions_len(list: Seq<FCustomVersion>)
    ensures
        ser_custom_versions(list).len() == 20 * list.len(),
    decreases list.len(),
{
    lemma_auto_spec_u64_to_from_le_bytes();
    lemma_auto_spec_u32_to_from_le_bytes();
    if list.len() > 0 {
        lemma_ser_custom_versions_len(list.subrange(1, list.len() as int));
    }
}

/// Appending an entry appends its 20 bytes.
pub proof fn lemma_ser_custom_versions_snoc(list: Seq<FCustomVersion>, c: FCustomVersion)
    ensures
        ser_custom_versions(list.push(c)) == ser_custom_versions(list) + ser_custom_version(c),
    decreases list.len(),
{
    if list.len() == 0 {
        assert(list.push(c)[0] == c);
        assert(list.push(c).subrange(1, 1) =~= Seq::<FCustomVersion>::empty());
        assert(ser_custom_versions(list.push(c)) == ser_custom_version(c) + ser_custom_versions(
            Seq::<FCustomVersion>::empty(),
        ));
        assert(ser_custom_versions(list.push(c)) =~= ser_custom_versions(list)
            + ser_custom_version(c));
    } else {
        let rest = list.subrange(1, list.len() as int);
        assert(list.push(c)[0] == list[0]);
        assert(list.push(c).subrange(1, list.len() as int + 1) =~= rest.push(c));
        lemma_ser_custom_versions_snoc(rest, c);
        assert(ser_custom_versions(list.push(c)) == ser_custom_version(list[0])
            + (ser_custom_versions(rest) + ser_custom_version(c)));
        assert(ser_custom_versions(list.push(c)) =~= ser_custom_versions(list)
            + ser_custom_version(c));
    }
}

/// Decoding a serialized custom version entry yields it back.
pub proof fn lemma_cv_parse_ser(c: FCustomVersion, b: Seq<u8>, p: int)
    requires
        bytes_at(b, p, ser_custom_version(c)),
    ensures
        cv_parse_val(b, p) == c,
{
    lemma_auto_spec_u64_to_from_le_bytes();
    lemma_auto_spec_u32_to_from_le_bytes();
    let s1 = spec_u64_to_le_bytes(c.key.0);
    let s2 = spec_u64_to_le_bytes(c.key.1);
    let s3 = spec_i32_to_le_bytes(c.version);
    assert(ser_custom_version(c) =~= s1 + (s2 + s3));
    lemma_bytes_at_split(b, p, s1, s2 + s3);
    lemma_bytes_at_split(b, p + 8, s2, s3);
    assert(b.subrange(p + 8, p + 16) =~= b.subrange(p + 8, p + 8 + 8));
    assert(b.subrange(p + 16, p + 20) =~= b.subrange(p + 16, p + 16 + 4));
    crate::cursor_ext::lemma_i32_repr_roundtrip(c.version);
}

/// Each entry of a serialized custom version list sits 20 bytes after the
/// one before it.
pub proof fn lemma_cv_list_at(list: Seq<FCustomVersion>, b: Seq<u8>, p: int, i: int)
    requires
        bytes_at(b, p, ser_custom_versions(list)),
        0 <= i < list.len(),
    ensures
        bytes_at(b, p + 20 * i, ser_custom_version(list[i])),
    decreases i,
{
    lemma_ser_custom_versions_len(list);
    let rest = list.subrange(1, list.len() as int);
    lemma_bytes_at_split(b, p, ser_custom_version(list[0]), ser_custom_versions(rest));
    lemma_auto_spec_u64_to_from_le_bytes();
    lemma_auto_spec_u32_to_from_le_bytes();
    if i == 0 {
    } else {
        lemma_cv_list_at(rest, b, p + 20, i - 1);
        assert(rest[i - 1] == list[i]);
    }
}

/// The mathematical value of a file header.
pub ghost struct HeaderV {
    pub file_type_tag: i32,
    pub save_game_file_version: i32,
    pub package_file_ue4_version: i32,
    pub engine_version: EngineVersionV,
    pub custom_version_format: i32,
    pub custom_versions: Seq<FCustomVersion>,
    pub save_game_class_name: Seq<char>,
}

/// The fixed-layout file header: format tags, version triple, the engine
/// version record, the custom version list and the save class name.
#[derive(Debug, Clone, PartialEq, Eq)]
pub struct GvasHeader {
    pub file_type_tag: i32,
    pub save_game_file_version: i32,
    pub package_file_ue4_version: i32,
    pub engine_version: FEngineVersion,
    pub custom_version_format: i32,
    pub custom_versions: Vec<FCustomVersion>,
    pub save_game_class_name: String,
}

impl View for GvasHeader {
    type V = HeaderV;

    open spec fn view(&self) -> HeaderV {
        HeaderV {
            file_type_tag: self.file_type_tag,
            save_game_file_version: self.save_game_file_version,
            package_file_ue4_version: self.package_file_ue4_version,
            engine_version: self.engine_version@,
            custom_version_format: self.custom_version_format,
            custom_versions: self.custom_versions@,
            save_game_class_name: self.save_game_class_name@,
        }
    }
}

/// The wire form of a file header, field after field in file order.
pub open spec fn ser_header(h: HeaderV) -> Seq<u8> {
    spec_i32_to_le_bytes(h.file_type_tag) + spec_i32_to_le_bytes(h.save_game_file_version)
        + spec_i32_to_le_bytes(h.package_file_ue4_version) + ser_engine_version(h.engine_version)
        + spec_i32_to_le_bytes(h.custom_version_format) + spec_i32_to_le_bytes(
        h.custom_versions.len() as i32,
    ) + ser_custom_versions(h.custom_versions) + ser_string(h.save_game_class_name)
}

/// Whether a header can be written back: its two strings must pass the
/// length-field bound and its custom version count must fit a signed
/// 32-bit field.
pub open spec fn header_serializable(h: HeaderV) -> bool {
    &&& string_serializable(h.engine_version.branch)
    &&& string_serializable(h.save_game_class_name)
    &&& h.custom_versions.len() <= 0x7fff_ffff
}

/// The position right after a header's engine version record.
pub open spec fn header_q(b: Seq<u8>, p: int) -> int {
    p + 12 + engine_parse_len(b, p + 12)
}

/// The custom version count field of a header at position `p`.
pub open spec fn header_count(b: Seq<u8>, p: int) -> int {
    let q = header_q(b, p);
    i32_of_u32_repr(spec_u32_from_le_bytes(b.subrange(q + 4, q + 8))) as int
}

/// Whether a header can be decoded at position `p`.
pub open spec fn header_parse_ok(b: Seq<u8>, p: int) -> bool {
    let q = header_q(b, p);
    let count = header_count(b, p);
    &&& 0 <= p
    &&& p + 12 <= b.len()
    &&& engine_parse_ok(b, p + 12)
    &&& q + 8 <= b.len()
    &&& count >= 0
    &&& q + 8 + 20 * count <= b.len()
    &&& str_parse_ok(b, q + 8 + 20 * count)
}

/// How many bytes decoding a header at `p` consumes.
pub open spec fn header_parse_len(b: Seq<u8>, p: int) -> int {
    let q = header_q(b, p);
    let count = header_count(b, p);
    (q - p) + 8 + 20 * count + str_parse_len(b, q + 8 + 20 * count)
}

/// The header decoded at position `p`.
pub open spec fn header_parse_val(b: Seq<u8>, p: int) -> HeaderV {
    let q = header_q(b, p);
    let count = header_count(b, p);
    HeaderV {
        file_type_tag: i32_of_u32_repr(spec_u32_from_le_bytes(b.subrange(p, p + 4))),
        save_game_file_version: i32_of_u32_repr(spec_u32_from_le_bytes(b.subrange(p + 4, p + 8))),
        package_file_ue4_version: i32_of_u32_repr(
            spec_u32_from_le_bytes(b.subrange(p + 8, p + 12)),
        ),
        engine_version: engine_parse_val(b, p + 12),
        custom_version_format: i32_of_u32_repr(spec_u32_from_le_bytes(b.subrange(q, q + 4))),
        custom_versions: Seq::new(count as nat, |i| cv_parse_val(b, q + 8 + 20 * i)),
        save_game_class_name: str_parse_val(b, q + 8 + 20 * count),
    }
}

impl GvasHeader {
    /// A header from its parts.
    pub fn new(
        file_type_tag: i32,
        save_game_file_version: i32,
        package_file_ue4_version: i32,
        engine_version: FEngineVersion,
        custom_version_format: i32,
        custom_versions: Vec<FCustomVersion>,
        save_game_class_name: String,
    ) -> (r: GvasHeader)
        ensures
            r@ == (HeaderV {
                file_type_tag,
                save_game_file_version,
                package_file_ue4_version,
                engine_version: engine_version@,
                custom_version_format,
                custom_versions: custom_versions@,
                save_game_class_name: save_game_class_name@,
            }),
    {
        GvasHeader {
            file_type_tag,
            save_game_file_version,
            package_file_ue4_version,
            engine_version,
            custom_version_format,
            custom_versions,
            save_game_class_name,
        }
    }

    /// Decodes a header at the cursor. Succeeds exactly when the buffer
    /// carries a well-formed header there; everything it returns can be
    /// written back.
    #[verifier::loop_isolation(false)]
    pub fn read(cursor: &mut Cursor) -> (r: Result<GvasHeader, Error>)
        ensures
            final(cursor).data@ == old(cursor).data@,
            old(cursor).pos <= final(cursor).pos,
            r is Ok <==> header_parse_ok(old(cursor).data@, old(cursor).pos as int),
            r is Ok ==> ({
                &&& r->Ok_0@ == header_parse_val(old(cursor).data@, old(cursor).pos as int)
                &&& header_serializable(r->Ok_0@)
                &&& final(cursor).pos == old(cursor).pos + header_parse_len(
                    old(cursor).data@,
                    old(cursor).pos as int,
                )
            }),
    {
        let ghost b = old(cursor).data@;
        let ghost p = old(cursor).pos as int;
        let file_type_tag = match cursor.read_i32() {
            Ok(x) => x,
            Err(e) => {
                return Err(e);
            },
        };
        let save_game_file_version = match cursor.read_i32() {
            Ok(x) => x,
            Err(e) => {
                return Err(e);
            },
        };
        let package_file_ue4_version = match cursor.read_i32() {
            Ok(x) => x,
            Err(e) => {
                return Err(e);
            },
        };
        proof {
            assert(b.subrange(p + 4, p + 8) =~= b.subrange(p + 4, p + 4 + 4));
            assert(b.subrange(p + 8, p + 12) =~= b.subrange(p + 8, p + 8 + 4));
        }
        let engine_version = match FEngineVersion::read(cursor) {
            Ok(x) => x,
            Err(e) => {
                return Err(e);
            },
        };
        let ghost q = header_q(b, p);
        let custom_version_format = match cursor.read_i32() {
            Ok(x) => x,
            Err(e) => {
                return Err(e);
            },
        };
        let count = match cursor.read_i32() {
            Ok(x) => x,
            Err(e) => {
                return Err(e);
            },
        };
        proof {
            assert(b.subrange(q + 4, q + 8) =~= b.subrange(q + 4, q + 4 + 4));
        }
        if count < 0 {
            return Err(Error::InvalidValue("negative custom version count".to_owned()));
        }
        let count_us = count as usize;
        let mut custom_versions: Vec<FCustomVersion> = Vec::new();
        let mut i: usize = 0;
        while i < count_us
            invariant
                i <= count_us,
                count_us == header_count(b, p),
                header_q(b, p) == q,
                0 <= q,
                cursor.data@ == b,
                cursor.pos == q + 8 + 20 * i,
                custom_versions@.len() == i,
                forall|k: int|
                    0 <= k < i ==> custom_versions@[k] == cv_parse_val(b, q + 8 + 20 * k),
            decreases count_us - i,
        {
            let cv = match FCustomVersion::read(cursor) {
                Ok(x) => x,
                Err(e) => {
                    proof {
                        assert(q + 8 + 20 * (i as int) + 20 <= q + 8 + 20 * (count_us as int));
                    }
                    return Err(e);
                },
            };
            custom_versions.push(cv);
            i = i + 1;
        }
        let save_game_class_name = match cursor.read_string() {
            Ok(x) => x,
            Err(e) => {
                return Err(e);
            },
        };
        let r = GvasHeader {
            file_type_tag,
            save_game_file_version,
            package_file_ue4_version,
            engine_version,
            custom_version_format,
            custom_versions,
            save_game_class_name,
        };
        proof {
            assert(r@.custom_versions =~= header_parse_val(b, p).custom_versions);
            assert(r@ == header_parse_val(b, p));
        }
        Ok(r)
    }

    /// Encodes this header at the end of the buffer; fails exactly when a
    /// string is too long for its length field or the custom version count
    /// does not fit its field.
    pub fn write(&self, cursor: &mut Cursor) -> (r: Result<(), Error>)
        ensures
            r is Ok <==> header_serializable(self@),
            r is Ok ==> final(cursor).data@ == old(cursor).data@ + ser_header(self@)
                && final(cursor).pos == final(cursor).data@.len(),
            r is Err ==> (r matches Err(Error::InvalidValue(_))),
    {
        cursor.write_i32(self.file_type_tag);
        cursor.write_i32(self.save_game_file_version);
        cursor.write_i32(self.package_file_ue4_version);
        match self.engine_version.write(cursor) {
            Ok(()) => (),
            Err(e) => {
                return Err(e);
            },
        };
        cursor.write_i32(self.custom_version_format);
        if self.custom_versions.len() > 0x7fff_ffff {
            return Err(Error::InvalidValue("custom version count does not fit".to_owned()));
        }
        let n = self.custom_versions.len();
        cursor.write_i32(n as i32);
        let ghost mid = cursor.data@;
        let mut i: usize = 0;
        proof {
            assert(self.custom_versions@.subrange(0, 0) =~= Seq::<FCustomVersion>::empty());
            assert(cursor.data@ =~= mid + ser_custom_versions(self.custom_versions@.subrange(0, 0)));
        }
        while i < n
            invariant
                i <= n,
                n == self.custom_versions@.len(),
                cursor.data@ == mid + ser_custom_versions(self.custom_versions@.subrange(0, i as int)),
                cursor.pos == cursor.data@.len(),
            decreases n - i,
        {
            proof {
                lemma_ser_custom_versions_snoc(
                    self.custom_versions@.subrange(0, i as int),
                    self.custom_versions@[i as int],
                );
                assert(self.custom_versions@.subrange(0, i + 1)
                    =~= self.custom_versions@.subrange(0, i as int).push(
                    self.custom_versions@[i as int],
                ));
            }
            let cv = self.custom_versions[i];
            match cv.write(cursor) {
                Ok(()) => (),
                Err(e) => {
                    return Err(e);
                },
            };
            i = i + 1;
        }
        proof {
            assert(self.custom_versions@.subrange(0, n as int) =~= self.custom_versions@);
        }
        match cursor.write_string(self.save_game_class_name.as_str()) {
            Ok(()) => {
                proof {
                    assert(final(cursor).data@ =~= old(cursor).data@ + ser_header(self@));
                }
                Ok(())
            },
            Err(e) => Err(e),
        }
    }
}

/// LAW: decoding a serialized header yields it back and consumes exactly
/// its bytes.
pub proof fn lemma_header_parse_ser(h: HeaderV, b: Seq<u8>, p: int)
    requires
        header_serializable(h),
        bytes_at(b, p, ser_header(h)),
    ensures
        header_parse_ok(b, p),
        header_parse_val(b, p) == h,
        header_parse_len(b, p) == ser_header(h).len(),
{
    lemma_auto_spec_u32_to_from_le_bytes();
    let s1 = spec_i32_to_le_bytes(h.file_type_tag);
    let s2 = spec_i32_to_le_bytes(h.save_game_file_version);
    let s3 = spec_i32_to_le_bytes(h.package_file_ue4_version);
    let s4 = ser_engine_version(h.engine_version);
    let s5 = spec_i32_to_le_bytes(h.custom_version_format);
    let s6 = spec_i32_to_le_bytes(h.custom_versions.len() as i32);
    let s7 = ser_custom_versions(h.custom_versions);
    let s8 = ser_string(h.save_game_class_name);
    assert(ser_header(h) =~= s1 + (s2 + (s3 + (s4 + (s5 + (s6 + (s7 + s8)))))));
    lemma_bytes_at_split(b, p, s1, s2 + (s3 + (s4 + (s5 + (s6 + (s7 + s8))))));
    lemma_bytes_at_split(b, p + 4, s2, s3 + (s4 + (s5 + (s6 + (s7 + s8)))));
    lemma_bytes_at_split(b, p + 8, s3, s4 + (s5 + (s6 + (s7 + s8))));
    lemma_bytes_at_split(b, p + 12, s4, s5 + (s6 + (s7 + s8)));
    lemma_engine_parse_ser(h.engine_version, b, p + 12);
    let q = p + 12 + s4.len() as int;
    assert(header_q(b, p) == q);
    lemma_bytes_at_split(b, q, s5, s6 + (s7 + s8));
    lemma_bytes_at_split(b, q + 4, s6, s7 + s8);
    lemma_ser_custom_versions_len(h.custom_versions);
    lemma_bytes_at_split(b, q + 8, s7, s8);
    let count = h.custom_versions.len() as int;
    assert(header_count(b, p) == count) by {
        assert(b.subrange(q + 4, q + 8) =~= b.subrange(q + 4, q + 4 + 4));
        crate::cursor_ext::lemma_i32_repr_roundtrip(h.custom_versions.len() as i32);
    }
    crate::string_codec::lemma_parse_ser_string(h.save_game_class_name, b, q + 8 + 20 * count);
    crate::string_codec::lemma_ser_string_len(h.save_game_class_name);
    assert(header_parse_val(b, p).file_type_tag == h.file_type_tag) by {
        assert(b.subrange(p, p + 4) == s1);
        crate::cursor_ext::lemma_i32_repr_roundtrip(h.file_type_tag);
    }
    assert(header_parse_val(b, p).save_game_file_version == h.save_game_file_version) by {
        assert(b.subrange(p + 4, p + 8) =~= b.subrange(p + 4, p + 4 + 4));
        crate::cursor_ext::lemma_i32_repr_roundtrip(h.save_game_file_version);
    }
    assert(header_parse_val(b, p).package_file_ue4_version == h.package_file_ue4_version) by {
        assert(b.subrange(p + 8, p + 12) =~= b.subrange(p + 8, p + 8 + 4));
        crate::cursor_ext::lemma_i32_repr_roundtrip(h.package_file_ue4_version);
    }
    assert(header_parse_val(b, p).custom_version_format == h.custom_version_format) by {
        assert(b.subrange(q, q + 4) =~= b.subrange(q, q + 4));
        crate::cursor_ext::lemma_i32_repr_roundtrip(h.custom_version_format);
    }
    assert(header_parse_val(b, p).custom_versions =~= h.custom_versions) by {
        assert forall|i: int| 0 <= i < count implies cv_parse_val(b, q + 8 + 20 * i)
            == h.custom_versions[i] by {
            lemma_cv_list_at(h.custom_versions, b, q + 8, i);
            lemma_cv_parse_ser(h.custom_versions[i], b, q + 8 + 20 * i);
        }
    }
    assert(header_parse_val(b, p) == h);
}

/// The mathematical value of a whole save file.
pub ghost struct GvasFileV {
    pub header: HeaderV,
    pub properties: Seq<(Seq<char>, crate::properties::PropertyV)>,
}

/// A decoded save file: the header and the named property bag, in file
/// order. Decoding keeps the order properties appear in; re-encoding
/// writes them back in that order.
#[derive(Debug)]
pub struct GvasFile {
    pub header: GvasHeader,
    pub properties: crate::properties::Properties,
}

impl View for GvasFile {
    type V = GvasFileV;

    open spec fn view(&self) -> GvasFileV {
        GvasFileV {
            header: self.header@,
            properties: crate::properties::pview_entries(self.properties.entries@),
        }
    }
}

/// The wire form of a whole file: the header, each property as name, tag
/// and headered value, the sentinel name and four zero padding bytes.
pub open spec fn ser_file(f: GvasFileV) -> Seq<u8> {
    ser_header(f.header) + crate::properties::ser_prop_entries(f.properties) + ser_string("None"@)
        + spec_i32_to_le_bytes(0i32)
}

/// Whether a file can be encoded: its header and every named property can,
/// and no property is named after the sentinel.
pub open spec fn file_serializable(f: GvasFileV) -> bool {
    &&& header_serializable(f.header)
    &&& crate::properties::entries_serializable(f.properties)
}

impl GvasFile {
    /// Decodes a save file with an empty hint map. A file whose nested
    /// struct values all carry their own headers needs no hints; this
    /// returns exactly what [`Self::read_with_hints`] returns for an empty
    /// map.
    pub fn read(cursor: &mut Cursor) -> (r: Result<GvasFile, Error>)
        ensures
            final(cursor).data@ == old(cursor).data@,
            old(cursor).pos <= final(cursor).pos,
            r is Ok ==> ({
                &&& header_parse_ok(old(cursor).data@, old(cursor).pos as int)
                &&& r->Ok_0@.header == header_parse_val(old(cursor).data@, old(cursor).pos as int)
                &&& header_serializable(r->Ok_0@.header)
            }),
            ({
                let b = old(cursor).data@;
                let p = old(cursor).pos as int;
                let pb = crate::properties::bag_parse(
                    b,
                    Seq::<(String, String)>::empty(),
                    Seq::<Seq<char>>::empty(),
                    p + header_parse_len(b, p),
                );
                &&& (r is Ok <==> header_parse_ok(b, p) && pb is Some)
                &&& (r is Ok ==> r->Ok_0@.properties == crate::properties::ventries_insert_all(
                    Seq::empty(),
                    (pb->0).0,
                ) && final(cursor).pos == (pb->0).1)
            }),
    {
        let hints = crate::hints::HintMap::new();
        proof {
            assert(hints.entries@ =~= Seq::<(String, String)>::empty());
        }
        Self::read_with_hints(cursor, &hints)
    }

    /// Decodes a save file: the header, then name/type/value triples until
    /// the sentinel name. Each property's name roots the dotted hint path
    /// for everything nested inside it, so a missing-hint error reports
    /// where in this file a hint must be supplied.
    #[verifier::loop_isolation(false)]
    #[verifier::rlimit(100)]
    #[verifier::spinoff_prover]
    pub fn read_with_hints(cursor: &mut Cursor, hints: &crate::hints::HintMap) -> (r: Result<
        GvasFile,
        Error,
    >)
        ensures
            final(cursor).data@ == old(cursor).data@,
            old(cursor).pos <= final(cursor).pos,
            r is Ok ==> ({
                &&& header_parse_ok(old(cursor).data@, old(cursor).pos as int)
                &&& r->Ok_0@.header == header_parse_val(old(cursor).data@, old(cursor).pos as int)
                &&& header_serializable(r->Ok_0@.header)
            }),
            ({
                let b = old(cursor).data@;
                let p = old(cursor).pos as int;
                let pb = crate::properties::bag_parse(
                    b,
                    hints.entries@,
                    Seq::<Seq<char>>::empty(),
                    p + header_parse_len(b, p),
                );
                &&& (r is Ok <==> header_parse_ok(b, p) && pb is Some)
                &&& (r is Ok ==> r->Ok_0@.properties == crate::properties::ventries_insert_all(
                    Seq::empty(),
                    (pb->0).0,
                ) && final(cursor).pos == (pb->0).1)
            }),
    {
        let ghost b = old(cursor).data@;
        let ghost p = old(cursor).pos as int;
        let ghost h = hints.entries@;
        let ghost stkv = Seq::<Seq<char>>::empty();
        let header = match GvasHeader::read(cursor) {
            Ok(h) => h,
            Err(e) => {
                return Err(e);
            },
        };
        let ghost p0 = cursor.pos as int;
        let mut properties = crate::properties::Properties::new();
        let ghost mut acc: Seq<(Seq<char>, crate::properties::PropertyV)> = Seq::empty();
        let ghost mut p_name: int = p0;
        let mut property_name = match cursor.read_string() {
            Ok(s) => s,
            Err(e) => {
                return Err(e);
            },
        };
        proof {
            assert(properties.entries@ =~= Seq::<crate::properties::PropertyEntry>::empty());
            assert(crate::properties::pview_entries(properties.entries@)
                =~= crate::properties::ventries_insert_all(Seq::empty(), acc));
        }
        while !crate::string_codec::strings_equal(property_name.as_str(), "None")
            invariant
                cursor.data@ == old(cursor).data@,
                old(cursor).pos <= cursor.pos <= cursor.data@.len(),
                str_parse_ok(b, p_name),
                property_name@ == str_parse_val(b, p_name),
                p0 <= p_name,
                cursor.pos == p_name + str_parse_len(b, p_name),
                crate::properties::pview_entries(properties.entries@)
                    == crate::properties::ventries_insert_all(Seq::empty(), acc),
                (crate::properties::bag_parse(b, h, stkv, p0) is Some
                    <==> crate::properties::bag_parse(b, h, stkv, p_name) is Some),
                crate::properties::bag_parse(b, h, stkv, p0) is Some ==> (
                crate::properties::bag_parse(b, h, stkv, p0)->0).0 == acc + (
                crate::properties::bag_parse(b, h, stkv, p_name)->0).0 && (
                crate::properties::bag_parse(b, h, stkv, p0)->0).1 == (
                crate::properties::bag_parse(b, h, stkv, p_name)->0).1,
            decreases cursor.data@.len() - cursor.pos,
        {
            let ghost q1 = cursor.pos as int;
            let property_type = match cursor.read_string() {
                Ok(s) => s,
                Err(e) => {
                    proof {
                        assert(crate::properties::bag_parse(b, h, stkv, p_name) is None);
                    }
                    return Err(e);
                },
            };
            let ghost q2 = cursor.pos as int;
            let mut properties_stack: Vec<String> = Vec::new();
            properties_stack.push(property_name.clone());
            proof {
                assert(properties_stack.deep_view() =~= stkv.push(property_name@));
            }
            let property = match crate::properties::Property::new(
                cursor,
                hints,
                &mut properties_stack,
                property_type.as_str(),
                true,
                None,
            ) {
                Ok(pr) => pr,
                Err(e) => {
                    proof {
                        assert(stkv.push(property_name@).push(property_type@) =~= stkv.push(
                            str_parse_val(b, p_name),
                        ).push(str_parse_val(b, q1)));
                        assert(crate::properties::bag_parse(b, h, stkv, p_name) is None);
                    }
                    return Err(e);
                },
            };
            let ghost e_pos = cursor.pos as int;
            proof {
                assert(stkv.push(property_name@).push(property_type@) =~= stkv.push(
                    str_parse_val(b, p_name),
                ).push(str_parse_val(b, q1)));
                let step = crate::properties::prop_parse(
                    b,
                    h,
                    stkv.push(property_name@).push(property_type@),
                    q2,
                    property_type@,
                    true,
                    None,
                );
                assert(step is Some && (step->0).0 == property@ && (step->0).1 == e_pos);
                assert(p_name < e_pos <= b.len());
                assert(crate::properties::bag_parse(b, h, stkv, p_name) is Some
                    <==> crate::properties::bag_parse(b, h, stkv, e_pos) is Some);
                if crate::properties::bag_parse(b, h, stkv, e_pos) is Some {
                    assert((crate::properties::bag_parse(b, h, stkv, p_name)->0).0 == seq![
                        (property_name@, property@),
                    ] + (crate::properties::bag_parse(b, h, stkv, e_pos)->0).0);
                    if crate::properties::bag_parse(b, h, stkv, p0) is Some {
                        assert(acc + (seq![(property_name@, property@)] + (
                        crate::properties::bag_parse(b, h, stkv, e_pos)->0).0) =~= acc.push(
                            (property_name@, property@),
                        ) + (crate::properties::bag_parse(b, h, stkv, e_pos)->0).0);
                    }
                }
            }
            let ghost entries_before = properties.entries@;
            let ghost name_v = property_name@;
            let ghost prop_v = crate::properties::pview(property);
            properties.insert(property_name, property);
            proof {
                crate::properties::lemma_pview_ventries_insert(entries_before, property_name, property);
            }
            property_name = match cursor.read_string() {
                Ok(s) => s,
                Err(e) => {
                    proof {
                        assert(crate::properties::bag_parse(b, h, stkv, e_pos) is None);
                    }
                    return Err(e);
                },
            };
            proof {
                crate::properties::lemma_ventries_insert_all_snoc(
                    Seq::empty(),
                    acc,
                    (name_v, prop_v),
                );
                acc = acc.push((name_v, prop_v));
                p_name = e_pos;
            }
        }
        proof {
            assert(crate::properties::bag_parse(b, h, stkv, p_name) == Some(
                (
                    Seq::<(Seq<char>, crate::properties::PropertyV)>::empty(),
                    p_name + str_parse_len(b, p_name),
                ),
            ));
            assert(crate::properties::bag_parse(b, h, stkv, p0) is Some);
            assert(acc + Seq::<(Seq<char>, crate::properties::PropertyV)>::empty() =~= acc);
        }
        Ok(GvasFile { header, properties })
    }

    /// Encodes this file exactly as [`ser_file`] states: the header, every
    /// property under its name with a self-describing header, the sentinel
    /// name and the zero padding field. Fails, rather than producing
    /// malformed output, exactly when [`file_serializable`] refuses the
    /// value.
    #[verifier::loop_isolation(false)]
    #[verifier::rlimit(100)]
    #[verifier::spinoff_prover]
    pub fn write(&self, cursor: &mut Cursor) -> (r: Result<(), Error>)
        ensures
            file_serializable(self@) ==> r is Ok,
            !file_serializable(self@) ==> r is Err,
            r is Ok ==> final(cursor).data@ == old(cursor).data@ + ser_file(self@)
                && final(cursor).pos == final(cursor).data@.len(),
            r is Err ==> (r matches Err(Error::InvalidValue(_))),
    {
        proof {
            crate::properties::lemma_tags_serializable();
            crate::properties::lemma_pview_entries_index(self.properties.entries@);
            crate::properties::lemma_entries_serializable_iff(self@.properties);
        }
        let ghost d0 = cursor.data@;
        let ghost entries_v = self@.properties;
        match self.header.write(cursor) {
            Ok(()) => (),
            Err(e) => {
                return Err(e);
            },
        };
        let ghost dmid = cursor.data@;
        proof {
            assert(entries_v.subrange(0, 0) =~= Seq::<(Seq<char>, crate::properties::PropertyV)>::empty());
            assert(cursor.data@ =~= dmid + crate::properties::ser_prop_entries(
                entries_v.subrange(0, 0),
            ));
        }
        let n = self.properties.entries.len();
        let mut i: usize = 0;
        while i < n
            invariant
                i <= n,
                n == self.properties.entries@.len(),
                cursor.data@ == dmid + crate::properties::ser_prop_entries(
                    entries_v.subrange(0, i as int),
                ),
                cursor.pos == cursor.data@.len(),
                forall|k: int|
                    0 <= k < i ==> crate::string_codec::string_serializable(
                        (#[trigger] entries_v[k]).0,
                    ) && entries_v[k].0 != "None"@ && crate::properties::prop_serializable(
                        entries_v[k].1,
                        true,
                    ),
            decreases n - i,
        {
            let e = &self.properties.entries[i];
            proof {
                assert(entries_v[i as int] == (e.name@, crate::properties::pview(e.value)));
            }
            if crate::string_codec::strings_equal(e.name.as_str(), "None") {
                proof {
                    assert(!crate::properties::entries_serializable(entries_v));
                }
                return Err(Error::InvalidValue("a property cannot be named None".to_owned()));
            }
            match cursor.write_string(e.name.as_str()) {
                Ok(()) => (),
                Err(err) => {
                    proof {
                        assert(!crate::properties::entries_serializable(entries_v));
                    }
                    return Err(err);
                },
            };
            match e.value.write(cursor, true) {
                Ok(()) => (),
                Err(err) => {
                    proof {
                        assert(!crate::properties::entries_serializable(entries_v));
                    }
                    return Err(err);
                },
            };
            i = i + 1;
            proof {
                crate::properties::lemma_ser_prop_entries_snoc(
                    entries_v.subrange(0, i - 1),
                    entries_v[i - 1],
                );
                assert(entries_v.subrange(0, i as int) =~= entries_v.subrange(0, i - 1).push(
                    entries_v[i - 1],
                ));
                assert(cursor.data@ =~= dmid + crate::properties::ser_prop_entries(
                    entries_v.subrange(0, i as int),
                ));
            }
        }
        proof {
            assert(entries_v.subrange(0, n as int) =~= entries_v);
        }
        match cursor.write_string("None") {
            Ok(()) => (),
            Err(_) => {
                proof {
                    assert(false);
                }
            },
        };
        cursor.write_i32(0);
        proof {
            assert(cursor.data@ =~= d0 + ser_file(self@));
        }
        Ok(())
    }
}


/// LAW (file round trip): a file whose header and property bag can be
/// written, whose property names do not repeat, and whose every property
/// value is self-framing (see [`crate::properties::self_framing`]) encodes
/// to bytes that decode back — under any hint map — to exactly the same
/// header and the same property list, the decode ending at the zero
/// padding field. Together with the exact contracts of [`GvasFile::read`],
/// [`GvasFile::read_with_hints`] and [`GvasFile::write`], this makes
/// decoding a left inverse of encoding for such files.
pub proof fn lemma_file_parse_ser(f: GvasFileV, b: Seq<u8>, h: Seq<(String, String)>, p: int)
    requires
        file_serializable(f),
        crate::properties::bag_framing(f.properties),
        bytes_at(b, p, ser_file(f)),
    ensures
        header_parse_ok(b, p),
        header_parse_val(b, p) == f.header,
        crate::properties::bag_parse(b, h, Seq::<Seq<char>>::empty(), p + header_parse_len(b, p))
            == Some((f.properties, p + ser_file(f).len() - 4)),
        crate::properties::ventries_insert_all(Seq::empty(), f.properties) == f.properties,
{
    lemma_auto_spec_u32_to_from_le_bytes();
    let s1 = ser_header(f.header);
    let s2 = crate::properties::ser_prop_entries(f.properties);
    let s3 = ser_string("None"@);
    let s4 = spec_i32_to_le_bytes(0i32);
    assert(ser_file(f) =~= s1 + ((s2 + s3) + s4));
    lemma_bytes_at_split(b, p, s1, (s2 + s3) + s4);
    lemma_header_parse_ser(f.header, b, p);
    lemma_bytes_at_split(b, p + s1.len(), s2 + s3, s4);
    crate::properties::lemma_bag_parse_ser(
        b,
        h,
        Seq::<Seq<char>>::empty(),
        p + s1.len(),
        f.properties,
    );
    crate::properties::lemma_ventries_insert_all_framed(Seq::empty(), f.properties);
    assert(Seq::<(Seq<char>, crate::properties::PropertyV)>::empty() + f.properties
        =~= f.properties);
    assert(s4.len() == 4);
}

} // verus!
