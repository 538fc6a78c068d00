//! The two-encoding string codec.
//!
//! A serialized string is a signed 32-bit length followed by the content:
//! pure-ASCII strings are written as `byte_length + 1`, the raw bytes and a
//! zero byte; anything else is written as `-(code_unit_count + 1)` followed
//! by the UTF-16 code units little-endian and a zero unit. Decoding bounds
//! the length field by `[-131072, 131072]` as a guard against corrupt files.

use vstd::prelude::*;
use vstd::bytes::*;
use vstd::utf8::*;
use vstd::string::StrSliceExecFns;

use crate::cursor_ext::{i32_of_u32_repr, spec_i32_to_le_bytes, u32_repr_of_i32};

verus! {

broadcast use vstd::utf8::group_utf8_lib, vstd::string::is_ascii_spec_bytes;

/// The decoder's sanity bound on the absolute value of a length field.
pub const STRING_LENGTH_BOUND: i32 = 131072;

/// Whether a code unit stands alone (is no surrogate).
pub open spec fn is_single_unit(u: u16) -> bool {
    u < 0xD800 || 0xE000 <= u
}

/// Whether a code unit is a high (leading) surrogate.
pub open spec fn is_high_surrogate(u: u16) -> bool {
    0xD800 <= u < 0xDC00
}

/// Whether a code unit is a low (trailing) surrogate.
pub open spec fn is_low_surrogate(u: u16) -> bool {
    0xDC00 <= u < 0xE000
}

/// The UTF-16 encoding of one character: itself if it fits in one unit,
/// otherwise a surrogate pair.
pub open spec fn utf16_units_of_char(c: char) -> Seq<u16> {
    if (c as u32) < 0x1_0000 {
        seq![(c as u32) as u16]
    } else {
        let v = (c as u32) - 0x1_0000;
        seq![(0xD800 + v / 0x400) as u16, (0xDC00 + v % 0x400) as u16]
    }
}

/// The UTF-16 encoding of a character sequence.
pub open spec fn utf16_units(s: Seq<char>) -> Seq<u16>
    decreases s.len(),
{
    if s.len() == 0 {
        Seq::empty()
    } else {
        utf16_units_of_char(s[0]) + utf16_units(s.subrange(1, s.len() as int))
    }
}

/// Whether a code unit sequence is well-formed UTF-16: every high surrogate
/// is followed by a low surrogate and no low surrogate stands alone.
pub open spec fn utf16_valid(u: Seq<u16>) -> bool
    decreases u.len(),
{
    if u.len() == 0 {
        true
    } else if is_single_unit(u[0]) {
        utf16_valid(u.subrange(1, u.len() as int))
    } else if is_high_surrogate(u[0]) {
        &&& u.len() >= 2
        &&& is_low_surrogate(u[1])
        &&& utf16_valid(u.subrange(2, u.len() as int))
    } else {
        false
    }
}

/// The scalar value encoded by a surrogate pair.
pub open spec fn utf16_pair_scalar(hi: u16, lo: u16) -> u32
    recommends
        is_high_surrogate(hi),
        is_low_surrogate(lo),
{
    (0x1_0000 + (hi - 0xD800) * 0x400 + (lo - 0xDC00)) as u32
}

/// The characters encoded by a well-formed UTF-16 code unit sequence.
pub open spec fn utf16_decode(u: Seq<u16>) -> Seq<char>
    recommends
        utf16_valid(u),
    decreases u.len(),
{
    if u.len() == 0 {
        Seq::empty()
    } else if is_single_unit(u[0]) {
        seq![(u[0] as u32) as char] + utf16_decode(u.subrange(1, u.len() as int))
    } else if u.len() >= 2 && is_high_surrogate(u[0]) && is_low_surrogate(u[1]) {
        seq![utf16_pair_scalar(u[0], u[1]) as char] + utf16_decode(u.subrange(2, u.len() as int))
    } else {
        Seq::empty()
    }
}

/// The little-endian byte serialization of a code unit sequence.
pub open spec fn utf16_le_bytes(u: Seq<u16>) -> Seq<u8>
    decreases u.len(),
{
    if u.len() == 0 {
        Seq::empty()
    } else {
        spec_u16_to_le_bytes(u[0]) + utf16_le_bytes(u.subrange(1, u.len() as int))
    }
}

/// The code unit sequence carried by a little-endian byte sequence of even
/// length.
pub open spec fn units_from_le_bytes(b: Seq<u8>) -> Seq<u16>
    decreases b.len(),
{
    if b.len() < 2 {
        Seq::empty()
    } else {
        seq![spec_u16_from_le_bytes(b.subrange(0, 2))] + units_from_le_bytes(
            b.subrange(2, b.len() as int),
        )
    }
}

/// The exact byte serialization of a string.
pub open spec fn ser_string(s: Seq<char>) -> Seq<u8> {
    if is_ascii_chars(s) {
        spec_i32_to_le_bytes((s.len() + 1) as i32) + Seq::new(s.len(), |i| s[i] as u8) + seq![0u8]
    } else {
        let units = utf16_units(s);
        spec_i32_to_le_bytes((-(units.len() + 1)) as i32) + utf16_le_bytes(units) + seq![0u8, 0u8]
    }
}

/// Whether a string is short enough for its length field to pass the
/// decoder's sanity bound, so that encoding it succeeds.
pub open spec fn string_serializable(s: Seq<char>) -> bool {
    if is_ascii_chars(s) {
        s.len() + 1 <= STRING_LENGTH_BOUND
    } else {
        utf16_units(s).len() + 1 <= STRING_LENGTH_BOUND
    }
}

/// The length field found at position `p`.
pub open spec fn str_len_field(b: Seq<u8>, p: int) -> int {
    i32_of_u32_repr(spec_u32_from_le_bytes(b.subrange(p, p + 4))) as int
}

/// The code units of a UTF-16 string whose length field is `n < 0`.
pub open spec fn str_units_at(b: Seq<u8>, p: int, n: int) -> Seq<u16> {
    units_from_le_bytes(b.subrange(p + 4, p + 4 + 2 * (-n) - 2))
}

/// Whether decoding a string at position `p` succeeds.
pub open spec fn str_parse_ok(b: Seq<u8>, p: int) -> bool {
    let n = str_len_field(b, p);
    &&& 0 <= p
    &&& p + 4 <= b.len()
    &&& -131072 <= n <= 131072
    &&& (n > 0 ==> p + 4 + n <= b.len())
    &&& (n < 0 ==> p + 4 + 2 * (-n) <= b.len() && utf16_valid(str_units_at(b, p, n)))
}

/// How many bytes a successful string decode at position `p` consumes.
pub open spec fn str_parse_len(b: Seq<u8>, p: int) -> int {
    let n = str_len_field(b, p);
    if n > 0 {
        4 + n
    } else if n < 0 {
        4 + 2 * (-n)
    } else {
        4
    }
}

/// The characters a successful string decode at position `p` yields. A
/// positive-length body that is not valid UTF-8 yields the placeholder
/// `"None"` rather than failing.
pub open spec fn str_parse_val(b: Seq<u8>, p: int) -> Seq<char> {
    let n = str_len_field(b, p);
    if n == 0 {
        Seq::empty()
    } else if n > 0 {
        let seg = b.subrange(p + 4, p + 4 + n - 1);
        if valid_utf8(seg) {
            decode_utf8(seg)
        } else {
            "None"@
        }
    } else {
        utf16_decode(str_units_at(b, p, n))
    }
}

/// Appending one character extends the UTF-16 encoding by that character's
/// units.
pub proof fn lemma_utf16_units_snoc(s: Seq<char>, c: char)
    ensures
        utf16_units(s.push(c)) == utf16_units(s) + utf16_units_of_char(c),
    decreases s.len(),
{
    if s.len() == 0 {
        assert(s.push(c)[0] == c);
        assert(s.push(c).subrange(1, 1) =~= Seq::<char>::empty());
        assert(utf16_units(s.push(c)) == utf16_units_of_char(c) + utf16_units(
            Seq::<char>::empty(),
        ));
        assert(utf16_units(s.push(c)) =~= utf16_units(s) + utf16_units_of_char(c));
    } else {
        let rest = s.subrange(1, s.len() as int);
        assert(s.push(c)[0] == s[0]);
        assert(s.push(c).subrange(1, s.len() as int + 1) =~= rest.push(c));
        lemma_utf16_units_snoc(rest, c);
        assert(utf16_units(s.push(c)) == utf16_units_of_char(s[0]) + (utf16_units(rest)
            + utf16_units_of_char(c)));
        assert(utf16_units(s.push(c)) =~= utf16_units(s) + utf16_units_of_char(c));
    }
}

/// Appending one code unit extends the byte serialization by its two bytes.
pub proof fn lemma_utf16_le_bytes_snoc(u: Seq<u16>, x: u16)
    ensures
        utf16_le_bytes(u.push(x)) == utf16_le_bytes(u) + spec_u16_to_le_bytes(x),
    decreases u.len(),
{
    if u.len() == 0 {
        assert(u.push(x)[0] == x);
        assert(u.push(x).subrange(1, 1) =~= Seq::<u16>::empty());
        assert(utf16_le_bytes(u.push(x)) == spec_u16_to_le_bytes(x) + utf16_le_bytes(
            Seq::<u16>::empty(),
        ));
        assert(utf16_le_bytes(u.push(x)) =~= utf16_le_bytes(u) + spec_u16_to_le_bytes(x));
    } else {
        let rest = u.subrange(1, u.len() as int);
        assert(u.push(x)[0] == u[0]);
        assert(u.push(x).subrange(1, u.len() as int + 1) =~= rest.push(x));
        lemma_utf16_le_bytes_snoc(rest, x);
        assert(utf16_le_bytes(u.push(x)) == spec_u16_to_le_bytes(u[0]) + (utf16_le_bytes(rest)
            + spec_u16_to_le_bytes(x)));
        assert(utf16_le_bytes(u.push(x)) =~= utf16_le_bytes(u) + spec_u16_to_le_bytes(x));
    }
}

/// The byte serialization of a code unit sequence has twice its length.
pub proof fn lemma_utf16_le_bytes_len(u: Seq<u16>)
    ensures
        utf16_le_bytes(u).len() == 2 * u.len(),
    decreases u.len(),
{
    if u.len() > 0 {
        lemma_auto_spec_u16_to_from_le_bytes();
        lemma_utf16_le_bytes_len(u.subrange(1, u.len() as int));
    }
}

/// Reading code units back from their byte serialization is the identity.
pub proof fn lemma_units_from_le_bytes_of_ser(u: Seq<u16>)
    ensures
        units_from_le_bytes(utf16_le_bytes(u)) == u,
    decreases u.len(),
{
    lemma_auto_spec_u16_to_from_le_bytes();
    if u.len() == 0 {
    } else {
        let b = utf16_le_bytes(u);
        let rest = u.subrange(1, u.len() as int);
        lemma_utf16_le_bytes_len(rest);
        assert(b.subrange(0, 2) =~= spec_u16_to_le_bytes(u[0]));
        assert(b.subrange(2, b.len() as int) =~= utf16_le_bytes(rest));
        lemma_units_from_le_bytes_of_ser(rest);
        assert(units_from_le_bytes(utf16_le_bytes(u)) =~= u);
    }
}

/// The UTF-16 encoding of any string is well-formed and decodes back to the
/// string; it is at least as long as the string and at most twice as long.
pub proof fn lemma_utf16_roundtrip(s: Seq<char>)
    ensures
        utf16_valid(utf16_units(s)),
        utf16_decode(utf16_units(s)) == s,
        s.len() <= utf16_units(s).len() <= 2 * s.len(),
    decreases s.len(),
{
    if s.len() == 0 {
        assert(utf16_decode(utf16_units(s)) =~= s);
    } else {
        let c = s[0];
        let rest = s.subrange(1, s.len() as int);
        lemma_utf16_roundtrip(rest);
        let u = utf16_units(s);
        let cu = utf16_units_of_char(c);
        char_is_scalar(c);
        if (c as u32) < 0x1_0000 {
            assert(is_single_unit(cu[0]));
            assert(u.subrange(1, u.len() as int) =~= utf16_units(rest));
            assert(((u[0] as u32) as char) == c) by {
                assert(u[0] as u32 == c as u32);
                char_u32_cast(c, c as u32);
            }
            assert(utf16_decode(u) =~= s);
        } else {
            let v = (c as u32) - 0x1_0000;
            assert(0 <= v <= 0xFFFFF);
            assert(is_high_surrogate(cu[0]));
            assert(is_low_surrogate(cu[1]));
            assert(u[0] == cu[0] && u[1] == cu[1]);
            assert(u.subrange(2, u.len() as int) =~= utf16_units(rest));
            assert(utf16_pair_scalar(cu[0], cu[1]) == c as u32) by {
                assert(v / 0x400 <= 0x3FF);
                assert((cu[0] - 0xD800) == v / 0x400);
                assert((cu[1] - 0xDC00) == v % 0x400);
                assert((v / 0x400) * 0x400 + v % 0x400 == v) by {
                    vstd::arithmetic::div_mod::lemma_fundamental_div_mod(v as int, 0x400);
                }
            }
            assert((utf16_pair_scalar(cu[0], cu[1]) as char) == c) by {
                char_u32_cast(c, c as u32);
            }
            assert(utf16_decode(u) =~= s);
        }
    }
}

/// Decoding well-formed UTF-16 and re-encoding yields the same units, and
/// the decoded string is no longer than the unit sequence.
pub proof fn lemma_utf16_decode_units(u: Seq<u16>)
    requires
        utf16_valid(u),
    ensures
        utf16_units(utf16_decode(u)) == u,
        utf16_decode(u).len() <= u.len(),
    decreases u.len(),
{
    if u.len() == 0 {
        assert(utf16_units(utf16_decode(u)) =~= u);
    } else if is_single_unit(u[0]) {
        let rest = u.subrange(1, u.len() as int);
        lemma_utf16_decode_units(rest);
        let c = (u[0] as u32) as char;
        assert(c as u32 == u[0] as u32) by {
            char_u32_cast(c, u[0] as u32);
        }
        let s = utf16_decode(u);
        assert(s == seq![c] + utf16_decode(rest));
        assert(s.len() > 0 && s[0] == c);
        assert(s.subrange(1, s.len() as int) =~= utf16_decode(rest));
        assert(utf16_units_of_char(c) =~= seq![u[0]]);
        assert(utf16_units(s) =~= u);
    } else {
        let rest = u.subrange(2, u.len() as int);
        lemma_utf16_decode_units(rest);
        let scalar = utf16_pair_scalar(u[0], u[1]);
        assert(0x1_0000 <= scalar <= 0x10FFFF);
        let c = scalar as char;
        assert(c as u32 == scalar) by {
            char_u32_cast(c, scalar);
        }
        let s = utf16_decode(u);
        assert(s.len() > 0 && s[0] == c);
        assert(s.subrange(1, s.len() as int) =~= utf16_decode(rest));
        let v = scalar - 0x1_0000;
        assert(utf16_units_of_char(c) =~= seq![u[0], u[1]]) by {
            assert(v == (u[0] - 0xD800) * 0x400 + (u[1] - 0xDC00));
            assert(v / 0x400 == u[0] - 0xD800 && v % 0x400 == u[1] - 0xDC00) by {
                vstd::arithmetic::div_mod::lemma_fundamental_div_mod_converse(
                    v as int,
                    0x400,
                    u[0] - 0xD800,
                    u[1] - 0xDC00,
                );
            }
        }
        assert(utf16_units(s) =~= u);
    }
}

/// The UTF-16 encoding of a string is no longer than its UTF-8 encoding.
pub proof fn lemma_utf16_units_le_utf8(s: Seq<char>)
    ensures
        utf16_units(s).len() <= encode_utf8(s).len(),
    decreases s.len(),
{
    if s.len() > 0 {
        let rest = s.subrange(1, s.len() as int);
        lemma_utf16_units_le_utf8(rest);
        char_is_scalar(s[0]);
        assert(rest =~= s.drop_first());
        assert(encode_utf8(s) == encode_scalar(s[0] as u32) + encode_utf8(rest));
    }
}

/// A valid UTF-8 byte sequence decodes to at most as many characters as it
/// has bytes.
pub proof fn lemma_decode_utf8_len(b: Seq<u8>)
    requires
        valid_utf8(b),
    ensures
        decode_utf8(b).len() <= b.len(),
    decreases b.len(),
{
    if b.len() > 0 {
        assert(1 <= length_of_first_scalar(b) <= b.len());
        lemma_decode_utf8_len(pop_first_scalar(b));
    }
}

/// Every string a decode can yield is itself serializable, so re-encoding a
/// decoded value cannot fail on a string.
pub proof fn lemma_parse_val_serializable(b: Seq<u8>, p: int)
    requires
        str_parse_ok(b, p),
    ensures
        string_serializable(str_parse_val(b, p)),
{
    let n = str_len_field(b, p);
    let s = str_parse_val(b, p);
    if n == 0 {
        assert(is_ascii_chars(s));
    } else if n > 0 {
        let seg = b.subrange(p + 4, p + 4 + n - 1);
        if valid_utf8(seg) {
            assert(encode_utf8(s) == seg);
            if is_ascii_chars(s) {
                is_ascii_chars_encode_utf8(s);
            } else {
                lemma_utf16_units_le_utf8(s);
            }
        } else {
            reveal_strlit("None");
            assert(is_ascii_chars(s));
        }
    } else {
        let units = str_units_at(b, p, n);
        assert(units.len() <= 131071) by {
            lemma_units_from_le_bytes_le(b.subrange(p + 4, p + 4 + 2 * (-n) - 2));
        }
        lemma_utf16_decode_units(units);
        if is_ascii_chars(s) {
            assert(s.len() <= units.len());
        } else {
            assert(utf16_units(s) == units);
        }
    }
}

/// Appending two bytes appends one code unit.
pub proof fn lemma_units_from_snoc(d: Seq<u8>, b0: u8, b1: u8)
    requires
        d.len() % 2 == 0,
    ensures
        units_from_le_bytes(d + seq![b0, b1]) == units_from_le_bytes(d).push(
            spec_u16_from_le_bytes(seq![b0, b1]),
        ),
    decreases d.len(),
{
    let e = seq![b0, b1];
    if d.len() == 0 {
        assert((d + e).subrange(0, 2) =~= e);
        assert((d + e).subrange(2, 2) =~= Seq::<u8>::empty());
        assert(units_from_le_bytes(Seq::<u8>::empty()) =~= Seq::<u16>::empty());
        assert(units_from_le_bytes(d) =~= Seq::<u16>::empty());
        assert(units_from_le_bytes(d + e) == seq![spec_u16_from_le_bytes(e)]
            + units_from_le_bytes(Seq::<u8>::empty()));
        assert(units_from_le_bytes(d + e) =~= units_from_le_bytes(d).push(
            spec_u16_from_le_bytes(e),
        ));
    } else {
        let rest = d.subrange(2, d.len() as int);
        assert((d + e).subrange(0, 2) =~= d.subrange(0, 2));
        assert((d + e).subrange(2, (d + e).len() as int) =~= rest + e);
        lemma_units_from_snoc(rest, b0, b1);
        assert(units_from_le_bytes(d + e) == seq![spec_u16_from_le_bytes(d.subrange(0, 2))]
            + units_from_le_bytes(rest + e));
        assert(units_from_le_bytes(d) == seq![spec_u16_from_le_bytes(d.subrange(0, 2))]
            + units_from_le_bytes(rest));
        assert(units_from_le_bytes(d + e) =~= units_from_le_bytes(d).push(
            spec_u16_from_le_bytes(e),
        ));
    }
}

/// A byte sequence carries at most half its length in code units.
pub proof fn lemma_units_from_le_bytes_le(b: Seq<u8>)
    ensures
        2 * units_from_le_bytes(b).len() <= b.len() + 1,
    decreases b.len(),
{
    if b.len() >= 2 {
        lemma_units_from_le_bytes_le(b.subrange(2, b.len() as int));
    }
}

/// The byte length of a serialized string.
pub open spec fn ser_string_len(s: Seq<char>) -> int {
    if is_ascii_chars(s) {
        4 + s.len() as int + 1
    } else {
        4 + 2 * utf16_units(s).len() as int + 2
    }
}

/// `ser_string` has the length `ser_string_len` gives.
pub proof fn lemma_ser_string_len(s: Seq<char>)
    ensures
        ser_string(s).len() == ser_string_len(s),
{
    lemma_auto_spec_u32_to_from_le_bytes();
    if !is_ascii_chars(s) {
        lemma_utf16_le_bytes_len(utf16_units(s));
    }
}

/// LAW (string codec round trip): decoding a serialized string succeeds,
/// consumes exactly the serialized bytes, and yields the original string.
/// This holds for every string whose length field passes the decoder's
/// sanity bound, pure ASCII or not.
pub proof fn lemma_parse_ser_string(s: Seq<char>, b: Seq<u8>, p: int)
    requires
        string_serializable(s),
        0 <= p,
        p + ser_string(s).len() <= b.len(),
        b.subrange(p, p + ser_string(s).len()) == ser_string(s),
    ensures
        str_parse_ok(b, p),
        str_parse_val(b, p) == s,
        str_parse_len(b, p) == ser_string(s).len(),
{
    lemma_auto_spec_u32_to_from_le_bytes();
    lemma_ser_string_len(s);
    let ser = ser_string(s);
    let total = ser.len();
    assert(forall|i: int| 0 <= i < total ==> b[p + i] == #[trigger] ser[i]) by {
        assert(forall|i: int|
            0 <= i < total ==> b.subrange(p, p + total)[i] == #[trigger] b[p + i]);
    }
    if is_ascii_chars(s) {
        let lf = (s.len() + 1) as i32;
        assert(b.subrange(p, p + 4) =~= spec_i32_to_le_bytes(lf));
        assert(str_len_field(b, p) == lf) by {
            crate::cursor_ext::lemma_i32_repr_roundtrip(lf);
        }
        let n = str_len_field(b, p);
        assert(n == s.len() + 1);
        let seg = b.subrange(p + 4, p + 4 + n - 1);
        assert(seg =~= ser.subrange(4, 4 + s.len() as int));
        assert(ser.subrange(4, 4 + s.len() as int) =~= Seq::new(s.len(), |i| s[i] as u8));
        assert(seg =~= Seq::new(s.len(), |i| s[i] as u8));
        is_ascii_chars_encode_utf8(s);
        assert(seg =~= encode_utf8(s));
        encode_utf8_valid_utf8(s);
        encode_utf8_decode_utf8(s);
        assert(str_parse_val(b, p) == s);
    } else {
        let units = utf16_units(s);
        let m = units.len() as int;
        lemma_utf16_roundtrip(s);
        lemma_utf16_le_bytes_len(units);
        let lf = (-(m + 1)) as i32;
        assert(b.subrange(p, p + 4) =~= spec_i32_to_le_bytes(lf));
        assert(str_len_field(b, p) == lf) by {
            crate::cursor_ext::lemma_i32_repr_roundtrip(lf);
        }
        let n = str_len_field(b, p);
        assert(n == -(m + 1));
        assert(b.subrange(p + 4, p + 4 + 2 * (-n) - 2) =~= ser.subrange(4, 4 + 2 * m));
        assert(ser.subrange(4, 4 + 2 * m) =~= utf16_le_bytes(units));
        assert(b.subrange(p + 4, p + 4 + 2 * (-n) - 2) =~= utf16_le_bytes(units));
        lemma_units_from_le_bytes_of_ser(units);
        assert(str_units_at(b, p, n) == units);
        assert(str_parse_val(b, p) == s);
    }
}

/// Relies on `char::from_u32`: it returns `Some` exactly on Unicode scalar
/// values (below the surrogate range or between it and `0x10FFFF`), and the
/// character it returns has the given value.
#[verifier::external_body]
pub(crate) fn char_from_u32(v: u32) -> (r: Option<char>)
    ensures
        r is Some <==> (v < 0xD800 || (0xE000 <= v && v <= 0x10FFFF)),
        r is Some ==> (r->0 as u32) == v,
{
    char::from_u32(v)
}

/// Relies on `String::from_utf8`: it returns `Ok` exactly when the bytes are
/// valid UTF-8, and the returned string's UTF-8 bytes are the input bytes.
#[verifier::external_body]
pub(crate) fn try_string_from_utf8(bytes: Vec<u8>) -> (r: Option<String>)
    ensures
        r is Some <==> valid_utf8(bytes@),
        r is Some ==> encode_utf8(r->0@) == bytes@,
{
    String::from_utf8(bytes).ok()
}

/// Relies on `String`'s `FromIterator<char>` implementation: collecting
/// characters yields the string of exactly those characters.
#[verifier::external_body]
pub(crate) fn chars_to_string(chars: &Vec<char>) -> (r: String)
    ensures
        r@ == chars@,
{
    chars.iter().copied().collect()
}

/// Turns well-formed UTF-16 code units into their characters, reporting
/// `None` on the first invalid surrogate sequence.
pub(crate) fn utf16_decode_exec(units: &Vec<u16>) -> (r: Option<Vec<char>>)
    ensures
        r is Some <==> utf16_valid(units@),
        r is Some ==> r->0@ == utf16_decode(units@),
{
    let n = units.len();
    proof {
        assert(units@.subrange(0, n as int) =~= units@);
    }
    let mut out: Vec<char> = Vec::new();
    let mut i: usize = 0;
    while i < n
        invariant
            i <= n,
            n == units@.len(),
            utf16_valid(units@) <==> utf16_valid(units@.subrange(i as int, n as int)),
            utf16_valid(units@.subrange(i as int, n as int)) ==> utf16_decode(units@) == out@
                + utf16_decode(units@.subrange(i as int, n as int)),
        decreases n - i,
    {
        let ghost suf = units@.subrange(i as int, n as int);
        let u = units[i];
        proof {
            assert(suf[0] == u);
        }
        if u < 0xD800 || u >= 0xE000 {
            let c = match char_from_u32(u as u32) {
                Some(c) => c,
                None => {
                    proof {
                        assert(false);
                    }
                    return None;
                },
            };
            let ghost out_prev = out@;
            out.push(c);
            i = i + 1;
            proof {
                assert(suf.subrange(1, suf.len() as int) =~= units@.subrange(i as int, n as int));
                char_u32_cast(c, u as u32);
                assert(utf16_decode(suf) == seq![c] + utf16_decode(
                    units@.subrange(i as int, n as int),
                ));
                assert(out@ + utf16_decode(units@.subrange(i as int, n as int)) =~= out_prev
                    + utf16_decode(suf));
            }
        } else if u < 0xDC00 {
            if i + 1 < n {
                let lo = units[i + 1];
                proof {
                    assert(suf[1] == lo);
                }
                if 0xDC00 <= lo && lo < 0xE000 {
                    let scalar: u32 = 0x1_0000 + ((u - 0xD800) as u32) * 0x400 + ((lo
                        - 0xDC00) as u32);
                    proof {
                        assert(scalar == utf16_pair_scalar(u, lo));
                    }
                    let c = match char_from_u32(scalar) {
                        Some(c) => c,
                        None => {
                            proof {
                                assert(false);
                            }
                            return None;
                        },
                    };
                    let ghost out_prev = out@;
                    out.push(c);
                    i = i + 2;
                    proof {
                        assert(suf.subrange(2, suf.len() as int) =~= units@.subrange(
                            i as int,
                            n as int,
                        ));
                        char_u32_cast(c, scalar);
                        assert(utf16_decode(suf) == seq![c] + utf16_decode(
                            units@.subrange(i as int, n as int),
                        ));
                        assert(out@ + utf16_decode(units@.subrange(i as int, n as int)) =~= out_prev
                            + utf16_decode(suf));
                    }
                } else {
                    proof {
                        assert(!utf16_valid(suf));
                    }
                    return None;
                }
            } else {
                proof {
                    assert(suf.len() == 1);
                    assert(!utf16_valid(suf));
                }
                return None;
            }
        } else {
            proof {
                assert(!utf16_valid(suf));
            }
            return None;
        }
    }
    proof {
        assert(units@.subrange(n as int, n as int) =~= Seq::<u16>::empty());
        assert(utf16_decode(units@) =~= out@);
    }
    Some(out)
}

/// Compares two string slices by their characters.
pub fn strings_equal(a: &str, b: &str) -> (r: bool)
    ensures
        r == (a@ == b@),
{
    let na = a.unicode_len();
    let nb = b.unicode_len();
    if na != nb {
        proof {
            assert(a@ != b@);
        }
        return false;
    }
    let mut i: usize = 0;
    while i < na
        invariant
            i <= na,
            na == a@.len(),
            na == b@.len(),
            forall|k: int| 0 <= k < i ==> a@[k] == b@[k],
        decreases na - i,
    {
        let ca = a.get_char(i);
        let cb = b.get_char(i);
        if (ca as u32) != (cb as u32) {
            proof {
                assert(a@[i as int] != b@[i as int]);
            }
            return false;
        }
        proof {
            char_u32_cast(ca, ca as u32);
            char_u32_cast(cb, cb as u32);
            assert(ca == cb);
        }
        i = i + 1;
    }
    proof {
        assert(a@ =~= b@);
    }
    true
}

} // verus!
