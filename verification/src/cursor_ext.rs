//! A byte cursor with exact little-endian integer and string codecs.
//!
//! All multi-byte integers in the file format are little-endian. The
//! serialization of each width is pinned down by the `spec_*_to_le_bytes`
//! functions of `vstd::bytes`; signed values are carried in their two's
//! complement unsigned representation, related by the `*_repr_*` functions
//! below.

use vstd::prelude::*;
use vstd::bytes::*;
use vstd::slice::{slice_index_get, slice_subrange};
use vstd::string::StringExecFnsIsAscii;
use vstd::string::StrSliceExecFns;

use crate::error::Error;
use crate::string_codec::{
    chars_to_string, lemma_parse_val_serializable, lemma_units_from_snoc, lemma_utf16_le_bytes_snoc,
    lemma_utf16_units_snoc, ser_string, str_len_field, str_parse_len, str_parse_ok, str_parse_val,
    str_units_at, string_serializable, try_string_from_utf8, units_from_le_bytes, utf16_decode,
    utf16_decode_exec, utf16_le_bytes, utf16_units, utf16_units_of_char,
};

verus! {

broadcast use vstd::utf8::group_utf8_lib, vstd::string::is_ascii_spec_bytes;

/// An in-memory byte buffer with a current position.
///
/// Reads consume bytes at `pos`; writes append at the end of the buffer and
/// leave `pos` at the new end. `patch_u64` overwrites a previously written
/// 8-byte length field in place, which is how length prefixes are fixed up
/// after their body has been written and measured.
pub struct Cursor {
    pub data: Vec<u8>,
    pub pos: usize,
}

/// The unsigned two's complement representation of a signed 8-bit value.
pub open spec fn u8_repr_of_i8(v: i8) -> u8 {
    (if v >= 0 {
        v as int
    } else {
        v as int + 0x100
    }) as u8
}

/// The signed value carried by an unsigned 8-bit representation.
pub open spec fn i8_of_u8_repr(u: u8) -> i8 {
    (if u < 0x80 {
        u as int
    } else {
        u as int - 0x100
    }) as i8
}

/// The unsigned two's complement representation of a signed 16-bit value.
pub open spec fn u16_repr_of_i16(v: i16) -> u16 {
    (if v >= 0 {
        v as int
    } else {
        v as int + 0x1_0000
    }) as u16
}

/// The signed value carried by an unsigned 16-bit representation.
pub open spec fn i16_of_u16_repr(u: u16) -> i16 {
    (if u < 0x8000 {
        u as int
    } else {
        u as int - 0x1_0000
    }) as i16
}

/// The unsigned two's complement representation of a signed 32-bit value.
pub open spec fn u32_repr_of_i32(v: i32) -> u32 {
    (if v >= 0 {
        v as int
    } else {
        v as int + 0x1_0000_0000
    }) as u32
}

/// The signed value carried by an unsigned 32-bit representation.
pub open spec fn i32_of_u32_repr(u: u32) -> i32 {
    (if u < 0x8000_0000 {
        u as int
    } else {
        u as int - 0x1_0000_0000
    }) as i32
}

/// The unsigned two's complement representation of a signed 64-bit value.
pub open spec fn u64_repr_of_i64(v: i64) -> u64 {
    (if v >= 0 {
        v as int
    } else {
        v as int + 0x1_0000_0000_0000_0000
    }) as u64
}

/// The signed value carried by an unsigned 64-bit representation.
pub open spec fn i64_of_u64_repr(u: u64) -> i64 {
    (if u < 0x8000_0000_0000_0000 {
        u as int
    } else {
        u as int - 0x1_0000_0000_0000_0000
    }) as i64
}

/// The little-endian serialization of a signed 32-bit value.
pub open spec fn spec_i32_to_le_bytes(v: i32) -> Seq<u8> {
    spec_u32_to_le_bytes(u32_repr_of_i32(v))
}

/// The little-endian serialization of a signed 64-bit value.
pub open spec fn spec_i64_to_le_bytes(v: i64) -> Seq<u8> {
    spec_u64_to_le_bytes(u64_repr_of_i64(v))
}

/// Taking the signed view of a representation and back is the identity.
pub proof fn lemma_i32_repr_roundtrip(v: i32)
    ensures
        i32_of_u32_repr(u32_repr_of_i32(v)) == v,
{
}

impl Cursor {
    /// A cursor positioned at the start of the given buffer.
    pub fn new(data: Vec<u8>) -> (c: Cursor)
        ensures
            c.data@ == data@,
            c.pos == 0,
    {
        Cursor { data, pos: 0 }
    }

    /// Consumes the cursor and hands back its buffer.
    pub fn into_inner(self) -> (d: Vec<u8>)
        ensures
            d@ == self.data@,
    {
        self.data
    }

    /// The current byte offset.
    pub fn position(&self) -> (p: usize)
        ensures
            p == self.pos,
    {
        self.pos
    }

    /// Reads one byte and advances.
    pub fn read_u8(&mut self) -> (r: Result<u8, Error>)
        ensures
            final(self).data@ == old(self).data@,
            old(self).pos + 1 <= old(self).data@.len() ==> r == Ok::<u8, Error>(
                old(self).data@[old(self).pos as int],
            ) && final(self).pos == old(self).pos + 1,
            old(self).pos + 1 > old(self).data@.len() ==> r == Err::<u8, Error>(
                Error::Eof(old(self).pos),
            ) && final(self).pos == old(self).pos,
    {
        if self.pos < self.data.len() {
            let b = self.data[self.pos];
            self.pos = self.pos + 1;
            Ok(b)
        } else {
            Err(Error::Eof(self.pos))
        }
    }

    /// Reads `n` bytes and advances.
    pub fn read_bytes(&mut self, n: usize) -> (r: Result<Vec<u8>, Error>)
        ensures
            final(self).data@ == old(self).data@,
            old(self).pos + n <= old(self).data@.len() ==> ({
                &&& r is Ok
                &&& r->Ok_0@ == old(self).data@.subrange(
                    old(self).pos as int,
                    old(self).pos + n,
                )
                &&& final(self).pos == old(self).pos + n
            }),
            old(self).pos + n > old(self).data@.len() ==> r == Err::<Vec<u8>, Error>(
                Error::Eof(old(self).pos),
            ) && final(self).pos == old(self).pos,
    {
        if self.pos <= self.data.len() && n <= self.data.len() - self.pos {
            let total = self.data.len();
            let mut v: Vec<u8> = Vec::new();
            let mut i: usize = 0;
            while i < n
                invariant
                    i <= n,
                    total == self.data@.len(),
                    self.pos + n <= self.data@.len(),
                    v@ == self.data@.subrange(self.pos as int, self.pos + i),
                decreases n - i,
            {
                v.push(self.data[self.pos + i]);
                i = i + 1;
                proof {
                    assert(v@ =~= self.data@.subrange(self.pos as int, self.pos + i));
                }
            }
            self.pos = self.pos + n;
            Ok(v)
        } else {
            Err(Error::Eof(self.pos))
        }
    }

    /// Reads a little-endian unsigned 16-bit integer.
    pub fn read_u16(&mut self) -> (r: Result<u16, Error>)
        ensures
            final(self).data@ == old(self).data@,
            old(self).pos + 2 <= old(self).data@.len() ==> r == Ok::<u16, Error>(
                spec_u16_from_le_bytes(
                    old(self).data@.subrange(old(self).pos as int, old(self).pos + 2),
                ),
            ) && final(self).pos == old(self).pos + 2,
            old(self).pos + 2 > old(self).data@.len() ==> r == Err::<u16, Error>(
                Error::Eof(old(self).pos),
            ) && final(self).pos == old(self).pos,
    {
        match self.read_bytes(2) {
            Ok(b) => Ok(u16_from_le_bytes(b.as_slice())),
            Err(e) => Err(e),
        }
    }

    /// Reads a little-endian unsigned 32-bit integer.
    pub fn read_u32(&mut self) -> (r: Result<u32, Error>)
        ensures
            final(self).data@ == old(self).data@,
            old(self).pos + 4 <= old(self).data@.len() ==> r == Ok::<u32, Error>(
                spec_u32_from_le_bytes(
                    old(self).data@.subrange(old(self).pos as int, old(self).pos + 4),
                ),
            ) && final(self).pos == old(self).pos + 4,
            old(self).pos + 4 > old(self).data@.len() ==> r == Err::<u32, Error>(
                Error::Eof(old(self).pos),
            ) && final(self).pos == old(self).pos,
    {
        match self.read_bytes(4) {
            Ok(b) => Ok(u32_from_le_bytes(b.as_slice())),
            Err(e) => Err(e),
        }
    }

    /// Reads a little-endian unsigned 64-bit integer.
    pub fn read_u64(&mut self) -> (r: Result<u64, Error>)
        ensures
            final(self).data@ == old(self).data@,
            old(self).pos + 8 <= old(self).data@.len() ==> r == Ok::<u64, Error>(
                spec_u64_from_le_bytes(
                    old(self).data@.subrange(old(self).pos as int, old(self).pos + 8),
                ),
            ) && final(self).pos == old(self).pos + 8,
            old(self).pos + 8 > old(self).data@.len() ==> r == Err::<u64, Error>(
                Error::Eof(old(self).pos),
            ) && final(self).pos == old(self).pos,
    {
        match self.read_bytes(8) {
            Ok(b) => Ok(u64_from_le_bytes(b.as_slice())),
            Err(e) => Err(e),
        }
    }

    /// Reads a signed 8-bit integer from its two's complement byte.
    pub fn read_i8(&mut self) -> (r: Result<i8, Error>)
        ensures
            final(self).data@ == old(self).data@,
            old(self).pos + 1 <= old(self).data@.len() ==> r == Ok::<i8, Error>(
                i8_of_u8_repr(old(self).data@[old(self).pos as int]),
            ) && final(self).pos == old(self).pos + 1,
            old(self).pos + 1 > old(self).data@.len() ==> r == Err::<i8, Error>(
                Error::Eof(old(self).pos),
            ) && final(self).pos == old(self).pos,
    {
        match self.read_u8() {
            Ok(u) => {
                if u < 0x80 {
                    Ok(u as i8)
                } else {
                    let hi: i16 = u as i16;
                    Ok((hi - 0x100) as i8)
                }
            },
            Err(e) => Err(e),
        }
    }

    /// Reads a little-endian signed 16-bit integer.
    pub fn read_i16(&mut self) -> (r: Result<i16, Error>)
        ensures
            final(self).data@ == old(self).data@,
            old(self).pos + 2 <= old(self).data@.len() ==> r == Ok::<i16, Error>(
                i16_of_u16_repr(
                    spec_u16_from_le_bytes(
                        old(self).data@.subrange(old(self).pos as int, old(self).pos + 2),
                    ),
                ),
            ) && final(self).pos == old(self).pos + 2,
            old(self).pos + 2 > old(self).data@.len() ==> r == Err::<i16, Error>(
                Error::Eof(old(self).pos),
            ) && final(self).pos == old(self).pos,
    {
        match self.read_u16() {
            Ok(u) => {
                if u < 0x8000 {
                    Ok(u as i16)
                } else {
                    let hi: i32 = u as i32;
                    Ok((hi - 0x1_0000) as i16)
                }
            },
            Err(e) => Err(e),
        }
    }

    /// Reads a little-endian signed 32-bit integer.
    pub fn read_i32(&mut self) -> (r: Result<i32, Error>)
        ensures
            final(self).data@ == old(self).data@,
            old(self).pos + 4 <= old(self).data@.len() ==> r == Ok::<i32, Error>(
                i32_of_u32_repr(
                    spec_u32_from_le_bytes(
                        old(self).data@.subrange(old(self).pos as int, old(self).pos + 4),
                    ),
                ),
            ) && final(self).pos == old(self).pos + 4,
            old(self).pos + 4 > old(self).data@.len() ==> r == Err::<i32, Error>(
                Error::Eof(old(self).pos),
            ) && final(self).pos == old(self).pos,
    {
        match self.read_u32() {
            Ok(u) => {
                if u < 0x8000_0000 {
                    Ok(u as i32)
                } else {
                    let hi: i64 = u as i64;
                    Ok((hi - 0x1_0000_0000) as i32)
                }
            },
            Err(e) => Err(e),
        }
    }

    /// Reads a little-endian signed 64-bit integer.
    pub fn read_i64(&mut self) -> (r: Result<i64, Error>)
        ensures
            final(self).data@ == old(self).data@,
            old(self).pos + 8 <= old(self).data@.len() ==> r == Ok::<i64, Error>(
                i64_of_u64_repr(
                    spec_u64_from_le_bytes(
                        old(self).data@.subrange(old(self).pos as int, old(self).pos + 8),
                    ),
                ),
            ) && final(self).pos == old(self).pos + 8,
            old(self).pos + 8 > old(self).data@.len() ==> r == Err::<i64, Error>(
                Error::Eof(old(self).pos),
            ) && final(self).pos == old(self).pos,
    {
        match self.read_u64() {
            Ok(u) => {
                if u < 0x8000_0000_0000_0000 {
                    Ok(u as i64)
                } else {
                    let lo: u64 = u - 0x8000_0000_0000_0000;
                    Ok((lo as i64) + i64::MIN)
                }
            },
            Err(e) => Err(e),
        }
    }

    /// Appends one byte.
    pub fn write_u8(&mut self, x: u8)
        ensures
            final(self).data@ == old(self).data@.push(x),
            final(self).pos == final(self).data@.len(),
    {
        self.data.push(x);
        self.pos = self.data.len();
    }

    /// Appends the bytes of a slice.
    pub fn write_bytes(&mut self, v: &[u8])
        ensures
            final(self).data@ == old(self).data@ + v@,
            final(self).pos == final(self).data@.len(),
    {
        let n = v.len();
        let mut i: usize = 0;
        while i < n
            invariant
                i <= n,
                n == v@.len(),
                self.data@ == old(self).data@ + v@.subrange(0, i as int),
            decreases n - i,
        {
            let b = *slice_index_get(v, i);
            self.data.push(b);
            i = i + 1;
            proof {
                assert(self.data@ =~= old(self).data@ + v@.subrange(0, i as int));
            }
        }
        proof {
            assert(self.data@ =~= old(self).data@ + v@);
        }
        self.pos = self.data.len();
    }

    /// Appends a little-endian unsigned 16-bit integer.
    pub fn write_u16(&mut self, x: u16)
        ensures
            final(self).data@ == old(self).data@ + spec_u16_to_le_bytes(x),
            final(self).pos == final(self).data@.len(),
    {
        let mut b = u16_to_le_bytes(x);
        self.data.append(&mut b);
        self.pos = self.data.len();
    }

    /// Appends a little-endian unsigned 32-bit integer.
    pub fn write_u32(&mut self, x: u32)
        ensures
            final(self).data@ == old(self).data@ + spec_u32_to_le_bytes(x),
            final(self).pos == final(self).data@.len(),
    {
        let mut b = u32_to_le_bytes(x);
        self.data.append(&mut b);
        self.pos = self.data.len();
    }

    /// Appends a little-endian unsigned 64-bit integer.
    pub fn write_u64(&mut self, x: u64)
        ensures
            final(self).data@ == old(self).data@ + spec_u64_to_le_bytes(x),
            final(self).pos == final(self).data@.len(),
    {
        let mut b = u64_to_le_bytes(x);
        self.data.append(&mut b);
        self.pos = self.data.len();
    }

    /// Appends a signed 8-bit integer as its two's complement byte.
    pub fn write_i8(&mut self, v: i8)
        ensures
            final(self).data@ == old(self).data@.push(u8_repr_of_i8(v)),
            final(self).pos == final(self).data@.len(),
    {
        if v >= 0 {
            self.write_u8(v as u8);
        } else {
            let wide: i16 = v as i16;
            self.write_u8((wide + 0x100) as u8);
        }
    }

    /// Appends a little-endian signed 16-bit integer.
    pub fn write_i16(&mut self, v: i16)
        ensures
            final(self).data@ == old(self).data@ + spec_u16_to_le_bytes(u16_repr_of_i16(v)),
            final(self).pos == final(self).data@.len(),
    {
        if v >= 0 {
            self.write_u16(v as u16);
        } else {
            let wide: i32 = v as i32;
            self.write_u16((wide + 0x1_0000) as u16);
        }
    }

    /// Appends a little-endian signed 32-bit integer.
    pub fn write_i32(&mut self, v: i32)
        ensures
            final(self).data@ == old(self).data@ + spec_i32_to_le_bytes(v),
            final(self).pos == final(self).data@.len(),
    {
        if v >= 0 {
            self.write_u32(v as u32);
        } else {
            let wide: i64 = v as i64;
            self.write_u32((wide + 0x1_0000_0000) as u32);
        }
    }

    /// Appends a little-endian signed 64-bit integer.
    pub fn write_i64(&mut self, v: i64)
        ensures
            final(self).data@ == old(self).data@ + spec_i64_to_le_bytes(v),
            final(self).pos == final(self).data@.len(),
    {
        if v >= 0 {
            self.write_u64(v as u64);
        } else {
            let lo: i64 = v - i64::MIN;
            self.write_u64((lo as u64) + 0x8000_0000_0000_0000);
        }
    }

    /// Overwrites 8 previously written bytes with a little-endian unsigned
    /// 64-bit integer, leaving everything else in place. This is the
    /// second pass of the length-prefix patching discipline.
    pub fn patch_u64(&mut self, off: usize, x: u64)
        requires
            off + 8 <= old(self).data@.len(),
        ensures
            final(self).data@ == old(self).data@.subrange(0, off as int) + spec_u64_to_le_bytes(x)
                + old(self).data@.subrange(off + 8, old(self).data@.len() as int),
            final(self).data@.len() == old(self).data@.len(),
            final(self).pos == old(self).pos,
    {
        proof {
            lemma_auto_spec_u64_to_from_le_bytes();
        }
        let b = u64_to_le_bytes(x);
        let total = self.data.len();
        let mut i: usize = 0;
        while i < 8
            invariant
                i <= 8,
                total == self.data@.len(),
                off + 8 <= self.data@.len(),
                self.data@.len() == old(self).data@.len(),
                self.pos == old(self).pos,
                b@ == spec_u64_to_le_bytes(x),
                b@.len() == 8,
                self.data@ == old(self).data@.subrange(0, off as int) + b@.subrange(0, i as int)
                    + old(self).data@.subrange(off + i, old(self).data@.len() as int),
            decreases 8 - i,
        {
            proof {
                assert(self.data@[off + i] == old(self).data@[off + i]);
            }
            self.data[off + i] = b[i];
            i = i + 1;
            proof {
                assert(self.data@ =~= old(self).data@.subrange(0, off as int) + b@.subrange(
                    0,
                    i as int,
                ) + old(self).data@.subrange(off + i, old(self).data@.len() as int));
            }
        }
        proof {
            assert(b@.subrange(0, 8) =~= b@);
        }
    }

    /// Decodes a length-prefixed string at the current position.
    ///
    /// Succeeds exactly when `str_parse_ok` holds of the buffer, yielding
    /// `str_parse_val` and consuming `str_parse_len` bytes. A length field
    /// outside the sanity bound (including the unrepresentable `i32::MIN`)
    /// is an `InvalidString` error. Every string this returns is itself
    /// serializable, so it can be written back.
    pub fn read_string(&mut self) -> (r: Result<String, Error>)
        ensures
            final(self).data@ == old(self).data@,
            old(self).pos <= final(self).pos,
            final(self).pos <= final(self).data@.len() || final(self).pos == old(self).pos,
            str_parse_ok(old(self).data@, old(self).pos as int) ==> ({
                &&& r is Ok
                &&& r->Ok_0@ == str_parse_val(old(self).data@, old(self).pos as int)
                &&& string_serializable(r->Ok_0@)
                &&& final(self).pos == old(self).pos + str_parse_len(
                    old(self).data@,
                    old(self).pos as int,
                )
            }),
            !str_parse_ok(old(self).data@, old(self).pos as int) ==> r is Err,
            old(self).pos + 4 <= old(self).data@.len() && !(-131072 <= str_len_field(
                old(self).data@,
                old(self).pos as int,
            ) <= 131072) ==> r == Err::<String, Error>(
                Error::InvalidString(
                    i32_of_u32_repr(
                        spec_u32_from_le_bytes(
                            old(self).data@.subrange(old(self).pos as int, old(self).pos + 4),
                        ),
                    ),
                ),
            ),
            r matches Err(Error::InvalidString(n)) ==> old(self).pos + 4 <= old(self).data@.len()
                && n as int == str_len_field(old(self).data@, old(self).pos as int) && !(-131072
                <= n <= 131072),
    {
        let ghost b = old(self).data@;
        let ghost p = old(self).pos as int;
        let n = match self.read_i32() {
            Ok(x) => x,
            Err(e) => {
                return Err(e);
            },
        };
        if n < -131072 || n > 131072 {
            return Err(Error::InvalidString(n));
        }
        if n == 0 {
            return Ok(String::new());
        }
        if n > 0 {
            let m = (n - 1) as usize;
            let buf = match self.read_bytes(m) {
                Ok(v) => v,
                Err(e) => {
                    return Err(e);
                },
            };
            let _terminator = match self.read_u8() {
                Ok(t) => t,
                Err(e) => {
                    return Err(e);
                },
            };
            proof {
                assert(str_parse_ok(b, p));
                lemma_parse_val_serializable(b, p);
                assert(buf@ =~= b.subrange(p + 4, p + 4 + n - 1));
            }
            match try_string_from_utf8(buf) {
                Some(s) => Ok(s),
                None => Ok("None".to_owned()),
            }
        } else {
            let m = ((-n) as usize) - 1;
            let buf = match self.read_bytes(2 * m) {
                Ok(v) => v,
                Err(e) => {
                    return Err(e);
                },
            };
            let _terminator = match self.read_u16() {
                Ok(t) => t,
                Err(e) => {
                    return Err(e);
                },
            };
            let mut units: Vec<u16> = Vec::new();
            let mut k: usize = 0;
            proof {
                assert(buf@.subrange(0, 0) =~= Seq::<u8>::empty());
            }
            while k < m
                invariant
                    k <= m,
                    m <= 131071,
                    buf@.len() == 2 * m,
                    units@ == units_from_le_bytes(buf@.subrange(0, 2 * k as int)),
                decreases m - k,
            {
                let sl = slice_subrange(buf.as_slice(), 2 * k, 2 * k + 2);
                let u = u16_from_le_bytes(sl);
                proof {
                    assert(buf@.subrange(0, 2 * k as int).len() % 2 == 0);
                    assert(sl@ =~= seq![buf@[2 * k as int], buf@[2 * k + 1]]);
                    lemma_units_from_snoc(
                        buf@.subrange(0, 2 * k as int),
                        buf@[2 * k as int],
                        buf@[2 * k + 1],
                    );
                    assert(buf@.subrange(0, 2 * k as int) + seq![
                        buf@[2 * k as int],
                        buf@[2 * k + 1],
                    ] =~= buf@.subrange(0, 2 * (k + 1) as int));
                }
                units.push(u);
                k = k + 1;
            }
            proof {
                assert(buf@.subrange(0, 2 * m as int) =~= buf@);
                assert(units@ == str_units_at(b, p, n as int)) by {
                    assert(buf@ =~= b.subrange(p + 4, p + 4 + 2 * (-(n as int)) - 2));
                }
            }
            match utf16_decode_exec(&units) {
                Some(chars) => {
                    proof {
                        assert(str_parse_ok(b, p));
                        lemma_parse_val_serializable(b, p);
                    }
                    Ok(chars_to_string(&chars))
                },
                None => Err(Error::InvalidUtf16(self.pos)),
            }
        }
    }

    /// Encodes a string at the end of the buffer: ASCII strings byte by
    /// byte, anything else as UTF-16, exactly as `ser_string` states.
    /// Fails (leaving the buffer unchanged) exactly when the string is too
    /// long for its length field to pass the decoder's sanity bound.
    pub fn write_string(&mut self, v: &str) -> (r: Result<(), Error>)
        ensures
            string_serializable(v@) ==> ({
                &&& r is Ok
                &&& final(self).data@ == old(self).data@ + ser_string(v@)
                &&& final(self).pos == final(self).data@.len()
            }),
            !string_serializable(v@) ==> r is Err && *final(self) == *old(self),
            r is Err ==> (r matches Err(Error::InvalidValue(_))),
    {
        if v.is_ascii() {
            let bytes = v.as_bytes_vec();
            proof {
                vstd::utf8::is_ascii_chars_encode_utf8(v@);
                assert(bytes@ =~= Seq::new(v@.len(), |i| v@[i] as u8));
            }
            if bytes.len() > 131071 {
                return Err(Error::InvalidValue("string too long for the length field".to_owned()));
            }
            let lf = (bytes.len() + 1) as i32;
            self.write_i32(lf);
            self.write_bytes(bytes.as_slice());
            self.write_u8(0);
            proof {
                assert(final(self).data@ =~= old(self).data@ + ser_string(v@));
            }
            Ok(())
        } else {
            let n = v.unicode_len();
            let mut units: Vec<u16> = Vec::new();
            let mut i: usize = 0;
            proof {
                assert(v@.subrange(0, 0) =~= Seq::<char>::empty());
            }
            while i < n
                invariant
                    i <= n,
                    n == v@.len(),
                    units@ == utf16_units(v@.subrange(0, i as int)),
                decreases n - i,
            {
                let c = v.get_char(i);
                proof {
                    lemma_utf16_units_snoc(v@.subrange(0, i as int), c);
                    assert(v@.subrange(0, i + 1) =~= v@.subrange(0, i as int).push(c));
                }
                let cv = c as u32;
                if cv < 0x1_0000 {
                    units.push(cv as u16);
                    proof {
                        assert(utf16_units_of_char(c) =~= seq![(c as u32) as u16]);
                        assert(units@ =~= utf16_units(v@.subrange(0, i + 1)));
                    }
                } else {
                    let x = cv - 0x1_0000;
                    units.push((0xD800 + x / 0x400) as u16);
                    units.push((0xDC00 + x % 0x400) as u16);
                    proof {
                        assert(units@ =~= utf16_units(v@.subrange(0, i + 1)));
                    }
                }
                i = i + 1;
            }
            proof {
                assert(v@.subrange(0, n as int) =~= v@);
            }
            if units.len() > 131071 {
                return Err(Error::InvalidValue("string too long for the length field".to_owned()));
            }
            let m = units.len();
            let lf: i32 = -((m + 1) as i32);
            self.write_i32(lf);
            let ghost mid = self.data@;
            let mut j: usize = 0;
            proof {
                assert(units@.subrange(0, 0) =~= Seq::<u16>::empty());
                assert(self.data@ =~= mid + utf16_le_bytes(units@.subrange(0, 0)));
            }
            while j < m
                invariant
                    j <= m,
                    m == units@.len(),
                    self.data@ == mid + utf16_le_bytes(units@.subrange(0, j as int)),
                    self.pos == self.data@.len(),
                decreases m - j,
            {
                proof {
                    lemma_utf16_le_bytes_snoc(units@.subrange(0, j as int), units@[j as int]);
                    assert(units@.subrange(0, j + 1) =~= units@.subrange(0, j as int).push(
                        units@[j as int],
                    ));
                }
                let u = units[j];
                self.write_u16(u);
                j = j + 1;
            }
            proof {
                assert(units@.subrange(0, m as int) =~= units@);
            }
            self.write_u8(0);
            self.write_u8(0);
            proof {
                assert(final(self).data@ =~= old(self).data@ + ser_string(v@));
            }
            Ok(())
        }
    }
}

/// The string codec as an extension trait over the byte cursor.
pub trait CursorExt {
    /// Decodes a length-prefixed string at the current position.
    fn read_string(&mut self) -> Result<String, Error>;

    /// Encodes a string at the end of the buffer.
    fn write_string(&mut self, v: &str) -> Result<(), Error>;
}

impl CursorExt for Cursor {
    fn read_string(&mut self) -> Result<String, Error> {
        Cursor::read_string(self)
    }

    fn write_string(&mut self, v: &str) -> Result<(), Error> {
        Cursor::write_string(self, v)
    }
}

} // verus!
