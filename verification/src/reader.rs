//! The executable decoder, proved against the `wire` spec functions.
//!
//! A reader is an index range over one shared read-only buffer: the
//! position, the exclusive end of the current region, and the count of
//! regions opened above it.  Opening a nested container clones the buffer
//! reference into a child reader over the declared sub-range and advances
//! the parent past the whole declared region at once.

use vstd::prelude::*;
use vstd::slice::slice_subrange;
use vstd::slice::slice_to_vec;

use crate::Bin;
use crate::errors::BinError;
use crate::hashes::BinFNV;
use crate::hashes::BinHashes;
use crate::hashes::BinXXH;
use crate::hashes::resolve32;
use crate::hashes::resolve64;
use crate::hashes::SpecFnv;
use crate::wire::DEPTH_CAP;
use crate::wire::i16_at;
use crate::wire::i32_at;
use crate::wire::i64_at;
use crate::wire::i8_at;
use crate::wire::is_known_tag;
use crate::wire::u16_at;
use crate::wire::u32_at;
use crate::wire::u64_at;
use crate::value::BinValue;
use crate::value::deep_fields;
use crate::value::lemma_deep_fields_push;
use crate::value::lemma_deep_fields_update;
use crate::value::deep_pairs;
use crate::value::deep_seq;
use crate::value::lemma_deep_pairs_push;
use crate::value::lemma_deep_seq_push;
use crate::value::SpecValue;
use crate::value::deep_links;
use crate::value::deep_names;
use crate::value::lemma_deep_links_push;
use crate::wire::MAGIC;
use crate::wire::sd_doc;
use crate::wire::sd_entries;
use crate::wire::sd_entry_items;
use crate::wire::sd_fields;
use crate::wire::sd_links;
use crate::wire::sd_field_items;
use crate::wire::sd_items;
use crate::wire::sd_pairs;
use crate::wire::sd_value;
use crate::wire::TAG_BOOL;
use crate::wire::TAG_EMBED;
use crate::wire::TAG_F32;
use crate::wire::TAG_FILE;
use crate::wire::TAG_FLAG;
use crate::wire::TAG_HASH;
use crate::wire::TAG_I16;
use crate::wire::TAG_I32;
use crate::wire::TAG_I64;
use crate::wire::TAG_I8;
use crate::wire::TAG_LINK;
use crate::wire::TAG_LIST;
use crate::wire::TAG_LIST2;
use crate::wire::TAG_MAP;
use crate::wire::TAG_MTX44;
use crate::wire::TAG_NONE;
use crate::wire::TAG_OPTION;
use crate::wire::TAG_POINTER;
use crate::wire::TAG_RGBA;
use crate::wire::TAG_STRING;
use crate::wire::TAG_U16;
use crate::wire::TAG_U32;
use crate::wire::TAG_U64;
use crate::wire::TAG_U8;
use crate::wire::TAG_VEC2;
use crate::wire::TAG_VEC3;
use crate::wire::TAG_VEC4;
use crate::wire::assoc_set;
use crate::wire::lemma_assoc_set_absent;
use crate::wire::lemma_assoc_set_found;
use crate::wire::sd_text;
use crate::wire::utf8_from;
use crate::wire::utf8_ok;

verus! {

/// Whether `b` names a known value kind.
fn known_tag(b: u8) -> (r: bool)
    ensures
        r == is_known_tag(b),
{
    b <= 18 || (0x80 <= b && b <= 0x87)
}

/// Whether `s` is strict UTF-8.
fn validate_utf8(s: &[u8]) -> (r: bool)
    ensures
        r == utf8_ok(s@),
{
    let n = s.len();
    let mut i: usize = 0;
    while i < n
        invariant
            0 <= i <= n,
            n == s@.len(),
            utf8_ok(s@) == utf8_from(s@, i as int),
        decreases n - i,
    {
        let b0 = s[i];
        if b0 < 0x80 {
            i = i + 1;
        } else if 0xC2 <= b0 && b0 <= 0xDF {
            if n - i >= 2 && 0x80 <= s[i + 1] && s[i + 1] <= 0xBF {
                i = i + 2;
            } else {
                return false;
            }
        } else if b0 == 0xE0 {
            if n - i >= 3 && 0xA0 <= s[i + 1] && s[i + 1] <= 0xBF && 0x80 <= s[i + 2] && s[i + 2]
                <= 0xBF {
                i = i + 3;
            } else {
                return false;
            }
        } else if b0 == 0xED {
            if n - i >= 3 && 0x80 <= s[i + 1] && s[i + 1] <= 0x9F && 0x80 <= s[i + 2] && s[i + 2]
                <= 0xBF {
                i = i + 3;
            } else {
                return false;
            }
        } else if (0xE1 <= b0 && b0 <= 0xEC) || b0 == 0xEE || b0 == 0xEF {
            if n - i >= 3 && 0x80 <= s[i + 1] && s[i + 1] <= 0xBF && 0x80 <= s[i + 2] && s[i + 2]
                <= 0xBF {
                i = i + 3;
            } else {
                return false;
            }
        } else if b0 == 0xF0 {
            if n - i >= 4 && 0x90 <= s[i + 1] && s[i + 1] <= 0xBF && 0x80 <= s[i + 2] && s[i + 2]
                <= 0xBF && 0x80 <= s[i + 3] && s[i + 3] <= 0xBF {
                i = i + 4;
            } else {
                return false;
            }
        } else if 0xF1 <= b0 && b0 <= 0xF3 {
            if n - i >= 4 && 0x80 <= s[i + 1] && s[i + 1] <= 0xBF && 0x80 <= s[i + 2] && s[i + 2]
                <= 0xBF && 0x80 <= s[i + 3] && s[i + 3] <= 0xBF {
                i = i + 4;
            } else {
                return false;
            }
        } else if b0 == 0xF4 {
            if n - i >= 4 && 0x80 <= s[i + 1] && s[i + 1] <= 0x8F && 0x80 <= s[i + 2] && s[i + 2]
                <= 0xBF && 0x80 <= s[i + 3] && s[i + 3] <= 0xBF {
                i = i + 4;
            } else {
                return false;
            }
        } else {
            return false;
        }
    }
    true
}

/// A depth-tracked, length-bounded cursor over part of the buffer.
pub struct BinReader<'a, 'b> {
    data: &'a [u8],
    pos: usize,
    end: usize,
    depth: u32,
    hashes: &'b BinHashes,
}

impl<'a, 'b> BinReader<'a, 'b> {
    /// The reader stays inside its region, the region inside the buffer,
    /// and the open-region count under the cap.
    pub closed spec fn wf(self) -> bool {
        self.pos <= self.end <= self.data@.len() && self.depth <= DEPTH_CAP
    }

    spec fn d(self) -> Seq<u8> {
        self.data@
    }

    /// Everything but the position: what a read leaves untouched.
    spec fn same_frame(self, other: Self) -> bool {
        self.data == other.data && self.end == other.end && self.depth == other.depth
            && self.hashes == other.hashes
    }

    fn read_u8(&mut self) -> (r: Result<u8, BinError>)
        requires
            old(self).wf(),
        ensures
            final(self).wf(),
            final(self).same_frame(*old(self)),
            old(self).pos + 1 <= old(self).end ==> r == Ok::<u8, BinError>(
                old(self).d()[old(self).pos as int],
            ) && final(self).pos == old(self).pos + 1,
            old(self).pos + 1 > old(self).end ==> r == Err::<u8, BinError>(
                BinError::UnexpectedEof,
            ) && final(self).pos == old(self).pos,
    {
        if self.end - self.pos < 1 {
            return Err(BinError::UnexpectedEof);
        }
        let b = self.data[self.pos];
        self.pos = self.pos + 1;
        Ok(b)
    }

    fn read_u16(&mut self) -> (r: Result<u16, BinError>)
        requires
            old(self).wf(),
        ensures
            final(self).wf(),
            final(self).same_frame(*old(self)),
            old(self).pos + 2 <= old(self).end ==> r == Ok::<u16, BinError>(
                u16_at(old(self).d(), old(self).pos as int),
            ) && final(self).pos == old(self).pos + 2,
            old(self).pos + 2 > old(self).end ==> r == Err::<u16, BinError>(
                BinError::UnexpectedEof,
            ) && final(self).pos == old(self).pos,
    {
        if self.end - self.pos < 2 {
            return Err(BinError::UnexpectedEof);
        }
        let b0 = self.data[self.pos];
        let b1 = self.data[self.pos + 1];
        self.pos = self.pos + 2;
        Ok(b0 as u16 + 0x100 * b1 as u16)
    }

    fn read_u32(&mut self) -> (r: Result<u32, BinError>)
        requires
            old(self).wf(),
        ensures
            final(self).wf(),
            final(self).same_frame(*old(self)),
            old(self).pos + 4 <= old(self).end ==> r == Ok::<u32, BinError>(
                u32_at(old(self).d(), old(self).pos as int),
            ) && final(self).pos == old(self).pos + 4,
            old(self).pos + 4 > old(self).end ==> r == Err::<u32, BinError>(
                BinError::UnexpectedEof,
            ) && final(self).pos == old(self).pos,
    {
        if self.end - self.pos < 4 {
            return Err(BinError::UnexpectedEof);
        }
        let b0 = self.data[self.pos];
        let b1 = self.data[self.pos + 1];
        let b2 = self.data[self.pos + 2];
        let b3 = self.data[self.pos + 3];
        self.pos = self.pos + 4;
        Ok(b0 as u32 + 0x100 * b1 as u32 + 0x10000 * b2 as u32 + 0x1000000 * b3 as u32)
    }

    fn read_u64(&mut self) -> (r: Result<u64, BinError>)
        requires
            old(self).wf(),
        ensures
            final(self).wf(),
            final(self).same_frame(*old(self)),
            old(self).pos + 8 <= old(self).end ==> r == Ok::<u64, BinError>(
                u64_at(old(self).d(), old(self).pos as int),
            ) && final(self).pos == old(self).pos + 8,
            old(self).pos + 8 > old(self).end ==> r == Err::<u64, BinError>(
                BinError::UnexpectedEof,
            ) && final(self).pos == old(self).pos,
    {
        if self.end - self.pos < 8 {
            return Err(BinError::UnexpectedEof);
        }
        let b0 = self.data[self.pos];
        let b1 = self.data[self.pos + 1];
        let b2 = self.data[self.pos + 2];
        let b3 = self.data[self.pos + 3];
        let b4 = self.data[self.pos + 4];
        let b5 = self.data[self.pos + 5];
        let b6 = self.data[self.pos + 6];
        let b7 = self.data[self.pos + 7];
        self.pos = self.pos + 8;
        Ok(
            b0 as u64 + 0x100 * b1 as u64 + 0x10000 * b2 as u64 + 0x1000000 * b3 as u64
                + 0x100000000 * b4 as u64 + 0x10000000000 * b5 as u64 + 0x1000000000000 * b6 as u64
                + 0x100000000000000 * b7 as u64,
        )
    }

    /// A signed 8-bit read, sign-extended.
    fn read_i8(&mut self) -> (r: Result<i64, BinError>)
        requires
            old(self).wf(),
        ensures
            final(self).wf(),
            final(self).same_frame(*old(self)),
            old(self).pos + 1 <= old(self).end ==> r == Ok::<i64, BinError>(
                i8_at(old(self).d(), old(self).pos as int),
            ) && final(self).pos == old(self).pos + 1,
            old(self).pos + 1 > old(self).end ==> r == Err::<i64, BinError>(
                BinError::UnexpectedEof,
            ) && final(self).pos == old(self).pos,
    {
        match self.read_u8() {
            Ok(v) => {
                if v < 0x80 {
                    Ok(v as i64)
                } else {
                    Ok(v as i64 - 0x100)
                }
            },
            Err(e) => Err(e),
        }
    }

    fn read_i16(&mut self) -> (r: Result<i64, BinError>)
        requires
            old(self).wf(),
        ensures
            final(self).wf(),
            final(self).same_frame(*old(self)),
            old(self).pos + 2 <= old(self).end ==> r == Ok::<i64, BinError>(
                i16_at(old(self).d(), old(self).pos as int),
            ) && final(self).pos == old(self).pos + 2,
            old(self).pos + 2 > old(self).end ==> r == Err::<i64, BinError>(
                BinError::UnexpectedEof,
            ) && final(self).pos == old(self).pos,
    {
        match self.read_u16() {
            Ok(v) => {
                if v < 0x8000 {
                    Ok(v as i64)
                } else {
                    Ok(v as i64 - 0x10000)
                }
            },
            Err(e) => Err(e),
        }
    }

    fn read_i32(&mut self) -> (r: Result<i64, BinError>)
        requires
            old(self).wf(),
        ensures
            final(self).wf(),
            final(self).same_frame(*old(self)),
            old(self).pos + 4 <= old(self).end ==> r == Ok::<i64, BinError>(
                i32_at(old(self).d(), old(self).pos as int),
            ) && final(self).pos == old(self).pos + 4,
            old(self).pos + 4 > old(self).end ==> r == Err::<i64, BinError>(
                BinError::UnexpectedEof,
            ) && final(self).pos == old(self).pos,
    {
        match self.read_u32() {
            Ok(v) => {
                if v < 0x80000000 {
                    Ok(v as i64)
                } else {
                    Ok(v as i64 - 0x100000000)
                }
            },
            Err(e) => Err(e),
        }
    }

    fn read_i64(&mut self) -> (r: Result<i64, BinError>)
        requires
            old(self).wf(),
        ensures
            final(self).wf(),
            final(self).same_frame(*old(self)),
            old(self).pos + 8 <= old(self).end ==> r == Ok::<i64, BinError>(
                i64_at(old(self).d(), old(self).pos as int),
            ) && final(self).pos == old(self).pos + 8,
            old(self).pos + 8 > old(self).end ==> r == Err::<i64, BinError>(
                BinError::UnexpectedEof,
            ) && final(self).pos == old(self).pos,
    {
        match self.read_u64() {
            Ok(v) => {
                if v < 0x8000000000000000 {
                    Ok(v as i64)
                } else {
                    Ok((((v - 0x8000000000000000) as i64) - 0x7FFFFFFFFFFFFFFF) - 1)
                }
            },
            Err(e) => Err(e),
        }
    }

    /// A generic hash reference: a u32 routed to the hash-value table.
    fn read_hash_name(&mut self) -> (r: Result<BinFNV, BinError>)
        requires
            old(self).wf(),
        ensures
            final(self).wf(),
            final(self).same_frame(*old(self)),
            old(self).pos + 4 <= old(self).end ==> (r matches Ok(n) && n@ == resolve32(
                old(self).hashes@.hashes,
                u32_at(old(self).d(), old(self).pos as int),
            ) && final(self).pos == old(self).pos + 4),
            old(self).pos + 4 > old(self).end ==> (r matches Err(e) && e
                == BinError::UnexpectedEof && final(self).pos == old(self).pos),
    {
        match self.read_u32() {
            Ok(h) => Ok(self.hashes.hashes.get(h)),
            Err(e) => Err(e),
        }
    }

    /// An entry-name hash, routed to the entry-name table.
    fn read_entry_name(&mut self) -> (r: Result<BinFNV, BinError>)
        requires
            old(self).wf(),
        ensures
            final(self).wf(),
            final(self).same_frame(*old(self)),
            old(self).pos + 4 <= old(self).end ==> (r matches Ok(n) && n@ == resolve32(
                old(self).hashes@.entries,
                u32_at(old(self).d(), old(self).pos as int),
            ) && final(self).pos == old(self).pos + 4),
            old(self).pos + 4 > old(self).end ==> (r matches Err(e) && e
                == BinError::UnexpectedEof && final(self).pos == old(self).pos),
    {
        match self.read_u32() {
            Ok(h) => Ok(self.hashes.entries.get(h)),
            Err(e) => Err(e),
        }
    }

    /// A type-name hash, routed to the type-name table.
    fn read_type_name(&mut self) -> (r: Result<BinFNV, BinError>)
        requires
            old(self).wf(),
        ensures
            final(self).wf(),
            final(self).same_frame(*old(self)),
            old(self).pos + 4 <= old(self).end ==> (r matches Ok(n) && n@ == resolve32(
                old(self).hashes@.types,
                u32_at(old(self).d(), old(self).pos as int),
            ) && final(self).pos == old(self).pos + 4),
            old(self).pos + 4 > old(self).end ==> (r matches Err(e) && e
                == BinError::UnexpectedEof && final(self).pos == old(self).pos),
    {
        match self.read_u32() {
            Ok(h) => Ok(self.hashes.types.get(h)),
            Err(e) => Err(e),
        }
    }

    /// A field-name hash, routed to the field-name table.
    fn read_field_name(&mut self) -> (r: Result<BinFNV, BinError>)
        requires
            old(self).wf(),
        ensures
            final(self).wf(),
            final(self).same_frame(*old(self)),
            old(self).pos + 4 <= old(self).end ==> (r matches Ok(n) && n@ == resolve32(
                old(self).hashes@.fields,
                u32_at(old(self).d(), old(self).pos as int),
            ) && final(self).pos == old(self).pos + 4),
            old(self).pos + 4 > old(self).end ==> (r matches Err(e) && e
                == BinError::UnexpectedEof && final(self).pos == old(self).pos),
    {
        match self.read_u32() {
            Ok(h) => Ok(self.hashes.fields.get(h)),
            Err(e) => Err(e),
        }
    }

    /// A 64-bit file-path hash, routed to the path table.
    fn read_path_name(&mut self) -> (r: Result<BinXXH, BinError>)
        requires
            old(self).wf(),
        ensures
            final(self).wf(),
            final(self).same_frame(*old(self)),
            old(self).pos + 8 <= old(self).end ==> (r matches Ok(n) && n@ == resolve64(
                old(self).hashes@.paths,
                u64_at(old(self).d(), old(self).pos as int),
            ) && final(self).pos == old(self).pos + 8),
            old(self).pos + 8 > old(self).end ==> (r matches Err(e) && e
                == BinError::UnexpectedEof && final(self).pos == old(self).pos),
    {
        match self.read_u64() {
            Ok(h) => Ok(self.hashes.paths.get(h)),
            Err(e) => Err(e),
        }
    }

    /// Opens the next declared sub-region as a child reader and advances
    /// this reader past the whole region at once, however much the child
    /// later consumes.
    fn read_sub_reader(&mut self) -> (r: Result<BinReader<'a, 'b>, BinError>)
        requires
            old(self).wf(),
        ensures
            final(self).wf(),
            final(self).same_frame(*old(self)),
            final(self).pos >= old(self).pos,
            ({
                let pos = old(self).pos as int;
                let end = old(self).end as int;
                let d = old(self).d();
                if old(self).depth + 1 > DEPTH_CAP {
                    r matches Err(e) && e == BinError::DepthExceeded && final(self).pos == old(
                        self,
                    ).pos
                } else if pos + 4 > end {
                    r matches Err(e) && e == BinError::UnexpectedEof && final(self).pos == old(
                        self,
                    ).pos
                } else if pos + 4 + u32_at(d, pos) > end {
                    r matches Err(e) && e == BinError::RegionOverrun && final(self).pos == old(
                        self,
                    ).pos
                } else {
                    r matches Ok(c) && c.wf() && c.data == old(self).data && c.hashes == old(
                        self,
                    ).hashes && c.depth == old(self).depth + 1 && c.pos == pos + 4 && c.end == pos
                        + 4 + u32_at(d, pos) && final(self).pos == pos + 4 + u32_at(d, pos)
                }
            }),
    {
        if self.depth + 1 > DEPTH_CAP {
            return Err(BinError::DepthExceeded);
        }
        let len = match self.read_u32() {
            Ok(v) => v,
            Err(e) => {
                return Err(e);
            },
        };
        if self.end - self.pos < len as usize {
            self.pos = self.pos - 4;
            return Err(BinError::RegionOverrun);
        }
        let child = BinReader {
            data: self.data,
            pos: self.pos,
            end: self.pos + len as usize,
            depth: self.depth + 1,
            hashes: self.hashes,
        };
        self.pos = self.pos + len as usize;
        Ok(child)
    }

    /// One length-prefixed text value, its exact UTF-8 bytes.
    fn read_string(&mut self) -> (r: Result<Vec<u8>, BinError>)
        requires
            old(self).wf(),
        ensures
            final(self).wf(),
            final(self).same_frame(*old(self)),
            final(self).pos >= old(self).pos,
            match sd_text(old(self).d(), old(self).pos as int, old(self).end as int) {
                Ok(p) => r matches Ok(v) && v@ == p.0 && final(self).pos == old(self).pos + p.1,
                Err(e) => r matches Err(e2) && e2 == e,
            },
    {
        let n = match self.read_u16() {
            Ok(v) => v,
            Err(e) => {
                return Err(e);
            },
        };
        if self.end - self.pos < n as usize {
            return Err(BinError::UnexpectedEof);
        }
        let raw = slice_subrange(self.data, self.pos, self.pos + n as usize);
        if !validate_utf8(raw) {
            return Err(BinError::InvalidText);
        }
        self.pos = self.pos + n as usize;
        Ok(slice_to_vec(raw))
    }

    /// Two float bit patterns.
    fn read_vec2(&mut self) -> (r: Result<(u32, u32), BinError>)
        requires
            old(self).wf(),
        ensures
            final(self).wf(),
            final(self).same_frame(*old(self)),
            final(self).pos >= old(self).pos,
            old(self).pos + 8 <= old(self).end ==> r == Ok::<(u32, u32), BinError>(
                (
                    u32_at(old(self).d(), old(self).pos as int),
                    u32_at(old(self).d(), old(self).pos + 4),
                ),
            ) && final(self).pos == old(self).pos + 8,
            old(self).pos + 8 > old(self).end ==> (r matches Err(e) && e
                == BinError::UnexpectedEof),
    {
        let x = match self.read_u32() {
            Ok(v) => v,
            Err(e) => {
                return Err(e);
            },
        };
        let y = match self.read_u32() {
            Ok(v) => v,
            Err(e) => {
                return Err(e);
            },
        };
        Ok((x, y))
    }

    /// Three float bit patterns.
    fn read_vec3(&mut self) -> (r: Result<(u32, u32, u32), BinError>)
        requires
            old(self).wf(),
        ensures
            final(self).wf(),
            final(self).same_frame(*old(self)),
            final(self).pos >= old(self).pos,
            old(self).pos + 12 <= old(self).end ==> r == Ok::<(u32, u32, u32), BinError>(
                (
                    u32_at(old(self).d(), old(self).pos as int),
                    u32_at(old(self).d(), old(self).pos + 4),
                    u32_at(old(self).d(), old(self).pos + 8),
                ),
            ) && final(self).pos == old(self).pos + 12,
            old(self).pos + 12 > old(self).end ==> (r matches Err(e) && e
                == BinError::UnexpectedEof),
    {
        let x = match self.read_u32() {
            Ok(v) => v,
            Err(e) => {
                return Err(e);
            },
        };
        let y = match self.read_u32() {
            Ok(v) => v,
            Err(e) => {
                return Err(e);
            },
        };
        let z = match self.read_u32() {
            Ok(v) => v,
            Err(e) => {
                return Err(e);
            },
        };
        Ok((x, y, z))
    }

    /// Four float bit patterns.
    fn read_vec4(&mut self) -> (r: Result<(u32, u32, u32, u32), BinError>)
        requires
            old(self).wf(),
        ensures
            final(self).wf(),
            final(self).same_frame(*old(self)),
            final(self).pos >= old(self).pos,
            old(self).pos + 16 <= old(self).end ==> r == Ok::<(u32, u32, u32, u32), BinError>(
                (
                    u32_at(old(self).d(), old(self).pos as int),
                    u32_at(old(self).d(), old(self).pos + 4),
                    u32_at(old(self).d(), old(self).pos + 8),
                    u32_at(old(self).d(), old(self).pos + 12),
                ),
            ) && final(self).pos == old(self).pos + 16,
            old(self).pos + 16 > old(self).end ==> (r matches Err(e) && e
                == BinError::UnexpectedEof),
    {
        let x = match self.read_u32() {
            Ok(v) => v,
            Err(e) => {
                return Err(e);
            },
        };
        let y = match self.read_u32() {
            Ok(v) => v,
            Err(e) => {
                return Err(e);
            },
        };
        let z = match self.read_u32() {
            Ok(v) => v,
            Err(e) => {
                return Err(e);
            },
        };
        let w = match self.read_u32() {
            Ok(v) => v,
            Err(e) => {
                return Err(e);
            },
        };
        Ok((x, y, z, w))
    }

    /// Sixteen float bit patterns in wire (row-major) order.
    fn read_mtx44(&mut self) -> (r: Result<Vec<u32>, BinError>)
        requires
            old(self).wf(),
        ensures
            final(self).wf(),
            final(self).same_frame(*old(self)),
            final(self).pos >= old(self).pos,
            old(self).pos + 64 <= old(self).end ==> (r matches Ok(v) && v@ == Seq::new(
                16,
                |i: int|
                    if 0 <= i < 16 {
                        u32_at(old(self).d(), old(self).pos + 4 * i)
                    } else {
                        0u32
                    },
            ) && final(self).pos == old(self).pos + 64),
            old(self).pos + 64 > old(self).end ==> (r matches Err(e) && e
                == BinError::UnexpectedEof),
    {
        if self.end - self.pos < 64 {
            return Err(BinError::UnexpectedEof);
        }
        let ghost pos0 = self.pos as int;
        let mut cells: Vec<u32> = Vec::new();
        let mut k: usize = 0;
        while k < 16
            invariant
                0 <= k <= 16,
                self.wf(),
                self.same_frame(*old(self)),
                self.pos == pos0 + 4 * k,
                pos0 + 64 <= self.end,
                self.d() == old(self).d(),
                cells@.len() == k,
                forall|j: int| 0 <= j < k ==> cells@[j] == u32_at(old(self).d(), pos0 + 4 * j),
            decreases 16 - k,
        {
            let c = match self.read_u32() {
                Ok(v) => v,
                Err(e) => {
                    return Err(e);
                },
            };
            cells.push(c);
            k = k + 1;
        }
        proof {
            assert(cells@ =~= Seq::new(
                16,
                |i: int|
                    if 0 <= i < 16 {
                        u32_at(old(self).d(), pos0 + 4 * i)
                    } else {
                        0u32
                    },
            ));
        }
        Ok(cells)
    }

    /// A color: wire order A, B, G, R, reordered to stored R, G, B, A.
    fn read_rgba(&mut self) -> (r: Result<(u8, u8, u8, u8), BinError>)
        requires
            old(self).wf(),
        ensures
            final(self).wf(),
            final(self).same_frame(*old(self)),
            final(self).pos >= old(self).pos,
            old(self).pos + 4 <= old(self).end ==> r == Ok::<(u8, u8, u8, u8), BinError>(
                (
                    old(self).d()[old(self).pos + 3],
                    old(self).d()[old(self).pos + 2],
                    old(self).d()[old(self).pos + 1],
                    old(self).d()[old(self).pos as int],
                ),
            ) && final(self).pos == old(self).pos + 4,
            old(self).pos + 4 > old(self).end ==> (r matches Err(e) && e
                == BinError::UnexpectedEof),
    {
        let a = match self.read_u8() {
            Ok(v) => v,
            Err(e) => {
                return Err(e);
            },
        };
        let b = match self.read_u8() {
            Ok(v) => v,
            Err(e) => {
                return Err(e);
            },
        };
        let g = match self.read_u8() {
            Ok(v) => v,
            Err(e) => {
                return Err(e);
            },
        };
        let red = match self.read_u8() {
            Ok(v) => v,
            Err(e) => {
                return Err(e);
            },
        };
        Ok((red, g, b, a))
    }
}

/// Puts one (name, value) pair into a field or entry table, keyed by the
/// name's numeric hash: replace the first pair with a matching hash, else
/// append.
fn assoc_put(list: &mut Vec<(BinFNV, BinValue)>, key: BinFNV, value: BinValue)
    ensures
        deep_fields(final(list)@) == assoc_set(deep_fields(old(list)@), key@, value.deep()),
{
    let n = list.len();
    let kh = key.get_hash();
    let mut i: usize = 0;
    while i < n
        invariant
            0 <= i <= n,
            n == list@.len(),
            list@ == old(list)@,
            kh == key@.hash,
            forall|j: int| 0 <= j < i ==> (#[trigger] list@[j]).0@.hash != key@.hash,
        decreases n - i,
    {
        if list[i].0.get_hash() == kh {
            proof {
                lemma_assoc_set_found(deep_fields(list@), i as int, key@, value.deep());
                lemma_deep_fields_update(list@, i as int, key, value);
            }
            list[i] = (key, value);
            return ;
        }
        i = i + 1;
    }
    proof {
        lemma_assoc_set_absent(deep_fields(list@), key@, value.deep());
        lemma_deep_fields_push(list@, key, value);
    }
    list.push((key, value));
}

impl<'a, 'b> BinReader<'a, 'b> {
    /// Decodes one value of kind `tag` at the cursor: exactly what
    /// [`sd_value`] says stands there.
    #[verifier::rlimit(100)]
    fn read_value(&mut self, tag: u8) -> (r: Result<BinValue, BinError>)
        requires
            old(self).wf(),
        ensures
            final(self).wf(),
            final(self).same_frame(*old(self)),
            final(self).pos >= old(self).pos,
            match sd_value(
                old(self).d(),
                old(self).hashes@,
                old(self).pos as int,
                old(self).end as int,
                old(self).depth as int,
                tag,
            ) {
                Ok(p) => r matches Ok(v) && v.deep() == p.0 && final(self).pos == old(self).pos
                    + p.1,
                Err(e) => r matches Err(e2) && e2 == e,
            },
        decreases self.end - self.pos, 1int,
    {
        if tag <= TAG_FILE {
            self.read_prim(tag)
        } else if tag == TAG_OPTION {
            let etag = match self.read_u8() {
                Ok(b) => b,
                Err(e) => {
                    return Err(e);
                },
            };
            if !known_tag(etag) {
                return Err(BinError::UnknownTag);
            }
            let present = match self.read_u8() {
                Ok(b) => b,
                Err(e) => {
                    return Err(e);
                },
            };
            if present == 0 {
                Ok(BinValue::Absent)
            } else {
                self.read_value(etag)
            }
        } else if tag == TAG_LIST || tag == TAG_LIST2 {
            self.read_list(tag)
        } else if tag == TAG_MAP {
            self.read_map(tag)
        } else if tag == TAG_POINTER || tag == TAG_EMBED {
            self.read_struct(tag)
        } else if tag == TAG_LINK {
            match self.read_entry_name() {
                Ok(n) => Ok(BinValue::Link(n)),
                Err(e) => Err(e),
            }
        } else if tag == TAG_FLAG {
            match self.read_u8() {
                Ok(b) => Ok(BinValue::Bool(b != 0)),
                Err(e) => Err(e),
            }
        } else {
            Err(BinError::UnknownTag)
        }
    }

    /// The fixed-width and length-prefixed kinds (everything below the
    /// container flag bit).
    #[verifier::rlimit(100)]
    fn read_prim(&mut self, tag: u8) -> (r: Result<BinValue, BinError>)
        requires
            old(self).wf(),
            tag <= TAG_FILE,
        ensures
            final(self).wf(),
            final(self).same_frame(*old(self)),
            final(self).pos >= old(self).pos,
            match sd_value(
                old(self).d(),
                old(self).hashes@,
                old(self).pos as int,
                old(self).end as int,
                old(self).depth as int,
                tag,
            ) {
                Ok(p) => r matches Ok(v) && v.deep() == p.0 && final(self).pos == old(self).pos
                    + p.1,
                Err(e) => r matches Err(e2) && e2 == e,
            },
    {
        if tag == TAG_NONE {
            Ok(BinValue::Absent)
        } else if tag == TAG_BOOL || tag == TAG_FLAG {
            match self.read_u8() {
                Ok(b) => Ok(BinValue::Bool(b != 0)),
                Err(e) => Err(e),
            }
        } else if tag == TAG_I8 {
            match self.read_i8() {
                Ok(v) => Ok(BinValue::Signed(v)),
                Err(e) => Err(e),
            }
        } else if tag == TAG_U8 {
            match self.read_u8() {
                Ok(v) => Ok(BinValue::Unsigned(v as u64)),
                Err(e) => Err(e),
            }
        } else if tag == TAG_I16 {
            match self.read_i16() {
                Ok(v) => Ok(BinValue::Signed(v)),
                Err(e) => Err(e),
            }
        } else if tag == TAG_U16 {
            match self.read_u16() {
                Ok(v) => Ok(BinValue::Unsigned(v as u64)),
                Err(e) => Err(e),
            }
        } else if tag == TAG_I32 {
            match self.read_i32() {
                Ok(v) => Ok(BinValue::Signed(v)),
                Err(e) => Err(e),
            }
        } else if tag == TAG_U32 {
            match self.read_u32() {
                Ok(v) => Ok(BinValue::Unsigned(v as u64)),
                Err(e) => Err(e),
            }
        } else if tag == TAG_I64 {
            match self.read_i64() {
                Ok(v) => Ok(BinValue::Signed(v)),
                Err(e) => Err(e),
            }
        } else if tag == TAG_U64 {
            match self.read_u64() {
                Ok(v) => Ok(BinValue::Unsigned(v)),
                Err(e) => Err(e),
            }
        } else if tag == TAG_F32 {
            match self.read_u32() {
                Ok(bits) => Ok(BinValue::Float(bits)),
                Err(e) => Err(e),
            }
        } else if tag == TAG_VEC2 {
            match self.read_vec2() {
                Ok((x, y)) => Ok(BinValue::Vec2(x, y)),
                Err(e) => Err(e),
            }
        } else if tag == TAG_VEC3 {
            match self.read_vec3() {
                Ok((x, y, z)) => Ok(BinValue::Vec3(x, y, z)),
                Err(e) => Err(e),
            }
        } else if tag == TAG_VEC4 {
            match self.read_vec4() {
                Ok((x, y, z, w)) => Ok(BinValue::Vec4(x, y, z, w)),
                Err(e) => Err(e),
            }
        } else if tag == TAG_MTX44 {
            match self.read_mtx44() {
                Ok(cells) => Ok(BinValue::Mtx44(cells)),
                Err(e) => Err(e),
            }
        } else if tag == TAG_RGBA {
            match self.read_rgba() {
                Ok((red, g, b, a)) => Ok(BinValue::Rgba(red, g, b, a)),
                Err(e) => Err(e),
            }
        } else if tag == TAG_STRING {
            match self.read_string() {
                Ok(text) => Ok(BinValue::Text(text)),
                Err(e) => Err(e),
            }
        } else if tag == TAG_HASH {
            match self.read_hash_name() {
                Ok(n) => Ok(BinValue::Hash(n)),
                Err(e) => Err(e),
            }
        } else if tag == TAG_FILE {
            match self.read_path_name() {
                Ok(n) => Ok(BinValue::File(n)),
                Err(e) => Err(e),
            }
        } else {
            Err(BinError::UnknownTag)
        }
    }

    /// The list containers: element tag, then a region with a
    /// count-prefixed run of elements.
    #[verifier::rlimit(100)]
    fn read_list(&mut self, tag: u8) -> (r: Result<BinValue, BinError>)
        requires
            old(self).wf(),
            tag == TAG_LIST || tag == TAG_LIST2,
        ensures
            final(self).wf(),
            final(self).same_frame(*old(self)),
            final(self).pos >= old(self).pos,
            match sd_value(
                old(self).d(),
                old(self).hashes@,
                old(self).pos as int,
                old(self).end as int,
                old(self).depth as int,
                tag,
            ) {
                Ok(p) => r matches Ok(v) && v.deep() == p.0 && final(self).pos == old(self).pos
                    + p.1,
                Err(e) => r matches Err(e2) && e2 == e,
            },
        decreases self.end - self.pos, 0int,
    {
        let ghost d = self.d();
        let ghost hs = self.hashes@;
        let ghost pos0 = self.pos as int;
        let ghost end0 = self.end as int;
        let ghost dep = self.depth as int;
        {
            let etag = match self.read_u8() {
                Ok(b) => b,
                Err(e) => {
                    return Err(e);
                },
            };
            if !known_tag(etag) {
                return Err(BinError::UnknownTag);
            }
            let mut sub = match self.read_sub_reader() {
                Ok(s) => s,
                Err(e) => {
                    return Err(e);
                },
            };
            let count = match sub.read_u32() {
                Ok(c) => c,
                Err(e) => {
                    return Err(e);
                },
            };
            let ghost gp = sub.pos as int;
            let ghost gend = sub.end as int;
            let ghost gdep = sub.depth as int;
            let mut items: Vec<BinValue> = Vec::new();
            let mut k: u32 = 0;
            while k < count
                invariant
                    sub.wf(),
                    sub.d() == d,
                    sub.hashes@ == hs,
                    sub.end == gend,
                    sub.depth == gdep,
                    sub.pos >= gp,
                    gend <= end0,
                    pos0 < gp,
                    pos0 == old(self).pos as int,
                    end0 == old(self).end as int,
                    self.wf(),
                    self.same_frame(*old(self)),
                    self.pos as int == pos0 + 5 + u32_at(d, pos0 + 1),
                    d == old(self).d(),
                    hs == old(self).hashes@,
                    dep == old(self).depth as int,
                    tag == TAG_LIST || tag == TAG_LIST2,
                    etag == d[pos0],
                    is_known_tag(etag),
                    dep + 1 <= DEPTH_CAP,
                    gdep == dep + 1,
                    gp == pos0 + 9,
                    gend == pos0 + 5 + u32_at(d, pos0 + 1),
                    pos0 + 5 + u32_at(d, pos0 + 1) <= end0,
                    count == u32_at(d, pos0 + 5),
                    k <= count,
                    sd_items(d, hs, gp, gend, gdep, etag, count as int) == (match sd_items(
                        d,
                        hs,
                        sub.pos as int,
                        gend,
                        gdep,
                        etag,
                        count as int - k as int,
                    ) {
                        Ok(rest) => Ok::<Seq<SpecValue>, BinError>(deep_seq(items@) + rest),
                        Err(e) => Err::<Seq<SpecValue>, BinError>(e),
                    }),
                decreases count - k,
            {
                let ghost pre = sub.pos as int;
                match sub.read_value(etag) {
                    Ok(v) => {
                        proof {
                            lemma_deep_seq_push(items@, v);
                            assert(deep_seq(items@.push(v)) + (match sd_items(
                                d,
                                hs,
                                sub.pos as int,
                                gend,
                                gdep,
                                etag,
                                count as int - k as int - 1,
                            ) {
                                Ok(rest) => rest,
                                Err(_) => Seq::empty(),
                            }) =~= deep_seq(items@) + (seq![v.deep()] + (match sd_items(
                                d,
                                hs,
                                sub.pos as int,
                                gend,
                                gdep,
                                etag,
                                count as int - k as int - 1,
                            ) {
                                Ok(rest) => rest,
                                Err(_) => Seq::empty(),
                            })));
                        }
                        items.push(v);
                    },
                    Err(e) => {
                        return Err(e);
                    },
                }
                k = k + 1;
            }
            proof {
                assert(deep_seq(items@) + Seq::<SpecValue>::empty() =~= deep_seq(items@));
            }
            Ok(BinValue::List(items))
        }
    }

    /// The map container: key and value tags, then a region with a
    /// count-prefixed run of pairs, wire order kept, duplicates kept.
    #[verifier::rlimit(100)]
    fn read_map(&mut self, tag: u8) -> (r: Result<BinValue, BinError>)
        requires
            old(self).wf(),
            tag == TAG_MAP,
        ensures
            final(self).wf(),
            final(self).same_frame(*old(self)),
            final(self).pos >= old(self).pos,
            match sd_value(
                old(self).d(),
                old(self).hashes@,
                old(self).pos as int,
                old(self).end as int,
                old(self).depth as int,
                tag,
            ) {
                Ok(p) => r matches Ok(v) && v.deep() == p.0 && final(self).pos == old(self).pos
                    + p.1,
                Err(e) => r matches Err(e2) && e2 == e,
            },
        decreases self.end - self.pos, 0int,
    {
        let ghost d = self.d();
        let ghost hs = self.hashes@;
        let ghost pos0 = self.pos as int;
        let ghost end0 = self.end as int;
        let ghost dep = self.depth as int;
        {
            let ktag = match self.read_u8() {
                Ok(b) => b,
                Err(e) => {
                    return Err(e);
                },
            };
            if !known_tag(ktag) {
                return Err(BinError::UnknownTag);
            }
            let vtag = match self.read_u8() {
                Ok(b) => b,
                Err(e) => {
                    return Err(e);
                },
            };
            if !known_tag(vtag) {
                return Err(BinError::UnknownTag);
            }
            let mut sub = match self.read_sub_reader() {
                Ok(s) => s,
                Err(e) => {
                    return Err(e);
                },
            };
            let count = match sub.read_u32() {
                Ok(c) => c,
                Err(e) => {
                    return Err(e);
                },
            };
            let ghost gp = sub.pos as int;
            let ghost gend = sub.end as int;
            let ghost gdep = sub.depth as int;
            let mut pairs: Vec<(BinValue, BinValue)> = Vec::new();
            let mut k: u32 = 0;
            while k < count
                invariant
                    sub.wf(),
                    sub.d() == d,
                    sub.hashes@ == hs,
                    sub.end == gend,
                    sub.depth == gdep,
                    sub.pos >= gp,
                    gend <= end0,
                    pos0 < gp,
                    pos0 == old(self).pos as int,
                    end0 == old(self).end as int,
                    self.wf(),
                    self.same_frame(*old(self)),
                    self.pos as int == pos0 + 6 + u32_at(d, pos0 + 2),
                    d == old(self).d(),
                    hs == old(self).hashes@,
                    dep == old(self).depth as int,
                    tag == TAG_MAP,
                    ktag == d[pos0],
                    vtag == d[pos0 + 1],
                    is_known_tag(ktag),
                    is_known_tag(vtag),
                    dep + 1 <= DEPTH_CAP,
                    gdep == dep + 1,
                    gp == pos0 + 10,
                    gend == pos0 + 6 + u32_at(d, pos0 + 2),
                    pos0 + 6 + u32_at(d, pos0 + 2) <= end0,
                    count == u32_at(d, pos0 + 6),
                    k <= count,
                    sd_pairs(d, hs, gp, gend, gdep, ktag, vtag, count as int) == (match sd_pairs(
                        d,
                        hs,
                        sub.pos as int,
                        gend,
                        gdep,
                        ktag,
                        vtag,
                        count as int - k as int,
                    ) {
                        Ok(rest) => Ok::<Seq<(SpecValue, SpecValue)>, BinError>(
                            deep_pairs(pairs@) + rest,
                        ),
                        Err(e) => Err::<Seq<(SpecValue, SpecValue)>, BinError>(e),
                    }),
                decreases count - k,
            {
                let key = match sub.read_value(ktag) {
                    Ok(v) => v,
                    Err(e) => {
                        return Err(e);
                    },
                };
                let val = match sub.read_value(vtag) {
                    Ok(v) => v,
                    Err(e) => {
                        return Err(e);
                    },
                };
                proof {
                    lemma_deep_pairs_push(pairs@, key, val);
                    assert(deep_pairs(pairs@.push((key, val))) + (match sd_pairs(
                        d,
                        hs,
                        sub.pos as int,
                        gend,
                        gdep,
                        ktag,
                        vtag,
                        count as int - k as int - 1,
                    ) {
                        Ok(rest) => rest,
                        Err(_) => Seq::empty(),
                    }) =~= deep_pairs(pairs@) + (seq![(key.deep(), val.deep())] + (match sd_pairs(
                        d,
                        hs,
                        sub.pos as int,
                        gend,
                        gdep,
                        ktag,
                        vtag,
                        count as int - k as int - 1,
                    ) {
                        Ok(rest) => rest,
                        Err(_) => Seq::empty(),
                    })));
                }
                pairs.push((key, val));
                k = k + 1;
            }
            proof {
                assert(deep_pairs(pairs@) + Seq::<(SpecValue, SpecValue)>::empty() =~= deep_pairs(
                    pairs@,
                ));
            }
            Ok(BinValue::Pairs(pairs))
        }
    }

    /// The pointer and embedded-struct containers: a type-name hash (zero
    /// is the null sentinel), then a region with the field list.
    #[verifier::rlimit(100)]
    fn read_struct(&mut self, tag: u8) -> (r: Result<BinValue, BinError>)
        requires
            old(self).wf(),
            tag == TAG_POINTER || tag == TAG_EMBED,
        ensures
            final(self).wf(),
            final(self).same_frame(*old(self)),
            final(self).pos >= old(self).pos,
            match sd_value(
                old(self).d(),
                old(self).hashes@,
                old(self).pos as int,
                old(self).end as int,
                old(self).depth as int,
                tag,
            ) {
                Ok(p) => r matches Ok(v) && v.deep() == p.0 && final(self).pos == old(self).pos
                    + p.1,
                Err(e) => r matches Err(e2) && e2 == e,
            },
        decreases self.end - self.pos, 0int,
    {
        {
            let tname = match self.read_type_name() {
                Ok(n) => n,
                Err(e) => {
                    return Err(e);
                },
            };
            if tname.get_hash() == 0 {
                return Ok(BinValue::Absent);
            }
            let mut sub = match self.read_sub_reader() {
                Ok(s) => s,
                Err(e) => {
                    return Err(e);
                },
            };
            match sub.read_fields() {
                Ok(fields) => Ok(BinValue::Struct(tname, fields)),
                Err(e) => Err(e),
            }
        }
    }

    /// Decodes a struct body (u16 field count, then the fields) into a
    /// field table, a later duplicate field name overwriting the earlier.
    fn read_fields(&mut self) -> (r: Result<Vec<(BinFNV, BinValue)>, BinError>)
        requires
            old(self).wf(),
        ensures
            final(self).wf(),
            final(self).same_frame(*old(self)),
            final(self).pos >= old(self).pos,
            match sd_fields(
                old(self).d(),
                old(self).hashes@,
                old(self).pos as int,
                old(self).end as int,
                old(self).depth as int,
            ) {
                Ok(fs) => r matches Ok(v) && deep_fields(v@) == fs,
                Err(e) => r matches Err(e2) && e2 == e,
            },
        decreases self.end - self.pos,
    {
        let ghost d = self.d();
        let ghost hs = self.hashes@;
        let ghost pos0 = self.pos as int;
        let ghost end0 = self.end as int;
        let ghost dep = self.depth as int;
        let count = match self.read_u16() {
            Ok(c) => c,
            Err(e) => {
                return Err(e);
            },
        };
        let mut result: Vec<(BinFNV, BinValue)> = Vec::new();
        proof {
            assert(deep_fields(result@) =~= Seq::<(SpecFnv, SpecValue)>::empty());
        }
        let mut k: u16 = 0;
        while k < count
            invariant
                self.wf(),
                self.same_frame(*old(self)),
                self.d() == d,
                self.hashes@ == hs,
                self.end == end0,
                self.depth == dep,
                pos0 == old(self).pos as int,
                end0 == old(self).end as int,
                pos0 + 2 <= end0,
                count == u16_at(d, pos0),
                pos0 + 2 <= self.pos,
                k <= count,
                sd_field_items(d, hs, pos0 + 2, end0, dep, count as int, Seq::empty())
                    == sd_field_items(
                    d,
                    hs,
                    self.pos as int,
                    end0,
                    dep,
                    count as int - k as int,
                    deep_fields(result@),
                ),
            decreases count - k,
        {
            let key = match self.read_field_name() {
                Ok(x) => x,
                Err(e) => {
                    return Err(e);
                },
            };
            let vtag = match self.read_u8() {
                Ok(b) => b,
                Err(e) => {
                    return Err(e);
                },
            };
            if !known_tag(vtag) {
                return Err(BinError::UnknownTag);
            }
            let value = match self.read_value(vtag) {
                Ok(v) => v,
                Err(e) => {
                    return Err(e);
                },
            };
            assoc_put(&mut result, key, value);
            k = k + 1;
        }
        Ok(result)
    }

    /// The link table: a u32 count, then that many length-prefixed path
    /// strings, order preserved, no deduplication.
    fn read_links(&mut self) -> (r: Result<Vec<Vec<u8>>, BinError>)
        requires
            old(self).wf(),
        ensures
            final(self).wf(),
            final(self).same_frame(*old(self)),
            final(self).pos >= old(self).pos,
            old(self).pos + 4 > old(self).end ==> (r matches Err(e) && e
                == BinError::UnexpectedEof),
            old(self).pos + 4 <= old(self).end ==> (match sd_links(
                old(self).d(),
                old(self).pos + 4,
                old(self).end as int,
                u32_at(old(self).d(), old(self).pos as int) as int,
            ) {
                Ok(p) => r matches Ok(v) && deep_links(v@) == p.0 && final(self).pos == p.1,
                Err(e) => r matches Err(e2) && e2 == e,
            }),
    {
        let ghost d = self.d();
        let ghost pos0 = self.pos as int;
        let ghost end0 = self.end as int;
        let count = match self.read_u32() {
            Ok(c) => c,
            Err(e) => {
                return Err(e);
            },
        };
        let mut result: Vec<Vec<u8>> = Vec::new();
        proof {
            assert(deep_links(result@) =~= Seq::<Seq<u8>>::empty());
        }
        let mut k: u32 = 0;
        while k < count
            invariant
                self.wf(),
                self.same_frame(*old(self)),
                self.d() == d,
                pos0 == old(self).pos as int,
                end0 == old(self).end as int,
                pos0 + 4 <= end0,
                count == u32_at(d, pos0),
                pos0 + 4 <= self.pos,
                k <= count,
                sd_links(d, pos0 + 4, end0, count as int) == (match sd_links(
                    d,
                    self.pos as int,
                    end0,
                    count as int - k as int,
                ) {
                    Ok(p) => Ok::<(Seq<Seq<u8>>, int), BinError>(
                        (deep_links(result@) + p.0, p.1),
                    ),
                    Err(e) => Err::<(Seq<Seq<u8>>, int), BinError>(e),
                }),
            decreases count - k,
        {
            match self.read_string() {
                Ok(text) => {
                    proof {
                        lemma_deep_links_push(result@, text);
                        assert(deep_links(result@.push(text)) + (match sd_links(
                            d,
                            self.pos as int,
                            end0,
                            count as int - k as int - 1,
                        ) {
                            Ok(p) => p.0,
                            Err(_) => Seq::empty(),
                        }) =~= deep_links(result@) + (seq![text@] + (match sd_links(
                            d,
                            self.pos as int,
                            end0,
                            count as int - k as int - 1,
                        ) {
                            Ok(p) => p.0,
                            Err(_) => Seq::empty(),
                        })));
                    }
                    result.push(text);
                },
                Err(e) => {
                    return Err(e);
                },
            }
            k = k + 1;
        }
        proof {
            assert(deep_links(result@) + Seq::<Seq<u8>>::empty() =~= deep_links(result@));
        }
        Ok(result)
    }

    /// One region-scoped entry body: the declared region is opened, the
    /// entry-name hash and the field list are read from it, and the
    /// cursor moves past the whole region.
    fn read_entry_body(&mut self) -> (r: Result<(BinFNV, Vec<(BinFNV, BinValue)>), BinError>)
        requires
            old(self).wf(),
            old(self).depth == 0,
        ensures
            final(self).wf(),
            final(self).same_frame(*old(self)),
            final(self).pos >= old(self).pos,
            ({
                let d = old(self).d();
                let hs = old(self).hashes@;
                let pos = old(self).pos as int;
                let end = old(self).end as int;
                if pos + 4 > end {
                    r matches Err(e) && e == BinError::UnexpectedEof
                } else if pos + 4 + u32_at(d, pos) > end {
                    r matches Err(e) && e == BinError::RegionOverrun
                } else if pos + 8 > pos + 4 + u32_at(d, pos) {
                    r matches Err(e) && e == BinError::UnexpectedEof
                } else {
                    match sd_fields(d, hs, pos + 8, pos + 4 + u32_at(d, pos), 1) {
                        Ok(fs) => r matches Ok(p) && p.0@ == resolve32(
                            hs.entries,
                            u32_at(d, pos + 4),
                        ) && deep_fields(p.1@) == fs && final(self).pos == pos + 4 + u32_at(
                            d,
                            pos,
                        ),
                        Err(e) => r matches Err(e2) && e2 == e,
                    }
                }
            }),
    {
        let mut sub = match self.read_sub_reader() {
            Ok(s) => s,
            Err(e) => {
                return Err(e);
            },
        };
        let ename = match sub.read_entry_name() {
            Ok(x) => x,
            Err(e) => {
                return Err(e);
            },
        };
        let fields = match sub.read_fields() {
            Ok(f) => f,
            Err(e) => {
                return Err(e);
            },
        };
        Ok((ename, fields))
    }

    /// Phase two of the entry table: one region-scoped body per buffered
    /// type name, inserted under its entry-name hash, last write winning.
    #[verifier::rlimit(100)]
    fn read_entry_items(&mut self, tn: &Vec<BinFNV>) -> (r: Result<
        Vec<(BinFNV, BinValue)>,
        BinError,
    >)
        requires
            old(self).wf(),
            old(self).depth == 0,
        ensures
            final(self).wf(),
            final(self).same_frame(*old(self)),
            final(self).pos >= old(self).pos,
            match sd_entry_items(
                old(self).d(),
                old(self).hashes@,
                old(self).pos as int,
                old(self).end as int,
                deep_names(tn@),
                0,
                Seq::empty(),
            ) {
                Ok(es) => r matches Ok(v) && deep_fields(v@) == es,
                Err(e) => r matches Err(e2) && e2 == e,
            },
    {
        let ghost d = self.d();
        let ghost hs = self.hashes@;
        let ghost pos0 = self.pos as int;
        let ghost end0 = self.end as int;
        let ghost tnames = deep_names(tn@);
        let mut result: Vec<(BinFNV, BinValue)> = Vec::new();
        proof {
            assert(deep_fields(result@) =~= Seq::<(SpecFnv, SpecValue)>::empty());
        }
        let n = tn.len();
        let mut i: usize = 0;
        while i < n
            invariant
                self.wf(),
                self.same_frame(*old(self)),
                self.d() == d,
                self.hashes@ == hs,
                self.depth == 0,
                pos0 == old(self).pos as int,
                end0 == old(self).end as int,
                n == tn@.len(),
                tnames == deep_names(tn@),
                i <= n,
                self.pos >= pos0,
                sd_entry_items(d, hs, pos0, end0, tnames, 0, Seq::empty()) == sd_entry_items(
                    d,
                    hs,
                    self.pos as int,
                    end0,
                    tnames,
                    i as int,
                    deep_fields(result@),
                ),
            decreases n - i,
        {
            proof {
                assert(tn@[i as int]@ == tnames[i as int]);
            }
            let (ename, fields) = match self.read_entry_body() {
                Ok(p) => p,
                Err(e) => {
                    return Err(e);
                },
            };
            let tname = BinFNV::from_hash_string(tn[i].get_hash(), tn[i].get_string());
            assoc_put(&mut result, ename, BinValue::Struct(tname, fields));
            i = i + 1;
        }
        Ok(result)
    }

    /// The entry table, in its two-phase protocol: first every type-name
    /// hash is read in full, then one region-scoped body per buffered
    /// type name; a later entry with a colliding name hash silently
    /// overwrites the earlier one.
    #[verifier::rlimit(100)]
    fn read_entries(&mut self) -> (r: Result<Vec<(BinFNV, BinValue)>, BinError>)
        requires
            old(self).wf(),
            old(self).depth == 0,
        ensures
            final(self).wf(),
            final(self).same_frame(*old(self)),
            final(self).pos >= old(self).pos,
            match sd_entries(
                old(self).d(),
                old(self).hashes@,
                old(self).pos as int,
                old(self).end as int,
            ) {
                Ok(es) => r matches Ok(v) && deep_fields(v@) == es,
                Err(e) => r matches Err(e2) && e2 == e,
            },
    {
        let ghost d = self.d();
        let ghost hs = self.hashes@;
        let ghost pos0 = self.pos as int;
        let ghost end0 = self.end as int;
        let count = match self.read_u32() {
            Ok(c) => c,
            Err(e) => {
                return Err(e);
            },
        };
        let mut tn: Vec<BinFNV> = Vec::new();
        let mut k: u32 = 0;
        while k < count
            invariant
                self.wf(),
                self.same_frame(*old(self)),
                self.d() == d,
                self.hashes@ == hs,
                pos0 == old(self).pos as int,
                end0 == old(self).end as int,
                pos0 + 4 <= end0,
                count == u32_at(d, pos0),
                self.pos as int == pos0 + 4 + 4 * k,
                k <= count,
                tn@.len() == k,
                forall|j: int|
                    0 <= j < k ==> (#[trigger] tn@[j])@ == resolve32(
                        hs.types,
                        u32_at(d, pos0 + 4 + 4 * j),
                    ),
            decreases count - k,
        {
            match self.read_type_name() {
                Ok(n) => {
                    tn.push(n);
                },
                Err(e) => {
                    proof {
                        assert(4 * (k as int + 1) <= 4 * (count as int));
                        assert(pos0 + 4 + 4 * (count as int) > end0);
                    }
                    return Err(e);
                },
            }
            k = k + 1;
        }
        let ghost tnames = Seq::new(
            count as nat,
            |i: int|
                if 0 <= i < count {
                    resolve32(hs.types, u32_at(d, pos0 + 4 + 4 * i))
                } else {
                    SpecFnv { hash: 0, label: Seq::empty() }
                },
        );
        proof {
            assert(deep_names(tn@) =~= tnames);
        }
        match self.read_entry_items(&tn) {
            Ok(es) => Ok(es),
            Err(e) => Err(e),
        }
    }

    /// Decodes a whole buffer: magic, version, link table, entry table.
    pub fn read_bin(data: &[u8], hashes: &BinHashes) -> (r: Result<Bin, BinError>)
        ensures
            match sd_doc(data@, hashes@) {
                Ok(m) => r matches Ok(b) && b@ == m,
                Err(e) => r matches Err(e2) && e2 == e,
            },
    {
        let mut reader = BinReader { data, pos: 0, end: data.len(), depth: 0, hashes };
        let magic = match reader.read_u32() {
            Ok(m) => m,
            Err(e) => {
                return Err(e);
            },
        };
        if magic != MAGIC {
            return Err(BinError::BadMagic);
        }
        let version = match reader.read_u32() {
            Ok(v) => v,
            Err(e) => {
                return Err(e);
            },
        };
        let links = match reader.read_links() {
            Ok(ls) => ls,
            Err(e) => {
                return Err(e);
            },
        };
        let entries = match reader.read_entries() {
            Ok(es) => es,
            Err(e) => {
                return Err(e);
            },
        };
        Ok(Bin { version, links, entries })
    }
}

} // verus!
