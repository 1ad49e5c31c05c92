//! The wire format, stated as spec functions over the raw byte sequence.
//!
//! Every function here takes the whole buffer `d`, the current position
//! `pos` and the exclusive bound `end` of the enclosing region, and says
//! what the decoder returns there: the decoded value together with the
//! number of bytes the value occupies, or the error that aborts the
//! decode.  The executable reader is proved to agree with these functions
//! exactly, so they are the single place where the format is written down.
//!
//! Termination of the mutually recursive definitions is by the pair
//! (bytes remaining in the region, items remaining in the current
//! count-prefixed run).  Recursive steps advance the position by a
//! consumed-byte count coming out of a recursive call; `step` guards that
//! advance so that the measure is non-increasing by construction (the
//! consumed count is in fact never negative, which the executable proofs
//! confirm value by value).

use vstd::prelude::*;

use crate::errors::BinError;
use crate::hashes::resolve32;
use crate::hashes::resolve64;
use crate::hashes::SpecFnv;
use crate::hashes::SpecHashes;
use crate::value::SpecValue;

verus! {

/// The fixed document magic, "PROP" read as a little-endian u32.
pub const MAGIC: u32 = 0x504F5250;

/// The hard cap on concurrently open nested regions: the sole defense
/// against crafted self-nesting input exhausting the call stack.
pub const DEPTH_CAP: u32 = 128;

pub const TAG_NONE: u8 = 0;

pub const TAG_BOOL: u8 = 1;

pub const TAG_I8: u8 = 2;

pub const TAG_U8: u8 = 3;

pub const TAG_I16: u8 = 4;

pub const TAG_U16: u8 = 5;

pub const TAG_I32: u8 = 6;

pub const TAG_U32: u8 = 7;

pub const TAG_I64: u8 = 8;

pub const TAG_U64: u8 = 9;

pub const TAG_F32: u8 = 10;

pub const TAG_VEC2: u8 = 11;

pub const TAG_VEC3: u8 = 12;

pub const TAG_VEC4: u8 = 13;

pub const TAG_MTX44: u8 = 14;

pub const TAG_RGBA: u8 = 15;

pub const TAG_STRING: u8 = 16;

pub const TAG_HASH: u8 = 17;

pub const TAG_FILE: u8 = 18;

pub const TAG_LIST: u8 = 0x80;

/// An alias of [`TAG_LIST`], retained for wire compatibility and treated
/// identically.
pub const TAG_LIST2: u8 = 0x81;

pub const TAG_POINTER: u8 = 0x82;

/// An embedded struct; decoded exactly as [`TAG_POINTER`].
pub const TAG_EMBED: u8 = 0x83;

pub const TAG_LINK: u8 = 0x84;

pub const TAG_OPTION: u8 = 0x85;

pub const TAG_MAP: u8 = 0x86;

/// A pure alias of [`TAG_BOOL`].
pub const TAG_FLAG: u8 = 0x87;

/// Whether a tag byte names a known value kind.  Anything else is a hard
/// [`BinError::UnknownTag`] failure: without the tag's wire width, nothing
/// after it could be decoded soundly.
pub open spec fn is_known_tag(t: u8) -> bool {
    t <= TAG_FILE || (TAG_LIST <= t && t <= TAG_FLAG)
}

/// Little-endian u16 at `pos`.
pub open spec fn u16_at(d: Seq<u8>, pos: int) -> u16 {
    (d[pos] + 0x100 * d[pos + 1]) as u16
}

/// Little-endian u32 at `pos`.
pub open spec fn u32_at(d: Seq<u8>, pos: int) -> u32 {
    (d[pos] + 0x100 * d[pos + 1] + 0x10000 * d[pos + 2] + 0x1000000 * d[pos + 3]) as u32
}

/// Little-endian u64 at `pos`.
pub open spec fn u64_at(d: Seq<u8>, pos: int) -> u64 {
    (d[pos] + 0x100 * d[pos + 1] + 0x10000 * d[pos + 2] + 0x1000000 * d[pos + 3] + 0x100000000
        * d[pos + 4] + 0x10000000000 * d[pos + 5] + 0x1000000000000 * d[pos + 6]
        + 0x100000000000000 * d[pos + 7]) as u64
}

/// The byte at `pos` reinterpreted as a two's-complement i8, widened.
pub open spec fn i8_at(d: Seq<u8>, pos: int) -> i64 {
    if d[pos] < 0x80 {
        d[pos] as i64
    } else {
        (d[pos] - 0x100) as i64
    }
}

pub open spec fn i16_at(d: Seq<u8>, pos: int) -> i64 {
    if u16_at(d, pos) < 0x8000 {
        u16_at(d, pos) as i64
    } else {
        (u16_at(d, pos) - 0x10000) as i64
    }
}

pub open spec fn i32_at(d: Seq<u8>, pos: int) -> i64 {
    if u32_at(d, pos) < 0x80000000 {
        u32_at(d, pos) as i64
    } else {
        (u32_at(d, pos) - 0x100000000) as i64
    }
}

pub open spec fn i64_at(d: Seq<u8>, pos: int) -> i64 {
    if u64_at(d, pos) < 0x8000000000000000 {
        u64_at(d, pos) as i64
    } else {
        (u64_at(d, pos) - 0x10000000000000000) as i64
    }
}

/// Whether the continuation byte of a multi-byte UTF-8 sequence is valid.
pub open spec fn is_utf8_cont(b: u8) -> bool {
    0x80 <= b && b <= 0xBF
}

/// Strict UTF-8 validity of `s` from index `i` on: rejects overlong
/// encodings, surrogates and values above U+10FFFF, as text decoding does.
pub open spec fn utf8_from(s: Seq<u8>, i: int) -> bool
    decreases s.len() - i,
{
    if i < 0 || i >= s.len() {
        true
    } else {
        let b0 = s[i];
        if b0 < 0x80 {
            utf8_from(s, i + 1)
        } else if 0xC2 <= b0 && b0 <= 0xDF {
            if i + 2 <= s.len() {
                is_utf8_cont(s[i + 1]) && utf8_from(s, i + 2)
            } else {
                false
            }
        } else if b0 == 0xE0 {
            if i + 3 <= s.len() {
                0xA0 <= s[i + 1] && s[i + 1] <= 0xBF && is_utf8_cont(s[i + 2]) && utf8_from(
                    s,
                    i + 3,
                )
            } else {
                false
            }
        } else if b0 == 0xED {
            if i + 3 <= s.len() {
                0x80 <= s[i + 1] && s[i + 1] <= 0x9F && is_utf8_cont(s[i + 2]) && utf8_from(
                    s,
                    i + 3,
                )
            } else {
                false
            }
        } else if (0xE1 <= b0 && b0 <= 0xEC) || b0 == 0xEE || b0 == 0xEF {
            if i + 3 <= s.len() {
                is_utf8_cont(s[i + 1]) && is_utf8_cont(s[i + 2]) && utf8_from(s, i + 3)
            } else {
                false
            }
        } else if b0 == 0xF0 {
            if i + 4 <= s.len() {
                0x90 <= s[i + 1] && s[i + 1] <= 0xBF && is_utf8_cont(s[i + 2]) && is_utf8_cont(
                    s[i + 3],
                ) && utf8_from(s, i + 4)
            } else {
                false
            }
        } else if 0xF1 <= b0 && b0 <= 0xF3 {
            if i + 4 <= s.len() {
                is_utf8_cont(s[i + 1]) && is_utf8_cont(s[i + 2]) && is_utf8_cont(s[i + 3])
                    && utf8_from(s, i + 4)
            } else {
                false
            }
        } else if b0 == 0xF4 {
            if i + 4 <= s.len() {
                0x80 <= s[i + 1] && s[i + 1] <= 0x8F && is_utf8_cont(s[i + 2]) && is_utf8_cont(
                    s[i + 3],
                ) && utf8_from(s, i + 4)
            } else {
                false
            }
        } else {
            false
        }
    }
}

pub open spec fn utf8_ok(s: Seq<u8>) -> bool {
    utf8_from(s, 0)
}

/// Bytes remaining in the region, floored at zero so that it can serve as
/// a termination measure.
pub open spec fn rem(pos: int, end: int) -> int {
    if pos <= end {
        end - pos
    } else {
        0
    }
}

/// Position after consuming `used` bytes.  The guard only serves the
/// termination measure: every consumed count the decoder produces is
/// non-negative, so the guard never actually bites.
pub open spec fn step(pos: int, used: int) -> int {
    if used >= 0 {
        pos + used
    } else {
        pos
    }
}

/// Inserts a (name, value) pair into an association sequence keyed by the
/// name's numeric hash: the pair with a matching hash is replaced in
/// place, a fresh key is appended.  This is the mapping semantics of
/// struct fields and of the document entry table — last write wins.
pub open spec fn assoc_set(
    s: Seq<(SpecFnv, SpecValue)>,
    k: SpecFnv,
    v: SpecValue,
) -> Seq<(SpecFnv, SpecValue)>
    decreases s.len(),
{
    if s.len() == 0 {
        seq![(k, v)]
    } else if s[0].0.hash == k.hash {
        seq![(k, v)] + s.drop_first()
    } else {
        seq![s[0]] + assoc_set(s.drop_first(), k, v)
    }
}

/// Replacing at the first matching index is what `assoc_set` does.
pub proof fn lemma_assoc_set_found(s: Seq<(SpecFnv, SpecValue)>, i: int, k: SpecFnv, v: SpecValue)
    requires
        0 <= i < s.len(),
        s[i].0.hash == k.hash,
        forall|j: int| 0 <= j < i ==> (#[trigger] s[j]).0.hash != k.hash,
    ensures
        assoc_set(s, k, v) == s.update(i, (k, v)),
    decreases i,
{
    if i == 0 {
        assert(assoc_set(s, k, v) =~= s.update(0, (k, v)));
    } else {
        assert(s[0].0.hash != k.hash);
        let t = s.drop_first();
        assert forall|j: int| 0 <= j < i - 1 implies (#[trigger] t[j]).0.hash != k.hash by {
            assert(t[j] == s[j + 1]);
        }
        assert(t[i - 1] == s[i]);
        lemma_assoc_set_found(t, i - 1, k, v);
        assert(seq![s[0]] + t.update(i - 1, (k, v)) =~= s.update(i, (k, v)));
    }
}

/// Appending is what `assoc_set` does when no key matches.
pub proof fn lemma_assoc_set_absent(s: Seq<(SpecFnv, SpecValue)>, k: SpecFnv, v: SpecValue)
    requires
        forall|j: int| 0 <= j < s.len() ==> (#[trigger] s[j]).0.hash != k.hash,
    ensures
        assoc_set(s, k, v) == s.push((k, v)),
    decreases s.len(),
{
    if s.len() == 0 {
        assert(assoc_set(s, k, v) =~= s.push((k, v)));
    } else {
        let t = s.drop_first();
        assert forall|j: int| 0 <= j < t.len() implies (#[trigger] t[j]).0.hash != k.hash by {
            assert(t[j] == s[j + 1]);
        }
        lemma_assoc_set_absent(t, k, v);
        assert(seq![s[0]] + t.push((k, v)) =~= s.push((k, v)));
    }
}

/// The value an association sequence holds for a hash, if any.
pub open spec fn assoc_get(s: Seq<(SpecFnv, SpecValue)>, hash: u32) -> Option<SpecValue>
    decreases s.len(),
{
    if s.len() == 0 {
        Option::None
    } else if s[0].0.hash == hash {
        Option::Some(s[0].1)
    } else {
        assoc_get(s.drop_first(), hash)
    }
}

/// What decoding one value of kind `tag` at `pos` yields: the value and
/// the bytes it occupies, or the aborting error.
pub open spec fn sd_value(
    d: Seq<u8>,
    hs: SpecHashes,
    pos: int,
    end: int,
    depth: int,
    tag: u8,
) -> Result<(SpecValue, int), BinError>
    decreases rem(pos, end), 0int,
{
    if tag == TAG_NONE {
        Ok((SpecValue::Absent, 0))
    } else if tag == TAG_BOOL || tag == TAG_FLAG {
        if pos + 1 <= end {
            Ok((SpecValue::Bool(d[pos] != 0), 1))
        } else {
            Err(BinError::UnexpectedEof)
        }
    } else if tag == TAG_I8 {
        if pos + 1 <= end {
            Ok((SpecValue::Signed(i8_at(d, pos)), 1))
        } else {
            Err(BinError::UnexpectedEof)
        }
    } else if tag == TAG_U8 {
        if pos + 1 <= end {
            Ok((SpecValue::Unsigned(d[pos] as u64), 1))
        } else {
            Err(BinError::UnexpectedEof)
        }
    } else if tag == TAG_I16 {
        if pos + 2 <= end {
            Ok((SpecValue::Signed(i16_at(d, pos)), 2))
        } else {
            Err(BinError::UnexpectedEof)
        }
    } else if tag == TAG_U16 {
        if pos + 2 <= end {
            Ok((SpecValue::Unsigned(u16_at(d, pos) as u64), 2))
        } else {
            Err(BinError::UnexpectedEof)
        }
    } else if tag == TAG_I32 {
        if pos + 4 <= end {
            Ok((SpecValue::Signed(i32_at(d, pos)), 4))
        } else {
            Err(BinError::UnexpectedEof)
        }
    } else if tag == TAG_U32 {
        if pos + 4 <= end {
            Ok((SpecValue::Unsigned(u32_at(d, pos) as u64), 4))
        } else {
            Err(BinError::UnexpectedEof)
        }
    } else if tag == TAG_I64 {
        if pos + 8 <= end {
            Ok((SpecValue::Signed(i64_at(d, pos)), 8))
        } else {
            Err(BinError::UnexpectedEof)
        }
    } else if tag == TAG_U64 {
        if pos + 8 <= end {
            Ok((SpecValue::Unsigned(u64_at(d, pos)), 8))
        } else {
            Err(BinError::UnexpectedEof)
        }
    } else if tag == TAG_F32 {
        if pos + 4 <= end {
            Ok((SpecValue::Float(u32_at(d, pos)), 4))
        } else {
            Err(BinError::UnexpectedEof)
        }
    } else if tag == TAG_VEC2 {
        if pos + 8 <= end {
            Ok((SpecValue::Vec2(u32_at(d, pos), u32_at(d, pos + 4)), 8))
        } else {
            Err(BinError::UnexpectedEof)
        }
    } else if tag == TAG_VEC3 {
        if pos + 12 <= end {
            Ok((SpecValue::Vec3(u32_at(d, pos), u32_at(d, pos + 4), u32_at(d, pos + 8)), 12))
        } else {
            Err(BinError::UnexpectedEof)
        }
    } else if tag == TAG_VEC4 {
        if pos + 16 <= end {
            Ok(
                (
                    SpecValue::Vec4(
                        u32_at(d, pos),
                        u32_at(d, pos + 4),
                        u32_at(d, pos + 8),
                        u32_at(d, pos + 12),
                    ),
                    16,
                ),
            )
        } else {
            Err(BinError::UnexpectedEof)
        }
    } else if tag == TAG_MTX44 {
        if pos + 64 <= end {
            Ok(
                (
                    SpecValue::Mtx44(
                        Seq::new(
                            16,
                            |i: int|
                                if 0 <= i < 16 {
                                    u32_at(d, pos + 4 * i)
                                } else {
                                    0u32
                                },
                        ),
                    ),
                    64,
                ),
            )
        } else {
            Err(BinError::UnexpectedEof)
        }
    } else if tag == TAG_RGBA {
        // wire order A, B, G, R; stored order R, G, B, A
        if pos + 4 <= end {
            Ok((SpecValue::Rgba(d[pos + 3], d[pos + 2], d[pos + 1], d[pos]), 4))
        } else {
            Err(BinError::UnexpectedEof)
        }
    } else if tag == TAG_STRING {
        match sd_text(d, pos, end) {
            Ok((b, u)) => Ok((SpecValue::Text(b), u)),
            Err(e) => Err(e),
        }
    } else if tag == TAG_HASH {
        if pos + 4 <= end {
            Ok((SpecValue::Hash(resolve32(hs.hashes, u32_at(d, pos))), 4))
        } else {
            Err(BinError::UnexpectedEof)
        }
    } else if tag == TAG_LINK {
        if pos + 4 <= end {
            Ok((SpecValue::Link(resolve32(hs.entries, u32_at(d, pos))), 4))
        } else {
            Err(BinError::UnexpectedEof)
        }
    } else if tag == TAG_FILE {
        if pos + 8 <= end {
            Ok((SpecValue::File(resolve64(hs.paths, u64_at(d, pos))), 8))
        } else {
            Err(BinError::UnexpectedEof)
        }
    } else if tag == TAG_OPTION {
        // element tag, presence byte, then the inline value if present
        if pos + 1 <= end {
            let etag = d[pos];
            if is_known_tag(etag) {
                if pos + 2 <= end {
                    if d[pos + 1] == 0 {
                        Ok((SpecValue::Absent, 2))
                    } else {
                        match sd_value(d, hs, pos + 2, end, depth, etag) {
                            Ok((v, u)) => Ok((v, 2 + u)),
                            Err(e) => Err(e),
                        }
                    }
                } else {
                    Err(BinError::UnexpectedEof)
                }
            } else {
                Err(BinError::UnknownTag)
            }
        } else {
            Err(BinError::UnexpectedEof)
        }
    } else if tag == TAG_LIST || tag == TAG_LIST2 {
        // element tag, then a region holding a count-prefixed item run
        if pos + 1 <= end {
            let etag = d[pos];
            if is_known_tag(etag) {
                if depth + 1 > DEPTH_CAP {
                    Err(BinError::DepthExceeded)
                } else if pos + 5 <= end {
                    let len = u32_at(d, pos + 1);
                    if pos + 5 + len <= end {
                        if pos + 9 <= pos + 5 + len {
                            let count = u32_at(d, pos + 5);
                            match sd_items(
                                d,
                                hs,
                                pos + 9,
                                pos + 5 + len,
                                depth + 1,
                                etag,
                                count as int,
                            ) {
                                Ok(items) => Ok((SpecValue::List(items), 5 + len)),
                                Err(e) => Err(e),
                            }
                        } else {
                            Err(BinError::UnexpectedEof)
                        }
                    } else {
                        Err(BinError::RegionOverrun)
                    }
                } else {
                    Err(BinError::UnexpectedEof)
                }
            } else {
                Err(BinError::UnknownTag)
            }
        } else {
            Err(BinError::UnexpectedEof)
        }
    } else if tag == TAG_MAP {
        // key tag, value tag, then a region with a count-prefixed pair run
        if pos + 1 <= end {
            let ktag = d[pos];
            if is_known_tag(ktag) {
                if pos + 2 <= end {
                    let vtag = d[pos + 1];
                    if is_known_tag(vtag) {
                        if depth + 1 > DEPTH_CAP {
                            Err(BinError::DepthExceeded)
                        } else if pos + 6 <= end {
                            let len = u32_at(d, pos + 2);
                            if pos + 6 + len <= end {
                                if pos + 10 <= pos + 6 + len {
                                    let count = u32_at(d, pos + 6);
                                    match sd_pairs(
                                        d,
                                        hs,
                                        pos + 10,
                                        pos + 6 + len,
                                        depth + 1,
                                        ktag,
                                        vtag,
                                        count as int,
                                    ) {
                                        Ok(pairs) => Ok((SpecValue::Pairs(pairs), 6 + len)),
                                        Err(e) => Err(e),
                                    }
                                } else {
                                    Err(BinError::UnexpectedEof)
                                }
                            } else {
                                Err(BinError::RegionOverrun)
                            }
                        } else {
                            Err(BinError::UnexpectedEof)
                        }
                    } else {
                        Err(BinError::UnknownTag)
                    }
                } else {
                    Err(BinError::UnexpectedEof)
                }
            } else {
                Err(BinError::UnknownTag)
            }
        } else {
            Err(BinError::UnexpectedEof)
        }
    } else if tag == TAG_POINTER || tag == TAG_EMBED {
        // type-name hash; zero is the null-struct sentinel, no region opens
        if pos + 4 <= end {
            let th = u32_at(d, pos);
            if th == 0 {
                Ok((SpecValue::Absent, 4))
            } else if depth + 1 > DEPTH_CAP {
                Err(BinError::DepthExceeded)
            } else if pos + 8 <= end {
                let len = u32_at(d, pos + 4);
                if pos + 8 + len <= end {
                    match sd_fields(d, hs, pos + 8, pos + 8 + len, depth + 1) {
                        Ok(fields) => Ok(
                            (SpecValue::Struct(resolve32(hs.types, th), fields), 8 + len),
                        ),
                        Err(e) => Err(e),
                    }
                } else {
                    Err(BinError::RegionOverrun)
                }
            } else {
                Err(BinError::UnexpectedEof)
            }
        } else {
            Err(BinError::UnexpectedEof)
        }
    } else {
        Err(BinError::UnknownTag)
    }
}

/// One length-prefixed text value at `pos`: its payload bytes and the
/// bytes it occupies.
pub open spec fn sd_text(d: Seq<u8>, pos: int, end: int) -> Result<(Seq<u8>, int), BinError> {
    if pos + 2 <= end {
        let n = u16_at(d, pos);
        if pos + 2 + n <= end {
            let b = d.subrange(pos + 2, pos + 2 + n);
            if utf8_ok(b) {
                Ok((b, 2 + n))
            } else {
                Err(BinError::InvalidText)
            }
        } else {
            Err(BinError::UnexpectedEof)
        }
    } else {
        Err(BinError::UnexpectedEof)
    }
}

/// A run of `count` values of kind `etag`, one after the other.
pub open spec fn sd_items(
    d: Seq<u8>,
    hs: SpecHashes,
    pos: int,
    end: int,
    depth: int,
    etag: u8,
    count: int,
) -> Result<Seq<SpecValue>, BinError>
    decreases rem(pos, end), count,
{
    if count <= 0 {
        Ok(Seq::empty())
    } else {
        match sd_value(d, hs, pos, end, depth, etag) {
            Ok((v, u)) => match sd_items(d, hs, step(pos, u), end, depth, etag, count - 1) {
                Ok(rest) => Ok(seq![v] + rest),
                Err(e) => Err(e),
            },
            Err(e) => Err(e),
        }
    }
}

/// A run of `count` key/value pairs, wire order preserved, duplicate keys
/// permitted.
pub open spec fn sd_pairs(
    d: Seq<u8>,
    hs: SpecHashes,
    pos: int,
    end: int,
    depth: int,
    ktag: u8,
    vtag: u8,
    count: int,
) -> Result<Seq<(SpecValue, SpecValue)>, BinError>
    decreases rem(pos, end), count,
{
    if count <= 0 {
        Ok(Seq::empty())
    } else {
        match sd_value(d, hs, pos, end, depth, ktag) {
            Ok((k, uk)) => match sd_value(d, hs, step(pos, uk), end, depth, vtag) {
                Ok((v, uv)) => match sd_pairs(
                    d,
                    hs,
                    step(step(pos, uk), uv),
                    end,
                    depth,
                    ktag,
                    vtag,
                    count - 1,
                ) {
                    Ok(rest) => Ok(seq![(k, v)] + rest),
                    Err(e) => Err(e),
                },
                Err(e) => Err(e),
            },
            Err(e) => Err(e),
        }
    }
}

/// A struct body: a u16 field count, then that many fields.
pub open spec fn sd_fields(d: Seq<u8>, hs: SpecHashes, pos: int, end: int, depth: int) -> Result<
    Seq<(SpecFnv, SpecValue)>,
    BinError,
>
    decreases rem(pos, end), 0int,
{
    if pos + 2 <= end {
        sd_field_items(d, hs, pos + 2, end, depth, u16_at(d, pos) as int, Seq::empty())
    } else {
        Err(BinError::UnexpectedEof)
    }
}

/// `count` fields, each a field-name hash, a tag byte, and a value; a
/// later field whose name hash repeats overwrites the earlier one.
pub open spec fn sd_field_items(
    d: Seq<u8>,
    hs: SpecHashes,
    pos: int,
    end: int,
    depth: int,
    count: int,
    acc: Seq<(SpecFnv, SpecValue)>,
) -> Result<Seq<(SpecFnv, SpecValue)>, BinError>
    decreases rem(pos, end), count,
{
    if count <= 0 {
        Ok(acc)
    } else if pos + 5 <= end {
        let key = resolve32(hs.fields, u32_at(d, pos));
        let vtag = d[pos + 4];
        if is_known_tag(vtag) {
            match sd_value(d, hs, pos + 5, end, depth, vtag) {
                Ok((v, u)) => sd_field_items(
                    d,
                    hs,
                    step(pos + 5, u),
                    end,
                    depth,
                    count - 1,
                    assoc_set(acc, key, v),
                ),
                Err(e) => Err(e),
            }
        } else {
            Err(BinError::UnknownTag)
        }
    } else {
        Err(BinError::UnexpectedEof)
    }
}

/// Mathematical model of a decoded document.
pub ghost struct SpecDoc {
    /// The format version, carried through unvalidated.
    pub version: u32,
    /// The link path strings, wire order preserved, no deduplication.
    pub links: Seq<Seq<u8>>,
    /// The entry table: entry-name -> struct value, keyed by the name
    /// hash, a later colliding entry having overwritten an earlier one.
    pub entries: Seq<(SpecFnv, SpecValue)>,
}

/// `count` length-prefixed link strings from `pos` on; yields the strings
/// and the position after the last one.
pub open spec fn sd_links(d: Seq<u8>, pos: int, end: int, count: int) -> Result<
    (Seq<Seq<u8>>, int),
    BinError,
>
    decreases count,
{
    if count <= 0 {
        Ok((Seq::empty(), pos))
    } else {
        match sd_text(d, pos, end) {
            Ok((b, u)) => match sd_links(d, step(pos, u), end, count - 1) {
                Ok((rest, fin)) => Ok((seq![b] + rest, fin)),
                Err(e) => Err(e),
            },
            Err(e) => Err(e),
        }
    }
}

/// Phase two of the entry table: for the `i`-th buffered type name on,
/// one region per entry holding the entry-name hash and the field list.
/// The entry regions open at depth 1, far under the cap.
pub open spec fn sd_entry_items(
    d: Seq<u8>,
    hs: SpecHashes,
    pos: int,
    end: int,
    tnames: Seq<SpecFnv>,
    i: int,
    acc: Seq<(SpecFnv, SpecValue)>,
) -> Result<Seq<(SpecFnv, SpecValue)>, BinError>
    decreases tnames.len() - i,
{
    if i >= tnames.len() {
        Ok(acc)
    } else if pos + 4 <= end {
        let len = u32_at(d, pos);
        if pos + 4 + len <= end {
            if pos + 8 <= pos + 4 + len {
                let ename = resolve32(hs.entries, u32_at(d, pos + 4));
                match sd_fields(d, hs, pos + 8, pos + 4 + len, 1) {
                    Ok(fields) => sd_entry_items(
                        d,
                        hs,
                        pos + 4 + len,
                        end,
                        tnames,
                        i + 1,
                        assoc_set(acc, ename, SpecValue::Struct(tnames[i], fields)),
                    ),
                    Err(e) => Err(e),
                }
            } else {
                Err(BinError::UnexpectedEof)
            }
        } else {
            Err(BinError::RegionOverrun)
        }
    } else {
        Err(BinError::UnexpectedEof)
    }
}

/// The entry table: a u32 count, that many u32 type-name hashes read in
/// full first, then one region-scoped body per buffered type name.
pub open spec fn sd_entries(d: Seq<u8>, hs: SpecHashes, pos: int, end: int) -> Result<
    Seq<(SpecFnv, SpecValue)>,
    BinError,
> {
    if pos + 4 <= end {
        let count = u32_at(d, pos);
        if pos + 4 + 4 * count <= end {
            let tnames = Seq::new(
                count as nat,
                |i: int|
                    if 0 <= i < count {
                        resolve32(hs.types, u32_at(d, pos + 4 + 4 * i))
                    } else {
                        SpecFnv { hash: 0, label: Seq::empty() }
                    },
            );
            sd_entry_items(d, hs, pos + 4 + 4 * count, end, tnames, 0, Seq::empty())
        } else {
            Err(BinError::UnexpectedEof)
        }
    } else {
        Err(BinError::UnexpectedEof)
    }
}

/// What decoding a whole buffer yields: magic, version, link table, entry
/// table.  Trailing bytes after the entry table are ignored.
pub open spec fn sd_doc(d: Seq<u8>, hs: SpecHashes) -> Result<SpecDoc, BinError> {
    if d.len() < 4 {
        Err(BinError::UnexpectedEof)
    } else if u32_at(d, 0) != MAGIC {
        Err(BinError::BadMagic)
    } else if d.len() < 8 {
        Err(BinError::UnexpectedEof)
    } else if d.len() < 12 {
        Err(BinError::UnexpectedEof)
    } else {
        let version = u32_at(d, 4);
        let lcount = u32_at(d, 8);
        match sd_links(d, 12, d.len() as int, lcount as int) {
            Ok((links, after)) => match sd_entries(d, hs, after, d.len() as int) {
                Ok(entries) => Ok(SpecDoc { version, links, entries }),
                Err(e) => Err(e),
            },
            Err(e) => Err(e),
        }
    }
}

} // verus!
