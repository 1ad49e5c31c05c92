//! The decoded value tree and its mathematical model.
//!
//! `BinValue` is a closed tagged union of every value kind the wire format
//! can carry.  32-bit floating point payloads are held as their raw IEEE
//! little-endian bit patterns (`u32`): the decoder never computes with
//! them, it only carries them through, and contracts stay exact over the
//! bits.  Text is held as its exact UTF-8 bytes.  `SpecValue` is the
//! ghost-level mirror used by every contract.

use vstd::prelude::*;

use crate::hashes::BinFNV;
use crate::hashes::BinXXH;
use crate::hashes::SpecFnv;
use crate::hashes::SpecXxh;

verus! {

broadcast use vstd::seq::axiom_seq_index_decreases, vstd::std_specs::vec::axiom_vec_decreases_to_view;

/// Ghost mirror of [`BinValue`], over `Seq` instead of `Vec`.
pub ghost enum SpecValue {
    /// No value (the `none` tag, an absent optional, or a null struct).
    Absent,
    Bool(bool),
    /// Any signed integer kind, sign-extended to 64 bits.
    Signed(i64),
    /// Any unsigned integer kind, zero-extended to 64 bits.
    Unsigned(u64),
    /// A 32-bit float, as its raw IEEE bit pattern.
    Float(u32),
    Vec2(u32, u32),
    Vec3(u32, u32, u32),
    Vec4(u32, u32, u32, u32),
    /// A 4x4 float matrix: 16 bit patterns in wire (row-major) order.
    Mtx44(Seq<u32>),
    /// A color in stored order R, G, B, A.
    Rgba(u8, u8, u8, u8),
    /// Length-prefixed text: the exact UTF-8 payload bytes.
    Text(Seq<u8>),
    /// A generic 32-bit hash reference.
    Hash(SpecFnv),
    /// A cross-entry link reference (32-bit entry-name hash).
    Link(SpecFnv),
    /// A 64-bit file-path reference.
    File(SpecXxh),
    List(Seq<SpecValue>),
    /// The map container: an ordered pair sequence, duplicates permitted.
    Pairs(Seq<(SpecValue, SpecValue)>),
    /// A struct: its type name and its field table (field-name hashes
    /// unique, later duplicates having overwritten earlier ones).
    Struct(SpecFnv, Seq<(SpecFnv, SpecValue)>),
}

/// One decoded value.
#[derive(Debug)]
pub enum BinValue {
    Absent,
    Bool(bool),
    Signed(i64),
    Unsigned(u64),
    Float(u32),
    Vec2(u32, u32),
    Vec3(u32, u32, u32),
    Vec4(u32, u32, u32, u32),
    Mtx44(Vec<u32>),
    Rgba(u8, u8, u8, u8),
    Text(Vec<u8>),
    Hash(BinFNV),
    Link(BinFNV),
    File(BinXXH),
    List(Vec<BinValue>),
    Pairs(Vec<(BinValue, BinValue)>),
    Struct(BinFNV, Vec<(BinFNV, BinValue)>),
}

impl BinValue {
    /// The ghost value this tree stands for.
    pub open spec fn deep(self) -> SpecValue
        decreases self,
    {
        match self {
            BinValue::Absent => SpecValue::Absent,
            BinValue::Bool(b) => SpecValue::Bool(b),
            BinValue::Signed(n) => SpecValue::Signed(n),
            BinValue::Unsigned(n) => SpecValue::Unsigned(n),
            BinValue::Float(bits) => SpecValue::Float(bits),
            BinValue::Vec2(x, y) => SpecValue::Vec2(x, y),
            BinValue::Vec3(x, y, z) => SpecValue::Vec3(x, y, z),
            BinValue::Vec4(x, y, z, w) => SpecValue::Vec4(x, y, z, w),
            BinValue::Mtx44(m) => SpecValue::Mtx44(m@),
            BinValue::Rgba(r, g, b, a) => SpecValue::Rgba(r, g, b, a),
            BinValue::Text(t) => SpecValue::Text(t@),
            BinValue::Hash(n) => SpecValue::Hash(n@),
            BinValue::Link(n) => SpecValue::Link(n@),
            BinValue::File(n) => SpecValue::File(n@),
            BinValue::List(items) => SpecValue::List(deep_seq(items@)),
            BinValue::Pairs(pairs) => SpecValue::Pairs(deep_pairs(pairs@)),
            BinValue::Struct(name, fields) => SpecValue::Struct(name@, deep_fields(fields@)),
        }
    }
}

/// The ghost image of a sequence of values.
pub open spec fn deep_seq(s: Seq<BinValue>) -> Seq<SpecValue>
    decreases s,
{
    Seq::new(
        s.len(),
        |i: int|
            if 0 <= i < s.len() {
                s[i].deep()
            } else {
                SpecValue::Absent
            },
    )
}

/// The ghost image of a sequence of key/value pairs.
pub open spec fn deep_pairs(s: Seq<(BinValue, BinValue)>) -> Seq<(SpecValue, SpecValue)>
    decreases s,
{
    Seq::new(
        s.len(),
        |i: int|
            if 0 <= i < s.len() {
                (s[i].0.deep(), s[i].1.deep())
            } else {
                (SpecValue::Absent, SpecValue::Absent)
            },
    )
}

/// The ghost image of a field or entry table.
pub open spec fn deep_fields(s: Seq<(BinFNV, BinValue)>) -> Seq<(SpecFnv, SpecValue)>
    decreases s,
{
    Seq::new(
        s.len(),
        |i: int|
            if 0 <= i < s.len() {
                (s[i].0@, s[i].1.deep())
            } else {
                (SpecFnv { hash: 0, label: Seq::empty() }, SpecValue::Absent)
            },
    )
}

/// The ghost image of a sequence of byte strings.
pub open spec fn deep_links(s: Seq<Vec<u8>>) -> Seq<Seq<u8>> {
    Seq::new(
        s.len(),
        |i: int|
            if 0 <= i < s.len() {
                s[i]@
            } else {
                Seq::empty()
            },
    )
}

pub proof fn lemma_deep_links_push(s: Seq<Vec<u8>>, v: Vec<u8>)
    ensures
        deep_links(s.push(v)) == deep_links(s).push(v@),
{
    assert(deep_links(s.push(v)) =~= deep_links(s).push(v@));
}

/// The ghost image of a sequence of 32-bit names.
pub open spec fn deep_names(s: Seq<BinFNV>) -> Seq<SpecFnv> {
    Seq::new(
        s.len(),
        |i: int|
            if 0 <= i < s.len() {
                s[i]@
            } else {
                SpecFnv { hash: 0, label: Seq::empty() }
            },
    )
}

pub proof fn lemma_deep_seq_push(s: Seq<BinValue>, v: BinValue)
    ensures
        deep_seq(s.push(v)) == deep_seq(s).push(v.deep()),
{
    assert(deep_seq(s.push(v)) =~= deep_seq(s).push(v.deep()));
}

pub proof fn lemma_deep_pairs_push(s: Seq<(BinValue, BinValue)>, k: BinValue, v: BinValue)
    ensures
        deep_pairs(s.push((k, v))) == deep_pairs(s).push((k.deep(), v.deep())),
{
    assert(deep_pairs(s.push((k, v))) =~= deep_pairs(s).push((k.deep(), v.deep())));
}

pub proof fn lemma_deep_fields_push(s: Seq<(BinFNV, BinValue)>, k: BinFNV, v: BinValue)
    ensures
        deep_fields(s.push((k, v))) == deep_fields(s).push((k@, v.deep())),
{
    assert(deep_fields(s.push((k, v))) =~= deep_fields(s).push((k@, v.deep())));
}

pub proof fn lemma_deep_fields_update(s: Seq<(BinFNV, BinValue)>, i: int, k: BinFNV, v: BinValue)
    requires
        0 <= i < s.len(),
    ensures
        deep_fields(s.update(i, (k, v))) == deep_fields(s).update(i, (k@, v.deep())),
{
    assert(deep_fields(s.update(i, (k, v))) =~= deep_fields(s).update(i, (k@, v.deep())));
}

} // verus!
