//! Properties of the decoder that hold for every input, stated and proved
//! over the `wire` spec functions that every executable contract uses.

use vstd::prelude::*;

use crate::errors::BinError;
use crate::hashes::fnv_display;
use crate::hashes::hex32;
use crate::hashes::hex64;
use crate::hashes::resolve32;
use crate::hashes::resolve64;
use crate::hashes::SpecFnv;
use crate::hashes::SpecHashes;
use crate::hashes::SpecXxh;
use crate::hashes::xxh_display;
use crate::value::SpecValue;
use crate::wire::assoc_get;
use crate::wire::assoc_set;
use crate::wire::DEPTH_CAP;
use crate::wire::is_known_tag;
use crate::wire::MAGIC;
use crate::wire::rem;
use crate::wire::sd_doc;
use crate::wire::sd_entry_items;
use crate::wire::sd_value;
use crate::wire::SpecDoc;
use crate::wire::TAG_EMBED;
use crate::wire::TAG_LIST;
use crate::wire::TAG_LIST2;
use crate::wire::TAG_MAP;
use crate::wire::TAG_OPTION;
use crate::wire::TAG_POINTER;
use crate::wire::u32_at;

verus! {

/// A minimal well-formed document — valid magic, any version, zero links,
/// zero entries — decodes to that version with an empty link list and an
/// empty entry table.
pub proof fn lemma_minimal_document(d: Seq<u8>, hs: SpecHashes)
    requires
        d.len() == 16,
        u32_at(d, 0) == MAGIC,
        u32_at(d, 8) == 0,
        u32_at(d, 12) == 0,
    ensures
        sd_doc(d, hs) == Ok::<SpecDoc, BinError>(
            SpecDoc {
                version: u32_at(d, 4),
                links: Seq::empty(),
                entries: Seq::empty(),
            },
        ),
{
}

/// A hash present in a dictionary always resolves to its recorded label.
pub proof fn lemma_resolution_returns_label32(m: Map<u32, Seq<u8>>, h: u32)
    requires
        m.dom().contains(h),
    ensures
        resolve32(m, h).label == m[h],
        resolve32(m, h).hash == h,
{
}

/// A hash present in the 64-bit dictionary always resolves to its label.
pub proof fn lemma_resolution_returns_label64(m: Map<u64, Seq<u8>>, h: u64)
    requires
        m.dom().contains(h),
    ensures
        resolve64(m, h).label == m[h],
        resolve64(m, h).hash == h,
{
}

/// An absent 32-bit hash displays as "0x" and exactly 8 hex digits.
pub proof fn lemma_absent_hash_display32(m: Map<u32, Seq<u8>>, h: u32)
    requires
        !m.dom().contains(h),
    ensures
        fnv_display(resolve32(m, h)) == seq![48u8, 120u8] + hex32(h),
        hex32(h).len() == 8,
{
}

/// An absent 64-bit hash displays as "0x" and exactly 16 hex digits.
pub proof fn lemma_absent_hash_display64(m: Map<u64, Seq<u8>>, h: u64)
    requires
        !m.dom().contains(h),
    ensures
        xxh_display(resolve64(m, h)) == seq![48u8, 120u8] + hex64(h),
        hex64(h).len() == 16,
{
}

/// Opening one more container when the region depth has reached the cap
/// fails with `DepthExceeded`, whatever the container holds.
pub proof fn lemma_depth_cap(d: Seq<u8>, hs: SpecHashes, pos: int, end: int, depth: int, tag: u8)
    requires
        depth + 1 > DEPTH_CAP,
        tag == TAG_LIST || tag == TAG_LIST2 || tag == TAG_MAP || tag == TAG_POINTER || tag
            == TAG_EMBED,
        (tag == TAG_LIST || tag == TAG_LIST2) ==> pos + 1 <= end && is_known_tag(d[pos]),
        tag == TAG_MAP ==> pos + 2 <= end && is_known_tag(d[pos]) && is_known_tag(d[pos + 1]),
        (tag == TAG_POINTER || tag == TAG_EMBED) ==> pos + 4 <= end && u32_at(d, pos) != 0,
    ensures
        sd_value(d, hs, pos, end, depth, tag) == Err::<(SpecValue, int), BinError>(
            BinError::DepthExceeded,
        ),
{
}

/// A value decoded inside a region occupies only bytes of that region:
/// the consumed count is non-negative and never reaches past `end`.  A
/// child that would need more than its declared span fails instead of
/// reading on.
pub proof fn lemma_value_stays_in_region(
    d: Seq<u8>,
    hs: SpecHashes,
    pos: int,
    end: int,
    depth: int,
    tag: u8,
)
    requires
        0 <= pos <= end,
    ensures
        sd_value(d, hs, pos, end, depth, tag) matches Ok(p) ==> 0 <= p.1 && pos + p.1 <= end,
    decreases rem(pos, end),
{
    if tag == TAG_OPTION && pos + 1 <= end && is_known_tag(d[pos]) && pos + 2 <= end && d[pos + 1]
        != 0 {
        lemma_value_stays_in_region(d, hs, pos + 2, end, depth, d[pos]);
    }
}

/// No two pairs of an association sequence built by `assoc_set` share a
/// name hash.
pub open spec fn unique_hashes(s: Seq<(SpecFnv, SpecValue)>) -> bool {
    forall|i: int, j: int|
        0 <= i < j < s.len() ==> (#[trigger] s[i]).0.hash != (#[trigger] s[j]).0.hash
}

/// After an insert, the inserted name hash holds the new value: the
/// later write wins.
pub proof fn lemma_assoc_set_last_write_wins(
    s: Seq<(SpecFnv, SpecValue)>,
    k: SpecFnv,
    v: SpecValue,
)
    ensures
        assoc_get(assoc_set(s, k, v), k.hash) == Some(v),
    decreases s.len(),
{
    if s.len() > 0 && s[0].0.hash != k.hash {
        lemma_assoc_set_last_write_wins(s.drop_first(), k, v);
        assert((seq![s[0]] + assoc_set(s.drop_first(), k, v)).drop_first() =~= assoc_set(
            s.drop_first(),
            k,
            v,
        ));
    } else {
        if s.len() > 0 {
            assert((seq![(k, v)] + s.drop_first())[0] == (k, v));
        }
    }
}

/// An insert leaves every other name hash's value unchanged.
pub proof fn lemma_assoc_set_preserves_others(
    s: Seq<(SpecFnv, SpecValue)>,
    k: SpecFnv,
    v: SpecValue,
    h: u32,
)
    requires
        h != k.hash,
    ensures
        assoc_get(assoc_set(s, k, v), h) == assoc_get(s, h),
    decreases s.len(),
{
    if s.len() == 0 {
        let t = seq![(k, v)];
        assert(t[0] == (k, v));
        assert(t.drop_first() =~= Seq::<(SpecFnv, SpecValue)>::empty());
        assert(assoc_get(t, h) == assoc_get(t.drop_first(), h));
        assert(assoc_get(assoc_set(s, k, v), h) is None);
    } else if s[0].0.hash == k.hash {
        let t = seq![(k, v)] + s.drop_first();
        assert(t[0] == (k, v));
        assert(t.drop_first() =~= s.drop_first());
        assert(assoc_get(t, h) == assoc_get(s.drop_first(), h));
        assert(assoc_get(s, h) == assoc_get(s.drop_first(), h));
    } else {
        lemma_assoc_set_preserves_others(s.drop_first(), k, v, h);
        let u = assoc_set(s.drop_first(), k, v);
        let t = seq![s[0]] + u;
        assert(assoc_set(s, k, v) == t);
        assert(t[0] == s[0]);
        assert(t.drop_first() =~= u);
        if s[0].0.hash == h {
            assert(assoc_get(t, h) == Some(s[0].1));
            assert(assoc_get(s, h) == Some(s[0].1));
        } else {
            assert(assoc_get(t, h) == assoc_get(u, h));
            assert(assoc_get(s, h) == assoc_get(s.drop_first(), h));
        }
    }
}

/// Two inserts under one name hash collapse to one table pair: the table
/// does not grow when the hash is already present.
pub proof fn lemma_assoc_set_collapses(s: Seq<(SpecFnv, SpecValue)>, k: SpecFnv, v: SpecValue)
    ensures
        assoc_set(s, k, v).len() == if assoc_get(s, k.hash) is Some {
            s.len() as int
        } else {
            s.len() as int + 1
        },
    decreases s.len(),
{
    if s.len() > 0 && s[0].0.hash != k.hash {
        lemma_assoc_set_collapses(s.drop_first(), k, v);
    }
}

/// `assoc_set` keeps name hashes unique.
pub proof fn lemma_assoc_set_keeps_unique(s: Seq<(SpecFnv, SpecValue)>, k: SpecFnv, v: SpecValue)
    requires
        unique_hashes(s),
    ensures
        unique_hashes(assoc_set(s, k, v)),
    decreases s.len(),
{
    if s.len() == 0 {
    } else if s[0].0.hash == k.hash {
        let t = seq![(k, v)] + s.drop_first();
        assert forall|i: int, j: int| 0 <= i < j < t.len() implies (#[trigger] t[i]).0.hash
            != (#[trigger] t[j]).0.hash by {
            assert(t[j] == s[j]);
            if i > 0 {
                assert(t[i] == s[i]);
            }
        }
    } else {
        assert forall|i: int, j: int|
            0 <= i < j < s.drop_first().len() implies (#[trigger] s.drop_first()[i]).0.hash
            != (#[trigger] s.drop_first()[j]).0.hash by {
            assert(s.drop_first()[i] == s[i + 1]);
            assert(s.drop_first()[j] == s[j + 1]);
        }
        lemma_assoc_set_keeps_unique(s.drop_first(), k, v);
        let u = assoc_set(s.drop_first(), k, v);
        let t = seq![s[0]] + u;
        lemma_assoc_set_hashes(s.drop_first(), k, v);
        assert forall|i: int, j: int| 0 <= i < j < t.len() implies (#[trigger] t[i]).0.hash
            != (#[trigger] t[j]).0.hash by {
            if i > 0 {
                assert(t[i] == u[i - 1]);
            }
            assert(t[j] == u[j - 1]);
        }
    }
}

/// Every name hash in `assoc_set(s, k, v)` is `k`'s or one from `s`.
proof fn lemma_assoc_set_hashes(s: Seq<(SpecFnv, SpecValue)>, k: SpecFnv, v: SpecValue)
    ensures
        forall|i: int|
            0 <= i < assoc_set(s, k, v).len() ==> ((#[trigger] assoc_set(s, k, v)[i]).0.hash
                == k.hash || exists|j: int|
                0 <= j < s.len() && (#[trigger] s[j]).0.hash == assoc_set(s, k, v)[i].0.hash),
    decreases s.len(),
{
    let t = assoc_set(s, k, v);
    if s.len() == 0 {
        assert(t[0] == (k, v));
    } else if s[0].0.hash == k.hash {
        assert forall|i: int| 0 <= i < t.len() implies ((#[trigger] t[i]).0.hash == k.hash
            || exists|j: int| 0 <= j < s.len() && (#[trigger] s[j]).0.hash == t[i].0.hash) by {
            if i > 0 {
                assert(t[i] == s[i]);
            }
        }
    } else {
        lemma_assoc_set_hashes(s.drop_first(), k, v);
        let u = assoc_set(s.drop_first(), k, v);
        assert forall|i: int| 0 <= i < t.len() implies ((#[trigger] t[i]).0.hash == k.hash
            || exists|j: int| 0 <= j < s.len() && (#[trigger] s[j]).0.hash == t[i].0.hash) by {
            if i == 0 {
                assert(t[0] == s[0]);
                assert(s[0].0.hash == s[0].0.hash);
            } else {
                assert(t[i] == u[i - 1]);
                if u[i - 1].0.hash != k.hash {
                    let j0 = choose|j0: int|
                        0 <= j0 < s.drop_first().len() && (#[trigger] s.drop_first()[j0]).0.hash
                            == u[i - 1].0.hash;
                    assert(s[j0 + 1].0.hash == u[i - 1].0.hash);
                }
            }
        }
    }
}

/// The field table of any decoded struct maps each field-name hash to
/// exactly one value: duplicate field names have collapsed, the later
/// write having won.
pub proof fn lemma_struct_fields_unique(d: Seq<u8>, hs: SpecHashes, pos: int, end: int, depth: int)
    ensures
        crate::wire::sd_fields(d, hs, pos, end, depth) matches Ok(fs) ==> unique_hashes(fs),
{
    if pos + 2 <= end {
        lemma_field_items_unique(
            d,
            hs,
            pos + 2,
            end,
            depth,
            crate::wire::u16_at(d, pos) as int,
            Seq::empty(),
        );
    }
}

proof fn lemma_field_items_unique(
    d: Seq<u8>,
    hs: SpecHashes,
    pos: int,
    end: int,
    depth: int,
    count: int,
    acc: Seq<(SpecFnv, SpecValue)>,
)
    requires
        unique_hashes(acc),
    ensures
        crate::wire::sd_field_items(d, hs, pos, end, depth, count, acc) matches Ok(fs)
            ==> unique_hashes(fs),
    decreases rem(pos, end), count,
{
    if count > 0 && pos + 5 <= end {
        let key = resolve32(hs.fields, u32_at(d, pos));
        let vtag = d[pos + 4];
        if is_known_tag(vtag) {
            match sd_value(d, hs, pos + 5, end, depth, vtag) {
                Ok((v, u)) => {
                    lemma_assoc_set_keeps_unique(acc, key, v);
                    lemma_field_items_unique(
                        d,
                        hs,
                        crate::wire::step(pos + 5, u),
                        end,
                        depth,
                        count - 1,
                        assoc_set(acc, key, v),
                    );
                },
                Err(_) => {},
            }
        }
    }
}

/// The entry table of any decoded document maps each entry-name hash to
/// exactly one struct: colliding entries have collapsed, the later one
/// having won.
pub proof fn lemma_doc_entries_unique(d: Seq<u8>, hs: SpecHashes)
    ensures
        sd_doc(d, hs) matches Ok(m) ==> unique_hashes(m.entries),
{
    if sd_doc(d, hs) is Ok {
        let lr = crate::wire::sd_links(d, 12, d.len() as int, u32_at(d, 8) as int);
        if lr is Ok {
            let after = lr->Ok_0.1;
            let pos = after + 4 + 4 * u32_at(d, after) as int;
            let tnames = Seq::new(
                u32_at(d, after) as nat,
                |i: int|
                    if 0 <= i < u32_at(d, after) {
                        resolve32(hs.types, u32_at(d, after + 4 + 4 * i))
                    } else {
                        SpecFnv { hash: 0, label: Seq::empty() }
                    },
            );
            lemma_entry_items_unique(d, hs, pos, d.len() as int, tnames, 0, Seq::empty());
        }
    }
}

proof fn lemma_entry_items_unique(
    d: Seq<u8>,
    hs: SpecHashes,
    pos: int,
    end: int,
    tnames: Seq<SpecFnv>,
    i: int,
    acc: Seq<(SpecFnv, SpecValue)>,
)
    requires
        unique_hashes(acc),
    ensures
        sd_entry_items(d, hs, pos, end, tnames, i, acc) matches Ok(es) ==> unique_hashes(es),
    decreases tnames.len() - i,
{
    if i < tnames.len() && pos + 4 <= end && pos + 4 + u32_at(d, pos) <= end && pos + 8 <= pos + 4
        + u32_at(d, pos) {
        let len = u32_at(d, pos);
        let ename = resolve32(hs.entries, u32_at(d, pos + 4));
        match crate::wire::sd_fields(d, hs, pos + 8, pos + 4 + len, 1) {
            Ok(fields) => {
                lemma_assoc_set_keeps_unique(acc, ename, SpecValue::Struct(tnames[i], fields));
                lemma_entry_items_unique(
                    d,
                    hs,
                    pos + 4 + len,
                    end,
                    tnames,
                    i + 1,
                    assoc_set(acc, ename, SpecValue::Struct(tnames[i], fields)),
                );
            },
            Err(_) => {},
        }
    }
}

} // verus!
