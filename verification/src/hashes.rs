//! Hashed names and the read-only hash dictionaries.
//!
//! A name carries its numeric hash always, plus an optionally recovered
//! label; an empty label means "not recovered".  Equality of names is
//! defined solely over the numeric hash.  Dictionaries map a hash to a
//! label and are populated once, before any decode call.

use vstd::prelude::*;
use vstd::slice::slice_subrange;
use vstd::slice::slice_to_vec;

use crate::errors::MalformedHashFile;

verus! {

/// True of the bytes of an upper- or lower-case hex digit.
pub open spec fn is_hex_digit(b: u8) -> bool {
    (48 <= b && b <= 57) || (65 <= b && b <= 70) || (97 <= b && b <= 102)
}

/// The numeric value of one hex digit byte (0 for any other byte).
pub open spec fn hex_digit_value(b: u8) -> int {
    if 48 <= b && b <= 57 {
        b - 48
    } else if 65 <= b && b <= 70 {
        b - 55
    } else if 97 <= b && b <= 102 {
        b - 87
    } else {
        0
    }
}

pub open spec fn all_hex_digits(s: Seq<u8>) -> bool {
    forall|i: int| 0 <= i < s.len() ==> is_hex_digit(#[trigger] s[i])
}

/// The number a big-endian string of hex digit bytes denotes.
pub open spec fn hex_number(s: Seq<u8>) -> int
    decreases s.len(),
{
    if s.len() == 0 {
        0
    } else {
        hex_number(s.drop_last()) * 16 + hex_digit_value(s.last())
    }
}

/// The index of the first space in `s` at or after `i`, or -1 when none.
pub open spec fn first_space(s: Seq<u8>, i: int) -> int
    decreases s.len() - i,
{
    if i < 0 || i >= s.len() {
        -1
    } else if s[i] == 32 {
        i
    } else {
        first_space(s, i + 1)
    }
}

pub proof fn lemma_hex_number_nonneg(s: Seq<u8>)
    ensures
        hex_number(s) >= 0,
    decreases s.len(),
{
    if s.len() > 0 {
        lemma_hex_number_nonneg(s.drop_last());
    }
}

/// A hex string's value is no smaller than any of its prefixes' values.
pub proof fn lemma_hex_number_prefix(s: Seq<u8>, i: int)
    requires
        0 <= i <= s.len(),
    ensures
        hex_number(s.take(i)) <= hex_number(s),
    decreases s.len() - i,
{
    if i < s.len() {
        lemma_hex_number_prefix(s, i + 1);
        assert(s.take(i + 1).drop_last() =~= s.take(i));
        lemma_hex_number_nonneg(s.take(i));
    } else {
        assert(s.take(i) =~= s);
    }
}

/// Mathematical model of a 32-bit hashed name: the hash and the recovered
/// label bytes (empty when no label is known).
pub ghost struct SpecFnv {
    pub hash: u32,
    pub label: Seq<u8>,
}

/// Mathematical model of a 64-bit hashed name.
pub ghost struct SpecXxh {
    pub hash: u64,
    pub label: Seq<u8>,
}

/// How a 32-bit table resolves a hash: the label when the hash is present,
/// an empty label otherwise.
pub open spec fn resolve32(m: Map<u32, Seq<u8>>, hash: u32) -> SpecFnv {
    SpecFnv {
        hash,
        label: if m.dom().contains(hash) {
            m[hash]
        } else {
            Seq::empty()
        },
    }
}

/// How the 64-bit table resolves a hash.
pub open spec fn resolve64(m: Map<u64, Seq<u8>>, hash: u64) -> SpecXxh {
    SpecXxh {
        hash,
        label: if m.dom().contains(hash) {
            m[hash]
        } else {
            Seq::empty()
        },
    }
}

/// ASCII lowercasing, as the 32-bit name hash applies it byte by byte.
pub open spec fn ascii_lower(b: u8) -> u8 {
    if 65 <= b && b <= 90 {
        (b + 32) as u8
    } else {
        b
    }
}

/// One round of FNV-1a: fold a lowercased byte into the running hash.
pub open spec fn fnv1a_step(h: u32, b: u8) -> u32 {
    (((h ^ (ascii_lower(b) as u32)) * 0x01000193) % 0x100000000) as u32
}

/// The FNV-1a hash of a byte string, lowercased, as the format computes
/// its 32-bit name hashes.
pub open spec fn fnv1a(s: Seq<u8>) -> u32
    decreases s.len(),
{
    if s.len() == 0 {
        0x811c9dc5u32
    } else {
        fnv1a_step(fnv1a(s.drop_last()), s.last())
    }
}

/// The ASCII byte of one hex digit value, upper case.
pub open spec fn hex_digit(v: int) -> u8 {
    if v < 10 {
        (48 + v) as u8
    } else {
        (55 + v) as u8
    }
}

/// The fixed-width (8 digit) upper-case hex form of a 32-bit hash.
pub open spec fn hex32(h: u32) -> Seq<u8> {
    seq![
        hex_digit((h as int / 0x10000000) % 16),
        hex_digit((h as int / 0x1000000) % 16),
        hex_digit((h as int / 0x100000) % 16),
        hex_digit((h as int / 0x10000) % 16),
        hex_digit((h as int / 0x1000) % 16),
        hex_digit((h as int / 0x100) % 16),
        hex_digit((h as int / 0x10) % 16),
        hex_digit(h as int % 16),
    ]
}

/// The fixed-width (16 digit) upper-case hex form of a 64-bit hash.
pub open spec fn hex64(h: u64) -> Seq<u8> {
    seq![
        hex_digit((h as int / 0x1000000000000000) % 16),
        hex_digit((h as int / 0x100000000000000) % 16),
        hex_digit((h as int / 0x10000000000000) % 16),
        hex_digit((h as int / 0x1000000000000) % 16),
        hex_digit((h as int / 0x100000000000) % 16),
        hex_digit((h as int / 0x10000000000) % 16),
        hex_digit((h as int / 0x1000000000) % 16),
        hex_digit((h as int / 0x100000000) % 16),
        hex_digit((h as int / 0x10000000) % 16),
        hex_digit((h as int / 0x1000000) % 16),
        hex_digit((h as int / 0x100000) % 16),
        hex_digit((h as int / 0x10000) % 16),
        hex_digit((h as int / 0x1000) % 16),
        hex_digit((h as int / 0x100) % 16),
        hex_digit((h as int / 0x10) % 16),
        hex_digit(h as int % 16),
    ]
}

/// The display form of a 32-bit name: the label when one was recovered,
/// otherwise "0x" and the fixed-width hex hash.
pub open spec fn fnv_display(n: SpecFnv) -> Seq<u8> {
    if n.label.len() != 0 {
        n.label
    } else {
        seq![48u8, 120u8] + hex32(n.hash)
    }
}

/// The display form of a 64-bit name.
pub open spec fn xxh_display(n: SpecXxh) -> Seq<u8> {
    if n.label.len() != 0 {
        n.label
    } else {
        seq![48u8, 120u8] + hex64(n.hash)
    }
}

/// The exec side of [`hex_digit`].
fn hex_digit_byte(v: u32) -> (r: u8)
    requires
        v < 16,
    ensures
        r == hex_digit(v as int),
{
    if v < 10 {
        (48 + v) as u8
    } else {
        (55 + v) as u8
    }
}

/// A 32-bit hashed name (FNV-1a over the lowercased ASCII bytes), with an
/// optional recovered label.
#[derive(Clone, Debug)]
pub struct BinFNV {
    hash: u32,
    unhashed: Vec<u8>,
}

impl View for BinFNV {
    type V = SpecFnv;

    closed spec fn view(&self) -> SpecFnv {
        SpecFnv { hash: self.hash, label: self.unhashed@ }
    }
}

impl BinFNV {
    /// A name known only by its hash: the label is left empty.
    pub fn from_hash(hash: u32) -> (r: Self)
        ensures
            r@ == (SpecFnv { hash, label: Seq::<u8>::empty() }),
    {
        BinFNV { hash, unhashed: Vec::new() }
    }

    /// A name whose label was recovered from a dictionary.
    pub fn from_hash_string(hash: u32, string: &Vec<u8>) -> (r: Self)
        ensures
            r@ == (SpecFnv { hash, label: string@ }),
    {
        BinFNV { hash, unhashed: string.clone() }
    }

    pub fn get_hash(&self) -> (r: u32)
        ensures
            r == self@.hash,
    {
        self.hash
    }

    pub fn get_string(&self) -> (r: &Vec<u8>)
        ensures
            r@ == self@.label,
    {
        &self.unhashed
    }

    /// Hashes a name's bytes with lowercased FNV-1a, as the format does;
    /// the label is left empty.
    pub fn from_string(string: &[u8]) -> (r: Self)
        ensures
            r@ == (SpecFnv { hash: fnv1a(string@), label: Seq::<u8>::empty() }),
    {
        let n = string.len();
        let mut h: u32 = 0x811c9dc5;
        let mut i: usize = 0;
        while i < n
            invariant
                i <= n,
                n == string@.len(),
                h == fnv1a(string@.take(i as int)),
            decreases n - i,
        {
            let b = string[i];
            let lb: u8 = if 65 <= b && b <= 90 {
                b + 32
            } else {
                b
            };
            let x: u32 = h ^ (lb as u32);
            let y: u64 = x as u64 * 0x01000193;
            proof {
                assert(string@.take(i as int + 1).drop_last() =~= string@.take(i as int));
            }
            h = (y % 0x100000000) as u32;
            i = i + 1;
        }
        proof {
            assert(string@.take(n as int) =~= string@);
        }
        BinFNV { hash: h, unhashed: Vec::new() }
    }

    /// Appends this name's display form: the recovered label, or "0x" and
    /// the 8-digit hex hash when none is known.
    pub fn format_to(&self, out: &mut Vec<u8>)
        ensures
            final(out)@ == old(out)@ + fnv_display(self@),
    {
        if self.unhashed.len() != 0 {
            let n = self.unhashed.len();
            let mut i: usize = 0;
            while i < n
                invariant
                    i <= n,
                    n == self.unhashed@.len(),
                    out@ == old(out)@ + self.unhashed@.take(i as int),
                decreases n - i,
            {
                proof {
                    assert(out@.push(self.unhashed@[i as int]) =~= old(out)@ + self.unhashed@.take(
                        i as int + 1,
                    ));
                }
                out.push(self.unhashed[i]);
                i = i + 1;
            }
            proof {
                assert(self.unhashed@.take(n as int) =~= self.unhashed@);
            }
        } else {
            let h = self.hash;
            out.push(48);
            out.push(120);
            out.push(hex_digit_byte((h / 0x10000000) % 16));
            out.push(hex_digit_byte((h / 0x1000000) % 16));
            out.push(hex_digit_byte((h / 0x100000) % 16));
            out.push(hex_digit_byte((h / 0x10000) % 16));
            out.push(hex_digit_byte((h / 0x1000) % 16));
            out.push(hex_digit_byte((h / 0x100) % 16));
            out.push(hex_digit_byte((h / 0x10) % 16));
            out.push(hex_digit_byte(h % 16));
            proof {
                assert(out@ =~= old(out)@ + fnv_display(self@));
            }
        }
    }
}

impl PartialEq for BinFNV {
    /// Equality is defined solely over the numeric hash: two names with
    /// the same hash but different label presence compare equal.
    fn eq(&self, other: &Self) -> (r: bool) {
        self.hash == other.hash
    }
}

impl vstd::std_specs::cmp::PartialEqSpecImpl for BinFNV {
    open spec fn obeys_eq_spec() -> bool {
        true
    }

    open spec fn eq_spec(&self, other: &Self) -> bool {
        self@.hash == other@.hash
    }
}

impl PartialOrd for BinFNV {
    /// Ordering, like equality, goes solely by the numeric hash.
    fn partial_cmp(&self, other: &Self) -> (r: Option<core::cmp::Ordering>) {
        if self.hash < other.hash {
            Some(core::cmp::Ordering::Less)
        } else if self.hash == other.hash {
            Some(core::cmp::Ordering::Equal)
        } else {
            Some(core::cmp::Ordering::Greater)
        }
    }
}

impl vstd::std_specs::cmp::PartialOrdSpecImpl for BinFNV {
    open spec fn obeys_partial_cmp_spec() -> bool {
        true
    }

    open spec fn partial_cmp_spec(&self, other: &Self) -> Option<core::cmp::Ordering> {
        if self@.hash < other@.hash {
            Some(core::cmp::Ordering::Less)
        } else if self@.hash == other@.hash {
            Some(core::cmp::Ordering::Equal)
        } else {
            Some(core::cmp::Ordering::Greater)
        }
    }
}

/// A 64-bit hashed name (file-path hash), with an optional recovered label.
#[derive(Clone, Debug)]
pub struct BinXXH {
    hash: u64,
    unhashed: Vec<u8>,
}

impl View for BinXXH {
    type V = SpecXxh;

    closed spec fn view(&self) -> SpecXxh {
        SpecXxh { hash: self.hash, label: self.unhashed@ }
    }
}

impl BinXXH {
    /// A name known only by its hash: the label is left empty.
    pub fn from_hash(hash: u64) -> (r: Self)
        ensures
            r@ == (SpecXxh { hash, label: Seq::<u8>::empty() }),
    {
        BinXXH { hash, unhashed: Vec::new() }
    }

    /// A name whose label was recovered from a dictionary.
    pub fn from_hash_string(hash: u64, string: &Vec<u8>) -> (r: Self)
        ensures
            r@ == (SpecXxh { hash, label: string@ }),
    {
        BinXXH { hash, unhashed: string.clone() }
    }

    pub fn get_hash(&self) -> (r: u64)
        ensures
            r == self@.hash,
    {
        self.hash
    }

    pub fn get_string(&self) -> (r: &Vec<u8>)
        ensures
            r@ == self@.label,
    {
        &self.unhashed
    }

    /// Appends this name's display form: the recovered label, or "0x" and
    /// the 16-digit hex hash when none is known.
    pub fn format_to(&self, out: &mut Vec<u8>)
        ensures
            final(out)@ == old(out)@ + xxh_display(self@),
    {
        if self.unhashed.len() != 0 {
            let n = self.unhashed.len();
            let mut i: usize = 0;
            while i < n
                invariant
                    i <= n,
                    n == self.unhashed@.len(),
                    out@ == old(out)@ + self.unhashed@.take(i as int),
                decreases n - i,
            {
                proof {
                    assert(out@.push(self.unhashed@[i as int]) =~= old(out)@ + self.unhashed@.take(
                        i as int + 1,
                    ));
                }
                out.push(self.unhashed[i]);
                i = i + 1;
            }
            proof {
                assert(self.unhashed@.take(n as int) =~= self.unhashed@);
            }
        } else {
            let h = self.hash;
            out.push(48);
            out.push(120);
            out.push(hex_digit_byte(((h / 0x1000000000000000) % 16) as u32));
            out.push(hex_digit_byte(((h / 0x100000000000000) % 16) as u32));
            out.push(hex_digit_byte(((h / 0x10000000000000) % 16) as u32));
            out.push(hex_digit_byte(((h / 0x1000000000000) % 16) as u32));
            out.push(hex_digit_byte(((h / 0x100000000000) % 16) as u32));
            out.push(hex_digit_byte(((h / 0x10000000000) % 16) as u32));
            out.push(hex_digit_byte(((h / 0x1000000000) % 16) as u32));
            out.push(hex_digit_byte(((h / 0x100000000) % 16) as u32));
            out.push(hex_digit_byte(((h / 0x10000000) % 16) as u32));
            out.push(hex_digit_byte(((h / 0x1000000) % 16) as u32));
            out.push(hex_digit_byte(((h / 0x100000) % 16) as u32));
            out.push(hex_digit_byte(((h / 0x10000) % 16) as u32));
            out.push(hex_digit_byte(((h / 0x1000) % 16) as u32));
            out.push(hex_digit_byte(((h / 0x100) % 16) as u32));
            out.push(hex_digit_byte(((h / 0x10) % 16) as u32));
            out.push(hex_digit_byte((h % 16) as u32));
            proof {
                assert(out@ =~= old(out)@ + xxh_display(self@));
            }
        }
    }
}

impl PartialEq for BinXXH {
    /// Equality is defined solely over the numeric hash.
    fn eq(&self, other: &Self) -> (r: bool) {
        self.hash == other.hash
    }
}

impl vstd::std_specs::cmp::PartialEqSpecImpl for BinXXH {
    open spec fn obeys_eq_spec() -> bool {
        true
    }

    open spec fn eq_spec(&self, other: &Self) -> bool {
        self@.hash == other@.hash
    }
}

impl PartialOrd for BinXXH {
    /// Ordering, like equality, goes solely by the numeric hash.
    fn partial_cmp(&self, other: &Self) -> (r: Option<core::cmp::Ordering>) {
        if self.hash < other.hash {
            Some(core::cmp::Ordering::Less)
        } else if self.hash == other.hash {
            Some(core::cmp::Ordering::Equal)
        } else {
            Some(core::cmp::Ordering::Greater)
        }
    }
}

impl vstd::std_specs::cmp::PartialOrdSpecImpl for BinXXH {
    open spec fn obeys_partial_cmp_spec() -> bool {
        true
    }

    open spec fn partial_cmp_spec(&self, other: &Self) -> Option<core::cmp::Ordering> {
        if self@.hash < other@.hash {
            Some(core::cmp::Ordering::Less)
        } else if self@.hash == other@.hash {
            Some(core::cmp::Ordering::Equal)
        } else {
            Some(core::cmp::Ordering::Greater)
        }
    }
}

/// The map a 32-bit dictionary's pair list denotes: a later pair with the
/// same hash overwrites an earlier one.
pub open spec fn list32_map(s: Seq<(u32, Vec<u8>)>) -> Map<u32, Seq<u8>>
    decreases s.len(),
{
    if s.len() == 0 {
        Map::empty()
    } else {
        list32_map(s.drop_last()).insert(s.last().0, s.last().1@)
    }
}

/// The map a 64-bit dictionary's pair list denotes.
pub open spec fn list64_map(s: Seq<(u64, Vec<u8>)>) -> Map<u64, Seq<u8>>
    decreases s.len(),
{
    if s.len() == 0 {
        Map::empty()
    } else {
        list64_map(s.drop_last()).insert(s.last().0, s.last().1@)
    }
}

proof fn lemma_list32_found(s: Seq<(u32, Vec<u8>)>, i: int, hash: u32)
    requires
        0 <= i < s.len(),
        s[i].0 == hash,
        forall|j: int| i < j < s.len() ==> (#[trigger] s[j]).0 != hash,
    ensures
        list32_map(s).dom().contains(hash),
        list32_map(s)[hash] == s[i].1@,
    decreases s.len(),
{
    if i + 1 < s.len() {
        assert(s.drop_last()[i] == s[i]);
        lemma_list32_found(s.drop_last(), i, hash);
    }
}

proof fn lemma_list32_absent(s: Seq<(u32, Vec<u8>)>, hash: u32)
    requires
        forall|j: int| 0 <= j < s.len() ==> (#[trigger] s[j]).0 != hash,
    ensures
        !list32_map(s).dom().contains(hash),
    decreases s.len(),
{
    if s.len() > 0 {
        lemma_list32_absent(s.drop_last(), hash);
    }
}

proof fn lemma_list64_found(s: Seq<(u64, Vec<u8>)>, i: int, hash: u64)
    requires
        0 <= i < s.len(),
        s[i].0 == hash,
        forall|j: int| i < j < s.len() ==> (#[trigger] s[j]).0 != hash,
    ensures
        list64_map(s).dom().contains(hash),
        list64_map(s)[hash] == s[i].1@,
    decreases s.len(),
{
    if i + 1 < s.len() {
        assert(s.drop_last()[i] == s[i]);
        lemma_list64_found(s.drop_last(), i, hash);
    }
}

proof fn lemma_list64_absent(s: Seq<(u64, Vec<u8>)>, hash: u64)
    requires
        forall|j: int| 0 <= j < s.len() ==> (#[trigger] s[j]).0 != hash,
    ensures
        !list64_map(s).dom().contains(hash),
    decreases s.len(),
{
    if s.len() > 0 {
        lemma_list64_absent(s.drop_last(), hash);
    }
}

/// One read-only dictionary of 32-bit hashes.  Populated once, before any
/// decode call; a decode never mutates it.
pub struct BinHashList {
    list: Vec<(u32, Vec<u8>)>,
}

impl View for BinHashList {
    type V = Map<u32, Seq<u8>>;

    closed spec fn view(&self) -> Map<u32, Seq<u8>> {
        list32_map(self.list@)
    }
}

impl BinHashList {
    /// An empty dictionary.
    pub fn new() -> (r: Self)
        ensures
            r@ == Map::<u32, Seq<u8>>::empty(),
    {
        BinHashList { list: Vec::new() }
    }

    /// Takes one `<hex-hash> <label>` dictionary line apart and records the
    /// pair, a later line with the same hash overwriting an earlier one.
    /// The hash is the big-endian hex number before the first space; it must
    /// be non-empty, all hex digits, and fit in 32 bits.
    pub fn add_line(&mut self, line: &[u8]) -> (r: Result<(), MalformedHashFile>)
        ensures
            ({
                let sp = first_space(line@, 0);
                let hx = line@.take(sp);
                &&& (r matches Err(MalformedHashFile::MissingSeparator) <==> sp < 0)
                &&& (sp >= 0 ==> (r matches Err(MalformedHashFile::NonHexHash) <==> !(hx.len()
                    > 0 && all_hex_digits(hx) && hex_number(hx) <= u32::MAX)))
                &&& (r is Ok ==> sp >= 0 && final(self)@ == old(self)@.insert(
                    hex_number(hx) as u32,
                    line@.skip(sp + 1),
                ))
                &&& (r is Err ==> final(self)@ == old(self)@)
            }),
    {
        let n = line.len();
        let mut sp: usize = 0;
        loop
            invariant_except_break
                0 <= sp <= n,
                n == line@.len(),
                forall|j: int| 0 <= j < sp ==> line@[j] != 32,
                first_space(line@, 0) == first_space(line@, sp as int),
            ensures
                0 <= sp < n,
                n == line@.len(),
                line@[sp as int] == 32,
                first_space(line@, 0) == sp as int,
            decreases n - sp,
        {
            if sp >= n {
                return Err(MalformedHashFile::MissingSeparator);
            }
            if line[sp] == 32 {
                break;
            }
            sp = sp + 1;
        }
        if sp == 0 {
            // empty hex part
            return Err(MalformedHashFile::NonHexHash);
        }
        let ghost hx = line@.take(sp as int);
        let mut acc: u32 = 0;
        let mut i: usize = 0;
        while i < sp
            invariant
                0 <= i <= sp < n,
                n == line@.len(),
                first_space(line@, 0) == sp as int,
                hx == line@.take(sp as int),
                all_hex_digits(hx.take(i as int)),
                acc == hex_number(hx.take(i as int)),
            decreases sp - i,
        {
            let b = line[i];
            let d: u32 = if 48 <= b && b <= 57 {
                (b - 48) as u32
            } else if 65 <= b && b <= 70 {
                (b - 55) as u32
            } else if 97 <= b && b <= 102 {
                (b - 87) as u32
            } else {
                proof {
                    assert(hx[i as int] == line@[i as int]);
                }
                return Err(MalformedHashFile::NonHexHash);
            };
            let t: u64 = acc as u64 * 16 + d as u64;
            proof {
                assert(hx.take(i as int + 1).drop_last() =~= hx.take(i as int));
                assert(hx.take(i as int + 1).last() == line@[i as int]);
            }
            if t > u32::MAX as u64 {
                // the full number can only be larger than this prefix
                proof {
                    lemma_hex_number_prefix(hx, i as int + 1);
                }
                return Err(MalformedHashFile::NonHexHash);
            }
            acc = t as u32;
            i = i + 1;
        }
        proof {
            assert(hx.take(sp as int) =~= hx);
        }
        let label: Vec<u8> = slice_to_vec(slice_subrange(line, sp + 1, n));
        self.list.push((acc, label));
        proof {
            assert(self.list@.drop_last() =~= old(self).list@);
        }
        Ok(())
    }

    /// Resolves a hash: the recorded label when the hash is present, the
    /// empty label otherwise.
    pub fn get(&self, hash: u32) -> (r: BinFNV)
        ensures
            r@ == resolve32(self@, hash),
    {
        let n = self.list.len();
        let mut i: usize = n;
        while i > 0
            invariant
                0 <= i <= n,
                n == self.list@.len(),
                forall|j: int| i <= j < n ==> (#[trigger] self.list@[j]).0 != hash,
            decreases i,
        {
            i = i - 1;
            if self.list[i].0 == hash {
                proof {
                    lemma_list32_found(self.list@, i as int, hash);
                }
                return BinFNV::from_hash_string(hash, &self.list[i].1);
            }
        }
        proof {
            lemma_list32_absent(self.list@, hash);
        }
        BinFNV::from_hash(hash)
    }
}

/// One read-only dictionary of 64-bit file-path hashes.
pub struct BinPathList {
    list: Vec<(u64, Vec<u8>)>,
}

impl View for BinPathList {
    type V = Map<u64, Seq<u8>>;

    closed spec fn view(&self) -> Map<u64, Seq<u8>> {
        list64_map(self.list@)
    }
}

impl BinPathList {
    /// An empty dictionary.
    pub fn new() -> (r: Self)
        ensures
            r@ == Map::<u64, Seq<u8>>::empty(),
    {
        BinPathList { list: Vec::new() }
    }

    /// As [`BinHashList::add_line`], for a 64-bit table.
    pub fn add_line(&mut self, line: &[u8]) -> (r: Result<(), MalformedHashFile>)
        ensures
            ({
                let sp = first_space(line@, 0);
                let hx = line@.take(sp);
                &&& (r matches Err(MalformedHashFile::MissingSeparator) <==> sp < 0)
                &&& (sp >= 0 ==> (r matches Err(MalformedHashFile::NonHexHash) <==> !(hx.len()
                    > 0 && all_hex_digits(hx) && hex_number(hx) <= u64::MAX)))
                &&& (r is Ok ==> sp >= 0 && final(self)@ == old(self)@.insert(
                    hex_number(hx) as u64,
                    line@.skip(sp + 1),
                ))
                &&& (r is Err ==> final(self)@ == old(self)@)
            }),
    {
        let n = line.len();
        let mut sp: usize = 0;
        loop
            invariant_except_break
                0 <= sp <= n,
                n == line@.len(),
                forall|j: int| 0 <= j < sp ==> line@[j] != 32,
                first_space(line@, 0) == first_space(line@, sp as int),
            ensures
                0 <= sp < n,
                n == line@.len(),
                line@[sp as int] == 32,
                first_space(line@, 0) == sp as int,
            decreases n - sp,
        {
            if sp >= n {
                return Err(MalformedHashFile::MissingSeparator);
            }
            if line[sp] == 32 {
                break;
            }
            sp = sp + 1;
        }
        if sp == 0 {
            return Err(MalformedHashFile::NonHexHash);
        }
        let ghost hx = line@.take(sp as int);
        let mut acc: u64 = 0;
        let mut i: usize = 0;
        while i < sp
            invariant
                0 <= i <= sp < n,
                n == line@.len(),
                first_space(line@, 0) == sp as int,
                hx == line@.take(sp as int),
                all_hex_digits(hx.take(i as int)),
                acc == hex_number(hx.take(i as int)),
            decreases sp - i,
        {
            let b = line[i];
            let d: u64 = if 48 <= b && b <= 57 {
                (b - 48) as u64
            } else if 65 <= b && b <= 70 {
                (b - 55) as u64
            } else if 97 <= b && b <= 102 {
                (b - 87) as u64
            } else {
                proof {
                    assert(hx[i as int] == line@[i as int]);
                }
                return Err(MalformedHashFile::NonHexHash);
            };
            let t: u128 = acc as u128 * 16 + d as u128;
            proof {
                assert(hx.take(i as int + 1).drop_last() =~= hx.take(i as int));
                assert(hx.take(i as int + 1).last() == line@[i as int]);
            }
            if t > u64::MAX as u128 {
                proof {
                    lemma_hex_number_prefix(hx, i as int + 1);
                }
                return Err(MalformedHashFile::NonHexHash);
            }
            acc = t as u64;
            i = i + 1;
        }
        proof {
            assert(hx.take(sp as int) =~= hx);
        }
        let label: Vec<u8> = slice_to_vec(slice_subrange(line, sp + 1, n));
        self.list.push((acc, label));
        proof {
            assert(self.list@.drop_last() =~= old(self).list@);
        }
        Ok(())
    }

    /// Resolves a hash, as [`BinHashList::get`].
    pub fn get(&self, hash: u64) -> (r: BinXXH)
        ensures
            r@ == resolve64(self@, hash),
    {
        let n = self.list.len();
        let mut i: usize = n;
        while i > 0
            invariant
                0 <= i <= n,
                n == self.list@.len(),
                forall|j: int| i <= j < n ==> (#[trigger] self.list@[j]).0 != hash,
            decreases i,
        {
            i = i - 1;
            if self.list[i].0 == hash {
                proof {
                    lemma_list64_found(self.list@, i as int, hash);
                }
                return BinXXH::from_hash_string(hash, &self.list[i].1);
            }
        }
        proof {
            lemma_list64_absent(self.list@, hash);
        }
        BinXXH::from_hash(hash)
    }
}

/// Mathematical model of the five dictionaries.
pub ghost struct SpecHashes {
    pub entries: Map<u32, Seq<u8>>,
    pub fields: Map<u32, Seq<u8>>,
    pub hashes: Map<u32, Seq<u8>>,
    pub types: Map<u32, Seq<u8>>,
    pub paths: Map<u64, Seq<u8>>,
}

/// The five hash dictionaries, kept logically separate by role.  Four map a
/// 32-bit hash (entry names, field names, generic hash values, type names),
/// one maps the distinct 64-bit file-path hash.  The decoder routes each
/// numeric hash to its table by context.
pub struct BinHashes {
    pub entries: BinHashList,
    pub fields: BinHashList,
    pub hashes: BinHashList,
    pub types: BinHashList,
    pub paths: BinPathList,
}

impl View for BinHashes {
    type V = SpecHashes;

    open spec fn view(&self) -> SpecHashes {
        SpecHashes {
            entries: self.entries@,
            fields: self.fields@,
            hashes: self.hashes@,
            types: self.types@,
            paths: self.paths@,
        }
    }
}

impl BinHashes {
    /// Five empty dictionaries.
    pub fn new() -> (r: BinHashes)
        ensures
            r@.entries == Map::<u32, Seq<u8>>::empty(),
            r@.fields == Map::<u32, Seq<u8>>::empty(),
            r@.hashes == Map::<u32, Seq<u8>>::empty(),
            r@.types == Map::<u32, Seq<u8>>::empty(),
            r@.paths == Map::<u64, Seq<u8>>::empty(),
    {
        BinHashes {
            entries: BinHashList::new(),
            fields: BinHashList::new(),
            hashes: BinHashList::new(),
            types: BinHashList::new(),
            paths: BinPathList::new(),
        }
    }
}

} // verus!
