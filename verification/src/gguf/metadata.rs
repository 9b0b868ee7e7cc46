//! What a metadata value can be taken for, and the table of all of them.

use crate::gguf::bytes::{le16, le32, le64};
use crate::gguf::types::{value_type_of_raw, GgufMetadataValueType};
use crate::gguf::value::{holds_value, lemma_le_bounds, GgufValue};
use crate::text::same_text;
use vstd::arithmetic::power2::*;
use vstd::prelude::*;

verus! {

/// The number that a value gives where a 64-bit count is wanted: any unsigned
/// integer, or a 32- or 64-bit signed one that is not negative.
pub open spec fn value_as_u64(v: GgufValue) -> Option<u64> {
    match v {
        GgufValue::Uint8(n) => Some(n as u64),
        GgufValue::Uint16(n) => Some(n as u64),
        GgufValue::Uint32(n) => Some(n as u64),
        GgufValue::Uint64(n) => Some(n),
        GgufValue::Int32(n) => if n >= 0 {
            Some(n as u64)
        } else {
            None
        },
        GgufValue::Int64(n) => if n >= 0 {
            Some(n as u64)
        } else {
            None
        },
        _ => None,
    }
}

/// How many whole `unit`s `x` comes to, rounded to the nearest number and to
/// the even one of two that are equally near.
pub open spec fn round_half_even(x: int, unit: int) -> int {
    let q = x / unit;
    let r = x % unit;
    if 2 * r < unit || (2 * r == unit && q % 2 == 0) {
        q
    } else {
        q + 1
    }
}

/// The magnitude bits of the single-precision number nearest to a
/// double-precision one with exponent field `e` and fraction `m`.
pub open spec fn narrowed_magnitude(e: int, m: int) -> int {
    if e == 2047 {
        if m == 0 {
            0x7f80_0000
        } else {
            0x7fc0_0000 + m / 0x2000_0000 % 0x40_0000
        }
    } else if e <= 872 {
        0
    } else if e <= 896 {
        round_half_even(0x10_0000_0000_0000 + m, pow2((926 - e) as nat) as int)
    } else {
        let near = (e - 897) * 0x80_0000 + round_half_even(
            0x10_0000_0000_0000 + m,
            0x2000_0000,
        );
        if near < 0x7f80_0000 {
            near
        } else {
            0x7f80_0000
        }
    }
}

/// The bits of the single-precision number nearest to a double-precision one;
/// a NaN stays a (quiet) NaN.
pub open spec fn narrowed(bits: u64) -> int {
    let sign: int = if bits >= 0x8000_0000_0000_0000 {
        0x8000_0000
    } else {
        0
    };
    sign + narrowed_magnitude(
        bits as int / 0x10_0000_0000_0000 % 2048,
        bits as int % 0x10_0000_0000_0000,
    )
}

/// The single-precision bits that a value gives where a real number is wanted.
pub open spec fn value_as_f32(v: GgufValue) -> Option<u32> {
    match v {
        GgufValue::Float32(bits) => Some(bits),
        GgufValue::Float64(bits) => Some(narrowed(bits) as u32),
        _ => None,
    }
}

/// Two to the power of `k`.
fn two_to(k: u64) -> (r: u64)
    requires
        k <= 62,
    ensures
        r == pow2(k as nat),
{
    let mut r: u64 = 1;
    let mut i: u64 = 0;
    proof {
        lemma2_to64();
    }
    while i < k
        invariant
            i <= k,
            k <= 62,
            r == pow2(i as nat),
        decreases k - i,
    {
        proof {
            lemma_pow2_strictly_increases((i + 1) as nat, 63);
            lemma_pow2_unfold((i + 1) as nat);
            lemma2_to64_rest();
        }
        r = r * 2;
        i = i + 1;
    }
    r
}

/// Divides and rounds half to even.
fn nearest(x: u64, unit: u64) -> (r: u64)
    requires
        0 < unit <= 0x40_0000_0000_0000,
        x <= 0x20_0000_0000_0000,
    ensures
        r == round_half_even(x as int, unit as int),
{
    let q: u64 = x / unit;
    let rest: u64 = x % unit;
    if 2 * rest < unit || (2 * rest == unit && q % 2 == 0) {
        q
    } else {
        proof {
            assert(x / unit <= x) by (nonlinear_arith)
                requires
                    unit > 0,
            ;
        }
        q + 1
    }
}

/// The single-precision bits nearest to double-precision bits.
pub fn narrow(bits: u64) -> (r: u32)
    ensures
        r == narrowed(bits),
{
    let sign: u64 = if bits >= 0x8000_0000_0000_0000 {
        0x8000_0000
    } else {
        0
    };
    let e: u64 = bits / 0x10_0000_0000_0000 % 2048;
    let m: u64 = bits % 0x10_0000_0000_0000;
    let magnitude: u64 = if e == 2047 {
        if m == 0 {
            0x7f80_0000
        } else {
            0x7fc0_0000 + m / 0x2000_0000 % 0x40_0000
        }
    } else if e <= 872 {
        0
    } else if e <= 896 {
        let k: u64 = 926 - e;
        let unit = two_to(k);
        let x: u64 = 0x10_0000_0000_0000 + m;
        proof {
            lemma2_to64();
            lemma2_to64_rest();
            if k < 53 {
                lemma_pow2_strictly_increases(k as nat, 53);
            }
            if k > 30 {
                lemma_pow2_strictly_increases(30, k as nat);
            }
            assert(x as int / unit as int <= 0x80_0000) by (nonlinear_arith)
                requires
                    unit >= 0x4000_0000,
                    0 <= x < 0x20_0000_0000_0000,
            ;
        }
        nearest(x, unit)
    } else {
        let near: u64 = (e - 897) * 0x80_0000 + nearest(0x10_0000_0000_0000 + m, 0x2000_0000);
        if near < 0x7f80_0000 {
            near
        } else {
            0x7f80_0000
        }
    };
    (sign + magnitude) as u32
}

impl GgufValue {
    /// A count, where the value is an integer that is not negative.
    pub fn as_u64(&self) -> (r: Option<u64>)
        ensures
            r == value_as_u64(*self),
    {
        match self {
            GgufValue::Uint8(v) => Some(*v as u64),
            GgufValue::Uint16(v) => Some(*v as u64),
            GgufValue::Uint32(v) => Some(*v as u64),
            GgufValue::Uint64(v) => Some(*v),
            GgufValue::Int32(v) => if *v >= 0 {
                Some(*v as u64)
            } else {
                None
            },
            GgufValue::Int64(v) => if *v >= 0 {
                Some(*v as u64)
            } else {
                None
            },
            _ => None,
        }
    }

    /// The text of a string value.
    pub fn as_str(&self) -> (r: Option<&str>)
        ensures
            match *self {
                GgufValue::Str(s) => r matches Some(t) && t@ == s@,
                _ => r is None,
            },
    {
        match self {
            GgufValue::Str(s) => Some(s.as_str()),
            _ => None,
        }
    }

    /// The single-precision bits of a floating-point value.
    pub fn as_f32(&self) -> (r: Option<u32>)
        ensures
            r == value_as_f32(*self),
    {
        match self {
            GgufValue::Float32(bits) => Some(*bits),
            GgufValue::Float64(bits) => Some(narrow(*bits)),
            _ => None,
        }
    }

    /// The texts of an array that holds strings alone.
    pub fn as_string_array(&self) -> (r: Option<Vec<&str>>)
        ensures
            match *self {
                GgufValue::Array(items) => match r {
                    Some(texts) => texts@.len() == items@.len() && forall|i: int|
                        0 <= i < items@.len() ==> (#[trigger] items@[i] matches GgufValue::Str(s)
                            && texts@[i]@ == s@),
                    None => exists|i: int|
                        0 <= i < items@.len() && !(#[trigger] items@[i] is Str),
                },
                _ => r is None,
            },
    {
        match self {
            GgufValue::Array(items) => {
                let mut texts: Vec<&str> = Vec::new();
                let mut i: usize = 0;
                while i < items.len()
                    invariant
                        i <= items.len(),
                        texts@.len() == i,
                        *self == GgufValue::Array(*items),
                        forall|k: int|
                            0 <= k < i ==> (#[trigger] items@[k] matches GgufValue::Str(s)
                                && texts@[k]@ == s@),
                    decreases items.len() - i,
                {
                    match items[i].as_str() {
                        Some(t) => {
                            texts.push(t);
                        },
                        None => {
                            proof {
                                assert(!(items@[i as int] is Str));
                            }
                            return None;
                        },
                    }
                    i = i + 1;
                }
                Some(texts)
            },
            _ => None,
        }
    }
}

/// The table of metadata values, one for each key.
#[derive(Debug)]
pub struct Metadata {
    entries: Vec<(String, GgufValue)>,
}

impl Metadata {
    /// No key occurs twice.
    pub closed spec fn wf(&self) -> bool {
        forall|i: int, j: int|
            0 <= i < j < self.entries@.len() ==> #[trigger] self.entries@[i].0@
                != #[trigger] self.entries@[j].0@
    }

    /// Where a key stands.
    spec fn place(&self, key: Seq<char>) -> int {
        choose|i: int| 0 <= i < self.entries@.len() && #[trigger] self.entries@[i].0@ == key
    }

    /// Whether a key stands in the table.
    spec fn holds(&self, key: Seq<char>) -> bool {
        exists|i: int| 0 <= i < self.entries@.len() && #[trigger] self.entries@[i].0@ == key
    }

    /// How many keys there are.
    pub closed spec fn size(&self) -> nat {
        self.entries@.len()
    }

    /// An empty table.
    pub fn new() -> (m: Self)
        ensures
            m.wf(),
            m@ == Map::<Seq<char>, GgufValue>::empty(),
            m.size() == 0,
    {
        let m = Metadata { entries: Vec::new() };
        proof {
            assert(m@ =~= Map::<Seq<char>, GgufValue>::empty());
        }
        m
    }

    /// How many keys the table has.
    pub fn len(&self) -> (n: usize)
        ensures
            n == self.size(),
    {
        self.entries.len()
    }

    /// Whether the table has no key.
    pub fn is_empty(&self) -> (b: bool)
        ensures
            b == (self.size() == 0),
    {
        self.entries.len() == 0
    }

    /// The key in one place of the table.
    pub closed spec fn key_at(&self, i: int) -> Seq<char> {
        self.entries@[i].0@
    }

    /// The keys of the table are those in its places.
    pub proof fn keys_stand_in_places(&self, key: Seq<char>)
        ensures
            self@.contains_key(key) <==> exists|i: int|
                0 <= i < self.size() && #[trigger] self.key_at(i) == key,
    {
        if self@.contains_key(key) {
            let i = self.place(key);
            assert(self.key_at(i) == key);
        }
        if exists|i: int| 0 <= i < self.size() && #[trigger] self.key_at(i) == key {
            let i = choose|i: int| 0 <= i < self.size() && #[trigger] self.key_at(i) == key;
            assert(self.entries@[i].0@ == key);
        }
    }

    /// Different places hold different keys.
    pub proof fn places_hold_different_keys(&self, i: int, j: int)
        requires
            self.wf(),
            0 <= i < j < self.size(),
        ensures
            self.key_at(i) != self.key_at(j),
    {
        assert(self.entries@[i].0@ != self.entries@[j].0@);
    }

    /// The key and the value in one place of the table.
    pub fn entry(&self, i: usize) -> (r: (&str, &GgufValue))
        requires
            self.wf(),
            i < self.size(),
        ensures
            r.0@ == self.key_at(i as int),
            self@.contains_key(r.0@),
            self@[r.0@] == *r.1,
    {
        let pair = &self.entries[i];
        proof {
            assert(self.entries@[i as int].0@ == pair.0@);
            assert(self.holds(pair.0@));
            assert(self.place(pair.0@) == i);
        }
        (pair.0.as_str(), &pair.1)
    }

    /// Where a key stands, if it does.
    fn find(&self, key: &str) -> (r: Option<usize>)
        requires
            self.wf(),
        ensures
            match r {
                Some(i) => i < self.entries@.len() && self.entries@[i as int].0@ == key@
                    && self.holds(key@) && self.place(key@) == i,
                None => !self.holds(key@),
            },
    {
        let mut i: usize = 0;
        while i < self.entries.len()
            invariant
                i <= self.entries.len(),
                self.wf(),
                forall|j: int| 0 <= j < i ==> #[trigger] self.entries@[j].0@ != key@,
            decreases self.entries.len() - i,
        {
            if same_text(self.entries[i].0.as_str(), key) {
                proof {
                    assert(self.entries@[i as int].0@ == key@);
                    let p = self.place(key@);
                    assert(self.entries@[p].0@ == key@);
                }
                return Some(i);
            }
            i = i + 1;
        }
        None
    }

    /// The value of a key.
    pub fn get(&self, key: &str) -> (r: Option<&GgufValue>)
        requires
            self.wf(),
        ensures
            match r {
                Some(v) => self@.contains_key(key@) && *v == self@[key@],
                None => !self@.contains_key(key@),
            },
    {
        match self.find(key) {
            Some(i) => Some(&self.entries[i].1),
            None => None,
        }
    }

    /// Gives a key a value, in place of the one it had.
    pub fn insert(&mut self, key: String, value: GgufValue)
        requires
            old(self).wf(),
        ensures
            final(self).wf(),
            final(self)@ == old(self)@.insert(key@, value),
            final(self).size() == if old(self)@.contains_key(key@) {
                old(self).size()
            } else {
                old(self).size() + 1
            },
    {
        let ghost before = *self;
        match self.find(key.as_str()) {
            Some(i) => {
                let ghost k = key@;
                self.entries[i] = (key, value);
                proof {
                    assert forall|a: int, b: int|
                        0 <= a < b < self.entries@.len() implies #[trigger] self.entries@[a].0@
                        != #[trigger] self.entries@[b].0@ by {
                        assert(before.entries@[a].0@ != before.entries@[b].0@);
                    }
                    assert forall|x: Seq<char>| #[trigger] self.holds(x) == before.holds(x) by {
                        if self.holds(x) {
                            let p = self.place(x);
                            assert(before.entries@[p].0@ == x);
                        }
                        if before.holds(x) {
                            let p = before.place(x);
                            assert(self.entries@[p].0@ == x);
                        }
                    }
                    assert forall|x: Seq<char>| #[trigger] self.holds(x) implies self.place(x)
                        == before.place(x) by {
                        let p = self.place(x);
                        let q = before.place(x);
                        assert(before.holds(x));
                        assert(before.entries@[q].0@ == x);
                        assert(self.entries@[q].0@ == x);
                        assert(self.entries@[p].0@ == x);
                    }
                    assert(self.holds(k));
                    assert(self@ =~= before@.insert(k, value));
                }
            },
            None => {
                let ghost k = key@;
                self.entries.push((key, value));
                proof {
                    let last = before.entries@.len() as int;
                    assert(self.entries@[last].0@ == k);
                    assert forall|a: int, b: int|
                        0 <= a < b < self.entries@.len() implies #[trigger] self.entries@[a].0@
                        != #[trigger] self.entries@[b].0@ by {
                        assert(self.entries@[a] == before.entries@[a]);
                        if b < last {
                            assert(self.entries@[b] == before.entries@[b]);
                        } else {
                            assert(before.entries@[a].0@ != k);
                        }
                    }
                    assert forall|x: Seq<char>| #[trigger]
                        self.holds(x) == (before.holds(x) || x == k) by {
                        if self.holds(x) {
                            let p = self.place(x);
                            if p < last {
                                assert(before.entries@[p].0@ == x);
                            }
                        }
                        if before.holds(x) {
                            let p = before.place(x);
                            assert(self.entries@[p].0@ == x);
                        }
                    }
                    assert forall|x: Seq<char>| #[trigger] before.holds(x) implies self.place(x)
                        == before.place(x) by {
                        let q = before.place(x);
                        assert(self.entries@[q].0@ == x);
                        let p = self.place(x);
                        assert(self.entries@[p].0@ == x);
                    }
                    assert(self.place(k) == last);
                    assert(self@ =~= before@.insert(k, value));
                }
            },
        }
    }
}

impl View for Metadata {
    type V = Map<Seq<char>, GgufValue>;

    closed spec fn view(&self) -> Map<Seq<char>, GgufValue> {
        Map::new(|key: Seq<char>| self.holds(key), |key: Seq<char>| self.entries@[self.place(key)].1)
    }
}

/// The count that the value at a position gives, read from the bytes.
pub open spec fn u64_at(data: Seq<u8>, pos: int) -> Option<u64> {
    let b = data.skip(pos + 4);
    match value_type_of_raw(le32(data.skip(pos)) as u32) {
        GgufMetadataValueType::Uint8 => Some(b[0] as u64),
        GgufMetadataValueType::Uint16 => Some(le16(b) as u64),
        GgufMetadataValueType::Uint32 => Some(le32(b) as u64),
        GgufMetadataValueType::Uint64 => Some(le64(b) as u64),
        GgufMetadataValueType::Int32 => if le32(b) < 0x8000_0000 {
            Some(le32(b) as u64)
        } else {
            None
        },
        GgufMetadataValueType::Int64 => if le64(b) < 0x8000_0000_0000_0000 {
            Some(le64(b) as u64)
        } else {
            None
        },
        _ => None,
    }
}

/// A value and the bytes it stands for give the same count.
pub proof fn count_of_value_is_count_of_bytes(v: GgufValue, data: Seq<u8>, pos: int)
    requires
        holds_value(v, data, pos),
    ensures
        value_as_u64(v) == u64_at(data, pos),
{
    lemma_le_bounds(data.skip(pos + 4));
}

} // verus!
