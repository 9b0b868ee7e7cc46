//! Number formats, embedding rows, rotary pairs and the shapes of attention.
//! Single-precision numbers are held by their bit patterns.

use crate::error::{Fault, WillametteError};
use crate::gguf::bytes::{le16, le32};
use crate::gguf::tensor::{finite_bits, product, products_fit, TensorView};
use crate::gguf::types::{ggml_name, raw_of_type, GgmlType};
use crate::text::{
    bracket, bracketed, cat3, cat4, cat5, cat6, cat7, dec, decimal, owned, quote, quoted,
};
use vstd::arithmetic::power2::*;
use vstd::prelude::*;

verus! {

/// A half-precision pattern stands for a finite number.
pub open spec fn finite_half(bits: u16) -> bool {
    bits / 0x400 % 0x20 != 0x1f
}

/// The single-precision bits of `x / 1024 * 2^(e - 127)`, once doubling `x` has
/// brought it to 1024 or more.
pub open spec fn normalised(x: int, e: int) -> int
    decreases 0x800 - x,
{
    if x <= 0 || x >= 0x400 {
        e * 0x80_0000 + (x - 0x400) * 0x2000
    } else {
        normalised(2 * x, e - 1)
    }
}

/// The single-precision bits of a half-precision pattern. Every half-precision
/// number is a single-precision number too, so nothing is rounded.
pub open spec fn widened(bits: u16) -> int {
    let sign: int = if bits >= 0x8000 {
        0x8000_0000
    } else {
        0
    };
    let exponent = bits as int / 0x400 % 0x20;
    let fraction = bits as int % 0x400;
    sign + if exponent == 0 {
        if fraction == 0 {
            0
        } else {
            normalised(fraction, 113)
        }
    } else if exponent == 0x1f {
        0x7f80_0000 + fraction * 0x2000
    } else {
        (exponent + 112) * 0x80_0000 + fraction * 0x2000
    }
}

/// The exponent field after normalising is at most the one before and at least
/// ten less.
proof fn lemma_normalised_any(x: int, e: int)
    requires
        0 < x < 0x800,
        e >= 11,
        e <= 200,
    ensures
        0 < normalised(x, e) < 201 * 0x80_0000,
{
    reveal_with_fuel(normalised, 12);
}

/// Widening keeps finite numbers finite, and infinities and NaNs as they are.
pub proof fn widening_keeps_finiteness(bits: u16)
    ensures
        0 <= widened(bits) <= u32::MAX,
        finite_bits(widened(bits) as u32) == finite_half(bits),
{
    let fraction = bits as int % 0x400;
    if bits as int / 0x400 % 0x20 == 0 && fraction != 0 {
        lemma_normalised_any(fraction, 113);
    }
}

/// Widening keeps the sign.
pub proof fn widening_keeps_the_sign(bits: u16)
    ensures
        (widened(bits) >= 0x8000_0000) == (bits >= 0x8000),
{
    widening_keeps_finiteness(bits);
    let fraction = bits as int % 0x400;
    if bits as int / 0x400 % 0x20 == 0 && fraction != 0 {
        lemma_normalised_any(fraction, 113);
    }
}

/// The single-precision bits of a half-precision pattern.
pub fn f16_to_f32(bits: u16) -> (r: u32)
    ensures
        r == widened(bits),
{
    let sign: u32 = if bits >= 0x8000 {
        0x8000_0000
    } else {
        0
    };
    let exponent: u32 = (bits / 0x400 % 0x20) as u32;
    let fraction: u32 = (bits % 0x400) as u32;
    if exponent == 0 {
        if fraction == 0 {
            return sign;
        }
        let mut x: u32 = fraction;
        let mut e: u32 = 113;
        proof {
            lemma2_to64();
        }
        while x < 0x400
            invariant
                0 < x < 0x800,
                103 <= e <= 113,
                pow2((113 - e) as nat) <= x,
                normalised(x as int, e as int) == normalised(fraction as int, 113),
            decreases 0x800 - x,
        {
            proof {
                lemma2_to64();
                if e == 103 {
                    assert(pow2(10) <= x);
                }
                lemma_pow2_unfold((113 - e + 1) as nat);
            }
            x = x * 2;
            e = e - 1;
        }
        return sign + e * 0x80_0000 + (x - 0x400) * 0x2000;
    }
    if exponent == 0x1f {
        return sign + 0x7f80_0000 + fraction * 0x2000;
    }
    sign + (exponent + 112) * 0x80_0000 + fraction * 0x2000
}

/// What keeps a tensor from being read as single-precision numbers.
pub open spec fn f32_tensor_fault(t: TensorView<'_>) -> Option<Fault> {
    if t.ggml_type != GgmlType::F32 {
        Some(
            Fault::GgufParse(
                "f32_tensor_to_vec: tensor "@ + quoted(t.name@) + " is "@ + ggml_name(
                    t.ggml_type,
                ) + " (raw "@ + dec(raw_of_type(t.ggml_type) as int) + "), not F32"@,
            ),
        )
    } else if t.data@.len() != product(t.shape@) * 4 {
        Some(
            Fault::GgufParse(
                "f32_tensor_to_vec: data.len()="@ + dec(t.data@.len() as int)
                    + " != n_elements*4="@ + dec(product(t.shape@) * 4),
            ),
        )
    } else {
        None
    }
}

/// The bits of the numbers in a single-precision tensor.
pub open spec fn f32_values(data: Seq<u8>) -> Seq<u32> {
    Seq::new((data.len() / 4) as nat, |i: int| le32(data.skip(4 * i)) as u32)
}

/// The bits of the numbers in a single-precision tensor.
pub fn f32_tensor_to_vec(t: &TensorView<'_>) -> (r: Result<Vec<u32>, WillametteError>)
    requires
        t.ggml_type == GgmlType::F32 ==> products_fit(t.shape@) && product(t.shape@) * 4
            <= u64::MAX,
    ensures
        match r {
            Ok(values) => f32_tensor_fault(*t) is None && values@ == f32_values(t.data@),
            Err(e) => f32_tensor_fault(*t) == Some(e@),
        },
{
    if t.ggml_type != GgmlType::F32 {
        let name = quote(t.name.as_str());
        let dtype = t.ggml_type.name();
        let raw = decimal(t.ggml_type.to_raw() as u64);
        return Err(
            WillametteError::GgufParse(
                cat7(
                    "f32_tensor_to_vec: tensor ",
                    name.as_str(),
                    " is ",
                    dtype.as_str(),
                    " (raw ",
                    raw.as_str(),
                    "), not F32",
                ),
            ),
        );
    }
    let count: u64 = t.n_elements();
    if t.data.len() as u64 != count * 4 {
        let found = decimal(t.data.len() as u64);
        let wanted = decimal(count * 4);
        return Err(
            WillametteError::GgufParse(
                cat4(
                    "f32_tensor_to_vec: data.len()=",
                    found.as_str(),
                    " != n_elements*4=",
                    wanted.as_str(),
                ),
            ),
        );
    }
    let n: usize = count as usize;
    let mut out: Vec<u32> = Vec::new();
    let mut i: usize = 0;
    while i < n
        invariant
            i <= n,
            t.data@.len() == n * 4,
            n * 4 <= usize::MAX,
            out@ =~= f32_values(t.data@).take(i as int),
        decreases n - i,
    {
        let b0 = t.data[4 * i] as u32;
        let b1 = t.data[4 * i + 1] as u32;
        let b2 = t.data[4 * i + 2] as u32;
        let b3 = t.data[4 * i + 3] as u32;
        out.push(b0 + 0x100 * b1 + 0x1_0000 * b2 + 0x100_0000 * b3);
        proof {
            let s = t.data@.skip(4 * i);
            assert(s[0] == b0 && s[1] == b1 && s[2] == b2 && s[3] == b3);
        }
        i = i + 1;
    }
    Ok(out)
}

/// What keeps a row from being gathered out of a half-precision table.
pub open spec fn gather_fault(t: TensorView<'_>, token_id: int, out_len: int) -> Option<Fault> {
    if t.ggml_type != GgmlType::F16 {
        Some(
            Fault::GgufParse(
                "embedding_gather_f16: tensor "@ + quoted(t.name@) + " is "@ + ggml_name(
                    t.ggml_type,
                ) + " (raw "@ + dec(raw_of_type(t.ggml_type) as int) + "), expected F16"@,
            ),
        )
    } else if t.shape@.len() != 2 {
        Some(
            Fault::GgufParse(
                "embedding_gather_f16: tensor "@ + quoted(t.name@) + " is not 2-D (shape="@
                    + bracketed(t.shape@) + ")"@,
            ),
        )
    } else if out_len != t.shape@[0] {
        Some(
            Fault::GgufParse(
                "embedding_gather_f16: out.len()="@ + dec(out_len) + " != n_embd="@ + dec(
                    t.shape@[0] as int,
                ),
            ),
        )
    } else if token_id >= t.shape@[1] {
        Some(
            Fault::GgufParse(
                "embedding_gather_f16: token_id "@ + dec(token_id)
                    + " out of range (vocab_size="@ + dec(t.shape@[1] as int) + ")"@,
            ),
        )
    } else if (token_id + 1) * (2 * out_len) > t.data@.len() {
        Some(
            Fault::GgufParse(
                "embedding_gather_f16: row bytes ["@ + dec(token_id * (2 * out_len)) + ".."@ + dec(
                    token_id * (2 * out_len) + 2 * out_len,
                ) + ") exceed tensor data len "@ + dec(t.data@.len() as int),
            ),
        )
    } else {
        None
    }
}

/// The bits of number `i` in a row of a half-precision table.
pub open spec fn embedding_bits(data: Seq<u8>, width: int, row: int, i: int) -> int {
    widened(le16(data.skip(row * (2 * width) + 2 * i)) as u16)
}

/// Gathers one row of a half-precision embedding table: the single-precision
/// bits of each of its values.
pub fn embedding_gather_f16(token_embd: &TensorView<'_>, token_id: u32, out: &mut Vec<u32>) -> (r:
    Result<(), WillametteError>)
    requires
        token_embd.ggml_type == GgmlType::F16 && token_embd.shape@.len() == 2
            && old(out)@.len() == token_embd.shape@[0] && token_id < token_embd.shape@[1] ==> (
        token_id + 1) * (2 * old(out)@.len()) <= usize::MAX,
    ensures
        match r {
            Ok(_) => {
                &&& gather_fault(*token_embd, token_id as int, old(out)@.len() as int) is None
                &&& final(out)@.len() == old(out)@.len()
                &&& forall|i: int|
                    0 <= i < final(out)@.len() ==> #[trigger] final(out)@[i] == widened(
                        le16(
                            token_embd.data@.skip(token_id * (2 * old(out)@.len()) + 2 * i),
                        ) as u16,
                    )
                &&& forall|i: int|
                    0 <= i < final(out)@.len() ==> #[trigger] final(out)@[i] == embedding_bits(
                        token_embd.data@,
                        old(out)@.len() as int,
                        token_id as int,
                        i,
                    )
            },
            Err(e) => {
                &&& gather_fault(*token_embd, token_id as int, old(out)@.len() as int) == Some(e@)
                &&& final(out)@ == old(out)@
            },
        },
{
    if token_embd.ggml_type != GgmlType::F16 {
        let name = quote(token_embd.name.as_str());
        let dtype = token_embd.ggml_type.name();
        let raw = decimal(token_embd.ggml_type.to_raw() as u64);
        return Err(
            WillametteError::GgufParse(
                cat7(
                    "embedding_gather_f16: tensor ",
                    name.as_str(),
                    " is ",
                    dtype.as_str(),
                    " (raw ",
                    raw.as_str(),
                    "), expected F16",
                ),
            ),
        );
    }
    if token_embd.shape.len() != 2 {
        let name = quote(token_embd.name.as_str());
        let shape = bracket(token_embd.shape.as_slice());
        return Err(
            WillametteError::GgufParse(
                cat5(
                    "embedding_gather_f16: tensor ",
                    name.as_str(),
                    " is not 2-D (shape=",
                    shape.as_str(),
                    ")",
                ),
            ),
        );
    }
    let n_embd: u64 = token_embd.shape[0];
    let n_vocab: u64 = token_embd.shape[1];
    if out.len() as u64 != n_embd {
        let found = decimal(out.len() as u64);
        let wanted = decimal(n_embd);
        return Err(
            WillametteError::GgufParse(
                cat4(
                    "embedding_gather_f16: out.len()=",
                    found.as_str(),
                    " != n_embd=",
                    wanted.as_str(),
                ),
            ),
        );
    }
    if token_id as u64 >= n_vocab {
        let id = decimal(token_id as u64);
        let vocab = decimal(n_vocab);
        return Err(
            WillametteError::GgufParse(
                cat5(
                    "embedding_gather_f16: token_id ",
                    id.as_str(),
                    " out of range (vocab_size=",
                    vocab.as_str(),
                    ")",
                ),
            ),
        );
    }
    let n: usize = out.len();
    proof {
        assert(0 <= 2 * n <= (token_id + 1) * (2 * n)) by (nonlinear_arith)
            requires
                token_id >= 0,
                n >= 0,
        ;
        assert((token_id + 1) * (2 * n) == token_id * (2 * n) + 2 * n) by (nonlinear_arith);
        assert(token_id * (2 * n) >= 0) by (nonlinear_arith)
            requires
                token_id >= 0,
                n >= 0,
        ;
    }
    let row_bytes: usize = 2 * n;
    let start: usize = token_id as usize * row_bytes;
    let end: usize = start + row_bytes;
    if end > token_embd.data.len() {
        let low = decimal(start as u64);
        let high = decimal(end as u64);
        let size = decimal(token_embd.data.len() as u64);
        return Err(
            WillametteError::GgufParse(
                cat6(
                    "embedding_gather_f16: row bytes [",
                    low.as_str(),
                    "..",
                    high.as_str(),
                    ") exceed tensor data len ",
                    size.as_str(),
                ),
            ),
        );
    }
    let mut i: usize = 0;
    while i < n
        invariant
            i <= n,
            n == out@.len(),
            out@.len() == old(out)@.len(),
            start + 2 * n <= token_embd.data@.len(),
            start == token_id * (2 * n),
            token_embd.data@.len() <= usize::MAX,
            forall|k: int|
                0 <= k < i ==> #[trigger] out@[k] == widened(
                    le16(token_embd.data@.skip(start + 2 * k)) as u16,
                ),
        decreases n - i,
    {
        let lo = token_embd.data[start + 2 * i] as u16;
        let hi = token_embd.data[start + 2 * i + 1] as u16;
        let bits: u16 = lo + 0x100 * hi;
        proof {
            let s = token_embd.data@.skip(start + 2 * i);
            assert(s[0] == lo && s[1] == hi);
        }
        out[i] = f16_to_f32(bits);
        i = i + 1;
    }
    Ok(())
}

/// Which values of a head are rotated together.
#[derive(Debug, Clone, Copy, PartialEq, Eq, Structural)]
pub enum RopeType {
    /// Neighbours: `(0, 1)`, `(2, 3)` and so on.
    Norm,
    /// Values half of the rotated width apart.
    Neox,
}

/// What keeps a head from being rotated.
pub open spec fn rope_fault(len: int, head_dim: int, n_rot: int) -> Option<Fault> {
    if len != head_dim {
        Some(
            Fault::GgufParse(
                "apply_rope_f32: x.len()="@ + dec(len) + " != head_dim="@ + dec(head_dim),
            ),
        )
    } else if n_rot == 0 || n_rot % 2 != 0 {
        Some(
            Fault::GgufParse(
                "apply_rope_f32: n_rot="@ + dec(n_rot) + " must be a positive even number"@,
            ),
        )
    } else if n_rot > head_dim {
        Some(
            Fault::GgufParse(
                "apply_rope_f32: n_rot="@ + dec(n_rot) + " > head_dim="@ + dec(head_dim),
            ),
        )
    } else {
        None
    }
}

/// The two values of pair `j`.
pub open spec fn rope_pair(n_rot: int, rope_type: RopeType, j: int) -> (int, int) {
    match rope_type {
        RopeType::Norm => (2 * j, 2 * j + 1),
        RopeType::Neox => (j, j + n_rot / 2),
    }
}

/// The pairs of values that a rotation of one head turns, in the order in
/// which their frequencies fall.
pub fn rope_pairs(len: usize, head_dim: usize, n_rot: usize, rope_type: RopeType) -> (r: Result<
    Vec<(usize, usize)>,
    WillametteError,
>)
    ensures
        match r {
            Ok(pairs) => {
                &&& rope_fault(len as int, head_dim as int, n_rot as int) is None
                &&& pairs@.len() == n_rot / 2
                &&& forall|j: int|
                    0 <= j < pairs@.len() ==> ((#[trigger] pairs@[j]).0 as int, pairs@[j].1 as int)
                        == rope_pair(n_rot as int, rope_type, j)
                &&& forall|j: int|
                    0 <= j < pairs@.len() ==> (#[trigger] pairs@[j]).0 < pairs@[j].1 < n_rot
            },
            Err(e) => rope_fault(len as int, head_dim as int, n_rot as int) == Some(e@),
        },
{
    if len != head_dim {
        let found = decimal(len as u64);
        let wanted = decimal(head_dim as u64);
        return Err(
            WillametteError::GgufParse(
                cat4(
                    "apply_rope_f32: x.len()=",
                    found.as_str(),
                    " != head_dim=",
                    wanted.as_str(),
                ),
            ),
        );
    }
    if n_rot == 0 || n_rot % 2 != 0 {
        let rotated = decimal(n_rot as u64);
        return Err(
            WillametteError::GgufParse(
                cat3(
                    "apply_rope_f32: n_rot=",
                    rotated.as_str(),
                    " must be a positive even number",
                ),
            ),
        );
    }
    if n_rot > head_dim {
        let rotated = decimal(n_rot as u64);
        let width = decimal(head_dim as u64);
        return Err(
            WillametteError::GgufParse(
                cat4(
                    "apply_rope_f32: n_rot=",
                    rotated.as_str(),
                    " > head_dim=",
                    width.as_str(),
                ),
            ),
        );
    }
    let half: usize = n_rot / 2;
    let mut pairs: Vec<(usize, usize)> = Vec::new();
    let mut j: usize = 0;
    while j < half
        invariant
            j <= half,
            half == n_rot / 2,
            pairs@.len() == j,
            forall|k: int|
                0 <= k < j ==> ((#[trigger] pairs@[k]).0 as int, pairs@[k].1 as int) == rope_pair(
                    n_rot as int,
                    rope_type,
                    k,
                ),
            forall|k: int| 0 <= k < j ==> (#[trigger] pairs@[k]).0 < pairs@[k].1 < n_rot,
        decreases half - j,
    {
        match rope_type {
            RopeType::Norm => {
                pairs.push((2 * j, 2 * j + 1));
            },
            RopeType::Neox => {
                pairs.push((j, j + half));
            },
        }
        j = j + 1;
    }
    Ok(pairs)
}

/// Each of the first `n_rot` values of a head belongs to exactly one pair, in
/// both pairings.
pub proof fn rope_pairs_partition_the_rotated_values(n_rot: int, rope_type: RopeType, x: int)
    requires
        n_rot > 0,
        n_rot % 2 == 0,
        0 <= x < n_rot,
    ensures
        exists|j: int|
            0 <= j < n_rot / 2 && ((#[trigger] rope_pair(n_rot, rope_type, j)).0 == x
                || rope_pair(n_rot, rope_type, j).1 == x),
        forall|j: int, k: int|
            0 <= j < n_rot / 2 && 0 <= k < n_rot / 2 && ((#[trigger] rope_pair(
                n_rot,
                rope_type,
                j,
            )).0 == x || rope_pair(n_rot, rope_type, j).1 == x) && ((#[trigger] rope_pair(
                n_rot,
                rope_type,
                k,
            )).0 == x || rope_pair(n_rot, rope_type, k).1 == x) ==> j == k,
{
    let j = match rope_type {
        RopeType::Norm => x / 2,
        RopeType::Neox => if x < n_rot / 2 {
            x
        } else {
            x - n_rot / 2
        },
    };
    assert(rope_pair(n_rot, rope_type, j).0 == x || rope_pair(n_rot, rope_type, j).1 == x);
}

/// A rotation turns forwards, from the first value of each pair to the second: the
/// first stands in front of the second, right in front of it where neighbours are
/// paired, and half of the rotated width in front of it otherwise. Pairs follow one
/// another as their first values do.
pub proof fn rotations_turn_forwards(n_rot: int, rope_type: RopeType, j: int, k: int)
    requires
        n_rot > 0,
        n_rot % 2 == 0,
        0 <= j < k < n_rot / 2,
    ensures
        0 <= rope_pair(n_rot, rope_type, j).0 < rope_pair(n_rot, rope_type, j).1 < n_rot,
        0 <= rope_pair(n_rot, rope_type, k).0 < rope_pair(n_rot, rope_type, k).1 < n_rot,
        rope_pair(n_rot, rope_type, j).0 < rope_pair(n_rot, rope_type, k).0,
        rope_type == RopeType::Norm ==> rope_pair(n_rot, rope_type, j).1 - rope_pair(
            n_rot,
            rope_type,
            j,
        ).0 == 1,
        rope_type == RopeType::Neox ==> 2 * (rope_pair(n_rot, rope_type, j).1 - rope_pair(
            n_rot,
            rope_type,
            j,
        ).0) == n_rot,
{
}

/// Each value of a head is turned with its partner: of two values half of the rotated
/// width apart, or of two neighbours from an even place on, the one in front is the
/// first of the pair and the other one the second.
pub proof fn partners_are_turned_together(n_rot: int, x: int)
    requires
        n_rot > 0,
        n_rot % 2 == 0,
        0 <= x < n_rot,
    ensures
        x < n_rot / 2 ==> rope_pair(n_rot, RopeType::Neox, x) == (x, x + n_rot / 2),
        x % 2 == 0 ==> rope_pair(n_rot, RopeType::Norm, x / 2) == (x, x + 1),
{
}

/// What keeps query heads from sharing key and value heads evenly.
pub open spec fn gqa_fault(n_heads: int, n_kv_heads: int) -> Option<Fault> {
    if n_kv_heads == 0 {
        Some(Fault::GgufParse("gqa_group_size: n_kv_heads must be > 0"@))
    } else if n_heads % n_kv_heads != 0 {
        Some(
            Fault::GgufParse(
                "gqa_group_size: n_heads ("@ + dec(n_heads) + ") not divisible by n_kv_heads ("@
                    + dec(n_kv_heads) + ")"@,
            ),
        )
    } else {
        None
    }
}

/// How many query heads share one key and value head.
pub fn gqa_group_size(n_heads: u32, n_kv_heads: u32) -> (r: Result<u32, WillametteError>)
    ensures
        match r {
            Ok(g) => {
                &&& gqa_fault(n_heads as int, n_kv_heads as int) is None
                &&& g == n_heads / n_kv_heads
                &&& g * n_kv_heads == n_heads
            },
            Err(e) => gqa_fault(n_heads as int, n_kv_heads as int) == Some(e@),
        },
{
    if n_kv_heads == 0 {
        return Err(
            WillametteError::GgufParse(owned("gqa_group_size: n_kv_heads must be > 0")),
        );
    }
    if n_heads % n_kv_heads != 0 {
        let heads = decimal(n_heads as u64);
        let kv = decimal(n_kv_heads as u64);
        return Err(
            WillametteError::GgufParse(
                cat5(
                    "gqa_group_size: n_heads (",
                    heads.as_str(),
                    ") not divisible by n_kv_heads (",
                    kv.as_str(),
                    ")",
                ),
            ),
        );
    }
    proof {
        vstd::arithmetic::div_mod::lemma_fundamental_div_mod(n_heads as int, n_kv_heads as int);
        assert((n_heads / n_kv_heads) * n_kv_heads == n_kv_heads * (n_heads / n_kv_heads))
            by (nonlinear_arith);
    }
    Ok(n_heads / n_kv_heads)
}

/// The key and value head that a query head reads, where `group_size` query heads share
/// one.
pub open spec fn kv_head(q_head: int, group_size: int) -> int {
    q_head / group_size
}

/// Query heads share key and value heads in groups of neighbours: the first group reads
/// the first one, the next group the next one.
pub proof fn neighbours_share_a_head(q_head: int, group_size: int)
    requires
        0 <= q_head,
        0 < group_size,
    ensures
        q_head < group_size ==> kv_head(q_head, group_size) == 0,
        kv_head(q_head + group_size, group_size) == kv_head(q_head, group_size) + 1,
        kv_head(q_head, group_size) * group_size <= q_head < (kv_head(q_head, group_size) + 1)
            * group_size,
{
    vstd::arithmetic::div_mod::lemma_fundamental_div_mod(q_head, group_size);
    let h = q_head / group_size;
    assert(h * group_size <= q_head < (h + 1) * group_size) by (nonlinear_arith)
        requires
            q_head == group_size * h + q_head % group_size,
            0 <= q_head % group_size < group_size,
    ;
    vstd::arithmetic::div_mod::lemma_div_plus_one(q_head, group_size);
    if q_head < group_size {
        vstd::arithmetic::div_mod::lemma_basic_div(q_head, group_size);
    }
}

/// The key and value head that a query head reads.
pub fn kv_head_for_q_head(q_head: u32, group_size: u32) -> (h: u32)
    requires
        group_size > 0,
    ensures
        h == q_head as int / group_size as int,
        h == kv_head(q_head as int, group_size as int),
{
    q_head / group_size
}

/// Every query head reads a key and value head that exists, and each of these
/// is read by exactly one group of neighbouring query heads.
pub proof fn query_heads_read_existing_heads(n_heads: int, n_kv_heads: int, q: int)
    requires
        n_kv_heads > 0,
        n_heads % n_kv_heads == 0,
        0 <= q < n_heads,
    ensures
        n_heads / n_kv_heads > 0,
        0 <= q / (n_heads / n_kv_heads) < n_kv_heads,
        q / (n_heads / n_kv_heads) * (n_heads / n_kv_heads) <= q < (q / (n_heads / n_kv_heads)
            + 1) * (n_heads / n_kv_heads),
{
    let g = n_heads / n_kv_heads;
    vstd::arithmetic::div_mod::lemma_fundamental_div_mod(n_heads, n_kv_heads);
    assert(g > 0) by (nonlinear_arith)
        requires
            n_heads == n_kv_heads * g,
            n_heads > 0,
            n_kv_heads > 0,
    ;
    vstd::arithmetic::div_mod::lemma_fundamental_div_mod(q, g);
    let h = q / g;
    assert(0 <= h < n_kv_heads && h * g <= q < (h + 1) * g) by (nonlinear_arith)
        requires
            q == g * h + q % g,
            0 <= q % g < g,
            0 <= q < n_kv_heads * g,
            g > 0,
    ;
}

/// The bits that a causal mask adds to a score: zero where the key is not
/// later than the query, minus infinity elsewhere.
pub open spec fn mask_bits(q_pos: int, k_pos: int) -> u32 {
    if k_pos <= q_pos {
        0
    } else {
        0xff80_0000
    }
}

/// The bits that a causal mask adds to a score: zero where the key is not
/// later than the query, minus infinity elsewhere.
pub fn causal_mask_value(q_pos: u32, k_pos: u32) -> (bits: u32)
    ensures
        bits == if k_pos <= q_pos {
            0u32
        } else {
            0xff80_0000u32
        },
        bits == mask_bits(q_pos as int, k_pos as int),
{
    if k_pos <= q_pos {
        0
    } else {
        0xff80_0000
    }
}

/// Where the heads share out evenly, 32 bits hold the widths that they give.
pub open spec fn heads_fit(n_heads: int, n_kv_heads: int, head_dim: int) -> bool {
    gqa_fault(n_heads, n_kv_heads) is None ==> n_heads * head_dim <= u32::MAX && n_kv_heads
        * head_dim <= u32::MAX
}

/// The widths of queries, keys and values for one token.
#[derive(Debug, Clone, Copy, PartialEq, Eq, Structural)]
pub struct AttentionShape {
    pub n_heads: u32,
    pub n_kv_heads: u32,
    pub head_dim: u32,
    pub group_size: u32,
    pub q_per_token_dim: u32,
    pub kv_per_token_dim: u32,
}

impl AttentionShape {
    /// The widths that head counts and a head width give.
    pub fn from_config(n_heads: u32, n_kv_heads: u32, head_dim: u32) -> (r: Result<
        Self,
        WillametteError,
    >)
        requires
            heads_fit(n_heads as int, n_kv_heads as int, head_dim as int),
        ensures
            match r {
                Ok(s) => {
                    &&& gqa_fault(n_heads as int, n_kv_heads as int) is None
                    &&& s.n_heads == n_heads
                    &&& s.n_kv_heads == n_kv_heads
                    &&& s.head_dim == head_dim
                    &&& s.group_size == n_heads / n_kv_heads
                    &&& s.q_per_token_dim == n_heads * head_dim
                    &&& s.kv_per_token_dim == n_kv_heads * head_dim
                    &&& s.group_size * s.n_kv_heads == s.n_heads
                },
                Err(e) => gqa_fault(n_heads as int, n_kv_heads as int) == Some(e@),
            },
    {
        match gqa_group_size(n_heads, n_kv_heads) {
            Ok(group_size) => Ok(
                AttentionShape {
                    n_heads,
                    n_kv_heads,
                    head_dim,
                    group_size,
                    q_per_token_dim: n_heads * head_dim,
                    kv_per_token_dim: n_kv_heads * head_dim,
                },
            ),
            Err(e) => Err(e),
        }
    }
}

} // verus!
