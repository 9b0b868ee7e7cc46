//! Attention: what is checked before its arithmetic, and which head reads which.

use crate::error::{Fault, WillametteError};
use crate::model::config::{first, ModelConfig};
use crate::model::lengths::{check_len, check_three, len_fault, three_fault};
use crate::model::primitives::{gqa_fault, heads_fit, kv_head, kv_head_for_q_head, rope_fault, rope_pair, rope_pairs, AttentionShape, RopeType};
use crate::text::{cat8, dec, decimal};
use vstd::prelude::*;

verus! {

/// What keeps all heads of a token from being rotated.
pub open spec fn rope_heads_fault(len: int, n_heads: int, head_dim: int, n_rot: int) -> Option<
    Fault,
> {
    if len != n_heads * head_dim {
        Some(
            Fault::GgufParse(
                "apply_rope_multi_head: x.len()="@ + dec(len) + " != n_heads*head_dim="@ + dec(
                    n_heads,
                ) + "*"@ + dec(head_dim) + "="@ + dec(n_heads * head_dim),
            ),
        )
    } else if n_heads == 0 {
        None
    } else {
        rope_fault(head_dim, head_dim, n_rot)
    }
}

/// The pairs that a rotation turns in each head. There are none where there is
/// no head.
pub fn rope_head_pairs(
    len: usize,
    n_heads: u32,
    head_dim: usize,
    n_rot: usize,
    rope_type: RopeType,
) -> (r: Result<Vec<(usize, usize)>, WillametteError>)
    requires
        n_heads * head_dim <= usize::MAX,
    ensures
        match r {
            Ok(pairs) => {
                &&& rope_heads_fault(len as int, n_heads as int, head_dim as int, n_rot as int)
                    is None
                &&& pairs@.len() == if n_heads == 0 {
                    0
                } else {
                    n_rot as int / 2
                }
                &&& forall|j: int|
                    0 <= j < pairs@.len() ==> ((#[trigger] pairs@[j]).0 as int, pairs@[j].1 as int)
                        == rope_pair(n_rot as int, rope_type, j)
            },
            Err(e) => rope_heads_fault(len as int, n_heads as int, head_dim as int, n_rot as int)
                == Some(e@),
        },
{
    let heads: usize = n_heads as usize;
    if len != heads * head_dim {
        let a = decimal(len as u64);
        let b = decimal(n_heads as u64);
        let c = decimal(head_dim as u64);
        let d = decimal((heads * head_dim) as u64);
        return Err(
            WillametteError::GgufParse(
                cat8(
                    "apply_rope_multi_head: x.len()=",
                    a.as_str(),
                    " != n_heads*head_dim=",
                    b.as_str(),
                    "*",
                    c.as_str(),
                    "=",
                    d.as_str(),
                ),
            ),
        );
    }
    if n_heads == 0 {
        return Ok(Vec::new());
    }
    rope_pairs(head_dim, head_dim, n_rot, rope_type)
}

/// What keeps one token from attending to itself.
pub open spec fn attention_fault(
    q: int,
    k: int,
    v: int,
    out: int,
    shape: AttentionShape,
) -> Option<Fault> {
    let heads = shape.n_heads * shape.head_dim;
    let kv = shape.n_kv_heads * shape.head_dim;
    first(
        len_fault("attention: q.len()="@, q, " != n_heads*head_dim="@, heads),
        first(
            len_fault("attention: k.len()="@, k, " != n_kv_heads*head_dim="@, kv),
            first(
                len_fault("attention: v.len()="@, v, " != n_kv_heads*head_dim="@, kv),
                len_fault("attention: output.len()="@, out, " != q.len()="@, q),
            ),
        ),
    )
}

/// Checks the lists of one token that attends to itself.
pub fn check_attention(q: usize, k: usize, v: usize, out: usize, shape: &AttentionShape) -> (r:
    Result<(), WillametteError>)
    requires
        shape.n_heads * shape.head_dim <= usize::MAX,
        shape.n_kv_heads * shape.head_dim <= usize::MAX,
    ensures
        match r {
            Ok(_) => attention_fault(q as int, k as int, v as int, out as int, *shape) is None,
            Err(e) => attention_fault(q as int, k as int, v as int, out as int, *shape) == Some(
                e@,
            ),
        },
{
    let heads: usize = shape.n_heads as usize * shape.head_dim as usize;
    let kv: usize = shape.n_kv_heads as usize * shape.head_dim as usize;
    match check_len("attention: q.len()=", q, " != n_heads*head_dim=", heads) {
        Ok(_) => {},
        Err(e) => {
            return Err(e);
        },
    }
    match check_len("attention: k.len()=", k, " != n_kv_heads*head_dim=", kv) {
        Ok(_) => {},
        Err(e) => {
            return Err(e);
        },
    }
    match check_len("attention: v.len()=", v, " != n_kv_heads*head_dim=", kv) {
        Ok(_) => {},
        Err(e) => {
            return Err(e);
        },
    }
    check_len("attention: output.len()=", out, " != q.len()=", q)
}

/// Where a query head and the key and value head that it reads start in their
/// lists.
pub fn head_starts(h: u32, shape: &AttentionShape) -> (r: (usize, usize))
    requires
        h < shape.n_heads,
        shape.n_kv_heads > 0,
        shape.n_heads % shape.n_kv_heads == 0,
        shape.group_size == shape.n_heads / shape.n_kv_heads,
        shape.n_heads * shape.head_dim <= usize::MAX,
        shape.n_kv_heads * shape.head_dim <= usize::MAX,
    ensures
        r.0 == h * shape.head_dim,
        r.1 == h as int / shape.group_size as int * shape.head_dim,
        r.1 == kv_head(h as int, shape.group_size as int) * shape.head_dim,
        r.0 + shape.head_dim <= shape.n_heads * shape.head_dim,
        r.1 + shape.head_dim <= shape.n_kv_heads * shape.head_dim,
{
    proof {
        crate::model::primitives::query_heads_read_existing_heads(
            shape.n_heads as int,
            shape.n_kv_heads as int,
            h as int,
        );
    }
    let kv: u32 = kv_head_for_q_head(h, shape.group_size);
    proof {
        assert(h * shape.head_dim + shape.head_dim <= shape.n_heads * shape.head_dim)
            by (nonlinear_arith)
            requires
                h < shape.n_heads,
        ;
        assert(kv * shape.head_dim + shape.head_dim <= shape.n_kv_heads * shape.head_dim)
            by (nonlinear_arith)
            requires
                kv < shape.n_kv_heads,
        ;
        assert(h * shape.head_dim >= 0 && kv * shape.head_dim >= 0) by (nonlinear_arith);
    }
    (h as usize * shape.head_dim as usize, kv as usize * shape.head_dim as usize)
}

/// What keeps the attention half of a layer from taking one token.
pub open spec fn attention_block_fault(
    x: int,
    norm: int,
    sub_norm: int,
    out: int,
    config: ModelConfig,
) -> Option<Fault> {
    let n = config.embedding_length as int;
    first(
        gqa_fault(config.head_count as int, config.head_count_kv as int),
        first(
            len_fault("attention_block_forward: x.len()="@, x, " != n_embd="@, n),
            first(
                len_fault(
                    "attention_block_forward: attn_norm_weight.len()="@,
                    norm,
                    " != n_embd="@,
                    n,
                ),
                first(
                    len_fault(
                        "attention_block_forward: attn_sub_norm_weight.len()="@,
                        sub_norm,
                        " != n_embd="@,
                        n,
                    ),
                    len_fault("attention_block_forward: output.len()="@, out, " != n_embd="@, n),
                ),
            ),
        ),
    )
}

/// Checks the lists of the attention half of a layer, and gives the widths of
/// its heads.
pub fn check_attention_block(
    x: usize,
    norm: usize,
    sub_norm: usize,
    out: usize,
    config: &ModelConfig,
) -> (r: Result<AttentionShape, WillametteError>)
    requires
        heads_fit(config.head_count as int, config.head_count_kv as int, config.head_dim as int),
    ensures
        match r {
            Ok(shape) => {
                &&& attention_block_fault(
                    x as int,
                    norm as int,
                    sub_norm as int,
                    out as int,
                    *config,
                ) is None
                &&& shape.n_heads == config.head_count
                &&& shape.n_kv_heads == config.head_count_kv
                &&& shape.head_dim == config.head_dim
                &&& shape.group_size == config.head_count / config.head_count_kv
                &&& shape.q_per_token_dim == config.head_count * config.head_dim
                &&& shape.kv_per_token_dim == config.head_count_kv * config.head_dim
            },
            Err(e) => attention_block_fault(
                x as int,
                norm as int,
                sub_norm as int,
                out as int,
                *config,
            ) == Some(e@),
        },
{
    let n: usize = config.embedding_length as usize;
    let shape = match AttentionShape::from_config(
        config.head_count,
        config.head_count_kv,
        config.head_dim,
    ) {
        Ok(s) => s,
        Err(e) => {
            return Err(e);
        },
    };
    match check_len("attention_block_forward: x.len()=", x, " != n_embd=", n) {
        Ok(_) => {},
        Err(e) => {
            return Err(e);
        },
    }
    match check_len("attention_block_forward: attn_norm_weight.len()=", norm, " != n_embd=", n) {
        Ok(_) => {},
        Err(e) => {
            return Err(e);
        },
    }
    match check_len(
        "attention_block_forward: attn_sub_norm_weight.len()=",
        sub_norm,
        " != n_embd=",
        n,
    ) {
        Ok(_) => {},
        Err(e) => {
            return Err(e);
        },
    }
    match check_len("attention_block_forward: output.len()=", out, " != n_embd=", n) {
        Ok(_) => Ok(shape),
        Err(e) => Err(e),
    }
}

/// The lists of an addition differ in length.
pub open spec fn residual_fault(a: int, b: int, out: int) -> Option<Fault> {
    three_fault("residual_add: length mismatch a="@, a, " b="@, b, " out="@, out)
}

/// Checks the lists of an addition.
pub fn check_residual_add(a: usize, b: usize, out: usize) -> (r: Result<(), WillametteError>)
    ensures
        match r {
            Ok(_) => residual_fault(a as int, b as int, out as int) is None,
            Err(e) => residual_fault(a as int, b as int, out as int) == Some(e@),
        },
{
    check_three("residual_add: length mismatch a=", a, " b=", b, " out=", out)
}

} // verus!
