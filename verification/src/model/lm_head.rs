//! The output head: what is checked before logits are computed, and how the
//! largest of them are found. Logits are held by their bit patterns.

use crate::error::{Fault, WillametteError};
use crate::gguf::tensor::TensorView;
use crate::gguf::types::{ggml_name, raw_of_type, GgmlType};
use crate::model::config::first;
use crate::model::lengths::{check_len, len_fault};
use crate::text::{bracket, bracketed, cat5, cat7, dec, decimal};
use vstd::prelude::*;

verus! {

/// What keeps logits from being computed with a table of embeddings.
pub open spec fn logits_fault(
    hidden: int,
    t: TensorView<'_>,
    embedding_length: u32,
    vocab_size: u32,
) -> Option<Fault> {
    if t.ggml_type != GgmlType::F16 {
        Some(
            Fault::GgufParse(
                "compute_logits: token_embd is "@ + ggml_name(t.ggml_type) + " (raw "@ + dec(
                    raw_of_type(t.ggml_type) as int,
                ) + "), expected F16"@,
            ),
        )
    } else if t.shape@ != seq![embedding_length as u64, vocab_size as u64] {
        Some(
            Fault::GgufParse(
                "compute_logits: token_embd shape "@ + bracketed(t.shape@) + " != ["@ + dec(
                    embedding_length as int,
                ) + ", "@ + dec(vocab_size as int) + "]"@,
            ),
        )
    } else {
        first(
            len_fault(
                "compute_logits: final_hidden.len()="@,
                hidden,
                " != embedding_length="@,
                embedding_length as int,
            ),
            len_fault(
                "compute_logits: token_embd.data.len()="@,
                t.data@.len() as int,
                " != expected "@,
                2 * embedding_length * vocab_size,
            ),
        )
    }
}

/// Where the table and the hidden state have the lengths asked for, the bytes of
/// the table can be counted.
pub open spec fn table_fits(
    hidden: int,
    t: TensorView<'_>,
    embedding_length: u32,
    vocab_size: u32,
) -> bool {
    t.ggml_type == GgmlType::F16 && t.shape@ == seq![embedding_length as u64, vocab_size as u64]
        && hidden == embedding_length ==> 2 * embedding_length <= usize::MAX && 2
        * embedding_length * vocab_size <= usize::MAX
}

/// Checks a hidden state against a table of embeddings. Where this succeeds, the
/// table holds `vocab_size` rows of `embedding_length` half-precision numbers.
pub fn check_logits(
    hidden: usize,
    token_embd: &TensorView<'_>,
    embedding_length: u32,
    vocab_size: u32,
) -> (r: Result<(), WillametteError>)
    requires
        table_fits(hidden as int, *token_embd, embedding_length, vocab_size),
    ensures
        match r {
            Ok(_) => logits_fault(hidden as int, *token_embd, embedding_length, vocab_size) is None,
            Err(e) => logits_fault(hidden as int, *token_embd, embedding_length, vocab_size)
                == Some(e@),
        },
{
    if token_embd.ggml_type != GgmlType::F16 {
        let name = token_embd.ggml_type.name();
        let raw = decimal(token_embd.ggml_type.to_raw() as u64);
        return Err(
            WillametteError::GgufParse(
                cat5(
                    "compute_logits: token_embd is ",
                    name.as_str(),
                    " (raw ",
                    raw.as_str(),
                    "), expected F16",
                ),
            ),
        );
    }
    let matching = token_embd.shape.len() == 2 && token_embd.shape[0] == embedding_length as u64
        && token_embd.shape[1] == vocab_size as u64;
    proof {
        if matching {
            assert(token_embd.shape@ =~= seq![embedding_length as u64, vocab_size as u64]);
        }
    }
    if !matching {
        let shape = bracket(token_embd.shape.as_slice());
        let a = decimal(embedding_length as u64);
        let b = decimal(vocab_size as u64);
        return Err(
            WillametteError::GgufParse(
                cat7(
                    "compute_logits: token_embd shape ",
                    shape.as_str(),
                    " != [",
                    a.as_str(),
                    ", ",
                    b.as_str(),
                    "]",
                ),
            ),
        );
    }
    let n: usize = embedding_length as usize;
    match check_len(
        "compute_logits: final_hidden.len()=",
        hidden,
        " != embedding_length=",
        n,
    ) {
        Ok(_) => {},
        Err(e) => {
            return Err(e);
        },
    }
    let row_bytes: usize = n * 2;
    proof {
        assert(row_bytes * vocab_size == 2 * embedding_length * vocab_size) by (nonlinear_arith)
            requires
                row_bytes == embedding_length * 2,
        ;
    }
    check_len(
        "compute_logits: token_embd.data.len()=",
        token_embd.data.len(),
        " != expected ",
        row_bytes * vocab_size as usize,
    )
}

/// A bit pattern stands for no number.
pub open spec fn is_nan(bits: u32) -> bool {
    bits % 0x8000_0000 > 0x7f80_0000
}

/// A whole number that orders bit patterns as the numbers they stand for are
/// ordered. Both zeros have the same rank.
pub open spec fn rank(bits: u32) -> int {
    if bits < 0x8000_0000 {
        bits as int
    } else {
        0x8000_0000 - bits
    }
}

/// The number behind `a` is greater than the number behind `b`.
pub open spec fn exceeds(a: u32, b: u32) -> bool {
    !is_nan(a) && !is_nan(b) && rank(a) > rank(b)
}

/// Whether the number behind `a` is greater than the number behind `b`.
pub fn is_greater(a: u32, b: u32) -> (r: bool)
    ensures
        r == exceeds(a, b),
{
    if a % 0x8000_0000 > 0x7f80_0000 || b % 0x8000_0000 > 0x7f80_0000 {
        return false;
    }
    if a < 0x8000_0000 {
        if b < 0x8000_0000 {
            a > b
        } else {
            a > 0 || b > 0x8000_0000
        }
    } else {
        b >= 0x8000_0000 && a < b
    }
}

/// `i` is the place of the largest number: the first of them, where it occurs
/// more than once. Where the list starts with no number, that is the place.
pub open spec fn is_largest(logits: Seq<u32>, i: int) -> bool {
    &&& 0 <= i < logits.len()
    &&& is_nan(logits[0]) ==> i == 0
    &&& !is_nan(logits[0]) ==> {
        &&& !is_nan(logits[i])
        &&& forall|j: int|
            0 <= j < logits.len() && !is_nan(#[trigger] logits[j]) ==> rank(logits[j]) <= rank(
                logits[i],
            )
        &&& forall|j: int|
            0 <= j < i && !is_nan(#[trigger] logits[j]) ==> rank(logits[j]) < rank(logits[i])
    }
}

/// The place of the largest logit.
pub fn argmax(logits: &[u32]) -> (r: Option<u32>)
    requires
        logits@.len() <= 0x1_0000_0000,
    ensures
        match r {
            Some(i) => is_largest(logits@, i as int),
            None => logits@.len() == 0,
        },
{
    let n: usize = logits.len();
    if n == 0 {
        return None;
    }
    let mut best: usize = 0;
    let mut i: usize = 1;
    while i < n
        invariant
            1 <= i <= n,
            n == logits@.len(),
            n <= 0x1_0000_0000,
            best < i,
            is_nan(logits@[0]) ==> best == 0,
            !is_nan(logits@[0]) ==> {
                &&& !is_nan(logits@[best as int])
                &&& forall|j: int|
                    0 <= j < i && !is_nan(#[trigger] logits@[j]) ==> rank(logits@[j]) <= rank(
                        logits@[best as int],
                    )
                &&& forall|j: int|
                    0 <= j < best && !is_nan(#[trigger] logits@[j]) ==> rank(logits@[j]) < rank(
                        logits@[best as int],
                    )
            },
        decreases n - i,
    {
        if is_greater(logits[i], logits[best]) {
            best = i;
        }
        i = i + 1;
    }
    Some(best as u32)
}

/// Entry `i` comes before entry `j`: its number is greater, or it is the earlier
/// of two equal ones.
pub open spec fn ahead(logits: Seq<u32>, i: int, j: int) -> bool {
    rank(logits[i]) > rank(logits[j]) || (rank(logits[i]) == rank(logits[j]) && i < j)
}

/// The order of entries can be followed from one to the next.
pub proof fn ahead_is_transitive(logits: Seq<u32>, i: int, j: int, k: int)
    requires
        ahead(logits, i, j),
        ahead(logits, j, k),
    ensures
        ahead(logits, i, k),
{
}

/// All entries are numbers.
pub open spec fn all_numbers(logits: Seq<u32>) -> bool {
    forall|i: int| 0 <= i < logits.len() ==> !is_nan(#[trigger] logits[i])
}

/// `order` holds a place.
spec fn is_listed(order: Seq<u32>, i: int) -> bool {
    exists|a: int| 0 <= a < order.len() && #[trigger] order[a] == i
}

/// `order` holds each place of the list once.
spec fn lists_all(order: Seq<u32>, n: int) -> bool {
    &&& order.len() == n
    &&& forall|a: int| 0 <= a < n ==> (#[trigger] order[a]) < n
    &&& forall|a: int, b: int|
        0 <= a < b < n ==> #[trigger] order[a] != #[trigger] order[b]
    &&& forall|i: int| 0 <= i < n ==> #[trigger] is_listed(order, i)
}

/// The first `m` places are the foremost ones, in order.
spec fn is_ranked(logits: Seq<u32>, order: Seq<u32>, m: int) -> bool {
    forall|a: int, b: int|
        0 <= a < m && a < b < order.len() ==> ahead(
            logits,
            #[trigger] order[a] as int,
            #[trigger] order[b] as int,
        )
}

/// Exchanging two places keeps each place listed once.
proof fn lemma_exchange(before: Seq<u32>, after: Seq<u32>, n: int, m: int, b: int)
    requires
        lists_all(before, n),
        0 <= m <= b < n,
        after == before.update(m, before[b]).update(b, before[m]),
    ensures
        lists_all(after, n),
{
    assert forall|i: int| 0 <= i < n implies #[trigger] is_listed(after, i) by {
        assert(is_listed(before, i));
        let a = choose|a: int| 0 <= a < n && #[trigger] before[a] == i;
        if a == m {
            assert(after[b] == i);
        } else if a == b {
            assert(after[m] == i);
        } else {
            assert(after[a] == i);
        }
    }
}

/// The `k` largest logits with their places, largest first. Equal ones stand in
/// the order of their places.
pub fn top_k(logits: &[u32], k: usize) -> (r: Vec<(u32, u32)>)
    requires
        logits@.len() <= u32::MAX,
        all_numbers(logits@),
    ensures
        r@.len() == if k <= logits@.len() {
            k as int
        } else {
            logits@.len() as int
        },
        forall|a: int|
            0 <= a < r@.len() ==> (#[trigger] r@[a]).0 < logits@.len() && r@[a].1
                == logits@[r@[a].0 as int],
        forall|a: int, b: int|
            0 <= a < b < r@.len() ==> ahead(
                logits@,
                (#[trigger] r@[a]).0 as int,
                (#[trigger] r@[b]).0 as int,
            ),
        forall|i: int|
            #![trigger logits@[i]]
            0 <= i < logits@.len() ==> (exists|a: int|
                0 <= a < r@.len() && (#[trigger] r@[a]).0 == i) || (forall|a: int|
                0 <= a < r@.len() ==> ahead(logits@, (#[trigger] r@[a]).0 as int, i)),
{
    let n: usize = logits.len();
    let count: usize = if k <= n {
        k
    } else {
        n
    };
    let mut order: Vec<u32> = Vec::new();
    let mut i: usize = 0;
    while i < n
        invariant
            i <= n,
            n <= u32::MAX,
            order@.len() == i,
            forall|a: int| 0 <= a < i ==> #[trigger] order@[a] == a,
        decreases n - i,
    {
        order.push(i as u32);
        i = i + 1;
    }
    proof {
        assert forall|j: int| 0 <= j < n implies #[trigger] is_listed(order@, j) by {
            assert(order@[j] == j);
        }
    }
    let mut m: usize = 0;
    while m < count
        invariant
            m <= count <= n,
            n == logits@.len(),
            n <= u32::MAX,
            all_numbers(logits@),
            lists_all(order@, n as int),
            is_ranked(logits@, order@, m as int),
        decreases count - m,
    {
        let mut best: usize = m;
        let mut j: usize = m + 1;
        while j < n
            invariant
                m < j <= n,
                m <= best < j,
                n == logits@.len(),
                all_numbers(logits@),
                lists_all(order@, n as int),
                forall|b: int|
                    m <= b < j && b != best ==> ahead(
                        logits@,
                        order@[best as int] as int,
                        #[trigger] order@[b] as int,
                    ),
            decreases n - j,
        {
            let p: usize = order[j] as usize;
            let q: usize = order[best] as usize;
            let forward = is_greater(logits[p], logits[q]) || (!is_greater(logits[q], logits[p])
                && p < q);
            proof {
                assert(!is_nan(logits@[p as int]) && !is_nan(logits@[q as int]));
                assert(order@[best as int] != order@[j as int]);
                assert(forward == ahead(logits@, p as int, q as int));
            }
            if forward {
                proof {
                    assert forall|b: int| m <= b < j + 1 && b != j implies ahead(
                        logits@,
                        order@[j as int] as int,
                        #[trigger] order@[b] as int,
                    ) by {
                        if b != best {
                            ahead_is_transitive(logits@, p as int, q as int, order@[b] as int);
                        }
                    }
                }
                best = j;
            }
            j = j + 1;
        }
        let ghost before = order@;
        let x: u32 = order[m];
        let y: u32 = order[best];
        order.set(m, y);
        order.set(best, x);
        proof {
            lemma_exchange(before, order@, n as int, m as int, best as int);
            assert forall|a: int, b: int| 0 <= a < m + 1 && a < b < order@.len() implies ahead(
                logits@,
                #[trigger] order@[a] as int,
                #[trigger] order@[b] as int,
            ) by {
                if a < m {
                    if b == m {
                        assert(order@[b] == before[best as int]);
                        assert(ahead(logits@, before[a] as int, before[best as int] as int));
                    } else if b == best {
                        assert(order@[b] == before[m as int]);
                        assert(ahead(logits@, before[a] as int, before[m as int] as int));
                    } else {
                        assert(ahead(logits@, before[a] as int, before[b] as int));
                    }
                } else if b == best {
                    assert(order@[b] == before[m as int]);
                    assert(ahead(logits@, before[best as int] as int, before[m as int] as int));
                } else {
                    assert(ahead(logits@, before[best as int] as int, before[b] as int));
                }
            }
        }
        m = m + 1;
    }
    let mut out: Vec<(u32, u32)> = Vec::new();
    let mut a: usize = 0;
    while a < count
        invariant
            a <= count <= n,
            n == logits@.len(),
            lists_all(order@, n as int),
            out@.len() == a,
            forall|b: int|
                0 <= b < a ==> (#[trigger] out@[b]).0 == order@[b] && out@[b].1
                    == logits@[order@[b] as int],
        decreases count - a,
    {
        let place: u32 = order[a];
        out.push((place, logits[place as usize]));
        a = a + 1;
    }
    proof {
        assert forall|x: int, y: int| 0 <= x < y < out@.len() implies ahead(
            logits@,
            (#[trigger] out@[x]).0 as int,
            (#[trigger] out@[y]).0 as int,
        ) by {
            assert(ahead(logits@, order@[x] as int, order@[y] as int));
        }
        assert forall|i: int|
            #![trigger logits@[i]]
            0 <= i < logits@.len() implies (exists|a: int|
            0 <= a < out@.len() && (#[trigger] out@[a]).0 == i) || (forall|a: int|
            0 <= a < out@.len() ==> ahead(logits@, (#[trigger] out@[a]).0 as int, i)) by {
            assert(is_listed(order@, i));
            let p = choose|p: int| 0 <= p < n && #[trigger] order@[p] == i;
            if p < count {
                assert(out@[p].0 == i);
            } else {
                assert forall|a: int| 0 <= a < out@.len() implies ahead(
                    logits@,
                    (#[trigger] out@[a]).0 as int,
                    i,
                ) by {
                    assert(ahead(logits@, order@[a] as int, order@[p] as int));
                }
            }
        }
    }
    out
}

/// The foremost of the `k` largest logits is the largest one.
pub proof fn foremost_is_largest(logits: Seq<u32>, i: int)
    requires
        all_numbers(logits),
        0 <= i < logits.len(),
        forall|j: int| 0 <= j < logits.len() && j != i ==> #[trigger] ahead(logits, i, j),
    ensures
        is_largest(logits, i),
{
    assert forall|j: int| 0 <= j < logits.len() && !is_nan(#[trigger] logits[j]) implies rank(
        logits[j],
    ) <= rank(logits[i]) && (j < i ==> rank(logits[j]) < rank(logits[i])) by {
        if j != i {
            assert(ahead(logits, i, j));
        }
    }
}

} // verus!
