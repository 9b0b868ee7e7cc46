//! Ternary weights without their zeros: for each row the columns and signs of the
//! other weights.

use crate::error::{Fault, WillametteError};
use crate::gguf::bytes::le32;
use crate::gguf::tensor::{i2s_scale_fault, TensorView};
use crate::gguf::types::{raw_of_type, GgmlType};
use crate::model::bitlinear::{dot, lemma_dot_joins, read_weight, weight_at};
use crate::model::config::first;
use crate::model::lengths::{check_len, len_fault};
use crate::text::{cat3, dec, decimal, quote, quoted};
use vstd::prelude::*;

verus! {

/// A tensor of ternary weights without its zeros.
#[derive(Debug)]
pub struct SparseWeight {
    pub out_dim: usize,
    pub in_dim: usize,
    /// The scale, as single-precision bits.
    pub scale: u32,
    /// Row `j` has the entries from `row_starts[j]` to before `row_starts[j + 1]`.
    pub row_starts: Vec<u32>,
    pub cols: Vec<u16>,
    pub signs: Vec<i8>,
}

impl SparseWeight {
    /// The rows lie one after the other, every column exists, and no row is so
    /// long that the sum over it could leave 32 bits.
    pub open spec fn wf(&self) -> bool {
        &&& self.row_starts@.len() == self.out_dim + 1
        &&& self.cols@.len() == self.signs@.len()
        &&& forall|j: int|
            0 <= j < self.out_dim ==> (#[trigger] self.row_starts@[j]) <= self.row_starts@[j + 1]
                && self.row_starts@[j + 1] - self.row_starts@[j] <= 0x1_0000
        &&& forall|j: int|
            0 <= j <= self.out_dim ==> (#[trigger] self.row_starts@[j]) <= self.cols@.len()
        &&& forall|i: int| 0 <= i < self.cols@.len() ==> (#[trigger] self.cols@[i]) < self.in_dim
    }
}

/// What keeps the zeros of a tensor from being left out.
pub open spec fn sparse_shape_fault(w: TensorView<'_>) -> Option<Fault> {
    if w.ggml_type != GgmlType::BitNetI2S {
        Some(Fault::UnsupportedTensorType(raw_of_type(w.ggml_type)))
    } else if w.shape@.len() != 2 {
        Some(
            Fault::GgufParse(
                "sparse from_i2s: weight "@ + quoted(w.name@) + " not 2-D"@,
            ),
        )
    } else if w.shape@[0] == 0 || w.shape@[0] % 128 != 0 {
        Some(
            Fault::GgufParse(
                "sparse from_i2s: in_dim "@ + dec(w.shape@[0] as int)
                    + " not a positive multiple of 128"@,
            ),
        )
    } else if w.shape@[0] > u16::MAX {
        Some(
            Fault::GgufParse(
                "sparse from_i2s: in_dim "@ + dec(w.shape@[0] as int)
                    + " exceeds u16 column index"@,
            ),
        )
    } else {
        None
    }
}

/// Checks type and shape of a tensor, and gives its width and height.
fn validate_i2s_2d(weight: &TensorView<'_>) -> (r: Result<(usize, usize), WillametteError>)
    requires
        weight.shape@.len() == 2 ==> weight.shape@[0] <= usize::MAX && weight.shape@[1]
            <= usize::MAX,
    ensures
        match r {
            Ok((in_dim, out_dim)) => sparse_shape_fault(*weight) is None && in_dim
                == weight.shape@[0] && out_dim == weight.shape@[1],
            Err(e) => sparse_shape_fault(*weight) == Some(e@),
        },
{
    if weight.ggml_type != GgmlType::BitNetI2S {
        return Err(WillametteError::UnsupportedTensorType(weight.ggml_type.to_raw()));
    }
    if weight.shape.len() != 2 {
        let name = quote(weight.name.as_str());
        return Err(
            WillametteError::GgufParse(
                cat3("sparse from_i2s: weight ", name.as_str(), " not 2-D"),
            ),
        );
    }
    let in_dim: usize = weight.shape[0] as usize;
    let out_dim: usize = weight.shape[1] as usize;
    if in_dim == 0 || in_dim % 128 != 0 {
        let n = decimal(in_dim as u64);
        return Err(
            WillametteError::GgufParse(
                cat3("sparse from_i2s: in_dim ", n.as_str(), " not a positive multiple of 128"),
            ),
        );
    }
    if in_dim > u16::MAX as usize {
        let n = decimal(in_dim as u64);
        return Err(
            WillametteError::GgufParse(
                cat3("sparse from_i2s: in_dim ", n.as_str(), " exceeds u16 column index"),
            ),
        );
    }
    Ok((in_dim, out_dim))
}

/// The column that is visited as number `k`: byte by byte, and in each byte the
/// four codes from the highest bits down.
pub open spec fn visited(k: int) -> int {
    128 * (k / 128) + 32 * (k % 4) + k % 128 / 4
}

/// The column that is visited as number `k`.
fn visited_column(k: usize) -> (c: usize)
    requires
        k < 0x1_0000,
    ensures
        c == visited(k as int),
{
    128 * (k / 128) + 32 * (k % 4) + k % 128 / 4
}

/// A visited column is one of the row, and so is its byte.
proof fn lemma_visited_exists(k: int, in_dim: int)
    requires
        0 <= k < in_dim,
        in_dim % 128 == 0,
    ensures
        0 <= visited(k) < in_dim,
        visited(k) / 128 * 32 + visited(k) % 32 < in_dim / 4,
{
    let b = k / 128;
    let c = visited(k);
    assert(128 * b <= c < 128 * b + 128);
    assert(c / 128 == b);
    assert(b < in_dim / 128);
}

/// The columns that one byte holds.
proof fn lemma_visited_byte(b: int, g: int)
    requires
        0 <= b,
        0 <= g < 32,
    ensures
        visited(128 * b + 4 * g) == 128 * b + g,
        visited(128 * b + 4 * g + 1) == 128 * b + 32 + g,
        visited(128 * b + 4 * g + 2) == 128 * b + 64 + g,
        visited(128 * b + 4 * g + 3) == 128 * b + 96 + g,
{
}

/// The columns among the first `n` visited that hold no zero, with their signs.
pub open spec fn nonzeros(data: Seq<u8>, at: int, n: int) -> Seq<(int, int)>
    decreases n,
{
    if n <= 0 {
        Seq::empty()
    } else {
        let c = visited(n - 1);
        let w = weight_at(data, at, c);
        if w != 0 {
            nonzeros(data, at, n - 1).push((c, w))
        } else {
            nonzeros(data, at, n - 1)
        }
    }
}

/// The entries of the first `rows` rows, each of `in_dim` weights.
pub open spec fn entries(data: Seq<u8>, in_dim: int, rows: int) -> Seq<(int, int)>
    decreases rows,
{
    if rows <= 0 {
        Seq::empty()
    } else {
        entries(data, in_dim, rows - 1) + nonzeros(data, (rows - 1) * (in_dim / 4), in_dim)
    }
}

/// Columns and signs hold entries.
pub open spec fn hold(cols: Seq<u16>, signs: Seq<i8>, list: Seq<(int, int)>) -> bool {
    &&& cols.len() == list.len()
    &&& signs.len() == list.len()
    &&& forall|i: int|
        0 <= i < list.len() ==> cols[i] == (#[trigger] list[i]).0 && signs[i] == list[i].1
}

/// `sw` holds the weights of a tensor without its zeros.
pub open spec fn is_sparse(sw: SparseWeight, w: TensorView<'_>) -> bool {
    &&& w.shape@.len() == 2
    &&& sw.in_dim == w.shape@[0]
    &&& sw.out_dim == w.shape@[1]
    &&& sw.scale == le32(w.scale_data->0@)
    &&& sw.row_starts@.len() == sw.out_dim + 1
    &&& forall|j: int|
        0 <= j <= sw.out_dim ==> #[trigger] sw.row_starts@[j] == entries(
            w.data@,
            sw.in_dim as int,
            j,
        ).len()
    &&& hold(sw.cols@, sw.signs@, entries(w.data@, sw.in_dim as int, sw.out_dim as int))
}

/// There are at most as many entries as weights.
proof fn lemma_nonzeros_are_few(data: Seq<u8>, at: int, n: int)
    requires
        0 <= n,
    ensures
        nonzeros(data, at, n).len() <= n,
    decreases n,
{
    if n > 0 {
        lemma_nonzeros_are_few(data, at, n - 1);
    }
}

/// There are at most as many entries as weights.
pub proof fn entries_are_few(data: Seq<u8>, in_dim: int, rows: int)
    requires
        0 <= rows,
        0 <= in_dim,
    ensures
        entries(data, in_dim, rows).len() <= in_dim * rows,
    decreases rows,
{
    if rows > 0 {
        entries_are_few(data, in_dim, rows - 1);
        lemma_nonzeros_are_few(data, (rows - 1) * (in_dim / 4), in_dim);
        assert(in_dim * (rows - 1) + in_dim == in_dim * rows) by (nonlinear_arith);
    } else {
        assert(in_dim * rows == 0) by (nonlinear_arith)
            requires
                rows == 0,
        ;
    }
}

/// Adds the entries of the row that starts at `at`.
fn append_row_nonzeros(
    data: &[u8],
    at: usize,
    in_dim: usize,
    cols: &mut Vec<u16>,
    signs: &mut Vec<i8>,
    Ghost(list): Ghost<Seq<(int, int)>>,
)
    requires
        in_dim % 128 == 0,
        in_dim <= u16::MAX,
        at + in_dim / 4 <= data.len(),
        hold(old(cols)@, old(signs)@, list),
    ensures
        hold(final(cols)@, final(signs)@, list + nonzeros(data@, at as int, in_dim as int)),
{
    let mut k: usize = 0;
    proof {
        assert(list + nonzeros(data@, at as int, 0) =~= list);
    }
    while k < in_dim
        invariant
            k <= in_dim,
            in_dim % 128 == 0,
            in_dim <= u16::MAX,
            at + in_dim / 4 <= data.len(),
            hold(cols@, signs@, list + nonzeros(data@, at as int, k as int)),
        decreases in_dim - k,
    {
        proof {
            lemma_visited_exists(k as int, in_dim as int);
        }
        let c: usize = visited_column(k);
        let ghost earlier = nonzeros(data@, at as int, k as int);
        let t: i8 = read_weight(data, at, c);
        if t != 0 {
            cols.push(c as u16);
            signs.push(t);
            proof {
                assert(list + earlier.push((c as int, t as int)) =~= (list + earlier).push(
                    (c as int, t as int),
                ));
            }
        }
        k = k + 1;
    }
}

/// Every column of a row's entries is one of the row.
proof fn lemma_columns_exist(data: Seq<u8>, at: int, in_dim: int, n: int)
    requires
        in_dim % 128 == 0,
        n <= in_dim,
    ensures
        forall|i: int|
            0 <= i < nonzeros(data, at, n).len() ==> 0 <= (#[trigger] nonzeros(data, at, n)[i]).0
                < in_dim,
    decreases n,
{
    if n > 0 {
        lemma_columns_exist(data, at, in_dim, n - 1);
        let earlier = nonzeros(data, at, n - 1);
        let all = nonzeros(data, at, n);
        lemma_visited_exists(n - 1, in_dim);
        assert forall|i: int| 0 <= i < all.len() implies 0 <= (#[trigger] all[i]).0 < in_dim by {
            if i < earlier.len() {
                assert(all[i] == earlier[i]);
            }
        }
    }
}

/// Every column of the entries exists, and rows follow one another.
proof fn lemma_entries_are_sound(data: Seq<u8>, in_dim: int, rows: int)
    requires
        in_dim >= 0,
        in_dim % 128 == 0,
    ensures
        forall|i: int|
            0 <= i < entries(data, in_dim, rows).len() ==> 0 <= (#[trigger] entries(
                data,
                in_dim,
                rows,
            )[i]).0 < in_dim,
    decreases rows,
{
    if rows > 0 {
        lemma_entries_are_sound(data, in_dim, rows - 1);
        let at = (rows - 1) * (in_dim / 4);
        lemma_columns_exist(data, at, in_dim, in_dim);
        let earlier = entries(data, in_dim, rows - 1);
        let all = entries(data, in_dim, rows);
        assert forall|i: int| 0 <= i < all.len() implies 0 <= (#[trigger] all[i]).0 < in_dim by {
            if i < earlier.len() {
                assert(all[i] == earlier[i]);
            } else {
                assert(all[i] == nonzeros(data, at, in_dim)[i - earlier.len()]);
            }
        }
    }
}

/// The entries of some rows start those of more rows.
proof fn lemma_entries_start(data: Seq<u8>, in_dim: int, j: int, rows: int)
    requires
        j <= rows,
    ensures
        entries(data, in_dim, j).len() <= entries(data, in_dim, rows).len(),
        entries(data, in_dim, j) == entries(data, in_dim, rows).take(
            entries(data, in_dim, j).len() as int,
        ),
    decreases rows - j,
{
    let part = entries(data, in_dim, j);
    if j < rows {
        if rows > 0 {
            lemma_entries_start(data, in_dim, j, rows - 1);
            assert(entries(data, in_dim, rows).take(part.len() as int) =~= entries(
                data,
                in_dim,
                rows - 1,
            ).take(part.len() as int));
        } else {
            assert(part =~= entries(data, in_dim, rows).take(0));
        }
    } else {
        assert(part =~= part.take(part.len() as int));
    }
}

impl SparseWeight {
    /// The weights of a tensor without its zeros.
    pub fn from_i2s(weight: &TensorView<'_>) -> (r: Result<Self, WillametteError>)
        requires
            weight.shape@.len() == 2 ==> weight.shape@[0] <= usize::MAX && weight.shape@[1]
                < usize::MAX,
            first(sparse_shape_fault(*weight), i2s_scale_fault(*weight)) is None ==> {
                &&& weight.shape@[0] as int / 4 * weight.shape@[1] <= weight.data@.len()
                &&& entries(
                    weight.data@,
                    weight.shape@[0] as int,
                    weight.shape@[1] as int,
                ).len() <= u32::MAX
            },
        ensures
            match r {
                Ok(sw) => {
                    &&& first(sparse_shape_fault(*weight), i2s_scale_fault(*weight)) is None
                    &&& is_sparse(sw, *weight)
                    &&& sw.wf()
                },
                Err(e) => first(sparse_shape_fault(*weight), i2s_scale_fault(*weight)) == Some(
                    e@,
                ),
            },
    {
        let (in_dim, out_dim) = match validate_i2s_2d(weight) {
            Ok(pair) => pair,
            Err(e) => {
                return Err(e);
            },
        };
        let scale: u32 = match weight.i2s_scale() {
            Ok(s) => s,
            Err(e) => {
                return Err(e);
            },
        };
        let bytes: usize = in_dim / 4;
        let mut row_starts: Vec<u32> = Vec::new();
        let mut cols: Vec<u16> = Vec::new();
        let mut signs: Vec<i8> = Vec::new();
        row_starts.push(0);
        let ghost data = weight.data@;
        let mut j: usize = 0;
        while j < out_dim
            invariant
                j <= out_dim < usize::MAX,
                bytes == in_dim / 4,
                in_dim % 128 == 0,
                0 < in_dim <= u16::MAX,
                bytes * out_dim <= weight.data.len(),
                entries(data, in_dim as int, out_dim as int).len() <= u32::MAX,
                data == weight.data@,
                row_starts@.len() == j + 1,
                forall|k: int|
                    0 <= k <= j ==> #[trigger] row_starts@[k] == entries(
                        data,
                        in_dim as int,
                        k,
                    ).len(),
                hold(cols@, signs@, entries(data, in_dim as int, j as int)),
            decreases out_dim - j,
        {
            proof {
                assert(0 <= j * bytes && j * bytes + bytes <= bytes * out_dim)
                    by (nonlinear_arith)
                    requires
                        0 <= j < out_dim,
                        0 <= bytes,
                ;
                lemma_entries_start(data, in_dim as int, j + 1, out_dim as int);
            }
            append_row_nonzeros(
                weight.data,
                j * bytes,
                in_dim,
                &mut cols,
                &mut signs,
                Ghost(entries(data, in_dim as int, j as int)),
            );
            row_starts.push(cols.len() as u32);
            j = j + 1;
        }
        let sw = SparseWeight { out_dim, in_dim, scale, row_starts, cols, signs };
        proof {
            assert forall|k: int| 0 <= k < out_dim implies (#[trigger] sw.row_starts@[k])
                <= sw.row_starts@[k + 1] && sw.row_starts@[k + 1] - sw.row_starts@[k]
                <= 0x1_0000 by {
                lemma_nonzeros_are_few(data, k * (in_dim as int / 4), in_dim as int);
                assert(sw.row_starts@[k + 1] == entries(data, in_dim as int, k + 1).len());
            }
            assert forall|k: int| 0 <= k <= out_dim implies (#[trigger] sw.row_starts@[k])
                <= sw.cols@.len() by {
                lemma_entries_start(data, in_dim as int, k, out_dim as int);
            }
            lemma_entries_are_sound(data, in_dim as int, out_dim as int);
            let all = entries(data, in_dim as int, out_dim as int);
            assert forall|i: int| 0 <= i < sw.cols@.len() implies (#[trigger] sw.cols@[i])
                < sw.in_dim by {
                assert(sw.cols@[i] == all[i].0);
            }
        }
        Ok(sw)
    }

    /// How many entries there are.
    pub fn nnz(&self) -> (n: usize)
        ensures
            n == self.cols@.len(),
    {
        self.cols.len()
    }
}

/// The entries from `from` to before `to`, each times its activation.
pub open spec fn entry_sum(
    cols: Seq<u16>,
    signs: Seq<i8>,
    act: Seq<i8>,
    from: int,
    to: int,
) -> int
    decreases to - from,
{
    if to <= from {
        0
    } else {
        entry_sum(cols, signs, act, from, to - 1) + signs[to - 1] * act[cols[to - 1] as int]
    }
}

/// The sum over one row.
fn row_sum(sw: &SparseWeight, act: &[i8], from: usize, to: usize) -> (s: i32)
    requires
        sw.wf(),
        act@.len() == sw.in_dim,
        from <= to <= sw.cols@.len(),
        to - from <= 0x1_0000,
    ensures
        s == entry_sum(sw.cols@, sw.signs@, act@, from as int, to as int),
{
    let mut sum: i32 = 0;
    let mut i: usize = from;
    while i < to
        invariant
            from <= i <= to <= sw.cols@.len(),
            to - from <= 0x1_0000,
            sw.wf(),
            act@.len() == sw.in_dim,
            sum == entry_sum(sw.cols@, sw.signs@, act@, from as int, i as int),
            -0x4000 * (i - from) <= sum <= 0x4000 * (i - from),
        decreases to - i,
    {
        let c: usize = sw.cols[i] as usize;
        let w: i32 = sw.signs[i] as i32;
        let a: i32 = act[c] as i32;
        proof {
            assert(-0x4000 <= w * a <= 0x4000) by (nonlinear_arith)
                requires
                    -128 <= w <= 127,
                    -128 <= a <= 127,
            ;
        }
        sum = sum + w * a;
        i = i + 1;
    }
    sum
}

/// What keeps activations from being multiplied with a tensor without its zeros.
pub open spec fn sparse_matvec_fault(sw: SparseWeight, act: int, out: int) -> Option<Fault> {
    first(
        len_fault("sparse_matvec_i8: act.len()="@, act, " != in_dim="@, sw.in_dim as int),
        len_fault("sparse_matvec_i8: out.len()="@, out, " != out_dim="@, sw.out_dim as int),
    )
}

/// The sums over all rows.
pub fn sparse_matvec_i8(sw: &SparseWeight, act: &[i8], out: usize) -> (r: Result<
    Vec<i32>,
    WillametteError,
>)
    requires
        sw.wf(),
    ensures
        match r {
            Ok(sums) => {
                &&& sparse_matvec_fault(*sw, act@.len() as int, out as int) is None
                &&& sums@.len() == sw.out_dim
                &&& forall|j: int|
                    0 <= j < sums@.len() ==> #[trigger] sums@[j] == entry_sum(
                        sw.cols@,
                        sw.signs@,
                        act@,
                        sw.row_starts@[j] as int,
                        sw.row_starts@[j + 1] as int,
                    )
            },
            Err(e) => sparse_matvec_fault(*sw, act@.len() as int, out as int) == Some(e@),
        },
{
    match check_len("sparse_matvec_i8: act.len()=", act.len(), " != in_dim=", sw.in_dim) {
        Ok(_) => {},
        Err(e) => {
            return Err(e);
        },
    }
    match check_len("sparse_matvec_i8: out.len()=", out, " != out_dim=", sw.out_dim) {
        Ok(_) => {},
        Err(e) => {
            return Err(e);
        },
    }
    let mut sums: Vec<i32> = Vec::new();
    let mut j: usize = 0;
    while j < sw.out_dim
        invariant
            j <= sw.out_dim,
            sw.wf(),
            act@.len() == sw.in_dim,
            sums@.len() == j,
            forall|k: int|
                0 <= k < j ==> #[trigger] sums@[k] == entry_sum(
                    sw.cols@,
                    sw.signs@,
                    act@,
                    sw.row_starts@[k] as int,
                    sw.row_starts@[k + 1] as int,
                ),
        decreases sw.out_dim - j,
    {
        proof {
            assert(sw.row_starts@[j as int] <= sw.row_starts@[j + 1]);
        }
        let from: usize = sw.row_starts[j] as usize;
        let to: usize = sw.row_starts[j + 1] as usize;
        sums.push(row_sum(sw, act, from, to));
        j = j + 1;
    }
    Ok(sums)
}

/// The sum over a list of entries.
spec fn list_sum(list: Seq<(int, int)>, act: Seq<i8>, n: int) -> int
    decreases n,
{
    if n <= 0 {
        0
    } else {
        list_sum(list, act, n - 1) + list[n - 1].1 * act[list[n - 1].0]
    }
}

/// The weights of the first `n` visited columns, each times its activation.
spec fn visited_sum(data: Seq<u8>, at: int, act: Seq<i8>, n: int) -> int
    decreases n,
{
    if n <= 0 {
        0
    } else {
        visited_sum(data, at, act, n - 1) + weight_at(data, at, visited(n - 1)) * act[visited(
            n - 1,
        )]
    }
}

proof fn lemma_list_sum_of_start(a: Seq<(int, int)>, b: Seq<(int, int)>, act: Seq<i8>, n: int)
    requires
        n <= a.len(),
        n <= b.len(),
        forall|i: int| 0 <= i < n ==> a[i] == #[trigger] b[i],
    ensures
        list_sum(a, act, n) == list_sum(b, act, n),
    decreases n,
{
    if n > 0 {
        assert(a[n - 1] == b[n - 1]);
        lemma_list_sum_of_start(a, b, act, n - 1);
    }
}

/// Leaving out zeros changes no sum.
proof fn lemma_zeros_add_nothing(data: Seq<u8>, at: int, act: Seq<i8>, n: int)
    ensures
        list_sum(nonzeros(data, at, n), act, nonzeros(data, at, n).len() as int) == visited_sum(
            data,
            at,
            act,
            n,
        ),
    decreases n,
{
    if n > 0 {
        lemma_zeros_add_nothing(data, at, act, n - 1);
        let earlier = nonzeros(data, at, n - 1);
        let all = nonzeros(data, at, n);
        let w = weight_at(data, at, visited(n - 1));
        if w != 0 {
            lemma_list_sum_of_start(earlier, all, act, earlier.len() as int);
        } else {
            assert(w * act[visited(n - 1)] == 0) by (nonlinear_arith)
                requires
                    w == 0,
            ;
        }
    }
}

/// One weight times its activation.
#[verifier::opaque]
spec fn term(data: Seq<u8>, at: int, act: Seq<i8>, c: int) -> int {
    weight_at(data, at, c) * act[c]
}

/// The next step of visiting.
proof fn lemma_visit(data: Seq<u8>, at: int, act: Seq<i8>, k: int, c: int)
    requires
        0 <= k,
        visited(k) == c,
    ensures
        visited_sum(data, at, act, k + 1) == visited_sum(data, at, act, k) + term(
            data,
            at,
            act,
            c,
        ),
{
    reveal(term);
}

/// The next step of a product.
proof fn lemma_dot_step(data: Seq<u8>, at: int, act: Seq<i8>, from: int, to: int)
    requires
        from < to,
    ensures
        dot(data, at, act, from, to) == dot(data, at, act, from, to - 1) + term(
            data,
            at,
            act,
            to - 1,
        ),
{
    reveal(term);
}

/// Four neighbours in the order of visiting are one step in each of the four
/// quarters of a block.
proof fn lemma_visiting_a_block(data: Seq<u8>, at: int, act: Seq<i8>, b: int, g: int)
    requires
        0 <= b,
        0 <= g <= 32,
    ensures
        visited_sum(data, at, act, 128 * b + 4 * g) == visited_sum(data, at, act, 128 * b) + dot(
            data,
            at,
            act,
            128 * b,
            128 * b + g,
        ) + dot(data, at, act, 128 * b + 32, 128 * b + 32 + g) + dot(
            data,
            at,
            act,
            128 * b + 64,
            128 * b + 64 + g,
        ) + dot(data, at, act, 128 * b + 96, 128 * b + 96 + g),
    decreases g,
{
    if g > 0 {
        lemma_visiting_a_block(data, at, act, b, g - 1);
        let k = 128 * b + 4 * (g - 1);
        let c = 128 * b + g - 1;
        lemma_visited_byte(b, g - 1);
        lemma_visit(data, at, act, k, c);
        lemma_visit(data, at, act, k + 1, c + 32);
        lemma_visit(data, at, act, k + 2, c + 64);
        lemma_visit(data, at, act, k + 3, c + 96);
        lemma_dot_step(data, at, act, 128 * b, c + 1);
        lemma_dot_step(data, at, act, 128 * b + 32, c + 33);
        lemma_dot_step(data, at, act, 128 * b + 64, c + 65);
        lemma_dot_step(data, at, act, 128 * b + 96, c + 97);
    }
}

/// The order of visiting changes no sum.
proof fn lemma_visiting_order(data: Seq<u8>, at: int, act: Seq<i8>, b: int)
    requires
        0 <= b,
    ensures
        visited_sum(data, at, act, 128 * b) == dot(data, at, act, 0, 128 * b),
    decreases b,
{
    if b > 0 {
        let c = b - 1;
        lemma_visiting_order(data, at, act, c);
        lemma_visiting_a_block(data, at, act, c, 32);
        lemma_dot_joins(data, at, act, 0, 128 * c, 128 * c + 32);
        lemma_dot_joins(data, at, act, 0, 128 * c + 32, 128 * c + 64);
        lemma_dot_joins(data, at, act, 0, 128 * c + 64, 128 * c + 96);
        lemma_dot_joins(data, at, act, 0, 128 * c + 96, 128 * c + 128);
    }
}

/// A stretch of columns and signs sums up as the list that it holds.
proof fn lemma_entry_sum(
    cols: Seq<u16>,
    signs: Seq<i8>,
    act: Seq<i8>,
    from: int,
    list: Seq<(int, int)>,
    n: int,
)
    requires
        0 <= from,
        0 <= n <= list.len(),
        from + n <= cols.len(),
        from + n <= signs.len(),
        forall|i: int|
            0 <= i < n ==> cols[from + i] == (#[trigger] list[i]).0 && signs[from + i]
                == list[i].1,
    ensures
        entry_sum(cols, signs, act, from, from + n) == list_sum(list, act, n),
    decreases n,
{
    if n > 0 {
        lemma_entry_sum(cols, signs, act, from, list, n - 1);
        assert(cols[from + n - 1] == list[n - 1].0 && signs[from + n - 1] == list[n - 1].1);
    }
}

/// Leaving out the zeros of a tensor changes none of its products: the sum over
/// the entries of a row is the product of the whole row.
pub proof fn sparse_rows_give_the_same_sums(
    sw: SparseWeight,
    w: TensorView<'_>,
    act: Seq<i8>,
    j: int,
)
    requires
        is_sparse(sw, w),
        sw.in_dim % 128 == 0,
        0 <= j < sw.out_dim,
    ensures
        entry_sum(
            sw.cols@,
            sw.signs@,
            act,
            sw.row_starts@[j] as int,
            sw.row_starts@[j + 1] as int,
        ) == dot(w.data@, j * (sw.in_dim as int / 4), act, 0, sw.in_dim as int),
{
    let data = w.data@;
    let n = sw.in_dim as int;
    let at = j * (n / 4);
    let row = nonzeros(data, at, n);
    let from = sw.row_starts@[j] as int;
    let all = entries(data, n, sw.out_dim as int);
    let upto = entries(data, n, j + 1);
    assert(from == entries(data, n, j).len());
    assert(sw.row_starts@[j + 1] == upto.len());
    lemma_entries_start(data, n, j + 1, sw.out_dim as int);
    assert forall|i: int| 0 <= i < row.len() implies sw.cols@[from + i] == (#[trigger] row[i]).0
        && sw.signs@[from + i] == row[i].1 by {
        assert(upto[from + i] == row[i]);
        assert(all[from + i] == upto[from + i]);
    }
    lemma_entry_sum(sw.cols@, sw.signs@, act, from, row, row.len() as int);
    lemma_zeros_add_nothing(data, at, act, n);
    lemma_visiting_order(data, at, act, n / 128);
}

} // verus!
