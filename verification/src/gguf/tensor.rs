//! One tensor of a GGUF file, and how many bytes a shape takes.

use crate::error::{Fault, WillametteError};
use crate::gguf::bytes::le32;
use crate::gguf::layout::tensor_bytes;
use crate::gguf::types::{raw_of_type, ggml_name, GgmlType};
use crate::text::{
    cat2, cat3, cat4, cat5, cat6, cat7, dec, decimal, hex, hexadecimal, join, joined, numerals,
    owned, pad_right, padded_right, quote, quoted, views,
};
use vstd::arithmetic::mul::*;
use vstd::prelude::*;

verus! {

/// The product of a list of dimensions.
pub open spec fn product(shape: Seq<u64>) -> int
    decreases shape.len(),
{
    if shape.len() == 0 {
        1
    } else {
        product(shape.drop_last()) * shape.last()
    }
}

/// The first dimension whose multiplication leaves 64 bits, when the
/// dimensions are multiplied one after the other.
pub open spec fn product_fault(shape: Seq<u64>) -> Option<u64>
    decreases shape.len(),
{
    if shape.len() == 0 {
        None
    } else if product_fault(shape.drop_last()) is Some {
        product_fault(shape.drop_last())
    } else if product(shape) > u64::MAX {
        Some(shape.last())
    } else {
        None
    }
}

/// Multiplying the dimensions one after the other never leaves 64 bits.
pub open spec fn products_fit(shape: Seq<u64>) -> bool {
    product_fault(shape) is None
}

/// A list of dimensions as it stands between brackets in a listing.
pub open spec fn shape_text(shape: Seq<u64>) -> Seq<char> {
    joined(numerals(shape), ", "@)
}

/// The exponent field of a single-precision bit pattern is not all ones.
pub open spec fn finite_bits(bits: u32) -> bool {
    bits / 0x80_0000 % 0x100 != 0xff
}

/// What a non-finite single-precision bit pattern is called.
pub open spec fn non_finite_text(bits: u32) -> Seq<char> {
    if bits % 0x80_0000 != 0 {
        "NaN"@
    } else if bits >= 0x8000_0000 {
        "-inf"@
    } else {
        "inf"@
    }
}



/// What is wrong with a shape for a block layout: rows hold whole blocks, and
/// the bytes of all rows can be counted in 64 bits.
pub open spec fn block_fault(
    shape: Seq<u64>,
    elements: u64,
    bytes: u64,
    label: Seq<char>,
) -> Option<Seq<char>> {
    if shape.len() == 0 {
        Some(label + " tensor has no dimensions"@)
    } else if shape[0] % elements != 0 {
        Some(
            label + " row length "@ + dec(shape[0] as int) + " is not a multiple of "@ + dec(
                elements as int,
            ),
        )
    } else if !products_fit(shape) || product(shape) / (elements as int) * bytes > u64::MAX {
        Some(label + " byte length overflow"@)
    } else {
        None
    }
}

/// The bytes of a shape whose rows are made of blocks.
pub open spec fn block_bytes(shape: Seq<u64>, elements: u64, bytes: u64) -> int {
    product(shape) / (elements as int) * bytes
}

/// A product without a zero factor is at least each of its prefixes.
pub(crate) proof fn lemma_product_nonneg(shape: Seq<u64>)
    ensures
        product(shape) >= 0,
    decreases shape.len(),
{
    if shape.len() > 0 {
        lemma_product_nonneg(shape.drop_last());
        assert(product(shape.drop_last()) * shape.last() >= 0) by (nonlinear_arith)
            requires
                product(shape.drop_last()) >= 0,
                shape.last() >= 0,
        ;
    }
}

/// A product that fits is at most what 64 bits hold.
pub(crate) proof fn lemma_product_fits(shape: Seq<u64>)
    requires
        products_fit(shape),
    ensures
        0 <= product(shape) <= u64::MAX,
{
    lemma_product_nonneg(shape);
}

/// The product of the first `k + 1` dimensions in terms of the first `k`.
pub(crate) proof fn lemma_product_step(shape: Seq<u64>, k: int)
    requires
        0 <= k < shape.len(),
    ensures
        product(shape.take(k + 1)) == product(shape.take(k)) * shape[k],
        product_fault(shape.take(k)) is Some ==> product_fault(shape.take(k + 1))
            == product_fault(shape.take(k)),
        product_fault(shape.take(k)) is None ==> product_fault(shape.take(k + 1)) == (if product(
            shape.take(k + 1),
        ) > u64::MAX {
            Some(shape[k])
        } else {
            None
        }),
{
    assert(shape.take(k + 1).drop_last() =~= shape.take(k));
    assert(shape.take(k + 1).last() == shape[k]);
}

/// A multiplication that failed early has failed for the whole list.
pub(crate) proof fn lemma_product_fault_stays(shape: Seq<u64>, k: int)
    requires
        0 <= k <= shape.len(),
        product_fault(shape.take(k)) is Some,
    ensures
        product_fault(shape) == product_fault(shape.take(k)),
    decreases shape.len() - k,
{
    if k < shape.len() {
        lemma_product_step(shape, k);
        lemma_product_fault_stays(shape, k + 1);
    } else {
        assert(shape.take(k) =~= shape);
    }
}

/// A tensor stored in a GGUF file, as a view of the bytes that hold it.
///
/// For I2_S tensors `data` holds the packed codes alone. The block of 32
/// bytes behind them, whose first four bytes are the scale, is `scale_data`.
#[derive(Debug)]
pub struct TensorView<'a> {
    /// The name in the tensor directory.
    pub name: String,
    /// The dimensions, innermost first.
    pub shape: Vec<u64>,
    /// How the elements are stored.
    pub ggml_type: GgmlType,
    /// Where the data starts, from the start of the file.
    pub offset: u64,
    /// How many bytes the data takes, without the scale block of I2_S.
    pub byte_len: u64,
    /// The bytes themselves.
    pub data: &'a [u8],
    /// The scale block of an I2_S tensor.
    pub scale_data: Option<&'a [u8]>,
}

/// Multiplies dimensions, or gives the one at which 64 bits no longer hold
/// the product.
pub(crate) fn checked_product(shape: &[u64]) -> (r: Result<u64, u64>)
    ensures
        match r {
            Ok(n) => product_fault(shape@) is None && n == product(shape@),
            Err(d) => product_fault(shape@) == Some(d),
        },
{
    let mut n: u64 = 1;
    let mut i: usize = 0;
    proof {
        assert(shape@.take(0) =~= Seq::empty());
    }
    while i < shape.len()
        invariant
            i <= shape.len(),
            n == product(shape@.take(i as int)),
            product_fault(shape@.take(i as int)) is None,
        decreases shape.len() - i,
    {
        proof {
            lemma_product_step(shape@, i as int);
        }
        match n.checked_mul(shape[i]) {
            Some(m) => {
                n = m;
            },
            None => {
                proof {
                    lemma_product_fault_stays(shape@, i + 1);
                }
                return Err(shape[i]);
            },
        }
        i = i + 1;
    }
    proof {
        assert(shape@.take(shape@.len() as int) =~= shape@);
    }
    Ok(n)
}

/// The bytes of a shape whose rows are made of blocks.
pub(crate) fn block_byte_len(
    shape: &[u64],
    elements: u64,
    bytes: u64,
    label: &str,
) -> (r: Result<u64, WillametteError>)
    requires
        elements > 0,
    ensures
        match r {
            Ok(n) => block_fault(shape@, elements, bytes, label@) is None && n == block_bytes(
                shape@,
                elements,
                bytes,
            ),
            Err(e) => block_fault(shape@, elements, bytes, label@) is Some && e@
                == Fault::GgufParse(block_fault(shape@, elements, bytes, label@)->0),
        },
{
    if shape.len() == 0 {
        return Err(WillametteError::GgufParse(cat2(label, " tensor has no dimensions")));
    }
    if shape[0] % elements != 0 {
        let row = decimal(shape[0]);
        let block = decimal(elements);
        return Err(
            WillametteError::GgufParse(
                cat5(
                    label,
                    " row length ",
                    row.as_str(),
                    " is not a multiple of ",
                    block.as_str(),
                ),
            ),
        );
    }
    match checked_product(shape) {
        Ok(n) => match (n / elements).checked_mul(bytes) {
            Some(total) => Ok(total),
            None => Err(WillametteError::GgufParse(cat2(label, " byte length overflow"))),
        },
        Err(_) => Err(WillametteError::GgufParse(cat2(label, " byte length overflow"))),
    }
}

/// Whether a single-precision bit pattern stands for a finite number.
pub fn is_finite_bits(bits: u32) -> (b: bool)
    ensures
        b == finite_bits(bits),
{
    bits / 0x80_0000 % 0x100 != 0xff
}

/// What a non-finite bit pattern is called.
pub(crate) fn non_finite_name(bits: u32) -> (s: String)
    ensures
        s@ == non_finite_text(bits),
{
    if bits % 0x80_0000 != 0 {
        owned("NaN")
    } else if bits >= 0x8000_0000 {
        owned("-inf")
    } else {
        owned("inf")
    }
}

/// What is wrong with a shape for the I2_S layout.
pub open spec fn i2s_shape_fault(shape: Seq<u64>) -> Option<Fault> {
    if product(shape) % 128 != 0 {
        Some(
            Fault::GgufParse(
                "I2_S tensor shape product "@ + dec(product(shape))
                    + " is not a multiple of QK_I2_S="@ + dec(128)
                    + " — block-misaligned tensors are unsupported"@,
            ),
        )
    } else {
        None
    }
}

/// What keeps a tensor from having an I2_S scale.
pub open spec fn i2s_scale_fault(t: TensorView<'_>) -> Option<Fault> {
    if t.ggml_type != GgmlType::BitNetI2S {
        Some(
            Fault::GgufParse(
                "i2s_scale called on tensor "@ + quoted(t.name@) + " which is "@ + ggml_name(
                    t.ggml_type,
                ) + " (raw "@ + dec(raw_of_type(t.ggml_type) as int) + "), not I2_S"@,
            ),
        )
    } else if t.scale_data is None {
        Some(
            Fault::GgufParse(
                "i2s_scale: tensor "@ + quoted(t.name@)
                    + " has no scale_data set (was the reader updated?)"@,
            ),
        )
    } else if t.scale_data->0@.len() < 4 {
        Some(
            Fault::GgufParse(
                "i2s_scale: scale_data for "@ + quoted(t.name@) + " too short ("@ + dec(
                    t.scale_data->0@.len() as int,
                ) + " bytes, need ≥ 4)"@,
            ),
        )
    } else if !finite_bits(le32(t.scale_data->0@) as u32) {
        Some(
            Fault::GgufParse(
                "i2s_scale: non-finite scale ("@ + non_finite_text(
                    le32(t.scale_data->0@) as u32,
                ) + ") for tensor "@ + quoted(t.name@),
            ),
        )
    } else {
        None
    }
}

/// What a stored length that does not fit its type and shape is told.
pub open spec fn byte_len_fault(t: TensorView<'_>) -> Option<Fault> {
    let n = product(t.shape@);
    if t.ggml_type == GgmlType::BitNetI2S {
        if n % 128 != 0 {
            i2s_shape_fault(t.shape@)
        } else if t.byte_len != n / 4 {
            Some(
                Fault::GgufParse(
                    "tensor "@ + quoted(t.name@) + " (I2_S): byte_len "@ + dec(t.byte_len as int)
                        + " != expected "@ + dec(n / 4) + " (= n_elements / 4 = "@ + dec(n / 4)
                        + ")"@,
                ),
            )
        } else {
            None
        }
    } else if t.ggml_type == GgmlType::F32 && t.byte_len != n * 4 {
        Some(
            Fault::GgufParse(
                "tensor "@ + quoted(t.name@) + " (F32): byte_len "@ + dec(t.byte_len as int)
                    + " != n_elements*4 = "@ + dec(n * 4),
            ),
        )
    } else if t.ggml_type == GgmlType::F16 && t.byte_len != n * 2 {
        Some(
            Fault::GgufParse(
                "tensor "@ + quoted(t.name@) + " (F16): byte_len "@ + dec(t.byte_len as int)
                    + " != n_elements*2 = "@ + dec(n * 2),
            ),
        )
    } else {
        None
    }
}

impl<'a> TensorView<'a> {
    /// Ternary elements in one packed I2_S block.
    pub const I2S_ELEMENTS_PER_BLOCK: u64 = 128;

    /// Bytes of one packed I2_S block.
    pub const I2S_PACKED_BYTES_PER_BLOCK: u64 = 32;

    /// Bytes behind the packed codes of an I2_S tensor: a scale and padding.
    pub const I2S_TRAILING_SCALE_BLOCK_BYTES: u64 = 32;

    /// Values in one Q4_0 block.
    pub const Q4_0_ELEMENTS_PER_BLOCK: u64 = 32;

    /// Bytes of one Q4_0 block.
    pub const Q4_0_BYTES_PER_BLOCK: u64 = 18;

    /// Values in one Q8_0 block.
    pub const Q8_0_ELEMENTS_PER_BLOCK: u64 = 32;

    /// Bytes of one Q8_0 block.
    pub const Q8_0_BYTES_PER_BLOCK: u64 = 34;

    /// Values in one Q4_K block.
    pub const Q4K_ELEMENTS_PER_BLOCK: u64 = 256;

    /// Bytes of one Q4_K block.
    pub const Q4K_BYTES_PER_BLOCK: u64 = 144;

    /// Values in one Q6_K block.
    pub const Q6K_ELEMENTS_PER_BLOCK: u64 = 256;

    /// Bytes of one Q6_K block.
    pub const Q6K_BYTES_PER_BLOCK: u64 = 210;

    /// How many elements the tensor has.
    pub fn n_elements(&self) -> (n: u64)
        requires
            products_fit(self.shape@),
        ensures
            n == product(self.shape@),
    {
        match checked_product(self.shape.as_slice()) {
            Ok(n) => n,
            Err(_) => 0,
        }
    }

    /// One line for a listing of tensors.
    pub fn summary(&self) -> (line: String)
        ensures
            line@ == padded_right(self.name@, 50) + " dtype="@ + padded_right(
                ggml_name(self.ggml_type),
                16,
            ) + " shape=["@ + shape_text(self.shape@) + "]  offset=0x"@ + hex(self.offset as int)
                + "  bytes="@ + dec(self.byte_len as int),
    {
        let name = pad_right(self.name.as_str(), 50);
        let type_text = self.ggml_type.name();
        let dtype = pad_right(type_text.as_str(), 16);
        let shape = list_dimensions(self.shape.as_slice());
        let offset = hexadecimal(self.offset);
        let bytes = decimal(self.byte_len);
        let start = cat4(name.as_str(), " dtype=", dtype.as_str(), " shape=[");
        cat6(
            start.as_str(),
            shape.as_str(),
            "]  offset=0x",
            offset.as_str(),
            "  bytes=",
            bytes.as_str(),
        )
    }

    /// The bytes of the packed codes of an I2_S tensor: a quarter of a byte
    /// for each element, in whole blocks.
    pub fn i2s_expected_byte_len(shape: &[u64]) -> (r: Result<u64, WillametteError>)
        requires
            products_fit(shape@),
        ensures
            match r {
                Ok(n) => i2s_shape_fault(shape@) is None && n == product(shape@) / 4 && n * 4 == product(
                    shape@,
                ),
                Err(e) => i2s_shape_fault(shape@) == Some(e@),
            },
    {
        let n: u64 = match checked_product(shape) {
            Ok(n) => n,
            Err(_) => 0,
        };
        if n % TensorView::I2S_ELEMENTS_PER_BLOCK != 0 {
            let number = decimal(n);
            let block = decimal(TensorView::I2S_ELEMENTS_PER_BLOCK);
            return Err(
                WillametteError::GgufParse(
                    cat5(
                        "I2_S tensor shape product ",
                        number.as_str(),
                        " is not a multiple of QK_I2_S=",
                        block.as_str(),
                        " — block-misaligned tensors are unsupported",
                    ),
                ),
            );
        }
        Ok(n / 4)
    }

    /// The bytes of an I2_S tensor in a file, scale block included.
    pub fn i2s_total_disk_bytes(shape: &[u64]) -> (r: Result<u64, WillametteError>)
        requires
            products_fit(shape@),
        ensures
            match r {
                Ok(n) => i2s_shape_fault(shape@) is None && n == product(shape@) / 4 + 32 && (n - 32)
                    * 4 == product(shape@),
                Err(e) => i2s_shape_fault(shape@) == Some(e@),
            },
    {
        match TensorView::i2s_expected_byte_len(shape) {
            Ok(n) => {
                proof {
                    lemma_product_fits(shape@);
                }
                Ok(n + TensorView::I2S_TRAILING_SCALE_BLOCK_BYTES)
            },
            Err(e) => Err(e),
        }
    }

    /// Where the scale of an I2_S tensor stands in the file.
    pub fn i2s_scale_file_offset(&self) -> (r: Option<u64>)
        requires
            self.ggml_type == GgmlType::BitNetI2S ==> self.offset + self.byte_len <= u64::MAX,
        ensures
            r == (if self.ggml_type == GgmlType::BitNetI2S {
                Some((self.offset + self.byte_len) as u64)
            } else {
                None
            }),
    {
        if self.ggml_type == GgmlType::BitNetI2S {
            Some(self.offset + self.byte_len)
        } else {
            None
        }
    }

    /// The bits of the single-precision scale of an I2_S tensor.
    pub fn i2s_scale(&self) -> (r: Result<u32, WillametteError>)
        ensures
            match r {
                Ok(bits) => i2s_scale_fault(*self) is None && bits == le32(
                    self.scale_data->0@,
                ),
                Err(e) => i2s_scale_fault(*self) == Some(e@),
            },
    {
        if self.ggml_type != GgmlType::BitNetI2S {
            let name = quote(self.name.as_str());
            let dtype = self.ggml_type.name();
            let raw = decimal(self.ggml_type.to_raw() as u64);
            return Err(
                WillametteError::GgufParse(
                    cat7(
                        "i2s_scale called on tensor ",
                        name.as_str(),
                        " which is ",
                        dtype.as_str(),
                        " (raw ",
                        raw.as_str(),
                        "), not I2_S",
                    ),
                ),
            );
        }
        let block: &[u8] = match self.scale_data {
            Some(block) => block,
            None => {
                let name = quote(self.name.as_str());
                return Err(
                    WillametteError::GgufParse(
                        cat3(
                            "i2s_scale: tensor ",
                            name.as_str(),
                            " has no scale_data set (was the reader updated?)",
                        ),
                    ),
                );
            },
        };
        if block.len() < 4 {
            let name = quote(self.name.as_str());
            let size = decimal(block.len() as u64);
            return Err(
                WillametteError::GgufParse(
                    cat5(
                        "i2s_scale: scale_data for ",
                        name.as_str(),
                        " too short (",
                        size.as_str(),
                        " bytes, need ≥ 4)",
                    ),
                ),
            );
        }
        let bits: u32 = block[0] as u32 + 0x100 * (block[1] as u32) + 0x1_0000 * (block[2] as u32)
            + 0x100_0000 * (block[3] as u32);
        if !is_finite_bits(bits) {
            let name = quote(self.name.as_str());
            let value = non_finite_name(bits);
            return Err(
                WillametteError::GgufParse(
                    cat4(
                        "i2s_scale: non-finite scale (",
                        value.as_str(),
                        ") for tensor ",
                        name.as_str(),
                    ),
                ),
            );
        }
        Ok(bits)
    }

    /// The bytes of a shape in Q4_0.
    pub fn q4_0_expected_byte_len(shape: &[u64]) -> (r: Result<u64, WillametteError>)
        ensures
            match r {
                Ok(n) => block_fault(shape@, 32, 18, "Q4_0"@) is None && n == block_bytes(
                    shape@,
                    32,
                    18,
                ),
                Err(e) => block_fault(shape@, 32, 18, "Q4_0"@) is Some && e@ == Fault::GgufParse(
                    block_fault(shape@, 32, 18, "Q4_0"@)->0,
                ),
            },
            r matches Ok(n) ==> tensor_bytes(shape@, GgmlType::Q4_0) == Ok::<Option<int>, Seq<char>>(
                Some(n as int),
            ),
    {
        block_byte_len(shape, 32, 18, "Q4_0")
    }

    /// The bytes of a shape in Q8_0.
    pub fn q8_0_expected_byte_len(shape: &[u64]) -> (r: Result<u64, WillametteError>)
        ensures
            match r {
                Ok(n) => block_fault(shape@, 32, 34, "Q8_0"@) is None && n == block_bytes(
                    shape@,
                    32,
                    34,
                ),
                Err(e) => block_fault(shape@, 32, 34, "Q8_0"@) is Some && e@ == Fault::GgufParse(
                    block_fault(shape@, 32, 34, "Q8_0"@)->0,
                ),
            },
            r matches Ok(n) ==> tensor_bytes(shape@, GgmlType::Q8_0) == Ok::<Option<int>, Seq<char>>(
                Some(n as int),
            ),
    {
        block_byte_len(shape, 32, 34, "Q8_0")
    }

    /// The bytes of a shape in Q4_K.
    pub fn q4k_expected_byte_len(shape: &[u64]) -> (r: Result<u64, WillametteError>)
        ensures
            match r {
                Ok(n) => block_fault(shape@, 256, 144, "Q4_K"@) is None && n == block_bytes(
                    shape@,
                    256,
                    144,
                ),
                Err(e) => block_fault(shape@, 256, 144, "Q4_K"@) is Some && e@
                    == Fault::GgufParse(block_fault(shape@, 256, 144, "Q4_K"@)->0),
            },
            r matches Ok(n) ==> tensor_bytes(shape@, GgmlType::Q4K) == Ok::<Option<int>, Seq<char>>(
                Some(n as int),
            ),
    {
        block_byte_len(shape, 256, 144, "Q4_K")
    }

    /// The bytes of a shape in Q6_K.
    pub fn q6k_expected_byte_len(shape: &[u64]) -> (r: Result<u64, WillametteError>)
        ensures
            match r {
                Ok(n) => block_fault(shape@, 256, 210, "Q6_K"@) is None && n == block_bytes(
                    shape@,
                    256,
                    210,
                ),
                Err(e) => block_fault(shape@, 256, 210, "Q6_K"@) is Some && e@
                    == Fault::GgufParse(block_fault(shape@, 256, 210, "Q6_K"@)->0),
            },
            r matches Ok(n) ==> tensor_bytes(shape@, GgmlType::Q6K) == Ok::<Option<int>, Seq<char>>(
                Some(n as int),
            ),
    {
        block_byte_len(shape, 256, 210, "Q6_K")
    }

    /// Compares the stored length with the one that type and shape imply.
    /// Types other than I2_S, F32 and F16 are taken as they are.
    pub fn verify_byte_len(&self) -> (r: Result<(), WillametteError>)
        requires
            self.ggml_type == GgmlType::BitNetI2S ==> products_fit(self.shape@),
            self.ggml_type == GgmlType::F32 ==> products_fit(self.shape@) && product(self.shape@)
                * 4 <= u64::MAX,
            self.ggml_type == GgmlType::F16 ==> products_fit(self.shape@) && product(self.shape@)
                * 2 <= u64::MAX,
        ensures
            match r {
                Ok(_) => byte_len_fault(*self) is None,
                Err(e) => byte_len_fault(*self) == Some(e@),
            },
    {
        match self.ggml_type {
            GgmlType::BitNetI2S => {
                let expected: u64 = match TensorView::i2s_expected_byte_len(self.shape.as_slice()) {
                    Ok(n) => n,
                    Err(e) => {
                        return Err(e);
                    },
                };
                if self.byte_len != expected {
                    let name = quote(self.name.as_str());
                    let found = decimal(self.byte_len);
                    let wanted = decimal(expected);
                    let quarter = decimal(self.n_elements() / 4);
                    let start = cat6(
                        "tensor ",
                        name.as_str(),
                        " (I2_S): byte_len ",
                        found.as_str(),
                        " != expected ",
                        wanted.as_str(),
                    );
                    return Err(
                        WillametteError::GgufParse(
                            cat4(
                                start.as_str(),
                                " (= n_elements / 4 = ",
                                quarter.as_str(),
                                ")",
                            ),
                        ),
                    );
                }
                Ok(())
            },
            GgmlType::F32 => {
                let expected: u64 = self.n_elements() * 4;
                if self.byte_len != expected {
                    let name = quote(self.name.as_str());
                    let found = decimal(self.byte_len);
                    let wanted = decimal(expected);
                    return Err(
                        WillametteError::GgufParse(
                            cat6(
                                "tensor ",
                                name.as_str(),
                                " (F32): byte_len ",
                                found.as_str(),
                                " != n_elements*4 = ",
                                wanted.as_str(),
                            ),
                        ),
                    );
                }
                Ok(())
            },
            GgmlType::F16 => {
                let expected: u64 = self.n_elements() * 2;
                if self.byte_len != expected {
                    let name = quote(self.name.as_str());
                    let found = decimal(self.byte_len);
                    let wanted = decimal(expected);
                    return Err(
                        WillametteError::GgufParse(
                            cat6(
                                "tensor ",
                                name.as_str(),
                                " (F16): byte_len ",
                                found.as_str(),
                                " != n_elements*2 = ",
                                wanted.as_str(),
                            ),
                        ),
                    );
                }
                Ok(())
            },
            _ => Ok(()),
        }
    }
}

/// Writes dimensions with commas between them.
fn list_dimensions(shape: &[u64]) -> (s: String)
    ensures
        s@ == shape_text(shape@),
{
    let mut parts: Vec<String> = Vec::new();
    let mut i: usize = 0;
    while i < shape.len()
        invariant
            i <= shape.len(),
            views(parts@) =~= numerals(shape@.take(i as int)),
        decreases shape.len() - i,
    {
        let ghost earlier = parts@;
        parts.push(decimal(shape[i]));
        proof {
            assert(views(parts@) =~= views(earlier).push(dec(shape@[i as int] as int)));
            assert(numerals(shape@.take(i + 1)) =~= numerals(shape@.take(i as int)).push(
                dec(shape@[i as int] as int),
            ));
        }
        i = i + 1;
    }
    proof {
        assert(shape@.take(shape@.len() as int) =~= shape@);
    }
    join(&parts, ", ")
}

/// An I2_S tensor in a file takes exactly one scale block more than its codes.
pub proof fn i2s_footprint_adds_the_scale_block(shape: Seq<u64>)
    requires
        i2s_shape_fault(shape) is None,
    ensures
        product(shape) / 4 + 32 == product(shape) / 128 * 32 + 32,
{
}

} // verus!
