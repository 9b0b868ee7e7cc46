//! Type tags of tensors and of metadata values.

use crate::text::{cat3, dec, decimal, owned};
use vstd::prelude::*;

verus! {

/// How the elements of a tensor are stored.
#[allow(non_camel_case_types)]
#[derive(Debug, Clone, Copy, PartialEq, Eq, Hash, Structural)]
pub enum GgmlType {
    F32,
    F16,
    Q4_0,
    Q4_1,
    Q5_0,
    Q5_1,
    Q8_0,
    Q8_1,
    Q2K,
    Q3K,
    Q4K,
    Q5K,
    Q6K,
    Q8K,
    IQ2XXS,
    IQ2XS,
    IQ3XXS,
    IQ1S,
    IQ4NL,
    IQ3S,
    IQ2S,
    IQ4XS,
    I8,
    I16,
    I32,
    I64,
    F64,
    IQ1M,
    BF16,
    /// Ternary weights, two bits each, 128 of them in a block of 32 bytes.
    BitNetI2S,
    /// Signed 8-bit activations.
    BitNetI8S,
    /// The TL1 layout.
    BitNetTL1,
    /// The TL2 layout.
    BitNetTL2,
    /// A tag that names none of the types above.
    Unknown(u32),
}

/// The type that a tag names.
pub open spec fn type_of_raw(raw: u32) -> GgmlType {
    match raw {
        0 => GgmlType::F32,
        1 => GgmlType::F16,
        2 => GgmlType::Q4_0,
        3 => GgmlType::Q4_1,
        6 => GgmlType::Q5_0,
        7 => GgmlType::Q5_1,
        8 => GgmlType::Q8_0,
        9 => GgmlType::Q8_1,
        10 => GgmlType::Q2K,
        11 => GgmlType::Q3K,
        12 => GgmlType::Q4K,
        13 => GgmlType::Q5K,
        14 => GgmlType::Q6K,
        15 => GgmlType::Q8K,
        16 => GgmlType::IQ2XXS,
        17 => GgmlType::IQ2XS,
        18 => GgmlType::IQ3XXS,
        19 => GgmlType::IQ1S,
        20 => GgmlType::IQ4NL,
        21 => GgmlType::IQ3S,
        22 => GgmlType::IQ2S,
        23 => GgmlType::IQ4XS,
        24 => GgmlType::I8,
        25 => GgmlType::I16,
        26 => GgmlType::I32,
        27 => GgmlType::I64,
        28 => GgmlType::F64,
        29 => GgmlType::IQ1M,
        30 => GgmlType::BF16,
        36 => GgmlType::BitNetI2S,
        37 => GgmlType::BitNetI8S,
        38 => GgmlType::BitNetTL1,
        39 => GgmlType::BitNetTL2,
        other => GgmlType::Unknown(other),
    }
}

/// The tag of a type.
pub open spec fn raw_of_type(t: GgmlType) -> u32 {
    match t {
        GgmlType::F32 => 0,
        GgmlType::F16 => 1,
        GgmlType::Q4_0 => 2,
        GgmlType::Q4_1 => 3,
        GgmlType::Q5_0 => 6,
        GgmlType::Q5_1 => 7,
        GgmlType::Q8_0 => 8,
        GgmlType::Q8_1 => 9,
        GgmlType::Q2K => 10,
        GgmlType::Q3K => 11,
        GgmlType::Q4K => 12,
        GgmlType::Q5K => 13,
        GgmlType::Q6K => 14,
        GgmlType::Q8K => 15,
        GgmlType::IQ2XXS => 16,
        GgmlType::IQ2XS => 17,
        GgmlType::IQ3XXS => 18,
        GgmlType::IQ1S => 19,
        GgmlType::IQ4NL => 20,
        GgmlType::IQ3S => 21,
        GgmlType::IQ2S => 22,
        GgmlType::IQ4XS => 23,
        GgmlType::I8 => 24,
        GgmlType::I16 => 25,
        GgmlType::I32 => 26,
        GgmlType::I64 => 27,
        GgmlType::F64 => 28,
        GgmlType::IQ1M => 29,
        GgmlType::BF16 => 30,
        GgmlType::BitNetI2S => 36,
        GgmlType::BitNetI8S => 37,
        GgmlType::BitNetTL1 => 38,
        GgmlType::BitNetTL2 => 39,
        GgmlType::Unknown(v) => v,
    }
}

/// The name of a type as people read it.
pub open spec fn ggml_name(t: GgmlType) -> Seq<char> {
    match t {
        GgmlType::F32 => "F32"@,
        GgmlType::F16 => "F16"@,
        GgmlType::Q4_0 => "Q4_0"@,
        GgmlType::Q4_1 => "Q4_1"@,
        GgmlType::Q5_0 => "Q5_0"@,
        GgmlType::Q5_1 => "Q5_1"@,
        GgmlType::Q8_0 => "Q8_0"@,
        GgmlType::Q8_1 => "Q8_1"@,
        GgmlType::Q2K => "Q2_K"@,
        GgmlType::Q3K => "Q3_K"@,
        GgmlType::Q4K => "Q4_K"@,
        GgmlType::Q5K => "Q5_K"@,
        GgmlType::Q6K => "Q6_K"@,
        GgmlType::Q8K => "Q8_K"@,
        GgmlType::IQ2XXS => "IQ2_XXS"@,
        GgmlType::IQ2XS => "IQ2_XS"@,
        GgmlType::IQ3XXS => "IQ3_XXS"@,
        GgmlType::IQ1S => "IQ1_S"@,
        GgmlType::IQ4NL => "IQ4_NL"@,
        GgmlType::IQ3S => "IQ3_S"@,
        GgmlType::IQ2S => "IQ2_S"@,
        GgmlType::IQ4XS => "IQ4_XS"@,
        GgmlType::I8 => "I8"@,
        GgmlType::I16 => "I16"@,
        GgmlType::I32 => "I32"@,
        GgmlType::I64 => "I64"@,
        GgmlType::F64 => "F64"@,
        GgmlType::IQ1M => "IQ1_M"@,
        GgmlType::BF16 => "BF16"@,
        GgmlType::BitNetI2S => "I2_S (BitNet)"@,
        GgmlType::BitNetI8S => "I8_S (BitNet)"@,
        GgmlType::BitNetTL1 => "TL1 (BitNet)"@,
        GgmlType::BitNetTL2 => "TL2 (BitNet)"@,
        GgmlType::Unknown(v) => "Unknown("@ + dec(v as int) + ")"@,
    }
}

/// A value that `from_raw` can give: `Unknown` holds only tags without a name.
pub open spec fn is_canonical(t: GgmlType) -> bool {
    t matches GgmlType::Unknown(v) ==> !(v <= 3 || 6 <= v <= 30 || 36 <= v <= 39)
}

impl GgmlType {
    /// The type that a tag from a tensor directory names.
    pub fn from_raw(raw: u32) -> (t: Self)
        ensures
            t == type_of_raw(raw),
    {
        match raw {
            0 => GgmlType::F32,
            1 => GgmlType::F16,
            2 => GgmlType::Q4_0,
            3 => GgmlType::Q4_1,
            6 => GgmlType::Q5_0,
            7 => GgmlType::Q5_1,
            8 => GgmlType::Q8_0,
            9 => GgmlType::Q8_1,
            10 => GgmlType::Q2K,
            11 => GgmlType::Q3K,
            12 => GgmlType::Q4K,
            13 => GgmlType::Q5K,
            14 => GgmlType::Q6K,
            15 => GgmlType::Q8K,
            16 => GgmlType::IQ2XXS,
            17 => GgmlType::IQ2XS,
            18 => GgmlType::IQ3XXS,
            19 => GgmlType::IQ1S,
            20 => GgmlType::IQ4NL,
            21 => GgmlType::IQ3S,
            22 => GgmlType::IQ2S,
            23 => GgmlType::IQ4XS,
            24 => GgmlType::I8,
            25 => GgmlType::I16,
            26 => GgmlType::I32,
            27 => GgmlType::I64,
            28 => GgmlType::F64,
            29 => GgmlType::IQ1M,
            30 => GgmlType::BF16,
            36 => GgmlType::BitNetI2S,
            37 => GgmlType::BitNetI8S,
            38 => GgmlType::BitNetTL1,
            39 => GgmlType::BitNetTL2,
            other => GgmlType::Unknown(other),
        }
    }

    /// The tag of this type.
    pub fn to_raw(self) -> (raw: u32)
        ensures
            raw == raw_of_type(self),
    {
        match self {
            GgmlType::F32 => 0,
            GgmlType::F16 => 1,
            GgmlType::Q4_0 => 2,
            GgmlType::Q4_1 => 3,
            GgmlType::Q5_0 => 6,
            GgmlType::Q5_1 => 7,
            GgmlType::Q8_0 => 8,
            GgmlType::Q8_1 => 9,
            GgmlType::Q2K => 10,
            GgmlType::Q3K => 11,
            GgmlType::Q4K => 12,
            GgmlType::Q5K => 13,
            GgmlType::Q6K => 14,
            GgmlType::Q8K => 15,
            GgmlType::IQ2XXS => 16,
            GgmlType::IQ2XS => 17,
            GgmlType::IQ3XXS => 18,
            GgmlType::IQ1S => 19,
            GgmlType::IQ4NL => 20,
            GgmlType::IQ3S => 21,
            GgmlType::IQ2S => 22,
            GgmlType::IQ4XS => 23,
            GgmlType::I8 => 24,
            GgmlType::I16 => 25,
            GgmlType::I32 => 26,
            GgmlType::I64 => 27,
            GgmlType::F64 => 28,
            GgmlType::IQ1M => 29,
            GgmlType::BF16 => 30,
            GgmlType::BitNetI2S => 36,
            GgmlType::BitNetI8S => 37,
            GgmlType::BitNetTL1 => 38,
            GgmlType::BitNetTL2 => 39,
            GgmlType::Unknown(v) => v,
        }
    }

    /// The name of this type as people read it.
    pub fn name(&self) -> (s: String)
        ensures
            s@ == ggml_name(*self),
    {
        match self {
            GgmlType::F32 => owned("F32"),
            GgmlType::F16 => owned("F16"),
            GgmlType::Q4_0 => owned("Q4_0"),
            GgmlType::Q4_1 => owned("Q4_1"),
            GgmlType::Q5_0 => owned("Q5_0"),
            GgmlType::Q5_1 => owned("Q5_1"),
            GgmlType::Q8_0 => owned("Q8_0"),
            GgmlType::Q8_1 => owned("Q8_1"),
            GgmlType::Q2K => owned("Q2_K"),
            GgmlType::Q3K => owned("Q3_K"),
            GgmlType::Q4K => owned("Q4_K"),
            GgmlType::Q5K => owned("Q5_K"),
            GgmlType::Q6K => owned("Q6_K"),
            GgmlType::Q8K => owned("Q8_K"),
            GgmlType::IQ2XXS => owned("IQ2_XXS"),
            GgmlType::IQ2XS => owned("IQ2_XS"),
            GgmlType::IQ3XXS => owned("IQ3_XXS"),
            GgmlType::IQ1S => owned("IQ1_S"),
            GgmlType::IQ4NL => owned("IQ4_NL"),
            GgmlType::IQ3S => owned("IQ3_S"),
            GgmlType::IQ2S => owned("IQ2_S"),
            GgmlType::IQ4XS => owned("IQ4_XS"),
            GgmlType::I8 => owned("I8"),
            GgmlType::I16 => owned("I16"),
            GgmlType::I32 => owned("I32"),
            GgmlType::I64 => owned("I64"),
            GgmlType::F64 => owned("F64"),
            GgmlType::IQ1M => owned("IQ1_M"),
            GgmlType::BF16 => owned("BF16"),
            GgmlType::BitNetI2S => owned("I2_S (BitNet)"),
            GgmlType::BitNetI8S => owned("I8_S (BitNet)"),
            GgmlType::BitNetTL1 => owned("TL1 (BitNet)"),
            GgmlType::BitNetTL2 => owned("TL2 (BitNet)"),
            GgmlType::Unknown(v) => {
                let number = decimal(*v as u64);
                cat3("Unknown(", number.as_str(), ")")
            },
        }
    }

    /// Whether this type comes from the BitNet family of layouts.
    pub fn is_bitnet(&self) -> (b: bool)
        ensures
            b == (36 <= raw_of_type(*self) <= 39 && is_canonical(*self)),
            b <==> *self == GgmlType::BitNetI2S || *self == GgmlType::BitNetI8S || *self
                == GgmlType::BitNetTL1 || *self == GgmlType::BitNetTL2,
    {
        match self {
            GgmlType::BitNetI2S => true,
            GgmlType::BitNetI8S => true,
            GgmlType::BitNetTL1 => true,
            GgmlType::BitNetTL2 => true,
            _ => false,
        }
    }
}

/// Reading back the tag of a type that came from a tag loses nothing.
pub proof fn raw_survives_round_trip(raw: u32)
    ensures
        raw_of_type(type_of_raw(raw)) == raw,
        is_canonical(type_of_raw(raw)),
{
}

/// Every canonical type is the one that its own tag names.
pub proof fn type_survives_round_trip(t: GgmlType)
    requires
        is_canonical(t),
    ensures
        type_of_raw(raw_of_type(t)) == t,
{
}

/// The type tag in front of a metadata value.
#[derive(Debug, Clone, Copy, PartialEq, Eq, Structural)]
pub enum GgufMetadataValueType {
    Uint8,
    Int8,
    Uint16,
    Int16,
    Uint32,
    Int32,
    Float32,
    Bool,
    String,
    Array,
    Uint64,
    Int64,
    Float64,
    /// A tag that names none of the types above.
    Unknown(u32),
}

/// The metadata type that a tag names.
pub open spec fn value_type_of_raw(raw: u32) -> GgufMetadataValueType {
    match raw {
        0 => GgufMetadataValueType::Uint8,
        1 => GgufMetadataValueType::Int8,
        2 => GgufMetadataValueType::Uint16,
        3 => GgufMetadataValueType::Int16,
        4 => GgufMetadataValueType::Uint32,
        5 => GgufMetadataValueType::Int32,
        6 => GgufMetadataValueType::Float32,
        7 => GgufMetadataValueType::Bool,
        8 => GgufMetadataValueType::String,
        9 => GgufMetadataValueType::Array,
        10 => GgufMetadataValueType::Uint64,
        11 => GgufMetadataValueType::Int64,
        12 => GgufMetadataValueType::Float64,
        other => GgufMetadataValueType::Unknown(other),
    }
}

impl GgufMetadataValueType {
    /// The metadata type that a tag names.
    pub fn from_raw(raw: u32) -> (t: Self)
        ensures
            t == value_type_of_raw(raw),
    {
        match raw {
            0 => GgufMetadataValueType::Uint8,
            1 => GgufMetadataValueType::Int8,
            2 => GgufMetadataValueType::Uint16,
            3 => GgufMetadataValueType::Int16,
            4 => GgufMetadataValueType::Uint32,
            5 => GgufMetadataValueType::Int32,
            6 => GgufMetadataValueType::Float32,
            7 => GgufMetadataValueType::Bool,
            8 => GgufMetadataValueType::String,
            9 => GgufMetadataValueType::Array,
            10 => GgufMetadataValueType::Uint64,
            11 => GgufMetadataValueType::Int64,
            12 => GgufMetadataValueType::Float64,
            other => GgufMetadataValueType::Unknown(other),
        }
    }
}

} // verus!
