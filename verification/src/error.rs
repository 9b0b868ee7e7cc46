//! The library's error type and what each error says.

use crate::text::{
    cat2, cat3, cat4, decimal, dec, hex, hexadecimal, join, joined, pad_left, padded_left, views,
    cat8,
};
use vstd::prelude::*;

verus! {

/// Every way in which an operation of this library can fail. Each variant
/// carries what its message needs.
#[derive(Debug)]
pub enum WillametteError {
    /// An input or output operation failed; the text is the system's.
    Io(String),
    /// The bytes, or the tensors and values in them, are malformed.
    GgufParse(String),
    /// The file does not start with the GGUF magic number.
    InvalidMagic(u32),
    /// The format version is neither 2 nor 3.
    UnsupportedVersion(u32),
    /// No known family claims the architecture.
    UnsupportedArchitecture(String),
    /// Required metadata keys are absent.
    MissingMetadata(Vec<String>),
    /// An operation does not take this tensor type.
    UnsupportedTensorType(u32),
    /// The tokenizer is not supported.
    UnsupportedTokenizer(String),
    /// The operation is known but not available.
    NotImplemented(String),
    /// The path does not name a model file.
    InvalidPath(String),
    /// A tensor's bytes reach past the end of the file.
    TensorOutOfBounds { name: String, offset: u64, end: u64, file_len: u64 },
    /// A string is longer than the format allows.
    StringOverflow(u64),
    /// A metadata value has another type than its key requires.
    MetadataTypeMismatch { key: String, expected: String, actual: String },
}

/// What an error holds, with its texts as character sequences.
pub enum Fault {
    Io(Seq<char>),
    GgufParse(Seq<char>),
    InvalidMagic(u32),
    UnsupportedVersion(u32),
    UnsupportedArchitecture(Seq<char>),
    MissingMetadata(Seq<Seq<char>>),
    UnsupportedTensorType(u32),
    UnsupportedTokenizer(Seq<char>),
    NotImplemented(Seq<char>),
    InvalidPath(Seq<char>),
    TensorOutOfBounds { name: Seq<char>, offset: u64, end: u64, file_len: u64 },
    StringOverflow(u64),
    MetadataTypeMismatch { key: Seq<char>, expected: Seq<char>, actual: Seq<char> },
}

impl View for WillametteError {
    type V = Fault;

    open spec fn view(&self) -> Fault {
        match *self {
            WillametteError::Io(m) => Fault::Io(m@),
            WillametteError::GgufParse(m) => Fault::GgufParse(m@),
            WillametteError::InvalidMagic(m) => Fault::InvalidMagic(m),
            WillametteError::UnsupportedVersion(v) => Fault::UnsupportedVersion(v),
            WillametteError::UnsupportedArchitecture(a) => Fault::UnsupportedArchitecture(a@),
            WillametteError::MissingMetadata(keys) => Fault::MissingMetadata(views(keys@)),
            WillametteError::UnsupportedTensorType(t) => Fault::UnsupportedTensorType(t),
            WillametteError::UnsupportedTokenizer(t) => Fault::UnsupportedTokenizer(t@),
            WillametteError::NotImplemented(m) => Fault::NotImplemented(m@),
            WillametteError::InvalidPath(p) => Fault::InvalidPath(p@),
            WillametteError::TensorOutOfBounds { name, offset, end, file_len } => {
                Fault::TensorOutOfBounds { name: name@, offset, end, file_len }
            },
            WillametteError::StringOverflow(n) => Fault::StringOverflow(n),
            WillametteError::MetadataTypeMismatch { key, expected, actual } => {
                Fault::MetadataTypeMismatch { key: key@, expected: expected@, actual: actual@ }
            },
        }
    }
}

/// What an error says.
pub open spec fn fault_text(fault: Fault) -> Seq<char> {
    match fault {
        Fault::Io(m) => "IO error: "@ + m,
        Fault::GgufParse(m) => "GGUF parse error: "@ + m,
        Fault::InvalidMagic(m) => "Invalid GGUF magic (expected 0x46554747, got 0x"@ + padded_left(
            hex(m as int),
            '0',
            8,
        ) + ")"@,
        Fault::UnsupportedVersion(v) => "Unsupported GGUF version: "@ + dec(v as int)
            + " (supported: 2, 3)"@,
        Fault::UnsupportedArchitecture(a) => "Unsupported architecture: \""@ + a + "\""@,
        Fault::MissingMetadata(keys) => "Missing required metadata key(s): "@ + joined(
            keys,
            ", "@,
        ),
        Fault::UnsupportedTensorType(t) => "Unsupported GGML tensor type: "@ + dec(t as int),
        Fault::UnsupportedTokenizer(t) => "Unsupported tokenizer: "@ + t,
        Fault::NotImplemented(m) => "Not implemented: "@ + m,
        Fault::InvalidPath(p) => "Invalid model file: "@ + p,
        Fault::TensorOutOfBounds { name, offset, end, file_len } => {
            "Tensor data out of bounds: tensor \""@ + name + "\" requires bytes ["@ + dec(
                offset as int,
            ) + ".."@ + dec(end as int) + "), file size = "@ + dec(file_len as int)
        },
        Fault::StringOverflow(n) => "String length overflow: "@ + dec(n as int),
        Fault::MetadataTypeMismatch { key, expected, actual } => {
            "Metadata value type error for key \""@ + key + "\": expected "@ + expected
                + ", got "@ + actual
        },
    }
}

impl WillametteError {
    /// The message for people.
    pub fn message(&self) -> (text: String)
        ensures
            text@ == fault_text(self@),
    {
        match self {
            WillametteError::Io(m) => cat2("IO error: ", m.as_str()),
            WillametteError::GgufParse(m) => cat2("GGUF parse error: ", m.as_str()),
            WillametteError::InvalidMagic(m) => {
                let digits = hexadecimal(*m as u64);
                let number = pad_left(digits.as_str(), '0', 8);
                cat3("Invalid GGUF magic (expected 0x46554747, got 0x", number.as_str(), ")")
            },
            WillametteError::UnsupportedVersion(v) => {
                let number = decimal(*v as u64);
                cat3("Unsupported GGUF version: ", number.as_str(), " (supported: 2, 3)")
            },
            WillametteError::UnsupportedArchitecture(a) => {
                cat3("Unsupported architecture: \"", a.as_str(), "\"")
            },
            WillametteError::MissingMetadata(keys) => {
                let list = join(keys, ", ");
                cat2("Missing required metadata key(s): ", list.as_str())
            },
            WillametteError::UnsupportedTensorType(t) => {
                let number = decimal(*t as u64);
                cat2("Unsupported GGML tensor type: ", number.as_str())
            },
            WillametteError::UnsupportedTokenizer(t) => {
                cat2("Unsupported tokenizer: ", t.as_str())
            },
            WillametteError::NotImplemented(m) => cat2("Not implemented: ", m.as_str()),
            WillametteError::InvalidPath(p) => cat2("Invalid model file: ", p.as_str()),
            WillametteError::TensorOutOfBounds { name, offset, end, file_len } => {
                let from = decimal(*offset);
                let to = decimal(*end);
                let size = decimal(*file_len);
                cat8(
                    "Tensor data out of bounds: tensor \"",
                    name.as_str(),
                    "\" requires bytes [",
                    from.as_str(),
                    "..",
                    to.as_str(),
                    "), file size = ",
                    size.as_str(),
                )
            },
            WillametteError::StringOverflow(n) => {
                let number = decimal(*n);
                cat2("String length overflow: ", number.as_str())
            },
            WillametteError::MetadataTypeMismatch { key, expected, actual } => {
                let start = cat4(
                    "Metadata value type error for key \"",
                    key.as_str(),
                    "\": expected ",
                    expected.as_str(),
                );
                cat3(start.as_str(), ", got ", actual.as_str())
            },
        }
    }
}

} // verus!
