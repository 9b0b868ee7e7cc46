//! The bytes of a GGUF file as a mathematical object: where its parts lie and
//! what is wrong with them.

use crate::error::Fault;
use crate::gguf::bytes::{le32, le64, short_read, string_at, string_end};
use crate::gguf::metadata::u64_at;
use crate::gguf::tensor::{block_bytes, block_fault, product, product_fault};
use crate::gguf::types::{ggml_name, type_of_raw, GgmlType};
use crate::gguf::value::{holds_value, value_end, GgufValue};
use crate::text::{dec, power_of_two};
use vstd::prelude::*;

verus! {

/// The first four bytes of every GGUF file, as a little-endian number.
pub const GGUF_MAGIC: u32 = 0x4655_4747;

/// The alignment of tensor data where the metadata names none.
pub const GGUF_DEFAULT_ALIGNMENT: u64 = 32;

/// Most tensors that a file may list.
pub const MAX_TENSOR_COUNT: u64 = 1_000_000;

/// Most metadata entries that a file may list.
pub const MAX_METADATA_KV_COUNT: u64 = 1_000_000;

/// Most dimensions of a tensor.
pub const MAX_TENSOR_DIMS: u32 = 4;

/// Why a count from the header is refused: it is over a limit, or so many
/// entries cannot fit in the bytes that are left.
pub open spec fn count_fault(
    name: Seq<char>,
    count: int,
    limit: int,
    remaining: int,
    minimum_entry_bytes: int,
) -> Option<Fault> {
    if count > limit {
        Some(
            Fault::GgufParse(name + " "@ + dec(count) + " exceeds safety limit "@ + dec(limit)),
        )
    } else if count * minimum_entry_bytes > u64::MAX {
        Some(Fault::GgufParse(name + " minimum byte count overflow"@))
    } else if count * minimum_entry_bytes > remaining {
        Some(
            Fault::GgufParse(
                name + " "@ + dec(count) + " cannot fit in "@ + dec(remaining)
                    + " remaining bytes"@,
            ),
        )
    } else {
        None
    }
}

/// How many tensors the header announces.
pub open spec fn tensor_count_of(data: Seq<u8>) -> int {
    le64(data.skip(8))
}

/// How many metadata entries the header announces.
pub open spec fn kv_count_of(data: Seq<u8>) -> int {
    le64(data.skip(16))
}

/// What is wrong with the first 24 bytes.
pub open spec fn header_fault(data: Seq<u8>) -> Option<Fault> {
    if data.len() < 4 {
        Some(Fault::GgufParse("reading magic: "@ + short_read()))
    } else if le32(data) != GGUF_MAGIC {
        Some(Fault::InvalidMagic(le32(data) as u32))
    } else if data.len() < 8 {
        Some(Fault::GgufParse("reading version: "@ + short_read()))
    } else if le32(data.skip(4)) != 2 && le32(data.skip(4)) != 3 {
        Some(Fault::UnsupportedVersion(le32(data.skip(4)) as u32))
    } else if data.len() < 16 {
        Some(Fault::GgufParse("reading tensor_count: "@ + short_read()))
    } else if data.len() < 24 {
        Some(Fault::GgufParse("reading metadata_kv_count: "@ + short_read()))
    } else if count_fault(
        "tensor_count"@,
        tensor_count_of(data),
        MAX_TENSOR_COUNT as int,
        data.len() - 24,
        24,
    ) is Some {
        count_fault(
            "tensor_count"@,
            tensor_count_of(data),
            MAX_TENSOR_COUNT as int,
            data.len() - 24,
            24,
        )
    } else {
        count_fault(
            "metadata_kv_count"@,
            kv_count_of(data),
            MAX_METADATA_KV_COUNT as int,
            data.len() - 24,
            13,
        )
    }
}

/// Where the metadata entry with number `i` ends if it starts at `pos`, or why
/// it cannot be read.
pub open spec fn entry_end(data: Seq<u8>, pos: int, i: int) -> Result<int, Seq<char>> {
    match string_end(data, pos) {
        Err(e) => Err("metadata["@ + dec(i) + "] key: "@ + e),
        Ok(p) => match value_end(data, p) {
            Err(e) => Err(
                "metadata["@ + dec(i) + "] (key=\""@ + string_at(data, pos) + "\") value: "@ + e,
            ),
            Ok(q) => Ok(q),
        },
    }
}

/// Where the first `n` metadata entries end, or why they cannot all be read.
pub open spec fn entries_end(data: Seq<u8>, pos: int, n: int) -> Result<int, Seq<char>>
    decreases n,
{
    if n <= 0 {
        Ok(pos)
    } else {
        match entries_end(data, pos, n - 1) {
            Err(e) => Err(e),
            Ok(p) => entry_end(data, p, n - 1),
        }
    }
}

/// The key of a metadata entry.
pub open spec fn key_of_entry(data: Seq<u8>, pos: int, i: int) -> Seq<char> {
    string_at(data, entries_end(data, pos, i)->Ok_0)
}

/// Where the value of a metadata entry starts.
pub open spec fn value_of_entry(data: Seq<u8>, pos: int, i: int) -> int {
    string_end(data, entries_end(data, pos, i)->Ok_0)->Ok_0
}

/// The last of the first `n` entries with a given key: it is the one that
/// counts.
pub open spec fn last_entry(data: Seq<u8>, pos: int, n: int, key: Seq<char>) -> Option<int>
    decreases n,
{
    if n <= 0 {
        None
    } else if key_of_entry(data, pos, n - 1) == key {
        Some(n - 1)
    } else {
        last_entry(data, pos, n - 1, key)
    }
}

/// `table` has exactly the keys of the first `n` entries, each with the value
/// of its last entry.
pub open spec fn is_table_of(
    table: Map<Seq<char>, GgufValue>,
    data: Seq<u8>,
    pos: int,
    n: int,
) -> bool {
    forall|key: Seq<char>| #[trigger]
        table.contains_key(key) == (last_entry(data, pos, n, key) is Some) && (
        table.contains_key(key) ==> holds_value(
            table[key],
            data,
            value_of_entry(data, pos, last_entry(data, pos, n, key)->0),
        ))
}

/// The alignment of tensor data.
pub open spec fn alignment_of(data: Seq<u8>) -> int {
    match last_entry(data, 24, kv_count_of(data), "general.alignment"@) {
        None => GGUF_DEFAULT_ALIGNMENT as int,
        Some(i) => match u64_at(data, value_of_entry(data, 24, i)) {
            None => GGUF_DEFAULT_ALIGNMENT as int,
            Some(n) => n as int,
        },
    }
}

/// One entry of the tensor directory.
pub struct TensorRecord {
    pub name: Seq<char>,
    pub shape: Seq<u64>,
    pub ggml_type: GgmlType,
    pub relative_offset: u64,
}

/// Where the directory entry with number `i` ends if it starts at `pos`, or
/// why it cannot be read.
pub open spec fn record_end(data: Seq<u8>, pos: int, i: int) -> Result<int, Seq<char>> {
    match string_end(data, pos) {
        Err(e) => Err("tensor["@ + dec(i) + "] name: "@ + e),
        Ok(p) => {
            let dims = le32(data.skip(p));
            let after_dims = p + 4 + 8 * dims;
            if p + 4 > data.len() {
                Err("tensor["@ + dec(i) + "] n_dims: "@ + short_read())
            } else if dims > MAX_TENSOR_DIMS {
                Err(
                    "tensor["@ + dec(i) + "] n_dims "@ + dec(dims) + " exceeds "@ + dec(
                        MAX_TENSOR_DIMS as int,
                    ),
                )
            } else if after_dims > data.len() {
                Err(
                    "tensor["@ + dec(i) + "] shape["@ + dec((data.len() - (p + 4)) / 8) + "]: "@
                        + short_read(),
                )
            } else if after_dims + 4 > data.len() {
                Err("tensor["@ + dec(i) + "] ggml_type: "@ + short_read())
            } else if after_dims + 12 > data.len() {
                Err("tensor["@ + dec(i) + "] offset: "@ + short_read())
            } else {
                Ok(after_dims + 12)
            }
        },
    }
}

/// Where the name of a directory entry ends.
pub open spec fn name_stop(data: Seq<u8>, pos: int) -> int {
    string_end(data, pos)->Ok_0
}

/// Where the type tag of a directory entry stands.
pub open spec fn dtype_place(data: Seq<u8>, pos: int) -> int {
    name_stop(data, pos) + 4 + 8 * le32(data.skip(name_stop(data, pos)))
}

/// The directory entry that starts at a position.
pub open spec fn record_at(data: Seq<u8>, pos: int) -> TensorRecord {
    let p = name_stop(data, pos);
    TensorRecord {
        name: string_at(data, pos),
        shape: Seq::new(
            le32(data.skip(p)) as nat,
            |d: int| le64(data.skip(p + 4 + 8 * d)) as u64,
        ),
        ggml_type: type_of_raw(le32(data.skip(dtype_place(data, pos))) as u32),
        relative_offset: le64(data.skip(dtype_place(data, pos) + 4)) as u64,
    }
}

/// Where the first `n` directory entries end, or why they cannot all be read.
pub open spec fn records_end(data: Seq<u8>, pos: int, n: int) -> Result<int, Seq<char>>
    decreases n,
{
    if n <= 0 {
        Ok(pos)
    } else {
        match records_end(data, pos, n - 1) {
            Err(e) => Err(e),
            Ok(p) => record_end(data, p, n - 1),
        }
    }
}

/// The first `n` directory entries.
pub open spec fn records_of(data: Seq<u8>, pos: int, n: int) -> Seq<TensorRecord> {
    Seq::new(n as nat, |i: int| record_at(data, records_end(data, pos, i)->Ok_0))
}

/// Elements and bytes of one block of a type whose blocks run through the
/// whole tensor.
pub open spec fn block_units(t: GgmlType) -> Option<(int, int)> {
    match t {
        GgmlType::F32 => Some((1, 4)),
        GgmlType::F16 => Some((1, 2)),
        GgmlType::BF16 => Some((1, 2)),
        GgmlType::F64 => Some((1, 8)),
        GgmlType::I8 => Some((1, 1)),
        GgmlType::I16 => Some((1, 2)),
        GgmlType::I32 => Some((1, 4)),
        GgmlType::I64 => Some((1, 8)),
        GgmlType::Q4_1 => Some((32, 20)),
        GgmlType::Q5_0 => Some((32, 22)),
        GgmlType::Q5_1 => Some((32, 24)),
        GgmlType::Q8_1 => Some((32, 40)),
        GgmlType::Q2K => Some((256, 84)),
        GgmlType::Q3K => Some((256, 110)),
        GgmlType::Q5K => Some((256, 176)),
        GgmlType::Q8K => Some((256, 292)),
        GgmlType::BitNetI2S => Some((128, 32)),
        GgmlType::BitNetI8S => Some((1, 1)),
        _ => None,
    }
}

/// A length in blocks within each row, or why there is none.
pub open spec fn row_blocks(
    shape: Seq<u64>,
    elements: u64,
    bytes: u64,
    label: Seq<char>,
) -> Result<Option<int>, Seq<char>> {
    match block_fault(shape, elements, bytes, label) {
        Some(e) => Err("GGUF parse error: "@ + e),
        None => Ok(Some(block_bytes(shape, elements, bytes))),
    }
}

/// The bytes of a tensor; nothing for a type whose layout is not known; or why
/// the shape does not fit the type.
pub open spec fn tensor_bytes(shape: Seq<u64>, t: GgmlType) -> Result<Option<int>, Seq<char>> {
    if t == GgmlType::Q4_0 {
        row_blocks(shape, 32, 18, "Q4_0"@)
    } else if t == GgmlType::Q6K {
        row_blocks(shape, 256, 210, "Q6_K"@)
    } else if t == GgmlType::Q4K {
        row_blocks(shape, 256, 144, "Q4_K"@)
    } else if t == GgmlType::Q8_0 {
        row_blocks(shape, 32, 34, "Q8_0"@)
    } else {
        match block_units(t) {
            None => Ok(None),
            Some((elements, bytes)) => if product_fault(shape) is Some {
                Err(
                    "shape product overflow while multiplying by dimension "@ + dec(
                        product_fault(shape)->0 as int,
                    ),
                )
            } else if product(shape) == 0 {
                Ok(Some(0int))
            } else if product(shape) % elements != 0 {
                Err(
                    "element count "@ + dec(product(shape)) + " is not divisible by block size "@
                        + dec(elements) + " for type "@ + ggml_name(t),
                )
            } else if product(shape) / elements * bytes > u64::MAX {
                Err("byte length overflow for type "@ + ggml_name(t))
            } else {
                Ok(Some(product(shape) / elements * bytes))
            },
        }
    }
}

/// Another tensor starts at the same place.
pub open spec fn shares_offset(records: Seq<TensorRecord>, i: int) -> bool {
    exists|j: int|
        0 <= j < records.len() && j != i && (#[trigger] records[j]).relative_offset
            == records[i].relative_offset
}

/// The smallest of the first `n` offsets that lies above `x`.
pub open spec fn next_above(records: Seq<TensorRecord>, x: u64, n: int) -> Option<u64>
    decreases n,
{
    if n <= 0 {
        None
    } else {
        let o = records[n - 1].relative_offset;
        match next_above(records, x, n - 1) {
            None => if o > x {
                Some(o)
            } else {
                None
            },
            Some(best) => if o > x && o < best {
                Some(o)
            } else {
                Some(best)
            },
        }
    }
}

/// What is wrong with the place of tensor `i` in a file of `file_len` bytes
/// whose tensor data starts at `start`.
pub open spec fn layout_fault(
    records: Seq<TensorRecord>,
    i: int,
    start: int,
    file_len: int,
) -> Option<Fault> {
    let r = records[i];
    let from = start + r.relative_offset;
    let next = next_above(records, r.relative_offset, records.len() as int);
    if from > u64::MAX {
        Some(Fault::GgufParse("tensor \""@ + r.name + "\" offset overflow"@))
    } else if shares_offset(records, i) {
        Some(
            Fault::GgufParse(
                "tensor \""@ + r.name + "\" shares data offset "@ + dec(
                    r.relative_offset as int,
                ) + " with another tensor"@,
            ),
        )
    } else if next is Some && start + next->0 > u64::MAX {
        Some(Fault::GgufParse("tensor \""@ + r.name + "\" next offset overflow"@))
    } else {
        match tensor_bytes(r.shape, r.ggml_type) {
            Err(e) => Some(Fault::GgufParse("tensor \""@ + r.name + "\": "@ + e)),
            Ok(None) => Some(
                Fault::GgufParse(
                    "tensor \""@ + r.name + "\" has unsupported type "@ + ggml_name(
                        r.ggml_type,
                    ) + "; byte length is unknown"@,
                ),
            ),
            Ok(Some(n)) => {
                let end = from + n;
                if end > u64::MAX {
                    Some(Fault::GgufParse("tensor \""@ + r.name + "\" end offset overflow"@))
                } else if end > file_len {
                    Some(
                        Fault::TensorOutOfBounds {
                            name: r.name,
                            offset: from as u64,
                            end: end as u64,
                            file_len: file_len as u64,
                        },
                    )
                } else if next is Some && end > start + next->0 {
                    Some(
                        Fault::GgufParse(
                            "tensor \""@ + r.name + "\" range "@ + dec(from) + ".."@ + dec(end)
                                + " overlaps next tensor at "@ + dec(start + next->0),
                        ),
                    )
                } else if r.ggml_type == GgmlType::BitNetI2S {
                    scale_fault(r, end, next, start, file_len)
                } else {
                    None
                }
            },
        }
    }
}

/// What is wrong with the place of the scale block that follows an I2_S
/// tensor which ends at `end`.
pub open spec fn scale_fault(
    r: TensorRecord,
    end: int,
    next: Option<u64>,
    start: int,
    file_len: int,
) -> Option<Fault> {
    let stop = end + 32;
    if stop > u64::MAX {
        Some(Fault::GgufParse("tensor \""@ + r.name + "\" scale-block offset overflow"@))
    } else if stop > file_len {
        Some(
            Fault::TensorOutOfBounds {
                name: r.name + " (scale block)"@,
                offset: end as u64,
                end: stop as u64,
                file_len: file_len as u64,
            },
        )
    } else if next is Some && stop > start + next->0 {
        Some(
            Fault::GgufParse(
                "I2_S tensor \""@ + r.name + "\" scale block ends at "@ + dec(stop)
                    + ", overlapping next tensor at "@ + dec(start + next->0),
            ),
        )
    } else {
        None
    }
}

/// The first fault in the places of the first `n` tensors.
pub open spec fn layouts_fault(
    records: Seq<TensorRecord>,
    n: int,
    start: int,
    file_len: int,
) -> Option<Fault>
    decreases n,
{
    if n <= 0 {
        None
    } else if layouts_fault(records, n - 1, start, file_len) is Some {
        layouts_fault(records, n - 1, start, file_len)
    } else {
        layout_fault(records, n - 1, start, file_len)
    }
}

/// The next multiple of `alignment` at or above `offset`.
pub open spec fn aligned(offset: int, alignment: int) -> int {
    if offset % alignment == 0 {
        offset
    } else {
        offset + (alignment - offset % alignment)
    }
}

/// Where the tensor directory starts.
pub open spec fn directory_start(data: Seq<u8>) -> int {
    entries_end(data, 24, kv_count_of(data))->Ok_0
}

/// Where the tensor directory ends.
pub open spec fn directory_stop(data: Seq<u8>) -> int {
    records_end(data, directory_start(data), tensor_count_of(data))->Ok_0
}

/// All entries of the tensor directory.
pub open spec fn directory_of(data: Seq<u8>) -> Seq<TensorRecord> {
    records_of(data, directory_start(data), tensor_count_of(data))
}

/// Where tensor data starts.
pub open spec fn section_start(data: Seq<u8>) -> int {
    aligned(directory_stop(data), alignment_of(data))
}

/// What is wrong behind the header and the metadata.
pub open spec fn directory_fault(data: Seq<u8>) -> Option<Fault> {
    let p = directory_start(data);
    let count = tensor_count_of(data);
    if count_fault("tensor_count"@, count, MAX_TENSOR_COUNT as int, data.len() - p, 24) is Some {
        count_fault("tensor_count"@, count, MAX_TENSOR_COUNT as int, data.len() - p, 24)
    } else {
        match records_end(data, p, count) {
            Err(e) => Some(Fault::GgufParse(e)),
            Ok(q) => {
                let start = section_start(data);
                if start > u64::MAX {
                    Some(Fault::GgufParse("tensor data section offset overflow"@))
                } else if count > 0 && start > data.len() {
                    Some(
                        Fault::GgufParse(
                            "tensor data section starts beyond EOF: "@ + dec(start) + " > "@ + dec(
                                data.len() as int,
                            ),
                        ),
                    )
                } else {
                    layouts_fault(directory_of(data), count, start, data.len() as int)
                }
            },
        }
    }
}

/// What is wrong with a file; nothing for a file that can be used.
pub open spec fn file_fault(data: Seq<u8>) -> Option<Fault> {
    if header_fault(data) is Some {
        header_fault(data)
    } else {
        match entries_end(data, 24, kv_count_of(data)) {
            Err(e) => Some(Fault::GgufParse(e)),
            Ok(p) => if !power_of_two(alignment_of(data)) {
                Some(Fault::GgufParse("invalid alignment value: "@ + dec(alignment_of(data))))
            } else {
                directory_fault(data)
            },
        }
    }
}

/// Where the data of tensor `i` starts.
pub open spec fn tensor_start(data: Seq<u8>, i: int) -> int {
    section_start(data) + directory_of(data)[i].relative_offset
}

/// The bytes of tensor `i`, without a scale block.
pub open spec fn tensor_len(data: Seq<u8>, i: int) -> int {
    tensor_bytes(directory_of(data)[i].shape, directory_of(data)[i].ggml_type)->Ok_0->0
}

/// Where all bytes that belong to tensor `i` end, scale block included.
pub open spec fn tensor_stop(data: Seq<u8>, i: int) -> int {
    tensor_start(data, i) + tensor_len(data, i) + if directory_of(data)[i].ggml_type
        == GgmlType::BitNetI2S {
        32int
    } else {
        0int
    }
}

} // verus!
