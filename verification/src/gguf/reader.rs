//! Reading a GGUF file from bytes.

use crate::error::{Fault, WillametteError};
use crate::gguf::bytes::{le32, le64, read_gguf_string, ByteCursor};
use crate::gguf::layout::{
    aligned, alignment_of, block_units, count_fault, directory_of, directory_start, dtype_place,
    entries_end, file_fault, header_fault, is_table_of, key_of_entry, kv_count_of, last_entry,
    layout_fault, layouts_fault, next_above, record_at, record_end, records_end, records_of,
    scale_fault, section_start, shares_offset, tensor_bytes, tensor_count_of, tensor_len,
    tensor_start, value_of_entry, TensorRecord, GGUF_DEFAULT_ALIGNMENT, MAX_METADATA_KV_COUNT,
    MAX_TENSOR_COUNT, MAX_TENSOR_DIMS,
};
use crate::gguf::metadata::count_of_value_is_count_of_bytes;
use crate::gguf::tensor::{checked_product, product, TensorView};
use crate::gguf::types::GgmlType;
use crate::gguf::value::{holds_value, lemma_le_bounds, read_gguf_value};
use crate::text::{cat2, cat3, cat4, cat5, cat6, cat8, decimal, owned, power_of_two};
use vstd::prelude::*;
use vstd::slice::slice_subrange;

pub use crate::gguf::layout::GGUF_MAGIC;
pub use crate::gguf::metadata::Metadata;
pub use crate::gguf::value::GgufValue;

verus! {

/// Where the type tag and the offset of a tensor stand in the directory.
#[derive(Debug, Clone, Copy)]
pub struct TensorDescriptorLocation {
    pub dtype_offset: u64,
    pub relative_offset_offset: u64,
}

/// A file that has been read: its metadata, and a view of each tensor.
pub struct GgufFile<'a> {
    pub version: u32,
    pub tensor_count: u64,
    pub metadata: Metadata,
    pub tensors: Vec<TensorView<'a>>,
    pub alignment: u64,
    pub data_section_start: u64,
    pub tensor_descriptors: Vec<TensorDescriptorLocation>,
}

/// One entry of the tensor directory.
pub struct RawTensorInfo {
    pub name: String,
    pub shape: Vec<u64>,
    pub ggml_type: GgmlType,
    pub relative_offset: u64,
}

impl RawTensorInfo {
    /// The entry as a record.
    pub open spec fn record(&self) -> TensorRecord {
        TensorRecord {
            name: self.name@,
            shape: self.shape@,
            ggml_type: self.ggml_type,
            relative_offset: self.relative_offset,
        }
    }
}

/// The records of a list of entries.
pub open spec fn records(infos: Seq<RawTensorInfo>) -> Seq<TensorRecord> {
    infos.map_values(|info: RawTensorInfo| info.record())
}

/// `t` is tensor `i` of the file `data`.
pub open spec fn is_tensor_of(t: TensorView<'_>, data: Seq<u8>, i: int) -> bool {
    let r = directory_of(data)[i];
    let from = tensor_start(data, i);
    let end = from + tensor_len(data, i);
    &&& t.name@ == r.name
    &&& t.shape@ == r.shape
    &&& t.ggml_type == r.ggml_type
    &&& t.offset == from
    &&& t.byte_len == tensor_len(data, i)
    &&& t.data@ == data.subrange(from, end)
    &&& match t.scale_data {
        Some(block) => r.ggml_type == GgmlType::BitNetI2S && block@ == data.subrange(
            end,
            end + 32,
        ),
        None => r.ggml_type != GgmlType::BitNetI2S,
    }
}

/// `at` says where the type tag and the offset of directory entry `i` stand.
pub open spec fn locates(at: TensorDescriptorLocation, data: Seq<u8>, pos: int, i: int) -> bool {
    let place = dtype_place(data, records_end(data, pos, i)->Ok_0);
    at.dtype_offset == place && at.relative_offset_offset == place + 4
}

impl<'a> GgufFile<'a> {
    /// The fields say what the bytes of the file hold.
    pub open spec fn describes(&self, data: Seq<u8>) -> bool {
        &&& self.version == le32(data.skip(4))
        &&& self.tensor_count == tensor_count_of(data)
        &&& self.metadata.wf()
        &&& is_table_of(self.metadata@, data, 24, kv_count_of(data))
        &&& self.alignment == alignment_of(data)
        &&& self.data_section_start == section_start(data)
        &&& self.tensors@.len() == tensor_count_of(data)
        &&& forall|i: int|
            0 <= i < self.tensors@.len() ==> is_tensor_of(#[trigger] self.tensors@[i], data, i)
        &&& self.tensor_descriptors@.len() == tensor_count_of(data)
        &&& forall|i: int|
            0 <= i < self.tensor_descriptors@.len() ==> locates(
                #[trigger] self.tensor_descriptors@[i],
                data,
                directory_start(data),
                i,
            )
    }
}

/// Checks a count from the header against a limit and the bytes left.
pub(crate) fn validate_count(
    name: &str,
    count: u64,
    limit: u64,
    remaining_bytes: usize,
    minimum_entry_bytes: u64,
) -> (r: Result<(), WillametteError>)
    ensures
        match r {
            Ok(_) => count_fault(
                name@,
                count as int,
                limit as int,
                remaining_bytes as int,
                minimum_entry_bytes as int,
            ) is None,
            Err(e) => count_fault(
                name@,
                count as int,
                limit as int,
                remaining_bytes as int,
                minimum_entry_bytes as int,
            ) == Some(e@),
        },
{
    if count > limit {
        let found = decimal(count);
        let most = decimal(limit);
        return Err(
            WillametteError::GgufParse(
                cat5(name, " ", found.as_str(), " exceeds safety limit ", most.as_str()),
            ),
        );
    }
    let minimum_bytes: u64 = match count.checked_mul(minimum_entry_bytes) {
        Some(n) => n,
        None => {
            return Err(
                WillametteError::GgufParse(cat2(name, " minimum byte count overflow")),
            );
        },
    };
    if minimum_bytes > remaining_bytes as u64 {
        let found = decimal(count);
        let left = decimal(remaining_bytes as u64);
        return Err(
            WillametteError::GgufParse(
                cat6(
                    name,
                    " ",
                    found.as_str(),
                    " cannot fit in ",
                    left.as_str(),
                    " remaining bytes",
                ),
            ),
        );
    }
    Ok(())
}

/// The next multiple of `alignment` at or above `offset`, if 64 bits hold it.
pub fn align_offset(offset: u64, alignment: u64) -> (r: Option<u64>)
    requires
        alignment > 0,
    ensures
        match r {
            Some(n) => n == aligned(offset as int, alignment as int),
            None => aligned(offset as int, alignment as int) > u64::MAX,
        },
{
    let remainder: u64 = offset % alignment;
    if remainder == 0 {
        Some(offset)
    } else {
        offset.checked_add(alignment - remainder)
    }
}

/// A file error with its text.
fn parse_error(text: String) -> (e: WillametteError)
    ensures
        e@ == Fault::GgufParse(text@),
{
    WillametteError::GgufParse(text)
}

/// Reads magic number, version and counts.
fn read_header(cur: &mut ByteCursor<'_>) -> (r: Result<(u32, u64, u64), WillametteError>)
    requires
        old(cur).pos == 0,
    ensures
        final(cur).wf(),
        final(cur).data == old(cur).data,
        match r {
            Ok((version, tensors, entries)) => {
                &&& header_fault(old(cur).data@) is None
                &&& final(cur).pos == 24
                &&& version == le32(old(cur).data@.skip(4))
                &&& tensors == tensor_count_of(old(cur).data@)
                &&& entries == kv_count_of(old(cur).data@)
            },
            Err(e) => header_fault(old(cur).data@) == Some(e@),
        },
{
    proof {
        assert(cur.data@.skip(0) =~= cur.data@);
        lemma_le_bounds(cur.data@);
    }
    let magic: u32 = match cur.take_u32() {
        Some(v) => v,
        None => {
            return Err(parse_error(cat2("reading magic: ", "failed to fill whole buffer")));
        },
    };
    if magic != GGUF_MAGIC {
        return Err(WillametteError::InvalidMagic(magic));
    }
    let version: u32 = match cur.take_u32() {
        Some(v) => v,
        None => {
            return Err(parse_error(cat2("reading version: ", "failed to fill whole buffer")));
        },
    };
    if version != 2 && version != 3 {
        return Err(WillametteError::UnsupportedVersion(version));
    }
    let tensor_count: u64 = match cur.take_u64() {
        Some(v) => v,
        None => {
            return Err(
                parse_error(cat2("reading tensor_count: ", "failed to fill whole buffer")),
            );
        },
    };
    let metadata_kv_count: u64 = match cur.take_u64() {
        Some(v) => v,
        None => {
            return Err(
                parse_error(cat2("reading metadata_kv_count: ", "failed to fill whole buffer")),
            );
        },
    };
    let left: usize = cur.remaining();
    match validate_count("tensor_count", tensor_count, MAX_TENSOR_COUNT, left, 24) {
        Ok(_) => {},
        Err(e) => {
            return Err(e);
        },
    }
    match validate_count("metadata_kv_count", metadata_kv_count, MAX_METADATA_KV_COUNT, left, 13) {
        Ok(_) => {},
        Err(e) => {
            return Err(e);
        },
    }
    Ok((version, tensor_count, metadata_kv_count))
}

/// An entry that cannot be read stops the reading of the metadata.
proof fn lemma_entries_stop(data: Seq<u8>, pos: int, n: int, m: int)
    requires
        0 <= n <= m,
        entries_end(data, pos, n) is Err,
    ensures
        entries_end(data, pos, m) == entries_end(data, pos, n),
    decreases m - n,
{
    if n < m {
        lemma_entries_stop(data, pos, n, m - 1);
    }
}

/// A directory entry that cannot be read stops the reading of the directory.
proof fn lemma_records_stop(data: Seq<u8>, pos: int, n: int, m: int)
    requires
        0 <= n <= m,
        records_end(data, pos, n) is Err,
    ensures
        records_end(data, pos, m) == records_end(data, pos, n),
    decreases m - n,
{
    if n < m {
        lemma_records_stop(data, pos, n, m - 1);
    }
}

/// A tensor without a place stops the reading.
proof fn lemma_layouts_stop(
    records: Seq<TensorRecord>,
    n: int,
    m: int,
    start: int,
    file_len: int,
)
    requires
        0 <= n <= m,
        layouts_fault(records, n, start, file_len) is Some,
    ensures
        layouts_fault(records, m, start, file_len) == layouts_fault(records, n, start, file_len),
    decreases m - n,
{
    if n < m {
        lemma_layouts_stop(records, n, m - 1, start, file_len);
    }
}

/// Reads the metadata entries; of entries with one key the last one counts.
fn read_metadata(cur: &mut ByteCursor<'_>, count: u64) -> (r: Result<Metadata, WillametteError>)
    requires
        old(cur).wf(),
    ensures
        final(cur).wf(),
        final(cur).data == old(cur).data,
        match r {
            Ok(table) => {
                &&& entries_end(old(cur).data@, old(cur).pos as int, count as int) == Ok::<
                    int,
                    Seq<char>,
                >(final(cur).pos as int)
                &&& table.wf()
                &&& is_table_of(table@, old(cur).data@, old(cur).pos as int, count as int)
            },
            Err(e) => {
                &&& entries_end(old(cur).data@, old(cur).pos as int, count as int) is Err
                &&& e@ == Fault::GgufParse(
                    entries_end(old(cur).data@, old(cur).pos as int, count as int)->Err_0,
                )
            },
        },
{
    let ghost data = cur.data@;
    let ghost start = cur.pos as int;
    let mut table = Metadata::new();
    let mut i: u64 = 0;
    while i < count
        invariant
            cur.wf(),
            cur.data == old(cur).data,
            data == old(cur).data@,
            start == old(cur).pos,
            i <= count,
            entries_end(data, start, i as int) == Ok::<int, Seq<char>>(cur.pos as int),
            table.wf(),
            is_table_of(table@, data, start, i as int),
        decreases count - i,
    {
        let ghost before = table@;
        let key = match read_gguf_string(cur) {
            Ok(s) => s,
            Err(e) => {
                let index = decimal(i);
                proof {
                    assert(entries_end(data, start, i + 1) is Err);
                    lemma_entries_stop(data, start, i + 1, count as int);
                }
                return Err(
                    parse_error(cat4("metadata[", index.as_str(), "] key: ", e.as_str())),
                );
            },
        };
        let value = match read_gguf_value(cur) {
            Ok(v) => v,
            Err(e) => {
                let index = decimal(i);
                proof {
                    assert(entries_end(data, start, i + 1) is Err);
                    lemma_entries_stop(data, start, i + 1, count as int);
                }
                return Err(
                    parse_error(
                        cat6(
                            "metadata[",
                            index.as_str(),
                            "] (key=\"",
                            key.as_str(),
                            "\") value: ",
                            e.as_str(),
                        ),
                    ),
                );
            },
        };
        let ghost k = key@;
        table.insert(key, value);
        proof {
            assert(k == key_of_entry(data, start, i as int));
            assert forall|x: Seq<char>| #[trigger]
                table@.contains_key(x) == (last_entry(data, start, i + 1, x) is Some) && (
                table@.contains_key(x) ==> holds_value(
                    table@[x],
                    data,
                    value_of_entry(data, start, last_entry(data, start, i + 1, x)->0),
                )) by {
                assert(before.contains_key(x) == (last_entry(data, start, i as int, x) is Some));
            }
        }
        i = i + 1;
    }
    Ok(table)
}

/// Reads the dimensions of a tensor; on failure gives the number of the first
/// one that is missing.
fn read_shape(cur: &mut ByteCursor<'_>, n_dims: u32) -> (r: Result<Vec<u64>, u32>)
    requires
        old(cur).wf(),
        n_dims <= 4,
    ensures
        final(cur).wf(),
        final(cur).data == old(cur).data,
        match r {
            Ok(shape) => {
                &&& final(cur).pos == old(cur).pos + 8 * n_dims
                &&& shape@ =~= Seq::new(
                    n_dims as nat,
                    |d: int| le64(old(cur).data@.skip(old(cur).pos + 8 * d)) as u64,
                )
            },
            Err(d) => {
                &&& old(cur).pos + 8 * n_dims > old(cur).data@.len()
                &&& d == (old(cur).data@.len() - old(cur).pos) / 8
            },
        },
{
    let mut shape: Vec<u64> = Vec::new();
    let mut d: u32 = 0;
    while d < n_dims
        invariant
            cur.wf(),
            cur.data == old(cur).data,
            d <= n_dims <= 4,
            cur.pos == old(cur).pos + 8 * d,
            shape@ =~= Seq::new(
                d as nat,
                |k: int| le64(old(cur).data@.skip(old(cur).pos + 8 * k)) as u64,
            ),
        decreases n_dims - d,
    {
        match cur.take_u64() {
            Some(dim) => {
                shape.push(dim);
            },
            None => {
                return Err(d);
            },
        }
        d = d + 1;
    }
    Ok(shape)
}

/// Reads one directory entry and notes where its type tag stands.
fn read_info(cur: &mut ByteCursor<'_>, i: u64) -> (r: Result<
    (RawTensorInfo, TensorDescriptorLocation),
    WillametteError,
>)
    requires
        old(cur).wf(),
    ensures
        final(cur).wf(),
        final(cur).data == old(cur).data,
        match r {
            Ok((info, at)) => {
                &&& record_end(old(cur).data@, old(cur).pos as int, i as int) == Ok::<
                    int,
                    Seq<char>,
                >(final(cur).pos as int)
                &&& info.record() == record_at(old(cur).data@, old(cur).pos as int)
                &&& at.dtype_offset == dtype_place(old(cur).data@, old(cur).pos as int)
                &&& at.relative_offset_offset == at.dtype_offset + 4
            },
            Err(e) => {
                &&& record_end(old(cur).data@, old(cur).pos as int, i as int) is Err
                &&& e@ == Fault::GgufParse(
                    record_end(old(cur).data@, old(cur).pos as int, i as int)->Err_0,
                )
            },
        },
{
    let index = decimal(i);
    let ghost data = cur.data@;
    let ghost start = cur.pos as int;
    let name = match read_gguf_string(cur) {
        Ok(s) => s,
        Err(e) => {
            return Err(parse_error(cat4("tensor[", index.as_str(), "] name: ", e.as_str())));
        },
    };
    let n_dims: u32 = match cur.take_u32() {
        Some(v) => v,
        None => {
            let label = cat3("tensor[", index.as_str(), "] n_dims: ");
            return Err(parse_error(cat2(label.as_str(), "failed to fill whole buffer")));
        },
    };
    if n_dims > MAX_TENSOR_DIMS {
        let found = decimal(n_dims as u64);
        let most = decimal(MAX_TENSOR_DIMS as u64);
        return Err(
            parse_error(
                cat6(
                    "tensor[",
                    index.as_str(),
                    "] n_dims ",
                    found.as_str(),
                    " exceeds ",
                    most.as_str(),
                ),
            ),
        );
    }
    let shape = match read_shape(cur, n_dims) {
        Ok(shape) => shape,
        Err(d) => {
            let which = decimal(d as u64);
            let label = cat5("tensor[", index.as_str(), "] shape[", which.as_str(), "]: ");
            return Err(parse_error(cat2(label.as_str(), "failed to fill whole buffer")));
        },
    };
    let dtype_offset: u64 = cur.pos as u64;
    let raw_type: u32 = match cur.take_u32() {
        Some(v) => v,
        None => {
            let label = cat3("tensor[", index.as_str(), "] ggml_type: ");
            return Err(parse_error(cat2(label.as_str(), "failed to fill whole buffer")));
        },
    };
    let relative_offset_offset: u64 = cur.pos as u64;
    let relative_offset: u64 = match cur.take_u64() {
        Some(v) => v,
        None => {
            let label = cat3("tensor[", index.as_str(), "] offset: ");
            return Err(parse_error(cat2(label.as_str(), "failed to fill whole buffer")));
        },
    };
    let info = RawTensorInfo {
        name,
        shape,
        ggml_type: GgmlType::from_raw(raw_type),
        relative_offset,
    };
    proof {
        assert(info.record().shape =~= record_at(data, start).shape);
    }
    Ok((info, TensorDescriptorLocation { dtype_offset, relative_offset_offset }))
}

/// Reads the tensor directory.
fn read_directory(cur: &mut ByteCursor<'_>, count: u64) -> (r: Result<
    (Vec<RawTensorInfo>, Vec<TensorDescriptorLocation>),
    WillametteError,
>)
    requires
        old(cur).wf(),
    ensures
        final(cur).wf(),
        final(cur).data == old(cur).data,
        match r {
            Ok((infos, places)) => {
                &&& records_end(old(cur).data@, old(cur).pos as int, count as int) == Ok::<
                    int,
                    Seq<char>,
                >(final(cur).pos as int)
                &&& records(infos@) == records_of(
                    old(cur).data@,
                    old(cur).pos as int,
                    count as int,
                )
                &&& places@.len() == count
                &&& forall|i: int|
                    0 <= i < count ==> locates(
                        #[trigger] places@[i],
                        old(cur).data@,
                        old(cur).pos as int,
                        i,
                    )
            },
            Err(e) => {
                &&& records_end(old(cur).data@, old(cur).pos as int, count as int) is Err
                &&& e@ == Fault::GgufParse(
                    records_end(old(cur).data@, old(cur).pos as int, count as int)->Err_0,
                )
            },
        },
{
    let ghost data = cur.data@;
    let ghost start = cur.pos as int;
    let mut infos: Vec<RawTensorInfo> = Vec::new();
    let mut places: Vec<TensorDescriptorLocation> = Vec::new();
    let mut i: u64 = 0;
    while i < count
        invariant
            cur.wf(),
            cur.data == old(cur).data,
            data == old(cur).data@,
            start == old(cur).pos,
            i <= count,
            records_end(data, start, i as int) == Ok::<int, Seq<char>>(cur.pos as int),
            records(infos@) =~= records_of(data, start, i as int),
            places@.len() == i,
            forall|k: int| 0 <= k < i ==> locates(#[trigger] places@[k], data, start, k),
        decreases count - i,
    {
        let ghost earlier = infos@;
        match read_info(cur, i) {
            Ok((info, at)) => {
                infos.push(info);
                places.push(at);
                proof {
                    assert(records(infos@) =~= records(earlier).push(info.record()));
                    assert(records_of(data, start, i + 1) =~= records_of(
                        data,
                        start,
                        i as int,
                    ).push(info.record()));
                }
            },
            Err(e) => {
                proof {
                    assert(records_end(data, start, i + 1) is Err);
                    lemma_records_stop(data, start, i + 1, count as int);
                }
                return Err(e);
            },
        }
        i = i + 1;
    }
    Ok((infos, places))
}

/// Elements and bytes of one block, for types whose blocks run through the
/// whole tensor.
fn block_units_of(t: GgmlType) -> (r: Option<(u64, u64)>)
    ensures
        match r {
            Some((elements, bytes)) => block_units(t) == Some((elements as int, bytes as int))
                && elements > 0,
            None => block_units(t) is None,
        },
{
    match t {
        GgmlType::F32 => Some((1, 4)),
        GgmlType::F16 => Some((1, 2)),
        GgmlType::BF16 => Some((1, 2)),
        GgmlType::F64 => Some((1, 8)),
        GgmlType::I8 => Some((1, 1)),
        GgmlType::I16 => Some((1, 2)),
        GgmlType::I32 => Some((1, 4)),
        GgmlType::I64 => Some((1, 8)),
        GgmlType::Q4_1 => Some((32, 20)),
        GgmlType::Q5_0 => Some((32, 22)),
        GgmlType::Q5_1 => Some((32, 24)),
        GgmlType::Q8_1 => Some((32, 40)),
        GgmlType::Q2K => Some((256, 84)),
        GgmlType::Q3K => Some((256, 110)),
        GgmlType::Q5K => Some((256, 176)),
        GgmlType::Q8K => Some((256, 292)),
        GgmlType::BitNetI2S => Some((128, 32)),
        GgmlType::BitNetI8S => Some((1, 1)),
        _ => None,
    }
}

/// The outcome of a row-block length as a plain value and text.
fn row_blocks_of(r: Result<u64, WillametteError>) -> (out: Result<Option<u64>, String>)
    ensures
        match r {
            Ok(n) => out == Ok::<Option<u64>, String>(Some(n)),
            Err(e) => out matches Err(text) && text@ == crate::error::fault_text(e@),
        },
{
    match r {
        Ok(n) => Ok(Some(n)),
        Err(e) => Err(e.message()),
    }
}

/// The bytes of a tensor of a shape and a type.
pub fn compute_tensor_byte_len(shape: &[u64], ggml_type: GgmlType) -> (r: Result<
    Option<u64>,
    String,
>)
    ensures
        match r {
            Ok(None) => tensor_bytes(shape@, ggml_type) == Ok::<Option<int>, Seq<char>>(None),
            Ok(Some(n)) => tensor_bytes(shape@, ggml_type) == Ok::<Option<int>, Seq<char>>(
                Some(n as int),
            ),
            Err(e) => tensor_bytes(shape@, ggml_type) == Err::<Option<int>, Seq<char>>(e@),
        },
{
    match ggml_type {
        GgmlType::Q4_0 => {
            return row_blocks_of(TensorView::q4_0_expected_byte_len(shape));
        },
        GgmlType::Q6K => {
            return row_blocks_of(TensorView::q6k_expected_byte_len(shape));
        },
        GgmlType::Q4K => {
            return row_blocks_of(TensorView::q4k_expected_byte_len(shape));
        },
        GgmlType::Q8_0 => {
            return row_blocks_of(TensorView::q8_0_expected_byte_len(shape));
        },
        _ => {},
    }
    let (block_size, bytes_per_block) = match block_units_of(ggml_type) {
        Some(units) => units,
        None => {
            return Ok(None);
        },
    };
    let n_elements: u64 = match checked_product(shape) {
        Ok(n) => n,
        Err(d) => {
            let dim = decimal(d);
            return Err(
                cat2("shape product overflow while multiplying by dimension ", dim.as_str()),
            );
        },
    };
    if n_elements == 0 {
        return Ok(Some(0));
    }
    if n_elements % block_size != 0 {
        let count = decimal(n_elements);
        let size = decimal(block_size);
        let name = ggml_type.name();
        return Err(
            cat6(
                "element count ",
                count.as_str(),
                " is not divisible by block size ",
                size.as_str(),
                " for type ",
                name.as_str(),
            ),
        );
    }
    match (n_elements / block_size).checked_mul(bytes_per_block) {
        Some(n) => Ok(Some(n)),
        None => {
            let name = ggml_type.name();
            Err(cat2("byte length overflow for type ", name.as_str()))
        },
    }
}

/// Whether another tensor has the same offset.
fn offset_is_shared(infos: &Vec<RawTensorInfo>, i: usize) -> (b: bool)
    requires
        i < infos@.len(),
    ensures
        b == shares_offset(records(infos@), i as int),
{
    let mut j: usize = 0;
    while j < infos.len()
        invariant
            j <= infos.len(),
            i < infos@.len(),
            forall|k: int|
                0 <= k < j && k != i ==> (#[trigger] records(infos@)[k]).relative_offset
                    != records(infos@)[i as int].relative_offset,
        decreases infos.len() - j,
    {
        if j != i && infos[j].relative_offset == infos[i].relative_offset {
            proof {
                assert(records(infos@)[j as int].relative_offset == records(
                    infos@,
                )[i as int].relative_offset);
            }
            return true;
        }
        j = j + 1;
    }
    false
}

/// The smallest offset above `x`.
fn next_offset(infos: &Vec<RawTensorInfo>, x: u64) -> (r: Option<u64>)
    ensures
        r == next_above(records(infos@), x, infos@.len() as int),
{
    let mut best: Option<u64> = None;
    let mut j: usize = 0;
    while j < infos.len()
        invariant
            j <= infos.len(),
            best == next_above(records(infos@), x, j as int),
        decreases infos.len() - j,
    {
        let o: u64 = infos[j].relative_offset;
        proof {
            assert(records(infos@)[j as int].relative_offset == o);
        }
        match best {
            None => {
                if o > x {
                    best = Some(o);
                }
            },
            Some(b) => {
                if o > x && o < b {
                    best = Some(o);
                }
            },
        }
        j = j + 1;
    }
    best
}

/// The scale block behind an I2_S tensor that ends at `end`.
fn scale_block<'a>(
    data: &'a [u8],
    info: &RawTensorInfo,
    end: u64,
    next: Option<u64>,
    Ghost(relative_next): Ghost<Option<u64>>,
    Ghost(start): Ghost<int>,
) -> (r: Result<&'a [u8], WillametteError>)
    requires
        end <= data@.len(),
        next is Some <==> relative_next is Some,
        next is Some ==> next->0 == start + relative_next->0,
    ensures
        match r {
            Ok(block) => scale_fault(
                info.record(),
                end as int,
                relative_next,
                start,
                data@.len() as int,
            ) is None && end + 32 <= data@.len() && block@ == data@.subrange(
                end as int,
                end + 32,
            ),
            Err(e) => scale_fault(
                info.record(),
                end as int,
                relative_next,
                start,
                data@.len() as int,
            ) == Some(e@),
        },
{
    let file_len: u64 = data.len() as u64;
    let stop: u64 = match end.checked_add(TensorView::I2S_TRAILING_SCALE_BLOCK_BYTES) {
        Some(n) => n,
        None => {
            return Err(
                parse_error(
                    cat3("tensor \"", info.name.as_str(), "\" scale-block offset overflow"),
                ),
            );
        },
    };
    if stop > file_len {
        return Err(
            WillametteError::TensorOutOfBounds {
                name: cat2(info.name.as_str(), " (scale block)"),
                offset: end,
                end: stop,
                file_len,
            },
        );
    }
    match next {
        Some(limit) => {
            if stop > limit {
                let found = decimal(stop);
                let at = decimal(limit);
                return Err(
                    parse_error(
                        cat6(
                            "I2_S tensor \"",
                            info.name.as_str(),
                            "\" scale block ends at ",
                            found.as_str(),
                            ", overlapping next tensor at ",
                            at.as_str(),
                        ),
                    ),
                );
            }
        },
        None => {},
    }
    Ok(slice_subrange(data, end as usize, stop as usize))
}

/// The view of one tensor: its bytes and, for I2_S, its scale block.
fn place_tensor<'a>(
    data: &'a [u8],
    infos: &Vec<RawTensorInfo>,
    i: usize,
    start: u64,
) -> (r: Result<TensorView<'a>, WillametteError>)
    requires
        i < infos@.len(),
    ensures
        match r {
            Ok(t) => {
                let record = records(infos@)[i as int];
                let from = start + record.relative_offset;
                let len = tensor_bytes(record.shape, record.ggml_type)->Ok_0->0;
                &&& layout_fault(
                    records(infos@),
                    i as int,
                    start as int,
                    data@.len() as int,
                ) is None
                &&& t.name@ == record.name
                &&& t.shape@ == record.shape
                &&& t.ggml_type == record.ggml_type
                &&& t.offset == from
                &&& t.byte_len == len
                &&& t.data@ == data@.subrange(from, from + len)
                &&& match t.scale_data {
                    Some(block) => record.ggml_type == GgmlType::BitNetI2S && block@
                        == data@.subrange(from + len, from + len + 32),
                    None => record.ggml_type != GgmlType::BitNetI2S,
                }
            },
            Err(e) => layout_fault(
                records(infos@),
                i as int,
                start as int,
                data@.len() as int,
            ) == Some(e@),
        },
{
    let file_len: u64 = data.len() as u64;
    let info = &infos[i];
    let ghost all = records(infos@);
    proof {
        assert(all[i as int] == info.record());
    }
    let from: u64 = match start.checked_add(info.relative_offset) {
        Some(n) => n,
        None => {
            return Err(
                parse_error(cat3("tensor \"", info.name.as_str(), "\" offset overflow")),
            );
        },
    };
    if offset_is_shared(infos, i) {
        let offset = decimal(info.relative_offset);
        return Err(
            parse_error(
                cat5(
                    "tensor \"",
                    info.name.as_str(),
                    "\" shares data offset ",
                    offset.as_str(),
                    " with another tensor",
                ),
            ),
        );
    }
    let relative_next = next_offset(infos, info.relative_offset);
    let next: Option<u64> = match relative_next {
        None => None,
        Some(o) => match start.checked_add(o) {
            Some(n) => Some(n),
            None => {
                return Err(
                    parse_error(
                        cat3("tensor \"", info.name.as_str(), "\" next offset overflow"),
                    ),
                );
            },
        },
    };
    let byte_len: u64 = match compute_tensor_byte_len(info.shape.as_slice(), info.ggml_type) {
        Err(e) => {
            return Err(parse_error(cat4("tensor \"", info.name.as_str(), "\": ", e.as_str())));
        },
        Ok(None) => {
            let name = info.ggml_type.name();
            return Err(
                parse_error(
                    cat5(
                        "tensor \"",
                        info.name.as_str(),
                        "\" has unsupported type ",
                        name.as_str(),
                        "; byte length is unknown",
                    ),
                ),
            );
        },
        Ok(Some(n)) => n,
    };
    let end: u64 = match from.checked_add(byte_len) {
        Some(n) => n,
        None => {
            return Err(
                parse_error(cat3("tensor \"", info.name.as_str(), "\" end offset overflow")),
            );
        },
    };
    if end > file_len {
        return Err(
            WillametteError::TensorOutOfBounds {
                name: info.name.clone(),
                offset: from,
                end,
                file_len,
            },
        );
    }
    match next {
        Some(limit) => {
            if end > limit {
                let low = decimal(from);
                let high = decimal(end);
                let at = decimal(limit);
                return Err(
                    parse_error(
                        cat8(
                            "tensor \"",
                            info.name.as_str(),
                            "\" range ",
                            low.as_str(),
                            "..",
                            high.as_str(),
                            " overlaps next tensor at ",
                            at.as_str(),
                        ),
                    ),
                );
            }
        },
        None => {},
    }
    let bytes = slice_subrange(data, from as usize, end as usize);
    let scale_data = if info.ggml_type == GgmlType::BitNetI2S {
        match scale_block(data, info, end, next, Ghost(relative_next), Ghost(start as int)) {
            Ok(block) => Some(block),
            Err(e) => {
                return Err(e);
            },
        }
    } else {
        None
    };
    Ok(
        TensorView {
            name: info.name.clone(),
            shape: copy_shape(&info.shape),
            ggml_type: info.ggml_type,
            offset: from,
            byte_len,
            data: bytes,
            scale_data,
        },
    )
}

/// A copy of a list of dimensions.
pub(crate) fn copy_shape(shape: &Vec<u64>) -> (r: Vec<u64>)
    ensures
        r@ == shape@,
{
    let mut r: Vec<u64> = Vec::new();
    let mut i: usize = 0;
    while i < shape.len()
        invariant
            i <= shape.len(),
            r@ =~= shape@.take(i as int),
        decreases shape.len() - i,
    {
        r.push(shape[i]);
        i = i + 1;
    }
    proof {
        assert(shape@.take(shape@.len() as int) =~= shape@);
    }
    r
}

/// The alignment that the metadata states, or the default.
fn alignment_from(metadata: &Metadata, Ghost(data): Ghost<Seq<u8>>) -> (n: u64)
    requires
        metadata.wf(),
        is_table_of(metadata@, data, 24, kv_count_of(data)),
    ensures
        n == alignment_of(data),
{
    let stated: Option<u64> = match metadata.get("general.alignment") {
        Some(v) => v.as_u64(),
        None => None,
    };
    proof {
        let key = "general.alignment"@;
        let last = last_entry(data, 24, kv_count_of(data), key);
        assert(metadata@.contains_key(key) == (last is Some));
        if last is Some {
            count_of_value_is_count_of_bytes(
                metadata@[key],
                data,
                value_of_entry(data, 24, last->0),
            );
        }
    }
    match stated {
        Some(n) => n,
        None => GGUF_DEFAULT_ALIGNMENT,
    }
}

/// The views of all tensors.
fn place_tensors<'a>(data: &'a [u8], infos: &Vec<RawTensorInfo>, start: u64) -> (r: Result<
    Vec<TensorView<'a>>,
    WillametteError,
>)
    requires
        records(infos@) == directory_of(data@),
        start == section_start(data@),
        infos@.len() == tensor_count_of(data@),
    ensures
        match r {
            Ok(tensors) => {
                &&& layouts_fault(
                    directory_of(data@),
                    tensor_count_of(data@),
                    start as int,
                    data@.len() as int,
                ) is None
                &&& tensors@.len() == tensor_count_of(data@)
                &&& forall|k: int|
                    0 <= k < tensors@.len() ==> is_tensor_of(#[trigger] tensors@[k], data@, k)
            },
            Err(e) => layouts_fault(
                directory_of(data@),
                tensor_count_of(data@),
                start as int,
                data@.len() as int,
            ) == Some(e@),
        },
{
    let mut tensors: Vec<TensorView<'a>> = Vec::new();
    let mut i: usize = 0;
    while i < infos.len()
        invariant
            i <= infos.len(),
            infos@.len() == tensor_count_of(data@),
            start == section_start(data@),
            records(infos@) == directory_of(data@),
            layouts_fault(
                directory_of(data@),
                i as int,
                start as int,
                data@.len() as int,
            ) is None,
            tensors@.len() == i,
            forall|k: int| 0 <= k < i ==> is_tensor_of(#[trigger] tensors@[k], data@, k),
        decreases infos.len() - i,
    {
        match place_tensor(data, infos, i, start) {
            Ok(t) => {
                tensors.push(t);
            },
            Err(e) => {
                proof {
                    lemma_layouts_stop(
                        directory_of(data@),
                        i + 1,
                        tensor_count_of(data@),
                        start as int,
                        data@.len() as int,
                    );
                }
                return Err(e);
            },
        }
        i = i + 1;
    }
    Ok(tensors)
}

impl<'a> GgufFile<'a> {
    /// Reads a whole file. Every input gives a file or an error; which one,
    /// and which error, depends on the bytes alone.
    pub fn parse(data: &'a [u8]) -> (r: Result<Self, WillametteError>)
        ensures
            match r {
                Ok(file) => file_fault(data@) is None && file.describes(data@),
                Err(e) => file_fault(data@) == Some(e@),
            },
    {
        let file_len: u64 = data.len() as u64;
        let mut cur = ByteCursor { data, pos: 0 };
        let (version, tensor_count, metadata_kv_count) = match read_header(&mut cur) {
            Ok(h) => h,
            Err(e) => {
                return Err(e);
            },
        };
        let metadata = match read_metadata(&mut cur, metadata_kv_count) {
            Ok(m) => m,
            Err(e) => {
                return Err(e);
            },
        };
        let alignment: u64 = alignment_from(&metadata, Ghost(data@));
        if alignment == 0 || !alignment.is_power_of_two() {
            let number = decimal(alignment);
            proof {
                lemma_power_of_two_positive(alignment as int);
            }
            return Err(parse_error(cat2("invalid alignment value: ", number.as_str())));
        }
        match validate_count("tensor_count", tensor_count, MAX_TENSOR_COUNT, cur.remaining(), 24) {
            Ok(_) => {},
            Err(e) => {
                return Err(e);
            },
        }
        let (infos, tensor_descriptors) = match read_directory(&mut cur, tensor_count) {
            Ok(d) => d,
            Err(e) => {
                return Err(e);
            },
        };
        proof {
            assert(records(infos@) =~= directory_of(data@));
            assert(infos@.len() == records(infos@).len());
        }
        let header_end: u64 = cur.pos as u64;
        let start: u64 = match align_offset(header_end, alignment) {
            Some(n) => n,
            None => {
                return Err(parse_error(owned("tensor data section offset overflow")));
            },
        };
        if infos.len() != 0 && start > file_len {
            let from = decimal(start);
            let size = decimal(file_len);
            return Err(
                parse_error(
                    cat4(
                        "tensor data section starts beyond EOF: ",
                        from.as_str(),
                        " > ",
                        size.as_str(),
                    ),
                ),
            );
        }
        let tensors = match place_tensors(data, &infos, start) {
            Ok(t) => t,
            Err(e) => {
                return Err(e);
            },
        };
        Ok(
            GgufFile {
                version,
                tensor_count,
                metadata,
                tensors,
                alignment,
                data_section_start: start,
                tensor_descriptors,
            },
        )
    }
}

/// A power of two is not zero.
pub(crate) proof fn lemma_power_of_two_positive(n: int)
    ensures
        power_of_two(n) ==> n > 0,
{
    if power_of_two(n) {
        let k = choose|k: nat| n == #[trigger] vstd::arithmetic::power2::pow2(k);
        vstd::arithmetic::power2::lemma_pow2_pos(k);
    }
}

} // verus!
