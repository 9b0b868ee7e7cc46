//! What is said of a file and its contents: values as text, and the listing of
//! metadata and tensors.

use crate::chat::stops::{floor_char_boundary, floor_cut, floor_cut_is_last};
use crate::cut::{byte_len, cut, left_of};
use crate::gguf::metadata::Metadata;
use crate::gguf::reader::GgufFile;
use crate::gguf::tensor::TensorView;
use crate::gguf::types::{ggml_name, raw_of_type};
use crate::gguf::value::GgufValue;
use crate::quotient::{quotient, quotient_text};
use crate::text::{
    begins_with, bracket, bracketed, cat2, cat3, cat4, cat5, cat6, chars_of, dec, decimal, hex,
    hexadecimal, join, joined, occurs_at, owned, pad_left, pad_right, padded_left, padded_right,
    repeat_char, repeated, signed_dec, signed_decimal, views,
};
use byteorder::{ByteOrder, LittleEndian};
use vstd::prelude::*;
use vstd::utf8::encode_utf8;

verus! {

/// What std's `Display` writes for the single-precision number with some bits.
pub uninterp spec fn shown_single(bits: u32) -> Seq<char>;

/// What std's `Display` writes for the double-precision number with some bits.
pub uninterp spec fn shown_double(bits: u64) -> Seq<char>;

/// Reads a single-precision number with `byteorder::ByteOrder::read_f32` and
/// formats it with std's `Display`; the result is a function of the bits.
#[verifier::external_body]
fn single_text(bits: u32) -> (r: String)
    ensures
        r@ == shown_single(bits),
{
    format!("{}", LittleEndian::read_f32(&bits.to_le_bytes()))
}

/// Reads a double-precision number with `byteorder::ByteOrder::read_f64` and
/// formats it with std's `Display`; the result is a function of the bits.
#[verifier::external_body]
fn double_text(bits: u64) -> (r: String)
    ensures
        r@ == shown_double(bits),
{
    format!("{}", LittleEndian::read_f64(&bits.to_le_bytes()))
}

/// The longest beginning of a text that takes at most a number of bytes.
pub open spec fn prefix_within(s: Seq<char>, max_bytes: int) -> Seq<char> {
    if encode_utf8(s).len() <= max_bytes {
        s
    } else {
        left_of(s, floor_cut(s, max_bytes))
    }
}

/// The longest beginning of a text that takes at most a number of bytes.
pub fn safe_truncate(s: &str, max_bytes: usize) -> (r: &str)
    ensures
        r@ == prefix_within(s@, max_bytes as int),
{
    if byte_len(s) <= max_bytes {
        return s;
    }
    let at = floor_char_boundary(s, max_bytes);
    proof {
        floor_cut_is_last(s@, max_bytes as int);
    }
    cut(s, at).0
}

/// A text that is cut off to a number of characters, with an ellipsis behind
/// what is left.
pub open spec fn cut_off(s: Seq<char>, max: int) -> Seq<char> {
    if s.len() <= max {
        s
    } else if max <= 0 {
        "…"@
    } else {
        s.take(max - 1) + "…"@
    }
}

/// A text that is cut off to a number of characters.
pub fn truncate(s: &str, max: usize) -> (r: String)
    ensures
        r@ == cut_off(s@, max as int),
{
    if s.unicode_len() <= max {
        return owned(s);
    }
    if max == 0 {
        return owned("…");
    }
    let kept = s.substring_char(0, max - 1);
    proof {
        assert(kept@ =~= s@.take(max - 1));
    }
    cat2(kept, "…")
}

/// A truth value as text.
pub open spec fn bool_text(b: bool) -> Seq<char> {
    if b {
        "true"@
    } else {
        "false"@
    }
}

/// A truth value as text.
fn show_bool(b: bool) -> (r: String)
    ensures
        r@ == bool_text(b),
{
    if b {
        owned("true")
    } else {
        owned("false")
    }
}

/// A value in a list.
pub open spec fn compact_text(v: GgufValue) -> Seq<char> {
    match v {
        GgufValue::Uint8(x) => dec(x as int),
        GgufValue::Int8(x) => signed_dec(x as int),
        GgufValue::Uint16(x) => dec(x as int),
        GgufValue::Int16(x) => signed_dec(x as int),
        GgufValue::Uint32(x) => dec(x as int),
        GgufValue::Int32(x) => signed_dec(x as int),
        GgufValue::Float32(x) => shown_single(x),
        GgufValue::Bool(x) => bool_text(x),
        GgufValue::Uint64(x) => dec(x as int),
        GgufValue::Int64(x) => signed_dec(x as int),
        GgufValue::Float64(x) => shown_double(x),
        GgufValue::Str(s) => {
            let body = prefix_within(s@, 48);
            if encode_utf8(body).len() < encode_utf8(s@).len() {
                "\""@ + body + "…\""@
            } else {
                "\""@ + body + "\""@
            }
        },
        GgufValue::Array(items) => "array(len="@ + dec(items@.len() as int) + ")"@,
    }
}

/// The first `n` values of a list.
pub open spec fn compact_texts(items: Seq<GgufValue>, n: int) -> Seq<Seq<char>> {
    Seq::new(n as nat, |i: int| compact_text(items[i]))
}

/// A value with its type; of a list the first five values.
pub open spec fn value_text(v: GgufValue) -> Seq<char> {
    match v {
        GgufValue::Uint8(x) => "u8   "@ + dec(x as int),
        GgufValue::Int8(x) => "i8   "@ + signed_dec(x as int),
        GgufValue::Uint16(x) => "u16  "@ + dec(x as int),
        GgufValue::Int16(x) => "i16  "@ + signed_dec(x as int),
        GgufValue::Uint32(x) => "u32  "@ + dec(x as int),
        GgufValue::Int32(x) => "i32  "@ + signed_dec(x as int),
        GgufValue::Float32(x) => "f32  "@ + shown_single(x),
        GgufValue::Bool(x) => "bool "@ + bool_text(x),
        GgufValue::Uint64(x) => "u64  "@ + dec(x as int),
        GgufValue::Int64(x) => "i64  "@ + signed_dec(x as int),
        GgufValue::Float64(x) => "f64  "@ + shown_double(x),
        GgufValue::Str(s) => {
            let body = prefix_within(s@, 240);
            if encode_utf8(body).len() < encode_utf8(s@).len() {
                "str  \""@ + body + "…\" ("@ + dec(encode_utf8(s@).len() as int)
                    + " bytes total)"@
            } else {
                "str  \""@ + body + "\""@
            }
        },
        GgufValue::Array(items) => {
            let n = if items@.len() < 5 {
                items@.len() as int
            } else {
                5
            };
            "array(len="@ + dec(items@.len() as int) + ") ["@ + joined(
                compact_texts(items@, n),
                ", "@,
            ) + (if items@.len() > n {
                ", …"@
            } else {
                ""@
            }) + "]"@
        },
    }
}

/// A value in a list.
fn format_value_compact(v: &GgufValue) -> (r: String)
    ensures
        r@ == compact_text(*v),
{
    match v {
        GgufValue::Uint8(x) => decimal(*x as u64),
        GgufValue::Int8(x) => signed_decimal(*x as i64),
        GgufValue::Uint16(x) => decimal(*x as u64),
        GgufValue::Int16(x) => signed_decimal(*x as i64),
        GgufValue::Uint32(x) => decimal(*x as u64),
        GgufValue::Int32(x) => signed_decimal(*x as i64),
        GgufValue::Float32(x) => single_text(*x),
        GgufValue::Bool(x) => show_bool(*x),
        GgufValue::Uint64(x) => decimal(*x),
        GgufValue::Int64(x) => signed_decimal(*x),
        GgufValue::Float64(x) => double_text(*x),
        GgufValue::Str(s) => {
            let body = safe_truncate(s.as_str(), 48);
            if byte_len(body) < byte_len(s.as_str()) {
                cat3("\"", body, "…\"")
            } else {
                cat3("\"", body, "\"")
            }
        },
        GgufValue::Array(items) => {
            let n = decimal(items.len() as u64);
            cat3("array(len=", n.as_str(), ")")
        },
    }
}

/// A type and a value.
fn typed(label: &str, value: String) -> (r: String)
    ensures
        r@ == label@ + value@,
{
    cat2(label, value.as_str())
}

/// A value with its type; of a list the first five values.
pub fn format_value(v: &GgufValue) -> (r: String)
    ensures
        r@ == value_text(*v),
{
    match v {
        GgufValue::Uint8(x) => typed("u8   ", decimal(*x as u64)),
        GgufValue::Int8(x) => typed("i8   ", signed_decimal(*x as i64)),
        GgufValue::Uint16(x) => typed("u16  ", decimal(*x as u64)),
        GgufValue::Int16(x) => typed("i16  ", signed_decimal(*x as i64)),
        GgufValue::Uint32(x) => typed("u32  ", decimal(*x as u64)),
        GgufValue::Int32(x) => typed("i32  ", signed_decimal(*x as i64)),
        GgufValue::Float32(x) => typed("f32  ", single_text(*x)),
        GgufValue::Bool(x) => typed("bool ", show_bool(*x)),
        GgufValue::Uint64(x) => typed("u64  ", decimal(*x)),
        GgufValue::Int64(x) => typed("i64  ", signed_decimal(*x)),
        GgufValue::Float64(x) => typed("f64  ", double_text(*x)),
        GgufValue::Str(s) => {
            let body = safe_truncate(s.as_str(), 240);
            let total = byte_len(s.as_str());
            if byte_len(body) < total {
                let n = decimal(total as u64);
                cat5("str  \"", body, "…\" (", n.as_str(), " bytes total)")
            } else {
                cat3("str  \"", body, "\"")
            }
        },
        GgufValue::Array(items) => {
            let n: usize = if items.len() < 5 {
                items.len()
            } else {
                5
            };
            let mut parts: Vec<String> = Vec::new();
            let mut i: usize = 0;
            proof {
                assert(views(parts@) =~= compact_texts(items@, 0));
            }
            while i < n
                invariant
                    i <= n <= items@.len(),
                    views(parts@) == compact_texts(items@, i as int),
                decreases n - i,
            {
                let part = format_value_compact(&items[i]);
                let ghost before = views(parts@);
                parts.push(part);
                i = i + 1;
                proof {
                    assert(views(parts@) =~= before.push(part@));
                    assert(compact_texts(items@, i as int) =~= before.push(part@));
                }
            }
            let list = join(&parts, ", ");
            let count = decimal(items.len() as u64);
            let more = if items.len() > n {
                ", …"
            } else {
                ""
            };
            cat6("array(len=", count.as_str(), ") [", list.as_str(), more, "]")
        },
    }
}

/// The order of texts: by their first characters that differ, and a beginning
/// before what it is a beginning of.
pub open spec fn precedes(a: Seq<char>, b: Seq<char>) -> bool
    decreases a.len(),
{
    if b.len() == 0 {
        false
    } else if a.len() == 0 {
        true
    } else if a[0] != b[0] {
        a[0] < b[0]
    } else {
        precedes(a.drop_first(), b.drop_first())
    }
}

/// Of two different texts one comes first.
pub proof fn texts_are_ordered(a: Seq<char>, b: Seq<char>)
    ensures
        a == b || precedes(a, b) || precedes(b, a),
        !(precedes(a, b) && precedes(b, a)),
        !precedes(a, a),
    decreases a.len(),
{
    if a.len() > 0 {
        texts_are_ordered(a.drop_first(), a.drop_first());
    }
    if a.len() > 0 && b.len() > 0 && a[0] == b[0] {
        texts_are_ordered(a.drop_first(), b.drop_first());
        if a.drop_first() == b.drop_first() {
            assert(a =~= seq![a[0]] + a.drop_first());
            assert(b =~= seq![b[0]] + b.drop_first());
        }
    } else if a.len() == 0 && b.len() == 0 {
        assert(a =~= b);
    }
}

/// What comes before something that comes before a text comes before it too.
pub proof fn order_is_transitive(a: Seq<char>, b: Seq<char>, c: Seq<char>)
    requires
        precedes(a, b),
        precedes(b, c),
    ensures
        precedes(a, c),
    decreases a.len(),
{
    if a.len() > 0 && a[0] == b[0] && b[0] == c[0] {
        order_is_transitive(a.drop_first(), b.drop_first(), c.drop_first());
    }
}

/// Whether a text comes before another.
fn comes_before(a: &str, b: &str) -> (r: bool)
    ensures
        r == precedes(a@, b@),
{
    let x = chars_of(a);
    let y = chars_of(b);
    let mut i: usize = 0;
    proof {
        assert(x@.skip(0) =~= a@);
        assert(y@.skip(0) =~= b@);
    }
    while i < x.len() && i < y.len() && x[i] == y[i]
        invariant
            i <= x@.len(),
            i <= y@.len(),
            precedes(x@.skip(i as int), y@.skip(i as int)) == precedes(a@, b@),
        decreases x.len() - i,
    {
        proof {
            assert(x@.skip(i as int).drop_first() =~= x@.skip(i + 1));
            assert(y@.skip(i as int).drop_first() =~= y@.skip(i + 1));
        }
        i = i + 1;
    }
    if i >= y.len() {
        return false;
    }
    if i >= x.len() {
        return true;
    }
    x[i] < y[i]
}

/// The groups in which metadata is listed.
#[derive(Debug, Clone, Copy, PartialEq, Eq, Structural)]
pub enum KeyGroup {
    General,
    Tokenizer,
    Other,
}

/// The group of a key.
pub open spec fn group_of(key: Seq<char>) -> KeyGroup {
    if occurs_at(key, "general."@, 0) {
        KeyGroup::General
    } else if occurs_at(key, "tokenizer."@, 0) {
        KeyGroup::Tokenizer
    } else {
        KeyGroup::Other
    }
}

/// The group of a key.
fn group_key(key: &str) -> (g: KeyGroup)
    ensures
        g == group_of(key@),
{
    if begins_with(key, "general.") {
        KeyGroup::General
    } else if begins_with(key, "tokenizer.") {
        KeyGroup::Tokenizer
    } else {
        KeyGroup::Other
    }
}

/// Texts that rise.
pub open spec fn rising(keys: Seq<Seq<char>>) -> bool {
    forall|i: int, j: int|
        0 <= i < j < keys.len() ==> precedes(#[trigger] keys[i], #[trigger] keys[j])
}

/// `keys` are the keys of a group of a table, in order.
pub open spec fn lists_group(
    keys: Seq<Seq<char>>,
    table: Map<Seq<char>, GgufValue>,
    group: KeyGroup,
) -> bool {
    &&& rising(keys)
    &&& forall|key: Seq<char>| #[trigger]
        keys.contains(key) <==> table.contains_key(key) && group_of(key) == group
}

/// Puts a new key in its place.
fn insert_key(keys: &mut Vec<String>, key: &str)
    requires
        rising(views(old(keys)@)),
        !views(old(keys)@).contains(key@),
    ensures
        rising(views(final(keys)@)),
        forall|k: Seq<char>| #[trigger]
            views(final(keys)@).contains(k) <==> views(old(keys)@).contains(k) || k == key@,
{
    let ghost before = views(keys@);
    let mut p: usize = 0;
    while p < keys.len() && !comes_before(key, keys[p].as_str())
        invariant
            p <= keys@.len(),
            views(keys@) == before,
            !before.contains(key@),
            forall|q: int| 0 <= q < p ==> precedes(#[trigger] before[q], key@),
        decreases keys.len() - p,
    {
        proof {
            assert(before[p as int] == keys@[p as int]@);
            assert(before.contains(before[p as int]));
            texts_are_ordered(key@, before[p as int]);
        }
        p = p + 1;
    }
    keys.insert(p, owned(key));
    proof {
        let after = views(keys@);
        assert(after =~= before.insert(p as int, key@));
        assert forall|i: int, j: int| 0 <= i < j < after.len() implies precedes(
            #[trigger] after[i],
            #[trigger] after[j],
        ) by {
            if i == p {
                assert(precedes(key@, before[p as int]));
                if j > p + 1 {
                    assert(precedes(before[p as int], before[j - 1]));
                    order_is_transitive(key@, before[p as int], before[j - 1]);
                }
            } else if j == p {
                assert(precedes(before[i], key@));
            } else {
                let a = if i < p { i } else { i - 1 };
                let b = if j < p { j } else { j - 1 };
                assert(precedes(before[a], before[b]));
            }
        }
        assert forall|k: Seq<char>| #[trigger] after.contains(k) <==> before.contains(k) || k
            == key@ by {
            if after.contains(k) {
                let i = choose|i: int| 0 <= i < after.len() && after[i] == k;
                if i < p {
                    assert(before[i] == k);
                } else if i > p {
                    assert(before[i - 1] == k);
                }
            }
            if before.contains(k) {
                let i = choose|i: int| 0 <= i < before.len() && before[i] == k;
                if i < p {
                    assert(after[i] == k);
                } else {
                    assert(after[i + 1] == k);
                }
            }
            if k == key@ {
                assert(after[p as int] == k);
            }
        }
    }
}

/// The keys of a group, in order.
fn sorted_keys(metadata: &Metadata, group: KeyGroup) -> (keys: Vec<String>)
    requires
        metadata.wf(),
    ensures
        lists_group(views(keys@), metadata@, group),
{
    let mut keys: Vec<String> = Vec::new();
    let mut i: usize = 0;
    while i < metadata.len()
        invariant
            i <= metadata.size(),
            metadata.wf(),
            rising(views(keys@)),
            forall|k: Seq<char>| #[trigger]
                views(keys@).contains(k) <==> group_of(k) == group && exists|j: int|
                    0 <= j < i && #[trigger] metadata.key_at(j) == k,
        decreases metadata.size() - i,
    {
        let (key, value) = metadata.entry(i);
        let ghost before = views(keys@);
        if group_key(key) == group {
            proof {
                if before.contains(key@) {
                    let j = choose|j: int| 0 <= j < i && #[trigger] metadata.key_at(j) == key@;
                    metadata.places_hold_different_keys(j, i as int);
                }
            }
            insert_key(&mut keys, key);
        }
        proof {
            assert forall|k: Seq<char>| #[trigger]
                views(keys@).contains(k) <==> group_of(k) == group && exists|j: int|
                    0 <= j < i + 1 && #[trigger] metadata.key_at(j) == k by {
                if views(keys@).contains(k) {
                    if before.contains(k) {
                        let j = choose|j: int| 0 <= j < i && #[trigger] metadata.key_at(j) == k;
                        assert(0 <= j < i + 1 && metadata.key_at(j) == k);
                    } else {
                        assert(metadata.key_at(i as int) == k);
                    }
                }
            }
        }
        i = i + 1;
    }
    proof {
        assert forall|k: Seq<char>| #[trigger]
            views(keys@).contains(k) <==> metadata@.contains_key(k) && group_of(k) == group by {
            metadata.keys_stand_in_places(k);
        }
    }
    keys
}

/// The listing of a group.
pub open spec fn section_lines(
    title: Seq<char>,
    keys: Seq<Seq<char>>,
    table: Map<Seq<char>, GgufValue>,
) -> Seq<Seq<char>> {
    let head = "--- "@ + title + " ("@ + dec(keys.len() as int) + ") ---"@;
    let body = if keys.len() == 0 {
        seq!["  (none)"@]
    } else {
        Seq::new(
            keys.len(),
            |i: int| "  "@ + padded_right(keys[i], 40) + " = "@ + value_text(table[keys[i]]),
        )
    };
    (seq![head] + body).push(""@)
}

/// Lists a group of the metadata: its keys in order, each with its value.
pub fn metadata_section(title: &str, metadata: &Metadata, group: KeyGroup) -> (lines: Vec<String>)
    requires
        metadata.wf(),
    ensures
        exists|keys: Seq<Seq<char>>| #[trigger]
            lists_group(keys, metadata@, group) && views(lines@) == section_lines(
                title@,
                keys,
                metadata@,
            ),
{
    let keys = sorted_keys(metadata, group);
    let ghost ks = views(keys@);
    let ghost all = section_lines(title@, ks, metadata@);
    let mut lines: Vec<String> = Vec::new();
    let count = decimal(keys.len() as u64);
    lines.push(cat5("--- ", title, " (", count.as_str(), ") ---"));
    if keys.len() == 0 {
        lines.push(owned("  (none)"));
        proof {
            assert(views(lines@) =~= all.drop_last());
        }
    } else {
        let mut i: usize = 0;
        proof {
            assert(views(lines@) =~= all.take(1));
        }
        while i < keys.len()
            invariant
                i <= keys@.len(),
                metadata.wf(),
                keys@.len() > 0,
                ks == views(keys@),
                all == section_lines(title@, ks, metadata@),
                lists_group(ks, metadata@, group),
                views(lines@) == all.take(i + 1),
            decreases keys.len() - i,
        {
            proof {
                assert(ks[i as int] == keys@[i as int]@);
                assert(ks.contains(ks[i as int]));
            }
            let text = match metadata.get(keys[i].as_str()) {
                Some(v) => format_value(v),
                None => String::new(),
            };
            let padded = pad_right(keys[i].as_str(), 40);
            let line = cat4("  ", padded.as_str(), " = ", text.as_str());
            let ghost before = views(lines@);
            lines.push(line);
            i = i + 1;
            proof {
                assert(views(lines@) =~= before.push(line@));
                assert(all[i as int] == line@);
                assert(all.take(i + 1) =~= before.push(line@));
            }
        }
        proof {
            assert(all.take(i + 1) =~= all.drop_last());
        }
    }
    let ghost before = views(lines@);
    lines.push(owned(""));
    proof {
        assert(views(lines@) =~= before.push(""@));
        assert(all =~= all.drop_last().push(""@));
    }
    lines
}

/// A row of the tensor directory.
pub open spec fn tensor_row(i: int, t: TensorView<'_>) -> Seq<char> {
    padded_left(dec(i), ' ', 4) + "  "@ + padded_left(
        dec(raw_of_type(t.ggml_type) as int),
        ' ',
        8,
    ) + "  "@ + padded_right(ggml_name(t.ggml_type), 18) + "  "@ + padded_right(
        cut_off(t.name@, 50),
        50,
    ) + "  "@ + padded_right(cut_off(bracketed(t.shape@), 26), 26) + "  0x"@ + padded_left(
        hex(t.offset as int),
        ' ',
        12,
    ) + "  "@ + padded_left(dec(t.byte_len as int), ' ', 16)
}

/// Adds a column of numbers.
fn push_number(line: &mut String, number: String, width: usize)
    ensures
        final(line)@ == old(line)@ + padded_left(number@, ' ', width as int),
{
    let padded = pad_left(number.as_str(), ' ', width);
    line.append(padded.as_str());
}

/// Adds a column of text.
fn push_text(line: &mut String, text: &str, width: usize)
    ensures
        final(line)@ == old(line)@ + padded_right(text@, width as int),
{
    let padded = pad_right(text, width);
    line.append(padded.as_str());
}

/// A row of the tensor directory: number, type tag, type, name, shape, offset
/// and size.
pub fn format_tensor_row(i: usize, t: &TensorView<'_>) -> (line: String)
    ensures
        line@ == tensor_row(i as int, *t),
{
    let number = decimal(i as u64);
    let mut line = pad_left(number.as_str(), ' ', 4);
    line.append("  ");
    push_number(&mut line, decimal(t.ggml_type.to_raw() as u64), 8);
    line.append("  ");
    push_text(&mut line, t.ggml_type.name().as_str(), 18);
    line.append("  ");
    let name = truncate(t.name.as_str(), 50);
    push_text(&mut line, name.as_str(), 50);
    line.append("  ");
    let whole = bracket(t.shape.as_slice());
    let shape = truncate(whole.as_str(), 26);
    push_text(&mut line, shape.as_str(), 26);
    line.append("  0x");
    push_number(&mut line, hexadecimal(t.offset), 12);
    line.append("  ");
    push_number(&mut line, decimal(t.byte_len), 16);
    line
}

/// The lines about a file as a whole.
pub open spec fn summary_lines(path: Seq<char>, file: GgufFile<'_>, bytes: int) -> Seq<Seq<char>> {
    seq![
        "=================================================="@,
        "GGUF Inspection: "@ + path,
        "=================================================="@,
        "File size:    "@ + dec(bytes) + " bytes ("@ + quotient(bytes, 0x4000_0000, 3) + " GiB)"@,
        "Magic:        0x46554747 (\"GGUF\")"@,
        "Version:      "@ + dec(file.version as int),
        "Tensor count: "@ + dec(file.tensor_count as int),
        "Metadata kv:  "@ + dec(file.metadata.size() as int),
        "Alignment:    "@ + dec(file.alignment as int) + " bytes"@,
        ""@,
    ]
}

/// The lines about a file as a whole: its size, version and counts.
pub fn inspect_summary(path: &str, file: &GgufFile<'_>, bytes: usize) -> (lines: Vec<String>)
    ensures
        views(lines@) == summary_lines(path@, *file, bytes as int),
{
    let size = decimal(bytes as u64);
    let gib = quotient_text(bytes as u64, 0x4000_0000, 3);
    let version = decimal(file.version as u64);
    let tensors = decimal(file.tensor_count);
    let keys = decimal(file.metadata.len() as u64);
    let alignment = decimal(file.alignment);
    let mut lines: Vec<String> = Vec::new();
    lines.push(owned("=================================================="));
    lines.push(cat2("GGUF Inspection: ", path));
    lines.push(owned("=================================================="));
    lines.push(cat5("File size:    ", size.as_str(), " bytes (", gib.as_str(), " GiB)"));
    lines.push(owned("Magic:        0x46554747 (\"GGUF\")"));
    lines.push(cat2("Version:      ", version.as_str()));
    lines.push(cat2("Tensor count: ", tensors.as_str()));
    lines.push(cat2("Metadata kv:  ", keys.as_str()));
    lines.push(cat3("Alignment:    ", alignment.as_str(), " bytes"));
    lines.push(owned(""));
    proof {
        assert(views(lines@) =~= summary_lines(path@, *file, bytes as int));
    }
    lines
}

/// The listing of the tensor directory.
pub open spec fn directory_lines(tensors: Seq<TensorView<'_>>) -> Seq<Seq<char>> {
    seq![
        "--- tensor directory ("@ + dec(tensors.len() as int) + " tensors) ---"@,
        padded_left("idx"@, ' ', 4) + "  "@ + padded_left("raw_u32"@, ' ', 8) + "  "@
            + padded_right("resolved_dtype"@, 18) + "  "@ + padded_right("name"@, 50) + "  "@
            + padded_right("shape"@, 26) + "  "@ + padded_left("offset"@, ' ', 14) + "  "@
            + padded_left("byte_len"@, ' ', 16),
        repeated('-', 146),
    ] + Seq::new(tensors.len(), |i: int| tensor_row(i, tensors[i]))
}

/// Lists the tensor directory.
pub fn inspect_directory(tensors: &Vec<TensorView<'_>>) -> (lines: Vec<String>)
    ensures
        views(lines@) == directory_lines(tensors@),
{
    let ghost all = directory_lines(tensors@);
    let mut lines: Vec<String> = Vec::new();
    let count = decimal(tensors.len() as u64);
    lines.push(cat3("--- tensor directory (", count.as_str(), " tensors) ---"));
    let mut head = pad_left("idx", ' ', 4);
    head.append("  ");
    push_number(&mut head, owned("raw_u32"), 8);
    head.append("  ");
    push_text(&mut head, "resolved_dtype", 18);
    head.append("  ");
    push_text(&mut head, "name", 50);
    head.append("  ");
    push_text(&mut head, "shape", 26);
    head.append("  ");
    push_number(&mut head, owned("offset"), 14);
    head.append("  ");
    push_number(&mut head, owned("byte_len"), 16);
    lines.push(head);
    lines.push(repeat_char('-', 146));
    let mut i: usize = 0;
    proof {
        assert(views(lines@) =~= all.take(3));
    }
    while i < tensors.len()
        invariant
            i <= tensors@.len(),
            all == directory_lines(tensors@),
            views(lines@) == all.take(i + 3),
        decreases tensors.len() - i,
    {
        let line = format_tensor_row(i, &tensors[i]);
        let ghost before = views(lines@);
        lines.push(line);
        i = i + 1;
        proof {
            assert(views(lines@) =~= before.push(line@));
            assert(all.take(i + 3) =~= before.push(line@));
        }
    }
    proof {
        assert(all.take(i + 3) =~= all);
    }
    lines
}

} // verus!
