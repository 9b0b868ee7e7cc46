//! What the headings and summaries of commands tell, each thing beside its name.

use crate::commands::{
    bench_lines, expected_text, ids_text, logits_lines, option_text, run_end_lines, run_lines,
    texts_text, tokenize_lines, RunRequest, TokenizeReport,
};
use crate::error::{fault_text, Fault};
use crate::gguf::linker::{LinkPlan, TensorChange, TensorPlan};
use crate::gguf::plan_report::{changed_line, layout_line, plan_lines};
use crate::gguf::reader::GgufFile;
use crate::gguf::relink::TensorAction;
use crate::gguf::tensor::TensorView;
use crate::gguf::types::{ggml_name, raw_of_type};
use crate::quotient::quotient;
use crate::report::{cut_off, directory_lines, section_lines, summary_lines, tensor_row, value_text};
use crate::text::{bracketed, dec, hex, joined, padded_left, padded_right, quoted};
use crate::text_laws::{hexadecimal_numerals_read_back, joining_works_by_parts, number_of};
use vstd::prelude::*;

verus! {

/// A list of token numbers is made of the numbers in their order, with commas between them.
pub proof fn listed_tokens_keep_their_order(ids: Seq<u32>, id: u32)
    ensures
        ids.len() > 0 ==> ids_text(ids.push(id)) == ids_text(ids).drop_last() + ", "@ + dec(
            id as int,
        ) + "]"@,
        ids_text(seq![id]) == "["@ + dec(id as int) + "]"@,
        option_text(Some(id)) == "Some("@ + dec(id as int) + ")"@,
        option_text(None) == "None"@,
{
    let one = Seq::new(1, |i: int| dec(seq![id][i] as int));
    assert(one =~= seq![dec(id as int)]);
    assert(Seq::new(seq![id].len(), |i: int| dec(seq![id][i] as int)) =~= one);
    assert(joined(one, ", "@) == dec(id as int));
    if ids.len() > 0 {
        let a = Seq::new(ids.len(), |i: int| dec(ids[i] as int));
        let more = ids.push(id);
        let all = Seq::new(more.len(), |i: int| dec(more[i] as int));
        assert(all =~= a + one);
        joining_works_by_parts(a, one, ", "@);
        reveal_strlit("]");
        assert(ids_text(ids).drop_last() =~= "["@ + joined(a, ", "@));
        assert(ids_text(more) =~= "["@ + joined(a, ", "@) + ", "@ + dec(id as int) + "]"@);
    }
}

/// What a text has to come back as is the text, behind the mark of a start and in front of the
/// mark of an end where there are such.
pub proof fn marks_stand_around_the_text(text: Seq<char>, a: Seq<char>, b: Seq<char>)
    ensures
        expected_text(text, None, None) == text,
        expected_text(text, Some(a), Some(b)) == a + text + b,
        expected_text(text, Some(a), None) == a + text,
        expected_text(text, None, Some(b)) == text + b,
{
    assert(Seq::<char>::empty() + text =~= text);
    assert(expected_text(text, None, None) =~= text);
    assert(expected_text(text, Some(a), None) =~= a + text);
    assert(expected_text(text, None, Some(b)) =~= text + b);
}

/// The heading of a run tells what runs, and on what.
pub proof fn runs_tell_what_they_do(r: RunRequest)
    ensures
        ({
            let lines = run_lines(r);
            &&& lines.contains("Run: "@ + r.path@)
            &&& lines.contains("Architecture: "@ + r.architecture@)
            &&& lines.contains("Block count:  "@ + dec(r.block_count as int))
            &&& lines.contains("Vocab size:   "@ + dec(r.vocab_size as int))
            &&& lines.contains("Prompt:           "@ + quoted(r.prompt@))
            &&& lines.contains(
                "Prompt tokens:    "@ + dec(r.prompt_ids@.len() as int) + " ("@ + ids_text(
                    r.prompt_ids@,
                ) + ")"@,
            )
            &&& r.greedy ==> lines.contains("Decode mode:      "@ + "greedy (argmax)"@)
            &&& !r.greedy ==> lines.contains("Decode mode:      "@ + "sampled"@)
            &&& lines.contains(
                "Max new tokens:   "@ + dec(r.max_new_tokens as int) + "  EOS id: "@ + option_text(
                    r.eos,
                ) + "  PAD id: "@ + option_text(r.pad) + "  extra stop: "@ + ids_text(
                    r.stop_ids@,
                ),
            )
        }),
{
    let lines = run_lines(r);
    assert(lines[1] == "Run: "@ + r.path@);
    assert(lines[3] == "Architecture: "@ + r.architecture@);
    assert(lines[4] == "Block count:  "@ + dec(r.block_count as int));
    assert(lines[5] == "Vocab size:   "@ + dec(r.vocab_size as int));
    assert(lines[7] == "Prompt:           "@ + quoted(r.prompt@));
    assert(lines.contains(lines[8]));
    assert(lines.contains(lines[10]));
    assert(lines.contains(lines[11]));
}

/// When a run is over it tells how many tokens it made, which, and what text they are, with
/// and without the prompt in front.
pub proof fn finished_runs_tell_what_they_made(
    generated: Seq<u32>,
    text: Seq<char>,
    prompt: Seq<char>,
)
    ensures
        ({
            let lines = run_end_lines(generated, text, prompt);
            &&& lines.contains(
                "Generated "@ + dec(generated.len() as int) + " token(s): "@ + ids_text(generated),
            )
            &&& lines.contains("Generated text:   "@ + quoted(text))
            &&& lines.contains("Full text:        "@ + quoted(prompt + text))
        }),
{
    let lines = run_end_lines(generated, text, prompt);
    assert(lines.contains(lines[2]));
    assert(lines.contains(lines[3]));
    assert(lines.contains(lines[4]));
}

/// The report of a tokenizer tells the tokens of a text, what they stand for, and whether
/// they stand for the text.
pub proof fn tokens_are_reported(r: TokenizeReport)
    ensures
        ({
            let lines = tokenize_lines(r);
            &&& lines.contains("Tokenizer model: "@ + r.model@)
            &&& lines.contains("Vocab size:      "@ + dec(r.vocab_size as int))
            &&& lines.contains("Input:           "@ + quoted(r.text@))
            &&& lines.contains("Token count:     "@ + dec(r.ids@.len() as int))
            &&& lines.contains("Token IDs:       "@ + ids_text(r.ids@))
            &&& lines.contains("Decoded:         "@ + quoted(r.decoded@))
            &&& r.decoded@ == r.expected@ ==> lines.contains(
                "Roundtrip:       "@ + "OK"@ + " (expected "@ + quoted(r.expected@) + ")"@,
            )
            &&& r.decoded@ != r.expected@ ==> lines.contains(
                "Roundtrip:       "@ + "FAIL"@ + " (expected "@ + quoted(r.expected@) + ")"@,
            )
        }),
{
    let lines = tokenize_lines(r);
    assert(lines.contains(lines[3]));
    assert(lines.contains(lines[4]));
    assert(lines.contains(lines[8]));
    assert(lines.contains(lines[9]));
    assert(lines.contains(lines[10]));
    assert(lines.contains(lines[12]));
    assert(lines.contains(lines[13]));
}

/// The headings of a measurement and of a list of logits tell on what they are made.
pub proof fn measurements_tell_their_subject(
    arch: Seq<char>,
    kernel: Seq<char>,
    path: Seq<char>,
    blocks: u32,
    vocab: u32,
    ids: Seq<u32>,
    texts: Seq<Seq<char>>,
    best: u32,
    add_bos: bool,
)
    ensures
        ({
            let lines = bench_lines(arch, kernel, path, blocks, vocab);
            &&& lines.contains("Host arch:        "@ + arch)
            &&& lines.contains("Matvec backend:   "@ + kernel)
            &&& lines.contains("Model:            "@ + path)
            &&& lines.contains("Block count:      "@ + dec(blocks as int))
            &&& lines.contains("Vocab size:       "@ + dec(vocab as int))
        }),
        ({
            let lines = logits_lines(path, arch, add_bos, ids, texts, best, kernel);
            &&& lines.contains("model:      "@ + path)
            &&& lines.contains("prompt:     "@ + quoted(arch))
            &&& add_bos ==> lines.contains("add_bos:    "@ + "true"@)
            &&& !add_bos ==> lines.contains("add_bos:    "@ + "false"@)
            &&& lines.contains("ntoks:      "@ + dec(ids.len() as int))
            &&& lines.contains("tokens:     "@ + ids_text(ids))
            &&& lines.contains("tokens_str: "@ + texts_text(texts))
            &&& lines.contains("argmax_id:  "@ + dec(best as int))
            &&& lines.contains("argmax_str: "@ + quoted(kernel))
        }),
{
    let a = bench_lines(arch, kernel, path, blocks, vocab);
    assert(a.contains(a[3]) && a.contains(a[4]) && a.contains(a[5]) && a.contains(a[6])
        && a.contains(a[7]));
    let b = logits_lines(path, arch, add_bos, ids, texts, best, kernel);
    assert(b.contains(b[1]) && b.contains(b[2]) && b.contains(b[3]) && b.contains(b[4])
        && b.contains(b[5]) && b.contains(b[6]) && b.contains(b[8]) && b.contains(b[9]));
}

/// A plan tells its sizes, what changes, and where asked for, where each tensor goes.
pub proof fn plans_tell_their_sizes(plan: LinkPlan, layout: bool, i: int)
    ensures
        ({
            let lines = plan_lines(plan, layout);
            &&& lines.contains("Architecture:    "@ + plan.architecture@)
            &&& lines.contains("Source bytes:    "@ + dec(plan.source_bytes as int))
            &&& lines.contains("Output bytes:    "@ + dec(plan.output_bytes as int))
            &&& lines.contains("Alignment:       "@ + dec(plan.alignment as int))
            &&& lines.contains("Tensor count:    "@ + dec(plan.tensor_count as int))
            &&& lines.contains("Changed tensors: "@ + dec(plan.changes@.len() as int))
            &&& 0 <= i < plan.changes@.len() ==> lines.contains(changed_line(plan.changes@[i]))
            &&& layout && 0 <= i < plan.tensors@.len() ==> lines.contains(
                layout_line(plan.tensors@[i]),
            )
            &&& lines.len() == 7 + plan.changes@.len() + if layout {
                1 + plan.tensors@.len()
            } else {
                0
            }
        }),
{
    let lines = plan_lines(plan, layout);
    let n = plan.changes@.len() as int;
    assert(lines.contains(lines[1]) && lines.contains(lines[2]) && lines.contains(lines[3])
        && lines.contains(lines[4]) && lines.contains(lines[5]) && lines.contains(lines[6]));
    if 0 <= i < n {
        assert(lines[7 + i] == changed_line(plan.changes@[i]));
    }
    if layout && 0 <= i < plan.tensors@.len() {
        assert(lines[7 + n + 1 + i] == layout_line(plan.tensors@[i]));
    }
}

/// The listing of a file tells its size and its counts, and has a row for each tensor and for
/// each key.
pub proof fn files_tell_their_contents(
    path: Seq<char>,
    file: GgufFile<'_>,
    bytes: int,
    tensors: Seq<TensorView<'_>>,
    title: Seq<char>,
    keys: Seq<Seq<char>>,
    i: int,
)
    requires
        0 <= i,
    ensures
        ({
            let lines = summary_lines(path, file, bytes);
            &&& lines.contains("GGUF Inspection: "@ + path)
            &&& lines.contains(
                "File size:    "@ + dec(bytes) + " bytes ("@ + quotient(bytes, 1024int * 1024 * 1024, 3)
                    + " GiB)"@,
            )
            &&& lines.contains("Version:      "@ + dec(file.version as int))
            &&& lines.contains("Tensor count: "@ + dec(file.tensor_count as int))
            &&& lines.contains("Alignment:    "@ + dec(file.alignment as int) + " bytes"@)
        }),
        directory_lines(tensors).len() == 3 + tensors.len(),
        i < tensors.len() ==> directory_lines(tensors)[3 + i] == tensor_row(i, tensors[i]),
        keys.len() > 0 ==> section_lines(title, keys, file.metadata@).len() == keys.len() + 2,
        i < keys.len() ==> section_lines(title, keys, file.metadata@)[1 + i] == "  "@
            + padded_right(keys[i], 40) + " = "@ + value_text(file.metadata@[keys[i]]),
{
    let lines = summary_lines(path, file, bytes);
    assert(lines.contains(lines[1]) && lines.contains(lines[3]) && lines.contains(lines[5])
        && lines.contains(lines[6]) && lines.contains(lines[8]));
}

/// A text begins with another.
pub open spec fn begins_with(s: Seq<char>, part: Seq<char>) -> bool {
    part.len() <= s.len() && s.take(part.len() as int) == part
}

/// A text ends with another.
pub open spec fn ends_with(s: Seq<char>, part: Seq<char>) -> bool {
    part.len() <= s.len() && s.skip(s.len() - part.len()) == part
}

proof fn lemma_ends(a: Seq<char>, b: Seq<char>)
    ensures
        begins_with(a + b, a),
        ends_with(a + b, b),
{
    assert((a + b).take(a.len() as int) =~= a);
    assert((a + b).skip(a.len() as int) =~= b);
}

/// The line about a tensor that changes names it, then tells what it was in front of what it
/// becomes: its type, its size and its place.
pub proof fn changes_go_from_the_source_to_the_output(c: TensorChange)
    ensures
        begins_with(
            changed_line(c),
            "  "@ + c.name@ + ": "@ + ggml_name(c.source_type) + " -> "@ + ggml_name(c.output_type),
        ),
        ends_with(
            changed_line(c),
            ", "@ + dec(c.source_bytes as int) + " -> "@ + dec(c.output_bytes as int)
                + " bytes, offset "@ + dec(c.source_offset as int) + " -> "@ + dec(
                c.output_offset as int,
            ),
        ),
{
    let a = "  "@ + c.name@ + ": "@ + ggml_name(c.source_type) + " -> "@ + ggml_name(c.output_type);
    let b = ", "@ + dec(c.source_bytes as int) + " -> "@ + dec(c.output_bytes as int)
        + " bytes, offset "@ + dec(c.source_offset as int) + " -> "@ + dec(c.output_offset as int);
    lemma_ends(a, b);
    assert(changed_line(c) =~= a + b);
}

/// The line about the place of a tensor tells the same, and what becomes of it.
pub proof fn places_go_from_the_source_to_the_output(t: TensorPlan)
    ensures
        t.action == TensorAction::Copy ==> begins_with(
            layout_line(t),
            "  "@ + t.name@ + ": "@ + "copy"@ + ", "@ + ggml_name(t.source_type) + " -> "@
                + ggml_name(t.output_type),
        ),
        t.action == TensorAction::QuantizeF16ToQ6K ==> begins_with(
            layout_line(t),
            "  "@ + t.name@ + ": "@ + "f16-to-q6-k"@ + ", "@ + ggml_name(t.source_type) + " -> "@
                + ggml_name(t.output_type),
        ),
        ends_with(
            layout_line(t),
            ", primary "@ + (dec(t.source_primary_bytes as int) + " -> "@ + dec(
                t.output_primary_bytes as int,
            )) + ", slot "@ + (dec(t.source_slot_bytes as int) + " -> "@ + dec(
                t.output_slot_bytes as int,
            )) + ", offset "@ + (dec(t.source_offset as int) + " -> "@ + dec(
                t.output_offset as int,
            )),
        ),
{
    let action = match t.action {
        TensorAction::Copy => "copy"@,
        TensorAction::QuantizeF16ToQ6K => "f16-to-q6-k"@,
    };
    let a = "  "@ + t.name@ + ": "@ + action + ", "@ + ggml_name(t.source_type) + " -> "@
        + ggml_name(t.output_type);
    let p = dec(t.source_primary_bytes as int) + " -> "@ + dec(t.output_primary_bytes as int);
    let q = dec(t.source_slot_bytes as int) + " -> "@ + dec(t.output_slot_bytes as int);
    let r = dec(t.source_offset as int) + " -> "@ + dec(t.output_offset as int);
    lemma_ends(a, ", primary "@ + p + ", slot "@ + q + ", offset "@ + r);
    lemma_regrouped(a, ", primary "@, p, ", slot "@, q, ", offset "@, r);
}

proof fn lemma_regrouped(
    a: Seq<char>,
    b: Seq<char>,
    c: Seq<char>,
    d: Seq<char>,
    e: Seq<char>,
    f: Seq<char>,
    g: Seq<char>,
)
    ensures
        a + b + c + d + e + f + g == a + (b + c + d + e + f + g),
{
    assert(a + b + c + d + e + f + g =~= a + (b + c + d + e + f + g));
}

/// A row of the tensor directory has its number and its type in front, and its place, in
/// hexadecimal, and its size at the end.
pub proof fn rows_have_their_columns(i: int, t: TensorView<'_>)
    ensures
        begins_with(
            tensor_row(i, t),
            padded_left(dec(i), ' ', 4) + "  "@ + padded_left(
                dec(raw_of_type(t.ggml_type) as int),
                ' ',
                8,
            ) + "  "@ + padded_right(ggml_name(t.ggml_type), 18) + "  "@ + padded_right(
                cut_off(t.name@, 50),
                50,
            ),
        ),
        ends_with(
            tensor_row(i, t),
            "  0x"@ + padded_left(hex(t.offset as int), ' ', 12) + "  "@ + padded_left(
                dec(t.byte_len as int),
                ' ',
                16,
            ),
        ),
{
    let a = padded_left(dec(i), ' ', 4) + "  "@ + padded_left(
        dec(raw_of_type(t.ggml_type) as int),
        ' ',
        8,
    ) + "  "@ + padded_right(ggml_name(t.ggml_type), 18) + "  "@ + padded_right(
        cut_off(t.name@, 50),
        50,
    );
    let m = "  "@ + padded_right(cut_off(bracketed(t.shape@), 26), 26);
    let b = "  0x"@ + padded_left(hex(t.offset as int), ' ', 12) + "  "@ + padded_left(
        dec(t.byte_len as int),
        ' ',
        16,
    );
    lemma_ends(a, m + b);
    lemma_ends(a + m, b);
    assert(tensor_row(i, t) =~= a + (m + b));
    assert(tensor_row(i, t) =~= (a + m) + b);
}

/// What went wrong is told by its kind first, and then by what was found.
pub proof fn faults_tell_what_was_found(m: Seq<char>, n: u32, key: Seq<char>, other: Seq<char>)
    ensures
        fault_text(Fault::Io(m)) == "IO error: "@ + m,
        begins_with(fault_text(Fault::GgufParse(m)), "GGUF parse error: "@),
        ends_with(fault_text(Fault::GgufParse(m)), m),
        begins_with(fault_text(Fault::UnsupportedVersion(n)), "Unsupported GGUF version: "@ + dec(
            n as int,
        )),
        begins_with(fault_text(Fault::UnsupportedArchitecture(m)), "Unsupported architecture: \""@ + m),
        begins_with(fault_text(Fault::UnsupportedTensorType(n)), "Unsupported GGML tensor type: "@),
        ends_with(fault_text(Fault::UnsupportedTensorType(n)), dec(n as int)),
        begins_with(fault_text(Fault::UnsupportedTokenizer(m)), "Unsupported tokenizer: "@),
        ends_with(fault_text(Fault::UnsupportedTokenizer(m)), m),
        begins_with(fault_text(Fault::NotImplemented(m)), "Not implemented: "@),
        ends_with(fault_text(Fault::NotImplemented(m)), m),
        begins_with(fault_text(Fault::InvalidPath(m)), "Invalid model file: "@),
        ends_with(fault_text(Fault::InvalidPath(m)), m),
        fault_text(Fault::MissingMetadata(seq![key])) == "Missing required metadata key(s): "@
            + key,
        fault_text(Fault::MissingMetadata(seq![key, other])) == "Missing required metadata key(s): "@
            + (key + ", "@ + other),
{
    lemma_ends("GGUF parse error: "@, m);
    lemma_ends("Unsupported GGUF version: "@ + dec(n as int), " (supported: 2, 3)"@);
    lemma_ends("Unsupported architecture: \""@ + m, "\""@);
    lemma_ends("Unsupported GGML tensor type: "@, dec(n as int));
    lemma_ends("Unsupported tokenizer: "@, m);
    lemma_ends("Not implemented: "@, m);
    lemma_ends("Invalid model file: "@, m);
    assert(joined(seq![key], ", "@) == key);
    assert(seq![key, other].drop_last() =~= seq![key]);
    assert(joined(seq![key, other], ", "@) == key + ", "@ + other);
}

/// The letters that a file begins with instead of the right ones are told as eight digits,
/// which read back.
pub proof fn wrong_marks_read_back(n: u32)
    ensures
        ({
            let start = "Invalid GGUF magic (expected 0x46554747, got 0x"@;
            let text = fault_text(Fault::InvalidMagic(n));
            let digits = text.subrange(start.len() as int, text.len() - 1);
            &&& begins_with(text, start)
            &&& digits.len() >= 8
            &&& digits == padded_left(hex(n as int), '0', 8)
        }),
        number_of(hex(n as int), 16) == n,
{
    let start = "Invalid GGUF magic (expected 0x46554747, got 0x"@;
    let p = padded_left(hex(n as int), '0', 8);
    let text = fault_text(Fault::InvalidMagic(n));
    reveal_strlit(")");
    lemma_ends(start, p + ")"@);
    assert(text =~= start + (p + ")"@));
    assert(text.subrange(start.len() as int, text.len() - 1) =~= p);
    hexadecimal_numerals_read_back(n as int);
}

} // verus!
