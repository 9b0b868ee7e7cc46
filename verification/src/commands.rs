//! What the commands of the program say and decide, apart from what they compute
//! with a model.

use crate::chat::reply::{lemma_valid_rest, longest_valid, longest_valid_is_longest, valid_up_to};
use crate::gguf::bytes::copy_range;
use crate::model::lm_head::{is_nan, rank};
use crate::text::{
    cat2, cat3, cat4, cat5, cat6, cat7, cat8, dec, decimal, join, joined, owned, quote, quoted,
    same_text, utf8_text, views,
};
use vstd::prelude::*;
use vstd::utf8::*;

verus! {

/// The rule above and below the title of a command.
pub open spec fn rule() -> Seq<char> {
    "=================================================="@
}

/// A number that may be missing, as it is listed.
pub open spec fn option_text(n: Option<u32>) -> Seq<char> {
    match n {
        Some(v) => "Some("@ + dec(v as int) + ")"@,
        None => "None"@,
    }
}

/// A number that may be missing, as it is listed.
fn show_option(n: Option<u32>) -> (s: String)
    ensures
        s@ == option_text(n),
{
    match n {
        Some(v) => {
            let d = decimal(v as u64);
            cat3("Some(", d.as_str(), ")")
        },
        None => owned("None"),
    }
}

/// A list of token numbers.
pub open spec fn ids_text(ids: Seq<u32>) -> Seq<char> {
    "["@ + joined(Seq::new(ids.len(), |i: int| dec(ids[i] as int)), ", "@) + "]"@
}

/// A list of token numbers.
fn show_ids(ids: &[u32]) -> (s: String)
    ensures
        s@ == ids_text(ids@),
{
    let ghost all = Seq::new(ids@.len(), |i: int| dec(ids@[i] as int));
    let mut parts: Vec<String> = Vec::new();
    let mut i: usize = 0;
    while i < ids.len()
        invariant
            i <= ids@.len(),
            all == Seq::new(ids@.len(), |i: int| dec(ids@[i] as int)),
            views(parts@) =~= all.take(i as int),
        decreases ids@.len() - i,
    {
        let ghost before = views(parts@);
        parts.push(decimal(ids[i] as u64));
        proof {
            assert(views(parts@) =~= before.push(all[i as int]));
            assert(all.take(i + 1) =~= all.take(i as int).push(all[i as int]));
        }
        i = i + 1;
    }
    proof {
        assert(all.take(ids@.len() as int) =~= all);
    }
    let body = join(&parts, ", ");
    cat3("[", body.as_str(), "]")
}

/// A list of texts in quotes.
pub open spec fn texts_text(texts: Seq<Seq<char>>) -> Seq<char> {
    "["@ + joined(Seq::new(texts.len(), |i: int| quoted(texts[i])), ", "@) + "]"@
}

/// A list of texts in quotes.
fn show_texts(texts: &Vec<String>) -> (s: String)
    ensures
        s@ == texts_text(views(texts@)),
{
    let ghost all = Seq::new(texts@.len(), |i: int| quoted(views(texts@)[i]));
    let mut parts: Vec<String> = Vec::new();
    let mut i: usize = 0;
    while i < texts.len()
        invariant
            i <= texts@.len(),
            all == Seq::new(texts@.len(), |i: int| quoted(views(texts@)[i])),
            views(parts@) =~= all.take(i as int),
        decreases texts@.len() - i,
    {
        let ghost before = views(parts@);
        parts.push(quote(texts[i].as_str()));
        proof {
            assert(views(texts@)[i as int] == texts@[i as int]@);
            assert(views(parts@) =~= before.push(all[i as int]));
            assert(all.take(i + 1) =~= all.take(i as int).push(all[i as int]));
        }
        i = i + 1;
    }
    proof {
        assert(all.take(texts@.len() as int) =~= all);
    }
    let body = join(&parts, ", ");
    cat3("[", body.as_str(), "]")
}

/// A truth value, as it is listed.
pub open spec fn bool_text(b: bool) -> Seq<char> {
    if b {
        "true"@
    } else {
        "false"@
    }
}

/// A truth value, as it is listed.
fn show_bool(b: bool) -> (s: &'static str)
    ensures
        s@ == bool_text(b),
{
    if b {
        "true"
    } else {
        "false"
    }
}

/// Checks a request for at least one new token.
pub fn check_new_tokens(max_new_tokens: usize) -> (r: Result<(), String>)
    ensures
        match r {
            Ok(_) => max_new_tokens > 0,
            Err(e) => max_new_tokens == 0 && e@ == "--max-new-tokens must be >= 1"@,
        },
{
    if max_new_tokens == 0 {
        return Err(owned("--max-new-tokens must be >= 1"));
    }
    Ok(())
}

/// How many positions the cache of a run gets: the prompt, the new tokens and a
/// few more, and never fewer than 64.
pub fn run_cache_len(prompt_tokens: usize, max_new_tokens: usize) -> (r: Result<usize, String>)
    requires
        prompt_tokens > 0 ==> prompt_tokens + max_new_tokens + 16 <= usize::MAX,
    ensures
        match r {
            Ok(n) => {
                &&& prompt_tokens > 0
                &&& n == if prompt_tokens + max_new_tokens + 16 < 64 {
                    64
                } else {
                    prompt_tokens + max_new_tokens + 16
                }
            },
            Err(e) => prompt_tokens == 0 && e@
                == "prompt encoded to zero tokens — cannot run forward"@,
        },
        r matches Ok(n) ==> 64 <= n && prompt_tokens + max_new_tokens + 16 <= n && (n == 64 || n
            - max_new_tokens - prompt_tokens == 16),
{
    if prompt_tokens == 0 {
        return Err(owned("prompt encoded to zero tokens — cannot run forward"));
    }
    let n: usize = prompt_tokens + max_new_tokens + 16;
    Ok(
        if n < 64 {
            64
        } else {
            n
        },
    )
}

/// What a run is asked for.
pub struct RunRequest {
    pub path: String,
    pub architecture: String,
    pub block_count: u32,
    pub vocab_size: u32,
    pub prompt: String,
    pub prompt_ids: Vec<u32>,
    /// The most likely token is taken each time.
    pub greedy: bool,
    pub max_new_tokens: usize,
    pub eos: Option<u32>,
    pub pad: Option<u32>,
    pub stop_ids: Vec<u32>,
}

/// The heading of a run.
pub open spec fn run_lines(r: RunRequest) -> Seq<Seq<char>> {
    seq![
        rule(),
        "Run: "@ + r.path@,
        rule(),
        "Architecture: "@ + r.architecture@,
        "Block count:  "@ + dec(r.block_count as int),
        "Vocab size:   "@ + dec(r.vocab_size as int),
        ""@,
        "Prompt:           "@ + quoted(r.prompt@),
        "Prompt tokens:    "@ + dec(r.prompt_ids@.len() as int) + " ("@ + ids_text(r.prompt_ids@)
            + ")"@,
        "Decode policy:    Stage 5-C — single-token forward + per-layer KV cache (causal)"@,
        "Decode mode:      "@ + if r.greedy {
            "greedy (argmax)"@
        } else {
            "sampled"@
        },
        "Max new tokens:   "@ + dec(r.max_new_tokens as int) + "  EOS id: "@ + option_text(r.eos)
            + "  PAD id: "@ + option_text(r.pad) + "  extra stop: "@ + ids_text(r.stop_ids@),
        ""@,
    ]
}

/// The heading of a run.
pub fn run_heading(r: &RunRequest) -> (lines: Vec<String>)
    ensures
        views(lines@) == run_lines(*r),
{
    let blocks = decimal(r.block_count as u64);
    let vocab = decimal(r.vocab_size as u64);
    let prompt = quote(r.prompt.as_str());
    let count = decimal(r.prompt_ids.len() as u64);
    let ids = show_ids(r.prompt_ids.as_slice());
    let new_tokens = decimal(r.max_new_tokens as u64);
    let eos = show_option(r.eos);
    let pad = show_option(r.pad);
    let stops = show_ids(r.stop_ids.as_slice());
    let mut lines: Vec<String> = Vec::new();
    lines.push(owned("=================================================="));
    lines.push(cat2("Run: ", r.path.as_str()));
    lines.push(owned("=================================================="));
    lines.push(cat2("Architecture: ", r.architecture.as_str()));
    lines.push(cat2("Block count:  ", blocks.as_str()));
    lines.push(cat2("Vocab size:   ", vocab.as_str()));
    lines.push(owned(""));
    lines.push(cat2("Prompt:           ", prompt.as_str()));
    lines.push(cat5("Prompt tokens:    ", count.as_str(), " (", ids.as_str(), ")"));
    lines.push(
        owned("Decode policy:    Stage 5-C — single-token forward + per-layer KV cache (causal)"),
    );
    lines.push(
        cat2(
            "Decode mode:      ",
            if r.greedy {
                "greedy (argmax)"
            } else {
                "sampled"
            },
        ),
    );
    lines.push(
        cat8(
            "Max new tokens:   ",
            new_tokens.as_str(),
            "  EOS id: ",
            eos.as_str(),
            "  PAD id: ",
            pad.as_str(),
            "  extra stop: ",
            stops.as_str(),
        ),
    );
    lines.push(owned(""));
    proof {
        assert(views(lines@) =~= run_lines(*r));
    }
    lines
}

/// What is said when a run is over.
pub open spec fn run_end_lines(generated: Seq<u32>, text: Seq<char>, prompt: Seq<char>) -> Seq<
    Seq<char>,
> {
    seq![
        ""@,
        ""@,
        "Generated "@ + dec(generated.len() as int) + " token(s): "@ + ids_text(generated),
        "Generated text:   "@ + quoted(text),
        "Full text:        "@ + quoted(prompt + text),
    ]
}

/// What is said when a run is over.
pub fn run_summary(generated: &[u32], text: &str, prompt: &str) -> (lines: Vec<String>)
    ensures
        views(lines@) == run_end_lines(generated@, text@, prompt@),
{
    let count = decimal(generated.len() as u64);
    let ids = show_ids(generated);
    let body = quote(text);
    let whole = cat2(prompt, text);
    let full = quote(whole.as_str());
    let mut lines: Vec<String> = Vec::new();
    lines.push(owned(""));
    lines.push(owned(""));
    lines.push(cat4("Generated ", count.as_str(), " token(s): ", ids.as_str()));
    lines.push(cat2("Generated text:   ", body.as_str()));
    lines.push(cat2("Full text:        ", full.as_str()));
    proof {
        assert(views(lines@) =~= run_end_lines(generated@, text@, prompt@));
    }
    lines
}

/// The bytes of tokens as they arrive, printed up to the last whole character.
pub struct TextStream {
    pub bytes: Vec<u8>,
    /// How many of the bytes were printed.
    pub printed: usize,
}

impl TextStream {
    /// What was printed is the longest beginning that makes up whole characters.
    pub open spec fn wf(&self) -> bool {
        self.printed == longest_valid(self.bytes@, self.bytes@.len() as int)
    }

    /// What was printed.
    pub open spec fn text(&self) -> Seq<char> {
        decode_utf8(self.bytes@.take(self.printed as int))
    }

    /// Nothing has arrived.
    pub fn new() -> (s: Self)
        ensures
            s.wf(),
            s.bytes@.len() == 0,
            s.text() == Seq::<char>::empty(),
    {
        let s = TextStream { bytes: Vec::new(), printed: 0 };
        proof {
            assert(s.bytes@.take(0) =~= Seq::empty());
            assert(decode_utf8(Seq::empty()) =~= Seq::empty());
        }
        s
    }

    /// Takes the bytes of one more token and gives what is printed next. All that
    /// was printed is then the text of the longest beginning that makes up whole
    /// characters.
    pub fn feed(&mut self, more: &[u8]) -> (chunk: String)
        requires
            old(self).wf(),
        ensures
            final(self).wf(),
            final(self).bytes@ == old(self).bytes@ + more@,
            final(self).text() == old(self).text() + chunk@,
    {
        let ghost before = self.bytes@;
        let ghost printed = self.printed as int;
        proof {
            longest_valid_is_longest(before, before.len() as int);
        }
        let limit: usize = more.len();
        let mut i: usize = 0;
        while i < limit
            invariant
                i <= limit,
                limit == more@.len(),
                self.bytes@ == before + more@.take(i as int),
                self.printed == printed,
            decreases limit - i,
        {
            self.bytes.push(more[i]);
            i = i + 1;
            proof {
                assert(self.bytes@ =~= before + more@.take(i as int));
            }
        }
        proof {
            assert(more@.take(limit as int) =~= more@);
        }
        let valid: usize = valid_up_to(&self.bytes);
        proof {
            longest_valid_is_longest(self.bytes@, self.bytes@.len() as int);
            assert(self.bytes@.take(printed) =~= before.take(printed));
        }
        let fresh = copy_range(&self.bytes, self.printed, valid);
        proof {
            let head = self.bytes@.take(valid as int);
            assert(head.take(printed) =~= before.take(printed));
            assert(fresh@ =~= head.skip(printed));
            lemma_valid_rest(head, printed);
        }
        let chunk = match utf8_text(fresh) {
            Ok(s) => s,
            Err(_) => String::new(),
        };
        self.printed = valid;
        chunk
    }

    /// Whether the last character was broken off.
    pub fn broken_off(&self) -> (b: bool)
        ensures
            b == (self.printed < self.bytes@.len()),
    {
        self.printed < self.bytes.len()
    }
}

/// What a text has to come back as, with the marks that were put around it.
pub open spec fn expected_text(text: Seq<char>, bos: Option<Seq<char>>, eos: Option<Seq<char>>) -> Seq<
    char,
> {
    let start = match bos {
        Some(b) => b,
        None => Seq::empty(),
    };
    let end = match eos {
        Some(e) => e,
        None => Seq::empty(),
    };
    start + text + end
}

/// What a text that may be missing holds.
pub open spec fn held(s: Option<String>) -> Option<Seq<char>> {
    match s {
        Some(t) => Some(t@),
        None => None,
    }
}

/// What a text has to come back as. A mark is given where it was put.
pub fn roundtrip_text(text: &str, bos: &Option<String>, eos: &Option<String>) -> (s: String)
    ensures
        s@ == expected_text(text@, held(*bos), held(*eos)),
{
    let start = match bos {
        Some(b) => cat2(b.as_str(), text),
        None => {
            let s = owned(text);
            proof {
                assert(s@ =~= Seq::<char>::empty() + text@);
            }
            s
        },
    };
    match eos {
        Some(e) => cat2(start.as_str(), e.as_str()),
        None => {
            proof {
                assert(start@ =~= start@ + Seq::<char>::empty());
            }
            start
        },
    }
}

/// What a tokenizer made of a text.
pub struct TokenizeReport {
    pub path: String,
    pub model: String,
    pub vocab_size: usize,
    pub bos: Option<u32>,
    pub eos: Option<u32>,
    pub pad: Option<u32>,
    pub add_bos: bool,
    pub add_eos: bool,
    pub default_add_bos: bool,
    pub text: String,
    pub ids: Vec<u32>,
    pub token_texts: Vec<String>,
    pub decoded: String,
    pub expected: String,
}

/// The report on what a tokenizer made of a text.
pub open spec fn tokenize_lines(r: TokenizeReport) -> Seq<Seq<char>> {
    seq![
        rule(),
        "Tokenize: "@ + r.path@,
        rule(),
        "Tokenizer model: "@ + r.model@,
        "Vocab size:      "@ + dec(r.vocab_size as int),
        "Special IDs:     BOS="@ + option_text(r.bos) + ", EOS="@ + option_text(r.eos) + ", PAD="@
            + option_text(r.pad),
        "Options:         add_bos="@ + bool_text(r.add_bos) + ", add_eos="@ + bool_text(r.add_eos)
            + "  (metadata default add_bos="@ + bool_text(r.default_add_bos) + ")"@,
        ""@,
        "Input:           "@ + quoted(r.text@),
        "Token count:     "@ + dec(r.ids@.len() as int),
        "Token IDs:       "@ + ids_text(r.ids@),
        "Token strings:   "@ + texts_text(views(r.token_texts@)),
        "Decoded:         "@ + quoted(r.decoded@),
        "Roundtrip:       "@ + if r.decoded@ == r.expected@ {
            "OK"@
        } else {
            "FAIL"@
        } + " (expected "@ + quoted(r.expected@) + ")"@,
    ]
}

/// The report on what a tokenizer made of a text, and whether the text came back.
pub fn tokenize_report(r: &TokenizeReport) -> (out: (Vec<String>, Result<(), String>))
    ensures
        views(out.0@) == tokenize_lines(*r),
        match out.1 {
            Ok(_) => r.decoded@ == r.expected@,
            Err(e) => r.decoded@ != r.expected@ && e@
                == "roundtrip mismatch: encode/decode did not reproduce the input"@,
        },
{
    let same = same_text(r.decoded.as_str(), r.expected.as_str());
    let vocab = decimal(r.vocab_size as u64);
    let bos = show_option(r.bos);
    let eos = show_option(r.eos);
    let pad = show_option(r.pad);
    let text = quote(r.text.as_str());
    let count = decimal(r.ids.len() as u64);
    let ids = show_ids(r.ids.as_slice());
    let tokens = show_texts(&r.token_texts);
    let decoded = quote(r.decoded.as_str());
    let expected = quote(r.expected.as_str());
    let mut lines: Vec<String> = Vec::new();
    lines.push(owned("=================================================="));
    lines.push(cat2("Tokenize: ", r.path.as_str()));
    lines.push(owned("=================================================="));
    lines.push(cat2("Tokenizer model: ", r.model.as_str()));
    lines.push(cat2("Vocab size:      ", vocab.as_str()));
    lines.push(
        cat6(
            "Special IDs:     BOS=",
            bos.as_str(),
            ", EOS=",
            eos.as_str(),
            ", PAD=",
            pad.as_str(),
        ),
    );
    lines.push(
        cat7(
            "Options:         add_bos=",
            show_bool(r.add_bos),
            ", add_eos=",
            show_bool(r.add_eos),
            "  (metadata default add_bos=",
            show_bool(r.default_add_bos),
            ")",
        ),
    );
    lines.push(owned(""));
    lines.push(cat2("Input:           ", text.as_str()));
    lines.push(cat2("Token count:     ", count.as_str()));
    lines.push(cat2("Token IDs:       ", ids.as_str()));
    lines.push(cat2("Token strings:   ", tokens.as_str()));
    lines.push(cat2("Decoded:         ", decoded.as_str()));
    lines.push(
        cat5(
            "Roundtrip:       ",
            if same {
                "OK"
            } else {
                "FAIL"
            },
            " (expected ",
            expected.as_str(),
            ")",
        ),
    );
    proof {
        assert(views(lines@) =~= tokenize_lines(*r));
    }
    if same {
        (lines, Ok(()))
    } else {
        (lines, Err(owned("roundtrip mismatch: encode/decode did not reproduce the input")))
    }
}

/// The token with which speed is measured: an ordinary word where the vocabulary
/// has it, and the first token otherwise.
pub fn bench_token(vocab_size: u32) -> (t: u32)
    ensures
        t == if vocab_size > 15339 {
            15339u32
        } else {
            0u32
        },
        vocab_size > 0 ==> t < vocab_size,
{
    if vocab_size > 15339 {
        15339
    } else {
        0
    }
}

/// The heading of a measurement.
pub open spec fn bench_lines(
    arch: Seq<char>,
    kernel: Seq<char>,
    path: Seq<char>,
    block_count: u32,
    vocab_size: u32,
) -> Seq<Seq<char>> {
    seq![
        rule(),
        "Bench (Stage 6 — BitLinear matvec timings)"@,
        rule(),
        "Host arch:        "@ + arch,
        "Matvec backend:   "@ + kernel,
        "Model:            "@ + path,
        "Block count:      "@ + dec(block_count as int),
        "Vocab size:       "@ + dec(vocab_size as int),
        ""@,
    ]
}

/// The heading of a measurement.
pub fn bench_heading(arch: &str, kernel: &str, path: &str, block_count: u32, vocab_size: u32) -> (lines:
    Vec<String>)
    ensures
        views(lines@) == bench_lines(arch@, kernel@, path@, block_count, vocab_size),
{
    let blocks = decimal(block_count as u64);
    let vocab = decimal(vocab_size as u64);
    let mut lines: Vec<String> = Vec::new();
    lines.push(owned("=================================================="));
    lines.push(owned("Bench (Stage 6 — BitLinear matvec timings)"));
    lines.push(owned("=================================================="));
    lines.push(cat2("Host arch:        ", arch));
    lines.push(cat2("Matvec backend:   ", kernel));
    lines.push(cat2("Model:            ", path));
    lines.push(cat2("Block count:      ", blocks.as_str()));
    lines.push(cat2("Vocab size:       ", vocab.as_str()));
    lines.push(owned(""));
    proof {
        assert(views(lines@) =~= bench_lines(arch@, kernel@, path@, block_count, vocab_size));
    }
    lines
}

/// The heading of a list of logits.
pub open spec fn logits_lines(
    path: Seq<char>,
    prompt: Seq<char>,
    add_bos: bool,
    ids: Seq<u32>,
    token_texts: Seq<Seq<char>>,
    best: u32,
    best_text: Seq<char>,
) -> Seq<Seq<char>> {
    seq![
        "# willamette logits dump"@,
        "model:      "@ + path,
        "prompt:     "@ + quoted(prompt),
        "add_bos:    "@ + bool_text(add_bos),
        "ntoks:      "@ + dec(ids.len() as int),
        "tokens:     "@ + ids_text(ids),
        "tokens_str: "@ + texts_text(token_texts),
        ""@,
        "argmax_id:  "@ + dec(best as int),
        "argmax_str: "@ + quoted(best_text),
        ""@,
        "# rank | id    | logit          | token_str"@,
    ]
}

/// The heading of a list of logits.
pub fn logits_heading(
    path: &str,
    prompt: &str,
    add_bos: bool,
    ids: &[u32],
    token_texts: &Vec<String>,
    best: u32,
    best_text: &str,
) -> (lines: Vec<String>)
    ensures
        views(lines@) == logits_lines(
            path@,
            prompt@,
            add_bos,
            ids@,
            views(token_texts@),
            best,
            best_text@,
        ),
{
    let text = quote(prompt);
    let count = decimal(ids.len() as u64);
    let listed = show_ids(ids);
    let tokens = show_texts(token_texts);
    let number = decimal(best as u64);
    let called = quote(best_text);
    let mut lines: Vec<String> = Vec::new();
    lines.push(owned("# willamette logits dump"));
    lines.push(cat2("model:      ", path));
    lines.push(cat2("prompt:     ", text.as_str()));
    lines.push(cat2("add_bos:    ", show_bool(add_bos)));
    lines.push(cat2("ntoks:      ", count.as_str()));
    lines.push(cat2("tokens:     ", listed.as_str()));
    lines.push(cat2("tokens_str: ", tokens.as_str()));
    lines.push(owned(""));
    lines.push(cat2("argmax_id:  ", number.as_str()));
    lines.push(cat2("argmax_str: ", called.as_str()));
    lines.push(owned(""));
    lines.push(owned("# rank | id    | logit          | token_str"));
    proof {
        assert(views(lines@) =~= logits_lines(
            path@,
            prompt@,
            add_bos,
            ids@,
            views(token_texts@),
            best,
            best_text@,
        ));
    }
    lines
}

/// What limits the choice of the next token. Numbers that are not whole are held
/// as bits.
#[derive(Debug, Clone, Copy, PartialEq, Eq, Structural)]
pub struct SamplingLimits {
    /// Only so many of the most likely tokens are taken into account.
    pub top_k: Option<usize>,
    /// Only the most likely tokens up to this probability are taken into account.
    pub top_p: Option<u32>,
    /// Tokens that have occurred become less likely by this factor.
    pub repetition_penalty: Option<u32>,
}

/// The number behind `a` is at least the number behind `b`.
pub open spec fn reaches(a: u32, b: u32) -> bool {
    !is_nan(a) && !is_nan(b) && rank(a) >= rank(b)
}

/// The bits of one.
pub const ONE_BITS: u32 = 0x3f80_0000;

/// What limits the choice of the next token, out of the options of a command:
/// options that would limit nothing are left out.
pub open spec fn limits_of(top_k: usize, top_p: u32, repetition_penalty: u32) -> SamplingLimits {
    SamplingLimits {
        top_k: if top_k == 0 {
            None
        } else {
            Some(top_k)
        },
        top_p: if reaches(top_p, ONE_BITS) || reaches(0, top_p) {
            None
        } else {
            Some(top_p)
        },
        repetition_penalty: if reaches(ONE_BITS, repetition_penalty) {
            None
        } else {
            Some(repetition_penalty)
        },
    }
}

/// Whether the number behind `a` is at least the number behind `b`.
fn is_at_least(a: u32, b: u32) -> (r: bool)
    ensures
        r == reaches(a, b),
{
    if a % 0x8000_0000 > 0x7f80_0000 || b % 0x8000_0000 > 0x7f80_0000 {
        return false;
    }
    if a < 0x8000_0000 {
        if b < 0x8000_0000 {
            a >= b
        } else {
            true
        }
    } else if b < 0x8000_0000 {
        a == 0x8000_0000 && b == 0
    } else {
        a <= b
    }
}

/// What limits the choice of the next token, out of the options of a command.
pub fn build_sampling_limits(top_k: usize, top_p: u32, repetition_penalty: u32) -> (l:
    SamplingLimits)
    ensures
        l == limits_of(top_k, top_p, repetition_penalty),
{
    SamplingLimits {
        top_k: if top_k == 0 {
            None
        } else {
            Some(top_k)
        },
        top_p: if is_at_least(top_p, ONE_BITS) || is_at_least(0, top_p) {
            None
        } else {
            Some(top_p)
        },
        repetition_penalty: if is_at_least(ONE_BITS, repetition_penalty) {
            None
        } else {
            Some(repetition_penalty)
        },
    }
}

} // verus!
