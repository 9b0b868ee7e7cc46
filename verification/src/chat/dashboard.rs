//! The panel beside the conversation: the machine, the load, the memory, the
//! turn in progress, the sampling and the model.

use crate::chat::span::{
    heading, line1, line2, line3, line_views, plain, push_line, stretch, tinted, SpanStyle,
    Stretch, StyledLine, StyledSpan, Tint,
};
use crate::chat::sysmon::{Gauge, SysSnapshot};
use crate::quotient::{quotient, quotient_text};
use crate::text::{
    cat2, cat3, cat5, cat6, dec, decimal, hex, hexadecimal, owned, pad_left, pad_right,
    padded_left, padded_right, repeat_char, repeated,
};
use vstd::prelude::*;

verus! {

/// A number of bytes in the largest unit that it fills, counted in powers of
/// 1024.
pub open spec fn bytes_text(b: int) -> Seq<char> {
    if b >= 0x4000_0000 {
        quotient(b, 0x4000_0000, 2) + " GB"@
    } else if b >= 0x10_0000 {
        quotient(b, 0x10_0000, 1) + " MB"@
    } else if b >= 0x400 {
        quotient(b, 0x400, 1) + " KB"@
    } else {
        dec(b) + " B"@
    }
}

/// A number of bytes in the largest unit that it fills.
pub fn human_bytes(b: u64) -> (s: String)
    ensures
        s@ == bytes_text(b as int),
{
    if b >= 0x4000_0000 {
        let q = quotient_text(b, 0x4000_0000, 2);
        cat2(q.as_str(), " GB")
    } else if b >= 0x10_0000 {
        let q = quotient_text(b, 0x10_0000, 1);
        cat2(q.as_str(), " MB")
    } else if b >= 0x400 {
        let q = quotient_text(b, 0x400, 1);
        cat2(q.as_str(), " KB")
    } else {
        let q = decimal(b);
        cat2(q.as_str(), " B")
    }
}

/// A number in thousands or millions, from where it has that many.
pub open spec fn thousands_text(n: int) -> Seq<char> {
    if n >= 1_000_000 {
        quotient(n, 1_000_000, 1) + "M"@
    } else if n >= 1_000 {
        quotient(n, 1_000, 1) + "k"@
    } else {
        dec(n)
    }
}

/// A number in thousands or millions, from where it has that many.
pub fn format_compact_thousands(n: u64) -> (s: String)
    ensures
        s@ == thousands_text(n as int),
{
    if n >= 1_000_000 {
        let q = quotient_text(n, 1_000_000, 1);
        cat2(q.as_str(), "M")
    } else if n >= 1_000 {
        let q = quotient_text(n, 1_000, 1);
        cat2(q.as_str(), "k")
    } else {
        decimal(n)
    }
}

/// A text that is cut off to a number of characters, with an ellipsis as its
/// last one; nothing where there is no room.
pub open spec fn shortened(s: Seq<char>, max_chars: int) -> Seq<char> {
    if max_chars <= 0 {
        Seq::empty()
    } else if s.len() <= max_chars {
        s
    } else {
        s.take(max_chars - 1).push('…')
    }
}

/// A text that is cut off to a number of characters.
pub fn truncate(s: &str, max_chars: usize) -> (r: String)
    ensures
        r@ == shortened(s@, max_chars as int),
{
    if max_chars == 0 {
        let none = String::new();
        proof {
            assert(none@ =~= Seq::empty());
        }
        return none;
    }
    let n: usize = s.unicode_len();
    if n <= max_chars {
        return owned(s);
    }
    let kept = s.substring_char(0, max_chars - 1);
    proof {
        assert(kept@ =~= s@.take(max_chars - 1));
    }
    let mut r = owned(kept);
    r.push('…');
    r
}

/// A shortened text fits.
pub proof fn shortened_text_fits(s: Seq<char>, max_chars: int)
    requires
        0 <= max_chars,
    ensures
        shortened(s, max_chars).len() <= max_chars,
{
}

/// What the panel shows beside the state of the machine. Numbers that are not
/// whole come as text.
#[derive(Debug)]
pub struct DashboardState {
    pub architecture: String,
    pub n_layers: u32,
    pub n_embd: u32,
    pub vocab_size: u32,
    pub model_file_bytes: u64,
    pub quant_label: String,
    pub active_kernel: String,
    /// The features of the kernel, and whether they are used.
    pub kernel_features: Vec<(String, bool)>,
    pub temperature: String,
    pub top_k: usize,
    pub top_p: String,
    pub repetition_penalty: String,
    pub seed: u64,
    pub system_prompt: Option<String>,
    /// How much of the context is used.
    pub context: Gauge,
    /// The layer that is computed, while a reply is arriving.
    pub current_layer: Option<u32>,
    pub turn_tokens_emitted: u32,
    pub turn_tokens_cap: u32,
    pub turn_elapsed: String,
    pub turn_tok_per_sec: String,
    /// The rate is above zero.
    pub rate_known: bool,
    /// How long the rest of the turn takes at that rate.
    pub turn_eta: String,
    pub generating: bool,
    pub kv_cache_bytes: u64,
}

/// The lines of the panel.
pub type Lines = Seq<Seq<Stretch>>;

/// A heading.
pub open spec fn section(lines: Lines, label: Seq<char>) -> Lines {
    lines.push(seq![stretch("── "@ + label + " ──"@, heading())])
}

/// A name and a value.
pub open spec fn row(lines: Lines, key: Seq<char>, value: Seq<char>) -> Lines {
    lines.push(
        seq![
            stretch("  "@ + padded_right(key, 7), tinted(Tint::DarkGray)),
            stretch(value, plain()),
        ],
    )
}

/// An empty line.
pub open spec fn blank(lines: Lines) -> Lines {
    lines.push(seq![stretch(""@, plain())])
}

/// A bar of `cells` cells.
pub open spec fn bar(filled: int, cells: int) -> Seq<char> {
    repeated('▓', filled) + repeated('░', cells - filled)
}

/// A name and a bar.
pub open spec fn gauge_row(
    lines: Lines,
    label: Seq<char>,
    filled: int,
    cells: int,
    color: Tint,
    text: Seq<char>,
) -> Lines {
    lines.push(
        seq![
            stretch(label, tinted(Tint::DarkGray)),
            stretch(bar(filled, cells), tinted(color)),
            stretch(" "@ + text, plain()),
        ],
    )
}

/// Adds a heading.
fn push_section_header(lines: &mut Vec<StyledLine>, label: &str)
    ensures
        line_views(final(lines)@) == section(line_views(old(lines)@), label@),
{
    push_line(
        lines,
        line1(StyledSpan::new(cat3("── ", label, " ──"), SpanStyle::heading())),
    );
}

/// Adds a name and a value.
fn push_kv(lines: &mut Vec<StyledLine>, key: &str, value: &str)
    ensures
        line_views(final(lines)@) == row(line_views(old(lines)@), key@, value@),
{
    let padded = pad_right(key, 7);
    let name = cat2("  ", padded.as_str());
    push_line(
        lines,
        line2(
            StyledSpan::new(name, SpanStyle::colored(Tint::DarkGray)),
            StyledSpan::new(owned(value), SpanStyle::raw()),
        ),
    );
}

/// Adds an empty line.
fn push_blank(lines: &mut Vec<StyledLine>)
    ensures
        line_views(final(lines)@) == blank(line_views(old(lines)@)),
{
    push_line(lines, line1(StyledSpan::new(owned(""), SpanStyle::raw())));
}

/// Adds a name and a bar.
fn push_gauge(lines: &mut Vec<StyledLine>, label: String, gauge: &Gauge, cells: usize)
    requires
        gauge.filled <= cells,
    ensures
        line_views(final(lines)@) == gauge_row(
            line_views(old(lines)@),
            label@,
            gauge.filled as int,
            cells as int,
            gauge.color,
            gauge.text@,
        ),
{
    let mut cell = repeat_char('▓', gauge.filled);
    let empty = repeat_char('░', cells - gauge.filled);
    cell.append(empty.as_str());
    push_line(
        lines,
        line3(
            StyledSpan::new(label, SpanStyle::colored(Tint::DarkGray)),
            StyledSpan::new(cell, SpanStyle::colored(gauge.color)),
            StyledSpan::new(cat2(" ", gauge.text.as_str()), SpanStyle::raw()),
        ),
    );
}

/// The first `n` features of the kernel.
pub open spec fn feature_rows(lines: Lines, features: Seq<(String, bool)>, n: int) -> Lines
    decreases n,
{
    if n <= 0 {
        lines
    } else {
        feature_rows(lines, features, n - 1).push(
            seq![
                stretch("  "@, plain()),
                if features[n - 1].1 {
                    stretch("●"@, tinted(Tint::Green))
                } else {
                    stretch("○"@, tinted(Tint::DarkGray))
                },
                stretch(" "@ + features[n - 1].0@, plain()),
            ],
        )
    }
}

/// The machine.
pub open spec fn hardware(lines: Lines, st: DashboardState, sys: SysSnapshot, width: int) -> Lines {
    let room = if width < 7 {
        0
    } else {
        width - 7
    };
    let a = row(section(lines, "HARDWARE"@), "cpu"@, shortened(sys.cpu_brand@, room));
    let b = row(
        a,
        "arch"@,
        sys.arch@ + " · "@ + dec(sys.logical_cores as int) + " cores ("@ + dec(
            sys.physical_cores as int,
        ) + " phys)"@,
    );
    let c = row(b, "kernel"@, st.active_kernel@);
    blank(feature_rows(c, st.kernel_features@, st.kernel_features@.len() as int))
}

/// The loads of the first `n` cores.
pub open spec fn core_rows(lines: Lines, cores: Seq<Gauge>, n: int) -> Lines
    decreases n,
{
    if n <= 0 {
        lines
    } else {
        gauge_row(
            core_rows(lines, cores, n - 1),
            "  c"@ + padded_right(dec(n - 1), 2) + "    "@,
            cores[n - 1].filled as int,
            8,
            cores[n - 1].color,
            cores[n - 1].text@,
        )
    }
}

/// The load: twelve cores at most have lines of their own.
pub open spec fn load(lines: Lines, sys: SysSnapshot) -> Lines {
    let a = gauge_row(
        section(lines, "CPU"@),
        "  overall"@,
        sys.overall.filled as int,
        10,
        sys.overall.color,
        sys.overall.text@,
    );
    let b = gauge_row(
        a,
        "  proc   "@,
        sys.process.filled as int,
        10,
        sys.process.color,
        sys.process.text@,
    );
    if sys.core_count <= 12 {
        blank(core_rows(b, sys.per_core@, sys.core_count as int))
    } else {
        blank(
            core_rows(b, sys.per_core@, 12).push(
                seq![
                    stretch(
                        "  c12-"@ + dec(sys.core_count - 1) + "  max "@ + sys.busiest_rest@ + "%"@,
                        plain(),
                    ),
                ],
            ),
        )
    }
}

/// The memory.
pub open spec fn memory(lines: Lines, st: DashboardState, sys: SysSnapshot) -> Lines {
    let a = row(section(lines, "MEMORY"@), "KV"@, bytes_text(st.kv_cache_bytes as int));
    let b = row(a, "RSS"@, bytes_text(sys.process_rss_bytes as int));
    let c = if sys.total_mem_bytes > 0 {
        row(
            b,
            "sys"@,
            bytes_text(sys.used_mem_bytes as int) + " / "@ + bytes_text(
                sys.total_mem_bytes as int,
            ),
        )
    } else {
        b
    };
    blank(
        gauge_row(
            c,
            "  ctx    "@,
            st.context.filled as int,
            10,
            st.context.color,
            st.context.text@,
        ),
    )
}

/// The turn in progress.
pub open spec fn inference(lines: Lines, st: DashboardState) -> Lines {
    let a = section(lines, "INFERENCE"@);
    if !st.generating {
        blank(a.push(seq![stretch("  (idle)"@, tinted(Tint::DarkGray))]))
    } else {
        let b = match st.current_layer {
            Some(layer) => row(
                a,
                "layer"@,
                padded_left(dec(layer + 1), ' ', 2) + " / "@ + dec(st.n_layers as int),
            ),
            None => row(a, "layer"@, "(starting…)"@),
        };
        let c = row(b, "tok/s"@, st.turn_tok_per_sec@);
        let d = row(
            c,
            "tokens"@,
            dec(st.turn_tokens_emitted as int) + " / "@ + dec(st.turn_tokens_cap as int),
        );
        let e = row(d, "elapsed"@, st.turn_elapsed@ + " s"@);
        let f = if st.rate_known && st.turn_tokens_cap > st.turn_tokens_emitted {
            row(e, "eta"@, "~"@ + st.turn_eta@ + " s"@)
        } else {
            e
        };
        blank(f.push(seq![stretch("  (Esc to cancel)"@, tinted(Tint::DarkGray))]))
    }
}

/// The sampling.
pub open spec fn sampling(lines: Lines, st: DashboardState, width: int) -> Lines {
    let room = if width < 7 {
        0
    } else {
        width - 7
    };
    let a = row(section(lines, "SAMPLING"@), "temp"@, st.temperature@);
    let b = row(a, "top-k"@, dec(st.top_k as int));
    let c = row(b, "top-p"@, st.top_p@);
    let d = row(c, "rep-pen"@, st.repetition_penalty@);
    let e = row(d, "seed"@, "0x"@ + lower_hex(st.seed as int));
    blank(
        row(
            e,
            "sys"@,
            match st.system_prompt {
                Some(s) => shortened(s@, room),
                None => "(none)"@,
            },
        ),
    )
}

/// The model.
pub open spec fn model_rows(lines: Lines, st: DashboardState) -> Lines {
    let a = row(section(lines, "MODEL"@), "arch"@, st.architecture@);
    let b = row(a, "layers"@, dec(st.n_layers as int));
    let c = row(b, "embd"@, dec(st.n_embd as int));
    let d = row(c, "vocab"@, thousands_text(st.vocab_size as int));
    let e = row(d, "quant"@, st.quant_label@);
    row(e, "file"@, bytes_text(st.model_file_bytes as int))
}

/// All lines of the panel.
pub open spec fn panel(st: DashboardState, sys: SysSnapshot, width: int) -> Lines {
    let a = hardware(Seq::empty(), st, sys, width);
    let b = load(a, sys);
    let c = memory(b, st, sys);
    let d = inference(c, st);
    let e = sampling(d, st, width);
    model_rows(e, st)
}

/// A digit of a hexadecimal numeral in lower case.
pub open spec fn lower_digit(c: char) -> char {
    if 'A' <= c <= 'F' {
        (c as u32 + 32) as char
    } else {
        c
    }
}

/// A hexadecimal numeral in lower case.
pub open spec fn lower_hex(n: int) -> Seq<char> {
    hex(n).map_values(|c: char| lower_digit(c))
}

/// A hexadecimal numeral in lower case.
fn lower_hexadecimal(n: u64) -> (s: String)
    ensures
        s@ == lower_hex(n as int),
{
    let upper = hexadecimal(n);
    let chars = crate::text::chars_of(upper.as_str());
    let mut out = String::new();
    let mut i: usize = 0;
    proof {
        assert(out@ =~= lower_hex(n as int).take(0));
    }
    while i < chars.len()
        invariant
            i <= chars@.len(),
            chars@ == hex(n as int),
            out@ == lower_hex(n as int).take(i as int),
        decreases chars.len() - i,
    {
        let c = chars[i];
        let lower = if c == 'A' { 'a' } else if c == 'B' { 'b' } else if c == 'C' { 'c' }
        else if c == 'D' { 'd' } else if c == 'E' { 'e' } else if c == 'F' { 'f' } else { c };
        proof {
            assert(lower == lower_digit(c));
            assert(lower_hex(n as int).take(i + 1) =~= lower_hex(n as int).take(i as int).push(
                lower,
            ));
        }
        out.push(lower);
        i = i + 1;
    }
    proof {
        assert(lower_hex(n as int).take(i as int) =~= lower_hex(n as int));
    }
    out
}

impl DashboardState {
    /// No bar is longer than its place, and a layer has a successor.
    pub open spec fn wf(&self) -> bool {
        &&& self.context.filled <= 10
        &&& self.current_layer matches Some(l) ==> l < u32::MAX
    }

    /// Adds the machine.
    fn push_hardware(&self, lines: &mut Vec<StyledLine>, sys: &SysSnapshot, room: usize, Ghost(
        width,
    ): Ghost<int>)
        requires
            room == if width < 7 {
                0
            } else {
                width - 7
            },
        ensures
            line_views(final(lines)@) == hardware(line_views(old(lines)@), *self, *sys, width),
    {
        push_section_header(lines, "HARDWARE");
        let brand = truncate(sys.cpu_brand.as_str(), room);
        push_kv(lines, "cpu", brand.as_str());
        let logical = decimal(sys.logical_cores as u64);
        let physical = decimal(sys.physical_cores as u64);
        let arch = cat6(
            sys.arch.as_str(),
            " · ",
            logical.as_str(),
            " cores (",
            physical.as_str(),
            " phys)",
        );
        push_kv(lines, "arch", arch.as_str());
        push_kv(lines, "kernel", self.active_kernel.as_str());
        let ghost before = line_views(lines@);
        let mut i: usize = 0;
        while i < self.kernel_features.len()
            invariant
                i <= self.kernel_features@.len(),
                line_views(lines@) == feature_rows(before, self.kernel_features@, i as int),
            decreases self.kernel_features.len() - i,
        {
            let dot = if self.kernel_features[i].1 {
                StyledSpan::new(owned("●"), SpanStyle::colored(Tint::Green))
            } else {
                StyledSpan::new(owned("○"), SpanStyle::colored(Tint::DarkGray))
            };
            let name = cat2(" ", self.kernel_features[i].0.as_str());
            push_line(
                lines,
                line3(
                    StyledSpan::new(owned("  "), SpanStyle::raw()),
                    dot,
                    StyledSpan::new(name, SpanStyle::raw()),
                ),
            );
            i = i + 1;
        }
        push_blank(lines);
    }

    /// Adds the memory.
    fn push_memory(&self, lines: &mut Vec<StyledLine>, sys: &SysSnapshot)
        requires
            self.wf(),
        ensures
            line_views(final(lines)@) == memory(line_views(old(lines)@), *self, *sys),
    {
        push_section_header(lines, "MEMORY");
        let kv = human_bytes(self.kv_cache_bytes);
        push_kv(lines, "KV", kv.as_str());
        let rss = human_bytes(sys.process_rss_bytes);
        push_kv(lines, "RSS", rss.as_str());
        if sys.total_mem_bytes > 0 {
            let used = human_bytes(sys.used_mem_bytes);
            let total = human_bytes(sys.total_mem_bytes);
            let both = cat3(used.as_str(), " / ", total.as_str());
            push_kv(lines, "sys", both.as_str());
        }
        push_gauge(lines, owned("  ctx    "), &self.context, 10);
        push_blank(lines);
    }

    /// Adds the turn in progress.
    fn push_inference(&self, lines: &mut Vec<StyledLine>)
        requires
            self.wf(),
        ensures
            line_views(final(lines)@) == inference(line_views(old(lines)@), *self),
    {
        push_section_header(lines, "INFERENCE");
        if !self.generating {
            push_line(
                lines,
                line1(StyledSpan::new(owned("  (idle)"), SpanStyle::colored(Tint::DarkGray))),
            );
            push_blank(lines);
            return;
        }
        match self.current_layer {
            Some(layer) => {
                let number = decimal((layer + 1) as u64);
                let padded = pad_left(number.as_str(), ' ', 2);
                let total = decimal(self.n_layers as u64);
                let both = cat3(padded.as_str(), " / ", total.as_str());
                push_kv(lines, "layer", both.as_str());
            },
            None => {
                push_kv(lines, "layer", "(starting…)");
            },
        }
        push_kv(lines, "tok/s", self.turn_tok_per_sec.as_str());
        let emitted = decimal(self.turn_tokens_emitted as u64);
        let cap = decimal(self.turn_tokens_cap as u64);
        let tokens = cat3(emitted.as_str(), " / ", cap.as_str());
        push_kv(lines, "tokens", tokens.as_str());
        let elapsed = cat2(self.turn_elapsed.as_str(), " s");
        push_kv(lines, "elapsed", elapsed.as_str());
        if self.rate_known && self.turn_tokens_cap > self.turn_tokens_emitted {
            let eta = cat3("~", self.turn_eta.as_str(), " s");
            push_kv(lines, "eta", eta.as_str());
        }
        push_line(
            lines,
            line1(
                StyledSpan::new(owned("  (Esc to cancel)"), SpanStyle::colored(Tint::DarkGray)),
            ),
        );
        push_blank(lines);
    }

    /// Adds the sampling.
    fn push_sampling(&self, lines: &mut Vec<StyledLine>, room: usize, Ghost(width): Ghost<int>)
        requires
            room == if width < 7 {
                0
            } else {
                width - 7
            },
        ensures
            line_views(final(lines)@) == sampling(line_views(old(lines)@), *self, width),
    {
        push_section_header(lines, "SAMPLING");
        push_kv(lines, "temp", self.temperature.as_str());
        let k = decimal(self.top_k as u64);
        push_kv(lines, "top-k", k.as_str());
        push_kv(lines, "top-p", self.top_p.as_str());
        push_kv(lines, "rep-pen", self.repetition_penalty.as_str());
        let digits = lower_hexadecimal(self.seed);
        let seed = cat2("0x", digits.as_str());
        push_kv(lines, "seed", seed.as_str());
        let prompt = match &self.system_prompt {
            Some(s) => truncate(s.as_str(), room),
            None => owned("(none)"),
        };
        push_kv(lines, "sys", prompt.as_str());
        push_blank(lines);
    }

    /// Adds the model.
    fn push_model(&self, lines: &mut Vec<StyledLine>)
        ensures
            line_views(final(lines)@) == model_rows(line_views(old(lines)@), *self),
    {
        push_section_header(lines, "MODEL");
        push_kv(lines, "arch", self.architecture.as_str());
        let layers = decimal(self.n_layers as u64);
        push_kv(lines, "layers", layers.as_str());
        let embd = decimal(self.n_embd as u64);
        push_kv(lines, "embd", embd.as_str());
        let vocab = format_compact_thousands(self.vocab_size as u64);
        push_kv(lines, "vocab", vocab.as_str());
        push_kv(lines, "quant", self.quant_label.as_str());
        let file = human_bytes(self.model_file_bytes);
        push_kv(lines, "file", file.as_str());
    }

    /// The lines of the panel.
    pub fn render_lines(&self, sys: &SysSnapshot, width: u16) -> (r: Vec<StyledLine>)
        requires
            self.wf(),
            sys.wf(),
        ensures
            line_views(r@) == panel(*self, *sys, width as int),
    {
        let mut lines: Vec<StyledLine> = Vec::new();
        let room: usize = if width < 7 {
            0
        } else {
            (width - 7) as usize
        };
        proof {
            assert(line_views(lines@) =~= Seq::empty());
        }
        self.push_hardware(&mut lines, sys, room, Ghost(width as int));
        push_load(&mut lines, sys);
        self.push_memory(&mut lines, sys);
        self.push_inference(&mut lines);
        self.push_sampling(&mut lines, room, Ghost(width as int));
        self.push_model(&mut lines);
        lines
    }
}

/// Adds the load.
fn push_load(lines: &mut Vec<StyledLine>, sys: &SysSnapshot)
    requires
        sys.wf(),
    ensures
        line_views(final(lines)@) == load(line_views(old(lines)@), *sys),
{
    push_section_header(lines, "CPU");
    push_gauge(lines, owned("  overall"), &sys.overall, 10);
    push_gauge(lines, owned("  proc   "), &sys.process, 10);
    let ghost before = line_views(lines@);
    let own: usize = if sys.core_count <= 12 {
        sys.core_count
    } else {
        12
    };
    let mut i: usize = 0;
    while i < own
        invariant
            i <= own <= sys.per_core@.len(),
            own <= 12,
            sys.wf(),
            line_views(lines@) == core_rows(before, sys.per_core@, i as int),
        decreases own - i,
    {
        let number = decimal(i as u64);
        let padded = pad_right(number.as_str(), 2);
        let label = cat3("  c", padded.as_str(), "    ");
        push_gauge(lines, label, &sys.per_core[i], 8);
        i = i + 1;
    }
    if sys.core_count > 12 {
        let last = decimal((sys.core_count - 1) as u64);
        let text = cat5("  c12-", last.as_str(), "  max ", sys.busiest_rest.as_str(), "%");
        push_line(lines, line1(StyledSpan::new(text, SpanStyle::raw())));
    }
    push_blank(lines);
}

} // verus!
