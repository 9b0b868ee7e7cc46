//! What the panel shows of the numbers behind it.

use crate::chat::dashboard::{
    bar, blank, bytes_text, core_rows, feature_rows, gauge_row, hardware, inference, load,
    lower_digit, lower_hex, memory, model_rows, panel, row, sampling, section, shortened,
    thousands_text, DashboardState, Lines,
};
use crate::chat::span::{tinted, Tint};
use crate::chat::sysmon::{Gauge, SysSnapshot};
use crate::quotient::{power_of_ten, quotient};
use crate::quotient_laws::exact_quotients_are_exact;
use crate::text::{dec, hex, padded_left, padded_right};
use crate::text_laws::{hexadecimal_numerals_read_back, number_of};
use vstd::prelude::*;

verus! {

/// A bar has as many cells as it is long, the filled ones first.
pub proof fn bars_fill_from_the_left(filled: int, cells: int)
    requires
        0 <= filled <= cells,
    ensures
        bar(filled, cells).len() == cells,
        forall|i: int| 0 <= i < filled ==> #[trigger] bar(filled, cells)[i] == '▓',
        forall|i: int| filled <= i < cells ==> #[trigger] bar(filled, cells)[i] == '░',
{
}

/// The number that a hexadecimal numeral in lower case stands for.
pub open spec fn lower_number(s: Seq<char>) -> int
    decreases s.len(),
{
    if s.len() == 0 {
        0
    } else {
        16 * lower_number(s.drop_last()) + if s.last() <= '9' {
            s.last() as int - '0' as int
        } else {
            s.last() as int - 'a' as int + 10
        }
    }
}

proof fn lemma_lower(s: Seq<char>)
    requires
        forall|i: int|
            0 <= i < s.len() ==> ('0' <= #[trigger] s[i] && s[i] <= '9') || ('A' <= s[i] && s[i]
                <= 'F'),
    ensures
        lower_number(s.map_values(|c: char| lower_digit(c))) == number_of(s, 16),
    decreases s.len(),
{
    let t = s.map_values(|c: char| lower_digit(c));
    if s.len() > 0 {
        lemma_lower(s.drop_last());
        assert(t.drop_last() =~= s.drop_last().map_values(|c: char| lower_digit(c)));
        assert(t.last() == lower_digit(s.last()));
        let c = s[s.len() - 1];
        assert(('0' <= c && c <= '9') || ('A' <= c && c <= 'F'));
    }
}

/// A hexadecimal numeral in lower case reads back.
pub proof fn lower_numerals_read_back(n: int)
    requires
        0 <= n,
    ensures
        lower_number(lower_hex(n)) == n,
        lower_hex(n).len() == hex(n).len(),
{
    hexadecimal_numerals_read_back(n);
    lemma_lower(hex(n));
}

/// A line of the panel shows a value beside a name.
pub open spec fn shows(lines: Lines, key: Seq<char>, value: Seq<char>) -> bool {
    exists|i: int|
        0 <= i < lines.len() && (#[trigger] lines[i]).len() == 2 && lines[i][0].content == "  "@
            + padded_right(key, 7) && lines[i][1].content == value
}

/// One panel begins with another.
pub open spec fn begins(a: Lines, b: Lines) -> bool {
    a.len() <= b.len() && forall|i: int| 0 <= i < a.len() ==> #[trigger] b[i] == a[i]
}

proof fn lemma_begins(a: Lines, b: Lines, c: Lines)
    requires
        begins(a, b),
        begins(b, c),
    ensures
        begins(a, c),
{
    assert forall|i: int| 0 <= i < a.len() implies #[trigger] c[i] == a[i] by {
        assert(b[i] == a[i]);
    }
}

proof fn lemma_shows(a: Lines, b: Lines, key: Seq<char>, value: Seq<char>)
    requires
        begins(a, b),
        shows(a, key, value),
    ensures
        shows(b, key, value),
{
    let i = choose|i: int|
        0 <= i < a.len() && (#[trigger] a[i]).len() == 2 && a[i][0].content == "  "@ + padded_right(
            key,
            7,
        ) && a[i][1].content == value;
    assert(b[i] == a[i]);
}

proof fn lemma_row(lines: Lines, key: Seq<char>, value: Seq<char>)
    ensures
        begins(lines, row(lines, key, value)),
        shows(row(lines, key, value), key, value),
{
    let r = row(lines, key, value);
    assert(r[lines.len() as int].len() == 2);
}

proof fn lemma_features(lines: Lines, features: Seq<(String, bool)>, n: int)
    ensures
        begins(lines, feature_rows(lines, features, n)),
    decreases n,
{
    if n > 0 {
        lemma_features(lines, features, n - 1);
        let a = feature_rows(lines, features, n - 1);
        assert(begins(a, feature_rows(lines, features, n)));
        lemma_begins(lines, a, feature_rows(lines, features, n));
    }
}

/// A whole number of units is shown as such.
proof fn lemma_whole(k: int, d: int)
    requires
        0 <= k,
        0 < d < 0x20_0000_0000_0000,
        k * d < 0x20_0000_0000_0000,
    ensures
        quotient(k * d, d, 1) == dec(k) + ".0"@,
        quotient(k * d, d, 2) == dec(k) + ".00"@,
{
    exact_quotients_are_exact(k, d, 1);
    exact_quotients_are_exact(k, d, 2);
    assert(power_of_ten(1) == 10 && power_of_ten(2) == 100);
    reveal_strlit(".");
    reveal_strlit(".0");
    reveal_strlit(".00");
    assert(dec(0) =~= seq!['0']);
    assert((k * 10) / 10 == k && (k * 10) % 10 == 0);
    assert((k * 100) / 100 == k && (k * 100) % 100 == 0);
    assert(padded_left(dec(0), '0', 1) =~= seq!['0']);
    assert(padded_left(dec(0), '0', 2) =~= seq!['0', '0']);
    assert("."@ + seq!['0'] =~= ".0"@);
    assert("."@ + seq!['0', '0'] =~= ".00"@);
    assert(quotient(k * d, d, 1) =~= dec(k) + ("."@ + seq!['0']));
    assert(quotient(k * d, d, 2) =~= dec(k) + ("."@ + seq!['0', '0']));
}

/// A number of bytes is shown in the largest unit that it fills: one of 1024 bytes, of 1024 of
/// those, or of 1024 of those.
pub proof fn bytes_are_shown_in_units(k: int)
    requires
        1 <= k,
    ensures
        k < 1024 ==> bytes_text(k) == dec(k) + " B"@,
        k < 1024 ==> bytes_text(k * 1024) == dec(k) + ".0"@ + " KB"@,
        k < 1024 ==> bytes_text(k * 1024 * 1024) == dec(k) + ".0"@ + " MB"@,
        k < 0x40_0000 ==> bytes_text(k * 1024 * 1024 * 1024) == dec(k) + ".00"@ + " GB"@,
{
    if k < 1024 {
        lemma_whole(k, 1024);
        lemma_whole(k, 0x10_0000);
    }
    if k < 0x40_0000 {
        lemma_whole(k, 0x4000_0000);
    }
}

/// A number is shown in thousands from one thousand on, and in millions from one million on.
pub proof fn numbers_are_shown_in_thousands(k: int)
    requires
        1 <= k,
    ensures
        k < 1000 ==> thousands_text(k) == dec(k),
        k < 1000 ==> thousands_text(k * 1000) == dec(k) + ".0"@ + "k"@,
        k < 1_000_000_000 ==> thousands_text(k * 1000 * 1000) == dec(k) + ".0"@ + "M"@,
{
    if k < 1000 {
        lemma_whole(k, 1000);
    }
    if k < 1_000_000_000 {
        lemma_whole(k, 1_000_000);
    }
}

proof fn lemma_cores(lines: Lines, cores: Seq<Gauge>, n: int)
    ensures
        begins(lines, core_rows(lines, cores, n)),
    decreases n,
{
    if n > 0 {
        lemma_cores(lines, cores, n - 1);
        let a = core_rows(lines, cores, n - 1);
        assert(begins(a, core_rows(lines, cores, n)));
        lemma_begins(lines, a, core_rows(lines, cores, n));
    }
}

proof fn lemma_hardware(lines: Lines, st: DashboardState, sys: SysSnapshot, width: int)
    ensures
        begins(lines, hardware(lines, st, sys, width)),
        shows(hardware(lines, st, sys, width), "kernel"@, st.active_kernel@),
        width >= 7 && sys.cpu_brand@.len() <= width - 7 ==> shows(
            hardware(lines, st, sys, width),
            "cpu"@,
            sys.cpu_brand@,
        ),
        shows(
            hardware(lines, st, sys, width),
            "arch"@,
            sys.arch@ + " · "@ + dec(sys.logical_cores as int) + " cores ("@ + dec(
                sys.physical_cores as int,
            ) + " phys)"@,
        ),
{
    let room = if width < 7 {
        0
    } else {
        width - 7
    };
    let s = section(lines, "HARDWARE"@);
    let cpu = shortened(sys.cpu_brand@, room);
    let a = row(s, "cpu"@, cpu);
    let arch = sys.arch@ + " · "@ + dec(sys.logical_cores as int) + " cores ("@ + dec(
        sys.physical_cores as int,
    ) + " phys)"@;
    let b = row(a, "arch"@, arch);
    let c = row(b, "kernel"@, st.active_kernel@);
    let d = feature_rows(c, st.kernel_features@, st.kernel_features@.len() as int);
    let e = blank(d);
    lemma_row(s, "cpu"@, cpu);
    lemma_row(a, "arch"@, arch);
    lemma_row(b, "kernel"@, st.active_kernel@);
    lemma_features(c, st.kernel_features@, st.kernel_features@.len() as int);
    assert(begins(d, e));
    lemma_begins(c, d, e);
    lemma_begins(b, c, e);
    lemma_begins(a, b, e);
    lemma_begins(s, a, e);
    lemma_begins(lines, s, e);
    lemma_shows(a, e, "cpu"@, cpu);
    lemma_shows(b, e, "arch"@, arch);
    lemma_shows(c, e, "kernel"@, st.active_kernel@);
    if width >= 7 && sys.cpu_brand@.len() <= width - 7 && sys.cpu_brand@.len() == 0 {
        assert(cpu =~= sys.cpu_brand@);
    }
}

proof fn lemma_load(lines: Lines, sys: SysSnapshot)
    ensures
        begins(lines, load(lines, sys)),
{
    let s = section(lines, "CPU"@);
    let a = gauge_row(
        s,
        "  overall"@,
        sys.overall.filled as int,
        10,
        sys.overall.color,
        sys.overall.text@,
    );
    let b = gauge_row(
        a,
        "  proc   "@,
        sys.process.filled as int,
        10,
        sys.process.color,
        sys.process.text@,
    );
    let n: int = if sys.core_count <= 12 {
        sys.core_count as int
    } else {
        12
    };
    let c = core_rows(b, sys.per_core@, n);
    lemma_cores(b, sys.per_core@, n);
    assert(begins(c, load(lines, sys)));
    lemma_begins(b, c, load(lines, sys));
    lemma_begins(a, b, load(lines, sys));
    lemma_begins(s, a, load(lines, sys));
    lemma_begins(lines, s, load(lines, sys));
}

proof fn lemma_memory(lines: Lines, st: DashboardState, sys: SysSnapshot)
    ensures
        begins(lines, memory(lines, st, sys)),
        shows(memory(lines, st, sys), "KV"@, bytes_text(st.kv_cache_bytes as int)),
        shows(memory(lines, st, sys), "RSS"@, bytes_text(sys.process_rss_bytes as int)),
        sys.total_mem_bytes > 0 ==> shows(
            memory(lines, st, sys),
            "sys"@,
            bytes_text(sys.used_mem_bytes as int) + " / "@ + bytes_text(
                sys.total_mem_bytes as int,
            ),
        ),
{
    let s = section(lines, "MEMORY"@);
    let kv = bytes_text(st.kv_cache_bytes as int);
    let rss = bytes_text(sys.process_rss_bytes as int);
    let used = bytes_text(sys.used_mem_bytes as int) + " / "@ + bytes_text(
        sys.total_mem_bytes as int,
    );
    let a = row(s, "KV"@, kv);
    let b = row(a, "RSS"@, rss);
    let c = if sys.total_mem_bytes > 0 {
        row(b, "sys"@, used)
    } else {
        b
    };
    let e = memory(lines, st, sys);
    lemma_row(s, "KV"@, kv);
    lemma_row(a, "RSS"@, rss);
    lemma_row(b, "sys"@, used);
    assert(begins(c, e));
    lemma_begins(b, c, e);
    lemma_begins(a, b, e);
    lemma_begins(s, a, e);
    lemma_begins(lines, s, e);
    lemma_shows(a, e, "KV"@, kv);
    lemma_shows(b, e, "RSS"@, rss);
    if sys.total_mem_bytes > 0 {
        lemma_shows(c, e, "sys"@, used);
    }
}

proof fn lemma_inference(lines: Lines, st: DashboardState)
    ensures
        begins(lines, inference(lines, st)),
        st.generating ==> {
            let p = inference(lines, st);
            &&& st.current_layer matches Some(l) ==> shows(
                p,
                "layer"@,
                padded_left(dec(l + 1), ' ', 2) + " / "@ + dec(st.n_layers as int),
            )
            &&& shows(p, "tok/s"@, st.turn_tok_per_sec@)
            &&& shows(
                p,
                "tokens"@,
                dec(st.turn_tokens_emitted as int) + " / "@ + dec(st.turn_tokens_cap as int),
            )
            &&& shows(p, "elapsed"@, st.turn_elapsed@ + " s"@)
            &&& st.rate_known && st.turn_tokens_cap > st.turn_tokens_emitted ==> shows(
                p,
                "eta"@,
                "~"@ + st.turn_eta@ + " s"@,
            )
        },
{
    let a = section(lines, "INFERENCE"@);
    let p = inference(lines, st);
    if !st.generating {
        assert(begins(lines, p));
    } else {
        let layer = match st.current_layer {
            Some(l) => padded_left(dec(l + 1), ' ', 2) + " / "@ + dec(st.n_layers as int),
            None => "(starting…)"@,
        };
        let count = dec(st.turn_tokens_emitted as int) + " / "@ + dec(st.turn_tokens_cap as int);
        let spent = st.turn_elapsed@ + " s"@;
        let eta = "~"@ + st.turn_eta@ + " s"@;
        let b = row(a, "layer"@, layer);
        let c = row(b, "tok/s"@, st.turn_tok_per_sec@);
        let d = row(c, "tokens"@, count);
        let e = row(d, "elapsed"@, spent);
        let f = if st.rate_known && st.turn_tokens_cap > st.turn_tokens_emitted {
            row(e, "eta"@, eta)
        } else {
            e
        };
        lemma_row(a, "layer"@, layer);
        lemma_row(b, "tok/s"@, st.turn_tok_per_sec@);
        lemma_row(c, "tokens"@, count);
        lemma_row(d, "elapsed"@, spent);
        lemma_row(e, "eta"@, eta);
        assert(begins(f, p));
        lemma_begins(e, f, p);
        lemma_begins(d, e, p);
        lemma_begins(c, d, p);
        lemma_begins(b, c, p);
        lemma_begins(a, b, p);
        lemma_begins(lines, a, p);
        lemma_shows(b, p, "layer"@, layer);
        lemma_shows(c, p, "tok/s"@, st.turn_tok_per_sec@);
        lemma_shows(d, p, "tokens"@, count);
        lemma_shows(e, p, "elapsed"@, spent);
        if st.rate_known && st.turn_tokens_cap > st.turn_tokens_emitted {
            lemma_shows(f, p, "eta"@, eta);
        }
    }
}

proof fn lemma_sampling(lines: Lines, st: DashboardState, width: int)
    ensures
        begins(lines, sampling(lines, st, width)),
        shows(sampling(lines, st, width), "temp"@, st.temperature@),
        shows(sampling(lines, st, width), "top-k"@, dec(st.top_k as int)),
        shows(sampling(lines, st, width), "top-p"@, st.top_p@),
        shows(sampling(lines, st, width), "rep-pen"@, st.repetition_penalty@),
        shows(sampling(lines, st, width), "seed"@, "0x"@ + lower_hex(st.seed as int)),
        st.system_prompt is None ==> shows(sampling(lines, st, width), "sys"@, "(none)"@),
{
    let room = if width < 7 {
        0
    } else {
        width - 7
    };
    let s = section(lines, "SAMPLING"@);
    let prompt = match st.system_prompt {
        Some(t) => shortened(t@, room),
        None => "(none)"@,
    };
    let a = row(s, "temp"@, st.temperature@);
    let b = row(a, "top-k"@, dec(st.top_k as int));
    let c = row(b, "top-p"@, st.top_p@);
    let d = row(c, "rep-pen"@, st.repetition_penalty@);
    let e = row(d, "seed"@, "0x"@ + lower_hex(st.seed as int));
    let f = row(e, "sys"@, prompt);
    let p = sampling(lines, st, width);
    lemma_row(s, "temp"@, st.temperature@);
    lemma_row(a, "top-k"@, dec(st.top_k as int));
    lemma_row(b, "top-p"@, st.top_p@);
    lemma_row(c, "rep-pen"@, st.repetition_penalty@);
    lemma_row(d, "seed"@, "0x"@ + lower_hex(st.seed as int));
    lemma_row(e, "sys"@, prompt);
    assert(begins(f, p));
    lemma_begins(e, f, p);
    lemma_begins(d, e, p);
    lemma_begins(c, d, p);
    lemma_begins(b, c, p);
    lemma_begins(a, b, p);
    lemma_begins(s, a, p);
    lemma_begins(lines, s, p);
    lemma_shows(a, p, "temp"@, st.temperature@);
    lemma_shows(b, p, "top-k"@, dec(st.top_k as int));
    lemma_shows(c, p, "top-p"@, st.top_p@);
    lemma_shows(d, p, "rep-pen"@, st.repetition_penalty@);
    lemma_shows(e, p, "seed"@, "0x"@ + lower_hex(st.seed as int));
    lemma_shows(f, p, "sys"@, prompt);
}

proof fn lemma_model(lines: Lines, st: DashboardState)
    ensures
        begins(lines, model_rows(lines, st)),
        shows(model_rows(lines, st), "arch"@, st.architecture@),
        shows(model_rows(lines, st), "layers"@, dec(st.n_layers as int)),
        shows(model_rows(lines, st), "embd"@, dec(st.n_embd as int)),
        shows(model_rows(lines, st), "vocab"@, thousands_text(st.vocab_size as int)),
        shows(model_rows(lines, st), "quant"@, st.quant_label@),
        shows(model_rows(lines, st), "file"@, bytes_text(st.model_file_bytes as int)),
{
    let s = section(lines, "MODEL"@);
    let a = row(s, "arch"@, st.architecture@);
    let b = row(a, "layers"@, dec(st.n_layers as int));
    let c = row(b, "embd"@, dec(st.n_embd as int));
    let d = row(c, "vocab"@, thousands_text(st.vocab_size as int));
    let e = row(d, "quant"@, st.quant_label@);
    let p = model_rows(lines, st);
    lemma_row(s, "arch"@, st.architecture@);
    lemma_row(a, "layers"@, dec(st.n_layers as int));
    lemma_row(b, "embd"@, dec(st.n_embd as int));
    lemma_row(c, "vocab"@, thousands_text(st.vocab_size as int));
    lemma_row(d, "quant"@, st.quant_label@);
    lemma_row(e, "file"@, bytes_text(st.model_file_bytes as int));
    lemma_begins(d, e, p);
    lemma_begins(c, d, p);
    lemma_begins(b, c, p);
    lemma_begins(a, b, p);
    lemma_begins(s, a, p);
    lemma_begins(lines, s, p);
    lemma_shows(a, p, "arch"@, st.architecture@);
    lemma_shows(b, p, "layers"@, dec(st.n_layers as int));
    lemma_shows(c, p, "embd"@, dec(st.n_embd as int));
    lemma_shows(d, p, "vocab"@, thousands_text(st.vocab_size as int));
    lemma_shows(e, p, "quant"@, st.quant_label@);
}

/// The panel shows the state of the machine, of the model and of the settings, each value
/// beside its name, at any time.
pub proof fn panels_show_what_they_name(st: DashboardState, sys: SysSnapshot, width: int)
    ensures
        ({
            let p = panel(st, sys, width);
            &&& shows(p, "kernel"@, st.active_kernel@)
            &&& shows(p, "KV"@, bytes_text(st.kv_cache_bytes as int))
            &&& shows(p, "RSS"@, bytes_text(sys.process_rss_bytes as int))
            &&& sys.total_mem_bytes > 0 ==> shows(
                p,
                "sys"@,
                bytes_text(sys.used_mem_bytes as int) + " / "@ + bytes_text(
                    sys.total_mem_bytes as int,
                ),
            )
            &&& shows(p, "temp"@, st.temperature@)
            &&& shows(p, "top-k"@, dec(st.top_k as int))
            &&& shows(p, "top-p"@, st.top_p@)
            &&& shows(p, "rep-pen"@, st.repetition_penalty@)
            &&& shows(p, "seed"@, "0x"@ + lower_hex(st.seed as int))
            &&& shows(p, "arch"@, st.architecture@)
            &&& shows(p, "layers"@, dec(st.n_layers as int))
            &&& shows(p, "embd"@, dec(st.n_embd as int))
            &&& shows(p, "vocab"@, thousands_text(st.vocab_size as int))
            &&& shows(p, "quant"@, st.quant_label@)
            &&& shows(p, "file"@, bytes_text(st.model_file_bytes as int))
        }),
{
    let a = hardware(Seq::empty(), st, sys, width);
    let b = load(a, sys);
    let c = memory(b, st, sys);
    let d = inference(c, st);
    let e = sampling(d, st, width);
    let p = panel(st, sys, width);
    lemma_hardware(Seq::empty(), st, sys, width);
    lemma_load(a, sys);
    lemma_memory(b, st, sys);
    lemma_inference(c, st);
    lemma_sampling(d, st, width);
    lemma_model(e, st);
    lemma_begins(d, e, p);
    lemma_begins(c, d, p);
    lemma_begins(b, c, p);
    lemma_begins(a, b, p);
    lemma_shows(a, p, "kernel"@, st.active_kernel@);
    lemma_shows(c, p, "KV"@, bytes_text(st.kv_cache_bytes as int));
    lemma_shows(c, p, "RSS"@, bytes_text(sys.process_rss_bytes as int));
    if sys.total_mem_bytes > 0 {
        lemma_shows(
            c,
            p,
            "sys"@,
            bytes_text(sys.used_mem_bytes as int) + " / "@ + bytes_text(
                sys.total_mem_bytes as int,
            ),
        );
    }
    lemma_shows(e, p, "temp"@, st.temperature@);
    lemma_shows(e, p, "top-k"@, dec(st.top_k as int));
    lemma_shows(e, p, "top-p"@, st.top_p@);
    lemma_shows(e, p, "rep-pen"@, st.repetition_penalty@);
    lemma_shows(e, p, "seed"@, "0x"@ + lower_hex(st.seed as int));
}

/// During a turn the panel shows how far it has come.
pub proof fn panels_show_the_turn(st: DashboardState, sys: SysSnapshot, width: int)
    requires
        st.generating,
    ensures
        ({
            let p = panel(st, sys, width);
            &&& st.current_layer matches Some(l) ==> shows(
                p,
                "layer"@,
                padded_left(dec(l + 1), ' ', 2) + " / "@ + dec(st.n_layers as int),
            )
            &&& shows(p, "tok/s"@, st.turn_tok_per_sec@)
            &&& shows(
                p,
                "tokens"@,
                dec(st.turn_tokens_emitted as int) + " / "@ + dec(st.turn_tokens_cap as int),
            )
            &&& shows(p, "elapsed"@, st.turn_elapsed@ + " s"@)
        }),
{
    let a = hardware(Seq::empty(), st, sys, width);
    let c = memory(load(a, sys), st, sys);
    let d = inference(c, st);
    let e = sampling(d, st, width);
    let p = panel(st, sys, width);
    lemma_inference(c, st);
    lemma_sampling(d, st, width);
    lemma_model(e, st);
    lemma_begins(d, e, p);
    if st.current_layer is Some {
        lemma_shows(
            d,
            p,
            "layer"@,
            padded_left(dec(st.current_layer->0 + 1), ' ', 2) + " / "@ + dec(st.n_layers as int),
        );
    }
    lemma_shows(d, p, "tok/s"@, st.turn_tok_per_sec@);
    lemma_shows(
        d,
        p,
        "tokens"@,
        dec(st.turn_tokens_emitted as int) + " / "@ + dec(st.turn_tokens_cap as int),
    );
    lemma_shows(d, p, "elapsed"@, st.turn_elapsed@ + " s"@);
}

/// The features of the kernel are listed in their order, each behind a full mark where it was
/// detected and an empty one where it was not.
pub proof fn features_are_marked(lines: Lines, features: Seq<(String, bool)>, n: int, i: int)
    requires
        0 <= i < n <= features.len(),
    ensures
        feature_rows(lines, features, n).len() == lines.len() + n,
        ({
            let line = feature_rows(lines, features, n)[lines.len() + i];
            &&& line.len() == 3
            &&& features[i].1 ==> line[1].content == "●"@ && line[1].style == tinted(Tint::Green)
            &&& !features[i].1 ==> line[1].content == "○"@ && line[1].style == tinted(
                Tint::DarkGray,
            )
            &&& line[2].content == " "@ + features[i].0@
        }),
    decreases n,
{
    if i < n - 1 {
        features_are_marked(lines, features, n - 1, i);
    } else if n > 1 {
        features_are_marked(lines, features, n - 1, 0);
    } else {
        assert(feature_rows(lines, features, 0) == lines);
    }
}

/// Each core has a bar of eight cells, in its order.
pub proof fn cores_have_their_bars(lines: Lines, cores: Seq<Gauge>, n: int, i: int)
    requires
        0 <= i < n <= cores.len(),
    ensures
        core_rows(lines, cores, n).len() == lines.len() + n,
        ({
            let line = core_rows(lines, cores, n)[lines.len() + i];
            &&& line.len() == 3
            &&& line[0].content == "  c"@ + padded_right(dec(i), 2) + "    "@
            &&& line[1].content == bar(cores[i].filled as int, 8)
            &&& line[1].style == tinted(cores[i].color)
            &&& line[2].content == " "@ + cores[i].text@
        }),
    decreases n,
{
    if i < n - 1 {
        cores_have_their_bars(lines, cores, n - 1, i);
    } else if n > 1 {
        cores_have_their_bars(lines, cores, n - 1, 0);
    } else {
        assert(core_rows(lines, cores, 0) == lines);
    }
}

/// The load of the machine and of the program come first, each with a bar of ten cells, and
/// the cores behind them: all of them where there are at most twelve, and otherwise twelve
/// and a line for the rest.
pub proof fn loads_have_their_bars(lines: Lines, sys: SysSnapshot)
    requires
        sys.wf(),
    ensures
        ({
            let all = load(lines, sys);
            let n = lines.len() as int;
            &&& all[n + 1][0].content == "  overall"@
            &&& all[n + 1][1].content == bar(sys.overall.filled as int, 10)
            &&& all[n + 1][2].content == " "@ + sys.overall.text@
            &&& all[n + 2][0].content == "  proc   "@
            &&& all[n + 2][1].content == bar(sys.process.filled as int, 10)
            &&& all[n + 2][2].content == " "@ + sys.process.text@
            &&& sys.core_count <= 12 ==> all.len() == n + 3 + sys.core_count + 1
            &&& sys.core_count > 12 ==> all.len() == n + 3 + 12 + 2 && all[n + 15][0].content
                == "  c12-"@ + dec(sys.core_count - 1) + "  max "@ + sys.busiest_rest@ + "%"@
        }),
{
    let s = section(lines, "CPU"@);
    let a = gauge_row(
        s,
        "  overall"@,
        sys.overall.filled as int,
        10,
        sys.overall.color,
        sys.overall.text@,
    );
    let b = gauge_row(
        a,
        "  proc   "@,
        sys.process.filled as int,
        10,
        sys.process.color,
        sys.process.text@,
    );
    let n: int = if sys.core_count <= 12 {
        sys.core_count as int
    } else {
        12
    };
    lemma_cores(b, sys.per_core@, n);
    if n > 0 {
        cores_have_their_bars(b, sys.per_core@, n, 0);
    } else {
        assert(core_rows(b, sys.per_core@, 0) == b);
    }
    let c = core_rows(b, sys.per_core@, n);
    assert(c[lines.len() as int + 1] == b[lines.len() as int + 1]);
    assert(c[lines.len() as int + 2] == b[lines.len() as int + 2]);
}

} // verus!
