//! Markdown as styled lines.

use willamette::chat::markdown::render_markdown_lines;
use willamette::chat::span::Tint;

#[test]
fn plain_text_passes_through_with_indent_span() {
    let lines = render_markdown_lines("hello world");
    assert_eq!(lines.len(), 1);
    let spans = &lines[0].spans;
    assert_eq!(spans.len(), 2);
    assert_eq!(spans[0].content, "");
    assert_eq!(spans[1].content, "hello world");
}

#[test]
fn double_star_renders_bold() {
    let lines = render_markdown_lines("a **bold** b");
    let spans = &lines[0].spans;
    assert_eq!(spans.len(), 4);
    assert_eq!(spans[2].content, "bold");
    assert!(
        spans[2].style.bold,
        "the bold span must carry the BOLD modifier"
    );
    assert!(!spans[1].style.bold);
    assert!(!spans[3].style.bold);
}

#[test]
fn unclosed_double_star_stays_literal() {
    let lines = render_markdown_lines("a **only one");
    let spans = &lines[0].spans;
    let joined: String = spans.iter().map(|s| s.content.as_str()).collect();
    assert_eq!(joined, "a **only one");
    assert!(!spans
        .iter()
        .any(|s| s.style.bold));
}

#[test]
fn backtick_renders_inline_code() {
    let lines = render_markdown_lines("call `foo()` here");
    let spans = &lines[0].spans;
    assert_eq!(spans.len(), 4);
    assert_eq!(spans[2].content, "foo()");
    assert_eq!(spans[2].style.fg, Some(Tint::Yellow));
}

#[test]
fn bullet_list_gets_diamond_glyph() {
    let lines = render_markdown_lines("- first item");
    let spans = &lines[0].spans;
    assert_eq!(spans[1].content, "• ");
    assert_eq!(spans[1].style.fg, Some(Tint::Yellow));
}

#[test]
fn bullet_with_indent_preserves_indent() {
    let lines = render_markdown_lines("    - nested");
    let spans = &lines[0].spans;
    assert_eq!(spans[0].content, "    ");
    assert_eq!(spans[1].content, "• ");
}

#[test]
fn star_bullet_also_recognized() {
    let lines = render_markdown_lines("* alt-bullet");
    let spans = &lines[0].spans;
    assert_eq!(spans[1].content, "• ");
}

#[test]
fn numbered_list_keeps_counter_coloured() {
    let lines = render_markdown_lines("3. third item");
    let spans = &lines[0].spans;
    assert_eq!(spans[1].content, "3. ");
    assert_eq!(spans[1].style.fg, Some(Tint::Yellow));
}

#[test]
fn multidigit_numbered_list_works() {
    let lines = render_markdown_lines("12. twelfth");
    let spans = &lines[0].spans;
    assert_eq!(spans[1].content, "12. ");
}

#[test]
fn period_in_normal_text_is_not_a_list_item() {
    let lines = render_markdown_lines("v0.2.3 is out");
    let spans = &lines[0].spans;
    let joined: String = spans.iter().map(|s| s.content.as_str()).collect();
    assert_eq!(joined, "v0.2.3 is out");
}

#[test]
fn h1_heading() {
    let lines = render_markdown_lines("# Hello");
    let spans = &lines[0].spans;
    assert_eq!(spans.len(), 2);
    assert_eq!(spans[1].content, "Hello");
    assert!(spans[1].style.bold);
    assert_eq!(spans[1].style.fg, Some(Tint::Cyan));
}

#[test]
fn h2_and_h3_use_same_style() {
    let h2 = render_markdown_lines("## h2");
    let h3 = render_markdown_lines("### h3");
    assert_eq!(h2[0].spans[1].style, h3[0].spans[1].style);
}

#[test]
fn multiple_lines_render_separately() {
    let lines = render_markdown_lines("line one\nline two");
    assert_eq!(lines.len(), 2);
}

#[test]
fn realistic_korean_history_response_renders() {
    let raw = "Korean history:\n1. **Ancient Korea**\n   - The Korean Peninsula was inhabited by various cultures.\n2. **Joseon Dynasty (1392–1910)**\n   - Founded by Yi Sun-sin.";
    let lines = render_markdown_lines(raw);
    assert_eq!(lines.len(), 5);
    assert!(!lines[0].spans.iter().any(|s| s.content == "1. "));
    assert!(lines[1].spans.iter().any(|s| s.content == "1. "));
    assert!(
        lines[1]
            .spans
            .iter()
            .any(|s| s.content == "Ancient Korea"
                && s.style.bold)
    );
    let l3 = &lines[2].spans;
    assert_eq!(l3[0].content, "   ");
    assert_eq!(l3[1].content, "• ");
}
