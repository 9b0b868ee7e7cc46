//! Lines of styled text.

use vstd::prelude::*;

verus! {

/// A colour of the terminal.
#[derive(Debug, Clone, Copy, PartialEq, Eq, Structural)]
pub enum Tint {
    Black,
    Cyan,
    DarkGray,
    Gray,
    Green,
    Magenta,
    Red,
    Yellow,
}

/// How a stretch of text looks.
#[derive(Debug, Clone, Copy, PartialEq, Eq, Structural)]
pub struct SpanStyle {
    pub fg: Option<Tint>,
    pub bg: Option<Tint>,
    pub bold: bool,
}

/// The look of text that nothing is said about.
pub open spec fn plain() -> SpanStyle {
    SpanStyle { fg: None, bg: None, bold: false }
}

/// The look of coloured text.
pub open spec fn tinted(fg: Tint) -> SpanStyle {
    SpanStyle { fg: Some(fg), bg: None, bold: false }
}

/// The look of bold text without a colour.
pub open spec fn strong() -> SpanStyle {
    SpanStyle { fg: None, bg: None, bold: true }
}

/// The look of headings.
pub open spec fn heading() -> SpanStyle {
    SpanStyle { fg: Some(Tint::Cyan), bg: None, bold: true }
}

/// The look of a badge: bold black text on a colour.
pub open spec fn badge(bg: Tint) -> SpanStyle {
    SpanStyle { fg: Some(Tint::Black), bg: Some(bg), bold: true }
}

impl SpanStyle {
    /// The look of text that nothing is said about.
    pub fn raw() -> (s: SpanStyle)
        ensures
            s == plain(),
    {
        SpanStyle { fg: None, bg: None, bold: false }
    }

    /// The look of coloured text.
    pub fn colored(fg: Tint) -> (s: SpanStyle)
        ensures
            s == tinted(fg),
    {
        SpanStyle { fg: Some(fg), bg: None, bold: false }
    }

    /// The look of bold text without a colour.
    pub fn bold() -> (s: SpanStyle)
        ensures
            s == strong(),
    {
        SpanStyle { fg: None, bg: None, bold: true }
    }

    /// The look of a badge.
    pub fn badge(bg: Tint) -> (s: SpanStyle)
        ensures
            s == badge(bg),
    {
        SpanStyle { fg: Some(Tint::Black), bg: Some(bg), bold: true }
    }

    /// The look of headings.
    pub fn heading() -> (s: SpanStyle)
        ensures
            s == heading(),
    {
        SpanStyle { fg: Some(Tint::Cyan), bg: None, bold: true }
    }
}

/// A stretch of text with one look.
#[derive(Debug)]
pub struct StyledSpan {
    pub content: String,
    pub style: SpanStyle,
}

/// A stretch of text as a mathematical object.
#[verifier::ext_equal]
pub struct Stretch {
    pub content: Seq<char>,
    pub style: SpanStyle,
}

/// The stretch with a content and a look.
pub open spec fn stretch(content: Seq<char>, style: SpanStyle) -> Stretch {
    Stretch { content, style }
}

impl View for StyledSpan {
    type V = Stretch;

    open spec fn view(&self) -> Stretch {
        Stretch { content: self.content@, style: self.style }
    }
}

impl StyledSpan {
    /// A stretch of text with one look.
    pub fn new(content: String, style: SpanStyle) -> (s: StyledSpan)
        ensures
            s@ == stretch(content@, style),
    {
        StyledSpan { content, style }
    }
}

/// The stretches that a list of spans stands for.
pub open spec fn stretches(spans: Seq<StyledSpan>) -> Seq<Stretch> {
    spans.map_values(|s: StyledSpan| s@)
}

/// A line of styled text.
#[derive(Debug)]
pub struct StyledLine {
    pub spans: Vec<StyledSpan>,
}

impl View for StyledLine {
    type V = Seq<Stretch>;

    open spec fn view(&self) -> Seq<Stretch> {
        stretches(self.spans@)
    }
}

/// The lines that a list of styled lines stands for.
pub open spec fn line_views(lines: Seq<StyledLine>) -> Seq<Seq<Stretch>> {
    lines.map_values(|l: StyledLine| l@)
}

/// Adds a line.
pub fn push_line(lines: &mut Vec<StyledLine>, line: StyledLine)
    ensures
        line_views(final(lines)@) == line_views(old(lines)@).push(line@),
{
    let ghost before = lines@;
    lines.push(line);
    proof {
        assert(line_views(lines@) =~= line_views(before).push(line@));
    }
}

/// A line that starts with `head` and goes on with the stretches of `rest`.
pub fn joined_line(head: StyledLine, rest: &StyledLine) -> (l: StyledLine)
    ensures
        l@ == head@ + rest@,
{
    let ghost before = head@;
    let mut spans = head.spans;
    let mut i: usize = 0;
    proof {
        assert(stretches(spans@) =~= before + rest@.take(0));
    }
    while i < rest.spans.len()
        invariant
            i <= rest.spans@.len(),
            stretches(spans@) == before + rest@.take(i as int),
        decreases rest.spans.len() - i,
    {
        let copy = StyledSpan {
            content: rest.spans[i].content.clone(),
            style: rest.spans[i].style,
        };
        let ghost so_far = stretches(spans@);
        spans.push(copy);
        i = i + 1;
        proof {
            assert(stretches(spans@) =~= so_far.push(rest@[i - 1]));
            assert(stretches(spans@) =~= before + rest@.take(i as int));
        }
    }
    proof {
        assert(rest@.take(i as int) =~= rest@);
    }
    StyledLine { spans }
}

/// A line of one stretch.
pub fn line1(a: StyledSpan) -> (l: StyledLine)
    ensures
        l@ == seq![a@],
{
    let mut spans: Vec<StyledSpan> = Vec::new();
    spans.push(a);
    let l = StyledLine { spans };
    proof {
        assert(l@ =~= seq![a@]);
    }
    l
}

/// A line of two stretches.
pub fn line2(a: StyledSpan, b: StyledSpan) -> (l: StyledLine)
    ensures
        l@ == seq![a@, b@],
{
    let mut spans: Vec<StyledSpan> = Vec::new();
    spans.push(a);
    spans.push(b);
    let l = StyledLine { spans };
    proof {
        assert(l@ =~= seq![a@, b@]);
    }
    l
}

/// A line of three stretches.
pub fn line3(a: StyledSpan, b: StyledSpan, c: StyledSpan) -> (l: StyledLine)
    ensures
        l@ == seq![a@, b@, c@],
{
    let mut spans: Vec<StyledSpan> = Vec::new();
    spans.push(a);
    spans.push(b);
    spans.push(c);
    let l = StyledLine { spans };
    proof {
        assert(l@ =~= seq![a@, b@, c@]);
    }
    l
}

} // verus!
