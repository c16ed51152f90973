use vstd::prelude::*;

use crate::ansi_parse::{parsed_lines_outline, ParsedSpan};
use crate::style::TextStyle;
use crate::text::{display_width, expand_tabs, expand_tabs_in, span_width, spaces, spaces_of};

verus! {

/// A 24-bit color.
#[derive(Clone, Copy, Debug, PartialEq, Eq, Structural)]
pub struct Rgb {
    pub r: u8,
    pub g: u8,
    pub b: u8,
}

/// A run of a syntax highlighted line: its foreground color and its text.
#[derive(Debug)]
pub struct HighlightedSpan {
    pub foreground: Rgb,
    pub text: String,
}

/// How a span of the preview is drawn, before the match background.
#[derive(Clone, Copy, Debug, PartialEq, Eq, Structural)]
pub enum SpanStyle {
    /// The terminal's default style.
    Plain,
    /// The default style with this foreground color.
    Foreground(Rgb),
    /// The style that ANSI escape codes of the file gave the span.
    Parsed(TextStyle),
}

/// A span of a preview line. A `highlighted` span gets the theme's match
/// highlight color as its background.
#[derive(Debug)]
pub struct PreviewSpan {
    pub content: String,
    pub style: SpanStyle,
    pub highlighted: bool,
}

/// A preview span as plain values.
pub struct SpanOutline {
    pub content: Seq<char>,
    pub style: SpanStyle,
    pub highlighted: bool,
}

impl PreviewSpan {
    pub open spec fn outline(self) -> SpanOutline {
        SpanOutline { content: self.content@, style: self.style, highlighted: self.highlighted }
    }
}

/// The outline of each span of a line.
pub open spec fn line_outline(line: Seq<PreviewSpan>) -> Seq<SpanOutline> {
    line.map_values(|s: PreviewSpan| s.outline())
}

/// The outline of each line.
pub open spec fn lines_outline(lines: Seq<Vec<PreviewSpan>>) -> Seq<Seq<SpanOutline>> {
    lines.map_values(|l: Vec<PreviewSpan>| line_outline(l@))
}

/// The display width of a line: the sum of the widths of its spans.
pub open spec fn outline_width(spans: Seq<(SpanOutline, bool)>) -> int
    decreases spans.len(),
{
    if spans.len() == 0 {
        0
    } else {
        outline_width(spans.drop_last()) + display_width(spans.last().0.content) as int
    }
}

/// Finishes a line of spans, each given with whether it has a background
/// color of its own. A line that is not the match line stays as it is. The
/// match line is padded with spaces up to `width` columns when it is
/// narrower, and every span without a background of its own (the padding
/// among them) is highlighted.
pub open spec fn finish_line(base: Seq<(SpanOutline, bool)>, is_match: bool, width: int) -> Seq<SpanOutline> {
    if !is_match {
        base.map_values(|x: (SpanOutline, bool)| x.0)
    } else {
        let total = outline_width(base);
        let padded = if total < width {
            base.push(
                (SpanOutline { content: spaces((width - total) as nat), style: SpanStyle::Plain, highlighted: false }, false),
            )
        } else {
            base
        };
        padded.map_values(
            |x: (SpanOutline, bool)|
                SpanOutline { content: x.0.content, style: x.0.style, highlighted: !x.1 },
        )
    }
}

/// The spans of a syntax highlighted line, before it is finished: tabs
/// expanded, colored with their foreground, none with a background.
pub open spec fn highlighted_base(line: Seq<HighlightedSpan>) -> Seq<(SpanOutline, bool)> {
    line.map_values(
        |h: HighlightedSpan|
            (SpanOutline { content: expand_tabs(h.text@), style: SpanStyle::Foreground(h.foreground), highlighted: false }, false),
    )
}

/// The spans of a line of a file with ANSI escape codes, before it is
/// finished, each with whether its style sets a background. With the first
/// parsed line `first`, they are its spans with tabs expanded, in the style
/// their escape codes gave them; when parsing gave no line, the whole
/// rendered text (tabs expanded) is one plain span.
pub open spec fn ansi_base(rendered: Seq<char>, first: Option<Seq<(Seq<char>, TextStyle)>>) -> Seq<(SpanOutline, bool)> {
    match first {
        Some(spans) => spans.map_values(
            |p: (Seq<char>, TextStyle)|
                (SpanOutline { content: expand_tabs(p.0), style: SpanStyle::Parsed(p.1), highlighted: false }, p.1.bg is Some),
        ),
        None => seq![
            (SpanOutline { content: expand_tabs(rendered), style: SpanStyle::Plain, highlighted: false }, false),
        ],
    }
}

/// The first line of a parse, when there is one.
pub open spec fn first_parsed_line(lines: Seq<Seq<(Seq<char>, TextStyle)>>) -> Option<Seq<(Seq<char>, TextStyle)>> {
    if lines.len() > 0 {
        Some(lines[0])
    } else {
        None
    }
}

/// The display width of a line, as a `usize` that saturates.
fn line_width(spans: &Vec<PreviewSpan>, Ghost(base): Ghost<Seq<(SpanOutline, bool)>>) -> (w: usize)
    requires
        base.len() == spans@.len(),
        forall|j: int| 0 <= j < base.len() ==> #[trigger] base[j].0.content == spans@[j].content@,
    ensures
        w as int == if outline_width(base) < usize::MAX { outline_width(base) } else { usize::MAX as int },
{
    let mut total: usize = 0;
    let mut j: usize = 0;
    while j < spans.len()
        invariant
            base.len() == spans@.len(),
            forall|j: int| 0 <= j < base.len() ==> #[trigger] base[j].0.content == spans@[j].content@,
            j <= spans@.len(),
            total as int == if outline_width(base.take(j as int)) < usize::MAX {
                outline_width(base.take(j as int))
            } else {
                usize::MAX as int
            },
            outline_width(base.take(j as int)) >= 0,
        decreases spans@.len() - j,
    {
        let w = span_width(spans[j].content.as_str());
        assert(base.take(j + 1).drop_last() =~= base.take(j as int));
        total = total.saturating_add(w);
        j = j + 1;
    }
    assert(base.take(spans@.len() as int) =~= base);
    total
}

/// The outline a span of `base` has once it is placed in a line whose
/// match status is `is_match`, before padding.
pub open spec fn placed(x: (SpanOutline, bool), is_match: bool) -> SpanOutline {
    SpanOutline { content: x.0.content, style: x.0.style, highlighted: is_match && !x.1 }
}

/// Pads the match line; the spans are already placed.
fn finish_spans(
    spans: &mut Vec<PreviewSpan>,
    Ghost(base): Ghost<Seq<(SpanOutline, bool)>>,
    is_match: bool,
    width: usize,
)
    requires
        line_outline(old(spans)@) == base.map_values(|x: (SpanOutline, bool)| placed(x, is_match)),
        forall|j: int| 0 <= j < base.len() ==> !(#[trigger] base[j]).0.highlighted,
    ensures
        line_outline(final(spans)@) == finish_line(base, is_match, width as int),
        final(spans)@.len() >= old(spans)@.len(),
        forall|j: int| 0 <= j < old(spans)@.len() ==> #[trigger] final(spans)@[j] == old(spans)@[j],
{
    let ghost start = spans@;
    assert(base.len() == spans@.len()) by {
        assert(line_outline(spans@).len() == spans@.len());
    }
    assert forall|j: int| 0 <= j < base.len() implies #[trigger] base[j].0.content == spans@[j].content@ by {
        assert(line_outline(spans@)[j] == spans@[j].outline());
    }
    if is_match {
        let w = line_width(spans, Ghost(base));
        if w < width {
            let pad = spaces_of(width - w);
            spans.push(PreviewSpan { content: pad, style: SpanStyle::Plain, highlighted: true });
            let ghost padded = base.push(
                (SpanOutline { content: spaces((width - outline_width(base)) as nat), style: SpanStyle::Plain, highlighted: false }, false),
            );
            assert(line_outline(spans@) =~= padded.map_values(
                |x: (SpanOutline, bool)| SpanOutline { content: x.0.content, style: x.0.style, highlighted: !x.1 },
            )) by {
                assert forall|j: int| 0 <= j < spans@.len() implies line_outline(spans@)[j]
                    == padded.map_values(
                    |x: (SpanOutline, bool)| SpanOutline { content: x.0.content, style: x.0.style, highlighted: !x.1 },
                )[j] by {
                    if j < start.len() {
                        assert(line_outline(start)[j] == placed(base[j], is_match));
                    }
                }
            }
        } else {
            assert(line_outline(spans@) =~= base.map_values(
                |x: (SpanOutline, bool)| SpanOutline { content: x.0.content, style: x.0.style, highlighted: !x.1 },
            )) by {
                assert forall|j: int| 0 <= j < spans@.len() implies line_outline(spans@)[j]
                    == base.map_values(
                    |x: (SpanOutline, bool)| SpanOutline { content: x.0.content, style: x.0.style, highlighted: !x.1 },
                )[j] by {
                    assert(line_outline(start)[j] == placed(base[j], is_match));
                }
            }
        }
    } else {
        assert(line_outline(spans@) =~= base.map_values(|x: (SpanOutline, bool)| x.0)) by {
            assert forall|j: int| 0 <= j < spans@.len() implies line_outline(spans@)[j]
                == base.map_values(|x: (SpanOutline, bool)| x.0)[j] by {
                assert(line_outline(start)[j] == placed(base[j], is_match));
            }
        }
    }
}

/// The preview of one syntax highlighted line: its spans with tabs expanded,
/// each in its foreground color; the match line is padded to `width`
/// columns and highlighted throughout.
pub fn compose_highlighted_line(line: &Vec<HighlightedSpan>, is_match: bool, width: usize) -> (r: Vec<PreviewSpan>)
    ensures
        line_outline(r@) == finish_line(highlighted_base(line@), is_match, width as int),
{
    let ghost base = highlighted_base(line@);
    let mut spans: Vec<PreviewSpan> = Vec::new();
    let mut j: usize = 0;
    while j < line.len()
        invariant
            base == highlighted_base(line@),
            j <= line@.len(),
            spans@.len() == j,
            base.len() == line@.len(),
            line_outline(spans@) == base.take(j as int).map_values(|x: (SpanOutline, bool)| placed(x, is_match)),
        decreases line@.len() - j,
    {
        let h = &line[j];
        let ghost prev = spans@;
        spans.push(PreviewSpan {
            content: expand_tabs_in(h.text.as_str()),
            style: SpanStyle::Foreground(h.foreground),
            highlighted: is_match,
        });
        assert(line_outline(spans@) =~= base.take(j + 1).map_values(|x: (SpanOutline, bool)| placed(x, is_match))) by {
            assert forall|k: int| 0 <= k < spans@.len() implies #[trigger] line_outline(spans@)[k]
                == base.take(j + 1).map_values(|x: (SpanOutline, bool)| placed(x, is_match))[k] by {
                if k < j {
                    assert(spans@[k] == prev[k]);
                    assert(line_outline(prev)[k] == prev[k].outline());
                }
            }
        }
        j = j + 1;
    }
    assert(base.take(line@.len() as int) =~= base);
    finish_spans(&mut spans, Ghost(base), is_match, width);
    spans
}

/// The first parsed line, as the preview reads it, of a parse result.
pub open spec fn parsed_first_line(parsed: Result<Vec<Vec<ParsedSpan>>, ansi_to_tui::Error>) -> Option<
    Seq<(Seq<char>, TextStyle)>,
> {
    match parsed {
        Ok(lines) => first_parsed_line(parsed_lines_outline(lines@)),
        Err(_) => None,
    }
}

/// The preview of one line of a file with ANSI escape codes, given the text
/// `rendered` and what parsing its escape codes gave. The spans of the first
/// parsed line keep the style that their codes gave them and have their
/// tabs expanded; when there is no such line the rendered text is shown
/// plain. The match line is padded to `width` columns, and its spans that
/// have no background of their own are highlighted.
pub fn compose_ansi_line(
    rendered: &str,
    parsed: Result<Vec<Vec<ParsedSpan>>, ansi_to_tui::Error>,
    is_match: bool,
    width: usize,
) -> (r: Vec<PreviewSpan>)
    ensures
        line_outline(r@) == finish_line(ansi_base(rendered@, parsed_first_line(parsed)), is_match, width as int),
        match parsed {
            Ok(lines) => lines@.len() > 0 ==> forall|j: int|
                0 <= j < lines@[0]@.len() ==> #[trigger] r@[j].style == SpanStyle::Parsed(lines@[0]@[j].style),
            Err(_) => true,
        },
{
    let ghost base = ansi_base(rendered@, parsed_first_line(parsed));
    let ghost parsed_in = parsed;
    let mut spans: Vec<PreviewSpan> = Vec::new();
    let mut fallback = true;
    if let Ok(lines) = parsed {
        if lines.len() > 0 {
            fallback = false;
            let first = &lines[0];
            let ghost outline = parsed_lines_outline(lines@)[0];
            assert(outline == first@.map_values(|span: ParsedSpan| span.outline()));
            let mut j: usize = 0;
            while j < first.len()
                invariant
                    base == ansi_base(rendered@, Some(outline)),
                    outline == first@.map_values(|span: ParsedSpan| span.outline()),
                    j <= first@.len(),
                    spans@.len() == j,
                    base.len() == first@.len(),
                    line_outline(spans@) == base.take(j as int).map_values(|x: (SpanOutline, bool)| placed(x, is_match)),
                    forall|k: int| 0 <= k < j ==> #[trigger] spans@[k].style == SpanStyle::Parsed(first@[k].style),
                decreases first@.len() - j,
            {
                let p = &first[j];
                let ghost prev = spans@;
                spans.push(PreviewSpan {
                    content: expand_tabs_in(p.content.as_str()),
                    style: SpanStyle::Parsed(p.style),
                    highlighted: is_match && p.style.bg.is_none(),
                });
                assert(outline[j as int] == p.outline());
                assert(line_outline(spans@) =~= base.take(j + 1).map_values(|x: (SpanOutline, bool)| placed(x, is_match))) by {
                    assert forall|k: int| 0 <= k < spans@.len() implies #[trigger] line_outline(spans@)[k]
                        == base.take(j + 1).map_values(|x: (SpanOutline, bool)| placed(x, is_match))[k] by {
                        if k < j {
                            assert(spans@[k] == prev[k]);
                            assert(line_outline(prev)[k] == prev[k].outline());
                        }
                    }
                }
                assert forall|k: int| 0 <= k < j + 1 implies #[trigger] spans@[k].style == SpanStyle::Parsed(first@[k].style) by {
                    if k < j {
                        assert(spans@[k] == prev[k]);
                    }
                }
                j = j + 1;
            }
            assert(base.take(first@.len() as int) =~= base);
        }
    }
    if fallback {
        spans.push(PreviewSpan { content: expand_tabs_in(rendered), style: SpanStyle::Plain, highlighted: is_match });
        assert(line_outline(spans@) =~= base.map_values(|x: (SpanOutline, bool)| placed(x, is_match)));
    }
    finish_spans(&mut spans, Ghost(base), is_match, width);
    spans
}

} // verus!
