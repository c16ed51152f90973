use vstd::prelude::*;

use ansi_to_tui::IntoText;
use ratatui::style::Color as TuiColor;

use crate::style::{TermColor, TextStyle};

verus! {

/// A color of `ratatui` as the library's own color.
pub open spec fn term_color(c: TuiColor) -> TermColor {
    match c {
        TuiColor::Reset => TermColor::Reset,
        TuiColor::Black => TermColor::Black,
        TuiColor::Red => TermColor::Red,
        TuiColor::Green => TermColor::Green,
        TuiColor::Yellow => TermColor::Yellow,
        TuiColor::Blue => TermColor::Blue,
        TuiColor::Magenta => TermColor::Magenta,
        TuiColor::Cyan => TermColor::Cyan,
        TuiColor::Gray => TermColor::Gray,
        TuiColor::DarkGray => TermColor::DarkGray,
        TuiColor::LightRed => TermColor::LightRed,
        TuiColor::LightGreen => TermColor::LightGreen,
        TuiColor::LightYellow => TermColor::LightYellow,
        TuiColor::LightBlue => TermColor::LightBlue,
        TuiColor::LightMagenta => TermColor::LightMagenta,
        TuiColor::LightCyan => TermColor::LightCyan,
        TuiColor::White => TermColor::White,
        TuiColor::Rgb(r, g, b) => TermColor::Rgb(r, g, b),
        TuiColor::Indexed(i) => TermColor::Indexed(i),
    }
}

fn to_term_color(c: TuiColor) -> (r: TermColor)
    ensures
        r == term_color(c),
{
    match c {
        TuiColor::Reset => TermColor::Reset,
        TuiColor::Black => TermColor::Black,
        TuiColor::Red => TermColor::Red,
        TuiColor::Green => TermColor::Green,
        TuiColor::Yellow => TermColor::Yellow,
        TuiColor::Blue => TermColor::Blue,
        TuiColor::Magenta => TermColor::Magenta,
        TuiColor::Cyan => TermColor::Cyan,
        TuiColor::Gray => TermColor::Gray,
        TuiColor::DarkGray => TermColor::DarkGray,
        TuiColor::LightRed => TermColor::LightRed,
        TuiColor::LightGreen => TermColor::LightGreen,
        TuiColor::LightYellow => TermColor::LightYellow,
        TuiColor::LightBlue => TermColor::LightBlue,
        TuiColor::LightMagenta => TermColor::LightMagenta,
        TuiColor::LightCyan => TermColor::LightCyan,
        TuiColor::White => TermColor::White,
        TuiColor::Rgb(r, g, b) => TermColor::Rgb(r, g, b),
        TuiColor::Indexed(i) => TermColor::Indexed(i),
    }
}

fn to_term_color_opt(c: Option<TuiColor>) -> (r: Option<TermColor>)
    ensures
        r == term_color_opt(c),
{
    match c {
        Some(x) => Some(to_term_color(x)),
        None => None,
    }
}

/// An optional color of `ratatui` as the library's own.
pub open spec fn term_color_opt(c: Option<TuiColor>) -> Option<TermColor> {
    match c {
        Some(x) => Some(term_color(x)),
        None => None,
    }
}

/// A span as `ansi_to_tui` gives it: its text, the colors of its style and
/// the bits of the modifiers the style adds and removes.
pub struct RawSpan {
    pub content: String,
    pub fg: Option<TuiColor>,
    pub bg: Option<TuiColor>,
    pub underline_color: Option<TuiColor>,
    pub add_modifier: u16,
    pub sub_modifier: u16,
}

impl RawSpan {
    /// The span's text and style as the library's plain values.
    pub open spec fn outline(self) -> (Seq<char>, TextStyle) {
        (
            self.content@,
            TextStyle {
                fg: term_color_opt(self.fg),
                bg: term_color_opt(self.bg),
                underline_color: term_color_opt(self.underline_color),
                add_modifier: self.add_modifier,
                sub_modifier: self.sub_modifier,
            },
        )
    }
}

/// A span of text as `ansi_to_tui` parsed it out of ANSI escape sequences:
/// its text and the style the escape codes gave it.
#[derive(Debug)]
pub struct ParsedSpan {
    pub content: String,
    pub style: TextStyle,
}

impl ParsedSpan {
    /// A parsed span as plain values: its text and its style.
    pub open spec fn outline(self) -> (Seq<char>, TextStyle) {
        (self.content@, self.style)
    }
}

/// Each line of parsed spans, as plain values.
pub open spec fn parsed_lines_outline(lines: Seq<Vec<ParsedSpan>>) -> Seq<Seq<(Seq<char>, TextStyle)>> {
    lines.map_values(|line: Vec<ParsedSpan>| line@.map_values(|span: ParsedSpan| span.outline()))
}

/// Each line of raw spans, as plain values.
pub open spec fn raw_lines_outline(lines: Seq<Vec<RawSpan>>) -> Seq<Seq<(Seq<char>, TextStyle)>> {
    lines.map_values(|line: Vec<RawSpan>| line@.map_values(|span: RawSpan| span.outline()))
}

/// The lines into which `ansi_to_tui` parses `text`, each a sequence of
/// spans given as their text and the style their escape codes gave them.
pub uninterp spec fn ansi_text_lines(text: Seq<char>) -> Seq<Seq<(Seq<char>, TextStyle)>>;

/// Parses ANSI escape sequences in `text` into styled lines
/// (`ansi_to_tui::IntoText::into_text`), each span's `ratatui` style taken
/// field by field. Its parser stops at the first input it cannot read and
/// returns what it read so far, so the call always succeeds.
#[verifier::external_body]
fn read_ansi_text(text: &str) -> (r: Result<Vec<Vec<RawSpan>>, ansi_to_tui::Error>)
    ensures
        r is Ok,
        r matches Ok(lines) ==> raw_lines_outline(lines@) == ansi_text_lines(text@),
{
    text.into_text().map(|t| t.lines.into_iter().map(|l| l.spans.into_iter().map(|s| RawSpan {
        fg: s.style.fg,
        bg: s.style.bg,
        underline_color: s.style.underline_color,
        add_modifier: s.style.add_modifier.bits(),
        sub_modifier: s.style.sub_modifier.bits(),
        content: s.content.into_owned(),
    }).collect()).collect())
}

/// The spans of `line` in the library's own style.
fn parsed_line(line: &Vec<RawSpan>) -> (r: Vec<ParsedSpan>)
    ensures
        r@.map_values(|span: ParsedSpan| span.outline()) == line@.map_values(|span: RawSpan| span.outline()),
{
    let mut r: Vec<ParsedSpan> = Vec::new();
    let mut j: usize = 0;
    while j < line.len()
        invariant
            j <= line@.len(),
            r@.len() == j,
            forall|k: int| 0 <= k < j ==> #[trigger] r@[k].outline() == line@[k].outline(),
        decreases line@.len() - j,
    {
        let s = &line[j];
        let style = TextStyle {
            fg: to_term_color_opt(s.fg),
            bg: to_term_color_opt(s.bg),
            underline_color: to_term_color_opt(s.underline_color),
            add_modifier: s.add_modifier,
            sub_modifier: s.sub_modifier,
        };
        r.push(ParsedSpan { content: s.content.clone(), style });
        j = j + 1;
    }
    assert(r@.map_values(|span: ParsedSpan| span.outline()) =~= line@.map_values(|span: RawSpan| span.outline()));
    r
}

/// Parses ANSI escape sequences in `text` into lines of spans in the
/// library's own style; the parse always succeeds.
pub(crate) fn parse_ansi_text(text: &str) -> (r: Result<Vec<Vec<ParsedSpan>>, ansi_to_tui::Error>)
    ensures
        r is Ok,
        r matches Ok(lines) ==> parsed_lines_outline(lines@) == ansi_text_lines(text@),
{
    match read_ansi_text(text) {
        Ok(raw) => {
            let mut lines: Vec<Vec<ParsedSpan>> = Vec::new();
            let mut i: usize = 0;
            while i < raw.len()
                invariant
                    i <= raw@.len(),
                    lines@.len() == i,
                    raw_lines_outline(raw@) == ansi_text_lines(text@),
                    forall|k: int| 0 <= k < i ==> #[trigger] parsed_lines_outline(lines@)[k]
                        == raw_lines_outline(raw@)[k],
                decreases raw@.len() - i,
            {
                let line = parsed_line(&raw[i]);
                let ghost prev = lines@;
                lines.push(line);
                assert forall|k: int| 0 <= k < i + 1 implies #[trigger] parsed_lines_outline(lines@)[k]
                    == raw_lines_outline(raw@)[k] by {
                    if k < i {
                        assert(lines@[k] == prev[k]);
                        assert(parsed_lines_outline(prev)[k] == raw_lines_outline(raw@)[k]);
                    }
                }
                i = i + 1;
            }
            assert(parsed_lines_outline(lines@) =~= raw_lines_outline(raw@));
            Ok(lines)
        },
        Err(e) => Err(e),
    }
}

} // verus!
