use vstd::prelude::*;
use vstd::string::StringSliceAdditionalSpecFns;
use vstd::utf8::*;


use syntect::easy::HighlightLines;
use syntect::highlighting::{Color as ThemeColor, ThemeSet};
use syntect::parsing::SyntaxSet;

use crate::ansi_parse::{ansi_text_lines, parse_ansi_text};
use crate::ansi_utils::{strip_osc8, strip_osc8_keep_text};
use crate::file_path::{path_eq, FilePath};
use crate::layout::{percentage_split, split_by_percentages, Rect};
use crate::match_background::{
    slice_between, with_match_background, with_match_background_from, wrapped_ranges_fit,
    wrapped_ranges_on_char_boundaries,
};
use crate::preview::{
    ansi_base, compose_ansi_line, compose_highlighted_line, finish_line, first_parsed_line,
    highlighted_base, lines_outline, outline_width, HighlightedSpan, Rgb, PreviewSpan, SpanOutline,
    SpanStyle,
};
use crate::text::spaces;

verus! {

/// Where the preview pane stands next to the result list.
#[derive(Clone, Copy, Debug, PartialEq, Eq, Structural)]
pub enum ContextViewerPosition {
    /// No preview pane.
    Hidden,
    Vertical,
    Horizontal,
}

impl Default for ContextViewerPosition {
    fn default() -> (r: Self)
        ensures
            r == ContextViewerPosition::Hidden,
    {
        ContextViewerPosition::Hidden
    }
}

/// The position that a vertical toggle moves to: a vertical pane closes,
/// any other state opens a vertical pane.
pub open spec fn toggled_vertical(p: ContextViewerPosition) -> ContextViewerPosition {
    match p {
        ContextViewerPosition::Vertical => ContextViewerPosition::Hidden,
        _ => ContextViewerPosition::Vertical,
    }
}

/// The position that a horizontal toggle moves to: a horizontal pane closes,
/// any other state opens a horizontal pane.
pub open spec fn toggled_horizontal(p: ContextViewerPosition) -> ContextViewerPosition {
    match p {
        ContextViewerPosition::Horizontal => ContextViewerPosition::Hidden,
        _ => ContextViewerPosition::Horizontal,
    }
}

/// The preview pane of a grep result list: where it stands, how much of the
/// screen it takes (in percent), and the file shown in it, either as syntax
/// highlighted lines or as lines that keep their own ANSI escape codes.
#[derive(Debug)]
pub struct ContextViewer {
    highlighted_file_path: FilePath,
    file_highlighted: Vec<Vec<HighlightedSpan>>,
    file_plain: Vec<String>,
    syntax_set: SyntaxSet,
    theme_set: ThemeSet,
    position: ContextViewerPosition,
    preserve_ansi: bool,
    size: u16,
}

/// What the contracts read of a preview pane.
pub struct ViewerState {
    pub position: ContextViewerPosition,
    pub preserve_ansi: bool,
    /// The share of the screen the pane takes, in percent.
    pub size: u16,
    /// The lines of the shown file, syntax highlighted.
    pub highlighted: Seq<Vec<HighlightedSpan>>,
    /// The lines of the shown file, with their ANSI escape codes.
    pub plain: Seq<String>,
    /// The encoded bytes of the path of the shown file.
    pub shown_path: Seq<u8>,
    /// The syntax definitions the pane highlights with.
    pub syntax_set: SyntaxSet,
    /// The color themes the pane highlights with.
    pub theme_set: ThemeSet,
}

impl View for ContextViewer {
    type V = ViewerState;

    closed spec fn view(&self) -> ViewerState {
        ViewerState {
            position: self.position,
            preserve_ansi: self.preserve_ansi,
            size: self.size,
            highlighted: self.file_highlighted@,
            plain: self.file_plain@,
            shown_path: self.highlighted_file_path@,
            syntax_set: self.syntax_set,
            theme_set: self.theme_set,
        }
    }
}

/// The size after one step of growth: larger by one step, up to the largest.
pub open spec fn increased_size(size: u16) -> u16 {
    if size + ContextViewer::SIZE_CHANGE_DELTA < ContextViewer::MAX_SIZE {
        (size + ContextViewer::SIZE_CHANGE_DELTA) as u16
    } else {
        ContextViewer::MAX_SIZE
    }
}

/// The size after one step of shrinking: smaller by one step, down to the
/// smallest.
pub open spec fn decreased_size(size: u16) -> u16 {
    if size - ContextViewer::SIZE_CHANGE_DELTA > ContextViewer::MIN_SIZE {
        (size - ContextViewer::SIZE_CHANGE_DELTA) as u16
    } else {
        ContextViewer::MIN_SIZE
    }
}

/// The index of the first file line in the preview window whose first line
/// number is `first` (line numbers count from 1; 0 stands for 1).
pub open spec fn window_start(first: int) -> int {
    if first > 0 {
        first - 1
    } else {
        0
    }
}

/// How many of `total` file lines a window of `height` lines starting at
/// line number `first` shows.
pub open spec fn window_len(total: int, first: int, height: int) -> int {
    let available = if window_start(first) < total {
        total - window_start(first)
    } else {
        0
    };
    if height < available {
        height
    } else {
        available
    }
}

/// The preview of a syntax highlighted file: the lines of the window, the
/// line whose number is `match_index` finished as the match line.
pub open spec fn highlighted_preview(
    lines: Seq<Vec<HighlightedSpan>>,
    first: int,
    height: int,
    width: int,
    match_index: int,
) -> Seq<Seq<SpanOutline>> {
    Seq::new(
        window_len(lines.len() as int, first, height) as nat,
        |i: int|
            finish_line(
                highlighted_base(lines[window_start(first) + i]@),
                window_start(first) + i + 1 == match_index,
                width,
            ),
    )
}

/// The text shown for a line of a file with ANSI escape codes: the match
/// line gets its match ranges wrapped in the match background.
pub open spec fn rendered_line(line: Seq<char>, is_match: bool, offsets: Seq<(usize, usize)>) -> Seq<char> {
    if is_match {
        with_match_background(encode_utf8(line), offsets)
    } else {
        line
    }
}

/// The preview of one rendered line of a file with ANSI escape codes: its
/// hyperlink sequences are removed, its remaining escape codes parsed, and
/// the line finished.
pub open spec fn ansi_line(rendered: Seq<char>, is_match: bool, width: int) -> Seq<SpanOutline> {
    finish_line(
        ansi_base(rendered, first_parsed_line(ansi_text_lines(strip_osc8(rendered)))),
        is_match,
        width,
    )
}

/// The preview of a file with ANSI escape codes.
pub open spec fn ansi_preview(
    lines: Seq<String>,
    first: int,
    height: int,
    width: int,
    match_index: int,
    offsets: Seq<(usize, usize)>,
) -> Seq<Seq<SpanOutline>> {
    Seq::new(
        window_len(lines.len() as int, first, height) as nat,
        |i: int|
            ansi_line(
                rendered_line(
                    lines[window_start(first) + i]@,
                    window_start(first) + i + 1 == match_index,
                    offsets,
                ),
                window_start(first) + i + 1 == match_index,
                width,
            ),
    )
}

/// The preview that a pane in state `v` shows.
pub open spec fn preview(
    v: ViewerState,
    first: int,
    height: int,
    width: int,
    match_index: int,
    offsets: Seq<(usize, usize)>,
) -> Seq<Seq<SpanOutline>> {
    if v.preserve_ansi {
        ansi_preview(v.plain, first, height, width, match_index, offsets)
    } else {
        highlighted_preview(v.highlighted, first, height, width, match_index)
    }
}

/// Whether a pane in state `v` begins to load the file whose path has the
/// encoded bytes `path`: it does unless it is hidden or shows that path
/// already (the same bytes, or a path that `std` compares equal).
pub open spec fn begins_update(v: ViewerState, path: Seq<u8>) -> bool {
    &&& v.position != ContextViewerPosition::Hidden
    &&& v.shown_path != path
    &&& !path_eq(v.shown_path, path)
}

/// A pane in state `v` once it began to load the file whose path has the
/// encoded bytes `path`: it remembers the path and shows no lines yet.
pub open spec fn update_begun(v: ViewerState, path: Seq<u8>) -> ViewerState {
    ViewerState { shown_path: path, highlighted: Seq::empty(), plain: Seq::empty(), ..v }
}

/// The first line number of a window of `height` lines that shows line
/// `line_number` in its middle.
pub open spec fn first_line_for(line_number: u64, height: u16) -> int {
    if line_number >= height / 2 {
        line_number - height / 2
    } else {
        0
    }
}

/// The match ranges of line `line_number`: those of the selected match when
/// it lies on that line, none otherwise.
pub open spec fn offsets_for(line_number: u64, selected_match: Option<(u64, Vec<(usize, usize)>)>) -> Seq<(usize, usize)> {
    match selected_match {
        Some((l, offsets)) => if l == line_number {
            offsets@
        } else {
            Seq::empty()
        },
        None => Seq::empty(),
    }
}

/// The previews that can be drawn: the line number fits a `usize`, and
/// counts from 1 unless the window shows no line of a file with escape
/// codes; a syntax highlighted file has that line and the window has room
/// for a line; on a file with escape codes whose match line is in the
/// window, the match ranges that are wrapped fall on character boundaries.
pub open spec fn preview_defined(v: ViewerState, area: Rect, line_number: u64, offsets: Seq<(usize, usize)>) -> bool {
    &&& line_number <= usize::MAX
    &&& (!v.preserve_ansi || (area.height > 0 && v.plain.len() > 0)) ==> 1 <= line_number
    &&& !v.preserve_ansi ==> area.height > 0 && line_number <= v.highlighted.len()
    &&& v.preserve_ansi && area.height > 0 && 1 <= line_number <= v.plain.len()
        ==> wrapped_ranges_on_char_boundaries(encode_utf8(v.plain[line_number - 1]@), offsets, 0)
}

/// Every line of a syntax highlighted file can be previewed in a pane that
/// has room for a line, whatever the selected match.
pub proof fn lemma_highlighted_lines_previewable(
    v: ViewerState,
    area: Rect,
    line_number: u64,
    offsets: Seq<(usize, usize)>,
)
    requires
        !v.preserve_ansi,
        v.highlighted.len() <= usize::MAX,
        area.height > 0,
        1 <= line_number <= v.highlighted.len(),
    ensures
        preview_defined(v, area, line_number, offsets),
{
}

/// Every line of a file with escape codes can be previewed in a pane that
/// has room for a line when no match ranges are wrapped in it.
pub proof fn lemma_ansi_lines_previewable_without_ranges(v: ViewerState, area: Rect, line_number: u64)
    requires
        v.preserve_ansi,
        v.plain.len() <= usize::MAX,
        area.height > 0,
        1 <= line_number <= v.plain.len(),
    ensures
        preview_defined(v, area, line_number, Seq::empty()),
{
}

/// The syntax of a file is looked up with its first line: what the file's
/// lines highlight to is the highlighting with the syntax that its name,
/// extension and first line choose.
pub proof fn lemma_syntax_from_first_line(
    file_name: Seq<char>,
    extension: Seq<char>,
    theme_name: Seq<char>,
    lines: Seq<String>,
)
    requires
        lines.len() > 0,
    ensures
        file_highlighted(file_name, extension, theme_name, lines) == syntax_highlighted(
            syntax_name_for(file_name, extension, lines[0]@),
            theme_name,
            lines.map_values(|l: String| l@),
        ),
{
    assert(texts(lines) =~= lines.map_values(|l: String| l@));
}

/// Highlighted lines keep, run by run, the color and the text they were
/// made from: the outline of run `j` of line `k` is its foreground and its
/// text.
pub proof fn lemma_highlighted_outline_keeps_runs(lines: Seq<Vec<HighlightedSpan>>, k: int, j: int)
    requires
        0 <= k < lines.len(),
        0 <= j < lines[k]@.len(),
    ensures
        highlighted_lines_outline(lines).len() == lines.len(),
        highlighted_lines_outline(lines)[k].len() == lines[k]@.len(),
        highlighted_lines_outline(lines)[k][j] == (lines[k]@[j].foreground, lines[k]@[j].text@),
{
}

/// The larger of `first` and 1.
pub open spec fn at_least_one(first: int) -> int {
    if first > 1 {
        first
    } else {
        1
    }
}

/// Toggling the vertical pane twice restores the position, unless the pane
/// stood horizontal (a vertical toggle replaces a horizontal pane, and the
/// second toggle hides it).
pub proof fn lemma_toggle_vertical_twice(p: ContextViewerPosition)
    requires
        p != ContextViewerPosition::Horizontal,
    ensures
        toggled_vertical(toggled_vertical(p)) == p,
{
}

/// Toggling the horizontal pane twice restores the position, unless the
/// pane stood vertical.
pub proof fn lemma_toggle_horizontal_twice(p: ContextViewerPosition)
    requires
        p != ContextViewerPosition::Vertical,
    ensures
        toggled_horizontal(toggled_horizontal(p)) == p,
{
}

/// Growing and shrinking keep the size between the smallest and the
/// largest share, and stop there.
pub proof fn lemma_size_stays_in_bounds(size: u16)
    requires
        ContextViewer::MIN_SIZE <= size <= ContextViewer::MAX_SIZE,
    ensures
        ContextViewer::MIN_SIZE <= increased_size(size) <= ContextViewer::MAX_SIZE,
        ContextViewer::MIN_SIZE <= decreased_size(size) <= ContextViewer::MAX_SIZE,
        increased_size(ContextViewer::MAX_SIZE) == ContextViewer::MAX_SIZE,
        decreased_size(ContextViewer::MIN_SIZE) == ContextViewer::MIN_SIZE,
{
}

/// Shrinking after growing restores the size, unless growing stopped at the
/// largest share.
pub proof fn lemma_grow_then_shrink(size: u16)
    requires
        ContextViewer::MIN_SIZE <= size <= ContextViewer::MAX_SIZE - ContextViewer::SIZE_CHANGE_DELTA,
    ensures
        decreased_size(increased_size(size)) == size,
{
}

/// Growing after shrinking restores the size, unless shrinking stopped at
/// the smallest share.
pub proof fn lemma_shrink_then_grow(size: u16)
    requires
        ContextViewer::MIN_SIZE + ContextViewer::SIZE_CHANGE_DELTA <= size <= ContextViewer::MAX_SIZE,
    ensures
        increased_size(decreased_size(size)) == size,
{
}

/// Loading a path twice loads it once: once a pane began to load a path,
/// whatever lines it was given for it, it does not begin to load that path
/// again.
pub proof fn lemma_update_once(
    v: ViewerState,
    path: Seq<u8>,
    highlighted: Seq<Vec<HighlightedSpan>>,
    plain: Seq<String>,
)
    requires
        begins_update(v, path),
    ensures
        !begins_update(ViewerState { highlighted, plain, ..update_begun(v, path) }, path),
{
}

/// A preview never has more lines than the window is high.
pub proof fn lemma_preview_fits_window(
    v: ViewerState,
    first: int,
    height: int,
    width: int,
    match_index: int,
    offsets: Seq<(usize, usize)>,
)
    requires
        0 <= height,
    ensures
        preview(v, first, height, width, match_index, offsets).len() <= height,
{
}

/// Only the match line of a preview is highlighted.
pub proof fn lemma_only_match_line_highlighted(
    v: ViewerState,
    first: int,
    height: int,
    width: int,
    match_index: int,
    offsets: Seq<(usize, usize)>,
    i: int,
    j: int,
)
    requires
        0 <= i < preview(v, first, height, width, match_index, offsets).len(),
        window_start(first) + i + 1 != match_index,
        0 <= j < preview(v, first, height, width, match_index, offsets)[i].len(),
    ensures
        !preview(v, first, height, width, match_index, offsets)[i][j].highlighted,
{
    let k = window_start(first) + i;
    if v.preserve_ansi {
        let rendered = rendered_line(v.plain[k]@, false, offsets);
        let base = ansi_base(rendered, first_parsed_line(ansi_text_lines(strip_osc8(rendered))));
        assert(finish_line(base, false, width)[j] == base[j].0);
    } else {
        let base = highlighted_base(v.highlighted[k]@);
        assert(finish_line(base, false, width)[j] == base[j].0);
    }
}

/// On a syntax highlighted file, every span of the match line is
/// highlighted, the padding too.
pub proof fn lemma_highlighted_match_line_fully_highlighted(
    v: ViewerState,
    first: int,
    height: int,
    width: int,
    match_index: int,
    offsets: Seq<(usize, usize)>,
    i: int,
    j: int,
)
    requires
        !v.preserve_ansi,
        0 <= i < preview(v, first, height, width, match_index, offsets).len(),
        window_start(first) + i + 1 == match_index,
        0 <= j < preview(v, first, height, width, match_index, offsets)[i].len(),
    ensures
        preview(v, first, height, width, match_index, offsets)[i][j].highlighted,
{
    let base = highlighted_base(v.highlighted[window_start(first) + i]@);
    let total = outline_width(base);
    if total < width {
        let padded = base.push(
            (SpanOutline { content: spaces((width - total) as nat), style: SpanStyle::Plain, highlighted: false }, false),
        );
        assert(!padded[j].1);
    } else {
        assert(!base[j].1);
    }
}

/// On a file with escape codes, a span to which its escape codes gave a
/// background of its own (the match background among them) keeps it: it
/// keeps the style its codes gave it and is never highlighted.
pub proof fn lemma_ansi_backgrounds_kept(
    v: ViewerState,
    first: int,
    height: int,
    width: int,
    match_index: int,
    offsets: Seq<(usize, usize)>,
    i: int,
    j: int,
)
    requires
        v.preserve_ansi,
        0 <= i < preview(v, first, height, width, match_index, offsets).len(),
        ({
            let k = window_start(first) + i;
            let rendered = rendered_line(v.plain[k]@, k + 1 == match_index, offsets);
            let parsed = ansi_text_lines(strip_osc8(rendered));
            &&& parsed.len() > 0
            &&& 0 <= j < parsed[0].len()
            &&& parsed[0][j].1.bg is Some
        }),
    ensures
        !preview(v, first, height, width, match_index, offsets)[i][j].highlighted,
        preview(v, first, height, width, match_index, offsets)[i][j].style == SpanStyle::Parsed(
            ansi_text_lines(
                strip_osc8(
                    rendered_line(
                        v.plain[window_start(first) + i]@,
                        window_start(first) + i + 1 == match_index,
                        offsets,
                    ),
                ),
            )[0][j].1,
        ),
{
    let k = window_start(first) + i;
    let is_match = k + 1 == match_index;
    let rendered = rendered_line(v.plain[k]@, is_match, offsets);
    let base = ansi_base(rendered, first_parsed_line(ansi_text_lines(strip_osc8(rendered))));
    assert(base[j].1);
    if is_match {
        let total = outline_width(base);
        if total < width {
            let padded = base.push(
                (SpanOutline { content: spaces((width - total) as nat), style: SpanStyle::Plain, highlighted: false }, false),
            );
            assert(padded[j] == base[j]);
        }
    } else {
        assert(finish_line(base, false, width)[j] == base[j].0);
    }
}

/// The name of the syntax that the bundled syntax definitions give a file
/// named `file_name`, with extension `extension` and first line `first_line`:
/// the syntax for its file name, else the one for its extension, else the
/// one its first line asks for, else plain text.
pub uninterp spec fn syntax_name_for(
    file_name: Seq<char>,
    extension: Seq<char>,
    first_line: Seq<char>,
) -> Seq<char>;

/// The lines `lines` highlighted by `syntect` with the bundled syntax named
/// `syntax_name` and the bundled theme `theme_name`, each line given as its
/// runs of foreground color and text; `None` when there is no such syntax or
/// theme, or a line cannot be highlighted.
pub uninterp spec fn syntax_highlighted(
    syntax_name: Seq<char>,
    theme_name: Seq<char>,
    lines: Seq<Seq<char>>,
) -> Option<Seq<Seq<(Rgb, Seq<char>)>>>;

/// A highlighted line as plain values.
pub open spec fn highlighted_line_outline(line: Vec<HighlightedSpan>) -> Seq<(Rgb, Seq<char>)> {
    line@.map_values(|h: HighlightedSpan| (h.foreground, h.text@))
}

/// Highlighted lines as plain values.
pub open spec fn highlighted_lines_outline(lines: Seq<Vec<HighlightedSpan>>) -> Seq<Seq<(Rgb, Seq<char>)>> {
    lines.map_values(|l: Vec<HighlightedSpan>| highlighted_line_outline(l))
}

/// The text of each of `lines`.
pub open spec fn texts(lines: Seq<String>) -> Seq<Seq<char>> {
    lines.map_values(|l: String| l@)
}

/// The first of `lines`, empty when there is none.
pub open spec fn first_line(lines: Seq<String>) -> Seq<char> {
    if lines.len() > 0 {
        lines[0]@
    } else {
        Seq::empty()
    }
}

/// The lines `lines` of the file `file_name` (extension `extension`)
/// highlighted with the bundled theme `theme_name`, the syntax chosen as
/// `syntect` chooses it for a file.
pub open spec fn file_highlighted(
    file_name: Seq<char>,
    extension: Seq<char>,
    theme_name: Seq<char>,
    lines: Seq<String>,
) -> Option<Seq<Seq<(Rgb, Seq<char>)>>> {
    syntax_highlighted(syntax_name_for(file_name, extension, first_line(lines)), theme_name, texts(lines))
}

/// The name of the syntax that `SyntaxSet::find_syntax_for_file` chooses,
/// made of the calls it makes (`find_syntax_by_extension` on the file name,
/// then on the extension, then `find_syntax_by_first_line`), with
/// `find_syntax_plain_text` as `HighlightFile::new` falls back to it. A pane
/// always holds the bundled syntax definitions (it gets them in `new` and
/// never changes them), so the name depends on the arguments alone.
#[verifier::external_body]
fn syntax_name(ss: &SyntaxSet, file_name: &str, extension: &str, first_line: &str) -> (r: String)
    ensures
        r@ == syntax_name_for(file_name@, extension@, first_line@),
{
    let by_name = ss.find_syntax_by_extension(file_name).or(ss.find_syntax_by_extension(extension));
    by_name.or(ss.find_syntax_by_first_line(first_line)).unwrap_or(ss.find_syntax_plain_text()).name.clone()
}

/// A run of highlighted text as `syntect` gives it: the foreground color of
/// its style and its text, as plain values.
pub open spec fn run_outline(run: (ThemeColor, String)) -> (Rgb, Seq<char>) {
    (Rgb { r: run.0.r, g: run.0.g, b: run.0.b }, run.1@)
}

/// Lines of runs as `syntect` gives them, as plain values.
pub open spec fn runs_outline(lines: Seq<Vec<(ThemeColor, String)>>) -> Seq<Seq<(Rgb, Seq<char>)>> {
    lines.map_values(|line: Vec<(ThemeColor, String)>| line@.map_values(|run: (ThemeColor, String)| run_outline(run)))
}

/// Lines of runs, if any, as plain values.
pub open spec fn runs_outline_opt(r: Option<Vec<Vec<(ThemeColor, String)>>>) -> Option<Seq<Seq<(Rgb, Seq<char>)>>> {
    match r {
        Some(lines) => Some(runs_outline(lines@)),
        None => None,
    }
}

/// Highlights `lines` with `syntect`'s `HighlightLines::highlight_line`,
/// with the syntax that `SyntaxSet::find_syntax_by_name` finds for
/// `syntax_name` and the theme named `theme_name`; each run is given as the
/// foreground color of its style and its text. A pane always holds the
/// bundled syntax definitions and themes, so the result depends on the
/// arguments alone. Where two syntaxes share a name, the lookup finds the
/// last of them, as `find_syntax_plain_text` does for plain text.
#[verifier::external_body]
fn highlight_lines(ss: &SyntaxSet, ts: &ThemeSet, syntax_name: &str, theme_name: &str, lines: &Vec<String>)
    -> (r: Option<Vec<Vec<(ThemeColor, String)>>>)
    ensures
        runs_outline_opt(r) == syntax_highlighted(syntax_name@, theme_name@, texts(lines@)),
{
    let mut h = HighlightLines::new(ss.find_syntax_by_name(syntax_name)?, ts.themes.get(theme_name)?);
    lines.iter().map(|l| h.highlight_line(l, ss).ok()
        .map(|runs| runs.iter().map(|(style, text)| (style.foreground, text.to_string())).collect())).collect()
}

/// The runs of `line` as highlighted spans.
fn highlighted_line(line: &Vec<(ThemeColor, String)>) -> (r: Vec<HighlightedSpan>)
    ensures
        highlighted_line_outline(r) == line@.map_values(|run: (ThemeColor, String)| run_outline(run)),
{
    let mut r: Vec<HighlightedSpan> = Vec::new();
    let mut j: usize = 0;
    while j < line.len()
        invariant
            j <= line@.len(),
            r@.len() == j,
            forall|k: int| 0 <= k < j ==> (#[trigger] r@[k]).foreground == run_outline(line@[k]).0
                && r@[k].text@ == run_outline(line@[k]).1,
        decreases line@.len() - j,
    {
        let color = line[j].0;
        let text = line[j].1.clone();
        r.push(HighlightedSpan { foreground: Rgb { r: color.r, g: color.g, b: color.b }, text });
        j = j + 1;
    }
    assert(highlighted_line_outline(r) =~= line@.map_values(|run: (ThemeColor, String)| run_outline(run)));
    r
}

/// Lines of runs as lines of highlighted spans.
fn highlighted_lines(lines: &Vec<Vec<(ThemeColor, String)>>) -> (r: Vec<Vec<HighlightedSpan>>)
    ensures
        highlighted_lines_outline(r@) == runs_outline(lines@),
{
    let mut r: Vec<Vec<HighlightedSpan>> = Vec::new();
    let mut i: usize = 0;
    while i < lines.len()
        invariant
            i <= lines@.len(),
            r@.len() == i,
            forall|k: int| 0 <= k < i ==> #[trigger] highlighted_lines_outline(r@)[k] == runs_outline(lines@)[k],
        decreases lines@.len() - i,
    {
        let line = highlighted_line(&lines[i]);
        let ghost prev = r@;
        r.push(line);
        assert forall|k: int| 0 <= k < i + 1 implies #[trigger] highlighted_lines_outline(r@)[k]
            == runs_outline(lines@)[k] by {
            if k < i {
                assert(r@[k] == prev[k]);
                assert(highlighted_lines_outline(prev)[k] == runs_outline(lines@)[k]);
            }
        }
        i = i + 1;
    }
    assert(highlighted_lines_outline(r@) =~= runs_outline(lines@));
    r
}

/// The syntax definitions bundled with `syntect`, for lines that keep their
/// newline (`SyntaxSet::load_defaults_newlines`). Nothing is stated of them.
#[verifier::external_body]
fn default_syntax_set() -> SyntaxSet {
    SyntaxSet::load_defaults_newlines()
}

/// The color themes bundled with `syntect` (`ThemeSet::load_defaults`).
/// Nothing is stated of them.
#[verifier::external_body]
fn default_theme_set() -> ThemeSet {
    ThemeSet::load_defaults()
}

impl ContextViewer {
    /// The smallest share of the screen the pane takes, in percent.
    pub const MIN_SIZE: u16 = 20;

    /// The largest share of the screen the pane takes, in percent.
    pub const MAX_SIZE: u16 = 80;

    /// The step by which the pane grows or shrinks, in percent.
    pub const SIZE_CHANGE_DELTA: u16 = 5;

    /// ANSI SGR sequence that turns on the background behind a match
    /// (color 52 of the 256-color palette, a dark red).
    pub const MATCH_BG_ANSI_START: &'static str = "\x1b[48;5;52m";

    /// ANSI SGR sequence that restores the default background.
    pub const MATCH_BG_ANSI_END: &'static str = "\x1b[49m";

    #[verifier::type_invariant]
    spec fn size_in_bounds(self) -> bool {
        ContextViewer::MIN_SIZE <= self.size <= ContextViewer::MAX_SIZE
    }

    /// A pane at `position`, half of the screen wide or high, that shows no
    /// file yet.
    pub fn new(position: ContextViewerPosition, preserve_ansi: bool) -> (r: Self)
        ensures
            r@.position == position,
            r@.preserve_ansi == preserve_ansi,
            r@.size == 50,
            r@.highlighted.len() == 0,
            r@.plain.len() == 0,
            r@.shown_path == Seq::<u8>::empty(),
    {
        ContextViewer {
            highlighted_file_path: FilePath::empty(),
            file_highlighted: Vec::new(),
            file_plain: Vec::new(),
            syntax_set: default_syntax_set(),
            theme_set: default_theme_set(),
            position,
            preserve_ansi,
            size: 50,
        }
    }

    pub fn position(&self) -> (r: ContextViewerPosition)
        ensures
            r == self@.position,
    {
        self.position
    }

    pub fn preserve_ansi(&self) -> (r: bool)
        ensures
            r == self@.preserve_ansi,
    {
        self.preserve_ansi
    }

    /// The share of the screen the pane takes, in percent; it always lies
    /// between the smallest and the largest share.
    pub fn size(&self) -> (r: u16)
        ensures
            r == self@.size,
            ContextViewer::MIN_SIZE <= r <= ContextViewer::MAX_SIZE,
    {
        proof {
            use_type_invariant(self);
        }
        self.size
    }

    pub fn toggle_vertical(&mut self)
        ensures
            final(self)@ == (ViewerState { position: toggled_vertical(old(self)@.position), ..old(self)@ }),
    {
        proof {
            use_type_invariant(&*self);
        }
        match self.position {
            ContextViewerPosition::Hidden => self.position = ContextViewerPosition::Vertical,
            ContextViewerPosition::Vertical => self.position = ContextViewerPosition::Hidden,
            ContextViewerPosition::Horizontal => self.position = ContextViewerPosition::Vertical,
        }
    }

    pub fn toggle_horizontal(&mut self)
        ensures
            final(self)@ == (ViewerState { position: toggled_horizontal(old(self)@.position), ..old(self)@ }),
    {
        proof {
            use_type_invariant(&*self);
        }
        match self.position {
            ContextViewerPosition::Hidden => self.position = ContextViewerPosition::Horizontal,
            ContextViewerPosition::Vertical => self.position = ContextViewerPosition::Horizontal,
            ContextViewerPosition::Horizontal => self.position = ContextViewerPosition::Hidden,
        }
    }

    pub fn increase_size(&mut self)
        ensures
            final(self)@ == (ViewerState { size: increased_size(old(self)@.size), ..old(self)@ }),
            ContextViewer::MIN_SIZE <= final(self)@.size <= ContextViewer::MAX_SIZE,
    {
        proof {
            use_type_invariant(&*self);
        }
        let grown = self.size + ContextViewer::SIZE_CHANGE_DELTA;
        self.size = if grown < ContextViewer::MAX_SIZE { grown } else { ContextViewer::MAX_SIZE };
    }

    pub fn decrease_size(&mut self)
        ensures
            final(self)@ == (ViewerState { size: decreased_size(old(self)@.size), ..old(self)@ }),
            ContextViewer::MIN_SIZE <= final(self)@.size <= ContextViewer::MAX_SIZE,
    {
        proof {
            use_type_invariant(&*self);
        }
        let shrunk = self.size - ContextViewer::SIZE_CHANGE_DELTA;
        self.size = if shrunk > ContextViewer::MIN_SIZE { shrunk } else { ContextViewer::MIN_SIZE };
    }

    /// Splits the screen area `view_area` between the result list and the
    /// pane: all of it goes to the list when the pane is hidden; otherwise
    /// the pane gets `size` percent of it, to the right of the list when
    /// vertical, below it when horizontal.
    pub fn split_view(&self, view_area: Rect) -> (r: (Rect, Option<Rect>))
        ensures
            match self@.position {
                ContextViewerPosition::Hidden => r == (view_area, Option::<Rect>::None),
                ContextViewerPosition::Vertical => r.1 is Some && (r.0.as_tuple(), r.1->0.as_tuple())
                    == percentage_split(true, view_area.as_tuple(), (100 - self@.size) as u16, self@.size),
                ContextViewerPosition::Horizontal => r.1 is Some && (r.0.as_tuple(), r.1->0.as_tuple())
                    == percentage_split(false, view_area.as_tuple(), (100 - self@.size) as u16, self@.size),
            },
    {
        proof {
            use_type_invariant(self);
        }
        match self.position {
            ContextViewerPosition::Hidden => (view_area, None),
            ContextViewerPosition::Vertical => {
                let (left, right) = split_by_percentages(true, view_area, 100 - self.size, self.size);
                (left, Some(right))
            },
            ContextViewerPosition::Horizontal => {
                let (top, bottom) = split_by_percentages(false, view_area, 100 - self.size, self.size);
                (top, Some(bottom))
            },
        }
    }

    /// Decides whether the pane has to load `file_path`, and prepares it when
    /// it does: a hidden pane loads nothing, nor does a pane that shows that
    /// file already. When the pane loads the file it remembers its path and
    /// drops the lines it showed; the caller then reads the file and hands
    /// its lines over.
    pub fn begin_update(&mut self, file_path: FilePath) -> (started: bool)
        ensures
            started == begins_update(old(self)@, file_path@),
            started == (old(self)@.position != ContextViewerPosition::Hidden && !path_eq(
                old(self)@.shown_path,
                file_path@,
            )),
            !started ==> final(self)@ == old(self)@,
            started ==> final(self)@ == update_begun(old(self)@, file_path@),
    {
        proof {
            use_type_invariant(&*self);
        }
        if self.position == ContextViewerPosition::Hidden || self.highlighted_file_path.same_as(&file_path) {
            return false;
        }
        self.highlighted_file_path = file_path;
        self.file_highlighted = Vec::new();
        self.file_plain = Vec::new();
        true
    }

    /// Shows `lines`, the lines of the file with their ANSI escape codes.
    pub fn set_plain_lines(&mut self, lines: Vec<String>)
        ensures
            final(self)@ == (ViewerState { plain: lines@, ..old(self)@ }),
    {
        proof {
            use_type_invariant(&*self);
        }
        self.file_plain = lines;
    }

    /// Shows `lines`, the lines of the file `file_name` (with extension
    /// `extension`), syntax highlighted with the theme `theme_name`. Fails,
    /// changing nothing, when that theme is not bundled or a line cannot be
    /// highlighted.
    pub fn load_highlighted(
        &mut self,
        file_name: &str,
        extension: &str,
        theme_name: &str,
        lines: &Vec<String>,
    ) -> (ok: bool)
        ensures
            ok == file_highlighted(file_name@, extension@, theme_name@, lines@) is Some,
            ok ==> file_highlighted(file_name@, extension@, theme_name@, lines@) == Some(
                highlighted_lines_outline(final(self)@.highlighted),
            ),
            ok ==> final(self)@ == (ViewerState { highlighted: final(self)@.highlighted, ..old(self)@ }),
            !ok ==> final(self)@ == old(self)@,
            file_highlighted(file_name@, extension@, theme_name@, lines@) == syntax_highlighted(
                syntax_name_for(
                    file_name@,
                    extension@,
                    if lines@.len() > 0 {
                        lines@[0]@
                    } else {
                        Seq::empty()
                    },
                ),
                theme_name@,
                lines@.map_values(|l: String| l@),
            ),
            ok ==> final(self)@.highlighted.len() == file_highlighted(
                file_name@,
                extension@,
                theme_name@,
                lines@,
            )->0.len(),
            ok ==> forall|k: int|
                0 <= k < final(self)@.highlighted.len() ==> (#[trigger] final(self)@.highlighted[k])@.len()
                    == file_highlighted(file_name@, extension@, theme_name@, lines@)->0[k].len(),
            ok ==> forall|k: int, j: int|
                0 <= k < final(self)@.highlighted.len() && 0 <= j < final(self)@.highlighted[k]@.len() ==> {
                    let run = file_highlighted(file_name@, extension@, theme_name@, lines@)->0[k][j];
                    &&& (#[trigger] final(self)@.highlighted[k]@[j]).foreground == run.0
                    &&& final(self)@.highlighted[k]@[j].text@ == run.1
                },
    {
        proof {
            use_type_invariant(&*self);
            reveal_strlit("");
        }
        let first: &str = if lines.len() > 0 {
            lines[0].as_str()
        } else {
            ""
        };
        assert(first@ == first_line(lines@));
        let syntax = syntax_name(&self.syntax_set, file_name, extension, first);
        match highlight_lines(&self.syntax_set, &self.theme_set, syntax.as_str(), theme_name, lines) {
            Some(runs) => {
                self.file_highlighted = highlighted_lines(&runs);
                true
            },
            None => false,
        }
    }

    /// Shows `lines`, the syntax highlighted lines of the file.
    pub fn set_highlighted_lines(&mut self, lines: Vec<Vec<HighlightedSpan>>)
        ensures
            final(self)@ == (ViewerState { highlighted: lines@, ..old(self)@ }),
    {
        proof {
            use_type_invariant(&*self);
        }
        self.file_highlighted = lines;
    }

    /// The preview lines of a file with ANSI escape codes, for a window of
    /// `height` lines starting at line number `first` (0 counts as 1), with
    /// line number `match_index` as the match line.
    pub fn get_ansi_styled_spans(
        &self,
        first_line_index: usize,
        height: usize,
        width: usize,
        match_index: usize,
        selected_match_offsets: &[(usize, usize)],
    ) -> (r: Vec<Vec<PreviewSpan>>)
        requires
            window_len(self@.plain.len() as int, first_line_index as int, height as int) > 0
                ==> at_least_one(first_line_index as int) <= match_index,
            forall|i: int|
                0 <= i < window_len(self@.plain.len() as int, first_line_index as int, height as int)
                    && window_start(first_line_index as int) + i + 1 == match_index
                    ==> wrapped_ranges_on_char_boundaries(
                    encode_utf8(#[trigger] self@.plain[window_start(first_line_index as int) + i]@),
                    selected_match_offsets@,
                    0,
                ),
        ensures
            lines_outline(r@) == ansi_preview(
                self@.plain,
                first_line_index as int,
                height as int,
                width as int,
                match_index as int,
                selected_match_offsets@,
            ),
    {
        let ghost expected = ansi_preview(
            self@.plain,
            first_line_index as int,
            height as int,
            width as int,
            match_index as int,
            selected_match_offsets@,
        );
        let total = self.file_plain.len();
        let start = if first_line_index > 0 { first_line_index - 1 } else { 0 };
        let available = if start < total { total - start } else { 0 };
        let count = if height < available { height } else { available };
        let mut lines: Vec<Vec<PreviewSpan>> = Vec::new();
        let mut i: usize = 0;
        while i < count
            invariant
                count == window_len(self@.plain.len() as int, first_line_index as int, height as int),
                start == window_start(first_line_index as int),
                total == self@.plain.len(),
                count == 0 || start + count <= total,
                i <= count,
                lines@.len() == i,
                expected == ansi_preview(
                    self@.plain,
                    first_line_index as int,
                    height as int,
                    width as int,
                    match_index as int,
                    selected_match_offsets@,
                ),
                forall|j: int| 0 <= j < i ==> #[trigger] lines_outline(lines@)[j] == expected[j],
                forall|i: int|
                    0 <= i < window_len(self@.plain.len() as int, first_line_index as int, height as int)
                        && window_start(first_line_index as int) + i + 1 == match_index
                        ==> wrapped_ranges_on_char_boundaries(
                        encode_utf8(#[trigger] self@.plain[window_start(first_line_index as int) + i]@),
                        selected_match_offsets@,
                        0,
                    ),
            decreases count - i,
        {
            let k = start + i;
            let line = &self.file_plain[k];
            let is_match = k + 1 == match_index;
            let rendered = if is_match {
                Self::inject_match_background_ansi(line.as_str(), selected_match_offsets)
            } else {
                line.clone()
            };
            let stripped = strip_osc8_keep_text(rendered.as_str());
            let parsed = parse_ansi_text(stripped.as_str());
            let spans = compose_ansi_line(rendered.as_str(), parsed, is_match, width);
            let ghost prev = lines@;
            lines.push(spans);
            assert forall|j: int| 0 <= j < i + 1 implies #[trigger] lines_outline(lines@)[j] == expected[j] by {
                if j < i {
                    assert(lines@[j] == prev[j]);
                    assert(lines_outline(prev)[j] == expected[j]);
                }
            }
            i = i + 1;
        }
        assert(lines_outline(lines@) =~= expected);
        lines
    }

    /// The preview lines of the shown file for a window of `height` lines
    /// starting at line number `first` (0 counts as 1), with line number
    /// `match_index` as the match line, padded to `width` columns and
    /// highlighted.
    pub fn get_styled_spans(
        &self,
        first_line_index: usize,
        height: usize,
        width: usize,
        match_index: usize,
        selected_match_offsets: &[(usize, usize)],
    ) -> (r: Vec<Vec<PreviewSpan>>)
        requires
            self@.preserve_ansi ==> window_len(self@.plain.len() as int, first_line_index as int, height as int) > 0
                ==> at_least_one(first_line_index as int) <= match_index,
            self@.preserve_ansi ==> forall|i: int|
                0 <= i < window_len(self@.plain.len() as int, first_line_index as int, height as int)
                    && window_start(first_line_index as int) + i + 1 == match_index
                    ==> wrapped_ranges_on_char_boundaries(
                    encode_utf8(#[trigger] self@.plain[window_start(first_line_index as int) + i]@),
                    selected_match_offsets@,
                    0,
                ),
            !self@.preserve_ansi ==> at_least_one(first_line_index as int) <= match_index,
            !self@.preserve_ansi ==> match_index - at_least_one(first_line_index as int) < window_len(
                self@.highlighted.len() as int,
                first_line_index as int,
                height as int,
            ),
        ensures
            lines_outline(r@) == preview(
                self@,
                first_line_index as int,
                height as int,
                width as int,
                match_index as int,
                selected_match_offsets@,
            ),
    {
        if self.preserve_ansi {
            return self.get_ansi_styled_spans(first_line_index, height, width, match_index, selected_match_offsets);
        }
        let ghost expected = highlighted_preview(
            self@.highlighted,
            first_line_index as int,
            height as int,
            width as int,
            match_index as int,
        );
        let total = self.file_highlighted.len();
        let start = if first_line_index > 0 { first_line_index - 1 } else { 0 };
        let available = if start < total { total - start } else { 0 };
        let count = if height < available { height } else { available };
        let mut lines: Vec<Vec<PreviewSpan>> = Vec::new();
        let mut i: usize = 0;
        while i < count
            invariant
                count == window_len(self@.highlighted.len() as int, first_line_index as int, height as int),
                start == window_start(first_line_index as int),
                total == self@.highlighted.len(),
                count == 0 || start + count <= total,
                i <= count,
                lines@.len() == i,
                expected == highlighted_preview(
                    self@.highlighted,
                    first_line_index as int,
                    height as int,
                    width as int,
                    match_index as int,
                ),
                forall|j: int| 0 <= j < i ==> #[trigger] lines_outline(lines@)[j] == expected[j],
            decreases count - i,
        {
            let k = start + i;
            let is_match = k + 1 == match_index;
            let spans = compose_highlighted_line(&self.file_highlighted[k], is_match, width);
            let ghost prev = lines@;
            lines.push(spans);
            assert forall|j: int| 0 <= j < i + 1 implies #[trigger] lines_outline(lines@)[j] == expected[j] by {
                if j < i {
                    assert(lines@[j] == prev[j]);
                    assert(lines_outline(prev)[j] == expected[j]);
                }
            }
            i = i + 1;
        }
        assert(lines_outline(lines@) =~= expected);
        lines
    }

    /// Whether a preview around line `line_number` with the selected match
    /// `selected_match` can be drawn in `area`.
    pub fn can_preview(
        &self,
        area: Rect,
        line_number: u64,
        selected_match: &Option<(u64, Vec<(usize, usize)>)>,
    ) -> (r: bool)
        ensures
            r == preview_defined(self@, area, line_number, offsets_for(line_number, *selected_match)),
    {
        if line_number > usize::MAX as u64 {
            return false;
        }
        let line = line_number as usize;
        if !self.preserve_ansi {
            return 1 <= line && area.height > 0 && line <= self.file_highlighted.len();
        }
        if line < 1 && area.height > 0 && self.file_plain.len() > 0 {
            return false;
        }
        if area.height > 0 && 1 <= line && line <= self.file_plain.len() {
            let plain = self.file_plain[line - 1].as_str();
            match selected_match {
                Some((l, offsets)) => if *l == line_number {
                    wrapped_ranges_fit(plain, offsets.as_slice())
                } else {
                    wrapped_ranges_fit(plain, &[])
                },
                None => wrapped_ranges_fit(plain, &[]),
            }
        } else {
            true
        }
    }

    /// The preview lines around line `line_number` of the shown file, for a
    /// pane of the size of `area`: the window is centered on that line, and
    /// the match ranges of the selected match are wrapped when it lies on
    /// that line.
    pub fn preview_lines(
        &self,
        area: Rect,
        line_number: u64,
        selected_match: Option<(u64, Vec<(usize, usize)>)>,
    ) -> (r: Vec<Vec<PreviewSpan>>)
        requires
            preview_defined(self@, area, line_number, offsets_for(line_number, selected_match)),
        ensures
            lines_outline(r@) == preview(
                self@,
                first_line_for(line_number, area.height),
                area.height as int,
                area.width as int,
                line_number as int,
                offsets_for(line_number, selected_match),
            ),
    {
        let ghost selected = selected_match;
        let height = area.height as u64;
        let half = height / 2;
        let first = if line_number >= half { line_number - half } else { 0 };
        let offsets: Vec<(usize, usize)> = match selected_match {
            Some((l, o)) => if l == line_number {
                o
            } else {
                Vec::new()
            },
            None => Vec::new(),
        };
        assert(offsets@ == offsets_for(line_number, selected));
        self.get_styled_spans(
            first as usize,
            area.height as usize,
            area.width as usize,
            line_number as usize,
            offsets.as_slice(),
        )
    }

    /// `line` with the match ranges `offsets` (byte offsets, taken in order)
    /// wrapped in ANSI sequences that set the match background and restore the
    /// default one. A range is passed over when it reaches beyond the line, is
    /// empty, or starts before the end of the range wrapped last.
    pub fn inject_match_background_ansi(line: &str, offsets: &[(usize, usize)]) -> (r: String)
        requires
            wrapped_ranges_on_char_boundaries(line.spec_bytes(), offsets@, 0),
        ensures
            r@ == with_match_background(line.spec_bytes(), offsets@),
    {
        broadcast use encode_utf8_valid_utf8, encode_utf8_decode_utf8, is_char_boundary_start_end_of_seq;

        let ghost bytes = line.spec_bytes();
        assert(valid_utf8(bytes));
        assert(bytes.subrange(0, bytes.len() as int) =~= bytes);
        if offsets.len() == 0 {
            return line.to_owned();
        }
        let mut rendered = String::new();
        let mut cursor: usize = 0;
        let len = line.as_bytes().len();
        let mut k: usize = 0;
        assert(offsets@.skip(0) =~= offsets@);
        assert(is_char_boundary(bytes, 0));
        while k < offsets.len()
            invariant
                bytes == line.spec_bytes(),
                len == bytes.len(),
                0 <= k <= offsets@.len(),
                cursor <= len,
                is_char_boundary(bytes, cursor as int),
                wrapped_ranges_on_char_boundaries(bytes, offsets@.skip(k as int), cursor as int),
                rendered@ + with_match_background_from(bytes, offsets@.skip(k as int), cursor as int)
                    == with_match_background(bytes, offsets@),
            decreases offsets@.len() - k,
        {
            let (start, end) = offsets[k];
            let ghost rest = offsets@.skip(k as int);
            assert(rest[0] == (start, end));
            assert(rest.drop_first() =~= offsets@.skip(k + 1));
            if start > len || end > len || start >= end || start < cursor {
                k = k + 1;
            } else {
                let before = slice_between(line, cursor, start);
                let matched = slice_between(line, start, end);
                rendered.append(before);
                rendered.append(ContextViewer::MATCH_BG_ANSI_START);
                rendered.append(matched);
                rendered.append(ContextViewer::MATCH_BG_ANSI_END);
                cursor = end;
                k = k + 1;
            }
        }
        let rest = slice_between(line, cursor, len);
        rendered.append(rest);
        rendered
    }
}

} // verus!
