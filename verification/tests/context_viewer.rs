use igrep_preview::context_viewer::{ContextViewer, ContextViewerPosition};
use igrep_preview::layout::Rect;
use igrep_preview::preview::{HighlightedSpan, PreviewSpan, Rgb, SpanStyle};
use igrep_preview::style::{TermColor, TextStyle};
use igrep_preview::file_path::FilePath;
use std::path::Path;

fn toggled_vertically(initial: ContextViewerPosition) -> ContextViewerPosition {
    let mut context_viewer = ContextViewer::new(initial, false);
    context_viewer.toggle_vertical();
    context_viewer.position()
}

fn toggled_horizontally(initial: ContextViewerPosition) -> ContextViewerPosition {
    let mut context_viewer = ContextViewer::new(initial, false);
    context_viewer.toggle_horizontal();
    context_viewer.position()
}

#[test]
fn toggle_vertical() {
    assert_eq!(toggled_vertically(ContextViewerPosition::Hidden), ContextViewerPosition::Vertical);
    assert_eq!(toggled_vertically(ContextViewerPosition::Vertical), ContextViewerPosition::Hidden);
    assert_eq!(toggled_vertically(ContextViewerPosition::Horizontal), ContextViewerPosition::Vertical);
}

#[test]
fn toggle_horizontal() {
    assert_eq!(toggled_horizontally(ContextViewerPosition::Hidden), ContextViewerPosition::Horizontal);
    assert_eq!(toggled_horizontally(ContextViewerPosition::Vertical), ContextViewerPosition::Horizontal);
    assert_eq!(toggled_horizontally(ContextViewerPosition::Horizontal), ContextViewerPosition::Hidden);
}

#[test]
fn toggling_twice_restores_position() {
    let mut context_viewer = ContextViewer::new(ContextViewerPosition::Hidden, false);
    context_viewer.toggle_vertical();
    context_viewer.toggle_vertical();
    assert_eq!(context_viewer.position(), ContextViewerPosition::Hidden);
    context_viewer.toggle_horizontal();
    context_viewer.toggle_horizontal();
    assert_eq!(context_viewer.position(), ContextViewerPosition::Hidden);
}

#[test]
fn default_position_is_hidden() {
    assert_eq!(ContextViewerPosition::default(), ContextViewerPosition::Hidden);
}

#[test]
fn increase_size() {
    let mut context_viewer = ContextViewer::new(ContextViewerPosition::Hidden, false);
    let default_size = context_viewer.size();
    context_viewer.increase_size();
    assert_eq!(context_viewer.size(), default_size + ContextViewer::SIZE_CHANGE_DELTA);

    while context_viewer.size() < ContextViewer::MAX_SIZE {
        context_viewer.increase_size();
    }
    assert_eq!(context_viewer.size(), ContextViewer::MAX_SIZE);
    context_viewer.increase_size();
    assert_eq!(context_viewer.size(), ContextViewer::MAX_SIZE);
}

#[test]
fn decrease_size() {
    let mut context_viewer = ContextViewer::new(ContextViewerPosition::Hidden, false);
    let default_size = context_viewer.size();
    context_viewer.decrease_size();
    assert_eq!(context_viewer.size(), default_size - ContextViewer::SIZE_CHANGE_DELTA);

    while context_viewer.size() > ContextViewer::MIN_SIZE {
        context_viewer.decrease_size();
    }
    assert_eq!(context_viewer.size(), ContextViewer::MIN_SIZE);
    context_viewer.decrease_size();
    assert_eq!(context_viewer.size(), ContextViewer::MIN_SIZE);
}

#[test]
fn grow_then_shrink_restores_size() {
    let mut context_viewer = ContextViewer::new(ContextViewerPosition::Vertical, false);
    context_viewer.increase_size();
    context_viewer.decrease_size();
    assert_eq!(context_viewer.size(), 50);
}

#[test]
fn injects_background_ansi_around_matches() {
    let rendered = ContextViewer::inject_match_background_ansi("abc123xyz", &[(3, 6)]);

    assert_eq!(
        rendered,
        format!("abc{}123{}xyz", ContextViewer::MATCH_BG_ANSI_START, ContextViewer::MATCH_BG_ANSI_END)
    );
}

#[test]
fn injects_nothing_without_offsets() {
    assert_eq!(ContextViewer::inject_match_background_ansi("abc", &[]), "abc");
}

#[test]
fn injects_several_ranges_and_skips_bad_ones() {
    let rendered = ContextViewer::inject_match_background_ansi(
        "one two three",
        &[(0, 3), (2, 5), (4, 4), (8, 13), (9, 20)],
    );
    assert_eq!(
        rendered,
        format!(
            "{s}one{e} two {s}three{e}",
            s = ContextViewer::MATCH_BG_ANSI_START,
            e = ContextViewer::MATCH_BG_ANSI_END
        )
    );
}

#[test]
fn injects_around_multibyte_text() {
    let line = "été";
    let rendered = ContextViewer::inject_match_background_ansi(line, &[(2, 3)]);
    assert_eq!(rendered, format!("é{}t{}é", ContextViewer::MATCH_BG_ANSI_START, ContextViewer::MATCH_BG_ANSI_END));
}

#[test]
fn match_background_codes() {
    assert_eq!(ContextViewer::MATCH_BG_ANSI_START, "\x1b[48;5;52m");
    assert_eq!(ContextViewer::MATCH_BG_ANSI_END, "\x1b[49m");
}

#[test]
fn hidden_pane_takes_no_space() {
    let context_viewer = ContextViewer::new(ContextViewerPosition::Hidden, false);
    let area = Rect { x: 0, y: 0, width: 100, height: 40 };
    assert_eq!(context_viewer.split_view(area), (area, None));
}

#[test]
fn vertical_pane_takes_the_right_half() {
    let context_viewer = ContextViewer::new(ContextViewerPosition::Vertical, false);
    let area = Rect { x: 0, y: 0, width: 100, height: 40 };
    let (left, right) = context_viewer.split_view(area);
    assert_eq!(left, Rect { x: 0, y: 0, width: 50, height: 40 });
    assert_eq!(right, Some(Rect { x: 50, y: 0, width: 50, height: 40 }));
}

#[test]
fn horizontal_pane_takes_the_lower_part() {
    let mut context_viewer = ContextViewer::new(ContextViewerPosition::Horizontal, false);
    context_viewer.decrease_size();
    context_viewer.decrease_size();
    let area = Rect { x: 0, y: 0, width: 80, height: 20 };
    let (top, bottom) = context_viewer.split_view(area);
    assert_eq!(top, Rect { x: 0, y: 0, width: 80, height: 12 });
    assert_eq!(bottom, Some(Rect { x: 0, y: 12, width: 80, height: 8 }));
}

#[test]
fn hidden_pane_loads_nothing() {
    let mut context_viewer = ContextViewer::new(ContextViewerPosition::Hidden, false);
    assert!(!context_viewer.begin_update(FilePath::from_path(Path::new("src/main.rs"))));
}

#[test]
fn pane_loads_each_file_once() {
    let mut context_viewer = ContextViewer::new(ContextViewerPosition::Vertical, true);
    assert!(context_viewer.begin_update(FilePath::from_path(Path::new("src/main.rs"))));
    context_viewer.set_plain_lines(vec!["fn main() {}".to_string()]);
    assert!(!context_viewer.begin_update(FilePath::from_path(Path::new("src/main.rs"))));
    assert!(context_viewer.begin_update(FilePath::from_path(Path::new("src/lib.rs"))));
}

fn contents(line: &[PreviewSpan]) -> Vec<String> {
    line.iter().map(|span| span.content.clone()).collect()
}

fn highlighted_line(text: &str) -> Vec<HighlightedSpan> {
    vec![HighlightedSpan { foreground: Rgb { r: 1, g: 2, b: 3 }, text: text.to_string() }]
}

#[test]
fn highlighted_preview_centers_and_highlights_the_match() {
    let mut context_viewer = ContextViewer::new(ContextViewerPosition::Vertical, false);
    context_viewer.set_highlighted_lines((1..=10).map(|i| highlighted_line(&format!("line\t{i}"))).collect());
    let area = Rect { x: 0, y: 0, width: 12, height: 4 };
    assert!(context_viewer.can_preview(area, 6, &None));
    let lines = context_viewer.preview_lines(area, 6, None);
    assert_eq!(lines.len(), 4);
    assert_eq!(contents(&lines[0]), vec!["line    4"]);
    assert_eq!(contents(&lines[2]), vec!["line    6", "   "]);
    assert_eq!(contents(&lines[3]), vec!["line    7"]);
    assert!(lines[2].iter().all(|span| span.highlighted));
    assert!(lines[..2].iter().chain(&lines[3..]).flatten().all(|span| !span.highlighted));
    assert!(matches!(lines[2][0].style, SpanStyle::Foreground(Rgb { r: 1, g: 2, b: 3 })));
    assert!(matches!(lines[2][1].style, SpanStyle::Plain));
}

#[test]
fn highlighted_preview_at_the_start_of_a_file() {
    let mut context_viewer = ContextViewer::new(ContextViewerPosition::Vertical, false);
    context_viewer.set_highlighted_lines((1..=3).map(|i| highlighted_line(&format!("l{i}"))).collect());
    let area = Rect { x: 0, y: 0, width: 2, height: 10 };
    let lines = context_viewer.preview_lines(area, 1, None);
    assert_eq!(lines.len(), 3);
    assert_eq!(contents(&lines[0]), vec!["l1"]);
    assert!(lines[0][0].highlighted);
    assert!(!lines[1][0].highlighted);
}

#[test]
fn preview_needs_the_match_line() {
    let mut context_viewer = ContextViewer::new(ContextViewerPosition::Vertical, false);
    context_viewer.set_highlighted_lines(vec![highlighted_line("only")]);
    let area = Rect { x: 0, y: 0, width: 2, height: 10 };
    assert!(!context_viewer.can_preview(area, 2, &None));
    assert!(!context_viewer.can_preview(area, 0, &None));
    assert!(!context_viewer.can_preview(Rect { height: 0, ..area }, 1, &None));
}

#[test]
fn ansi_preview_keeps_own_backgrounds() {
    let mut context_viewer = ContextViewer::new(ContextViewerPosition::Horizontal, true);
    context_viewer.set_plain_lines(vec![
        "before".to_string(),
        "x \x1b[41mRed BG\x1b[0m y".to_string(),
        "after\tend".to_string(),
    ]);
    let area = Rect { x: 0, y: 0, width: 20, height: 6 };
    let lines = context_viewer.preview_lines(area, 2, Some((2, vec![(0, 1)])));
    assert_eq!(lines.len(), 3);
    assert_eq!(contents(&lines[2]), vec!["after    end"]);
    let match_line = &lines[1];
    let text: String = contents(match_line).concat();
    assert!(text.starts_with("x "));
    assert!(text.contains("Red BG"));
    assert_eq!(text.chars().count(), 20);
    let (padding, parsed) = match_line.split_last().unwrap();
    assert_eq!(padding.content, " ".repeat(10));
    assert!(padding.highlighted);
    assert!(matches!(padding.style, SpanStyle::Plain));
    for span in parsed {
        assert!(!span.highlighted);
        let background = match &span.style {
            SpanStyle::Parsed(style) => style.bg,
            _ => panic!("parsed span expected"),
        };
        if span.content == "Red BG" {
            assert_eq!(background, Some(TermColor::Red));
        }
        if span.content == "x" {
            assert_eq!(background, Some(TermColor::Indexed(52)));
        }
    }
    assert!(parsed.iter().any(|span| span.content == "x"));
    assert!(parsed.iter().any(|span| span.content == "Red BG"));
    assert!(lines[0].iter().all(|span| !span.highlighted));
}

#[test]
fn ansi_preview_removes_hyperlinks() {
    let mut context_viewer = ContextViewer::new(ContextViewerPosition::Horizontal, true);
    context_viewer.set_plain_lines(vec![
        "see \x1b]8;;https://example.com\x1b\\docs\x1b]8;;\x1b\\ now".to_string(),
    ]);
    let area = Rect { x: 0, y: 0, width: 5, height: 3 };
    let lines = context_viewer.preview_lines(area, 1, None);
    assert_eq!(contents(&lines[0]).concat(), "see docs now");
}

#[test]
fn ansi_preview_rejects_ranges_inside_a_character() {
    let mut context_viewer = ContextViewer::new(ContextViewerPosition::Horizontal, true);
    context_viewer.set_plain_lines(vec!["été".to_string()]);
    let area = Rect { x: 0, y: 0, width: 5, height: 3 };
    assert!(!context_viewer.can_preview(area, 1, &Some((1, vec![(1, 3)]))));
    assert!(context_viewer.can_preview(area, 1, &Some((1, vec![(2, 3)]))));
    assert!(context_viewer.can_preview(area, 1, &Some((2, vec![(1, 3)]))));
}

#[test]
fn ansi_preview_shows_match_background_and_keeps_others() {
    let line = "\x1b[41mRed BG\x1b[0m \x1b[44mBlue BG\x1b[0m";
    let start = line.find("Red BG").unwrap();
    let end = start + "Red BG".len();
    let mut context_viewer = ContextViewer::new(ContextViewerPosition::Horizontal, true);
    context_viewer.set_plain_lines(vec!["header".to_string(), line.to_string()]);
    let area = Rect { x: 0, y: 0, width: 40, height: 6 };
    let selected = Some((2, vec![(start, end)]));
    assert!(context_viewer.can_preview(area, 2, &selected));
    let lines = context_viewer.preview_lines(area, 2, selected);
    let background_of = |needle: &str| {
        lines[1]
            .iter()
            .find(|span| span.content == needle)
            .map(|span| (span.highlighted, match &span.style {
                SpanStyle::Parsed(style) => style.bg,
                _ => None,
            }))
    };
    assert_eq!(background_of("Red BG"), Some((false, Some(TermColor::Indexed(52)))));
    assert_eq!(background_of("Blue BG"), Some((false, Some(TermColor::Blue))));
}

#[test]
fn paths_equal_by_components_load_once() {
    let mut context_viewer = ContextViewer::new(ContextViewerPosition::Vertical, true);
    assert!(context_viewer.begin_update(FilePath::from_path(Path::new("src/ui/main.rs"))));
    assert!(!context_viewer.begin_update(FilePath::from_path(Path::new("src//ui/main.rs"))));
    assert!(FilePath::from_path(Path::new("a/b/")).same_as(&FilePath::from_path(Path::new("a/b"))));
    assert!(!FilePath::empty().same_as(&FilePath::from_path(Path::new("a"))));
}

#[test]
fn ansi_preview_keeps_each_parsed_style() {
    let mut context_viewer = ContextViewer::new(ContextViewerPosition::Horizontal, true);
    context_viewer.set_plain_lines(vec!["p".to_string(), "Y\x1b[44mX".to_string()]);
    let area = Rect { x: 0, y: 0, width: 2, height: 2 };
    let lines = context_viewer.get_ansi_styled_spans(1, 2, 2, 2, &[]);
    assert_eq!(lines.len(), 2);
    assert!(lines[0].iter().all(|span| !span.highlighted));
    let y = lines[1].iter().find(|s| s.content == "Y").unwrap();
    let x = lines[1].iter().find(|s| s.content == "X").unwrap();
    assert!(y.highlighted);
    assert!(!x.highlighted);
    assert!(matches!(x.style, SpanStyle::Parsed(TextStyle { bg: Some(TermColor::Blue), .. })));
    assert_eq!(lines[1].len(), 2);
    let _ = area;
}

#[test]
fn loads_highlighted_lines() {
    let mut context_viewer = ContextViewer::new(ContextViewerPosition::Vertical, false);
    let lines = vec!["fn main() {\n".to_string(), "\tlet x = 1;\n".to_string(), "}".to_string()];
    assert!(context_viewer.load_highlighted("main.rs", "rs", "base16-ocean.dark", &lines));
    let area = Rect { x: 0, y: 0, width: 4, height: 6 };
    let preview = context_viewer.preview_lines(area, 2, None);
    assert_eq!(preview.len(), 3);
    let second: String = preview[1].iter().map(|s| s.content.as_str()).collect();
    assert!(second.starts_with("    let x = 1;"));
    assert!(preview[0].len() > 1);
    assert!(preview[1].iter().all(|s| s.highlighted));
}

#[test]
fn unknown_theme_loads_nothing() {
    let mut context_viewer = ContextViewer::new(ContextViewerPosition::Vertical, false);
    assert!(!context_viewer.load_highlighted("main.rs", "rs", "no such theme", &vec!["x".to_string()]));
    let area = Rect { x: 0, y: 0, width: 4, height: 6 };
    assert!(!context_viewer.can_preview(area, 1, &None));
}

#[test]
fn removing_the_markers_gives_the_line_back() {
    let line = "héllo wörld, héllo";
    let rendered = ContextViewer::inject_match_background_ansi(line, &[(0, 6), (14, 21)]);
    assert_ne!(rendered, line);
    let unmarked = rendered
        .replace(ContextViewer::MATCH_BG_ANSI_START, "")
        .replace(ContextViewer::MATCH_BG_ANSI_END, "");
    assert_eq!(unmarked, line);
}
