use igrep_preview::ansi_parse::ParsedSpan;
use igrep_preview::ansi_utils::strip_osc8_keep_text;
use igrep_preview::preview::{compose_ansi_line, compose_highlighted_line, HighlightedSpan, Rgb, SpanStyle};
use igrep_preview::text::{expand_tabs_in, spaces_of};
use igrep_preview::style::{TermColor, TextStyle};

#[test]
fn strips_hyperlink_with_string_terminator() {
    let s = "\x1b]8;;https://example.com\x1b\\link text\x1b]8;;\x1b\\";
    assert_eq!(strip_osc8_keep_text(s), "link text");
}

#[test]
fn strips_hyperlink_with_bell_terminator() {
    let s = "a \x1b]8;id=1;file:///tmp/x\x07b\x1b]8;;\x07 c";
    assert_eq!(strip_osc8_keep_text(s), "a b c");
}

#[test]
fn unterminated_hyperlink_drops_the_rest() {
    assert_eq!(strip_osc8_keep_text("keep\x1b]8;;never ends"), "keep");
}

#[test]
fn keeps_other_escape_codes() {
    let s = "\x1b[31mred\x1b[0m \x1b]0;title\x07";
    assert_eq!(strip_osc8_keep_text(s), s);
}

#[test]
fn keeps_plain_and_multibyte_text() {
    assert_eq!(strip_osc8_keep_text("héllo wörld ✓"), "héllo wörld ✓");
    assert_eq!(strip_osc8_keep_text(""), "");
}

#[test]
fn short_introducer_at_the_end_is_kept() {
    assert_eq!(strip_osc8_keep_text("x\x1b]8"), "x\x1b]8");
}

#[test]
fn expands_tabs() {
    assert_eq!(expand_tabs_in("a\tb\t"), "a    b    ");
    assert_eq!(spaces_of(3), "   ");
}

#[test]
fn highlighted_match_line_is_padded_by_display_width() {
    let line = vec![
        HighlightedSpan { foreground: Rgb { r: 9, g: 9, b: 9 }, text: "日本".to_string() },
        HighlightedSpan { foreground: Rgb { r: 1, g: 1, b: 1 }, text: "\t".to_string() },
    ];
    let spans = compose_highlighted_line(&line, true, 10);
    let contents: Vec<&str> = spans.iter().map(|s| s.content.as_str()).collect();
    assert_eq!(contents, vec!["日本", "    ", "  "]);
    assert!(spans.iter().all(|s| s.highlighted));
    let plain = compose_highlighted_line(&line, false, 10);
    assert_eq!(plain.len(), 2);
    assert!(plain.iter().all(|s| !s.highlighted));
}

#[test]
fn composes_parsed_spans() {
    let plain = TextStyle { fg: None, bg: None, underline_color: None, add_modifier: 0, sub_modifier: 0 };
    let red = TextStyle { bg: Some(TermColor::Red), add_modifier: 1, ..plain };
    let parsed = vec![vec![
        ParsedSpan { content: "a\t".to_string(), style: red },
        ParsedSpan { content: "b".to_string(), style: plain },
    ]];
    let spans = compose_ansi_line("ignored", Ok(parsed), true, 8);
    let contents: Vec<&str> = spans.iter().map(|s| s.content.as_str()).collect();
    assert_eq!(contents, vec!["a    ", "b", "  "]);
    assert!(!spans[0].highlighted);
    assert!(spans[1].highlighted);
    assert!(spans[2].highlighted);
    assert!(matches!(spans[0].style, SpanStyle::Parsed(s) if s == red));
}

#[test]
fn composes_fallback_when_nothing_was_parsed() {
    let spans = compose_ansi_line("t\tab", Ok(vec![]), false, 3);
    assert_eq!(spans.len(), 1);
    assert_eq!(spans[0].content, "t    ab");
    assert!(matches!(spans[0].style, SpanStyle::Plain));
    assert!(!spans[0].highlighted);
}

#[test]
fn composes_fallback_with_tabs_expanded_once() {
    let spans = compose_ansi_line("\t", Ok(vec![]), true, 2);
    let contents: Vec<&str> = spans.iter().map(|s| s.content.as_str()).collect();
    assert_eq!(contents, vec!["    "]);
    assert!(spans[0].highlighted);
}

#[test]
fn unwrapping_a_hyperlink_gives_its_text() {
    let s = "\x1b]8;id=7;https://example.com/a?b=c\x1b\\some linked text\x1b]8;;\x1b\\";
    assert_eq!(strip_osc8_keep_text(s), "some linked text");
}

#[test]
fn unwrapping_a_hyperlink_keeps_other_escape_codes_inside() {
    let s = "\x1b]8;;file:///tmp/x\x1b\\\x1b[31mred\x1b[0m\x1b]8;;\x1b\\";
    assert_eq!(strip_osc8_keep_text(s), "\x1b[31mred\x1b[0m");
}
