# igrep_preview

The preview pane of a terminal grep front end, as a Verus-verified library.

`src/` holds the verified code:

- `ansi_utils` removes OSC 8 hyperlink sequences from a line and keeps the
  linked text; it is proved equal to the same scan done on UTF-8 bytes.
- `match_background` specifies how the ranges of a match are wrapped in ANSI
  background sequences, with byte offsets on character boundaries.
- `text` expands tabs, builds runs of spaces, and measures display widths
  through `ratatui`.
- `style` holds terminal colors and text styles as plain values.
- `ansi_parse` parses ANSI escape codes through `ansi_to_tui` into those
  styles.
- `file_path` holds a file path together with its encoded bytes.
- `layout` splits a screen area through `ratatui`'s layout solver.
- `preview` builds the styled spans of a preview line and pads and
  highlights the match line.
- `context_viewer` holds the pane: its position, its size, the file it shows,
  its lines (syntax highlighted through `syntect`, or kept with their escape
  codes), and the window of preview lines around a match.
- `outside` declares the types of `syntect`, `ratatui`, `ansi_to_tui` and
  `std::path` that the library uses.

`app/` reads the lines of files, gives the position a command line value with
`clap`, and draws the preview with `ratatui`.
