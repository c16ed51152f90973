//! Verified core of a grep result preview pane: the layout state of the
//! preview, the styled lines it shows around a match, and the ANSI text
//! handling that those lines need.

pub mod ansi_utils;
pub mod match_background;
pub mod outside;
pub mod file_path;
pub mod style;
pub mod text;
pub mod layout;
pub mod ansi_parse;
pub mod preview;
pub mod context_viewer;
