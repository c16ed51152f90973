use vstd::prelude::*;

verus! {

/// The syntax definitions of `syntect`, carried through unread.
#[verifier::external_type_specification]
#[verifier::external_body]
pub struct ExSyntaxSet(syntect::parsing::SyntaxSet);

/// The color themes of `syntect`, carried through unread.
#[verifier::external_type_specification]
#[verifier::external_body]
pub struct ExThemeSet(syntect::highlighting::ThemeSet);

/// A color of a `syntect` theme; its components are read.
#[verifier::external_type_specification]
pub struct ExThemeColor(syntect::highlighting::Color);

/// The error type of `ansi_to_tui`.
#[verifier::external_type_specification]
#[verifier::external_body]
pub struct ExAnsiError(ansi_to_tui::Error);

/// An owned file system path.
#[verifier::external_type_specification]
#[verifier::external_body]
pub struct ExPathBuf(std::path::PathBuf);

/// A borrowed file system path.
#[verifier::external_type_specification]
#[verifier::external_body]
pub struct ExPath(std::path::Path);

/// A terminal color of `ratatui`; its variants are read.
#[verifier::external_type_specification]
pub struct ExTuiColor(ratatui::style::Color);

} // verus!
