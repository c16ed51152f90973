use vstd::prelude::*;

use ratatui::layout::{Constraint, Direction, Layout};

verus! {

/// A rectangle of terminal cells: its top left corner and its size.
#[derive(Clone, Copy, Debug, PartialEq, Eq, Structural)]
pub struct Rect {
    pub x: u16,
    pub y: u16,
    pub width: u16,
    pub height: u16,
}

impl Rect {
    /// The rectangle as `(x, y, width, height)`.
    pub open spec fn as_tuple(self) -> (u16, u16, u16, u16) {
        (self.x, self.y, self.width, self.height)
    }
}

/// The two areas into which `ratatui`'s layout solver splits `area` for the
/// constraints `[Percentage(first_percent), Percentage(second_percent)]`:
/// side by side when `horizontal`, one above the other otherwise.
pub uninterp spec fn percentage_split(
    horizontal: bool,
    area: (u16, u16, u16, u16),
    first_percent: u16,
    second_percent: u16,
) -> ((u16, u16, u16, u16), (u16, u16, u16, u16));

/// Splits `area` in two with `ratatui::layout::Layout::split`, with no margin
/// and the two percentage constraints given.
#[verifier::external_body]
pub(crate) fn split_by_percentages(
    horizontal: bool,
    area: Rect,
    first_percent: u16,
    second_percent: u16,
) -> (r: (Rect, Rect))
    ensures
        (r.0.as_tuple(), r.1.as_tuple()) == percentage_split(
            horizontal,
            area.as_tuple(),
            first_percent,
            second_percent,
        ),
{
    let direction = if horizontal { Direction::Horizontal } else { Direction::Vertical };
    let chunks = Layout::default()
        .direction(direction)
        .constraints([Constraint::Percentage(first_percent), Constraint::Percentage(second_percent)])
        .split(ratatui::layout::Rect { x: area.x, y: area.y, width: area.width, height: area.height });
    let (a, b) = (chunks[0], chunks[1]);
    (Rect { x: a.x, y: a.y, width: a.width, height: a.height }, Rect { x: b.x, y: b.y, width: b.width, height: b.height })
}

} // verus!
