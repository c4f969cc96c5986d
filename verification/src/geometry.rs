//! Where on the screen things stand.

use ratatui::layout::{Constraint, Layout, Margin, Rect};
use ratatui::widgets::Block;
use vstd::prelude::*;

verus! {

/// A part of the screen: its upper left corner and its size, in cells.
#[derive(Clone, Copy, Debug, PartialEq, Eq, Structural)]
pub struct Area {
    pub x: u16,
    pub y: u16,
    pub width: u16,
    pub height: u16,
}

/// The name of the program, as the border shows it.
pub const TITLE: &'static str = "  oaifai  ";

/// A coordinate, at most the largest that there is.
pub open spec fn on_screen(coordinate: int) -> u16 {
    if coordinate > u16::MAX {
        u16::MAX
    } else {
        coordinate as u16
    }
}

/// A size, at least zero.
pub open spec fn at_least_zero(size: int) -> u16 {
    if size < 0 {
        0
    } else {
        size as u16
    }
}

/// What a border of one cell on each side leaves of an area.
pub open spec fn inside(area: Area) -> Area {
    Area {
        x: on_screen(area.x + (if area.width == 0 { 0int } else { 1 })),
        y: on_screen(area.y + (if area.height == 0 { 0int } else { 1 })),
        width: at_least_zero(area.width - 2),
        height: at_least_zero(area.height - 2),
    }
}

/// `Block::inner` of ratatui, for a block with a border on each side: the area
/// without its outermost cells. The corner stays within the area, and on the
/// screen.
#[verifier::external_body]
pub(crate) fn inside_border(area: Area) -> (inner: Area)
    ensures
        inner == inside(area),
{
    let rect = Rect { x: area.x, y: area.y, width: area.width, height: area.height };
    let r = Block::bordered().inner(rect);
    Area { x: r.x, y: r.y, width: r.width, height: r.height }
}

/// How many rows of an area are on the screen.
pub open spec fn rows_on_screen(area: Area) -> int {
    on_screen(area.y + area.height) - area.y
}

/// An area without its last `count` rows, and those rows. Of an area that has
/// fewer, the second part has all.
pub open spec fn with_footer(area: Area, count: u16) -> (Area, Area) {
    let rows = rows_on_screen(area);
    let footer: int = if rows < count {
        rows
    } else {
        count as int
    };
    (
        Area { height: (rows - footer) as u16, ..area },
        Area { y: (area.y + rows - footer) as u16, height: footer as u16, ..area },
    )
}

/// `Layout::split` of ratatui, for a vertical layout of `Min(0)` and
/// `Length(count)`: the second part has the last `count` rows of the area, or
/// as many as there are, and the first part all the others. Rows off the screen
/// do not count.
#[verifier::external_body]
pub(crate) fn split_footer(area: Area, count: u16) -> (parts: (Area, Area))
    ensures
        parts == with_footer(area, count),
{
    let rect = Rect { x: area.x, y: area.y, width: area.width, height: area.height };
    let rows = Layout::vertical([Constraint::Min(0), Constraint::Length(count)]).split(rect);
    let (body, foot) = (rows[0], rows[1]);
    (
        Area { x: body.x, y: body.y, width: body.width, height: body.height },
        Area { x: foot.x, y: foot.y, width: foot.width, height: foot.height },
    )
}

/// An area without so many columns on each side and so many rows above and
/// below. One that is too small for that leaves nothing.
pub open spec fn without_margin(area: Area, columns: u16, rows: u16) -> Area {
    if area.width < on_screen(2 * columns) || area.height < on_screen(2 * rows) {
        Area { x: 0, y: 0, width: 0, height: 0 }
    } else {
        Area {
            x: on_screen(area.x + columns),
            y: on_screen(area.y + rows),
            width: (area.width - on_screen(2 * columns)) as u16,
            height: (area.height - on_screen(2 * rows)) as u16,
        }
    }
}

/// `Rect::inner` of ratatui: the area without a margin of so many columns and
/// rows.
#[verifier::external_body]
pub(crate) fn inset(area: Area, columns: u16, rows: u16) -> (inner: Area)
    ensures
        inner == without_margin(area, columns, rows),
{
    let rect = Rect { x: area.x, y: area.y, width: area.width, height: area.height };
    let r = rect.inner(Margin::new(columns, rows));
    Area { x: r.x, y: r.y, width: r.width, height: r.height }
}

/// On an area that is on the screen, a footer takes rows from the area and
/// leaves none of them out.
pub proof fn law_footer_divides_the_area(area: Area, count: u16)
    requires
        area.y + area.height <= u16::MAX,
    ensures
        ({
            let (body, foot) = with_footer(area, count);
            &&& body.height + foot.height == area.height
            &&& body.y == area.y
            &&& foot.y == body.y + body.height
            &&& body.x == foot.x == area.x
            &&& body.width == foot.width == area.width
        }),
{
}

} // verus!
