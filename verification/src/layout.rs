//! Splitting the screen into parts.

use tui::layout::{Constraint as Size, Direction as Axis, Layout, Rect as Area};
use vstd::prelude::*;

use crate::bounds::min;
use crate::widgets::Rect;

verus! {

/// The direction in which an area is split.
#[derive(Clone, Copy, Debug, PartialEq, Eq, Structural)]
pub enum Direction {
    Horizontal,
    Vertical,
}

/// The size that a part of an area should have.
#[derive(Clone, Copy, Debug, PartialEq, Eq, Structural)]
pub enum Constraint {
    Percentage(u16),
    Ratio(u32, u32),
    Length(u16),
    Min(u16),
}

impl Constraint {
    /// Whether the size can be calculated in an area of the given extent.
    pub open spec fn fits(self, extent: int) -> bool {
        match self {
            Constraint::Percentage(p) => p * extent <= u16::MAX,
            Constraint::Ratio(_, d) => d > 0,
            Constraint::Length(_) => true,
            Constraint::Min(_) => true,
        }
    }
}

/// How far an area extends along a direction.
pub open spec fn extent(direction: Direction, area: Rect) -> int {
    match direction {
        Direction::Horizontal => area.width as int,
        Direction::Vertical => area.height as int,
    }
}

/// The part of an area that begins `skip` cells after it and extends over `len` cells.
pub open spec fn part(direction: Direction, area: Rect, skip: int, len: int) -> Rect {
    match direction {
        Direction::Horizontal => Rect { x: (area.x + skip) as u16, width: len as u16, ..area },
        Direction::Vertical => Rect { y: (area.y + skip) as u16, height: len as u16, ..area },
    }
}

/// Whether the parts of an area are as large as the constraints ask for.
///
/// Stated of a part of fixed length, or as much of it as the area has room for, beside one that
/// takes the rest; of two ratios that add up to the whole; and of the middle one of three
/// percentages that do, with the same on both sides of it.
pub open spec fn sized(
    direction: Direction,
    constraints: Seq<Constraint>,
    area: Rect,
    parts: Seq<Rect>,
) -> bool {
    let n = extent(direction, area);
    &&& parts.len() == constraints.len()
    &&& constraints.len() == 2 ==> match (constraints[0], constraints[1]) {
        (Constraint::Length(l), Constraint::Min(0)) => {
            let len = min(l as int, n);
            &&& parts[0] == part(direction, area, 0, len)
            &&& parts[1] == part(direction, area, len, n - len)
        },
        (Constraint::Min(0), Constraint::Length(l)) => {
            let len = min(l as int, n);
            &&& parts[0] == part(direction, area, 0, n - len)
            &&& parts[1] == part(direction, area, n - len, len)
        },
        (Constraint::Ratio(a, d), Constraint::Ratio(b, e)) => {
            let len = n * a / d as int;
            d == e && a + b == d && d <= u16::MAX ==> {
                &&& parts[0] == part(direction, area, 0, len)
                &&& parts[1] == part(direction, area, len, n - len)
            }
        },
        _ => true,
    }
    &&& constraints.len() == 3 ==> match (constraints[0], constraints[1], constraints[2]) {
        (Constraint::Percentage(p), Constraint::Percentage(q), Constraint::Percentage(r)) => {
            p == r && p + q + r == 100 ==> parts[1] == part(
                direction,
                area,
                n * p / 100,
                n * q / 100,
            )
        },
        _ => true,
    }
}

/// Calls `tui::layout::Layout::split`.
///
/// Taken on trust: there is one part for each constraint, and sizes that can all be met are met,
/// where each part begins at a whole cell, rounded down, and the last one ends with the area. Of
/// other constraints only the number of parts is stated: how far each of them is met, and to which
/// side a fraction of a cell is rounded, depends on the steps of a solver in floating point.
#[verifier::external_body]
pub(crate) fn split(direction: Direction, constraints: &Vec<Constraint>, area: Rect) -> (parts: Vec<
    Rect,
>)
    requires
        area.wf(),
        forall|i: int|
            0 <= i < constraints@.len() ==> (#[trigger] constraints@[i]).fits(
                extent(direction, area),
            ),
    ensures
        sized(direction, constraints@, area, parts@),
{
    let size = |c: &Constraint| match *c {
        Constraint::Percentage(p) => Size::Percentage(p),
        Constraint::Ratio(n, d) => Size::Ratio(n, d),
        Constraint::Length(l) => Size::Length(l),
        Constraint::Min(m) => Size::Min(m),
    };
    let axis = match direction {
        Direction::Horizontal => Axis::Horizontal,
        Direction::Vertical => Axis::Vertical,
    };
    let sizes: Vec<Size> = constraints.iter().map(size).collect();
    let Rect { x, y, width, height } = area;
    Layout::default().constraints(sizes).direction(axis).split(Area { x, y, width, height })
        .into_iter().map(|Area { x, y, width, height }| Rect { x, y, width, height }).collect()
}

} // verus!
