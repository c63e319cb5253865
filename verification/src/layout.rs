//! Where the parts of the screen stand.
use ratatui::layout as grid;
use vstd::prelude::*;
use crate::state::Mode;

verus! {

// ---- areas ---------------------------------------------------------------

/// An area of the screen, in cells.
#[derive(Debug, Clone, Copy, PartialEq, Eq, Structural)]
pub struct Rect {
    pub x: u16,
    pub y: u16,
    pub width: u16,
    pub height: u16,
}

impl Rect {
    /// The first column to the right of the area, or the last column that can be
    /// counted.
    pub open spec fn right(self) -> int {
        if self.x + self.width > u16::MAX {
            u16::MAX as int
        } else {
            self.x + self.width
        }
    }

    /// The first row below the area, or the last row that can be counted.
    pub open spec fn bottom(self) -> int {
        if self.y + self.height > u16::MAX {
            u16::MAX as int
        } else {
            self.y + self.height
        }
    }

    /// The area lies inside another.
    pub open spec fn within(self, area: Rect) -> bool {
        &&& area.x <= self.x
        &&& self.right() <= area.right()
        &&& area.y <= self.y
        &&& self.bottom() <= area.bottom()
    }
}

/// The way in which an area is divided.
#[derive(Debug, Clone, Copy, PartialEq, Eq, Structural)]
pub enum Direction {
    /// Into columns, side by side.
    Horizontal,
    /// Into rows, one above the other.
    Vertical,
}

/// The size that is asked for a part of an area.
#[derive(Debug, Clone, Copy, PartialEq, Eq, Structural)]
pub enum Constraint {
    /// So many cells.
    Length(u16),
    /// So many cells or more.
    Min(u16),
    /// So many hundredths of the area.
    Percentage(u16),
}

// ---- dividing an area ----------------------------------------------------

/// Where an area starts, along a direction.
pub open spec fn start_of(direction: Direction, area: Rect) -> int {
    match direction {
        Direction::Horizontal => area.x as int,
        Direction::Vertical => area.y as int,
    }
}

/// How far an area reaches along a direction, as far as that can be counted.
pub open spec fn extent(direction: Direction, area: Rect) -> int {
    match direction {
        Direction::Horizontal => area.right() - area.x,
        Direction::Vertical => area.bottom() - area.y,
    }
}

/// The size of a part along a direction.
pub open spec fn size_of(direction: Direction, part: Rect) -> int {
    match direction {
        Direction::Horizontal => part.width as int,
        Direction::Vertical => part.height as int,
    }
}

/// The size that a constraint asks for, in hundredths of a cell.
pub open spec fn asked(c: Constraint, extent: int) -> int {
    match c {
        Constraint::Length(n) => 100 * n,
        Constraint::Min(n) => 100 * n,
        Constraint::Percentage(p) => extent * p,
    }
}

/// What the first `n` constraints ask for.
pub open spec fn total_asked(constraints: Seq<Constraint>, extent: int, n: int) -> int
    decreases n,
{
    if n <= 0 {
        0
    } else {
        total_asked(constraints, extent, n - 1) + asked(constraints[n - 1], extent)
    }
}

/// A few constraints, at most one of them a minimum, ask for no more than there
/// is.
pub open spec fn fits(constraints: Seq<Constraint>, extent: int) -> bool {
    &&& constraints.len() <= 3
    &&& forall|i: int, j: int|
        0 <= i < j < constraints.len() ==> !(#[trigger] constraints[i] is Min
            && #[trigger] constraints[j] is Min)
    &&& forall|i: int|
        0 <= i < constraints.len() ==> (#[trigger] constraints[i] matches Constraint::Min(n) ==> n
            <= i16::MAX)
    &&& total_asked(constraints, extent, constraints.len() as int) <= 100 * extent
}

/// What the first `n` constraints get where all of them fit: what they ask for, and
/// the minimum also what is left.
pub open spec fn total_given(constraints: Seq<Constraint>, extent: int, n: int) -> int
    decreases n,
{
    if n <= 0 {
        0
    } else {
        total_given(constraints, extent, n - 1) + asked(constraints[n - 1], extent) + if constraints[n
            - 1] is Min {
            100 * extent - total_asked(constraints, extent, constraints.len() as int)
        } else {
            0
        }
    }
}

/// The cell at which part `n` starts and the part before it ends: the sum of what
/// stands before it, rounded to whole cells.
pub open spec fn edge(direction: Direction, constraints: Seq<Constraint>, area: Rect, n: int) -> int {
    (100 * start_of(direction, area) + total_given(constraints, extent(direction, area), n) + 50)
        / 100
}

/// How a header of three cells, a body of one at least and a footer of one share an
/// area that is too small for them, where that is settled: the body keeps its
/// cell, and the header yields before the footer.
pub open spec fn squeezed(extent: int) -> Option<(int, int, int)> {
    if extent == 1 {
        Some((0, 1, 0))
    } else if extent == 3 {
        Some((1, 1, 1))
    } else if extent == 4 {
        Some((2, 1, 1))
    } else {
        None
    }
}

/// A part starts `from` cells into an area and is `size` cells long.
pub open spec fn stands_from(
    direction: Direction,
    area: Rect,
    part: Rect,
    from: int,
    size: int,
) -> bool {
    &&& start_of(direction, part) == start_of(direction, area) + from
    &&& size_of(direction, part) == size
}

/// `part` spans `area` across the direction of a division, and lies inside it
/// along that direction.
pub open spec fn spans_across(direction: Direction, area: Rect, part: Rect) -> bool {
    match direction {
        Direction::Horizontal => {
            &&& part.y == area.y
            &&& part.height == area.height
            &&& area.x <= part.x
            &&& part.x + part.width <= area.right()
        },
        Direction::Vertical => {
            &&& part.x == area.x
            &&& part.width == area.width
            &&& area.y <= part.y
            &&& part.y + part.height <= area.bottom()
        },
    }
}

/// `parts` divides `area`: one part for each constraint, each of them inside the
/// area; where the constraints fit, each part has its size and they stand in a row
/// from the start; and where the header, the body and the footer of a screen do
/// not fit, they are squeezed.
pub open spec fn divides(
    direction: Direction,
    constraints: Seq<Constraint>,
    area: Rect,
    parts: Seq<Rect>,
) -> bool {
    &&& parts.len() == constraints.len()
    &&& forall|i: int|
        0 <= i < parts.len() ==> spans_across(direction, area, #[trigger] parts[i])
    &&& fits(constraints, extent(direction, area)) ==> forall|i: int|
        0 <= i < parts.len() ==> {
            &&& start_of(direction, #[trigger] parts[i]) == edge(direction, constraints, area, i)
            &&& start_of(direction, parts[i]) + size_of(direction, parts[i]) == edge(
                direction,
                constraints,
                area,
                i + 1,
            )
        }
    &&& constraints == screen_bands() ==> match squeezed(extent(direction, area)) {
        Some((header, body, footer)) => {
            &&& stands_from(direction, area, parts[0], 0, header)
            &&& stands_from(direction, area, parts[1], header, body)
            &&& stands_from(direction, area, parts[2], header + body, footer)
        },
        None => true,
    }
}

/// Divides an area with `ratatui::layout::Layout::split`.
///
/// Claimed of it: it gives one area for each constraint; each spans the whole area
/// across the direction; along the direction each starts and ends inside the
/// area, whose far edge is counted no further than `u16::MAX`. Up to three
/// constraints that ask for no more than there is are met: a length and a
/// percentage give just that size, one minimum takes what the others leave, the
/// parts follow each other from the start without a gap, and their edges are
/// rounded to the nearest cell, halves away from zero. A length of three, a minimum
/// of one and a length of one over one, three or four cells have one best division
/// too: the minimum weighs most, the two lengths weigh the same, and the weak wish
/// for equal sizes lets the longer one yield. How the space is shared out elsewhere
/// where the constraints do not fit is left unsaid: a solver weighs them against
/// each other, and the documentation calls the result indeterminate. Over two
/// cells the two lengths tie.
#[verifier::external_body]
fn split(direction: Direction, constraints: &Vec<Constraint>, area: Rect) -> (parts: Vec<Rect>)
    ensures
        divides(direction, constraints@, area, parts@),
{
    let towards = match direction {
        Direction::Horizontal => grid::Direction::Horizontal,
        Direction::Vertical => grid::Direction::Vertical,
    };
    let sizes = constraints.iter().map(|c| match c {
        Constraint::Length(n) => grid::Constraint::Length(*n),
        Constraint::Min(n) => grid::Constraint::Min(*n),
        Constraint::Percentage(n) => grid::Constraint::Percentage(*n),
    });
    let Rect { x, y, width, height } = area;
    let whole = grid::Rect { x, y, width, height };
    let parts = grid::Layout::default().direction(towards).constraints(sizes).split(whole);
    parts.iter().map(|r| Rect { x: r.x, y: r.y, width: r.width, height: r.height }).collect()
}

// ---- the middle of an area -----------------------------------------------

/// The cell at `percent` hundredths of the way from `start` over `extent` cells.
pub open spec fn part_way(start: int, extent: int, percent: int) -> int {
    (100 * start + extent * percent + 50) / 100
}

/// The middle of an area: `pct_x` hundredths of it wide and `pct_y` hundredths
/// high, with equal margins.
pub open spec fn middle(pct_x: u16, pct_y: u16, area: Rect) -> Rect {
    let (mx, my) = ((100 - pct_x) / 2, (100 - pct_y) / 2);
    let (w, h) = (area.right() - area.x, area.bottom() - area.y);
    let (x, y) = (part_way(area.x as int, w, mx), part_way(area.y as int, h, my));
    Rect {
        x: x as u16,
        y: y as u16,
        width: (part_way(area.x as int, w, mx + pct_x) - x) as u16,
        height: (part_way(area.y as int, h, my + pct_y) - y) as u16,
    }
}

/// A band of `percent` hundredths with an equal band before and after it.
pub open spec fn middle_bands(percent: u16) -> Seq<Constraint> {
    let margin = ((100 - percent) / 2) as u16;
    seq![
        Constraint::Percentage(margin),
        Constraint::Percentage(percent),
        Constraint::Percentage(margin),
    ]
}

/// The band of `percent` hundredths with an equal band before and after it.
pub fn bands_around(percent: u16) -> (bands: Vec<Constraint>)
    requires
        percent <= 100,
    ensures
        bands@ == middle_bands(percent),
{
    let margin: u16 = (100 - percent) / 2;
    let mut bands: Vec<Constraint> = Vec::new();
    bands.push(Constraint::Percentage(margin));
    bands.push(Constraint::Percentage(percent));
    bands.push(Constraint::Percentage(margin));
    assert(bands@ =~= middle_bands(percent));
    bands
}

proof fn lemma_middle_bands(percent: u16, extent: int)
    requires
        percent <= 100,
        extent >= 0,
    ensures
        fits(middle_bands(percent), extent),
        total_given(middle_bands(percent), extent, 1) == extent * ((100 - percent) / 2),
        total_given(middle_bands(percent), extent, 2) == extent * ((100 - percent) / 2 + percent),
{
    let c = middle_bands(percent);
    let m = (100 - percent) / 2;
    reveal_with_fuel(total_asked, 4);
    reveal_with_fuel(total_given, 3);
    assert(extent * m + extent * percent == extent * (m + percent)) by (nonlinear_arith);
    assert(extent * m + extent * percent + extent * m <= 100 * extent) by (nonlinear_arith)
        requires
            extent >= 0,
            m + percent + m <= 100,
    ;
}

/// The middle of an area, so many hundredths of it wide and high.
pub fn centered_rect(pct_x: u16, pct_y: u16, area: Rect) -> (r: Rect)
    requires
        pct_x <= 100,
        pct_y <= 100,
    ensures
        r == middle(pct_x, pct_y, area),
        r.within(area),
{
    let rows = split(Direction::Vertical, &bands_around(pct_y), area);
    proof {
        lemma_middle_bands(pct_y, extent(Direction::Vertical, area));
    }
    assert(spans_across(Direction::Vertical, area, rows@[1]));
    let columns = split(Direction::Horizontal, &bands_around(pct_x), rows[1]);
    proof {
        lemma_middle_bands(pct_x, extent(Direction::Horizontal, rows@[1]));
    }
    assert(spans_across(Direction::Horizontal, rows@[1], columns@[1]));
    columns[1]
}

// ---- the parts of the screen ---------------------------------------------

/// Where the parts of the screen stand.
#[derive(Debug, Clone, Copy, PartialEq, Eq, Structural)]
pub struct Areas {
    pub header: Rect,
    pub list: Rect,
    pub detail: Option<Rect>,
    pub footer: Rect,
    pub help: Option<Rect>,
}

/// Three rows for the header, one for the footer, the rest between them.
pub open spec fn screen_bands() -> Seq<Constraint> {
    seq![Constraint::Length(3), Constraint::Min(1), Constraint::Length(1)]
}

/// The list beside the detail.
pub open spec fn detail_bands() -> Seq<Constraint> {
    seq![Constraint::Percentage(46), Constraint::Percentage(54)]
}

/// The left 46 hundredths of an area.
pub open spec fn left_side(body: Rect) -> Rect {
    let w = body.right() - body.x;
    Rect { width: (part_way(body.x as int, w, 46) - body.x) as u16, ..body }
}

/// The right 54 hundredths of an area.
pub open spec fn right_side(body: Rect) -> Rect {
    let edge = part_way(body.x as int, body.right() - body.x, 46);
    Rect { x: edge as u16, width: (body.right() - edge) as u16, ..body }
}

/// The parts of the screen with the header, the body and the footer in `rows`: the
/// list fills the body, or stands in its left side beside an open detail; an open
/// help text stands over the middle of the screen.
pub open spec fn placed(mode: Mode, screen: Rect, rows: Seq<Rect>) -> Areas {
    Areas {
        header: rows[0],
        list: if mode == Mode::Detail {
            left_side(rows[1])
        } else {
            rows[1]
        },
        detail: if mode == Mode::Detail {
            Some(right_side(rows[1]))
        } else {
            None
        },
        footer: rows[2],
        help: if mode == Mode::Help {
            Some(middle(64, 80, screen))
        } else {
            None
        },
    }
}

proof fn lemma_detail_bands(extent: int)
    requires
        extent >= 0,
    ensures
        fits(detail_bands(), extent),
        total_given(detail_bands(), extent, 0) == 0,
        total_given(detail_bands(), extent, 1) == extent * 46,
        total_given(detail_bands(), extent, 2) == extent * 100,
{
    reveal_with_fuel(total_asked, 3);
    reveal_with_fuel(total_given, 3);
}

/// Puts the parts of the screen into the rows of the header, the body and the
/// footer.
pub fn place(mode: Mode, screen: Rect, rows: &Vec<Rect>) -> (areas: Areas)
    requires
        rows@.len() == 3,
    ensures
        areas == placed(mode, screen, rows@),
        areas.list.within(rows@[1]),
        areas.detail is Some ==> areas.detail->0.within(rows@[1]),
        areas.help is Some ==> areas.help->0.within(screen),
{
    let help = if mode == Mode::Help {
        Some(centered_rect(64, 80, screen))
    } else {
        None
    };
    if mode == Mode::Detail {
        let mut sides: Vec<Constraint> = Vec::new();
        sides.push(Constraint::Percentage(46));
        sides.push(Constraint::Percentage(54));
        assert(sides@ =~= detail_bands());
        let columns = split(Direction::Horizontal, &sides, rows[1]);
        proof {
            lemma_detail_bands(extent(Direction::Horizontal, rows@[1]));
        }
        assert(spans_across(Direction::Horizontal, rows@[1], columns@[0]));
        assert(spans_across(Direction::Horizontal, rows@[1], columns@[1]));
        Areas {
            header: rows[0],
            list: columns[0],
            detail: Some(columns[1]),
            footer: rows[2],
            help,
        }
    } else {
        Areas { header: rows[0], list: rows[1], detail: None, footer: rows[2], help }
    }
}

/// `rows` are the header, the body and the footer of a screen: each of them on the
/// screen and as wide as it is; on a screen of five rows or more one above the
/// other, three rows, the rest and one row high; and on one of one, three or
/// four rows squeezed.
pub open spec fn are_screen_rows(screen: Rect, rows: Seq<Rect>) -> bool {
    &&& rows.len() == 3
    &&& forall|i: int| 0 <= i < 3 ==> spans_across(Direction::Vertical, screen, #[trigger] rows[i])
    &&& screen.bottom() - screen.y >= 5 ==> {
        &&& rows[0] == Rect { height: 3, ..screen }
        &&& rows[1] == Rect {
            y: (screen.y + 3) as u16,
            height: (screen.bottom() - screen.y - 4) as u16,
            ..screen
        }
        &&& rows[2] == Rect { y: (screen.bottom() - 1) as u16, height: 1, ..screen }
    }
    &&& match squeezed(screen.bottom() - screen.y) {
        Some((header, body, footer)) => {
            &&& rows[0] == Rect { height: header as u16, ..screen }
            &&& rows[1] == Rect {
                y: (screen.y + header) as u16,
                height: body as u16,
                ..screen
            }
            &&& rows[2] == Rect {
                y: (screen.y + header + body) as u16,
                height: footer as u16,
                ..screen
            }
        },
        None => true,
    }
}

fn screen_rows(screen: Rect) -> (rows: Vec<Rect>)
    ensures
        are_screen_rows(screen, rows@),
{
    let mut bands: Vec<Constraint> = Vec::new();
    bands.push(Constraint::Length(3));
    bands.push(Constraint::Min(1));
    bands.push(Constraint::Length(1));
    assert(bands@ =~= screen_bands());
    let rows = split(Direction::Vertical, &bands, screen);
    proof {
        let e = extent(Direction::Vertical, screen);
        reveal_with_fuel(total_asked, 4);
        reveal_with_fuel(total_given, 4);
        assert(spans_across(Direction::Vertical, screen, rows@[0]));
        assert(spans_across(Direction::Vertical, screen, rows@[1]));
        assert(spans_across(Direction::Vertical, screen, rows@[2]));
        if e >= 5 {
            assert(fits(screen_bands(), e));
            assert(total_given(screen_bands(), e, 1) == 300);
            assert(total_given(screen_bands(), e, 2) == 100 * e - 100);
            assert(total_given(screen_bands(), e, 3) == 100 * e);
        }
    }
    rows
}

/// Lays out the screen.
pub fn layout(mode: Mode, screen: Rect) -> (areas: Areas)
    ensures
        exists|rows: Seq<Rect>|
            are_screen_rows(screen, rows) && areas == #[trigger] placed(mode, screen, rows),
        areas.header.within(screen),
        areas.list.within(screen),
        areas.detail is Some ==> areas.detail->0.within(screen),
        areas.footer.within(screen),
        areas.help is Some ==> areas.help->0.within(screen),
{
    let rows = screen_rows(screen);
    assert(spans_across(Direction::Vertical, screen, rows@[0]));
    assert(spans_across(Direction::Vertical, screen, rows@[1]));
    assert(spans_across(Direction::Vertical, screen, rows@[2]));
    place(mode, screen, &rows)
}

} // verus!
