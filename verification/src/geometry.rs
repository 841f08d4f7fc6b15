//! Terminal rectangles and the layout solver that splits them.
use vstd::prelude::*;
use ratatui::layout as rl;

verus! {

/// A rectangle of terminal cells.
#[derive(Debug, Clone, Copy, PartialEq, Eq, Hash, Structural)]
pub struct Rect {
    pub x: u16,
    pub y: u16,
    pub width: u16,
    pub height: u16,
}

/// The rectangle that `Rect::new(x, y, width, height)` builds: width and
/// height are cut so that the right and bottom edges stay within `u16`.
pub open spec fn spec_rect_new(x: u16, y: u16, width: u16, height: u16) -> Rect {
    Rect {
        x,
        y,
        width: if width > u16::MAX - x {
            (u16::MAX - x) as u16
        } else {
            width
        },
        height: if height > u16::MAX - y {
            (u16::MAX - y) as u16
        } else {
            height
        },
    }
}

impl Rect {
    /// A rectangle whose right and bottom edges fit in `u16`.
    pub fn new(x: u16, y: u16, width: u16, height: u16) -> (r: Rect)
        ensures
            r == spec_rect_new(x, y, width, height),
    {
        let max_width = u16::MAX - x;
        let max_height = u16::MAX - y;
        let width = if width > max_width {
            max_width
        } else {
            width
        };
        let height = if height > max_height {
            max_height
        } else {
            height
        };
        Rect { x, y, width, height }
    }
}

impl Default for Rect {
    fn default() -> (r: Rect)
        ensures
            r == (Rect { x: 0, y: 0, width: 0, height: 0 }),
    {
        Rect { x: 0, y: 0, width: 0, height: 0 }
    }
}

/// Direction in which a layout cuts an area.
#[derive(Debug, Clone, Copy, PartialEq, Eq, Hash, Structural)]
pub enum Direction {
    Horizontal,
    Vertical,
}

/// The size constraints that this library hands to the layout solver.
#[derive(Debug, Clone, Copy, PartialEq, Eq, Hash, Structural)]
pub enum Constraint {
    /// `numerator / denominator` of the area.
    Ratio(u32, u32),
    /// A fixed number of cells.
    Length(u16),
}

/// The column just past `area` (`Rect::right`, saturating).
pub open spec fn right_edge(area: Rect) -> int {
    if area.x + area.width > u16::MAX {
        u16::MAX as int
    } else {
        area.x + area.width
    }
}

/// The row just past `area` (`Rect::bottom`, saturating).
pub open spec fn bottom_edge(area: Rect) -> int {
    if area.y + area.height > u16::MAX {
        u16::MAX as int
    } else {
        area.y + area.height
    }
}

/// `r` is a part that a cut of `area` along `direction` can give: across
/// the cut it spans the area exactly, along the cut it stays inside it.
pub open spec fn part_of(direction: Direction, area: Rect, r: Rect) -> bool {
    match direction {
        Direction::Horizontal => {
            &&& r.y == area.y
            &&& r.height == area.height
            &&& area.x <= r.x
            &&& r.x + r.width <= right_edge(area)
        },
        Direction::Vertical => {
            &&& r.x == area.x
            &&& r.width == area.width
            &&& area.y <= r.y
            &&& r.y + r.height <= bottom_edge(area)
        },
    }
}

/// `rects` holds one part of `area` per constraint.
pub open spec fn is_split_of(direction: Direction, n: nat, area: Rect, rects: Seq<Rect>) -> bool {
    &&& rects.len() == n
    &&& forall|k: int| 0 <= k < rects.len() ==> part_of(direction, area, #[trigger] rects[k])
}

/// Cuts `area` along `direction` by `constraints` with ratatui's layout
/// solver (`ratatui::layout::Layout::split`, default margin, spacing and
/// flex).  Trusted: the result holds one rectangle per constraint, each
/// spanning the area across the cut and lying inside it along the cut (the
/// solver's required constraints and the conversion to rectangles give
/// this for every outcome).  Where along the cut each rectangle lies, and
/// whether neighbours touch, is the solver's choice: it breaks ties by the
/// order of hash maps that each call seeds anew, so it is not stated.
#[verifier::external_body]
pub fn split_area(direction: Direction, constraints: &[Constraint], area: Rect) -> (r: Vec<Rect>)
    ensures
        is_split_of(direction, constraints@.len(), area, r@),
{
    let dir = match direction {
        Direction::Horizontal => rl::Direction::Horizontal,
        Direction::Vertical => rl::Direction::Vertical,
    };
    let cs: Vec<rl::Constraint> = constraints.iter().map(|c| match *c {
        Constraint::Ratio(n, d) => rl::Constraint::Ratio(n, d),
        Constraint::Length(l) => rl::Constraint::Length(l),
    }).collect();
    let a = rl::Rect { x: area.x, y: area.y, width: area.width, height: area.height };
    let parts = rl::Layout::default().direction(dir).constraints(cs).split(a);
    parts.iter().map(|p| Rect { x: p.x, y: p.y, width: p.width, height: p.height }).collect()
}

/// `rects` is an outcome of the layout solver cutting `area` along
/// `direction` by `constraints`: what a call of `split_area` with those
/// arguments can return.
pub open spec fn solver_split(
    direction: Direction,
    constraints: Seq<Constraint>,
    area: Rect,
    rects: Vec<Rect>,
) -> bool {
    exists|cs: &[Constraint]|
        cs@ == constraints && call_ensures(split_area, (direction, cs, area), rects)
}

/// Every outcome of the solver holds one part of the area per constraint.
pub proof fn lemma_solver_split_parts(
    direction: Direction,
    constraints: Seq<Constraint>,
    area: Rect,
    rects: Vec<Rect>,
)
    requires
        solver_split(direction, constraints, area, rects),
    ensures
        is_split_of(direction, constraints.len(), area, rects@),
{
    let cs = choose|cs: &[Constraint]|
        cs@ == constraints && call_ensures(split_area, (direction, cs, area), rects);
}

} // verus!
