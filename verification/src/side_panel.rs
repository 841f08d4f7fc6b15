//! Side-panel presentation state for durable `/side` conversations.
//!
//! A side chat is a durable conversation in `SideChatStore`; this module owns
//! only the ephemeral presentation: which tabs are open in this process,
//! which one is selected, whether keyboard input targets the panel, and the
//! user-selected main/panel split.
use vstd::prelude::*;

use crate::geometry::{part_of, solver_split, split_area, Constraint, Direction, Rect};
use crate::seqs::{
    filter_mask, first_index, is_first_at, lemma_filter_mask_from_flagged, lemma_filter_mask_keeps,
    lemma_filter_mask_no_duplicates, lemma_filter_mask_subset, lemma_first_index_absent,
    lemma_first_index_found, lemma_first_index_is, no_duplicates,
};
use crate::side_chat::{AgentId, SideChatStore};
use crate::text::{chars_of, str_eq};
use crate::text::string_of;

verus! {

/// Default share of the conversation area reserved for the parent chat.
pub const DEFAULT_MAIN_RATIO: u16 = 65;

/// Height of the tab strip above the selected side conversation.
pub const SIDE_TAB_BAR_HEIGHT: u16 = 1;

/// Smallest usable width of either side of the split, in terminal cells.
pub const MIN_PANEL_WIDTH: u16 = 24;

/// Terminals narrower than this use the parent-only fallback.
pub const MIN_SPLIT_WIDTH: u16 = 48;

/// Width of the `+` create target at the right end of the tab strip.
pub const CREATE_WIDTH: u16 = 3;

/// Width of the `»` overflow target.
pub const OVERFLOW_WIDTH: u16 = 3;

/// Narrowest tab, in cells.
pub const MIN_TAB_WIDTH: u16 = 8;

/// Widest tab, in cells.
pub const MAX_TAB_WIDTH: u16 = 22;

/// `a + b`, saturating at `u16::MAX`.
pub open spec fn sat_add(a: u16, b: u16) -> u16 {
    if a + b > u16::MAX {
        u16::MAX
    } else {
        (a + b) as u16
    }
}

/// `a - b`, saturating at 0.
pub open spec fn sat_sub(a: u16, b: u16) -> u16 {
    if a < b {
        0
    } else {
        (a - b) as u16
    }
}

/// `x` clamped to `[lo, hi]` (for `lo <= hi`).
pub open spec fn clamp_int(x: int, lo: int, hi: int) -> int {
    if x < lo {
        lo
    } else if x > hi {
        hi
    } else {
        x
    }
}

/// Persisted user interface preference: the share of the content area that
/// the parent conversation occupies, in percent.
#[derive(Debug, Clone, Copy, PartialEq, Eq, Structural)]
pub struct SidePanelPreferences {
    pub main_ratio: u16,
}

/// The main ratio that `set_from_divider` derives from a mouse column.
pub open spec fn divider_ratio(area: Rect, column: u16) -> u16 {
    let relative = if sat_sub(column, area.x) < area.width {
        sat_sub(column, area.x)
    } else {
        area.width
    };
    let half = area.width / 2;
    let margin = if MIN_PANEL_WIDTH + 1 < half {
        (MIN_PANEL_WIDTH + 1) as u16
    } else {
        half as u16
    };
    let lower = margin;
    let upper = if sat_sub(area.width, margin) > lower {
        sat_sub(area.width, margin)
    } else {
        lower
    };
    let clamped = clamp_int(relative as int, lower as int, upper as int);
    (clamped * 100 / (area.width as int)) as u16
}

/// The three constraints of the main / divider / panel split.
pub open spec fn split_constraints(main_ratio: u16) -> Seq<Constraint> {
    seq![
        Constraint::Ratio(main_ratio as u32, 100),
        Constraint::Length(1),
        Constraint::Ratio((100 - main_ratio) as u32, 100),
    ]
}

impl Default for SidePanelPreferences {
    fn default() -> (p: Self)
        ensures
            p.main_ratio == DEFAULT_MAIN_RATIO,
    {
        SidePanelPreferences { main_ratio: DEFAULT_MAIN_RATIO }
    }
}

impl SidePanelPreferences {
    /// Clamp a percentage to the usable range `[20, 80]`.
    pub fn set_main_ratio(&mut self, ratio: u16)
        ensures
            final(self).main_ratio == clamp_int(ratio as int, 20, 80),
    {
        self.main_ratio = if ratio < 20 {
            20
        } else if ratio > 80 {
            80
        } else {
            ratio
        };
    }

    /// Derive a legal percentage from an absolute mouse column: the column is
    /// kept far enough from both edges that each side of the split keeps
    /// `MIN_PANEL_WIDTH` cells once the divider is drawn (half the area each
    /// when it is too narrow for that).  A zero-width area leaves the
    /// preference unchanged.
    pub fn set_from_divider(&mut self, area: Rect, column: u16)
        ensures
            area.width == 0 ==> final(self).main_ratio == old(self).main_ratio,
            area.width > 0 ==> final(self).main_ratio == clamp_int(
                divider_ratio(area, column) as int,
                20,
                80,
            ),
    {
        if area.width == 0 {
            return;
        }
        let rel = column.saturating_sub(area.x);
        let relative = if rel < area.width {
            rel
        } else {
            area.width
        };
        let half = area.width / 2;
        // The divider's cell makes the three parts overfill the row by one,
        // and the layout solver may take that cell from either side; each
        // side's share therefore keeps one column above `MIN_PANEL_WIDTH`.
        let margin = if MIN_PANEL_WIDTH + 1 < half {
            MIN_PANEL_WIDTH + 1
        } else {
            half
        };
        let lower = margin;
        let upper = if area.width.saturating_sub(margin) > lower {
            area.width.saturating_sub(margin)
        } else {
            lower
        };
        let clamped = if relative < lower {
            lower
        } else if relative > upper {
            upper
        } else {
            relative
        };
        assert(clamped <= area.width);
        let ratio = (clamped as u32 * 100 / area.width as u32) as u16;
        assert(ratio as int == divider_ratio(area, column)) by {
            assert((clamped as u32 * 100) as int == clamped as int * 100);
        }
        self.set_main_ratio(ratio);
    }

    /// The constraints that `split` hands to the layout solver: the parent's
    /// share, the one-cell divider, and the rest for the side panel.
    pub fn divider_constraints(&self) -> (r: Vec<Constraint>)
        requires
            self.main_ratio <= 100,
        ensures
            r@ == split_constraints(self.main_ratio),
    {
        let mut cs: Vec<Constraint> = Vec::new();
        cs.push(Constraint::Ratio(self.main_ratio as u32, 100));
        cs.push(Constraint::Length(1));
        cs.push(Constraint::Ratio((100 - self.main_ratio) as u32, 100));
        assert(cs@ =~= split_constraints(self.main_ratio));
        cs
    }

    /// Parent, divider and side areas, or `None` when the area is narrower
    /// than `MIN_SPLIT_WIDTH` or lower than 4 rows.  The layout solver cuts
    /// the area by `divider_constraints`; each part spans the area's rows
    /// and lies within its columns.
    pub fn split(&self, area: Rect) -> (r: Option<(Rect, Rect, Rect)>)
        requires
            area.width >= MIN_SPLIT_WIDTH && area.height >= 4 ==> self.main_ratio <= 100,
        ensures
            (area.width < MIN_SPLIT_WIDTH || area.height < 4) <==> r is None,
            r matches Some((main, divider, side)) ==> {
                &&& part_of(Direction::Horizontal, area, main)
                &&& part_of(Direction::Horizontal, area, divider)
                &&& part_of(Direction::Horizontal, area, side)
            },
            r matches Some((main, divider, side)) ==> exists|v: Vec<Rect>|
                {
                    &&& solver_split(
                        Direction::Horizontal,
                        split_constraints(self.main_ratio),
                        area,
                        v,
                    )
                    &&& main == v@[0]
                    &&& divider == v@[1]
                    &&& side == v@[2]
                },
    {
        if area.width < MIN_SPLIT_WIDTH || area.height < 4 {
            return None;
        }
        let cs = self.divider_constraints();
        let sl = cs.as_slice();
        let parts = split_area(Direction::Horizontal, sl, area);
        assert(solver_split(Direction::Horizontal, split_constraints(self.main_ratio), area, parts));
        assert(part_of(Direction::Horizontal, area, parts@[0]));
        assert(part_of(Direction::Horizontal, area, parts@[1]));
        assert(part_of(Direction::Horizontal, area, parts@[2]));
        Some((parts[0], parts[1], parts[2]))
    }
}

/// After a divider drag the parent share is always within `[20, 80]`.
pub proof fn law_divider_ratio_in_range(area: Rect, column: u16)
    requires
        area.width > 0,
    ensures
        20 <= clamp_int(divider_ratio(area, column) as int, 20, 80) <= 80,
        divider_ratio(area, column) <= 100,
{
    let half = area.width / 2;
    let margin = if MIN_PANEL_WIDTH + 1 < half {
        (MIN_PANEL_WIDTH + 1) as u16
    } else {
        half as u16
    };
    let lower = margin;
    let upper = if sat_sub(area.width, margin) > lower {
        sat_sub(area.width, margin)
    } else {
        lower
    };
    let relative = if sat_sub(column, area.x) < area.width {
        sat_sub(column, area.x)
    } else {
        area.width
    };
    let clamped = clamp_int(relative as int, lower as int, upper as int);
    assert(clamped <= area.width);
    assert(clamped * 100 / (area.width as int) <= 100) by (nonlinear_arith)
        requires
            0 <= clamped <= area.width,
            area.width > 0,
    ;
    assert(clamped * 100 / (area.width as int) >= 0) by (nonlinear_arith)
        requires
            0 <= clamped,
            area.width > 0,
    ;
}

/// Rectangles the previous frame rendered for the split.  Input hit-testing
/// reads these; they are never persisted.
#[derive(Debug, Clone, Copy, PartialEq, Eq, Structural)]
pub struct SidePanelFrame {
    pub main: Rect,
    pub divider: Rect,
    pub panel: Rect,
}

impl Default for SidePanelFrame {
    fn default() -> (f: Self)
        ensures
            f.main == (Rect { x: 0, y: 0, width: 0, height: 0 }),
            f.divider == (Rect { x: 0, y: 0, width: 0, height: 0 }),
            f.panel == (Rect { x: 0, y: 0, width: 0, height: 0 }),
    {
        SidePanelFrame { main: Rect::default(), divider: Rect::default(), panel: Rect::default() }
    }
}

impl SidePanelFrame {
    pub fn is_open(&self) -> (r: bool)
        ensures
            r == (self.panel.width > 0 && self.panel.height > 0),
    {
        self.panel.width > 0 && self.panel.height > 0
    }
}

/// An input target produced by the same geometry that renders the tab strip.
#[derive(Debug, Clone, PartialEq, Eq)]
pub enum SideTabHit {
    Select(String),
    Close(String),
    Create,
    Overflow,
}

/// A target covering the columns `start..end` of the tab strip.
#[derive(Debug, Clone, PartialEq, Eq)]
pub struct SideTabHitbox {
    pub start: u16,
    pub end: u16,
    pub hit: SideTabHit,
}

impl SideTabHitbox {
    pub fn contains(&self, column: u16) -> (r: bool)
        ensures
            r == (self.start <= column && column < self.end),
    {
        self.start <= column && column < self.end
    }
}

/// Width of a tab whose label has `label_len` characters: the title is cut
/// to 18 characters, 4 cells of chrome are added, and the result is at
/// least `MIN_TAB_WIDTH` (so between 8 and 22).
pub open spec fn tab_width(label_len: nat) -> u16 {
    let title = if label_len < 18 {
        label_len
    } else {
        18
    };
    if title + 4 < 8 {
        8
    } else {
        (title + 4) as u16
    }
}

/// Tabs placed from column `cursor` while they leave room for the create
/// target before `right`: the hitboxes, the final cursor, and whether a tab
/// did not fit.
pub open spec fn place_tabs(tabs: Seq<(String, String)>, cursor: u16, right: u16) -> (
    Seq<SideTabHitbox>,
    u16,
    bool,
)
    decreases tabs.len(),
{
    if tabs.len() == 0 {
        (Seq::empty(), cursor, false)
    } else {
        let id = tabs[0].0;
        let w = tab_width(tabs[0].1@.len());
        if sat_add(sat_add(cursor, w), CREATE_WIDTH) > right {
            (Seq::empty(), cursor, true)
        } else {
            let close_start = sat_add(cursor, sat_sub(w, 2));
            let end = sat_add(cursor, w);
            let rest = place_tabs(tabs.drop_first(), end, right);
            (
                seq![
                    SideTabHitbox { start: cursor, end: close_start, hit: SideTabHit::Select(id) },
                    SideTabHitbox { start: close_start, end, hit: SideTabHit::Close(id) },
                ] + rest.0,
                rest.1,
                rest.2,
            )
        }
    }
}

/// What `tab_hitboxes` computes: the tab targets left to right, an overflow
/// target when some tab did not fit and there is room for it, and the create
/// target at the right end; plus whether some tab did not fit.
pub open spec fn spec_tab_hitboxes(panel_x: u16, panel_width: u16, tabs: Seq<(String, String)>) -> (
    Seq<SideTabHitbox>,
    bool,
) {
    if panel_width < CREATE_WIDTH {
        (Seq::empty(), true)
    } else {
        let right = sat_add(panel_x, panel_width);
        let create_start = sat_sub(right, CREATE_WIDTH);
        let placed = place_tabs(tabs, panel_x, right);
        let hits = placed.0;
        let cursor = placed.1;
        let overflow = placed.2;
        let with_overflow = if overflow && sat_add(sat_add(cursor, OVERFLOW_WIDTH), CREATE_WIDTH)
            <= right {
            hits.push(
                SideTabHitbox {
                    start: cursor,
                    end: sat_add(cursor, OVERFLOW_WIDTH),
                    hit: SideTabHit::Overflow,
                },
            )
        } else {
            hits
        };
        (
            with_overflow.push(
                SideTabHitbox { start: create_start, end: right, hit: SideTabHit::Create },
            ),
            overflow,
        )
    }
}

/// Stepping over tab `i` of the remaining tabs.
proof fn lemma_place_tabs_skip(tabs: Seq<(String, String)>, i: int, cursor: u16, right: u16)
    requires
        0 <= i < tabs.len(),
    ensures
        tabs.skip(i).drop_first() == tabs.skip(i + 1),
        tabs.skip(i)[0] == tabs[i],
{
    assert(tabs.skip(i).drop_first() =~= tabs.skip(i + 1));
}

/// Allocate visible tab targets left to right without overlap.  Tabs that
/// cannot fit leave space for an overflow target instead of drawing on top
/// of adjacent tabs.
pub fn tab_hitboxes(panel_x: u16, panel_width: u16, tabs: Vec<(String, String)>) -> (r: (
    Vec<SideTabHitbox>,
    bool,
))
    ensures
        (r.0@, r.1) == spec_tab_hitboxes(panel_x, panel_width, tabs@),
{
    let mut hits: Vec<SideTabHitbox> = Vec::new();
    if panel_width < CREATE_WIDTH {
        return (hits, true);
    }
    let right = panel_x.saturating_add(panel_width);
    let create_start = right.saturating_sub(CREATE_WIDTH);
    let mut cursor = panel_x;
    let mut overflow = false;
    let mut i: usize = 0;
    assert(tabs@.skip(0) =~= tabs@);
    assert(hits@ + place_tabs(tabs@, panel_x, right).0 =~= place_tabs(tabs@, panel_x, right).0);
    while i < tabs.len() && !overflow
        invariant
            i <= tabs@.len(),
            overflow ==> place_tabs(tabs@, panel_x, right) == (hits@, cursor, true),
            !overflow ==> place_tabs(tabs@, panel_x, right) == (
                hits@ + place_tabs(tabs@.skip(i as int), cursor, right).0,
                place_tabs(tabs@.skip(i as int), cursor, right).1,
                place_tabs(tabs@.skip(i as int), cursor, right).2,
            ),
        decreases tabs@.len() - i + (if overflow { 0int } else { 1int }),
    {
        proof {
            lemma_place_tabs_skip(tabs@, i as int, cursor, right);
        }
        let id = tabs[i].0.clone();
        let label_len = chars_of(tabs[i].1.as_str()).len();
        let title_width: u16 = if label_len < 18 {
            label_len as u16
        } else {
            18
        };
        let width: u16 = if title_width + 4 < MIN_TAB_WIDTH {
            MIN_TAB_WIDTH
        } else {
            title_width + 4
        };
        assert(width == tab_width(tabs@[i as int].1@.len()));
        if cursor.saturating_add(width).saturating_add(CREATE_WIDTH) > right {
            overflow = true;
            assert(place_tabs(tabs@, panel_x, right) == (
                hits@ + Seq::<SideTabHitbox>::empty(),
                cursor,
                true,
            ));
            assert(hits@ + Seq::<SideTabHitbox>::empty() =~= hits@);
        } else {
        let close_start = cursor.saturating_add(width.saturating_sub(2));
        let end = cursor.saturating_add(width);
        let ghost before = hits@;
        let ghost rest = place_tabs(tabs@.skip(i + 1), end, right);
        hits.push(SideTabHitbox { start: cursor, end: close_start, hit: SideTabHit::Select(id.clone()) });
        hits.push(SideTabHitbox { start: close_start, end, hit: SideTabHit::Close(id) });
        assert(before + (seq![
            SideTabHitbox { start: cursor, end: close_start, hit: SideTabHit::Select(tabs@[i as int].0) },
            SideTabHitbox { start: close_start, end, hit: SideTabHit::Close(tabs@[i as int].0) },
        ] + rest.0) =~= hits@ + rest.0);
        cursor = end;
        i = i + 1;
        }
    }
    if !overflow {
        assert(tabs@.skip(i as int) =~= Seq::<(String, String)>::empty());
        assert(hits@ + Seq::<SideTabHitbox>::empty() =~= hits@);
    }
    if overflow && cursor.saturating_add(OVERFLOW_WIDTH).saturating_add(CREATE_WIDTH) <= right {
        hits.push(
            SideTabHitbox {
                start: cursor,
                end: cursor.saturating_add(OVERFLOW_WIDTH),
                hit: SideTabHit::Overflow,
            },
        );
    }
    hits.push(SideTabHitbox { start: create_start, end: right, hit: SideTabHit::Create });
    (hits, overflow)
}

/// Hitboxes are ordered left to right without overlap.
pub open spec fn hits_ordered(hits: Seq<SideTabHitbox>) -> bool {
    &&& forall|k: int| 0 <= k < hits.len() ==> (#[trigger] hits[k]).start <= hits[k].end
    &&& forall|a: int, b: int| 0 <= a < b < hits.len() ==> (#[trigger] hits[a]).end <= (
    #[trigger] hits[b]).start
}

/// Placed tabs are ordered, start at `cursor` and leave room for the
/// create target.
proof fn lemma_place_tabs_ordered(tabs: Seq<(String, String)>, cursor: u16, right: u16)
    requires
        right < u16::MAX,
        cursor <= right,
    ensures
        ({
            let p = place_tabs(tabs, cursor, right);
            &&& hits_ordered(p.0)
            &&& cursor <= p.1 <= right
            &&& forall|k: int| 0 <= k < p.0.len() ==> cursor <= (#[trigger] p.0[k]).start && p.0[k].end <= p.1
            &&& p.0.len() > 0 ==> p.1 + CREATE_WIDTH <= right
        }),
    decreases tabs.len(),
{
    if tabs.len() > 0 {
        let w = tab_width(tabs[0].1@.len());
        if sat_add(sat_add(cursor, w), CREATE_WIDTH) <= right {
            let end = sat_add(cursor, w);
            assert(end == cursor + w);
            lemma_place_tabs_ordered(tabs.drop_first(), end, right);
            let p = place_tabs(tabs, cursor, right);
            let rest = place_tabs(tabs.drop_first(), end, right);
            let head = seq![
                SideTabHitbox { start: cursor, end: sat_add(cursor, sat_sub(w, 2)), hit: SideTabHit::Select(tabs[0].0) },
                SideTabHitbox { start: sat_add(cursor, sat_sub(w, 2)), end, hit: SideTabHit::Close(tabs[0].0) },
            ];
            assert(p.0 == head + rest.0);
            assert forall|k: int| 0 <= k < p.0.len() implies cursor <= (#[trigger] p.0[k]).start
                && p.0[k].end <= p.1 && p.0[k].start <= p.0[k].end by {
                if k >= 2 {
                    assert(p.0[k] == rest.0[k - 2]);
                }
            }
            assert forall|a: int, b: int| 0 <= a < b < p.0.len() implies (#[trigger] p.0[a]).end
                <= (#[trigger] p.0[b]).start by {
                if b >= 2 {
                    assert(p.0[b] == rest.0[b - 2]);
                    if a >= 2 {
                        assert(p.0[a] == rest.0[a - 2]);
                    }
                }
            }
        }
    }
}

/// The tab strip's targets never overlap, and the last one is the create
/// target at the right edge.  (At the very edge of the `u16` coordinate
/// range saturation can stack targets, so the strip must end before
/// `u16::MAX`.)
pub proof fn law_tab_hitboxes_never_overlap(
    panel_x: u16,
    panel_width: u16,
    tabs: Seq<(String, String)>,
)
    requires
        panel_x + panel_width < u16::MAX,
    ensures
        hits_ordered(spec_tab_hitboxes(panel_x, panel_width, tabs).0),
        panel_width >= CREATE_WIDTH ==> ({
            let hits = spec_tab_hitboxes(panel_x, panel_width, tabs).0;
            &&& hits.len() > 0
            &&& hits.last().hit == SideTabHit::Create
            &&& hits.last().end == panel_x + panel_width
        }),
{
    if panel_width >= CREATE_WIDTH {
        let right = sat_add(panel_x, panel_width);
        let create_start = sat_sub(right, CREATE_WIDTH);
        lemma_place_tabs_ordered(tabs, panel_x, right);
        let p = place_tabs(tabs, panel_x, right);
        let with_overflow = if p.2 && sat_add(sat_add(p.1, OVERFLOW_WIDTH), CREATE_WIDTH) <= right {
            p.0.push(
                SideTabHitbox {
                    start: p.1,
                    end: sat_add(p.1, OVERFLOW_WIDTH),
                    hit: SideTabHit::Overflow,
                },
            )
        } else {
            p.0
        };
        assert(hits_ordered(with_overflow));
        assert(forall|k: int| 0 <= k < with_overflow.len() ==> (#[trigger] with_overflow[k]).end <= create_start);
        let all = with_overflow.push(
            SideTabHitbox { start: create_start, end: right, hit: SideTabHit::Create },
        );
        assert forall|a: int, b: int| 0 <= a < b < all.len() implies (#[trigger] all[a]).end <= (
        #[trigger] all[b]).start by {
            if b < with_overflow.len() {
                assert(all[a] == with_overflow[a]);
                assert(all[b] == with_overflow[b]);
            } else {
                assert(all[a] == with_overflow[a]);
            }
        }
        assert forall|k: int| 0 <= k < all.len() implies (#[trigger] all[k]).start <= all[k].end by {
            if k < with_overflow.len() {
                assert(all[k] == with_overflow[k]);
            }
        }
    }
}

/// How a cell of the tab strip is styled.
#[derive(Debug, Clone, Copy, PartialEq, Eq, Structural)]
pub enum TabStyle {
    /// The accent color (selected tab, create target).
    Accent,
    /// The accent color in bold (selected tab of a focused panel).
    AccentBold,
    /// The secondary text color.
    Secondary,
}

/// One painted cell of the tab strip.
#[derive(Debug, Clone, Copy, PartialEq, Eq, Structural)]
pub struct TabCell {
    pub x: u16,
    pub ch: char,
    pub style: TabStyle,
}

/// The label of tab `sid`: the first matching entry of `tabs`, else "Side".
pub open spec fn label_of(tabs: Seq<(String, String)>, sid: Seq<char>) -> Seq<char> {
    let i = first_index(tabs.map_values(|t: (String, String)| t.0@), sid);
    if i < 0 {
        "Side"@
    } else {
        tabs[i].1@
    }
}

/// The cell at column `x` showing `ch`.
pub open spec fn tab_cell(x: int, ch: char, style: TabStyle) -> TabCell {
    TabCell { x: x as u16, ch: ch, style: style }
}

/// How many characters of `text` fit between columns `start` and `end`.
pub open spec fn fitting(start: int, end: int, text: Seq<char>) -> nat {
    if end - start <= 0 {
        0
    } else if end - start < text.len() {
        (end - start) as nat
    } else {
        text.len()
    }
}

/// `text` written from column `start`, one character per cell, stopping
/// before column `end`.
pub open spec fn text_cells(start: int, end: int, text: Seq<char>, style: TabStyle) -> Seq<TabCell> {
    Seq::new(fitting(start, end, text), |i: int| tab_cell(start + i, text[i], style))
}

/// The cells that one target paints.
pub open spec fn hit_cells(
    hit: SideTabHitbox,
    tabs: Seq<(String, String)>,
    selected: Option<Seq<char>>,
    focused: bool,
    filled: Seq<char>,
    hollow: Seq<char>,
) -> Seq<TabCell> {
    match hit.hit {
        SideTabHit::Select(sid) => {
            let is_selected = selected == Some(sid@);
            let glyph = if is_selected {
                filled
            } else {
                hollow
            };
            let style = if is_selected && focused {
                TabStyle::AccentBold
            } else if is_selected {
                TabStyle::Accent
            } else {
                TabStyle::Secondary
            };
            text_cells(hit.start as int, hit.end as int, glyph + label_of(tabs, sid@), style)
        },
        SideTabHit::Close(_) => seq![TabCell { x: hit.start, ch: '×', style: TabStyle::Secondary }],
        SideTabHit::Create => seq![TabCell { x: hit.start, ch: '+', style: TabStyle::Accent }],
        SideTabHit::Overflow => seq![TabCell { x: hit.start, ch: '»', style: TabStyle::Secondary }],
    }
}

/// The cells that the targets paint, in order, up to the first target that
/// starts at or past `right`.
pub open spec fn strip_cells(
    hits: Seq<SideTabHitbox>,
    right: int,
    tabs: Seq<(String, String)>,
    selected: Option<Seq<char>>,
    focused: bool,
    filled: Seq<char>,
    hollow: Seq<char>,
) -> Seq<TabCell>
    decreases hits.len(),
{
    if hits.len() == 0 || hits[0].start >= right {
        Seq::empty()
    } else {
        hit_cells(hits[0], tabs, selected, focused, filled, hollow) + strip_cells(
            hits.drop_first(),
            right,
            tabs,
            selected,
            focused,
            filled,
            hollow,
        )
    }
}

/// The label of tab `sid` among `tabs`.
fn tab_label(tabs: &[(String, String)], sid: &str) -> (r: String)
    ensures
        r@ == label_of(tabs@, sid@),
{
    let ghost ids = tabs@.map_values(|t: (String, String)| t.0@);
    let mut i: usize = 0;
    while i < tabs.len()
        invariant
            ids == tabs@.map_values(|t: (String, String)| t.0@),
            i <= tabs@.len(),
            forall|j: int| 0 <= j < i ==> ids[j] != sid@,
        decreases tabs@.len() - i,
    {
        if str_eq(tabs[i].0.as_str(), sid) {
            proof {
                lemma_first_index_is(ids, sid@, i as int);
            }
            return tabs[i].1.clone();
        }
        i = i + 1;
    }
    proof {
        lemma_first_index_absent(ids, sid@);
    }
    let side = chars_of("Side");
    string_of(side.as_slice())
}

/// What the tab strip of `side_area` shows: for each target, in order, the
/// cells it paints (a selectable tab shows its glyph and label up to its
/// close target, the others one symbol).  Drawing stops at the first target
/// that starts past the strip.  `filled` and `hollow` are the glyphs of the
/// selected and the other tabs.
pub fn tab_bar_cells(
    side_area: Rect,
    hits: &[SideTabHitbox],
    tabs: &[(String, String)],
    selected: Option<&str>,
    focused: bool,
    filled: &str,
    hollow: &str,
) -> (r: Vec<TabCell>)
    requires
        side_area.x + side_area.width <= u16::MAX,
    ensures
        r@ == strip_cells(
            hits@,
            side_area.x + side_area.width,
            tabs@,
            match selected {
                Some(s) => Some(s@),
                None => None,
            },
            focused,
            filled@,
            hollow@,
        ),
{
    let right = side_area.x + side_area.width;
    let ghost sel = match selected {
        Some(s) => Some(s@),
        None => None,
    };
    let ghost whole = strip_cells(hits@, right as int, tabs@, sel, focused, filled@, hollow@);
    let mut out: Vec<TabCell> = Vec::new();
    let mut i: usize = 0;
    let mut stop = false;
    assert(hits@.skip(0) =~= hits@);
    assert(out@ + whole =~= whole);
    while i < hits.len() && !stop
        invariant
            i <= hits@.len(),
            whole == strip_cells(hits@, right as int, tabs@, sel, focused, filled@, hollow@),
            sel == (match selected {
                Some(s) => Some(s@),
                None => None,
            }),
            stop ==> whole == out@,
            !stop ==> whole == out@ + strip_cells(
                hits@.skip(i as int),
                right as int,
                tabs@,
                sel,
                focused,
                filled@,
                hollow@,
            ),
        decreases hits@.len() - i + (if stop { 0int } else { 1int }),
    {
        let hit = &hits[i];
        assert(hits@.skip(i as int)[0] == *hit);
        assert(hits@.skip(i as int).drop_first() =~= hits@.skip(i + 1));
        if hit.start >= right {
            stop = true;
            assert(out@ + Seq::<TabCell>::empty() =~= out@);
        } else {
            let ghost before = out@;
            let ghost cells = hit_cells(*hit, tabs@, sel, focused, filled@, hollow@);
            match &hit.hit {
                SideTabHit::Select(sid) => {
                    let is_selected = match selected {
                        Some(s) => str_eq(s, sid.as_str()),
                        None => false,
                    };
                    let mut text = if is_selected {
                        chars_of(filled)
                    } else {
                        chars_of(hollow)
                    };
                    let label = chars_of(tab_label(tabs, sid.as_str()).as_str());
                    let glyph_len = text.len();
                    let mut k: usize = 0;
                    while k < label.len()
                        invariant
                            k <= label@.len(),
                            text@.len() == glyph_len + k,
                            text@ == (if is_selected { filled@ } else { hollow@ }) + label@.take(k as int),
                        decreases label@.len() - k,
                    {
                        text.push(label[k]);
                        assert(label@.take(k + 1) =~= label@.take(k as int).push(label@[k as int]));
                        k = k + 1;
                    }
                    assert(label@.take(k as int) =~= label@);
                    let style = if is_selected && focused {
                        TabStyle::AccentBold
                    } else if is_selected {
                        TabStyle::Accent
                    } else {
                        TabStyle::Secondary
                    };
                    let mut j: usize = 0;
                    let mut x: u16 = hit.start;
                    let ghost start = hit.start as int;
                    assert(before + Seq::<TabCell>::empty() =~= before);
                    while j < text.len() && x < hit.end
                        invariant
                            j <= text@.len(),
                            start == hit.start as int,
                            x == start + j,
                            x <= hit.end || j == 0,
                            out@ == before + Seq::new(j as nat, |m: int| tab_cell(start + m, text@[m], style)),
                        decreases text@.len() - j,
                    {
                        let ghost prev = out@;
                        out.push(TabCell { x, ch: text[j], style });
                        assert(tab_cell(start + j, text@[j as int], style) == TabCell { x, ch: text@[j as int], style });
                        assert(out@ =~= before + Seq::new((j + 1) as nat, |m: int| tab_cell(start + m, text@[m], style)));
                        j = j + 1;
                        x = x + 1;
                    }
                    assert(is_selected == (sel == Some(sid@)));
                    assert(text@ == (if is_selected { filled@ } else { hollow@ }) + label_of(tabs@, sid@));
                    assert(j == fitting(hit.start as int, hit.end as int, text@));
                    assert(out@ =~= before + cells);
                },
                SideTabHit::Close(_) => {
                    out.push(TabCell { x: hit.start, ch: '×', style: TabStyle::Secondary });
                    assert(out@ =~= before + cells);
                },
                SideTabHit::Create => {
                    out.push(TabCell { x: hit.start, ch: '+', style: TabStyle::Accent });
                    assert(out@ =~= before + cells);
                },
                SideTabHit::Overflow => {
                    out.push(TabCell { x: hit.start, ch: '»', style: TabStyle::Secondary });
                    assert(out@ =~= before + cells);
                },
            }
            i = i + 1;
        }
    }
    if !stop {
        assert(hits@.skip(i as int) =~= Seq::<SideTabHitbox>::empty());
        assert(out@ + Seq::<TabCell>::empty() =~= out@);
    }
    out
}

/// Process-local side panel state.  It is deliberately never persisted.
#[derive(Debug, Clone)]
pub struct SidePanelLayout {
    /// Ordered ids of durable chats rendered as tabs in this process.
    pub open_tabs: Vec<String>,
    /// Current tab in `open_tabs`.
    pub selected_tab: Option<String>,
    /// Whether typing/scrolling targets the selected side chat.
    pub focused: bool,
    /// A main/panel divider drag is in progress.
    pub dragging: bool,
    /// Whether the panel is drawn at all.  Tabs may stay open while the panel
    /// is hidden; `show` restores it.
    pub visible: bool,
}

/// The view of an optional string.
pub open spec fn opt_view(o: Option<String>) -> Option<Seq<char>> {
    match o {
        Some(s) => Some(s@),
        None => None,
    }
}

/// The index a tab cycle moves to from the selected tab, if the selection
/// names an open tab.
pub open spec fn cycle_target(tabs: Seq<Seq<char>>, sel: Option<Seq<char>>, backwards: bool) -> Option<int> {
    match sel {
        None => None,
        Some(s) => {
            let i = first_index(tabs, s);
            if i < 0 {
                None
            } else if backwards {
                Some(if i == 0 { tabs.len() - 1 } else { i - 1 })
            } else {
                Some((i + 1) % (tabs.len() as int))
            }
        },
    }
}

/// The store holds a chat named `id` (the first one so named) that is not
/// archived.
pub open spec fn is_live_chat(store: &SideChatStore, id: Seq<char>) -> bool {
    let i = first_index(store.ids(), id);
    i >= 0 && !store.views()[i].archived
}

/// Which of `tabs` name a live chat of `store`.
pub open spec fn live_mask(tabs: Seq<Seq<char>>, store: &SideChatStore) -> Seq<bool> {
    Seq::new(tabs.len(), |i: int| is_live_chat(store, tabs[i]))
}

/// Index of the first tab named `id`, if any.
fn find_tab(tabs: &Vec<String>, id: &str) -> (r: Option<usize>)
    ensures
        match r {
            Some(i) => first_index(tabs.deep_view(), id@) == i && is_first_at(tabs.deep_view(), id@, i as int),
            None => first_index(tabs.deep_view(), id@) == -1 && !tabs.deep_view().contains(id@),
        },
{
    let ghost v = tabs.deep_view();
    let mut i: usize = 0;
    while i < tabs.len()
        invariant
            v == tabs.deep_view(),
            i <= tabs@.len(),
            forall|j: int| 0 <= j < i ==> v[j] != id@,
        decreases tabs@.len() - i,
    {
        if str_eq(tabs[i].as_str(), id) {
            proof {
                lemma_first_index_is(v, id@, i as int);
            }
            return Some(i);
        }
        i = i + 1;
    }
    proof {
        lemma_first_index_absent(v, id@);
    }
    None
}

impl Default for SidePanelLayout {
    /// The panel as it starts: no tabs, hidden.
    fn default() -> (p: Self)
        ensures
            p.tabs().len() == 0,
            p.sel() is None,
            !p.focused,
            !p.dragging,
            !p.visible,
            p.wf(),
    {
        let p = SidePanelLayout {
            open_tabs: Vec::new(),
            selected_tab: None,
            focused: false,
            dragging: false,
            visible: false,
        };
        assert(p.tabs() =~= Seq::<Seq<char>>::empty());
        p
    }
}

impl SidePanelLayout {
    /// The ids of the open tabs.
    pub open spec fn tabs(&self) -> Seq<Seq<char>> {
        self.open_tabs.deep_view()
    }

    /// The id of the selected tab.
    pub open spec fn sel(&self) -> Option<Seq<char>> {
        opt_view(self.selected_tab)
    }

    /// Consistency of the tab state: no tab is open twice, the selection is
    /// an open tab, there is a selection while tabs are open, and without
    /// tabs nothing is selected or focused.
    pub open spec fn wf(&self) -> bool {
        &&& no_duplicates(self.tabs())
        &&& (self.sel() matches Some(s) ==> self.tabs().contains(s))
        &&& (self.tabs().len() > 0 ==> self.sel() is Some)
        &&& (self.tabs().len() == 0 ==> self.sel() is None && !self.focused)
    }

    /// Whether the panel occupies a split column right now.
    pub fn is_open(&self) -> (r: bool)
        ensures
            r == (self.visible && self.tabs().len() > 0),
    {
        self.visible && !self.open_tabs.is_empty()
    }

    /// The panel collapsed with its tabs kept: not visible, not focused, no
    /// drag.
    pub open spec fn hidden(self) -> SidePanelLayout {
        SidePanelLayout { visible: false, focused: false, dragging: false, ..self }
    }

    /// The panel shown again, when it has tabs to show.
    pub open spec fn shown(self) -> SidePanelLayout {
        SidePanelLayout { visible: self.visible || self.tabs().len() > 0, ..self }
    }

    /// Collapse the panel without closing its tabs.
    pub fn hide_panel(&mut self)
        ensures
            *final(self) == old(self).hidden(),
            old(self).wf() ==> final(self).wf(),
    {
        self.visible = false;
        self.focused = false;
        self.dragging = false;
    }

    /// Show the panel again; without tabs there is nothing to show.
    pub fn show(&mut self)
        ensures
            *final(self) == old(self).shown(),
            old(self).wf() ==> final(self).wf(),
    {
        if !self.open_tabs.is_empty() {
            self.visible = true;
        }
    }

    pub fn selected_id(&self) -> (r: Option<&str>)
        ensures
            match r {
                Some(s) => self.sel() == Some(s@),
                None => self.sel() is None,
            },
    {
        match &self.selected_tab {
            Some(s) => Some(s.as_str()),
            None => None,
        }
    }

    /// Reset the process-local presentation after startup.
    pub fn clear_for_startup(&mut self)
        ensures
            final(self).tabs().len() == 0,
            final(self).sel() is None,
            !final(self).focused,
            !final(self).dragging,
            !final(self).visible,
            final(self).wf(),
    {
        self.open_tabs.clear();
        self.selected_tab = None;
        self.focused = false;
        self.dragging = false;
        self.visible = false;
        assert(self.tabs() =~= Seq::<Seq<char>>::empty());
    }

    /// Open and select one tab, keeping the order of the tabs already open;
    /// the panel becomes visible and focused.
    pub fn open(&mut self, id: String)
        ensures
            final(self).tabs() == (if old(self).tabs().contains(id@) {
                old(self).tabs()
            } else {
                old(self).tabs().push(id@)
            }),
            final(self).sel() == Some(id@),
            final(self).focused,
            final(self).visible,
            final(self).dragging == old(self).dragging,
            old(self).wf() ==> final(self).wf(),
    {
        let ghost t0 = self.tabs();
        match find_tab(&self.open_tabs, id.as_str()) {
            Some(_) => {},
            None => {
                self.open_tabs.push(id.clone());
                assert(self.tabs() =~= t0.push(id@));
                assert(self.tabs()[t0.len() as int] == id@);
            },
        }
        self.selected_tab = Some(id);
        self.focused = true;
        self.visible = true;
    }

    /// Select an open tab.  Returns whether `id` is open.
    pub fn select(&mut self, id: &str) -> (r: bool)
        ensures
            r == old(self).tabs().contains(id@),
            r ==> final(self).sel() == Some(id@) && final(self).focused,
            !r ==> final(self).selected_tab == old(self).selected_tab && final(self).focused
                == old(self).focused,
            final(self).open_tabs == old(self).open_tabs,
            final(self).visible == old(self).visible,
            final(self).dragging == old(self).dragging,
            old(self).wf() ==> final(self).wf(),
    {
        match find_tab(&self.open_tabs, id) {
            Some(_) => {
                self.selected_tab = Some(id.to_owned());
                self.focused = true;
                true
            },
            None => false,
        }
    }

    /// Close a tab and select its closest surviving neighbour: the tab that
    /// took its place, else the one before it.  Closing the last tab leaves
    /// nothing selected and collapses the panel.  Returns whether `id` was
    /// open.
    pub fn close(&mut self, id: &str) -> (r: bool)
        ensures
            ({
                let i = first_index(old(self).tabs(), id@);
                let rest = old(self).tabs().remove(i);
                &&& r == (i >= 0)
                &&& !r ==> *final(self) == *old(self)
                &&& r ==> final(self).tabs() == rest
                &&& r ==> final(self).sel() == (if rest.len() == 0 {
                    None
                } else if old(self).sel() == Some(id@) {
                    Some(if i < rest.len() { rest[i] } else { rest[i - 1] })
                } else {
                    old(self).sel()
                })
                &&& r ==> final(self).focused == (rest.len() > 0 && old(self).focused)
                &&& r ==> final(self).visible == (rest.len() > 0 && old(self).visible)
                &&& final(self).dragging == old(self).dragging
            }),
            old(self).wf() ==> final(self).wf(),
    {
        let ghost t0 = self.tabs();
        let index = match find_tab(&self.open_tabs, id) {
            None => return false,
            Some(i) => i,
        };
        self.open_tabs.remove(index);
        assert(self.tabs() =~= t0.remove(index as int));
        let was_selected = match &self.selected_tab {
            Some(s) => str_eq(s.as_str(), id),
            None => false,
        };
        if was_selected {
            if index < self.open_tabs.len() {
                self.selected_tab = Some(self.open_tabs[index].clone());
            } else if index >= 1 && index - 1 < self.open_tabs.len() {
                self.selected_tab = Some(self.open_tabs[index - 1].clone());
            } else {
                self.selected_tab = None;
            }
        }
        if self.open_tabs.is_empty() {
            self.focused = false;
            self.selected_tab = None;
            self.visible = false;
        }
        proof {
            if old(self).wf() {
                let rest = t0.remove(index as int);
                assert forall|a: int, b: int| 0 <= a < b < rest.len() implies rest[a] != rest[b] by {
                    let a0 = if a < index { a } else { a + 1 };
                    let b0 = if b < index { b } else { b + 1 };
                    assert(rest[a] == t0[a0]);
                    assert(rest[b] == t0[b0]);
                }
                if !was_selected && rest.len() > 0 {
                    let s = self.sel()->0;
                    let k = choose|k: int| 0 <= k < t0.len() && t0[k] == s;
                    assert(k != index);
                    if k < index {
                        assert(rest[k] == s);
                    } else {
                        assert(rest[k - 1] == s);
                    }
                }
                if was_selected && rest.len() > 0 {
                    if index < rest.len() {
                        assert(rest[index as int] == self.sel()->0);
                    } else {
                        assert(rest[index - 1] == self.sel()->0);
                    }
                }
            }
        }
        true
    }

    /// Cycle the selection within the side tabs (the caller handles main ↔
    /// side focus).  Returns the newly selected id; without a selection that
    /// names an open tab nothing changes.
    pub fn cycle_tab(&mut self, backwards: bool) -> (r: Option<String>)
        ensures
            match cycle_target(old(self).tabs(), old(self).sel(), backwards) {
                None => r is None && *final(self) == *old(self),
                Some(k) => {
                    &&& r == Some(old(self).open_tabs@[k])
                    &&& final(self).selected_tab == r
                    &&& final(self).focused
                    &&& final(self).open_tabs == old(self).open_tabs
                    &&& final(self).visible == old(self).visible
                    &&& final(self).dragging == old(self).dragging
                },
            },
            old(self).wf() ==> final(self).wf(),
    {
        let index = match &self.selected_tab {
            None => return None,
            Some(sel) => match find_tab(&self.open_tabs, sel.as_str()) {
                None => return None,
                Some(i) => i,
            },
        };
        let len = self.open_tabs.len();
        let next = if backwards {
            if index == 0 {
                len - 1
            } else {
                index - 1
            }
        } else {
            (index + 1) % len
        };
        let id = self.open_tabs[next].clone();
        self.selected_tab = Some(id.clone());
        self.focused = true;
        assert(self.tabs()[next as int] == self.open_tabs@[next as int]@);
        Some(id)
    }

    /// Keep only the tabs for which `keep` holds, in order.  A selection that
    /// did not survive moves to the last surviving tab; without surviving
    /// tabs nothing is focused.
    pub fn retain<F: Fn(&String) -> bool>(&mut self, keep: F)
        requires
            forall|t: &String| keep.requires((t,)),
        ensures
            exists|mask: Seq<bool>|
                {
                    &&& mask.len() == old(self).open_tabs@.len()
                    &&& forall|i: int|
                        0 <= i < mask.len() ==> keep.ensures(
                            (&old(self).open_tabs@[i],),
                            #[trigger] mask[i],
                        )
                    &&& final(self).open_tabs@ == filter_mask(old(self).open_tabs@, mask)
                    &&& final(self).tabs() == filter_mask(old(self).tabs(), mask)
                },
            final(self).sel() == (match old(self).sel() {
                Some(s) => if final(self).tabs().contains(s) {
                    Some(s)
                } else if final(self).tabs().len() == 0 {
                    None
                } else {
                    Some(final(self).tabs().last())
                },
                None => None,
            }),
            final(self).focused == (final(self).tabs().len() > 0 && old(self).focused),
            final(self).visible == old(self).visible,
            final(self).dragging == old(self).dragging,
            old(self).wf() ==> final(self).wf(),
    {
        let ghost t0 = self.open_tabs@;
        let ghost v0 = self.tabs();
        let ghost mut mask: Seq<bool> = Seq::empty();
        let mut kept: Vec<String> = Vec::new();
        let mut i: usize = 0;
        assert(t0.take(0) =~= Seq::<String>::empty());
        assert(v0.take(0) =~= Seq::<Seq<char>>::empty());
        assert(kept.deep_view() =~= Seq::<Seq<char>>::empty());
        while i < self.open_tabs.len()
            invariant
                t0 == self.open_tabs@,
                v0 == self.tabs(),
                i <= t0.len(),
                mask.len() == i,
                forall|t: &String| keep.requires((t,)),
                forall|j: int| 0 <= j < i ==> keep.ensures((&t0[j],), #[trigger] mask[j]),
                kept@ == filter_mask(t0.take(i as int), mask),
                kept.deep_view() == filter_mask(v0.take(i as int), mask),
            decreases t0.len() - i,
        {
            let b = keep(&self.open_tabs[i]);
            let ghost kv = kept.deep_view();
            if b {
                kept.push(self.open_tabs[i].clone());
                assert(kept.deep_view() =~= kv.push(v0[i as int]));
            }
            proof {
                let m0 = mask;
                mask = mask.push(b);
                assert(t0.take(i + 1).drop_last() =~= t0.take(i as int));
                assert(v0.take(i + 1).drop_last() =~= v0.take(i as int));
                assert(mask.take(i as int) =~= m0);
                assert(t0.take(i + 1).last() == t0[i as int]);
                assert(v0.take(i + 1).last() == v0[i as int]);
                assert(filter_mask(t0.take(i + 1), mask) == (if b {
                    filter_mask(t0.take(i as int), m0).push(t0[i as int])
                } else {
                    filter_mask(t0.take(i as int), m0)
                }));
                assert(filter_mask(v0.take(i + 1), mask) == (if b {
                    filter_mask(v0.take(i as int), m0).push(v0[i as int])
                } else {
                    filter_mask(v0.take(i as int), m0)
                }));
            }
            i = i + 1;
        }
        assert(t0.take(i as int) =~= t0);
        assert(v0.take(i as int) =~= v0);
        self.open_tabs = kept;
        let survives = match &self.selected_tab {
            Some(s) => find_tab(&self.open_tabs, s.as_str()).is_some(),
            None => true,
        };
        if !survives {
            let n = self.open_tabs.len();
            if n == 0 {
                self.selected_tab = None;
            } else {
                self.selected_tab = Some(self.open_tabs[n - 1].clone());
            }
        }
        if self.open_tabs.is_empty() {
            self.focused = false;
        }
        proof {
            if old(self).wf() {
                lemma_filter_mask_no_duplicates(v0, mask);
                if self.tabs().len() > 0 && self.sel() is Some {
                    let s = self.sel()->0;
                    if !survives {
                        assert(self.tabs()[self.tabs().len() - 1] == s);
                    }
                }
                if self.tabs().len() > 0 {
                    lemma_filter_mask_subset(v0, mask);
                    assert(v0.contains(self.tabs()[0]));
                }
            }
        }
    }

    /// Drop the tabs whose chat is archived or missing from `store`, so that
    /// stale presentation never outlives its conversation.  The selection
    /// follows the rule of `retain`.
    pub fn normalize(&mut self, store: &SideChatStore)
        ensures
            final(self).tabs() == filter_mask(old(self).tabs(), live_mask(old(self).tabs(), store)),
            final(self).sel() == (match old(self).sel() {
                Some(s) => if final(self).tabs().contains(s) {
                    Some(s)
                } else if final(self).tabs().len() == 0 {
                    None
                } else {
                    Some(final(self).tabs().last())
                },
                None => None,
            }),
            final(self).focused == (final(self).tabs().len() > 0 && old(self).focused),
            final(self).visible == old(self).visible,
            final(self).dragging == old(self).dragging,
            old(self).wf() ==> final(self).wf(),
    {
        let ghost tabs0 = self.tabs();
        let ghost strings0 = self.open_tabs@;
        let keep = |id: &String| -> (b: bool)
            ensures
                b == is_live_chat(store, id@),
            {
                match store.get(id.as_str()) {
                    Some(c) => !c.archived,
                    None => false,
                }
            };
        self.retain(keep);
        proof {
            let mask = choose|mask: Seq<bool>|
                {
                    &&& mask.len() == strings0.len()
                    &&& forall|i: int|
                        0 <= i < mask.len() ==> keep.ensures((&strings0[i],), #[trigger] mask[i])
                    &&& self.open_tabs@ == filter_mask(strings0, mask)
                    &&& self.tabs() == filter_mask(tabs0, mask)
                };
            assert forall|i: int| 0 <= i < mask.len() implies mask[i] == live_mask(tabs0, store)[i] by {
                assert(keep.ensures((&strings0[i],), mask[i]));
                assert(tabs0[i] == strings0[i]@);
            }
            assert(mask =~= live_mask(tabs0, store));
        }
        if self.open_tabs.is_empty() {
            self.selected_tab = None;
            self.focused = false;
        }
    }

    /// The agent behind the selected tab, when its chat is in `store` and
    /// linked to a live agent view.
    pub fn selected_agent_id(&self, store: &SideChatStore) -> (r: Option<AgentId>)
        ensures
            r == (match self.sel() {
                None => None,
                Some(s) => {
                    let i = first_index(store.ids(), s);
                    if i < 0 {
                        None
                    } else {
                        store.views()[i].agent_id
                    }
                },
            }),
    {
        let id = match self.selected_id() {
            None => return None,
            Some(id) => id,
        };
        match store.get(id) {
            Some(chat) => chat.agent_id,
            None => None,
        }
    }

    /// Move keyboard focus forward: into the panel from the main chat, then
    /// across the tabs.  Wrapping past the last tab hands focus back to the
    /// main chat.  Returns the newly selected tab (`None` when focus left the
    /// panel or stayed out of it).
    pub fn advance_focus(&mut self) -> (r: Option<String>)
        ensures
            !(old(self).visible && old(self).tabs().len() > 0) ==> r is None
                && final(self).focused == false && final(self).open_tabs == old(self).open_tabs
                && final(self).selected_tab == old(self).selected_tab,
            old(self).visible && old(self).tabs().len() > 0 && !old(self).focused ==> r
                == old(self).selected_tab && final(self).focused && final(self).selected_tab
                == old(self).selected_tab && final(self).open_tabs == old(self).open_tabs,
            old(self).visible && old(self).tabs().len() > 0 && old(self).focused ==> match cycle_target(
                old(self).tabs(),
                old(self).sel(),
                false,
            ) {
                None => r is None && *final(self) == *old(self),
                Some(k) => {
                    &&& final(self).selected_tab == Some(old(self).open_tabs@[k])
                    &&& final(self).open_tabs == old(self).open_tabs
                    &&& old(self).tabs()[k] == old(self).tabs()[0] ==> r is None
                        && !final(self).focused
                    &&& old(self).tabs()[k] != old(self).tabs()[0] ==> r == Some(
                        old(self).open_tabs@[k],
                    ) && final(self).focused
                },
            },
            final(self).visible == old(self).visible,
            final(self).dragging == old(self).dragging,
            old(self).wf() ==> final(self).wf(),
    {
        if !self.is_open() {
            self.focused = false;
            return None;
        }
        if !self.focused {
            self.focused = true;
            return match &self.selected_tab {
                Some(s) => Some(s.clone()),
                None => None,
            };
        }
        let first = self.open_tabs[0].clone();
        let next = self.cycle_tab(false);
        let wrapped = match &next {
            Some(n) => *n == first,
            None => false,
        };
        if wrapped {
            self.focused = false;
            None
        } else {
            next
        }
    }

    /// Move keyboard focus backward: from the first tab back to the main
    /// chat, otherwise across the tabs in reverse.  Returns the newly
    /// selected tab.
    pub fn retreat_focus(&mut self) -> (r: Option<String>)
        ensures
            !(old(self).visible && old(self).tabs().len() > 0) ==> r is None
                && final(self).focused == false && final(self).open_tabs == old(self).open_tabs
                && final(self).selected_tab == old(self).selected_tab,
            old(self).visible && old(self).tabs().len() > 0 && (!old(self).focused || old(
                self,
            ).sel() is None) ==> r is None && *final(self) == *old(self),
            old(self).visible && old(self).tabs().len() > 0 && old(self).focused && old(self).sel()
                == Some(old(self).tabs()[0]) ==> r is None && !final(self).focused
                && final(self).open_tabs == old(self).open_tabs && final(self).selected_tab == old(
                self,
            ).selected_tab,
            old(self).visible && old(self).tabs().len() > 0 && old(self).focused && old(self).sel() is Some
                && old(self).sel() != Some(old(self).tabs()[0]) ==> match cycle_target(
                old(self).tabs(),
                old(self).sel(),
                true,
            ) {
                None => r is None && *final(self) == *old(self),
                Some(k) => {
                    &&& r == Some(old(self).open_tabs@[k])
                    &&& final(self).selected_tab == r
                    &&& final(self).focused
                    &&& final(self).open_tabs == old(self).open_tabs
                },
            },
            final(self).visible == old(self).visible,
            final(self).dragging == old(self).dragging,
            old(self).wf() ==> final(self).wf(),
    {
        if !self.is_open() {
            self.focused = false;
            return None;
        }
        if !self.focused {
            return None;
        }
        let at_first = match &self.selected_tab {
            None => return None,
            Some(s) => *s == self.open_tabs[0],
        };
        if at_first {
            self.focused = false;
            None
        } else {
            self.cycle_tab(true)
        }
    }
}

/// Cycling forward and then backward (or backward, then forward) comes back
/// to the tab one started from.
pub proof fn law_cycle_round_trip(tabs: Seq<Seq<char>>, s: Seq<char>, backwards: bool)
    requires
        no_duplicates(tabs),
        tabs.contains(s),
    ensures
        cycle_target(tabs, Some(s), backwards) matches Some(k) && cycle_target(
            tabs,
            Some(tabs[k]),
            !backwards,
        ) == Some(first_index(tabs, s)),
{
    let j = choose|j: int| 0 <= j < tabs.len() && tabs[j] == s;
    lemma_first_index_found(tabs, s, j);
    let i = first_index(tabs, s);
    let n = tabs.len() as int;
    let k = if backwards {
        if i == 0 { n - 1 } else { i - 1 }
    } else {
        (i + 1) % n
    };
    assert(0 <= i < n);
    if i + 1 < n {
        vstd::arithmetic::div_mod::lemma_small_mod((i + 1) as nat, n as nat);
    } else {
        vstd::arithmetic::div_mod::lemma_mod_self_0(n);
    }
    if 0 <= k && k + 1 < n {
        vstd::arithmetic::div_mod::lemma_small_mod((k + 1) as nat, n as nat);
    }
    if k + 1 == n {
        vstd::arithmetic::div_mod::lemma_mod_self_0(n);
    }
    assert(0 <= k < n);
    assert(is_first_at(tabs, tabs[k], k)) by {
        assert forall|m: int| 0 <= m < k implies tabs[m] != tabs[k] by {}
    }
    lemma_first_index_is(tabs, tabs[k], k);
}

/// Hiding the panel and showing it again keeps its tabs and selection, and
/// the panel is visible again exactly when it has tabs; only the keyboard
/// focus and any drag are dropped.
pub proof fn law_show_undoes_hide(p: SidePanelLayout)
    ensures
        p.hidden().shown().open_tabs == p.open_tabs,
        p.hidden().shown().selected_tab == p.selected_tab,
        p.hidden().shown().visible == (p.tabs().len() > 0),
        !p.hidden().shown().focused,
        !p.hidden().shown().dragging,
{
}

/// Closing a tab that was just opened (and was not open before) leaves the
/// other tabs as they were, in order.
pub proof fn law_close_undoes_open(tabs: Seq<Seq<char>>, id: Seq<char>)
    requires
        !tabs.contains(id),
    ensures
        first_index(tabs.push(id), id) == tabs.len(),
        tabs.push(id).remove(first_index(tabs.push(id), id)) == tabs,
{
    let t = tabs.push(id);
    assert forall|j: int| 0 <= j < tabs.len() implies t[j] != id by {
        assert(t[j] == tabs[j]);
        assert(tabs.contains(tabs[j]));
    }
    lemma_first_index_is(t, id, tabs.len() as int);
    assert(t.remove(tabs.len() as int) =~= tabs);
}

/// After `normalize`, every remaining tab names a live (present and not
/// archived) chat of the store, and every live tab is kept.
pub proof fn law_normalize_keeps_only_live_tabs(tabs: Seq<Seq<char>>, store: &SideChatStore)
    ensures
        forall|k: int|
            0 <= k < filter_mask(tabs, live_mask(tabs, store)).len() ==> is_live_chat(
                store,
                #[trigger] filter_mask(tabs, live_mask(tabs, store))[k],
            ),
        forall|k: int|
            0 <= k < tabs.len() && is_live_chat(store, #[trigger] tabs[k]) ==> filter_mask(
                tabs,
                live_mask(tabs, store),
            ).contains(tabs[k]),
{
    let mask = live_mask(tabs, store);
    assert forall|k: int|
        0 <= k < filter_mask(tabs, mask).len() implies is_live_chat(
        store,
        #[trigger] filter_mask(tabs, mask)[k],
    ) by {
        lemma_filter_mask_from_flagged(tabs, mask, k);
        let j = choose|j: int| 0 <= j < tabs.len() && mask[j] && tabs[j] == filter_mask(tabs, mask)[k];
        assert(mask[j] == is_live_chat(store, tabs[j]));
    }
    assert forall|k: int| 0 <= k < tabs.len() && is_live_chat(store, #[trigger] tabs[k]) implies filter_mask(
        tabs,
        mask,
    ).contains(tabs[k]) by {
        lemma_filter_mask_keeps(tabs, mask, k);
    }
}

/// The strip paints inside the columns that input hit-testing uses: every
/// cell of a target lies in its columns `start..end`.
pub proof fn law_cells_inside_target(
    hit: SideTabHitbox,
    tabs: Seq<(String, String)>,
    selected: Option<Seq<char>>,
    focused: bool,
    filled: Seq<char>,
    hollow: Seq<char>,
)
    requires
        hit.hit is Select || hit.start < hit.end,
    ensures
        forall|k: int|
            0 <= k < hit_cells(hit, tabs, selected, focused, filled, hollow).len() ==> hit.start
                <= (#[trigger] hit_cells(hit, tabs, selected, focused, filled, hollow)[k]).x
                < hit.end,
{
    let cells = hit_cells(hit, tabs, selected, focused, filled, hollow);
    assert forall|k: int| 0 <= k < cells.len() implies hit.start <= (#[trigger] cells[k]).x < hit.end by {
        match hit.hit {
            SideTabHit::Select(sid) => {
                let text = (if selected == Some(sid@) { filled } else { hollow }) + label_of(tabs, sid@);
                assert(k < fitting(hit.start as int, hit.end as int, text));
                assert(cells[k].x == (hit.start + k) as u16);
            },
            _ => {},
        }
    }
}

/// The selection after `k` tab cycles in one direction from `sel`, as
/// `cycle_tab` moves it (it stays put once a cycle finds no target).
pub open spec fn cycled_selection(
    tabs: Seq<Seq<char>>,
    sel: Option<Seq<char>>,
    backwards: bool,
    k: nat,
) -> Option<Seq<char>>
    decreases k,
{
    if k == 0 {
        sel
    } else {
        let prev = cycled_selection(tabs, sel, backwards, (k - 1) as nat);
        match cycle_target(tabs, prev, backwards) {
            Some(j) => Some(tabs[j]),
            None => prev,
        }
    }
}

/// Where `k` cycles from tab `i` land: `k` tabs further on, wrapping.
proof fn lemma_cycled_selection(tabs: Seq<Seq<char>>, i: int, backwards: bool, k: nat)
    requires
        no_duplicates(tabs),
        0 <= i < tabs.len(),
    ensures
        cycled_selection(tabs, Some(tabs[i]), backwards, k) == Some(
            tabs[if backwards {
                (i - k) % (tabs.len() as int)
            } else {
                (i + k) % (tabs.len() as int)
            }],
        ),
    decreases k,
{
    let n = tabs.len() as int;
    if k == 0 {
        vstd::arithmetic::div_mod::lemma_small_mod(i as nat, n as nat);
    } else {
        let k1 = (k - 1) as nat;
        lemma_cycled_selection(tabs, i, backwards, k1);
        let m = if backwards {
            (i - k1) % n
        } else {
            (i + k1) % n
        };
        assert(0 <= m < n) by {
            vstd::arithmetic::div_mod::lemma_mod_bound(if backwards { i - k1 } else { i + k1 }, n);
        }
        assert(is_first_at(tabs, tabs[m], m)) by {
            assert forall|j: int| 0 <= j < m implies tabs[j] != tabs[m] by {}
        }
        lemma_first_index_is(tabs, tabs[m], m);
        if backwards {
            vstd::arithmetic::div_mod::lemma_add_mod_noop(i - k1, -1, n);
            vstd::arithmetic::div_mod::lemma_mod_add_multiples_vanish(-1, n);
            vstd::arithmetic::div_mod::lemma_small_mod((n - 1) as nat, n as nat);
            if m == 0 {
                vstd::arithmetic::div_mod::lemma_small_mod((n - 1) as nat, n as nat);
            } else {
                vstd::arithmetic::div_mod::lemma_mod_add_multiples_vanish(m - 1, n);
                vstd::arithmetic::div_mod::lemma_small_mod((m - 1) as nat, n as nat);
            }
            assert(i - k1 + -1 == i - k);
        } else {
            vstd::arithmetic::div_mod::lemma_add_mod_noop(i + k1, 1, n);
            if n > 1 {
                vstd::arithmetic::div_mod::lemma_small_mod(1, n as nat);
            } else {
                vstd::arithmetic::div_mod::lemma_mod_self_0(1);
            }
            assert(i + k1 + 1 == i + k);
        }
    }
}

/// Cycling through all `n` open tabs in one direction comes back to the tab
/// one started from, and only the last of those cycles lands on it.
pub proof fn law_cycle_returns_after_all_tabs(tabs: Seq<Seq<char>>, s: Seq<char>, backwards: bool)
    requires
        no_duplicates(tabs),
        tabs.contains(s),
    ensures
        cycled_selection(tabs, Some(s), backwards, tabs.len()) == Some(s),
        forall|k: nat|
            0 < k < tabs.len() ==> #[trigger] cycled_selection(tabs, Some(s), backwards, k) != Some(s),
{
    let n = tabs.len() as int;
    let i = choose|i: int| 0 <= i < n && tabs[i] == s;
    lemma_cycled_selection(tabs, i, backwards, n as nat);
    if backwards {
        vstd::arithmetic::div_mod::lemma_mod_sub_multiples_vanish(i, n);
    } else {
        vstd::arithmetic::div_mod::lemma_mod_add_multiples_vanish(i, n);
    }
    vstd::arithmetic::div_mod::lemma_small_mod(i as nat, n as nat);
    assert forall|k: nat| 0 < k < tabs.len() implies #[trigger] cycled_selection(
        tabs,
        Some(s),
        backwards,
        k,
    ) != Some(s) by {
        lemma_cycled_selection(tabs, i, backwards, k);
        let m = if backwards { (i - k) % n } else { (i + k) % n };
        if backwards {
            if k <= i {
                vstd::arithmetic::div_mod::lemma_small_mod((i - k) as nat, n as nat);
            } else {
                vstd::arithmetic::div_mod::lemma_mod_add_multiples_vanish(i - k, n);
                vstd::arithmetic::div_mod::lemma_small_mod((i - k + n) as nat, n as nat);
            }
        } else {
            if i + k < n {
                vstd::arithmetic::div_mod::lemma_small_mod((i + k) as nat, n as nat);
            } else {
                vstd::arithmetic::div_mod::lemma_mod_sub_multiples_vanish(i + k, n);
                vstd::arithmetic::div_mod::lemma_small_mod((i + k - n) as nat, n as nat);
            }
        }
        assert(m != i);
        assert(0 <= m < n);
        if tabs[m] == s {
            assert(tabs[m] == tabs[i]);
        }
    }
}

/// The split gives the parent its share: the three parts are what the
/// solver makes of the parent's `main_ratio` percent, a one-cell divider and
/// the remaining percent for the side panel, left to right.
pub proof fn law_split_gives_the_parent_its_share(
    p: SidePanelPreferences,
    area: Rect,
    main: Rect,
    divider: Rect,
    side: Rect,
)
    requires
        exists|v: Vec<Rect>|
            {
                &&& solver_split(Direction::Horizontal, split_constraints(p.main_ratio), area, v)
                &&& main == v@[0]
                &&& divider == v@[1]
                &&& side == v@[2]
            },
    ensures
        exists|v: Vec<Rect>|
            {
                &&& solver_split(
                    Direction::Horizontal,
                    seq![
                        Constraint::Ratio(p.main_ratio as u32, 100),
                        Constraint::Length(1),
                        Constraint::Ratio((100 - p.main_ratio) as u32, 100),
                    ],
                    area,
                    v,
                )
                &&& v@.len() == 3
                &&& main == v@[0]
                &&& divider == v@[1]
                &&& side == v@[2]
            },
{
    let v = choose|v: Vec<Rect>|
        {
            &&& solver_split(Direction::Horizontal, split_constraints(p.main_ratio), area, v)
            &&& main == v@[0]
            &&& divider == v@[1]
            &&& side == v@[2]
        };
    crate::geometry::lemma_solver_split_parts(
        Direction::Horizontal,
        split_constraints(p.main_ratio),
        area,
        v,
    );
}

/// How a tab target is painted: the selected tab starts with the filled
/// glyph and is never in the secondary style, whether or not the panel has
/// the keyboard; any other tab starts with the hollow glyph in the
/// secondary style; bold marks exactly the selected tab of a focused
/// panel.  Its label follows the glyph.
pub proof fn law_selected_tab_is_highlighted(
    hit: SideTabHitbox,
    tabs: Seq<(String, String)>,
    selected: Option<Seq<char>>,
    focused: bool,
    filled: Seq<char>,
    hollow: Seq<char>,
)
    requires
        hit.hit is Select,
    ensures
        ({
            let sid = hit.hit->Select_0;
            let cells = hit_cells(hit, tabs, selected, focused, filled, hollow);
            let glyph = if selected == Some(sid@) { filled } else { hollow };
            &&& selected == Some(sid@) && cells.len() > 0 && filled.len() > 0 ==> cells[0].ch
                == filled[0]
            &&& selected != Some(sid@) && cells.len() > 0 && hollow.len() > 0 ==> cells[0].ch
                == hollow[0]
            &&& forall|k: int|
                0 <= k < cells.len() ==> ((#[trigger] cells[k]).style == TabStyle::Secondary
                    <==> selected != Some(sid@))
            &&& forall|k: int|
                0 <= k < cells.len() ==> ((#[trigger] cells[k]).style == TabStyle::AccentBold
                    <==> (selected == Some(sid@) && focused))
            &&& forall|k: int|
                glyph.len() <= k < cells.len() ==> (#[trigger] cells[k]).ch == label_of(
                    tabs,
                    sid@,
                )[k - glyph.len()]
        }),
{
}

} // verus!
