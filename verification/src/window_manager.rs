//! Tiled window manager: the window list, the focused window, the split
//! ratios between windows and the tiled layout.
use vstd::prelude::*;

use crate::geometry::{
    is_split_of, lemma_solver_split_parts, part_of, solver_split, spec_rect_new, split_area,
    Constraint, Direction, Rect,
};
use crate::seqs::{first_index, is_first_at, lemma_first_index_absent, lemma_first_index_is};
use crate::side_chat::{is_prefixed_uuid, prefixed_uuid};
use crate::text::{concat_str, str_eq};

verus! {

/// Split ratio of a divider between windows.
#[derive(Debug, Clone, Copy, PartialEq, Eq, Structural)]
pub struct Split {
    /// Share of the left window, in percent.
    pub ratio: u32,
    /// Whether this divider is being dragged.
    pub dragging: bool,
}

/// `x` clamped to `[lo, hi]` (for `lo <= hi`).
pub open spec fn clamp(x: int, lo: int, hi: int) -> int {
    if x < lo {
        lo
    } else if x > hi {
        hi
    } else {
        x
    }
}

impl Default for Split {
    fn default() -> (s: Self)
        ensures
            s == (Split { ratio: 50, dragging: false }),
    {
        Split { ratio: 50, dragging: false }
    }
}

impl Split {
    /// A split with the given ratio, clamped to `[10, 90]`.
    pub fn new(ratio: u32) -> (s: Self)
        ensures
            s.ratio == clamp(ratio as int, 10, 90),
            !s.dragging,
    {
        Split { ratio: clamp_u32(ratio, 10, 90), dragging: false }
    }

    /// Constraint of the left side: `ratio / 100`.
    pub fn constraint(&self) -> (c: Constraint)
        ensures
            c == Constraint::Ratio(self.ratio, 100),
    {
        Constraint::Ratio(self.ratio, 100)
    }

    /// Constraint of the right side: `(100 - ratio) / 100`.
    pub fn complement(&self) -> (c: Constraint)
        requires
            self.ratio <= 100,
        ensures
            c == Constraint::Ratio((100 - self.ratio) as u32, 100),
    {
        Constraint::Ratio(100 - self.ratio, 100)
    }
}

/// `x` clamped to `[lo, hi]`.
fn clamp_u32(x: u32, lo: u32, hi: u32) -> (r: u32)
    requires
        lo <= hi,
    ensures
        r == clamp(x as int, lo as int, hi as int),
{
    if x < lo {
        lo
    } else if x > hi {
        hi
    } else {
        x
    }
}

/// A single tiled window.
#[derive(Debug, Clone)]
pub struct Window {
    /// Stable id.
    pub id: String,
    /// Title, e.g. an agent session id or a side-chat id.
    pub title: String,
    /// Collapsed into the sidebar rather than drawn as a tile.
    pub minimized: bool,
    /// Last known rectangle (filled during layout).
    pub rect: Rect,
}

impl Window {
    /// A window with the given id and title.
    pub fn new(id: String, title: String) -> (w: Self)
        ensures
            w == (Window { id, title, minimized: false, rect: Rect { x: 0, y: 0, width: 0, height: 0 } }),
    {
        Window { id, title, minimized: false, rect: Rect { x: 0, y: 0, width: 0, height: 0 } }
    }
}

/// Tiled window manager: the windows in order, the focused index, the
/// splits between windows and the tiling flag.
#[derive(Debug, Clone)]
pub struct WindowManager {
    /// All windows in order.
    pub windows: Vec<Window>,
    /// Index of the focused window (meaningful while there are windows).
    pub focused: usize,
    /// Splits between windows: one fewer than the windows.
    pub splits: Vec<Split>,
    /// Whether tiling is enabled; off means a single column.
    pub tiling_enabled: bool,
    /// Global minimized flag.
    pub minimized: bool,
}

/// The ids of a list of windows.
pub open spec fn window_ids(ws: Seq<Window>) -> Seq<Seq<char>> {
    ws.map_values(|w: Window| w.id@)
}

/// The windows that are not minimized, in order.
pub open spec fn visible(ws: Seq<Window>) -> Seq<Window>
    decreases ws.len(),
{
    if ws.len() == 0 {
        ws
    } else {
        let r = visible(ws.drop_last());
        if !ws.last().minimized {
            r.push(ws.last())
        } else {
            r
        }
    }
}

/// The windows that are minimized, in order.
pub open spec fn minimized_windows(ws: Seq<Window>) -> Seq<Window>
    decreases ws.len(),
{
    if ws.len() == 0 {
        ws
    } else {
        let r = minimized_windows(ws.drop_last());
        if ws.last().minimized {
            r.push(ws.last())
        } else {
            r
        }
    }
}

/// The splits after the window count became `n`: one per gap between
/// windows, new ones at the default 50%, surplus ones dropped, every ratio
/// clamped to `[10, 90]`.
pub open spec fn rebuilt_splits(splits: Seq<Split>, n: nat) -> Seq<Split> {
    if n <= 1 {
        Seq::empty()
    } else {
        let needed = (n - 1) as nat;
        let sized = if splits.len() < needed {
            splits + Seq::new((needed - splits.len()) as nat, |i: int| Split { ratio: 50, dragging: false })
        } else {
            splits.take(needed as int)
        };
        Seq::new(
            needed,
            |i: int| Split { ratio: clamp(sized[i].ratio as int, 10, 90) as u32, dragging: sized[i].dragging },
        )
    }
}

/// The focus after removing a window so that `n` remain.
pub open spec fn focus_after_remove(focused: usize, n: nat) -> usize {
    if n == 0 {
        0
    } else if focused >= n {
        (n - 1) as usize
    } else {
        focused
    }
}

/// The constraints of the tiled layout of `n` visible windows.
pub open spec fn tiled_constraints(splits: Seq<Split>, n: nat) -> Seq<Constraint> {
    if splits.len() + 1 == n && n == 2 {
        seq![
            Constraint::Ratio(splits[0].ratio, 100),
            Constraint::Ratio((100 - splits[0].ratio) as u32, 100),
        ]
    } else {
        Seq::new(n, |i: int| Constraint::Ratio(1, n as u32))
    }
}

/// `n` equal shares.
pub open spec fn equal_ratios(n: nat) -> Seq<Constraint> {
    Seq::new(n, |i: int| Constraint::Ratio(1, n as u32))
}

/// `cells` is a grid of `area`: `rows` parts of the area cut top to bottom,
/// each cut left to right into `cols` parts, listed row by row.
pub open spec fn is_grid_of(area: Rect, rows: nat, cols: nat, cells: Seq<Rect>) -> bool {
    exists|row_rects: Seq<Rect>|
        {
            &&& is_split_of(Direction::Vertical, rows, area, row_rects)
            &&& cells.len() == rows * cols
            &&& forall|k: int|
                0 <= k < cells.len() ==> part_of(
                    Direction::Horizontal,
                    row_rects[k / (cols as int)],
                    #[trigger] cells[k],
                )
        }
}

/// `block` is what the solver makes of `row` cut into `cols` equal columns.
pub open spec fn row_solved(row: Rect, cols: nat, block: Seq<Rect>) -> bool {
    exists|v: Vec<Rect>| solver_split(Direction::Horizontal, equal_ratios(cols), row, v) && v@ == block
}

/// `cells` is what the solver makes of `area` cut into `rows` equal rows,
/// each then cut into `cols` equal columns, listed row by row.
pub open spec fn grid_solved(area: Rect, rows: nat, cols: nat, cells: Seq<Rect>) -> bool {
    exists|row_vec: Vec<Rect>|
        {
            &&& solver_split(Direction::Vertical, equal_ratios(rows), area, row_vec)
            &&& row_vec@.len() == rows
            &&& cells.len() == rows * cols
            &&& forall|i: int|
                0 <= i < rows ==> row_solved(
                    #[trigger] row_vec@[i],
                    cols,
                    cells.subrange(i * cols, i * cols + cols),
                )
        }
}

/// The first divider (between rectangle `i` and `i + 1`, from `i` on) that
/// column `x` hits: `x` is on its right edge or one column before it.
pub open spec fn divider_hit(rects: Seq<Rect>, x: u16, i: int) -> Option<usize>
    decreases rects.len() - i,
{
    if i < 0 || i + 1 >= rects.len() {
        None
    } else {
        let div = rects[i].x + rects[i].width;
        if x == div || x + 1 == div {
            Some(i as usize)
        } else {
            divider_hit(rects, x, i + 1)
        }
    }
}

/// A tile to draw: its rectangle, its title and whether it has focus.
#[derive(Debug, Clone, PartialEq, Eq)]
pub struct TileBox {
    pub rect: Rect,
    pub title: String,
    pub focused: bool,
}

/// A minimized window drawn as a pill at column `x`.
#[derive(Debug, Clone, PartialEq, Eq)]
pub struct Pill {
    pub x: u16,
    pub label: String,
}

/// The tiles for `ws` laid into `rects` (window `i` into rectangle `i`),
/// skipping rectangles smaller than 3×3.  A window without a title shows its
/// id.
pub open spec fn tile_boxes(
    ws: Seq<Window>,
    rects: Seq<Rect>,
    focused_id: Option<Seq<char>>,
) -> Seq<(Rect, Seq<char>, bool)>
    decreases ws.len(),
{
    if ws.len() == 0 || rects.len() == 0 {
        Seq::empty()
    } else {
        let rest = tile_boxes(ws.drop_first(), rects.drop_first(), focused_id);
        let w = ws[0];
        let r = rects[0];
        if r.width < 3 || r.height < 3 {
            rest
        } else {
            seq![
                (r, if w.title@.len() == 0 {
                    w.id@
                } else {
                    w.title@
                }, focused_id == Some(w.id@)),
            ] + rest
        }
    }
}

/// The label of a minimized window's pill.
pub open spec fn pill_label(title: Seq<char>) -> Seq<char> {
    "[ "@ + title + " ]"@
}

/// Width of a pill in cells as the strip counts it: the byte length of its
/// label, cut to 16 bits.
pub open spec fn pill_width(label: Seq<char>) -> int {
    ((vstd::utf8::encode_utf8(label).len() as usize) as int) % 65536
}

/// Pills for `ws` placed from column `x` while they fit before `right`, one
/// column apart.
pub open spec fn place_pills(ws: Seq<Window>, x: int, right: int) -> Seq<(int, Seq<char>)>
    decreases ws.len(),
{
    if ws.len() == 0 {
        Seq::empty()
    } else {
        let label = pill_label(ws[0].title@);
        let w = pill_width(label);
        if x + w > right {
            Seq::empty()
        } else {
            seq![(x, label)] + place_pills(ws.drop_first(), x + w + 1, right)
        }
    }
}

impl Default for WindowManager {
    fn default() -> (wm: Self)
        ensures
            wm.windows@.len() == 0,
            wm.focused == 0,
            wm.splits@.len() == 0,
            !wm.tiling_enabled,
            !wm.minimized,
    {
        WindowManager {
            windows: Vec::new(),
            focused: 0,
            splits: Vec::new(),
            tiling_enabled: false,
            minimized: false,
        }
    }
}

impl WindowManager {
    /// Consistency of the manager: one split per gap between windows, every
    /// ratio in `[10, 90]`, and the focus on an existing window (0 when
    /// there is none).
    pub open spec fn wf(&self) -> bool {
        &&& self.splits@.len() == (if self.windows@.len() <= 1 {
            0
        } else {
            self.windows@.len() - 1
        })
        &&& forall|i: int| 0 <= i < self.splits@.len() ==> 10 <= #[trigger] self.splits@[i].ratio <= 90
        &&& self.windows@.len() > 0 ==> self.focused < self.windows@.len()
        &&& self.windows@.len() == 0 ==> self.focused == 0
    }

    /// `r` is the tiled layout of `area`: the whole area while tiling is off
    /// or at most one window is visible, else what the layout solver gives
    /// for the visible windows cut left to right by `tiled_constraints`.
    pub open spec fn is_tiled_layout(&self, area: Rect, r: Vec<Rect>) -> bool {
        let n = visible(self.windows@).len();
        &&& !(self.tiling_enabled && n > 1) ==> r@ == seq![area]
        &&& self.tiling_enabled && n > 1 ==> solver_split(
            Direction::Horizontal,
            tiled_constraints(self.splits@, n),
            area,
            r,
        )
    }

    /// An empty manager with tiling off.
    pub fn new() -> (wm: Self)
        ensures
            wm.windows@.len() == 0,
            wm.focused == 0,
            wm.splits@.len() == 0,
            !wm.tiling_enabled,
            !wm.minimized,
            wm.wf(),
    {
        WindowManager::default()
    }

    /// The same manager with tiling switched on or off.
    pub fn with_tiling(self, enabled: bool) -> (wm: Self)
        ensures
            wm == (WindowManager { tiling_enabled: enabled, ..self }),
    {
        let mut wm = self;
        wm.tiling_enabled = enabled;
        wm
    }

    /// Number of windows that are not minimized.
    fn visible_count(&self) -> (n: usize)
        ensures
            n == visible(self.windows@).len(),
    {
        let mut n: usize = 0;
        let mut i: usize = 0;
        while i < self.windows.len()
            invariant
                i <= self.windows@.len(),
                n == visible(self.windows@.take(i as int)).len(),
                n <= i,
            decreases self.windows@.len() - i,
        {
            assert(self.windows@.take(i + 1).drop_last() =~= self.windows@.take(i as int));
            if !self.windows[i].minimized {
                n = n + 1;
            }
            i = i + 1;
        }
        assert(self.windows@.take(i as int) =~= self.windows@);
        n
    }

    /// Whether tiling is on and more than one window is visible.
    pub fn is_tiled(&self) -> (r: bool)
        ensures
            r == (self.tiling_enabled && visible(self.windows@).len() > 1),
    {
        self.tiling_enabled && self.visible_count() > 1
    }

    /// The windows that are not minimized.
    pub fn visible_windows(&self) -> (r: Vec<&Window>)
        ensures
            r@.map_values(|w: &Window| *w) == visible(self.windows@),
    {
        let mut r: Vec<&Window> = Vec::new();
        let mut i: usize = 0;
        while i < self.windows.len()
            invariant
                i <= self.windows@.len(),
                r@.map_values(|w: &Window| *w) == visible(self.windows@.take(i as int)),
            decreases self.windows@.len() - i,
        {
            assert(self.windows@.take(i + 1).drop_last() =~= self.windows@.take(i as int));
            let ghost before = r@;
            if !self.windows[i].minimized {
                r.push(&self.windows[i]);
                assert(r@.map_values(|w: &Window| *w) =~= before.map_values(|w: &Window| *w).push(
                    self.windows@[i as int],
                ));
            }
            i = i + 1;
        }
        assert(self.windows@.take(i as int) =~= self.windows@);
        r
    }

    /// Index of the first window named `id`.
    fn find(&self, id: &str) -> (r: Option<usize>)
        ensures
            match r {
                Some(i) => first_index(window_ids(self.windows@), id@) == i && is_first_at(
                    window_ids(self.windows@),
                    id@,
                    i as int,
                ),
                None => first_index(window_ids(self.windows@), id@) == -1,
            },
    {
        let ghost v = window_ids(self.windows@);
        let mut i: usize = 0;
        while i < self.windows.len()
            invariant
                v == window_ids(self.windows@),
                i <= self.windows@.len(),
                forall|j: int| 0 <= j < i ==> v[j] != id@,
            decreases self.windows@.len() - i,
        {
            if str_eq(self.windows[i].id.as_str(), id) {
                proof {
                    lemma_first_index_is(v, id@, i as int);
                }
                return Some(i);
            }
            i = i + 1;
        }
        proof {
            lemma_first_index_absent(v, id@);
        }
        None
    }

    /// Make the splits match the window count (see `rebuilt_splits`).
    fn rebuild_splits(&mut self)
        ensures
            final(self).splits@ == rebuilt_splits(old(self).splits@, old(self).windows@.len()),
            final(self).windows == old(self).windows,
            final(self).focused == old(self).focused,
            final(self).tiling_enabled == old(self).tiling_enabled,
            final(self).minimized == old(self).minimized,
    {
        let n = self.windows.len();
        if n <= 1 {
            self.splits.clear();
            assert(self.splits@ =~= rebuilt_splits(old(self).splits@, n as nat));
            return;
        }
        let needed = n - 1;
        let ghost s0 = self.splits@;
        if self.splits.len() < needed {
            while self.splits.len() < needed
                invariant
                    s0.len() < needed,
                    self.splits@.len() <= needed,
                    self.splits@.len() >= s0.len(),
                    self.splits@ =~= s0 + Seq::new(
                        (self.splits@.len() - s0.len()) as nat,
                        |i: int| Split { ratio: 50, dragging: false },
                    ),
                    self.windows == old(self).windows,
                    self.focused == old(self).focused,
                    self.tiling_enabled == old(self).tiling_enabled,
                    self.minimized == old(self).minimized,
                decreases needed - self.splits@.len(),
            {
                self.splits.push(Split { ratio: 50, dragging: false });
            }
        } else if self.splits.len() > needed {
            self.splits.truncate(needed);
        }
        let ghost sized = self.splits@;
        assert(sized =~= (if s0.len() < needed {
            s0 + Seq::new((needed - s0.len()) as nat, |i: int| Split { ratio: 50, dragging: false })
        } else {
            s0.take(needed as int)
        }));
        let mut i: usize = 0;
        while i < self.splits.len()
            invariant
                self.splits@.len() == needed,
                sized.len() == needed,
                i <= needed,
                forall|j: int|
                    0 <= j < i ==> #[trigger] self.splits@[j] == (Split {
                        ratio: clamp(sized[j].ratio as int, 10, 90) as u32,
                        dragging: sized[j].dragging,
                    }),
                forall|j: int| i <= j < needed ==> #[trigger] self.splits@[j] == sized[j],
                self.windows == old(self).windows,
                self.focused == old(self).focused,
                self.tiling_enabled == old(self).tiling_enabled,
                self.minimized == old(self).minimized,
            decreases needed - i,
        {
            let s = self.splits[i];
            self.splits.set(i, Split { ratio: clamp_u32(s.ratio, 10, 90), dragging: s.dragging });
            i = i + 1;
        }
        assert(self.splits@ =~= rebuilt_splits(s0, n as nat));
    }

    /// Add a window with a fresh id `win-<uuid>`, focus it and rebuild the
    /// splits.  Returns the id.
    pub fn add_window(&mut self, title: String) -> (id: String)
        ensures
            is_prefixed_uuid(id@, "win-"@),
            final(self).windows@ == old(self).windows@.push(Window::new_spec(id, title)),
            final(self).focused == old(self).windows@.len(),
            final(self).splits@ == rebuilt_splits(old(self).splits@, old(self).windows@.len() + 1),
            final(self).tiling_enabled == old(self).tiling_enabled,
            final(self).minimized == old(self).minimized,
            old(self).wf() ==> final(self).wf(),
    {
        let id = prefixed_uuid("win-");
        let win = Window::new(id.clone(), title);
        self.windows.push(win);
        self.focused = self.windows.len() - 1;
        self.rebuild_splits();
        id
    }

    /// Remove the first window named `id`, keep the focus on an existing
    /// window and rebuild the splits.  Returns whether it was there.
    pub fn remove_window(&mut self, id: &str) -> (r: bool)
        ensures
            ({
                let i = first_index(window_ids(old(self).windows@), id@);
                let rest = old(self).windows@.remove(i);
                &&& r == (i >= 0)
                &&& r ==> final(self).windows@ == rest && final(self).focused == focus_after_remove(
                    old(self).focused,
                    rest.len(),
                ) && final(self).splits@ == rebuilt_splits(old(self).splits@, rest.len())
                &&& !r ==> *final(self) == *old(self)
                &&& final(self).tiling_enabled == old(self).tiling_enabled
                &&& final(self).minimized == old(self).minimized
            }),
            old(self).wf() ==> final(self).wf(),
    {
        match self.find(id) {
            None => false,
            Some(idx) => {
                self.windows.remove(idx);
                let n = self.windows.len();
                if self.focused >= n && n > 0 {
                    self.focused = n - 1;
                } else if n == 0 {
                    self.focused = 0;
                }
                self.rebuild_splits();
                true
            },
        }
    }

    /// Focus the first window named `id`.  Returns whether it was there.
    pub fn focus(&mut self, id: &str) -> (r: bool)
        ensures
            ({
                let i = first_index(window_ids(old(self).windows@), id@);
                &&& r == (i >= 0)
                &&& r ==> final(self).focused == i
                &&& !r ==> final(self).focused == old(self).focused
                &&& final(self).windows == old(self).windows
                &&& final(self).splits == old(self).splits
                &&& final(self).tiling_enabled == old(self).tiling_enabled
                &&& final(self).minimized == old(self).minimized
            }),
            old(self).wf() ==> final(self).wf(),
    {
        match self.find(id) {
            None => false,
            Some(idx) => {
                self.focused = idx;
                true
            },
        }
    }

    /// The focused window, if the focus names one.
    pub fn focused_window(&self) -> (r: Option<&Window>)
        ensures
            self.focused < self.windows@.len() ==> r == Some(&self.windows@[self.focused as int]),
            self.focused >= self.windows@.len() ==> r is None,
    {
        if self.focused < self.windows.len() {
            Some(&self.windows[self.focused])
        } else {
            None
        }
    }

    /// Move the focus to the next window, wrapping after the last one.
    pub fn cycle_focus(&mut self)
        requires
            old(self).windows@.len() > 0 ==> old(self).focused < usize::MAX,
        ensures
            old(self).windows@.len() == 0 ==> *final(self) == *old(self),
            old(self).windows@.len() > 0 ==> final(self).focused == (old(self).focused + 1) % (old(
                self,
            ).windows@.len() as int),
            final(self).windows == old(self).windows,
            final(self).splits == old(self).splits,
            final(self).tiling_enabled == old(self).tiling_enabled,
            final(self).minimized == old(self).minimized,
            old(self).wf() ==> final(self).wf(),
    {
        if self.windows.is_empty() {
            return;
        }
        self.focused = (self.focused + 1) % self.windows.len();
    }

    /// Grow (positive `delta`) or shrink the split next to the focused
    /// window, keeping the ratio in `[10, 90]`.  The split is the one at the
    /// focus index, or the last one when the focus is further right.
    pub fn resize_focused(&mut self, delta: i32)
        requires
            old(self).splits@.len() > 0 ==> {
                let idx = if (old(self).focused as int) < old(self).splits@.len() - 1 {
                    old(self).focused as int
                } else {
                    old(self).splits@.len() - 1
                };
                i32::MIN <= (old(self).splits@[idx].ratio as i32) + delta <= i32::MAX
            },
        ensures
            old(self).splits@.len() == 0 ==> *final(self) == *old(self),
            old(self).splits@.len() > 0 ==> {
                let idx = if (old(self).focused as int) < old(self).splits@.len() - 1 {
                    old(self).focused as int
                } else {
                    old(self).splits@.len() - 1
                };
                final(self).splits@ == old(self).splits@.update(
                    idx,
                    Split {
                        ratio: clamp((old(self).splits@[idx].ratio as i32) + delta, 10, 90) as u32,
                        ..old(self).splits@[idx]
                    },
                )
            },
            final(self).windows == old(self).windows,
            final(self).focused == old(self).focused,
            final(self).tiling_enabled == old(self).tiling_enabled,
            final(self).minimized == old(self).minimized,
            old(self).wf() ==> final(self).wf(),
    {
        if self.splits.is_empty() {
            return;
        }
        let last = self.splits.len() - 1;
        let idx = if self.focused < last {
            self.focused
        } else {
            last
        };
        let split = self.splits[idx];
        let moved = split.ratio as i32 + delta;
        let new_ratio = if moved < 10 {
            10
        } else if moved > 90 {
            90
        } else {
            moved
        } as u32;
        self.splits.set(idx, Split { ratio: new_ratio, ..split });
    }

    /// Set the first split from a drag to `ratio` percent (clamped to
    /// `[10, 90]`) and mark it as dragging.  Nothing happens without splits
    /// or in a zero-width area.
    pub fn drag_first_split(&mut self, area: Rect, ratio: i32)
        ensures
            old(self).splits@.len() == 0 || area.width == 0 ==> *final(self) == *old(self),
            old(self).splits@.len() > 0 && area.width > 0 ==> final(self).splits@ == old(
                self,
            ).splits@.update(0, Split { ratio: clamp(ratio as int, 10, 90) as u32, dragging: true }),
            final(self).windows == old(self).windows,
            final(self).focused == old(self).focused,
            final(self).tiling_enabled == old(self).tiling_enabled,
            final(self).minimized == old(self).minimized,
            old(self).wf() ==> final(self).wf(),
    {
        if self.splits.is_empty() || area.width == 0 {
            return;
        }
        let r = if ratio < 10 {
            10
        } else if ratio > 90 {
            90
        } else {
            ratio
        } as u32;
        self.splits.set(0, Split { ratio: r, dragging: true });
    }

    /// End any drag.
    pub fn end_drag(&mut self)
        ensures
            final(self).splits@.len() == old(self).splits@.len(),
            forall|i: int|
                0 <= i < old(self).splits@.len() ==> #[trigger] final(self).splits@[i] == (Split {
                    dragging: false,
                    ..old(self).splits@[i]
                }),
            final(self).windows == old(self).windows,
            final(self).focused == old(self).focused,
            final(self).tiling_enabled == old(self).tiling_enabled,
            final(self).minimized == old(self).minimized,
            old(self).wf() ==> final(self).wf(),
    {
        let mut i: usize = 0;
        while i < self.splits.len()
            invariant
                self.splits@.len() == old(self).splits@.len(),
                i <= self.splits@.len(),
                forall|j: int|
                    0 <= j < i ==> #[trigger] self.splits@[j] == (Split {
                        dragging: false,
                        ..old(self).splits@[j]
                    }),
                forall|j: int| i <= j < self.splits@.len() ==> #[trigger] self.splits@[j] == old(self).splits@[j],
                self.windows == old(self).windows,
                self.focused == old(self).focused,
                self.tiling_enabled == old(self).tiling_enabled,
                self.minimized == old(self).minimized,
            decreases self.splits@.len() - i,
        {
            let s = self.splits[i];
            self.splits.set(i, Split { dragging: false, ..s });
            i = i + 1;
        }
    }

    /// The constraints that the tiled layout hands to the layout solver:
    /// the stored ratio and its complement for two windows with one split,
    /// equal shares otherwise.
    pub fn tiled_constraint_list(&self) -> (r: Vec<Constraint>)
        requires
            visible(self.windows@).len() == 2 && self.splits@.len() == 1 ==> self.splits@[0].ratio
                <= 100,
        ensures
            r@ == tiled_constraints(self.splits@, visible(self.windows@).len()),
    {
        let n = self.visible_count();
        let mut cs: Vec<Constraint> = Vec::new();
        if n == 2 && self.splits.len() == 1 {
            let r = self.splits[0].ratio;
            cs.push(Constraint::Ratio(r, 100));
            cs.push(Constraint::Ratio(100 - r, 100));
        } else {
            cs = equal_shares(n);
        }
        assert(cs@ =~= tiled_constraints(self.splits@, n as nat));
        cs
    }

    /// The tiled layout of the visible windows in `area`: the whole area
    /// while tiling is off or at most one window is visible, else one
    /// rectangle per visible window, cut left to right by
    /// `tiled_constraint_list`, each spanning the area's rows and lying
    /// within its columns.
    pub fn compute_tiled_layout(&self, area: Rect) -> (r: Vec<Rect>)
        requires
            self.tiling_enabled && visible(self.windows@).len() == 2 && self.splits@.len() == 1
                ==> self.splits@[0].ratio <= 100,
        ensures
            !self.tiling_enabled || visible(self.windows@).len() <= 1 ==> r@ == seq![area],
            self.tiling_enabled && visible(self.windows@).len() > 1 ==> is_split_of(
                Direction::Horizontal,
                visible(self.windows@).len(),
                area,
                r@,
            ),
            self.is_tiled_layout(area, r),
    {
        let n = self.visible_count();
        if !self.tiling_enabled || n <= 1 {
            let mut v: Vec<Rect> = Vec::new();
            v.push(area);
            assert(v@ =~= seq![area]);
            return v;
        }
        let cs = self.tiled_constraint_list();
        let sl = cs.as_slice();
        let r = split_area(Direction::Horizontal, sl, area);
        assert(solver_split(
            Direction::Horizontal,
            tiled_constraints(self.splits@, visible(self.windows@).len()),
            area,
            r,
        ));
        r
    }

    /// A grid layout: `rows` equal rows, each cut into `cols` equal columns,
    /// row by row.  With no rows or no columns, the whole area.
    pub fn compute_nested_layout(&self, area: Rect, rows: usize, cols: usize) -> (r: Vec<Rect>)
        ensures
            rows == 0 || cols == 0 ==> r@ == seq![area],
            rows > 0 && cols > 0 ==> is_grid_of(area, rows as nat, cols as nat, r@),
            rows > 0 && cols > 0 ==> grid_solved(area, rows as nat, cols as nat, r@),
    {
        if rows == 0 || cols == 0 {
            let mut v: Vec<Rect> = Vec::new();
            v.push(area);
            assert(v@ =~= seq![area]);
            return v;
        }
        let row_cs = equal_shares(rows);
        let row_sl = row_cs.as_slice();
        let row_rects = split_area(Direction::Vertical, row_sl, area);
        assert(solver_split(Direction::Vertical, equal_ratios(rows as nat), area, row_rects));
        let col_cs = equal_shares(cols);
        let mut out: Vec<Rect> = Vec::new();
        let mut i: usize = 0;
        while i < row_rects.len()
            invariant
                i <= row_rects@.len(),
                row_rects@.len() == rows,
                cols > 0,
                col_cs@.len() == cols,
                out@.len() == i * cols,
                col_cs@ == equal_ratios(cols as nat),
                forall|k: int|
                    0 <= k < out@.len() ==> part_of(
                        Direction::Horizontal,
                        row_rects@[k / (cols as int)],
                        #[trigger] out@[k],
                    ),
                forall|i2: int|
                    0 <= i2 < i ==> row_solved(
                        #[trigger] row_rects@[i2],
                        cols as nat,
                        out@.subrange(i2 * cols, i2 * cols + cols),
                    ),
            decreases row_rects@.len() - i,
        {
            let col_sl = col_cs.as_slice();
            let cells = split_area(Direction::Horizontal, col_sl, row_rects[i]);
            assert(solver_split(Direction::Horizontal, equal_ratios(cols as nat), row_rects@[i as int], cells));
            let mut j: usize = 0;
            let ghost before = out@;
            while j < cells.len()
                invariant
                    j <= cells@.len(),
                    cells@.len() == cols,
                    cols > 0,
                    i < row_rects@.len(),
                    forall|m: int| 0 <= m < cells@.len() ==> part_of(
                        Direction::Horizontal,
                        row_rects@[i as int],
                        #[trigger] cells@[m],
                    ),
                    before.len() == i * cols,
                    out@ == before + cells@.take(j as int),
                    forall|k: int|
                        0 <= k < before.len() ==> part_of(
                            Direction::Horizontal,
                            row_rects@[k / (cols as int)],
                            #[trigger] before[k],
                        ),
                decreases cells@.len() - j,
            {
                out.push(cells[j]);
                assert(cells@.take(j + 1) =~= cells@.take(j as int).push(cells@[j as int]));
                j = j + 1;
            }
            assert(cells@.take(j as int) =~= cells@);
            assert forall|k: int| 0 <= k < out@.len() implies part_of(
                Direction::Horizontal,
                row_rects@[k / (cols as int)],
                #[trigger] out@[k],
            ) by {
                if k >= before.len() {
                    let m = k - before.len();
                    assert(out@[k] == cells@[m]);
                    assert(k == i * cols + m);
                    vstd::arithmetic::div_mod::lemma_fundamental_div_mod_converse(
                        k,
                        cols as int,
                        i as int,
                        m,
                    );
                } else {
                    assert(out@[k] == before[k]);
                }
            }
            assert((i + 1) * cols == i * cols + cols) by (nonlinear_arith);
            assert forall|i2: int| 0 <= i2 < i + 1 implies row_solved(
                #[trigger] row_rects@[i2],
                cols as nat,
                out@.subrange(i2 * cols, i2 * cols + cols),
            ) by {
                if i2 < i {
                    vstd::arithmetic::mul::lemma_mul_inequality(i2 + 1, i as int, cols as int);
                    assert((i2 + 1) * cols == i2 * cols + cols) by (nonlinear_arith);
                    assert(0 <= i2 * cols) by (nonlinear_arith)
                        requires
                            0 <= i2,
                            cols > 0,
                    ;
                    assert(out@.subrange(i2 * cols, i2 * cols + cols) =~= before.subrange(
                        i2 * cols,
                        i2 * cols + cols,
                    ));
                } else {
                    assert(out@.subrange(i2 * cols, i2 * cols + cols) =~= cells@);
                }
            }
            i = i + 1;
        }
        assert(is_split_of(Direction::Vertical, rows as nat, area, row_rects@));
        assert(is_grid_of(area, rows as nat, cols as nat, out@));
        assert(grid_solved(area, rows as nat, cols as nat, out@));
        out
    }

    /// Whether any window is minimized.
    pub fn has_minimized(&self) -> (r: bool)
        ensures
            r == exists|i: int| 0 <= i < self.windows@.len() && #[trigger] self.windows@[i].minimized,
    {
        let mut i: usize = 0;
        while i < self.windows.len()
            invariant
                i <= self.windows@.len(),
                forall|j: int| 0 <= j < i ==> !#[trigger] self.windows@[j].minimized,
            decreases self.windows@.len() - i,
        {
            if self.windows[i].minimized {
                return true;
            }
            i = i + 1;
        }
        false
    }

    /// The divider that column `x` hits in the tiled layout of `area` (the
    /// right edge of one of its rectangles but the last, or the column
    /// before it), if tiling is active.
    pub fn hit_test_split(&self, area: Rect, x: u16) -> (r: Option<usize>)
        requires
            self.tiling_enabled && visible(self.windows@).len() == 2 && self.splits@.len() == 1
                ==> self.splits@[0].ratio <= 100,
        ensures
            !(self.tiling_enabled && visible(self.windows@).len() > 1) ==> r is None,
            self.tiling_enabled && visible(self.windows@).len() > 1 ==> exists|rects: Seq<Rect>|
                {
                    &&& is_split_of(Direction::Horizontal, visible(self.windows@).len(), area, rects)
                    &&& r == divider_hit(rects, x, 0)
                },
            self.tiling_enabled && visible(self.windows@).len() > 1 ==> exists|v: Vec<Rect>|
                self.is_tiled_layout(area, v) && r == divider_hit(v@, x, 0),
    {
        if !self.is_tiled() {
            return None;
        }
        let rects = self.compute_tiled_layout(area);
        let r = divider_at(rects.as_slice(), x);
        assert(self.is_tiled_layout(area, rects) && r == divider_hit(rects@, x, 0));
        assert(is_split_of(Direction::Horizontal, visible(self.windows@).len(), area, rects@));
        r
    }
}

/// The first divider of `rects` that column `x` hits: the right edge of a
/// rectangle other than the last, or the column before it.
pub fn divider_at(rects: &[Rect], x: u16) -> (r: Option<usize>)
    ensures
        r == divider_hit(rects@, x, 0),
{
    let mut i: usize = 0;
    while i < rects.len()
        invariant
            i <= rects@.len(),
            divider_hit(rects@, x, 0) == divider_hit(rects@, x, i as int),
        decreases rects@.len() - i,
    {
        if i + 1 < rects.len() {
            let div = rects[i].x as u32 + rects[i].width as u32;
            if x as u32 == div || x as u32 + 1 == div {
                assert(divider_hit(rects@, x, i as int) == Some(i));
                return Some(i);
            }
        }
        i = i + 1;
    }
    None
}

impl WindowManager {
    /// The tiles to draw for the visible windows in `area`, in window order:
    /// nothing unless tiling is active, else the tiles that `tiles_in` lays
    /// into the tiled layout of `area`; every tile spans the area's rows
    /// and lies within its columns.  The window named `focused_id` is
    /// marked focused.
    pub fn tiled_boxes(&self, area: Rect, focused_id: Option<&str>) -> (r: Vec<TileBox>)
        requires
            self.tiling_enabled && visible(self.windows@).len() == 2 && self.splits@.len() == 1
                ==> self.splits@[0].ratio <= 100,
        ensures
            !(self.tiling_enabled && visible(self.windows@).len() > 1) ==> r@.len() == 0,
            self.tiling_enabled && visible(self.windows@).len() > 1 ==> exists|rects: Seq<Rect>|
                {
                    &&& is_split_of(Direction::Horizontal, visible(self.windows@).len(), area, rects)
                    &&& r@.map_values(|b: TileBox| (b.rect, b.title@, b.focused)) == tile_boxes(
                        visible(self.windows@),
                        rects,
                        match focused_id {
                            Some(f) => Some(f@),
                            None => None,
                        },
                    )
                },
            self.tiling_enabled && visible(self.windows@).len() > 1 ==> exists|v: Vec<Rect>|
                {
                    &&& self.is_tiled_layout(area, v)
                    &&& r@.map_values(|b: TileBox| (b.rect, b.title@, b.focused)) == tile_boxes(
                        visible(self.windows@),
                        v@,
                        match focused_id {
                            Some(f) => Some(f@),
                            None => None,
                        },
                    )
                },
            forall|k: int|
                0 <= k < r@.len() ==> part_of(Direction::Horizontal, area, (#[trigger] r@[k]).rect),
    {
        if !self.is_tiled() {
            return Vec::new();
        }
        let rects = self.compute_tiled_layout(area);
        let r = self.tiles_in(rects.as_slice(), focused_id);
        assert(self.is_tiled_layout(area, rects));
        proof {
            let fid = match focused_id {
                Some(f) => Some(f@),
                None => None,
            };
            lemma_tile_boxes_use_rects(visible(self.windows@), rects@, fid);
            assert forall|k: int| 0 <= k < r@.len() implies part_of(
                Direction::Horizontal,
                area,
                (#[trigger] r@[k]).rect,
            ) by {
                let t = r@.map_values(|b: TileBox| (b.rect, b.title@, b.focused));
                assert(t[k].0 == r@[k].rect);
                let j = choose|j: int| 0 <= j < rects@.len() && rects@[j] == t[k].0;
                assert(part_of(Direction::Horizontal, area, rects@[j]));
            }
        }
        r
    }

    /// The tiles for the visible windows laid into `rects` (window `i` into
    /// rectangle `i`, windows beyond the rectangles left out), skipping
    /// rectangles smaller than 3×3.  A window without a title shows its id;
    /// the window named `focused_id` is marked focused.
    pub fn tiles_in(&self, rects: &[Rect], focused_id: Option<&str>) -> (r: Vec<TileBox>)
        ensures
            r@.map_values(|b: TileBox| (b.rect, b.title@, b.focused)) == tile_boxes(
                visible(self.windows@),
                rects@,
                match focused_id {
                    Some(f) => Some(f@),
                    None => None,
                },
            ),
    {
        let mut out: Vec<TileBox> = Vec::new();
        let vis = self.visible_windows();
        let ghost fid = match focused_id {
            Some(f) => Some(f@),
            None => None,
        };
        let ghost vs = vis@.map_values(|w: &Window| *w);
        let ghost whole = tile_boxes(vs, rects@, fid);
        let mut i: usize = 0;
        assert(vs.skip(0) =~= vs);
        assert(rects@.skip(0) =~= rects@);
        assert(out@.map_values(|b: TileBox| (b.rect, b.title@, b.focused)) + whole =~= whole);
        while i < vis.len() && i < rects.len()
            invariant
                vs == vis@.map_values(|w: &Window| *w),
                whole == tile_boxes(vs, rects@, fid),
                fid == (match focused_id {
                    Some(f) => Some(f@),
                    None => None,
                }),
                i <= vis@.len(),
                i <= rects@.len(),
                whole == out@.map_values(|b: TileBox| (b.rect, b.title@, b.focused)) + tile_boxes(
                    vs.skip(i as int),
                    rects@.skip(i as int),
                    fid,
                ),
            decreases vis@.len() - i,
        {
            let win = vis[i];
            let rect = rects[i];
            let ghost tail = tile_boxes(vs.skip(i + 1), rects@.skip(i + 1), fid);
            assert(vs.skip(i as int).drop_first() =~= vs.skip(i + 1));
            assert(rects@.skip(i as int).drop_first() =~= rects@.skip(i + 1));
            assert(vs.skip(i as int)[0] == *win);
            assert(rects@.skip(i as int)[0] == rect);
            if rect.width < 3 || rect.height < 3 {
                i = i + 1;
                continue;
            }
            let is_focused = match focused_id {
                Some(f) => str_eq(f, win.id.as_str()),
                None => false,
            };
            let title = if win.title.as_str().is_empty() {
                win.id.clone()
            } else {
                win.title.clone()
            };
            let ghost before = out@.map_values(|b: TileBox| (b.rect, b.title@, b.focused));
            let b = TileBox { rect, title, focused: is_focused };
            let ghost bv = (b.rect, b.title@, b.focused);
            out.push(b);
            assert(out@.map_values(|b: TileBox| (b.rect, b.title@, b.focused)) =~= before.push(bv));
            assert(before + (seq![bv] + tail) =~= before.push(bv) + tail);
            i = i + 1;
        }
        proof {
            if i >= vis@.len() {
                assert(vs.skip(i as int).len() == 0);
            } else {
                assert(rects@.skip(i as int).len() == 0);
            }
        }
        assert(out@.map_values(|b: TileBox| (b.rect, b.title@, b.focused)) + Seq::<(Rect, Seq<char>, bool)>::empty()
            =~= out@.map_values(|b: TileBox| (b.rect, b.title@, b.focused)));
        out
    }

    /// The strip of minimized windows at the bottom row of `area`: its
    /// rectangle and the pills that fit in it, left to right, one column
    /// apart.  Nothing when no window is minimized or the area has no rows.
    pub fn minimized_pills(&self, area: Rect) -> (r: (Rect, Vec<Pill>))
        requires
            minimized_windows(self.windows@).len() > 0 && area.height > 0 ==> area.y + area.height
                - 1 <= u16::MAX,
        ensures
            r.1@.map_values(|p: Pill| (p.x as int, p.label@)) == (if minimized_windows(
                self.windows@,
            ).len() == 0 || area.height == 0 {
                Seq::empty()
            } else {
                let strip = spec_rect_new(area.x, (area.y + area.height - 1) as u16, area.width, 1);
                place_pills(minimized_windows(self.windows@), strip.x as int, strip.x + strip.width)
            }),
            r.0 == (if minimized_windows(self.windows@).len() == 0 || area.height == 0 {
                Rect { x: 0, y: 0, width: 0, height: 0 }
            } else {
                spec_rect_new(area.x, (area.y + area.height - 1) as u16, area.width, 1)
            }),
    {
        let mins = self.minimized_list();
        let mut pills: Vec<Pill> = Vec::new();
        if mins.len() == 0 || area.height == 0 {
            assert(pills@.map_values(|p: Pill| (p.x as int, p.label@)) =~= Seq::empty());
            return (Rect { x: 0, y: 0, width: 0, height: 0 }, pills);
        }
        let pill_y = area.y + (area.height - 1);
        let strip = Rect::new(area.x, pill_y, area.width, 1);
        let right: u32 = strip.x as u32 + strip.width as u32;
        let mut x: u32 = strip.x as u32;
        let ghost ms = mins@.map_values(|w: &Window| *w);
        let ghost whole = place_pills(ms, x as int, right as int);
        let mut i: usize = 0;
        assert(ms.skip(0) =~= ms);
        assert(pills@.map_values(|p: Pill| (p.x as int, p.label@)) + whole =~= whole);
        let mut stop = false;
        while i < mins.len() && !stop
            invariant
                ms == mins@.map_values(|w: &Window| *w),
                whole == place_pills(ms, strip.x as int, right as int),
                right == strip.x + strip.width,
                right <= u16::MAX,
                i <= mins@.len(),
                x <= right + 65536,
                stop ==> whole == pills@.map_values(|p: Pill| (p.x as int, p.label@)),
                !stop ==> whole == pills@.map_values(|p: Pill| (p.x as int, p.label@)) + place_pills(
                    ms.skip(i as int),
                    x as int,
                    right as int,
                ),
            decreases mins@.len() - i + (if stop { 0int } else { 1int }),
        {
            let win = mins[i];
            assert(ms.skip(i as int)[0] == *win);
            assert(ms.skip(i as int).drop_first() =~= ms.skip(i + 1));
            let label = concat_str(concat_str("[ ", win.title.as_str()).as_str(), " ]");
            assert(label@ =~= pill_label(win.title@));
            let w = (label.as_str().len() % 65536) as u32;
            if x + w > right {
                stop = true;
                assert(pills@.map_values(|p: Pill| (p.x as int, p.label@)) + Seq::<(int, Seq<char>)>::empty()
                    =~= pills@.map_values(|p: Pill| (p.x as int, p.label@)));
            } else {
                let ghost before = pills@.map_values(|p: Pill| (p.x as int, p.label@));
                let ghost tail = place_pills(ms.skip(i + 1), x + w + 1, right as int);
                let p = Pill { x: x as u16, label };
                let ghost pv = (p.x as int, p.label@);
                pills.push(p);
                assert(pills@.map_values(|p: Pill| (p.x as int, p.label@)) =~= before.push(pv));
                assert(before + (seq![pv] + tail) =~= before.push(pv) + tail);
                x = x + w + 1;
                i = i + 1;
            }
        }
        if !stop {
            assert(ms.skip(i as int) =~= Seq::<Window>::empty());
            assert(pills@.map_values(|p: Pill| (p.x as int, p.label@)) + Seq::<(int, Seq<char>)>::empty()
                =~= pills@.map_values(|p: Pill| (p.x as int, p.label@)));
        }
        (strip, pills)
    }

    /// The minimized windows, in order.
    fn minimized_list(&self) -> (r: Vec<&Window>)
        ensures
            r@.map_values(|w: &Window| *w) == minimized_windows(self.windows@),
    {
        let mut r: Vec<&Window> = Vec::new();
        let mut i: usize = 0;
        while i < self.windows.len()
            invariant
                i <= self.windows@.len(),
                r@.map_values(|w: &Window| *w) == minimized_windows(self.windows@.take(i as int)),
            decreases self.windows@.len() - i,
        {
            assert(self.windows@.take(i + 1).drop_last() =~= self.windows@.take(i as int));
            let ghost before = r@;
            if self.windows[i].minimized {
                r.push(&self.windows[i]);
                assert(r@.map_values(|w: &Window| *w) =~= before.map_values(|w: &Window| *w).push(
                    self.windows@[i as int],
                ));
            }
            i = i + 1;
        }
        assert(self.windows@.take(i as int) =~= self.windows@);
        r
    }
}

impl Window {
    /// The window that `Window::new` builds.
    pub open spec fn new_spec(id: String, title: String) -> Window {
        Window { id, title, minimized: false, rect: Rect { x: 0, y: 0, width: 0, height: 0 } }
    }
}

/// Splits that already match `n` windows with ratios in range.
pub open spec fn splits_fit(splits: Seq<Split>, n: nat) -> bool {
    &&& splits.len() == (if n <= 1 {
        0
    } else {
        n - 1
    })
    &&& forall|i: int| 0 <= i < splits.len() ==> 10 <= #[trigger] splits[i].ratio <= 90
}

/// Rebuilding splits that already fit changes nothing, and rebuilding
/// always gives splits that fit.
pub proof fn law_rebuilt_splits_fit(splits: Seq<Split>, n: nat)
    ensures
        splits_fit(rebuilt_splits(splits, n), n),
        splits_fit(splits, n) ==> rebuilt_splits(splits, n) == splits,
{
    if n > 1 && splits_fit(splits, n) {
        assert(splits.take((n - 1) as int) =~= splits);
        assert(rebuilt_splits(splits, n) =~= splits);
    }
    if n <= 1 {
        assert(rebuilt_splits(splits, n) =~= Seq::<Split>::empty());
    }
}

/// Removing the window that was just added (under an id no other window
/// has) gives back the windows and the splits from before.
pub proof fn law_remove_undoes_add(ws: Seq<Window>, splits: Seq<Split>, w: Window)
    requires
        splits_fit(splits, ws.len()),
        !window_ids(ws).contains(w.id@),
    ensures
        first_index(window_ids(ws.push(w)), w.id@) == ws.len(),
        ws.push(w).remove(ws.len() as int) == ws,
        rebuilt_splits(rebuilt_splits(splits, ws.len() + 1), ws.len()) == splits,
{
    let ids = window_ids(ws.push(w));
    assert forall|j: int| 0 <= j < ws.len() implies ids[j] != w.id@ by {
        assert(ids[j] == window_ids(ws)[j]);
    }
    assert(ids[ws.len() as int] == w.id@);
    crate::seqs::lemma_first_index_is(ids, w.id@, ws.len() as int);
    assert(ws.push(w).remove(ws.len() as int) =~= ws);
    let n = ws.len();
    let grown = rebuilt_splits(splits, n + 1);
    law_rebuilt_splits_fit(splits, n + 1);
    if n <= 1 {
        assert(rebuilt_splits(grown, n) =~= splits);
    } else {
        assert forall|i: int| 0 <= i < n - 1 implies grown[i] == splits[i] by {}
        assert(rebuilt_splits(grown, n) =~= splits);
    }
}

/// `k` focus cycles over `n` windows from `f`.
pub open spec fn cycled_focus(f: int, n: int, k: nat) -> int
    decreases k,
{
    if k == 0 {
        f
    } else {
        (cycled_focus(f, n, (k - 1) as nat) + 1) % n
    }
}

proof fn lemma_cycled_focus(f: int, n: int, k: nat)
    requires
        0 <= f < n,
    ensures
        cycled_focus(f, n, k) == (f + k) % n,
    decreases k,
{
    if k > 0 {
        lemma_cycled_focus(f, n, (k - 1) as nat);
        let c = (f + k - 1) % n;
        vstd::arithmetic::div_mod::lemma_add_mod_noop(f + k - 1, 1, n);
        vstd::arithmetic::div_mod::lemma_add_mod_noop(c, 1, n);
        vstd::arithmetic::div_mod::lemma_mod_twice(f + k - 1, n);
    } else {
        vstd::arithmetic::div_mod::lemma_small_mod(f as nat, n as nat);
    }
}

/// Cycling the focus once per window brings it back where it started.
pub proof fn law_cycle_focus_wraps(f: int, n: int)
    requires
        0 <= f < n,
    ensures
        cycled_focus(f, n, n as nat) == f,
{
    lemma_cycled_focus(f, n, n as nat);
    vstd::arithmetic::div_mod::lemma_add_mod_noop(f, n, n);
    vstd::arithmetic::div_mod::lemma_mod_self_0(n);
    vstd::arithmetic::div_mod::lemma_small_mod(f as nat, n as nat);
}

/// `n` copies of the constraint `1 / n`.
fn equal_shares(n: usize) -> (v: Vec<Constraint>)
    ensures
        v@ == equal_ratios(n as nat),
{
    let share = Constraint::Ratio(1, #[verifier::truncate] (n as u32));
    let mut v: Vec<Constraint> = Vec::new();
    while v.len() < n
        invariant
            v@.len() <= n,
            share == Constraint::Ratio(1, n as u32),
            forall|j: int| 0 <= j < v@.len() ==> v@[j] == share,
        decreases n - v@.len(),
    {
        v.push(share);
    }
    assert(v@ =~= equal_ratios(n as nat));
    v
}

/// Every tile lies in one of the rectangles it was laid into.
proof fn lemma_tile_boxes_use_rects(ws: Seq<Window>, rects: Seq<Rect>, fid: Option<Seq<char>>)
    ensures
        forall|k: int|
            0 <= k < tile_boxes(ws, rects, fid).len() ==> exists|j: int|
                0 <= j < rects.len() && rects[j] == (#[trigger] tile_boxes(ws, rects, fid)[k]).0,
    decreases ws.len(),
{
    if ws.len() > 0 && rects.len() > 0 {
        let rs = rects.drop_first();
        lemma_tile_boxes_use_rects(ws.drop_first(), rs, fid);
        let rest = tile_boxes(ws.drop_first(), rs, fid);
        let all = tile_boxes(ws, rects, fid);
        assert forall|k: int| 0 <= k < all.len() implies exists|j: int|
            0 <= j < rects.len() && rects[j] == (#[trigger] all[k]).0 by {
            if rects[0].width < 3 || rects[0].height < 3 {
                assert(all[k] == rest[k]);
                let j = choose|j: int| 0 <= j < rs.len() && rs[j] == rest[k].0;
                assert(rects[j + 1] == all[k].0);
            } else if k == 0 {
                assert(rects[0] == all[0].0);
            } else {
                assert(all[k] == rest[k - 1]);
                let j = choose|j: int| 0 <= j < rs.len() && rs[j] == rest[k - 1].0;
                assert(rects[j + 1] == all[k].0);
            }
        }
    }
}

/// What tiling lays out: without tiling (or with at most one visible
/// window) the single pane is the whole area; with two visible windows and
/// their one split, the solver cuts the area by the stored ratio for the
/// first window and the rest for the second; otherwise every visible window
/// gets an equal share.  Either way there is one pane per visible window,
/// spanning the area's rows inside its columns.
pub proof fn law_tiled_layout_follows_the_split_ratio(wm: WindowManager, area: Rect, r: Vec<Rect>)
    requires
        wm.is_tiled_layout(area, r),
    ensures
        !(wm.tiling_enabled && visible(wm.windows@).len() > 1) ==> r@ == seq![area],
        wm.tiling_enabled && visible(wm.windows@).len() == 2 && wm.splits@.len() == 1
            ==> solver_split(
            Direction::Horizontal,
            seq![
                Constraint::Ratio(wm.splits@[0].ratio, 100),
                Constraint::Ratio((100 - wm.splits@[0].ratio) as u32, 100),
            ],
            area,
            r,
        ),
        wm.tiling_enabled && visible(wm.windows@).len() > 1 && !(visible(wm.windows@).len() == 2
            && wm.splits@.len() == 1) ==> solver_split(
            Direction::Horizontal,
            Seq::new(
                visible(wm.windows@).len(),
                |i: int| Constraint::Ratio(1, visible(wm.windows@).len() as u32),
            ),
            area,
            r,
        ),
        wm.tiling_enabled && visible(wm.windows@).len() > 1 ==> is_split_of(
            Direction::Horizontal,
            visible(wm.windows@).len(),
            area,
            r@,
        ),
{
    let n = visible(wm.windows@).len();
    if wm.tiling_enabled && n > 1 {
        lemma_solver_split_parts(Direction::Horizontal, tiled_constraints(wm.splits@, n), area, r);
        if n == 2 && wm.splits@.len() == 1 {
            assert(tiled_constraints(wm.splits@, n) =~= seq![
                Constraint::Ratio(wm.splits@[0].ratio, 100),
                Constraint::Ratio((100 - wm.splits@[0].ratio) as u32, 100),
            ]);
        } else {
            assert(tiled_constraints(wm.splits@, n) =~= Seq::new(
                n,
                |i: int| Constraint::Ratio(1, n as u32),
            ));
        }
    }
}

/// The hit test looks for the divider in the layout that tiling draws: with
/// two visible windows and their split it answers `Some(0)` exactly when
/// the column is the first pane's right edge or the column before it, in a
/// layout that the solver cut by the stored ratio.
pub proof fn law_hit_test_uses_the_drawn_layout(
    wm: WindowManager,
    area: Rect,
    x: u16,
    r: Option<usize>,
)
    requires
        exists|v: Vec<Rect>| wm.is_tiled_layout(area, v) && r == divider_hit(v@, x, 0),
        wm.tiling_enabled,
        visible(wm.windows@).len() == 2,
        wm.splits@.len() == 1,
    ensures
        exists|v: Vec<Rect>|
            {
                &&& solver_split(
                    Direction::Horizontal,
                    seq![
                        Constraint::Ratio(wm.splits@[0].ratio, 100),
                        Constraint::Ratio((100 - wm.splits@[0].ratio) as u32, 100),
                    ],
                    area,
                    v,
                )
                &&& v@.len() == 2
                &&& r == (if x == v@[0].x + v@[0].width || x + 1 == v@[0].x + v@[0].width {
                    Some(0usize)
                } else {
                    None
                })
            },
{
    let v = choose|v: Vec<Rect>| wm.is_tiled_layout(area, v) && r == divider_hit(v@, x, 0);
    law_tiled_layout_follows_the_split_ratio(wm, area, v);
    assert(divider_hit(v@, x, 1) is None);
}

/// The first divider that a column hits: `Some(i)` names a rectangle other
/// than the last whose right edge is the column or the column after it, and
/// no earlier rectangle's edge is; `None` means no such edge.
pub proof fn law_divider_hit_is_first_edge(rects: Seq<Rect>, x: u16)
    requires
        rects.len() <= usize::MAX,
    ensures
        match divider_hit(rects, x, 0) {
            Some(i) => {
                &&& i + 1 < rects.len()
                &&& (x == rects[i as int].x + rects[i as int].width || x + 1 == rects[i as int].x
                    + rects[i as int].width)
                &&& forall|j: int|
                    0 <= j < i ==> !(x == rects[j].x + rects[j].width || x + 1 == rects[j].x
                        + rects[j].width)
            },
            None => forall|j: int|
                0 <= j && j + 1 < rects.len() ==> !(x == rects[j].x + rects[j].width || x + 1
                    == rects[j].x + rects[j].width),
        },
{
    lemma_divider_hit_from(rects, x, 0);
}

proof fn lemma_divider_hit_from(rects: Seq<Rect>, x: u16, k: int)
    requires
        0 <= k,
        rects.len() <= usize::MAX,
    ensures
        match divider_hit(rects, x, k) {
            Some(i) => {
                &&& k <= i
                &&& i + 1 < rects.len()
                &&& (x == rects[i as int].x + rects[i as int].width || x + 1 == rects[i as int].x
                    + rects[i as int].width)
                &&& forall|j: int|
                    k <= j < i ==> !(x == rects[j].x + rects[j].width || x + 1 == rects[j].x
                        + rects[j].width)
            },
            None => forall|j: int|
                k <= j && j + 1 < rects.len() ==> !(x == rects[j].x + rects[j].width || x + 1
                    == rects[j].x + rects[j].width),
        },
    decreases rects.len() - k,
{
    if k + 1 < rects.len() {
        let div = rects[k].x + rects[k].width;
        if !(x == div || x + 1 == div) {
            lemma_divider_hit_from(rects, x, k + 1);
            assert(divider_hit(rects, x, k) == divider_hit(rects, x, k + 1));
            match divider_hit(rects, x, k) {
                Some(i) => {
                    assert forall|j: int| k <= j < i implies !(x == rects[j].x + rects[j].width
                        || x + 1 == rects[j].x + rects[j].width) by {}
                },
                None => {
                    assert forall|j: int| k <= j && j + 1 < rects.len() implies !(x == rects[j].x
                        + rects[j].width || x + 1 == rects[j].x + rects[j].width) by {}
                },
            }
        }
    }
}

/// Removing a window keeps the focus index while it still names a window
/// (so removing another window never moves it past the windows left), moves
/// it to the last window when it fell off the end, and to 0 when no window
/// is left.
pub proof fn law_remove_keeps_focus(f: usize, n: nat)
    ensures
        f < n ==> focus_after_remove(f, n) == f,
        0 < n <= f ==> focus_after_remove(f, n) == n - 1,
        n == 0 ==> focus_after_remove(f, n) == 0,
        n > 0 ==> focus_after_remove(f, n) < n,
{
}

} // verus!
