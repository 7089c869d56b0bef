//! Where the panels of the dashboard go, and the regions a frame leaves in
//! the interactive state for hit-testing the mouse.
use vstd::prelude::*;
use vstd::utf8::encode_utf8;

use crate::geometry::{contains, Rect};
use crate::input::{first_hit_sort, is_first_hit, lemma_first_hit_sort, mouse_outcome, Action, AppState, MouseInput, MouseKind};
use crate::procs::SortBy;
use tui::layout::{Constraint as TuiConstraint, Direction as TuiDirection, Layout, Rect as TuiRect};

verus! {

/// The smallest terminal the dashboard is drawn in.
pub const MIN_WIDTH: u16 = 80;
pub const MIN_HEIGHT: u16 = 24;

/// How a part of a split is sized.
#[derive(Clone, Copy, Debug, PartialEq, Eq, Structural)]
pub enum Constraint {
    /// Exactly this many cells, if there is room.
    Length(u16),
    /// At least this many cells.
    Min(u16),
    /// This percentage of the space.
    Percentage(u16),
}

/// The axis along which an area is split.
#[derive(Clone, Copy, Debug, PartialEq, Eq, Structural)]
pub enum Direction {
    Horizontal,
    Vertical,
}

/// tui computes a percentage part as `p * size` in `u16`, which must not
/// overflow.
pub open spec fn percentages_fit(area: Rect, direction: Direction, constraints: Seq<Constraint>) -> bool {
    forall|i: int|
        #![trigger constraints[i]]
        0 <= i < constraints.len() ==> match constraints[i] {
            Constraint::Percentage(p) => p * extent_along(area, direction) <= u16::MAX,
            _ => true,
        }
}

/// `inner` ends no further right and no further down than `outer`.
pub open spec fn ends_within(inner: Rect, outer: Rect) -> bool {
    &&& inner.x + inner.width <= outer.x + outer.width
    &&& inner.y + inner.height <= outer.y + outer.height
}

/// Where `r` starts along the axis of a split.
pub open spec fn start_along(r: Rect, direction: Direction) -> int {
    match direction {
        Direction::Horizontal => r.x as int,
        Direction::Vertical => r.y as int,
    }
}

/// How far `r` reaches along the axis of a split.
pub open spec fn extent_along(r: Rect, direction: Direction) -> int {
    match direction {
        Direction::Horizontal => r.width as int,
        Direction::Vertical => r.height as int,
    }
}

/// Where `r` ends along the axis of a split.
pub open spec fn end_along(r: Rect, direction: Direction) -> int {
    start_along(r, direction) + extent_along(r, direction)
}

/// `part` covers `area` across the axis of a split: the same columns for a
/// vertical split, the same rows for a horizontal one.
pub open spec fn spans_across(part: Rect, area: Rect, direction: Direction) -> bool {
    match direction {
        Direction::Horizontal => part.y == area.y && part.height == area.height,
        Direction::Vertical => part.x == area.x && part.width == area.width,
    }
}

/// The size a stacked part gets: its length, or what is left over.
pub open spec fn part_size(c: Constraint, slack: int) -> int {
    match c {
        Constraint::Length(n) => n as int,
        _ => slack,
    }
}

/// The sizes of stacked parts, added up.
pub open spec fn sizes_total(constraints: Seq<Constraint>, slack: int) -> int
    decreases constraints.len(),
{
    if constraints.len() == 0 {
        0
    } else {
        sizes_total(constraints.drop_last(), slack) + part_size(constraints.last(), slack)
    }
}

/// The fixed lengths among the constraints, added up.
pub open spec fn fixed_total(constraints: Seq<Constraint>) -> int {
    sizes_total(constraints, 0)
}

/// How many of the constraints ask for at least some size.
pub open spec fn fill_count(constraints: Seq<Constraint>) -> nat
    decreases constraints.len(),
{
    if constraints.len() == 0 {
        0
    } else {
        fill_count(constraints.drop_last()) + if constraints.last() is Min {
            1nat
        } else {
            0nat
        }
    }
}

/// Constraints that can all be met at once: fixed lengths that fit in the
/// area, and one part that takes whatever is left.
pub open spec fn is_stackable(area: Rect, direction: Direction, constraints: Seq<Constraint>) -> bool {
    &&& forall|i: int|
        #![trigger constraints[i]]
        0 <= i < constraints.len() ==> (constraints[i] is Length || constraints[i] == Constraint::Min(0))
    &&& fill_count(constraints) == 1
    &&& fixed_total(constraints) <= extent_along(area, direction)
}

/// The `i`-th part of stackable constraints: the parts laid one after the
/// other from the start of the area, each as long as its constraint asks,
/// the filling one taking what the others leave.
pub open spec fn stacked_part(area: Rect, direction: Direction, constraints: Seq<Constraint>, i: int) -> Rect {
    let slack = extent_along(area, direction) - fixed_total(constraints);
    let offset = start_along(area, direction) + sizes_total(constraints.take(i), slack);
    piece(area, direction, offset, part_size(constraints[i], slack))
}

/// The part of `area` from `offset` on along the axis of a split, `size`
/// cells long, across all of the area.
pub open spec fn piece(area: Rect, direction: Direction, offset: int, size: int) -> Rect {
    match direction {
        Direction::Horizontal => Rect { x: offset as u16, y: area.y, width: size as u16, height: area.height },
        Direction::Vertical => band(area, offset, size),
    }
}

/// `p` percent of `extent`, rounded down.
pub open spec fn share(extent: int, p: int) -> int {
    extent * p / 100
}

/// The first percentage of two that add up to a hundred.
pub open spec fn percent_pair(constraints: Seq<Constraint>) -> Option<int> {
    if constraints.len() == 2 {
        match (constraints[0], constraints[1]) {
            (Constraint::Percentage(p), Constraint::Percentage(q)) => if p + q == 100 {
                Some(p as int)
            } else {
                None
            },
            _ => None,
        }
    } else {
        None
    }
}

/// The two parts of a split by percentages `p` and `100 - p`: the first
/// gets `p` percent of the extent, rounded down, the second the rest.
pub open spec fn pair_parts(area: Rect, direction: Direction, p: int) -> Seq<Rect> {
    let start = start_along(area, direction);
    let extent = extent_along(area, direction);
    let first = share(extent, p);
    seq![piece(area, direction, start, first), piece(area, direction, start + first, extent - first)]
}

/// `tui::layout::Layout::split` (no margin, last part stretched to the end).
/// `split` builds one part per constraint. The solver's required
/// constraints keep every part inside the area, start the first part at the
/// area's start, and give every part the area's extent across the axis;
/// after solving, the last part is stretched to end exactly at the area's
/// end. Where the constraints can all be met at once, the solver's optimum
/// meets them all and is the only layout that does: fixed lengths that fit
/// with one part that takes the rest stack the parts one after the other,
/// in whole cells; two percentages that add up to a hundred give the first
/// part its share of the extent, whose fraction (a multiple of a hundredth)
/// the conversion to whole cells drops, and the last part the rest. Other
/// constraints leave the sizes of the parts unsaid.
#[verifier::external_body]
fn split(area: Rect, direction: Direction, constraints: &Vec<Constraint>) -> (parts: Vec<Rect>)
    requires
        area.x + area.width <= u16::MAX,
        area.y + area.height <= u16::MAX,
        percentages_fit(area, direction, constraints@),
    ensures
        parts@.len() == constraints@.len(),
        forall|i: int|
            0 <= i < parts@.len() ==> {
                &&& ends_within(#[trigger] parts@[i], area)
                &&& spans_across(parts@[i], area, direction)
                &&& start_along(parts@[i], direction) >= start_along(area, direction)
            },
        parts@.len() > 0 ==> start_along(parts@[0], direction) == start_along(area, direction),
        parts@.len() > 0 ==> end_along(parts@.last(), direction) == end_along(area, direction),
        is_stackable(area, direction, constraints@) ==> forall|i: int|
            0 <= i < parts@.len() ==> #[trigger] parts@[i] == stacked_part(area, direction, constraints@, i),
        percent_pair(constraints@) matches Some(p) ==> parts@ == pair_parts(area, direction, p),
{
    let dir = match direction {
        Direction::Horizontal => TuiDirection::Horizontal,
        Direction::Vertical => TuiDirection::Vertical,
    };
    let cs: Vec<TuiConstraint> = constraints.iter().map(|c| match *c {
        Constraint::Length(n) => TuiConstraint::Length(n),
        Constraint::Min(n) => TuiConstraint::Min(n),
        Constraint::Percentage(n) => TuiConstraint::Percentage(n),
    }).collect();
    let r = TuiRect { x: area.x, y: area.y, width: area.width, height: area.height };
    let parts = Layout::default().direction(dir).constraints(cs).split(r);
    parts.iter().map(|p| Rect { x: p.x, y: p.y, width: p.width, height: p.height }).collect()
}

/// The rows of `area` from `top` on, `height` of them, across its columns.
pub open spec fn band(area: Rect, top: int, height: int) -> Rect {
    Rect { x: area.x, y: top as u16, width: area.width, height: height as u16 }
}

/// `n` rows of one cell each, then one part for the rest.
pub open spec fn row_constraints(n: nat) -> Seq<Constraint> {
    Seq::new(n, |_i: int| Constraint::Length(1)).push(Constraint::Min(0))
}

/// The first `k` of `n` one-cell rows add up to `k` cells and hold no
/// filling part.
proof fn lemma_rows_prefix(n: nat, slack: int, k: nat)
    requires
        k <= n,
    ensures
        sizes_total(row_constraints(n).take(k as int), slack) == k,
        fill_count(row_constraints(n).take(k as int)) == 0,
    decreases k,
{
    let cs = row_constraints(n);
    if k == 0 {
        assert(cs.take(0) =~= Seq::<Constraint>::empty());
    } else {
        lemma_rows_prefix(n, slack, (k - 1) as nat);
        assert(cs.take(k as int).drop_last() =~= cs.take(k - 1));
        assert(cs.take(k as int).last() == Constraint::Length(1));
    }
}

/// `n` one-cell rows and a filling part stack whenever the rows fit.
proof fn lemma_rows_stack(area: Rect, n: nat)
    requires
        n <= area.height,
    ensures
        is_stackable(area, Direction::Vertical, row_constraints(n)),
        forall|i: int|
            0 <= i < n ==> #[trigger] stacked_part(area, Direction::Vertical, row_constraints(n), i) == band(area, area.y + i, 1),
        stacked_part(area, Direction::Vertical, row_constraints(n), n as int) == band(area, area.y + n, area.height - n),
{
    let cs = row_constraints(n);
    lemma_rows_prefix(n, 0, n);
    assert(cs.drop_last() =~= cs.take(n as int));
    assert(fixed_total(cs) == n);
    assert(fill_count(cs) == 1);
    let slack = area.height - n;
    assert forall|i: int| 0 <= i < n implies #[trigger] stacked_part(area, Direction::Vertical, cs, i) == band(area, area.y + i, 1) by {
        lemma_rows_prefix(n, slack, i as nat);
    }
    lemma_rows_prefix(n, slack, n);
}

/// Splits `area` into `n` rows of one cell from its top, and one part for
/// the rest below them, as the panels lay out their lines.
pub fn stack_rows(area: Rect, n: usize) -> (rows: Vec<Rect>)
    requires
        area.x + area.width <= u16::MAX,
        area.y + area.height <= u16::MAX,
        n < usize::MAX,
    ensures
        rows@.len() == n + 1,
        forall|i: int|
            0 <= i < rows@.len() ==> {
                &&& ends_within(#[trigger] rows@[i], area)
                &&& rows@[i].x == area.x
                &&& rows@[i].width == area.width
                &&& rows@[i].y >= area.y
            },
        rows@[0].y == area.y,
        rows@[n as int].y + rows@[n as int].height == area.y + area.height,
        n <= area.height ==> forall|i: int|
            0 <= i < n ==> #[trigger] rows@[i] == band(area, area.y + i, 1),
        n <= area.height ==> rows@[n as int] == band(area, area.y + n, area.height - n),
{
    let mut constraints: Vec<Constraint> = Vec::new();
    let mut k: usize = 0;
    while k < n
        invariant
            k <= n,
            constraints@ =~= Seq::new(k as nat, |_i: int| Constraint::Length(1)),
        decreases n - k,
    {
        constraints.push(Constraint::Length(1));
        k = k + 1;
    }
    constraints.push(Constraint::Min(0));
    assert(constraints@ =~= row_constraints(n as nat));
    proof {
        if n <= area.height {
            lemma_rows_stack(area, n as nat);
        }
    }
    split(area, Direction::Vertical, &constraints)
}

/// The area inside a bordered, titled block (`tui::widgets::Block::inner`
/// with all borders): one cell off each side, never past the far edges.
pub open spec fn block_inner(r: Rect) -> Rect {
    let right = if r.x + r.width <= u16::MAX {
        r.x + r.width
    } else {
        u16::MAX as int
    };
    let bottom = if r.y + r.height <= u16::MAX {
        r.y + r.height
    } else {
        u16::MAX as int
    };
    let x1 = if r.x + 1 <= u16::MAX {
        r.x + 1
    } else {
        u16::MAX as int
    };
    let y1 = if r.y + 1 <= u16::MAX {
        r.y + 1
    } else {
        u16::MAX as int
    };
    Rect {
        x: (if x1 <= right {
            x1
        } else {
            right
        }) as u16,
        y: (if y1 <= bottom {
            y1
        } else {
            bottom
        }) as u16,
        width: (if r.width >= 2 {
            r.width - 2
        } else {
            0
        }) as u16,
        height: (if r.height >= 2 {
            r.height - 2
        } else {
            0
        }) as u16,
    }
}

/// The area inside a bordered, titled block.
pub fn bordered_inner(r: Rect) -> (inner: Rect)
    ensures
        inner == block_inner(r),
{
    let right: u16 = r.x.saturating_add(r.width);
    let bottom: u16 = r.y.saturating_add(r.height);
    let x1: u16 = r.x.saturating_add(1);
    let y1: u16 = r.y.saturating_add(1);
    Rect {
        x: if x1 <= right {
            x1
        } else {
            right
        },
        y: if y1 <= bottom {
            y1
        } else {
            bottom
        },
        width: r.width.saturating_sub(1).saturating_sub(1),
        height: r.height.saturating_sub(1).saturating_sub(1),
    }
}

/// The panels of one frame.
#[derive(Clone, Copy, Debug, PartialEq, Eq, Structural)]
pub struct Dashboard {
    pub header: Rect,
    pub cpu: Rect,
    pub memory: Rect,
    /// The process panel: the sort bar above the process table.
    pub processes: Rect,
    pub sort_bar: Rect,
    pub process_table: Rect,
    pub disk: Rect,
    pub network: Rect,
    pub footer: Rect,
}

/// The terminal is too small for the dashboard.
pub open spec fn is_too_small(area: Rect) -> bool {
    area.width < MIN_WIDTH || area.height < MIN_HEIGHT
}

/// tui can split an area this large without overflowing, and the sort
/// buttons, which may run a few columns past the process panel's right
/// edge, stay on the screen's columns.
pub open spec fn layout_fits(area: Rect) -> bool {
    &&& area.x + area.width + 10 <= u16::MAX
    &&& area.y + area.height <= u16::MAX
    &&& 60 * area.width <= u16::MAX
    &&& 50 * (area.height - 4) <= u16::MAX
}

/// Every panel ends within the terminal.
pub open spec fn panels_within(d: Dashboard, area: Rect) -> bool {
    &&& ends_within(d.header, area)
    &&& ends_within(d.cpu, area)
    &&& ends_within(d.memory, area)
    &&& ends_within(d.processes, area)
    &&& ends_within(d.sort_bar, area)
    &&& ends_within(d.process_table, area)
    &&& ends_within(d.disk, area)
    &&& ends_within(d.network, area)
    &&& ends_within(d.footer, area)
}

/// Whether the terminal is too small for the dashboard (under 80 by 24).
pub fn too_small(area: Rect) -> (r: bool)
    ensures
        r == is_too_small(area),
{
    area.width < MIN_WIDTH || area.height < MIN_HEIGHT
}

/// Whether a frame can be laid out in `area`: it is too small for the
/// dashboard, or small enough for tui's arithmetic.
pub fn can_lay_out(area: Rect) -> (r: bool)
    ensures
        r == (is_too_small(area) || layout_fits(area)),
{
    if too_small(area) {
        return true;
    }
    let right: u32 = area.x as u32 + area.width as u32;
    let bottom: u32 = area.y as u32 + area.height as u32;
    let width: u32 = area.width as u32;
    let middle: u32 = area.height as u32 - 4;
    right + 10 <= 65535 && bottom <= 65535 && 60 * width <= 65535 && 50 * middle <= 65535
}

/// The rows of the whole frame: the header, the grid, the footer.
pub open spec fn frame_constraints() -> Seq<Constraint> {
    seq![Constraint::Length(3), Constraint::Min(0), Constraint::Length(1)]
}

/// The header and footer rows take four rows, and the grid the rest.
proof fn lemma_frame_stack(area: Rect)
    requires
        4 <= area.height,
    ensures
        is_stackable(area, Direction::Vertical, frame_constraints()),
        stacked_part(area, Direction::Vertical, frame_constraints(), 0) == band(area, area.y as int, 3),
        stacked_part(area, Direction::Vertical, frame_constraints(), 1) == band(area, area.y + 3, area.height - 4),
        stacked_part(area, Direction::Vertical, frame_constraints(), 2) == band(area, area.y + area.height - 1, 1),
{
    let cs = frame_constraints();
    let slack = area.height - 4;
    assert(cs.take(0) =~= Seq::<Constraint>::empty());
    assert(cs.take(1).drop_last() =~= cs.take(0));
    assert(cs.take(2).drop_last() =~= cs.take(1));
    assert(cs.drop_last() =~= cs.take(2));
    assert(cs.take(1).last() == Constraint::Length(3));
    assert(cs.take(2).last() == Constraint::Min(0));
    assert(sizes_total(cs.take(0), slack) == 0);
    assert(sizes_total(cs.take(0), 0) == 0);
    assert(sizes_total(cs.take(1), slack) == 3);
    assert(sizes_total(cs.take(2), slack) == 3 + slack);
    assert(sizes_total(cs.take(1), 0) == 3);
    assert(sizes_total(cs.take(2), 0) == 3);
    assert(fixed_total(cs) == 4);
    assert(fill_count(cs.take(0)) == 0);
    assert(fill_count(cs.take(1)) == 0);
    assert(fill_count(cs.take(2)) == 1);
    assert(fill_count(cs) == 1);
}

/// Two percentages that tui can compute for `area` along `direction`.
proof fn lemma_two_percentages_fit(area: Rect, direction: Direction, p: u16, q: u16)
    requires
        p * extent_along(area, direction) <= u16::MAX,
        q * extent_along(area, direction) <= u16::MAX,
    ensures
        percentages_fit(area, direction, seq![Constraint::Percentage(p), Constraint::Percentage(q)]),
{
}

/// The rectangle at column `x`, row `y`, `width` by `height` cells.
pub open spec fn cells(x: int, y: int, width: int, height: int) -> Rect {
    Rect { x: x as u16, y: y as u16, width: width as u16, height: height as u16 }
}

/// Where the panels of a frame in `area` stand. The header takes the top
/// three rows and the footer the bottom row; the grid between them is cut
/// in two halves, the upper one half of it (rounded down); CPU takes 60%
/// of the width (rounded down) and memory the rest; the process panel takes
/// the same columns as CPU in the lower half, its first row the sort bar
/// and the rest the table; disk takes the upper half of the remaining
/// columns (rounded down), and network what is left below it.
pub open spec fn grid_placed(d: Dashboard, area: Rect) -> bool {
    let x = area.x as int;
    let y = area.y as int;
    let w = area.width as int;
    let grid = area.height - 4;
    let upper = share(grid, 50);
    let lower = grid - upper;
    let left = share(w, 60);
    let right = w - left;
    let disk = share(lower, 50);
    let lower_y = y + 3 + upper;
    &&& d.header == cells(x, y, w, 3)
    &&& d.cpu == cells(x, y + 3, left, upper)
    &&& d.memory == cells(x + left, y + 3, right, upper)
    &&& d.processes == cells(x, lower_y, left, lower)
    &&& d.sort_bar == cells(x, lower_y, left, 1)
    &&& d.process_table == cells(x, lower_y + 1, left, lower - 1)
    &&& d.disk == cells(x + left, lower_y, right, disk)
    &&& d.network == cells(x + left, lower_y + disk, right, lower - disk)
    &&& d.footer == cells(x, y + area.height - 1, w, 1)
}

/// The panels of the dashboard in `area`, or none when the terminal is too
/// small for it. The grid: a header of three rows, a footer of one, and
/// between them two halves; the top half holds CPU (60%) and memory (40%),
/// the bottom half the processes (60%) and, stacked, disk and network. The
/// process panel has its sort bar on its first row, the table below.
pub fn dashboard_layout(area: Rect) -> (d: Option<Dashboard>)
    requires
        !is_too_small(area) ==> layout_fits(area),
    ensures
        is_too_small(area) ==> d is None,
        !is_too_small(area) ==> (d matches Some(dash) && panels_within(dash, area) && grid_placed(dash, area)),
{
    if too_small(area) {
        return None;
    }
    let frame = vec![Constraint::Length(3), Constraint::Min(0), Constraint::Length(1)];
    proof {
        assert(frame@ =~= frame_constraints());
        lemma_frame_stack(area);
    }
    let root = split(area, Direction::Vertical, &frame);
    assert(root@[0] == stacked_part(area, Direction::Vertical, frame@, 0));
    assert(root@[1] == stacked_part(area, Direction::Vertical, frame@, 1));
    assert(root@[2] == stacked_part(area, Direction::Vertical, frame@, 2));
    let grid = root[1];
    let halves_cs = vec![Constraint::Percentage(50), Constraint::Percentage(50)];
    assert(percent_pair(halves_cs@) == Some(50int));
    proof {
        lemma_two_percentages_fit(grid, Direction::Vertical, 50, 50);
    }
    let halves = split(grid, Direction::Vertical, &halves_cs);
    let upper = halves[0];
    let lower = halves[1];
    let columns = vec![Constraint::Percentage(60), Constraint::Percentage(40)];
    assert(percent_pair(columns@) == Some(60int));
    proof {
        lemma_two_percentages_fit(upper, Direction::Horizontal, 60, 40);
        lemma_two_percentages_fit(lower, Direction::Horizontal, 60, 40);
    }
    let top = split(upper, Direction::Horizontal, &columns);
    let bottom = split(lower, Direction::Horizontal, &columns);
    let side = bottom[1];
    proof {
        lemma_two_percentages_fit(side, Direction::Vertical, 50, 50);
    }
    let right = split(side, Direction::Vertical, &halves_cs);
    let procs = stack_rows(bottom[0], 1);
    let d = Dashboard {
        header: root[0],
        cpu: top[0],
        memory: top[1],
        processes: bottom[0],
        sort_bar: procs[0],
        process_table: procs[1],
        disk: right[0],
        network: right[1],
        footer: root[2],
    };
    Some(d)
}

/// The sort buttons, left to right.
pub open spec fn button_order() -> Seq<SortBy> {
    seq![SortBy::CpuDesc, SortBy::CpuAsc, SortBy::MemDesc, SortBy::MemAsc, SortBy::Pid, SortBy::Name]
}

/// The caption of a sort button.
pub open spec fn spec_button_label(s: SortBy) -> Seq<char> {
    match s {
        SortBy::CpuDesc => "CPU▼"@,
        SortBy::CpuAsc => "CPU▲"@,
        SortBy::MemDesc => "MEM▼"@,
        SortBy::MemAsc => "MEM▲"@,
        SortBy::Pid => "PID"@,
        SortBy::Name => "NAME"@,
    }
}

/// The caption of a sort button (drawn between brackets).
pub fn button_label(s: SortBy) -> (r: &'static str)
    ensures
        r@ == spec_button_label(s),
{
    match s {
        SortBy::CpuDesc => "CPU▼",
        SortBy::CpuAsc => "CPU▲",
        SortBy::MemDesc => "MEM▼",
        SortBy::MemAsc => "MEM▲",
        SortBy::Pid => "PID",
        SortBy::Name => "NAME",
    }
}

/// The width of a sort button: its caption's length in bytes plus two.
pub open spec fn button_width(s: SortBy) -> int {
    encode_utf8(spec_button_label(s)).len() as int + 2
}

/// The widths of the buttons: 8 for the CPU and memory ones, 5 for PID, 6
/// for name.
pub proof fn lemma_button_widths()
    ensures
        button_width(SortBy::CpuDesc) == 8,
        button_width(SortBy::CpuAsc) == 8,
        button_width(SortBy::MemDesc) == 8,
        button_width(SortBy::MemAsc) == 8,
        button_width(SortBy::Pid) == 5,
        button_width(SortBy::Name) == 6,
{
    reveal_strlit("CPU▼");
    reveal_strlit("CPU▲");
    reveal_strlit("MEM▼");
    reveal_strlit("MEM▲");
    reveal_strlit("PID");
    reveal_strlit("NAME");
    reveal_with_fuel(encode_utf8, 5);
}

/// The buttons from the `k`-th on, the next placed at column `x`: each is
/// one row high, one cell apart from the previous, and placing stops after
/// the first button whose successor would start at or past `right`.
pub open spec fn buttons_from(k: nat, x: int, y: u16, right: int) -> Seq<(Rect, SortBy)>
    decreases 6 - k,
{
    if k >= 6 {
        seq![]
    } else {
        let s = button_order()[k as int];
        let w = button_width(s);
        let b = (Rect { x: x as u16, y, width: w as u16, height: 1 }, s);
        let nx = x + w + 1;
        if nx >= right {
            seq![b]
        } else {
            seq![b] + buttons_from(k + 1, nx, y, right)
        }
    }
}

/// The sort buttons of a sort bar: from its second column on, left to right.
pub open spec fn sort_button_layout(bar: Rect) -> Seq<(Rect, SortBy)> {
    buttons_from(0, bar.x + 1, bar.y, bar.x + bar.width)
}

/// Placing the buttons from the `k`-th on, the next at column `x`, never
/// computes a column past the last one.
pub open spec fn buttons_fit(k: nat, x: int, right: int) -> bool
    decreases 6 - k,
{
    if k >= 6 {
        true
    } else {
        let nx = x + button_width(button_order()[k as int]) + 1;
        nx <= u16::MAX && (nx >= right || buttons_fit(k + 1, nx, right))
    }
}

/// Placing the buttons on this sort bar stays within the columns of the
/// screen.
pub open spec fn sort_bar_fits(bar: Rect) -> bool {
    &&& bar.x + bar.width <= u16::MAX
    &&& bar.x + 1 <= u16::MAX
    &&& buttons_fit(0, bar.x + 1, bar.x + bar.width)
}

/// The buttons stay within the screen's columns when there is room for the
/// first one and its gap, and either for all of them or for one past the
/// bar's right edge.
pub proof fn lemma_sort_bar_room(bar: Rect)
    requires
        bar.x + bar.width <= u16::MAX,
        bar.x + 10 <= u16::MAX,
        bar.x + 50 <= u16::MAX || bar.x + bar.width + 8 <= u16::MAX,
    ensures
        sort_bar_fits(bar),
{
    lemma_button_widths();
    reveal_with_fuel(buttons_fit, 7);
}

/// Places the sort buttons on a sort bar.
pub fn layout_sort_bar(bar: Rect) -> (buttons: Vec<(Rect, SortBy)>)
    requires
        sort_bar_fits(bar),
    ensures
        buttons@ == sort_button_layout(bar),
{
    proof {
        lemma_button_widths();
    }
    let order = vec![SortBy::CpuDesc, SortBy::CpuAsc, SortBy::MemDesc, SortBy::MemAsc, SortBy::Pid, SortBy::Name];
    assert(order@ == button_order());
    let right: u16 = bar.x + bar.width;
    let mut x: u16 = bar.x + 1;
    let y = bar.y;
    let mut buttons: Vec<(Rect, SortBy)> = Vec::new();
    let mut k: usize = 0;
    while k < 6
        invariant
            order@ == button_order(),
            right == bar.x + bar.width,
            y == bar.y,
            k <= 6,
            buttons_fit(k as nat, x as int, right as int),
            buttons@ + buttons_from(k as nat, x as int, y, right as int) == sort_button_layout(bar),
            button_width(SortBy::CpuDesc) == 8,
            button_width(SortBy::CpuAsc) == 8,
            button_width(SortBy::MemDesc) == 8,
            button_width(SortBy::MemAsc) == 8,
            button_width(SortBy::Pid) == 5,
            button_width(SortBy::Name) == 6,
        decreases 6 - k,
    {
        let s = order[k];
        let w: u16 = (button_label(s).as_bytes().len() + 2) as u16;
        assert(w == button_width(s));
        let b = (Rect { x, y, width: w, height: 1 }, s);
        let ghost rest = buttons_from(k as nat, x as int, y, right as int);
        buttons.push(b);
        x = x + w + 1;
        if x >= right {
            assert(rest == seq![b]);
            assert(buttons@ =~= sort_button_layout(bar));
            return buttons;
        }
        assert(rest == seq![b] + buttons_from((k + 1) as nat, x as int, y, right as int));
        assert(buttons@ + buttons_from((k + 1) as nat, x as int, y, right as int) =~= sort_button_layout(bar));
        k = k + 1;
    }
    assert(buttons@ =~= sort_button_layout(bar));
    buttons
}

/// The buttons from the `k`-th on lie one after the other along a single
/// row, the first at column `x`, each ending before the next one starts,
/// in the order of the buttons and as wide as their captions ask.
proof fn lemma_buttons_apart(k: nat, x: int, y: u16, right: int)
    requires
        0 <= x,
        buttons_fit(k, x, right),
    ensures
        k < 6 ==> buttons_from(k, x, y, right).len() >= 1,
        k < 6 ==> buttons_from(k, x, y, right)[0].0.x == x,
        k <= 6 ==> buttons_from(k, x, y, right).len() <= 6 - k,
        forall|j: int|
            0 <= j < buttons_from(k, x, y, right).len() ==> {
                &&& (#[trigger] buttons_from(k, x, y, right)[j]).0.x >= x
                &&& buttons_from(k, x, y, right)[j].0.y == y
                &&& buttons_from(k, x, y, right)[j].0.height == 1
                &&& buttons_from(k, x, y, right)[j].1 == button_order()[k + j]
                &&& buttons_from(k, x, y, right)[j].0.width == button_width(buttons_from(k, x, y, right)[j].1)
            },
        forall|i: int, j: int|
            0 <= i < j < buttons_from(k, x, y, right).len() ==> (#[trigger] buttons_from(
                k,
                x,
                y,
                right,
            )[i]).0.x + buttons_from(k, x, y, right)[i].0.width < (#[trigger] buttons_from(
                k,
                x,
                y,
                right,
            )[j]).0.x,
    decreases 6 - k,
{
    lemma_button_widths();
    if k < 6 {
        let s = button_order()[k as int];
        let w = button_width(s);
        let nx = x + w + 1;
        let all = buttons_from(k, x, y, right);
        if nx < right {
            lemma_buttons_apart(k + 1, nx, y, right);
            let rest = buttons_from(k + 1, nx, y, right);
            assert forall|j: int| 0 < j < all.len() implies all[j] == rest[j - 1] by {}
        }
    }
}

/// The laid-out sort buttons: at least one, the first on the bar's second
/// column, all on the bar's row, one cell high, in the order of the
/// buttons, as wide as their captions ask, and each ending before the next
/// starts, so that no two of them overlap.
pub proof fn lemma_sort_buttons_apart(bar: Rect)
    requires
        sort_bar_fits(bar),
    ensures
        1 <= sort_button_layout(bar).len() <= 6,
        sort_button_layout(bar)[0].0.x == bar.x + 1,
        forall|j: int|
            0 <= j < sort_button_layout(bar).len() ==> {
                &&& (#[trigger] sort_button_layout(bar)[j]).0.y == bar.y
                &&& sort_button_layout(bar)[j].0.height == 1
                &&& sort_button_layout(bar)[j].1 == button_order()[j]
                &&& sort_button_layout(bar)[j].0.width == button_width(sort_button_layout(bar)[j].1)
            },
        forall|i: int, j: int|
            0 <= i < j < sort_button_layout(bar).len() ==> (#[trigger] sort_button_layout(bar)[i]).0.x
                + sort_button_layout(bar)[i].0.width < (#[trigger] sort_button_layout(bar)[j]).0.x,
{
    lemma_buttons_apart(0, bar.x + 1, bar.y, bar.x + bar.width);
}

/// A sort bar at least 44 cells wide holds all six buttons.
pub proof fn lemma_all_buttons_placed(bar: Rect)
    requires
        sort_bar_fits(bar),
        bar.width >= 44,
    ensures
        sort_button_layout(bar).len() == 6,
{
    lemma_button_widths();
    reveal_with_fuel(buttons_from, 7);
}

/// A click anywhere on a laid-out sort button hits that button first.
pub proof fn lemma_sort_button_hit(bar: Rect, i: int, col: u16, row: u16)
    requires
        sort_bar_fits(bar),
        0 <= i < sort_button_layout(bar).len(),
        contains(sort_button_layout(bar)[i].0, col, row),
    ensures
        is_first_hit(sort_button_layout(bar), col, row, i),
        first_hit_sort(sort_button_layout(bar), col, row) == Some(sort_button_layout(bar)[i].1),
{
    let b = sort_button_layout(bar);
    lemma_buttons_apart(0, bar.x + 1, bar.y, bar.x + bar.width);
    assert forall|j: int| 0 <= j < i implies !contains(#[trigger] b[j].0, col, row) by {
        assert(b[j].0.x + b[j].0.width < b[i].0.x);
    }
    lemma_first_hit_sort(b, col, row, i);
}

/// Clicking a sort button of the last frame sorts by that button's order
/// and refreshes; the selected row stays.
pub proof fn lemma_click_sort_button(state: AppState, bar: Rect, m: MouseInput, i: int)
    requires
        sort_bar_fits(bar),
        state.sort_buttons@ == sort_button_layout(bar),
        m.kind == MouseKind::LeftDown,
        0 <= i < state.sort_buttons@.len(),
        contains(state.sort_buttons@[i].0, m.column, m.row),
    ensures
        mouse_outcome(state, m) == (Action::Refresh, state.sort_buttons@[i].1, state.selected_row),
{
    lemma_sort_button_hit(bar, i, m.column, m.row);
}

impl AppState {
    /// Lays out a frame in `area` and keeps its regions for hit-testing the
    /// mouse: the process panel, the row of the process table's header (the
    /// first row inside the table's border) and the sort buttons. A terminal
    /// too small for the dashboard changes nothing.
    pub fn prepare_frame(&mut self, area: Rect) -> (d: Option<Dashboard>)
        requires
            !is_too_small(area) ==> layout_fits(area),
        ensures
            is_too_small(area) ==> d is None && *final(self) == *old(self),
            !is_too_small(area) ==> d is Some,
            d matches Some(dash) ==> {
                &&& panels_within(dash, area)
                &&& grid_placed(dash, area)
                &&& final(self).proc_area == Some(dash.processes)
                &&& final(self).proc_header_y == Some(block_inner(dash.process_table).y)
                &&& final(self).proc_header_y == Some((dash.processes.y + 2) as u16)
                &&& final(self).sort_buttons@ == sort_button_layout(dash.sort_bar)
                &&& final(self).sort_buttons@.len() == 6
                &&& forall|j: int|
                    0 <= j < 6 ==> (#[trigger] final(self).sort_buttons@[j]).0.y == dash.processes.y
                        && final(self).sort_buttons@[j].1 == button_order()[j]
                &&& sort_bar_fits(dash.sort_bar)
                &&& final(self).sort_by == old(self).sort_by
                &&& final(self).selected_row == old(self).selected_row
            },
    {
        match dashboard_layout(area) {
            None => None,
            Some(d) => {
                proof {
                    lemma_sort_bar_room(d.sort_bar);
                    lemma_all_buttons_placed(d.sort_bar);
                    lemma_sort_buttons_apart(d.sort_bar);
                }
                self.sort_buttons = layout_sort_bar(d.sort_bar);
                self.proc_area = Some(d.processes);
                self.proc_header_y = Some(bordered_inner(d.process_table).y);
                Some(d)
            },
        }
    }
}

} // verus!
