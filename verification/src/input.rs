//! Reacting to keys and to the mouse: the sort order, the selected process
//! row, and whether to refresh or quit.
use vstd::prelude::*;

use crate::geometry::{contains, in_rect, Rect};
use crate::procs::SortBy;

verus! {

/// Number of rows of the process table; the scroll wheel stops on the last.
pub const LAST_PROCESS_ROW: usize = 9;

/// What the main loop does after an input.
#[derive(Clone, Copy, Debug, PartialEq, Eq, Structural)]
pub enum Action {
    Quit,
    Refresh,
    /// Nothing to do; the loop goes on.
    Continue,
}

/// The kinds of mouse input that matter.
#[derive(Clone, Copy, Debug, PartialEq, Eq, Structural)]
pub enum MouseKind {
    /// The left button went down.
    LeftDown,
    ScrollDown,
    ScrollUp,
    Moved,
    /// Anything else (other buttons, releases, drags).
    Other,
}

/// A mouse input at a terminal cell.
#[derive(Clone, Copy, Debug, PartialEq, Eq, Structural)]
pub struct MouseInput {
    pub kind: MouseKind,
    pub column: u16,
    pub row: u16,
}

/// One terminal input.
#[derive(Clone, Copy, Debug, PartialEq, Eq, Structural)]
pub enum Input {
    /// A key that types a character.
    Key(char),
    Mouse(MouseInput),
    /// Any other key or event.
    Ignored,
}

/// The interactive state: sort order, selected row, and the regions the
/// last frame drew for hit-testing clicks.
pub struct AppState {
    pub sort_by: SortBy,
    /// The process row under the mouse or last clicked.
    pub selected_row: Option<usize>,
    /// The process panel of the last frame.
    pub proc_area: Option<Rect>,
    /// The row of the process table's header in the last frame.
    pub proc_header_y: Option<u16>,
    /// The sort buttons of the last frame, left to right.
    pub sort_buttons: Vec<(Rect, SortBy)>,
}

impl Default for AppState {
    fn default() -> (s: AppState)
        ensures
            s.sort_by == SortBy::CpuDesc,
            s.selected_row is None,
            s.proc_area is None,
            s.proc_header_y is None,
            s.sort_buttons@.len() == 0,
    {
        AppState {
            sort_by: SortBy::CpuDesc,
            selected_row: None,
            proc_area: None,
            proc_header_y: None,
            sort_buttons: Vec::new(),
        }
    }
}

/// The sort order a key selects: `c`/`C` CPU most/least first, `m`/`M`
/// memory most/least first, `p` PID, `n` name.
pub open spec fn key_sort(c: char) -> Option<SortBy> {
    if c == 'c' {
        Some(SortBy::CpuDesc)
    } else if c == 'C' {
        Some(SortBy::CpuAsc)
    } else if c == 'm' {
        Some(SortBy::MemDesc)
    } else if c == 'M' {
        Some(SortBy::MemAsc)
    } else if c == 'p' {
        Some(SortBy::Pid)
    } else if c == 'n' {
        Some(SortBy::Name)
    } else {
        None
    }
}

/// What a key does: `q`/`Q` quit, `r`/`R` and the sort keys refresh.
pub open spec fn key_action(c: char) -> Action {
    if c == 'q' || c == 'Q' {
        Action::Quit
    } else if c == 'r' || c == 'R' || key_sort(c) is Some {
        Action::Refresh
    } else {
        Action::Continue
    }
}

/// The process row under a cell: the rows start just below the header row
/// of the process table; none outside the process panel.
pub open spec fn row_under(area: Option<Rect>, header_y: Option<u16>, col: u16, row: u16) -> Option<
    usize,
> {
    match (area, header_y) {
        (Some(a), Some(h)) => if contains(a, col, row) && row > h {
            Some((row - h - 1) as usize)
        } else {
            None
        },
        _ => None,
    }
}

/// The order of the first of `buttons` that holds the cell, if any.
pub open spec fn first_hit_sort(buttons: Seq<(Rect, SortBy)>, col: u16, row: u16) -> Option<SortBy>
    decreases buttons.len(),
{
    if buttons.len() == 0 {
        None
    } else if contains(buttons[0].0, col, row) {
        Some(buttons[0].1)
    } else {
        first_hit_sort(buttons.drop_first(), col, row)
    }
}

/// Button `i` is the first of `buttons` that holds the cell.
pub open spec fn is_first_hit(buttons: Seq<(Rect, SortBy)>, col: u16, row: u16, i: int) -> bool {
    &&& 0 <= i < buttons.len()
    &&& contains(buttons[i].0, col, row)
    &&& forall|j: int| 0 <= j < i ==> !contains(#[trigger] buttons[j].0, col, row)
}

/// When button `i` is the first to hold the cell, a click there picks its
/// order.
pub proof fn lemma_first_hit_sort(buttons: Seq<(Rect, SortBy)>, col: u16, row: u16, i: int)
    requires
        is_first_hit(buttons, col, row, i),
    ensures
        first_hit_sort(buttons, col, row) == Some(buttons[i].1),
    decreases i,
{
    if i > 0 {
        assert(!contains(buttons[0].0, col, row));
        assert forall|j: int| 0 <= j < i - 1 implies !contains(
            #[trigger] buttons.drop_first()[j].0,
            col,
            row,
        ) by {
            assert(buttons.drop_first()[j] == buttons[j + 1]);
        }
        lemma_first_hit_sort(buttons.drop_first(), col, row, i - 1);
    }
}

/// The selection after a wheel step down: one row further, stopping at the
/// last row.
pub open spec fn scrolled_down(sel: Option<usize>) -> Option<usize> {
    match sel {
        Some(s) => Some(
            if s >= LAST_PROCESS_ROW {
                LAST_PROCESS_ROW
            } else {
                (s + 1) as usize
            },
        ),
        None => None,
    }
}

/// The selection after a wheel step up: one row back, stopping at the first.
pub open spec fn scrolled_up(sel: Option<usize>) -> Option<usize> {
    match sel {
        Some(s) => Some(
            if s == 0 {
                0
            } else {
                (s - 1) as usize
            },
        ),
        None => None,
    }
}

/// The wheel never moves the selection past the last row of the table, nor
/// above the first; scrolling up and then down from a row before the last
/// comes back to it.
pub proof fn lemma_wheel_in_table(sel: Option<usize>)
    ensures
        scrolled_down(sel) matches Some(s) ==> s <= LAST_PROCESS_ROW,
        sel matches Some(s) && s <= LAST_PROCESS_ROW ==> (scrolled_up(sel) matches Some(t) && t
            <= LAST_PROCESS_ROW),
        sel matches Some(s) && 0 < s <= LAST_PROCESS_ROW ==> scrolled_down(scrolled_up(sel)) == sel,
{
}

/// The selection after the pointer moved to a cell: the row under it, none
/// off the table; unchanged while the last frame drew no table.
pub open spec fn hovered(
    sel: Option<usize>,
    area: Option<Rect>,
    header_y: Option<u16>,
    col: u16,
    row: u16,
) -> Option<usize> {
    if area is Some && header_y is Some {
        row_under(area, header_y, col, row)
    } else {
        sel
    }
}

/// The selection after a click that hit no button: the row under it, when
/// there is one; unchanged otherwise.
pub open spec fn clicked(
    sel: Option<usize>,
    area: Option<Rect>,
    header_y: Option<u16>,
    col: u16,
    row: u16,
) -> Option<usize> {
    match row_under(area, header_y, col, row) {
        Some(r) => Some(r),
        None => sel,
    }
}

/// The process row under a cell, if any.
fn row_at(area: Option<Rect>, header_y: Option<u16>, col: u16, row: u16) -> (r: Option<usize>)
    ensures
        r == row_under(area, header_y, col, row),
{
    match (area, header_y) {
        (Some(a), Some(h)) => if in_rect(col, row, a) && row > h {
            Some((row - h - 1) as usize)
        } else {
            None
        },
        _ => None,
    }
}

impl AppState {
    /// Reacts to a key: quits on `q`/`Q`, refreshes on `r`/`R`, and on a
    /// sort key takes that order and refreshes.
    pub fn on_key(&mut self, c: char) -> (a: Action)
        ensures
            a == key_action(c),
            final(self).sort_by == (match key_sort(c) {
                Some(s) => s,
                None => old(self).sort_by,
            }),
            final(self).selected_row == old(self).selected_row,
            final(self).proc_area == old(self).proc_area,
            final(self).proc_header_y == old(self).proc_header_y,
            final(self).sort_buttons == old(self).sort_buttons,
    {
        if c == 'q' || c == 'Q' {
            Action::Quit
        } else if c == 'r' || c == 'R' {
            Action::Refresh
        } else if c == 'c' {
            self.sort_by = SortBy::CpuDesc;
            Action::Refresh
        } else if c == 'C' {
            self.sort_by = SortBy::CpuAsc;
            Action::Refresh
        } else if c == 'm' {
            self.sort_by = SortBy::MemDesc;
            Action::Refresh
        } else if c == 'M' {
            self.sort_by = SortBy::MemAsc;
            Action::Refresh
        } else if c == 'p' {
            self.sort_by = SortBy::Pid;
            Action::Refresh
        } else if c == 'n' {
            self.sort_by = SortBy::Name;
            Action::Refresh
        } else {
            Action::Continue
        }
    }
}

/// What a mouse input does to a state: the action, the sort order and the
/// selected row after it.
pub open spec fn mouse_outcome(s: AppState, m: MouseInput) -> (Action, SortBy, Option<usize>) {
    match m.kind {
        MouseKind::LeftDown => match first_hit_sort(s.sort_buttons@, m.column, m.row) {
            Some(order) => (Action::Refresh, order, s.selected_row),
            None => (
                Action::Continue,
                s.sort_by,
                clicked(s.selected_row, s.proc_area, s.proc_header_y, m.column, m.row),
            ),
        },
        MouseKind::ScrollDown => (Action::Continue, s.sort_by, scrolled_down(s.selected_row)),
        MouseKind::ScrollUp => (Action::Continue, s.sort_by, scrolled_up(s.selected_row)),
        MouseKind::Moved => (
            Action::Continue,
            s.sort_by,
            hovered(s.selected_row, s.proc_area, s.proc_header_y, m.column, m.row),
        ),
        MouseKind::Other => (Action::Continue, s.sort_by, s.selected_row),
    }
}

/// Reacts to the mouse: a left click on a sort button takes its order and
/// refreshes, elsewhere it selects the process row under it; the wheel moves
/// the selection; moving the pointer selects the row under it.
pub fn handle_mouse(state: &mut AppState, m: MouseInput) -> (a: Action)
    ensures
        (a, final(state).sort_by, final(state).selected_row) == mouse_outcome(*old(state), m),
        final(state).proc_area == old(state).proc_area,
        final(state).proc_header_y == old(state).proc_header_y,
        final(state).sort_buttons == old(state).sort_buttons,
{
    let col = m.column;
    let row = m.row;
    match m.kind {
        MouseKind::LeftDown => {
            let mut i: usize = 0;
            assert(state.sort_buttons@.skip(0) =~= state.sort_buttons@);
            while i < state.sort_buttons.len()
                invariant
                    i <= state.sort_buttons@.len(),
                    m.kind == MouseKind::LeftDown,
                    col == m.column && row == m.row,
                    state.sort_buttons == old(state).sort_buttons,
                    state.sort_by == old(state).sort_by,
                    state.selected_row == old(state).selected_row,
                    state.proc_area == old(state).proc_area,
                    state.proc_header_y == old(state).proc_header_y,
                    first_hit_sort(state.sort_buttons@, col, row) == first_hit_sort(
                        state.sort_buttons@.skip(i as int),
                        col,
                        row,
                    ),
                decreases state.sort_buttons@.len() - i,
            {
                let (rect, sort) = state.sort_buttons[i];
                assert(state.sort_buttons@.skip(i as int)[0] == state.sort_buttons@[i as int]);
                if in_rect(col, row, rect) {
                    state.sort_by = sort;
                    return Action::Refresh;
                }
                assert(state.sort_buttons@.skip(i as int).drop_first() =~= state.sort_buttons@.skip(
                    i + 1,
                ));
                i = i + 1;
            }
            match row_at(state.proc_area, state.proc_header_y, col, row) {
                Some(r) => {
                    state.selected_row = Some(r);
                },
                None => {},
            }
            Action::Continue
        },
        MouseKind::ScrollDown => {
            match state.selected_row {
                Some(s) => {
                    state.selected_row = Some(
                        if s >= LAST_PROCESS_ROW {
                            LAST_PROCESS_ROW
                        } else {
                            s + 1
                        },
                    );
                },
                None => {},
            }
            Action::Continue
        },
        MouseKind::ScrollUp => {
            match state.selected_row {
                Some(s) => {
                    state.selected_row = Some(
                        if s == 0 {
                            0
                        } else {
                            s - 1
                        },
                    );
                },
                None => {},
            }
            Action::Continue
        },
        MouseKind::Moved => {
            if state.proc_area.is_some() && state.proc_header_y.is_some() {
                state.selected_row = row_at(state.proc_area, state.proc_header_y, col, row);
            }
            Action::Continue
        },
        MouseKind::Other => Action::Continue,
    }
}

/// Reacts to one terminal input (see [`AppState::on_key`] and
/// [`handle_mouse`]); other inputs change nothing.
pub fn handle_input(state: &mut AppState, input: Input) -> (a: Action)
    ensures
        match input {
            Input::Key(c) => a == key_action(c) && final(state).sort_by == (match key_sort(c) {
                Some(s) => s,
                None => old(state).sort_by,
            }) && final(state).selected_row == old(state).selected_row,
            Input::Mouse(m) => (a, final(state).sort_by, final(state).selected_row)
                == mouse_outcome(*old(state), m),
            Input::Ignored => a == Action::Continue && final(state).sort_by == old(state).sort_by
                && final(state).selected_row == old(state).selected_row,
        },
        final(state).proc_area == old(state).proc_area,
        final(state).proc_header_y == old(state).proc_header_y,
        final(state).sort_buttons == old(state).sort_buttons,
{
    match input {
        Input::Key(c) => state.on_key(c),
        Input::Mouse(m) => handle_mouse(state, m),
        Input::Ignored => Action::Continue,
    }
}

/// The cell lies in `a`, below header row `h`: on a row of the process
/// table, counted from 0 just under the header.
pub open spec fn on_table_row(a: Rect, h: u16, col: u16, row: u16) -> bool {
    &&& a.x <= col < a.x + a.width
    &&& a.y <= row < a.y + a.height
    &&& row > h
}

/// Moving the pointer never refreshes nor changes the order. While the
/// last frame drew a process table, it selects the row under the pointer
/// (`row - header - 1`) and clears the selection anywhere else, off the
/// panel included; while it drew none, the selection stays.
pub proof fn lemma_pointer_moves(s: AppState, m: MouseInput)
    requires
        m.kind == MouseKind::Moved,
    ensures
        mouse_outcome(s, m).0 == Action::Continue,
        mouse_outcome(s, m).1 == s.sort_by,
        s.proc_area matches Some(a) ==> (s.proc_header_y matches Some(h) ==> (on_table_row(a, h, m.column, m.row)
            ==> mouse_outcome(s, m).2 == Some((m.row - h - 1) as usize))),
        s.proc_area matches Some(a) ==> (s.proc_header_y matches Some(h) ==> (!on_table_row(a, h, m.column, m.row)
            ==> mouse_outcome(s, m).2 is None)),
        s.proc_area is None || s.proc_header_y is None ==> mouse_outcome(s, m).2 == s.selected_row,
{
}

/// A left click that hits no sort button keeps the order and does not
/// refresh; on a row of the process table it selects that row, anywhere
/// else the selection stays.
pub proof fn lemma_click_off_buttons(s: AppState, m: MouseInput)
    requires
        m.kind == MouseKind::LeftDown,
        forall|i: int| 0 <= i < s.sort_buttons@.len() ==> !contains(#[trigger] s.sort_buttons@[i].0, m.column, m.row),
    ensures
        mouse_outcome(s, m).0 == Action::Continue,
        mouse_outcome(s, m).1 == s.sort_by,
        s.proc_area matches Some(a) ==> (s.proc_header_y matches Some(h) ==> (on_table_row(a, h, m.column, m.row)
            ==> mouse_outcome(s, m).2 == Some((m.row - h - 1) as usize))),
        s.proc_area matches Some(a) ==> (s.proc_header_y matches Some(h) ==> (!on_table_row(a, h, m.column, m.row)
            ==> mouse_outcome(s, m).2 == s.selected_row)),
        s.proc_area is None || s.proc_header_y is None ==> mouse_outcome(s, m).2 == s.selected_row,
{
    lemma_no_hit(s.sort_buttons@, m.column, m.row);
}

/// No button holds the cell, so a click there picks no order.
proof fn lemma_no_hit(buttons: Seq<(Rect, SortBy)>, col: u16, row: u16)
    requires
        forall|i: int| 0 <= i < buttons.len() ==> !contains(#[trigger] buttons[i].0, col, row),
    ensures
        first_hit_sort(buttons, col, row) is None,
    decreases buttons.len(),
{
    if buttons.len() > 0 {
        assert(!contains(buttons[0].0, col, row));
        assert forall|i: int| 0 <= i < buttons.drop_first().len() implies !contains(
            #[trigger] buttons.drop_first()[i].0,
            col,
            row,
        ) by {
            assert(buttons.drop_first()[i] == buttons[i + 1]);
        }
        lemma_no_hit(buttons.drop_first(), col, row);
    }
}

/// The wheel keeps the order and does not refresh; down moves the
/// selection one row further, stopping at row 9; up one row back,
/// stopping at row 0; with nothing selected it selects nothing.
pub proof fn lemma_wheel_steps(s: AppState, m: MouseInput)
    requires
        m.kind == MouseKind::ScrollDown || m.kind == MouseKind::ScrollUp,
    ensures
        mouse_outcome(s, m).0 == Action::Continue,
        mouse_outcome(s, m).1 == s.sort_by,
        s.selected_row is None ==> mouse_outcome(s, m).2 is None,
        s.selected_row matches Some(r) ==> (m.kind == MouseKind::ScrollDown && r < 9 ==> mouse_outcome(s, m).2
            == Some((r + 1) as usize)),
        s.selected_row matches Some(r) ==> (m.kind == MouseKind::ScrollDown && r >= 9 ==> mouse_outcome(s, m).2
            == Some(9usize)),
        s.selected_row matches Some(r) ==> (m.kind == MouseKind::ScrollUp && r > 0 ==> mouse_outcome(s, m).2
            == Some((r - 1) as usize)),
        s.selected_row matches Some(r) ==> (m.kind == MouseKind::ScrollUp && r == 0 ==> mouse_outcome(s, m).2
            == Some(0usize)),
{
}

/// The keys: `q` and `Q` quit; `r` and `R` refresh; `c`, `C`, `m`, `M`,
/// `p`, `n` sort by most CPU, least CPU, most memory, least memory, PID
/// and name, and refresh; every other key does nothing.
pub proof fn lemma_keys(c: char)
    ensures
        (c == 'q' || c == 'Q') <==> key_action(c) == Action::Quit,
        key_action(c) == Action::Refresh <==> (c == 'r' || c == 'R' || c == 'c' || c == 'C' || c == 'm' || c == 'M'
            || c == 'p' || c == 'n'),
        (key_sort(c) == Some(SortBy::CpuDesc)) == (c == 'c'),
        (key_sort(c) == Some(SortBy::CpuAsc)) == (c == 'C'),
        (key_sort(c) == Some(SortBy::MemDesc)) == (c == 'm'),
        (key_sort(c) == Some(SortBy::MemAsc)) == (c == 'M'),
        (key_sort(c) == Some(SortBy::Pid)) == (c == 'p'),
        (key_sort(c) == Some(SortBy::Name)) == (c == 'n'),
{
}

} // verus!
