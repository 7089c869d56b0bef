use ktop::geometry::{in_rect, Rect};
use ktop::input::{handle_input, handle_mouse, Action, AppState, Input, MouseInput, MouseKind};
use ktop::procs::SortBy;

fn r(x: u16, y: u16, width: u16, height: u16) -> Rect {
    Rect { x, y, width, height }
}

fn mouse(kind: MouseKind, column: u16, row: u16) -> MouseInput {
    MouseInput { kind, column, row }
}

fn state_with_table() -> AppState {
    let mut s = AppState::default();
    s.proc_area = Some(r(0, 20, 60, 20));
    s.proc_header_y = Some(22);
    s.sort_buttons = vec![(r(1, 20, 8, 1), SortBy::CpuDesc), (r(10, 20, 8, 1), SortBy::CpuAsc), (r(19, 20, 8, 1), SortBy::MemDesc)];
    s
}

#[test]
fn in_rect_bounds() {
    let b = r(2, 3, 4, 5);
    assert!(in_rect(2, 3, b));
    assert!(in_rect(5, 7, b));
    assert!(!in_rect(6, 3, b));
    assert!(!in_rect(2, 8, b));
    assert!(!in_rect(1, 3, b));
    assert!(!in_rect(0, 0, r(0, 0, 0, 0)));
    assert!(in_rect(u16::MAX, u16::MAX, r(u16::MAX, u16::MAX, 1, 1)));
}

#[test]
fn default_state() {
    let s = AppState::default();
    assert!(s.sort_by == SortBy::CpuDesc);
    assert_eq!(s.selected_row, None);
    assert!(s.proc_area.is_none());
    assert!(s.sort_buttons.is_empty());
}

#[test]
fn keys_quit_refresh_and_sort() {
    let cases = [
        ('q', Action::Quit, SortBy::Pid),
        ('Q', Action::Quit, SortBy::Pid),
        ('r', Action::Refresh, SortBy::Pid),
        ('R', Action::Refresh, SortBy::Pid),
        ('c', Action::Refresh, SortBy::CpuDesc),
        ('C', Action::Refresh, SortBy::CpuAsc),
        ('m', Action::Refresh, SortBy::MemDesc),
        ('M', Action::Refresh, SortBy::MemAsc),
        ('p', Action::Refresh, SortBy::Pid),
        ('n', Action::Refresh, SortBy::Name),
        ('N', Action::Continue, SortBy::Pid),
        ('P', Action::Continue, SortBy::Pid),
        ('x', Action::Continue, SortBy::Pid),
    ];
    for (c, action, sort) in cases {
        let mut s = AppState::default();
        s.sort_by = SortBy::Pid;
        s.selected_row = Some(3);
        assert!(s.on_key(c) == action, "{}", c);
        assert!(s.sort_by == sort, "{}", c);
        assert_eq!(s.selected_row, Some(3));
    }
}

#[test]
fn click_on_sort_button_sorts_and_refreshes() {
    let mut s = state_with_table();
    s.selected_row = Some(4);
    assert!(handle_mouse(&mut s, mouse(MouseKind::LeftDown, 12, 20)) == Action::Refresh);
    assert!(s.sort_by == SortBy::CpuAsc);
    assert_eq!(s.selected_row, Some(4));
}

#[test]
fn click_between_buttons_selects_nothing() {
    let mut s = state_with_table();
    // column 9 lies between the first two buttons, on the sort bar row
    assert!(handle_mouse(&mut s, mouse(MouseKind::LeftDown, 9, 20)) == Action::Continue);
    assert!(s.sort_by == SortBy::CpuDesc);
    assert_eq!(s.selected_row, None);
}

#[test]
fn click_on_process_row_selects_it() {
    let mut s = state_with_table();
    assert!(handle_mouse(&mut s, mouse(MouseKind::LeftDown, 5, 23)) == Action::Continue);
    assert_eq!(s.selected_row, Some(0));
    handle_mouse(&mut s, mouse(MouseKind::LeftDown, 5, 27));
    assert_eq!(s.selected_row, Some(4));
    // the header row and clicks outside the panel keep the selection
    handle_mouse(&mut s, mouse(MouseKind::LeftDown, 5, 22));
    assert_eq!(s.selected_row, Some(4));
    handle_mouse(&mut s, mouse(MouseKind::LeftDown, 70, 25));
    assert_eq!(s.selected_row, Some(4));
}

#[test]
fn wheel_moves_selection_within_table() {
    let mut s = state_with_table();
    handle_mouse(&mut s, mouse(MouseKind::ScrollDown, 0, 0));
    assert_eq!(s.selected_row, None);
    s.selected_row = Some(8);
    handle_mouse(&mut s, mouse(MouseKind::ScrollDown, 0, 0));
    assert_eq!(s.selected_row, Some(9));
    handle_mouse(&mut s, mouse(MouseKind::ScrollDown, 0, 0));
    assert_eq!(s.selected_row, Some(9));
    s.selected_row = Some(usize::MAX);
    handle_mouse(&mut s, mouse(MouseKind::ScrollDown, 0, 0));
    assert_eq!(s.selected_row, Some(9));
    s.selected_row = Some(1);
    handle_mouse(&mut s, mouse(MouseKind::ScrollUp, 0, 0));
    assert_eq!(s.selected_row, Some(0));
    handle_mouse(&mut s, mouse(MouseKind::ScrollUp, 0, 0));
    assert_eq!(s.selected_row, Some(0));
}

#[test]
fn hover_follows_pointer() {
    let mut s = state_with_table();
    handle_mouse(&mut s, mouse(MouseKind::Moved, 3, 25));
    assert_eq!(s.selected_row, Some(2));
    handle_mouse(&mut s, mouse(MouseKind::Moved, 3, 21));
    assert_eq!(s.selected_row, None);
    let mut t = AppState::default();
    t.selected_row = Some(5);
    handle_mouse(&mut t, mouse(MouseKind::Moved, 3, 25));
    assert_eq!(t.selected_row, Some(5));
}

#[test]
fn other_mouse_input_changes_nothing() {
    let mut s = state_with_table();
    s.selected_row = Some(2);
    assert!(handle_mouse(&mut s, mouse(MouseKind::Other, 12, 20)) == Action::Continue);
    assert_eq!(s.selected_row, Some(2));
    assert!(s.sort_by == SortBy::CpuDesc);
}

#[test]
fn handle_input_dispatches() {
    let mut s = state_with_table();
    assert!(handle_input(&mut s, Input::Key('m')) == Action::Refresh);
    assert!(s.sort_by == SortBy::MemDesc);
    assert!(handle_input(&mut s, Input::Mouse(mouse(MouseKind::LeftDown, 2, 20))) == Action::Refresh);
    assert!(s.sort_by == SortBy::CpuDesc);
    assert!(handle_input(&mut s, Input::Ignored) == Action::Continue);
    assert!(s.sort_by == SortBy::CpuDesc);
    assert!(handle_input(&mut s, Input::Key('q')) == Action::Quit);
}
