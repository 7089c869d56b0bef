use ktop::geometry::Rect;
use ktop::input::{handle_mouse, Action, AppState, MouseInput, MouseKind};
use ktop::layout::{
    bordered_inner, button_label, can_lay_out, dashboard_layout, layout_sort_bar, stack_rows, too_small,
};
use ktop::procs::SortBy;
use tui::layout::{Constraint, Direction, Layout};

fn r(x: u16, y: u16, width: u16, height: u16) -> Rect {
    Rect { x, y, width, height }
}

fn tui_rect(a: Rect) -> tui::layout::Rect {
    tui::layout::Rect { x: a.x, y: a.y, width: a.width, height: a.height }
}

#[test]
fn too_small_below_80_by_24() {
    assert!(too_small(r(0, 0, 79, 40)));
    assert!(too_small(r(0, 0, 120, 23)));
    assert!(!too_small(r(0, 0, 80, 24)));
    assert!(dashboard_layout(r(0, 0, 79, 24)).is_none());
}

#[test]
fn dashboard_grid_of_100_by_40() {
    let d = dashboard_layout(r(0, 0, 100, 40)).unwrap();
    assert!(d.header == r(0, 0, 100, 3));
    assert!(d.footer == r(0, 39, 100, 1));
    assert!(d.cpu == r(0, 3, 60, 18));
    assert!(d.memory == r(60, 3, 40, 18));
    assert!(d.processes == r(0, 21, 60, 18));
    assert!(d.sort_bar == r(0, 21, 60, 1));
    assert!(d.process_table == r(0, 22, 60, 17));
    assert!(d.disk == r(60, 21, 40, 9));
    assert!(d.network == r(60, 30, 40, 9));
}

#[test]
fn dashboard_matches_tui_layout() {
    let area = r(0, 0, 133, 51);
    let d = dashboard_layout(area).unwrap();
    let root = Layout::default()
        .direction(Direction::Vertical)
        .constraints([Constraint::Length(3), Constraint::Min(0), Constraint::Length(1)])
        .split(tui_rect(area));
    let rows = Layout::default()
        .direction(Direction::Vertical)
        .constraints([Constraint::Percentage(50), Constraint::Percentage(50)])
        .split(root[1]);
    let bot = Layout::default()
        .direction(Direction::Horizontal)
        .constraints([Constraint::Percentage(60), Constraint::Percentage(40)])
        .split(rows[1]);
    assert!(tui_rect(d.header) == root[0]);
    assert!(tui_rect(d.footer) == root[2]);
    assert!(tui_rect(d.processes) == bot[0]);
}

#[test]
fn bordered_inner_loses_one_cell_each_side() {
    assert!(bordered_inner(r(0, 22, 60, 17)) == r(1, 23, 58, 15));
    assert!(bordered_inner(r(5, 5, 1, 1)) == r(6, 6, 0, 0));
    assert!(bordered_inner(r(5, 5, 0, 0)) == r(5, 5, 0, 0));
    let block = tui::widgets::Block::default().borders(tui::widgets::Borders::ALL).title("t");
    for a in [r(3, 4, 10, 6), r(0, 0, 1, 1), r(65534, 65534, 1, 1), r(7, 7, 0, 2)] {
        assert!(tui_rect(bordered_inner(a)) == block.inner(tui_rect(a)));
    }
}

#[test]
fn button_widths_follow_labels() {
    for s in [SortBy::CpuDesc, SortBy::CpuAsc, SortBy::MemDesc, SortBy::MemAsc, SortBy::Pid, SortBy::Name] {
        let b = layout_sort_bar(r(0, 0, 200, 1));
        let (rect, _) = b.iter().find(|(_, t)| *t == s).unwrap();
        assert_eq!(rect.width as usize, button_label(s).len() + 2);
    }
    assert_eq!(button_label(SortBy::CpuDesc), "CPU▼");
    assert_eq!(button_label(SortBy::Name), "NAME");
}

#[test]
fn sort_bar_places_buttons_left_to_right() {
    let b = layout_sort_bar(r(0, 21, 60, 1));
    let xs: Vec<u16> = b.iter().map(|(rect, _)| rect.x).collect();
    let ws: Vec<u16> = b.iter().map(|(rect, _)| rect.width).collect();
    assert_eq!(xs, vec![1, 10, 19, 28, 37, 43]);
    assert_eq!(ws, vec![8, 8, 8, 8, 5, 6]);
    assert!(b.iter().all(|(rect, _)| rect.y == 21 && rect.height == 1));
    assert!(b[4].1 == SortBy::Pid);
}

#[test]
fn narrow_sort_bar_stops_early() {
    let b = layout_sort_bar(r(0, 0, 20, 1));
    let xs: Vec<u16> = b.iter().map(|(rect, _)| rect.x).collect();
    assert_eq!(xs, vec![1, 10, 19]);
    let one = layout_sort_bar(r(4, 0, 1, 1));
    assert_eq!(one.len(), 1);
    assert_eq!(one[0].0.x, 5);
}

#[test]
fn prepare_frame_records_regions() {
    let mut s = AppState::default();
    s.selected_row = Some(2);
    let d = s.prepare_frame(r(0, 0, 100, 40)).unwrap();
    assert!(s.proc_area == Some(d.processes));
    assert_eq!(s.proc_header_y, Some(23));
    assert_eq!(s.sort_buttons.len(), 6);
    assert_eq!(s.selected_row, Some(2));
    // a click on the "PID" button sorts by PID
    let pid = s.sort_buttons[4].0;
    assert!(handle_mouse(&mut s, MouseInput { kind: MouseKind::LeftDown, column: pid.x + 2, row: pid.y }) == Action::Refresh);
    assert!(s.sort_by == SortBy::Pid);
}

#[test]
fn prepare_frame_in_small_terminal_changes_nothing() {
    let mut s = AppState::default();
    s.proc_header_y = Some(7);
    assert!(s.prepare_frame(r(0, 0, 40, 10)).is_none());
    assert_eq!(s.proc_header_y, Some(7));
    assert!(s.sort_buttons.is_empty());
}

#[test]
fn stack_rows_gives_one_cell_rows_then_the_rest() {
    let rows = stack_rows(r(3, 4, 20, 10), 3);
    assert_eq!(rows.len(), 4);
    assert!(rows[0] == r(3, 4, 20, 1));
    assert!(rows[1] == r(3, 5, 20, 1));
    assert!(rows[2] == r(3, 6, 20, 1));
    assert!(rows[3] == r(3, 7, 20, 7));
    let full = stack_rows(r(0, 0, 5, 2), 2);
    assert!(full[1] == r(0, 1, 5, 1));
    assert!(full[2] == r(0, 2, 5, 0));
    let only_rest = stack_rows(r(1, 1, 5, 5), 0);
    assert!(only_rest.len() == 1 && only_rest[0] == r(1, 1, 5, 5));
}

#[test]
fn tall_terminal_lays_out() {
    for h in [1311u16, 1312, 1313, 1314] {
        let area = r(0, 0, 100, h);
        assert!(can_lay_out(area));
        let d = dashboard_layout(area).unwrap();
        assert!(d.footer == r(0, h - 1, 100, 1));
        assert_eq!(d.network.y + d.network.height, h - 1);
    }
    assert!(!can_lay_out(r(0, 0, 100, 1315)));
    assert!(!can_lay_out(r(0, 0, 1093, 40)));
    assert!(can_lay_out(r(0, 0, 1092, 40)));
}

#[test]
fn dashboard_panels_touch_the_edges() {
    let area = r(0, 0, 211, 57);
    let d = dashboard_layout(area).unwrap();
    assert!(d.header == r(0, 0, 211, 3));
    assert!(d.footer == r(0, 56, 211, 1));
    assert!(d.cpu.x == 0 && d.cpu.y == 3);
    assert!(d.memory.y == 3 && d.memory.x + d.memory.width == 211);
    assert!(d.processes.x == 0 && d.processes.y + d.processes.height == 56);
    assert!(d.disk.y == d.processes.y && d.disk.x + d.disk.width == 211);
    assert!(d.network.y + d.network.height == 56);
    assert!(d.sort_bar == r(0, d.processes.y, d.processes.width, 1));
    assert!(d.process_table.y == d.processes.y + 1);
}

#[test]
fn sort_bar_near_the_last_column() {
    let bar = r(65000, 0, 527, 1);
    let b = layout_sort_bar(bar);
    assert_eq!(b.len(), 6);
    assert_eq!(b[5].0.x + b[5].0.width, 65049);
    let edge = r(65500, 0, 26, 1);
    let xs: Vec<u16> = layout_sort_bar(edge).iter().map(|(rect, _)| rect.x).collect();
    assert_eq!(xs, vec![65501, 65510, 65519]);
}

#[test]
fn sort_buttons_do_not_overlap() {
    for w in [1u16, 10, 19, 30, 45, 60, 200] {
        let b = layout_sort_bar(r(2, 5, w, 1));
        assert!(!b.is_empty());
        assert_eq!(b[0].0.x, 3);
        for pair in b.windows(2) {
            assert!(pair[0].0.x + pair[0].0.width < pair[1].0.x);
        }
    }
}

#[test]
fn grid_follows_the_percentages() {
    for w in (80u16..=400).step_by(7) {
        for h in (24u16..=200).step_by(5) {
            let area = r(2, 1, w, h);
            let mut s = AppState::default();
            let d = s.prepare_frame(area).unwrap();
            let grid = h - 4;
            let upper = grid * 50 / 100;
            let lower = grid - upper;
            let left = w * 60 / 100;
            let right = w - left;
            let disk = lower * 50 / 100;
            let ly = 1 + 3 + upper;
            assert!(d.header == r(2, 1, w, 3));
            assert!(d.cpu == r(2, 4, left, upper), "{}x{}", w, h);
            assert!(d.memory == r(2 + left, 4, right, upper), "{}x{}", w, h);
            assert!(d.processes == r(2, ly, left, lower), "{}x{}", w, h);
            assert!(d.sort_bar == r(2, ly, left, 1));
            assert!(d.process_table == r(2, ly + 1, left, lower - 1));
            assert!(d.disk == r(2 + left, ly, right, disk), "{}x{}", w, h);
            assert!(d.network == r(2 + left, ly + disk, right, lower - disk), "{}x{}", w, h);
            assert!(d.footer == r(2, h, w, 1));
            assert_eq!(s.proc_header_y, Some(ly + 2));
            assert_eq!(s.sort_buttons.len(), 6);
        }
    }
}
