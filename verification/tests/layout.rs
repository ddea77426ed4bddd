use sambil::scroll::ScrollOffset;
use sambil::size::{ColOffset, ContentArea, Rows, TerminalSize};

#[test]
fn terminal_size_rejects_zero_dimensions() {
    assert!(TerminalSize::new(0, 24).is_none());
    assert!(TerminalSize::new(80, 0).is_none());
    let s = TerminalSize::new(80, 24).unwrap();
    assert_eq!(s.cols(), 80);
    assert_eq!(s.rows(), 24);
}

#[test]
fn terminal_size_clamps_zero_to_one() {
    let s = TerminalSize::new_clamped(0, 0);
    assert_eq!((s.cols(), s.rows()), (1, 1));
    let s = TerminalSize::new_clamped(120, 0);
    assert_eq!((s.cols(), s.rows()), (120, 1));
}

#[test]
fn content_area_leaves_a_row_for_the_tab_bar() {
    let area = ContentArea::from(TerminalSize::new(80, 24).unwrap());
    assert_eq!((area.cols(), area.rows()), (80, 23));
    let tiny = ContentArea::from(TerminalSize::new(10, 1).unwrap());
    assert_eq!((tiny.cols(), tiny.rows()), (10, 1));
    let full = area.full_size();
    assert_eq!((full.cols(), full.rows()), (80, 23));
}

#[test]
fn split_two_panes_fills_the_width() {
    let area = ContentArea::from(TerminalSize::new(80, 24).unwrap());
    let sizes = area.split_horizontal(2);
    assert_eq!(sizes.len(), 2);
    // 79 columns for panes after one divider: 39 and 40.
    assert_eq!(sizes[0].cols(), 39);
    assert_eq!(sizes[1].cols(), 40);
    assert_eq!(sizes[0].cols() + sizes[1].cols() + 1, 80);
    assert!(sizes.iter().all(|s| s.rows() == 23));
}

#[test]
fn split_three_panes_last_absorbs_remainder() {
    let area = ContentArea::from(TerminalSize::new(100, 10).unwrap());
    let sizes = area.split_horizontal(3);
    let widths: Vec<u16> = sizes.iter().map(|s| s.cols()).collect();
    assert_eq!(widths, vec![32, 32, 34]);
    assert_eq!(widths.iter().sum::<u16>() + 2, 100);
}

#[test]
fn split_zero_panes_is_empty_and_narrow_area_keeps_one_column() {
    let area = ContentArea::from(TerminalSize::new(3, 5).unwrap());
    assert!(area.split_horizontal(0).is_empty());
    let sizes = area.split_horizontal(5);
    assert_eq!(sizes.len(), 5);
    assert!(sizes.iter().all(|s| s.cols() >= 1));
}

#[test]
fn col_offset_advances_past_pane_and_divider() {
    let o = ColOffset::zero().advance_past_pane(39);
    assert_eq!(u16::from(o), 40);
    let far = ColOffset::zero().advance_past_pane(65535);
    assert_eq!(u16::from(far), 65535);
}

#[test]
fn rows_are_at_least_one() {
    assert_eq!(usize::from(Rows::new_clamped(0)), 1);
    assert_eq!(usize::from(Rows::from(TerminalSize::new(80, 24).unwrap())), 24);
}

#[test]
fn scroll_up_then_down_returns_home() {
    let s = ScrollOffset::zero().scroll_up().scroll_up();
    assert_eq!(usize::from(s), 2);
    assert_eq!(usize::from(s.scroll_down()), 1);
    assert_eq!(usize::from(ScrollOffset::zero().scroll_down()), 0);
}

#[test]
fn scroll_is_capped_at_the_limit() {
    let mut s = ScrollOffset::zero();
    for _ in 0..1005 {
        s = s.scroll_up();
    }
    assert_eq!(usize::from(s), 1000);
    let rows = Rows::new_clamped(24);
    assert_eq!(usize::from(s.page_up(rows)), 1000);
}

#[test]
fn pages_move_one_screen_less_a_line() {
    let rows = Rows::new_clamped(24);
    let s = ScrollOffset::zero().page_up(rows);
    assert_eq!(usize::from(s), 23);
    assert_eq!(usize::from(s.page_down(rows)), 0);
    assert_eq!(usize::from(ScrollOffset::zero().scroll_up().page_down(rows)), 0);
}
