use sambil::pane::{path_basename, Pane, TitleCallbacks};
use sambil::cursor::CursorStyle;
use sambil::pane_manager::{PaneManager, Tab, TabActiveState, TabIndex, TabSet, UndoCloseError};
use sambil::size::{ContentArea, TerminalSize};

const SECOND: u64 = 1_000_000_000;

fn size() -> TerminalSize {
    TerminalSize::new(80, 24).unwrap()
}

fn pane(id: u64, cwd: &str) -> Pane {
    Pane::new(id, cwd, ContentArea::from(size()).full_size())
}

fn manager() -> PaneManager {
    PaneManager::new(size(), pane(1, "/home/user/first"))
}

fn ids(m: &PaneManager) -> Vec<Vec<u64>> {
    (0..m.tabs.len()).map(|i| m.tabs.get(i).unwrap().panes.iter().map(|p| p.id).collect()).collect()
}

fn active(m: &PaneManager) -> usize {
    usize::from(m.tabs.active_index())
}

#[test]
fn basename_of_paths() {
    assert_eq!(path_basename("/home/user/project"), "project");
    assert_eq!(path_basename("/usr/bin/"), "bin");
    assert_eq!(path_basename("/"), "shell");
    assert_eq!(path_basename("foo/.."), "shell");
}

#[test]
fn pane_auto_name_prefers_a_nonempty_title() {
    let mut p = pane(1, "/home/user/project");
    assert_eq!(p.get_auto_name(), "project");
    p.title = Some(String::new());
    assert_eq!(p.get_auto_name(), "project");
    p.title = Some("testapp".to_string());
    assert_eq!(p.get_auto_name(), "testapp");
    assert!(!p.is_exited());
}

#[test]
fn title_callbacks_record_title_and_cursor_shape() {
    let mut cb = TitleCallbacks::default();
    assert_eq!(cb.cursor_style, CursorStyle::Default);
    cb.set_window_title(b"vim");
    assert_eq!(cb.title.as_deref(), Some("vim"));
    cb.set_window_title(b"bad\xffbyte");
    assert_eq!(cb.title.as_deref(), Some("bad\u{FFFD}byte"));
    let five: &[u16] = &[5];
    cb.unhandled_csi(Some(b' '), None, &[five], 'q');
    assert_eq!(cb.cursor_style, CursorStyle::BlinkingBar);
    cb.unhandled_csi(None, None, &[five], 'q');
    assert_eq!(cb.cursor_style, CursorStyle::BlinkingBar);
    cb.unhandled_csi(Some(b' '), None, &[], 'q');
    assert_eq!(cb.cursor_style, CursorStyle::Default);
}

#[test]
fn tab_set_switching_wraps_around() {
    let mut set = TabSet::new(Tab::new(pane(1, "/a")));
    set.push_and_activate(Tab::new(pane(2, "/b")));
    set.push_and_activate(Tab::new(pane(3, "/c")));
    assert_eq!(usize::from(set.active_index()), 2);
    set.switch_next();
    assert_eq!(usize::from(set.active_index()), 0);
    set.switch_prev();
    assert_eq!(usize::from(set.active_index()), 2);
    set.switch_to(TabIndex::from(1));
    assert_eq!(usize::from(set.active_index()), 1);
    set.switch_to(TabIndex::from(99));
    assert_eq!(usize::from(set.active_index()), 1);
    let states: Vec<bool> = set.iter().iter().map(|(s, _)| matches!(s, TabActiveState::Active)).collect();
    assert_eq!(states, vec![false, true, false]);
}

#[test]
fn tab_set_removal_keeps_the_last_tab() {
    let mut set = TabSet::new(Tab::new(pane(1, "/a")));
    assert!(set.remove_active().is_none());
    set.push_and_activate(Tab::new(pane(2, "/b")));
    let gone = set.remove_active().unwrap();
    assert_eq!(gone.panes[0].id, 2);
    assert_eq!(set.len(), 1);
    assert_eq!(usize::from(set.active_index()), 0);
}

#[test]
fn tab_set_remove_at_moves_active_index() {
    let mut set = TabSet::new(Tab::new(pane(1, "/a")));
    set.push_and_activate(Tab::new(pane(2, "/b")));
    set.push_and_activate(Tab::new(pane(3, "/c")));
    let removed = set.remove_at(0);
    assert_eq!(removed.panes[0].id, 1);
    assert_eq!(usize::from(set.active_index()), 1);
    assert!(set.get(5).is_none());
}

#[test]
fn opening_tabs_appends_and_activates() {
    let mut m = manager();
    m.open_tab(2, "/home/user/second");
    m.open_tab_named(3, "/tmp", "myproject".to_string());
    assert_eq!(ids(&m), vec![vec![1], vec![2], vec![3]]);
    assert_eq!(active(&m), 2);
    assert_eq!(m.active_name(), "myproject");
    m.switch_to_prev();
    assert_eq!(m.active_name(), "second");
    let p = &m.tabs.active().panes[0];
    assert_eq!((p.width, p.height), (80, 23));
}

#[test]
fn closing_a_tab_can_be_undone() {
    let mut m = manager();
    m.open_tab(2, "/two");
    assert!(!m.close_active_pane(5 * SECOND));
    assert_eq!(ids(&m), vec![vec![1]]);
    assert!(m.has_pending_close());
    assert!(m.undo_close(7 * SECOND).is_ok());
    assert_eq!(ids(&m), vec![vec![1], vec![2]]);
    assert_eq!(active(&m), 1);
    assert!(!m.has_pending_close());
    assert!(matches!(m.undo_close(8 * SECOND), Err(UndoCloseError::NoPendingClosures)));
}

#[test]
fn closing_the_first_tab_activates_the_next() {
    let mut m = manager();
    m.open_tab(2, "/two");
    m.open_tab(3, "/three");
    m.switch_to(TabIndex::from(0));
    assert!(!m.close_active_pane(0));
    assert_eq!(ids(&m), vec![vec![2], vec![3]]);
    assert_eq!(active(&m), 0);
}

#[test]
fn closing_the_last_tab_asks_to_quit() {
    let mut m = manager();
    assert!(m.close_active_pane(0));
    assert_eq!(ids(&m), vec![vec![1]]);
    assert!(!m.has_pending_close());
}

#[test]
fn closed_tabs_expire_after_ten_seconds() {
    let mut m = manager();
    m.open_tab(2, "/two");
    m.open_tab(3, "/three");
    assert!(!m.close_active_pane(1 * SECOND));
    assert!(!m.close_active_pane(4 * SECOND));
    m.reap_pending_close(12 * SECOND);
    assert!(m.has_pending_close());
    assert!(m.undo_close(12 * SECOND).is_ok());
    assert_eq!(ids(&m), vec![vec![1], vec![2]]);
    m.close_active_pane(20 * SECOND);
    m.reap_pending_close(30 * SECOND);
    assert!(!m.has_pending_close());
}

#[test]
fn undo_window_ends_exactly_ten_seconds_after_the_close() {
    let mut m = manager();
    m.open_tab(2, "/two");
    m.close_active_pane(5 * SECOND);
    m.reap_pending_close(15 * SECOND - 1);
    assert!(m.has_pending_close());
    m.reap_pending_close(15 * SECOND);
    assert!(!m.has_pending_close());
    assert!(m.undo_close(15 * SECOND).is_err());
    assert_eq!(ids(&m), vec![vec![1]]);
}

#[test]
fn undo_refuses_a_tab_closed_ten_seconds_ago_without_a_reap() {
    let mut m = manager();
    m.open_tab(2, "/two");
    m.open_tab(3, "/three");
    m.close_active_pane(1 * SECOND);
    m.close_active_pane(2 * SECOND);
    assert!(matches!(m.undo_close(12 * SECOND), Err(UndoCloseError::NoPendingClosures)));
    assert_eq!(ids(&m), vec![vec![1]]);
    assert!(!m.has_pending_close());
}

#[test]
fn undo_skips_expired_tabs_and_restores_a_recent_one() {
    let mut m = manager();
    m.open_tab(2, "/two");
    m.open_tab(3, "/three");
    m.switch_to(TabIndex::from(1));
    m.close_active_pane(1 * SECOND);
    m.close_active_pane(9 * SECOND);
    assert!(m.undo_close(12 * SECOND).is_ok());
    assert_eq!(ids(&m), vec![vec![1], vec![3]]);
    assert_eq!(active(&m), 1);
    assert!(!m.has_pending_close());
}

#[test]
fn split_adds_a_pane_on_the_right_and_lays_out() {
    let mut m = manager();
    m.split_horizontal(2, "/x");
    let tab = m.tabs.active();
    assert_eq!(tab.panes.len(), 2);
    assert_eq!(tab.active_pane, 1);
    assert_eq!((tab.panes[0].width, tab.panes[1].width), (39, 40));
    assert!(tab.panes.iter().all(|p| p.height == 23));
    assert_eq!(u16::from(m.active_pane_col_offset()), 40);
    assert_eq!(m.tabs.len(), 1);
}

#[test]
fn focus_moves_between_panes_and_wraps() {
    let mut m = manager();
    m.split_horizontal(2, "/x");
    m.split_horizontal(3, "/y");
    assert_eq!(m.tabs.active().active_pane, 2);
    m.focus_next_pane();
    assert_eq!(m.tabs.active().active_pane, 0);
    m.focus_prev_pane();
    assert_eq!(m.tabs.active().active_pane, 2);
    m.focus_prev_pane();
    assert_eq!(m.tabs.active().active_pane, 1);
}

#[test]
fn closing_a_pane_leaves_the_tab_open() {
    let mut m = manager();
    m.split_horizontal(2, "/x");
    assert!(!m.close_active_pane(0));
    assert_eq!(ids(&m), vec![vec![1]]);
    assert_eq!(m.tabs.active().panes[0].width, 80);
    assert!(!m.has_pending_close());
}

#[test]
fn renaming_and_reverting() {
    let mut m = manager();
    m.rename_active("renamed".to_string());
    assert_eq!(m.active_name(), "renamed");
    m.tabs.active();
    m.revert_active_name();
    assert_eq!(m.active_name(), "first");
}

#[test]
fn exited_panes_and_tabs_are_closed() {
    let mut m = manager();
    m.split_horizontal(2, "/x");
    m.split_horizontal(3, "/y");
    m.open_tab(4, "/z");
    m.switch_to(TabIndex::from(0));
    // Tab 1: middle pane exits.
    let tab0: Vec<u64> = ids(&m)[0].clone();
    assert_eq!(tab0, vec![1, 2, 3]);
    let mut exited = m;
    mark_exited(&mut exited, 2);
    assert!(!exited.close_exited_tabs());
    assert_eq!(ids(&exited), vec![vec![1, 3], vec![4]]);
    // The active pane was the third (id 3); it is now second.
    assert_eq!(exited.tabs.active().active_pane, 1);
    assert_eq!(exited.tabs.active().panes[0].width, 39);
    // The second tab's only shell exits: the tab goes.
    mark_exited(&mut exited, 4);
    assert!(!exited.close_exited_tabs());
    assert_eq!(ids(&exited), vec![vec![1, 3]]);
    // The last pane of the remaining tab exits: only that pane goes.
    mark_exited(&mut exited, 3);
    assert!(!exited.close_exited_tabs());
    assert_eq!(ids(&exited), vec![vec![1]]);
    assert_eq!(exited.tabs.active().active_pane, 0);
    assert_eq!(exited.tabs.active().panes[0].width, 80);
    // Every shell exits: quit, with nothing changed.
    mark_exited(&mut exited, 1);
    assert!(exited.close_exited_tabs());
    assert_eq!(ids(&exited), vec![vec![1]]);
}

#[test]
fn an_exited_right_pane_leaves_the_running_left_pane() {
    let mut m = manager();
    m.split_horizontal(2, "/x");
    mark_exited(&mut m, 2);
    assert!(!m.close_exited_tabs());
    assert_eq!(ids(&m), vec![vec![1]]);
    assert_eq!(m.tabs.active().active_pane, 0);
    assert_eq!(m.tabs.active().panes[0].width, 80);
}

#[test]
fn the_active_pane_stays_active_when_others_exit() {
    let mut m = manager();
    m.split_horizontal(2, "/x");
    m.split_horizontal(3, "/y");
    m.split_horizontal(4, "/z");
    m.focus_prev_pane();
    assert_eq!(m.tabs.active().panes[m.tabs.active().active_pane].id, 3);
    mark_exited(&mut m, 1);
    mark_exited(&mut m, 4);
    assert!(!m.close_exited_tabs());
    assert_eq!(ids(&m), vec![vec![2, 3]]);
    assert_eq!(m.tabs.active().panes[m.tabs.active().active_pane].id, 3);
}

#[test]
fn exit_in_active_last_tab_switches_to_previous() {
    let mut m = manager();
    m.open_tab(2, "/two");
    mark_exited(&mut m, 2);
    assert!(!m.close_exited_tabs());
    assert_eq!(ids(&m), vec![vec![1]]);
    assert_eq!(active(&m), 0);
}

fn mark_exited(m: &mut PaneManager, id: u64) {
    // The caller observes shells exiting and records it on the panes.
    for i in 0..m.tabs.len() {
        if let Some(t) = m.tabs.get_mut(i) {
            for p in t.panes.iter_mut() {
                if p.id == id {
                    p.exited = true;
                }
            }
        }
    }
}

#[test]
fn resize_lays_out_every_tab() {
    let mut m = manager();
    m.split_horizontal(2, "/x");
    m.open_tab(3, "/y");
    m.resize(TerminalSize::new(120, 40).unwrap());
    let t0 = m.tabs.get(0).unwrap();
    assert_eq!((t0.panes[0].width, t0.panes[1].width), (59, 60));
    assert!(t0.panes.iter().all(|p| p.height == 39));
    let t1 = m.tabs.get(1).unwrap();
    assert_eq!((t1.panes[0].width, t1.panes[0].height), (120, 39));
}

#[test]
fn panes_and_dividers_span_the_whole_width_after_a_resize() {
    let mut m = manager();
    m.split_horizontal(2, "/x");
    m.split_horizontal(3, "/y");
    m.split_horizontal(4, "/z");
    for cols in [7u16, 40, 81, 200] {
        m.resize(TerminalSize::new(cols, 10).unwrap());
        let tab = m.tabs.active();
        let widths: Vec<u16> = tab.panes.iter().map(|p| p.width).collect();
        let spanned: u32 = widths.iter().map(|w| *w as u32).sum::<u32>() + 3;
        assert_eq!(spanned, cols as u32, "{widths:?}");
        assert!(widths.iter().all(|w| *w >= 1));
    }
    let widths: Vec<u16> = m.tabs.active().panes.iter().map(|p| p.width).collect();
    assert_eq!(widths, vec![49, 49, 49, 50]);
}
