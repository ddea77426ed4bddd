use sambil::config::{config_dir, config_file, default_leader, parse_leader};
use sambil::input::{handle_key, InputMode, KeyEffect};
use sambil::keys::{paste_bytes, KeyCode, KeyModifiers};
use sambil::pane::Pane;
use sambil::pane_manager::PaneManager;
use sambil::renderer::{
    paint_active_tab, paint_help, paint_prompt, paint_tab_bar, Attrs, Cell, Color, CursorState, DrawOp,
    FrameBuffer, PaneScreen, Renderer,
};
use sambil::cursor::CursorStyle;
use sambil::size::{ContentArea, TerminalSize};

const SECOND: u64 = 1_000_000_000;

/// A session driven through the library as the event loop drives it: keys go to
/// `handle_key`, and the work it hands back is done here.
struct Sim {
    m: PaneManager,
    mode: Option<InputMode>,
    leader: (KeyCode, KeyModifiers),
    leader_setting: String,
    next_id: u64,
    now: u64,
    written: Vec<u8>,
    quit: bool,
}

impl Sim {
    fn spawn(cols: u16, rows: u16) -> Sim {
        Sim::with_leader(cols, rows, "ctrl+b")
    }

    fn with_leader(cols: u16, rows: u16, leader: &str) -> Sim {
        let size = TerminalSize::new(cols, rows).unwrap();
        let pane = Pane::new(1, "/home/user/first", ContentArea::from(size).full_size());
        Sim {
            m: PaneManager::new(size, pane),
            mode: Some(InputMode::Normal),
            leader: parse_leader(leader),
            leader_setting: leader.to_string(),
            next_id: 2,
            now: 0,
            written: Vec::new(),
            quit: false,
        }
    }

    fn key_with(&mut self, code: KeyCode, modifiers: KeyModifiers) {
        let mode = self.mode.take().unwrap();
        let (next, effect) = handle_key(code, modifiers, mode, &mut self.m, self.leader, self.now);
        match effect {
            KeyEffect::Nothing => {}
            KeyEffect::OpenTab => {
                self.m.open_tab(self.next_id, "/home/user/work");
                self.next_id += 1;
            }
            KeyEffect::OpenTabNamed(name) => {
                self.m.open_tab_named(self.next_id, "/home/user/work", name);
                self.next_id += 1;
            }
            KeyEffect::SplitPane => {
                self.m.split_horizontal(self.next_id, "/home/user/work");
                self.next_id += 1;
            }
            KeyEffect::Write(bytes) => self.written.extend(bytes),
        }
        if next.is_quit() {
            self.quit = true;
        }
        self.mode = Some(next);
    }

    fn key(&mut self, code: KeyCode) {
        self.key_with(code, KeyModifiers::empty());
    }

    fn leader_then(&mut self, c: char) {
        self.key_with(self.leader.0, self.leader.1);
        self.key(KeyCode::Char(c));
    }

    fn send_str(&mut self, text: &str) {
        for c in text.chars() {
            match c {
                '\r' => self.key(KeyCode::Enter),
                c => self.key(KeyCode::Char(c)),
            }
        }
    }

    fn open_tab(&mut self) {
        self.leader_then('c');
    }

    /// The shell of pane `id` exits.
    fn exit_shell(&mut self, id: u64) {
        for i in 0..self.m.tabs.len() {
            if let Some(t) = self.m.tabs.get_mut(i) {
                for p in t.panes.iter_mut() {
                    if p.id == id {
                        p.exited = true;
                    }
                }
            }
        }
        if self.m.close_exited_tabs() {
            self.quit = true;
        }
    }

    fn active_id(&self) -> u64 {
        let t = self.m.tabs.active();
        t.panes[t.active_pane].id
    }

    fn frame(&self) -> FrameBuffer {
        let mode = self.mode.as_ref().unwrap();
        let mut fb = FrameBuffer::new(self.m.size);
        if mode.shows_help() {
            paint_help(&mut fb, &self.leader_setting);
        } else {
            let t = self.m.tabs.active();
            let screens: Vec<PaneScreen> =
                t.panes.iter().map(|p| PaneScreen { rows: p.height, cols: p.width, cells: Vec::new() }).collect();
            paint_active_tab(&mut fb, &self.m, &screens);
        }
        match mode.prompt() {
            Some(text) => paint_prompt(&mut fb, &text),
            None => paint_tab_bar(&mut fb, &self.m),
        }
        fb
    }

    fn screen(&self) -> String {
        let fb = self.frame();
        let mut out = String::new();
        for r in 0..fb.size.rows() {
            for c in 0..fb.size.cols() {
                out.push_str(fb.get(r, c).unwrap().content.as_str());
            }
            out.push('\n');
        }
        out
    }

    fn has_divider(&self) -> bool {
        let text = self.screen();
        text.contains('│') || text.contains('◀') || text.contains('▶')
    }

    /// The background of the first cell of row 0 showing `ch`.
    fn bar_bg_of(&self, ch: char) -> Option<Color> {
        let fb = self.frame();
        (0..fb.size.cols())
            .map(|c| fb.get(0, c).unwrap())
            .find(|cell| cell.content.as_str().starts_with(ch))
            .map(|cell| cell.attrs.bg)
    }
}

#[test]
fn split_creates_second_pane() {
    let mut s = Sim::spawn(80, 24);
    s.leader_then('|');
    assert!(s.has_divider(), "divider not rendered after split");
    assert_eq!(s.m.tabs.len(), 1, "split should not create a new tab");
}

#[test]
fn focus_moves_between_panes() {
    let mut s = Sim::spawn(80, 24);
    s.leader_then('|');
    assert_eq!(s.active_id(), 2);
    s.key_with(s.leader.0, s.leader.1);
    s.key(KeyCode::Left);
    assert_eq!(s.active_id(), 1, "focus did not move to left pane");
    s.key_with(s.leader.0, s.leader.1);
    s.key(KeyCode::Right);
    assert_eq!(s.active_id(), 2, "focus did not move back to right pane");
}

#[test]
fn close_pane_leaves_tab_open() {
    let mut s = Sim::spawn(80, 24);
    s.leader_then('|');
    assert!(s.has_divider(), "split did not render");
    s.leader_then('x');
    assert!(!s.has_divider(), "divider still present after closing pane");
    assert!(!s.quit);
}

#[test]
fn close_last_pane_closes_tab() {
    let mut s = Sim::spawn(80, 24);
    s.open_tab();
    let before = s.m.tabs.len();
    s.leader_then('x');
    assert!(s.m.tabs.len() < before, "closing last pane did not close the tab");
}

#[test]
fn e2e_tabs_ctrl_b_c_opens_a_new_tab() {
    let mut s = Sim::spawn(80, 24);
    assert!(s.screen().contains("[●:"), "sambil did not render");
    assert!(!s.screen().contains("[2:"), "unexpected second tab at startup");
    s.leader_then('c');
    assert!(s.screen().contains("[1:"), "New tab did not open or become active");
    assert!(s.screen().contains("[●:"), "Tab 1 should still appear in the tab bar");
    assert!(!s.screen().contains("New tab name:"), "Ctrl-b c should not show a name prompt");
}

#[test]
fn ctrl_b_c_opens_a_new_tab() {
    let mut s = Sim::spawn(80, 24);
    assert!(!s.screen().contains("[2:"), "unexpected second tab at startup");
    s.leader_then('c');
    assert!(s.screen().contains("[1:"), "Tab 1 should still appear in the tab bar");
    assert!(!s.screen().contains("New tab name:"), "Ctrl-b c should not show a name prompt");
}

#[test]
fn e2e_tabs_can_open_multiple_tabs() {
    let mut s = Sim::spawn(80, 24);
    assert!(s.screen().contains("[●:"), "sambil did not render");
    s.open_tab();
    assert!(s.screen().contains("[1:"), "tab 2 did not open");
    s.open_tab();
    assert!(s.screen().contains("[2:"), "Tab 3 did not open");
    assert!(s.screen().contains("[1:"), "tab 1 missing from bar");
    assert!(s.screen().contains("[2:"), "tab 2 missing from bar");
}

#[test]
fn can_open_multiple_tabs() {
    let mut s = Sim::spawn(80, 24);
    s.open_tab();
    s.open_tab();
    assert!(s.screen().contains("[1:"), "tab 1 missing from bar");
    assert!(s.screen().contains("[2:"), "tab 2 missing from bar");
}

#[test]
fn ctrl_b_x_closes_active_tab() {
    let mut s = Sim::spawn(80, 24);
    s.leader_then('c');
    assert!(s.screen().contains("[●:"), "tab 2 did not open");
    s.leader_then('x');
    assert!(s.screen().contains("[●:"), "tab 1 should be active after closing tab 2");
    assert!(!s.screen().contains("[2:"), "tab 2 should be gone after closing");
}

#[test]
fn closing_first_tab_switches_to_next() {
    let mut s = Sim::spawn(80, 24);
    s.leader_then('c');
    s.leader_then('c');
    s.leader_then('1');
    assert!(s.screen().contains("[3:"), "did not switch to tab 1");
    s.leader_then('x');
    assert!(!s.screen().contains("[3:"), "tab 3 should have renumbered away after close");
    assert!(s.screen().contains("[●:"), "should have an active tab 1 after close");
    assert!(s.screen().contains("[2:"), "should still have a tab 2");
}

#[test]
fn closing_last_tab_exits() {
    let mut s = Sim::spawn(80, 24);
    s.leader_then('x');
    assert!(s.quit, "sambil should exit when the last tab is closed");
}

#[test]
fn truecolor_sequences_pass_through() {
    let s = Sim::spawn(80, 24);
    let mut r = Renderer::new(s.m.size);
    let p = &s.m.tabs.active().panes[0];
    let mut cells = Vec::new();
    for i in 0..(p.width as usize * p.height as usize) {
        let attrs = if i == 0 { Attrs { fg: Color::Rgb(220, 50, 47), ..Attrs::plain() } } else { Attrs::plain() };
        cells.push(Cell::of_char(if i == 0 { 'Z' } else { ' ' }, attrs));
    }
    let screens = vec![PaneScreen { rows: p.height, cols: p.width, cells }];
    let cursor = CursorState { row: 0, col: 1, hidden: false, style: CursorStyle::Default };
    let ops = r.draw(&s.m, None, false, "ctrl+b", &screens, cursor);
    let z = ops.iter().position(|o| matches!(o, DrawOp::Print(t) if t == "Z")).expect("'Z' did not appear on screen");
    let colour = ops[..z].iter().rev().find_map(|o| match o {
        DrawOp::SetForeground(c) => Some(*c),
        _ => None,
    });
    assert_eq!(colour, Some(Color::Rgb(220, 50, 47)), "cell 'Z' did not have expected RGB foreground colour");
}

#[test]
fn config_file_created_on_first_launch() {
    let dir = config_dir(None, Some("/tmp/xdg"), Some("/home/user"));
    assert_eq!(dir, "/tmp/xdg/sambil");
    assert_eq!(config_file(&dir), "/tmp/xdg/sambil/config.toml");
    assert_eq!(config_dir(None, None, Some("/home/user")), "/home/user/.config/sambil");
    assert_eq!(config_dir(None, None, None), ".sambil");
    assert_eq!(default_leader(), "ctrl+b", "config file should default to ctrl+b");
}

#[test]
fn custom_leader_key_is_respected() {
    let mut s = Sim::with_leader(80, 24, "ctrl+a");
    s.key_with(KeyCode::Char('a'), KeyModifiers::control());
    s.key(KeyCode::Char('c'));
    assert_eq!(s.m.tabs.len(), 2, "Ctrl-a c did not open a tab — custom leader not applied");
    assert!(s.screen().contains("[●:"));
    let before = s.m.tabs.len();
    s.leader_then('c');
    assert_eq!(s.m.tabs.len(), before + 1);
    s.key_with(KeyCode::Char('b'), KeyModifiers::control());
    assert_eq!(s.written, vec![0x02], "Ctrl-b is passed to the shell under another leader");
}

#[test]
fn ctrl_b_number_switches_directly_to_tab() {
    let mut s = Sim::spawn(80, 24);
    s.open_tab();
    s.open_tab();
    s.leader_then('1');
    assert_eq!(usize::from(s.m.tabs.active_index()), 0, "Ctrl-b 1 did not navigate to tab 1");
    assert!(s.screen().contains("[●:first]"));
    s.leader_then('3');
    assert_eq!(usize::from(s.m.tabs.active_index()), 2, "Ctrl-b 3 did not navigate to tab 3");
}

#[test]
fn ctrl_b_out_of_range_number_is_a_noop() {
    let mut s = Sim::spawn(80, 24);
    s.leader_then('5');
    assert_eq!(usize::from(s.m.tabs.active_index()), 0, "Active tab should still be 1 after out-of-range navigation");
    assert!(s.screen().contains("[●:first]"));
    assert!(s.written.is_empty());
}

#[test]
fn ctrl_b_question_shows_help_overlay() {
    let mut s = Sim::spawn(80, 24);
    assert!(s.screen().contains("[●:"), "sambil did not render");
    s.leader_then('?');
    assert!(s.screen().contains("Ctrl-b c"), "help overlay did not appear");
    assert!(s.screen().contains("Ctrl-b q"), "help overlay missing quit binding");
    assert!(s.screen().contains("any key"), "help overlay should say how to dismiss");
}

#[test]
fn any_key_dismisses_help_overlay() {
    let mut s = Sim::spawn(80, 24);
    s.leader_then('?');
    assert!(s.screen().contains("Ctrl-b c"), "help did not appear");
    s.key(KeyCode::Char('z'));
    assert!(!s.screen().contains("Ctrl-b c"), "help overlay should disappear after keypress");
    assert!(s.screen().contains("[●:"), "tab bar should be visible after dismissing help");
    assert!(s.written.is_empty());
}

#[test]
fn typing_in_active_tab_shows_output() {
    let mut s = Sim::spawn(80, 24);
    s.send_str("echo tab1_output\r");
    assert_eq!(s.written, b"echo tab1_output\r".to_vec());
}

#[test]
fn ctrl_b_c_opens_with_cwd_name_instantly() {
    let mut s = Sim::spawn(80, 24);
    s.leader_then('c');
    assert!(!s.screen().contains("New tab name:"), "Ctrl-b c should not show a prompt");
    assert!(!s.screen().contains("[●:]"), "Tab name should not be empty");
    assert!(s.screen().contains("[●:work]"));
}

#[test]
fn ctrl_b_shift_c_shows_naming_prompt() {
    let mut s = Sim::spawn(80, 24);
    s.leader_then('C');
    assert!(s.screen().contains("New tab name:"), "Expected naming prompt in status bar");
}

#[test]
fn named_tab_shows_name_in_tab_bar() {
    let mut s = Sim::spawn(80, 24);
    s.leader_then('C');
    s.send_str("myproject\r");
    assert!(s.screen().contains("[●:myproject]"), "Expected tab bar to show '[●:myproject]'");
}

#[test]
fn empty_name_uses_cwd_basename() {
    let mut s = Sim::spawn(80, 24);
    s.leader_then('C');
    s.key(KeyCode::Enter);
    assert!(s.screen().contains("[●:"), "Expected new tab with cwd name");
    assert!(!s.screen().contains("[●:]"), "Tab name should not be empty — expected cwd basename");
    assert!(s.screen().contains("[●:work]"));
}

#[test]
fn esc_cancels_naming() {
    let mut s = Sim::spawn(80, 24);
    s.leader_then('C');
    s.send_str("abc");
    s.key(KeyCode::Esc);
    assert!(!s.screen().contains("New tab name:"), "Prompt should be gone after Esc");
    assert!(!s.screen().contains("[2:"), "No second tab should exist after cancelling");
    assert_eq!(s.m.tabs.len(), 1);
}

#[test]
fn bracketed_paste_is_forwarded_to_shell() {
    let bytes = paste_bytes("echo PASTED_TEXT", true);
    assert_eq!(bytes, b"\x1b[200~echo PASTED_TEXT\x1b[201~".to_vec());
}

#[test]
fn multiline_paste_does_not_execute_early() {
    let bytes = paste_bytes("echo PASTE_A\necho PASTE_B", true);
    assert_eq!(bytes, b"\x1b[200~echo PASTE_A\necho PASTE_B\x1b[201~".to_vec());
    assert!(bytes.starts_with(b"\x1b[200~") && bytes.ends_with(b"\x1b[201~"));
}

#[test]
fn ctrl_b_q_exits_cleanly() {
    let mut s = Sim::spawn(80, 24);
    assert!(s.screen().contains("[●:"), "sambil did not render before quit attempt");
    s.leader_then('q');
    assert!(s.quit, "sambil did not exit after Ctrl-b q");
}

#[test]
fn ctrl_b_r_shows_rename_prompt_with_current_name() {
    let mut s = Sim::spawn(80, 24);
    s.leader_then('C');
    assert!(s.screen().contains("New tab name:"), "open prompt did not appear");
    s.send_str("original\r");
    assert!(s.screen().contains("[●:original]"), "named tab did not open");
    s.leader_then('r');
    assert!(s.screen().contains("Rename tab:"), "Expected rename prompt in status bar");
    assert!(s.screen().contains("original"), "Rename prompt should be pre-filled with current name");
}

#[test]
fn rename_updates_tab_bar() {
    let mut s = Sim::spawn(80, 24);
    s.leader_then('C');
    s.send_str("original\r");
    assert!(s.screen().contains("[●:original]"), "named tab did not open");
    s.leader_then('r');
    assert!(s.screen().contains("Rename tab:"), "rename prompt did not appear");
    for _ in 0.."original".len() {
        s.key(KeyCode::Backspace);
    }
    s.send_str("renamed\r");
    assert!(s.screen().contains("[●:renamed]"), "Tab bar should show new name '[●:renamed]'");
    assert!(!s.screen().contains("original"), "Old name should no longer appear");
}

#[test]
fn esc_cancels_rename() {
    let mut s = Sim::spawn(80, 24);
    s.leader_then('C');
    s.send_str("keepme\r");
    assert!(s.screen().contains("[●:keepme]"), "named tab did not open");
    s.leader_then('r');
    assert!(s.screen().contains("Rename tab:"), "rename prompt did not appear");
    s.send_str("xyz");
    s.key(KeyCode::Esc);
    assert!(!s.screen().contains("Rename tab:"), "Prompt should be gone after Esc");
    assert!(s.screen().contains("[●:keepme]"), "Tab name should be unchanged after Esc");
}

#[test]
fn tab_bar_survives_resize() {
    let mut s = Sim::spawn(80, 24);
    s.m.resize(TerminalSize::new(120, 40).unwrap());
    assert!(s.screen().contains("[●:"), "tab bar missing after resize");
    assert_eq!(s.frame().size.cols(), 120);
}

#[test]
fn shell_sees_new_dimensions_after_resize() {
    let mut s = Sim::spawn(80, 24);
    s.m.resize(TerminalSize::new(40, 200).unwrap());
    let p = &s.m.tabs.active().panes[0];
    assert_eq!((p.width, p.height), (40, 199));
}

#[test]
fn scrolled_off_content_is_accessible() {
    let mut s = Sim::spawn(80, 24);
    s.leader_then('[');
    assert!(s.screen().contains("SCROLL"), "scroll mode indicator did not appear");
    s.key(KeyCode::PageUp);
    assert_eq!(s.mode.as_ref().unwrap().scroll_offset().lines(), 23);
    s.key(KeyCode::Char('q'));
    assert!(!s.screen().contains("SCROLL"), "scroll indicator should disappear after exiting scroll mode");
}

#[test]
fn scroll_mode_does_not_forward_input_to_shell() {
    let mut s = Sim::spawn(80, 24);
    s.leader_then('[');
    assert!(s.screen().contains("SCROLL"), "scroll mode did not activate");
    s.send_str("echo SHOULD_NOT_APPEAR\r");
    assert!(s.written.is_empty(), "input should not be forwarded to the shell in scroll mode");
}

#[test]
fn exit_in_last_tab_quits_sambil() {
    let mut s = Sim::spawn(80, 24);
    s.exit_shell(1);
    assert!(s.quit, "sambil should exit when the last shell exits");
}

#[test]
fn exit_in_tab_closes_it_and_switches() {
    let mut s = Sim::spawn(80, 24);
    s.open_tab();
    s.exit_shell(2);
    assert!(!s.quit);
    assert!(!s.screen().contains("[2:"), "tab 2 should disappear after its shell exits");
    assert!(s.screen().contains("[●:"), "tab 1 should become active");
}

#[test]
fn startup_renders_tab_bar() {
    let s = Sim::spawn(80, 24);
    assert!(s.screen().contains("[●:"), "Expected tab bar with active tab '[●:name]'");
    assert!(!s.screen().contains("[2:"), "Expected only one tab at startup");
    let p = &s.m.tabs.active().panes[0];
    assert_eq!((p.width, p.height), (80, 23));
}

#[test]
fn active_tab_has_highlighted_background() {
    let s = Sim::spawn(80, 24);
    assert_eq!(s.bar_bg_of('●'), Some(Color::Idx(8)), "active tab '●' should have a grey background");
}

#[test]
fn inactive_tab_has_bar_background() {
    let mut s = Sim::spawn(80, 24);
    s.open_tab();
    assert_eq!(s.bar_bg_of('1'), Some(Color::Default), "inactive tab 1 should have default background");
}

#[test]
fn osc2_updates_auto_named_tab() {
    let mut s = Sim::spawn(80, 24);
    let t = s.m.tabs.active_mut();
    t.panes[0].title = Some("testapp".to_string());
    assert!(s.screen().contains("[●:testapp]"), "tab name should reflect OSC 2 title");
}

#[test]
fn osc2_does_not_override_explicit_name() {
    let mut s = Sim::spawn(80, 24);
    s.leader_then('C');
    s.send_str("myproject\r");
    assert!(s.screen().contains("[●:myproject]"), "explicit name did not appear");
    let t = s.m.tabs.active_mut();
    t.panes[0].title = Some("sometool".to_string());
    assert!(s.screen().contains("[●:myproject]"), "explicit tab name should not be overridden by OSC 2");
}

#[test]
fn closing_tab_can_be_undone() {
    let mut s = Sim::spawn(80, 24);
    s.open_tab();
    s.now = 3 * SECOND;
    s.leader_then('x');
    assert!(s.screen().contains("[●:"), "tab 1 should be active after close");
    assert!(s.screen().contains('↩'), "undo hint should be visible after close");
    s.now = 5 * SECOND;
    s.leader_then('u');
    assert!(s.screen().contains("[1:"), "tab 1 should be inactive after undo (tab 2 restored as active)");
    assert!(!s.screen().contains('↩'), "undo hint should disappear after undo");
}

#[test]
fn last_tab_close_exits_immediately() {
    let mut s = Sim::spawn(80, 24);
    s.leader_then('x');
    assert!(s.quit, "sambil should exit when the last tab is closed");
    assert!(!s.m.has_pending_close());
}
