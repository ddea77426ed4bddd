use sambil::input::{handle_key, InputMode, KeyEffect};
use sambil::keys::{KeyCode, KeyModifiers};
use sambil::pane::Pane;
use sambil::pane_manager::PaneManager;
use sambil::size::{ContentArea, TerminalSize};

fn size() -> TerminalSize {
    TerminalSize::new(80, 24).unwrap()
}

fn manager() -> PaneManager {
    PaneManager::new(size(), Pane::new(1, "/home/user/first", ContentArea::from(size()).full_size()))
}

fn leader() -> (KeyCode, KeyModifiers) {
    (KeyCode::Char('b'), KeyModifiers::control())
}

fn key(mode: InputMode, m: &mut PaneManager, code: KeyCode) -> (InputMode, KeyEffect) {
    handle_key(code, KeyModifiers::empty(), mode, m, leader(), 0)
}

fn leader_then(m: &mut PaneManager, code: KeyCode) -> (InputMode, KeyEffect) {
    let (mode, effect) = handle_key(KeyCode::Char('b'), KeyModifiers::control(), InputMode::Normal, m, leader(), 0);
    assert!(matches!(mode, InputMode::AwaitingCommand));
    assert!(matches!(effect, KeyEffect::Nothing));
    key(mode, m, code)
}

#[test]
fn typing_in_normal_mode_goes_to_the_shell() {
    let mut m = manager();
    let (mode, effect) = key(InputMode::Normal, &mut m, KeyCode::Char('l'));
    assert!(matches!(mode, InputMode::Normal));
    assert!(matches!(effect, KeyEffect::Write(ref b) if b == b"l"));
    let (_, effect) = handle_key(KeyCode::Char('c'), KeyModifiers::control(), InputMode::Normal, &mut m, leader(), 0);
    assert!(matches!(effect, KeyEffect::Write(ref b) if b == &vec![3u8]));
}

#[test]
fn leader_c_opens_a_tab_without_a_prompt() {
    let mut m = manager();
    let (mode, effect) = leader_then(&mut m, KeyCode::Char('c'));
    assert!(matches!(mode, InputMode::Normal));
    assert!(matches!(effect, KeyEffect::OpenTab));
    assert!(mode.prompt().is_none());
}

#[test]
fn leader_q_quits() {
    let mut m = manager();
    let (mode, _) = leader_then(&mut m, KeyCode::Char('q'));
    assert!(mode.is_quit());
}

#[test]
fn naming_prompt_collects_a_name() {
    let mut m = manager();
    let (mut mode, _) = leader_then(&mut m, KeyCode::Char('C'));
    assert_eq!(mode.prompt().as_deref(), Some("New tab name: _"));
    for c in "myproject".chars() {
        mode = key(mode, &mut m, KeyCode::Char(c)).0;
    }
    mode = key(mode, &mut m, KeyCode::Char('x')).0;
    mode = key(mode, &mut m, KeyCode::Backspace).0;
    assert_eq!(mode.prompt().as_deref(), Some("New tab name: myproject_"));
    let (mode, effect) = key(mode, &mut m, KeyCode::Enter);
    assert!(matches!(mode, InputMode::Normal));
    assert!(matches!(effect, KeyEffect::OpenTabNamed(ref n) if n == "myproject"));
}

#[test]
fn empty_name_opens_an_auto_named_tab() {
    let mut m = manager();
    let (mode, _) = leader_then(&mut m, KeyCode::Char('C'));
    let (_, effect) = key(mode, &mut m, KeyCode::Enter);
    assert!(matches!(effect, KeyEffect::OpenTab));
}

#[test]
fn esc_cancels_naming_and_renaming() {
    let mut m = manager();
    let (mode, _) = leader_then(&mut m, KeyCode::Char('C'));
    let (mode, effect) = key(mode, &mut m, KeyCode::Esc);
    assert!(matches!(mode, InputMode::Normal));
    assert!(matches!(effect, KeyEffect::Nothing));
    assert_eq!(m.tabs.len(), 1);
    m.rename_active("keepme".to_string());
    let (mode, _) = leader_then(&mut m, KeyCode::Char('r'));
    let (mode, _) = key(mode, &mut m, KeyCode::Char('z'));
    let (_, _) = key(mode, &mut m, KeyCode::Esc);
    assert_eq!(m.active_name(), "keepme");
}

#[test]
fn rename_prompt_starts_from_the_current_name() {
    let mut m = manager();
    m.rename_active("draft".to_string());
    let (mode, _) = leader_then(&mut m, KeyCode::Char('r'));
    assert_eq!(mode.prompt().as_deref(), Some("Rename tab: draft_"));
    let mut mode = mode;
    for _ in 0.."draft".len() {
        mode = key(mode, &mut m, KeyCode::Backspace).0;
    }
    for c in "renamed".chars() {
        mode = key(mode, &mut m, KeyCode::Char(c)).0;
    }
    let (mode, _) = key(mode, &mut m, KeyCode::Enter);
    assert!(matches!(mode, InputMode::Normal));
    assert_eq!(m.active_name(), "renamed");
}

#[test]
fn empty_rename_reverts_to_the_pane_name() {
    let mut m = manager();
    m.rename_active("named".to_string());
    let (mut mode, _) = leader_then(&mut m, KeyCode::Char('r'));
    for _ in 0..5 {
        mode = key(mode, &mut m, KeyCode::Backspace).0;
    }
    key(mode, &mut m, KeyCode::Enter);
    assert_eq!(m.active_name(), "first");
}

#[test]
fn number_keys_switch_tabs_and_out_of_range_is_ignored() {
    let mut m = manager();
    m.open_tab(2, "/two");
    m.open_tab(3, "/three");
    leader_then(&mut m, KeyCode::Char('1'));
    assert_eq!(usize::from(m.tabs.active_index()), 0);
    leader_then(&mut m, KeyCode::Char('3'));
    assert_eq!(usize::from(m.tabs.active_index()), 2);
    leader_then(&mut m, KeyCode::Char('9'));
    assert_eq!(usize::from(m.tabs.active_index()), 2);
    leader_then(&mut m, KeyCode::Char('n'));
    assert_eq!(usize::from(m.tabs.active_index()), 0);
    leader_then(&mut m, KeyCode::Char('p'));
    assert_eq!(usize::from(m.tabs.active_index()), 2);
}

#[test]
fn leader_x_closes_and_u_undoes() {
    let mut m = manager();
    m.open_tab(2, "/two");
    let (mode, _) = leader_then(&mut m, KeyCode::Char('x'));
    assert!(matches!(mode, InputMode::Normal));
    assert_eq!(m.tabs.len(), 1);
    leader_then(&mut m, KeyCode::Char('u'));
    assert_eq!(m.tabs.len(), 2);
    assert_eq!(usize::from(m.tabs.active_index()), 1);
}

#[test]
fn closing_the_last_tab_quits() {
    let mut m = manager();
    let (mode, _) = leader_then(&mut m, KeyCode::Char('x'));
    assert!(mode.is_quit());
}

#[test]
fn split_and_focus_keys() {
    let mut m = manager();
    let (_, effect) = leader_then(&mut m, KeyCode::Char('|'));
    assert!(matches!(effect, KeyEffect::SplitPane));
    m.split_horizontal(2, "/x");
    leader_then(&mut m, KeyCode::Left);
    assert_eq!(m.tabs.active().active_pane, 0);
    leader_then(&mut m, KeyCode::Right);
    assert_eq!(m.tabs.active().active_pane, 1);
}

#[test]
fn scroll_mode_moves_and_does_not_reach_the_shell() {
    let mut m = manager();
    let (mode, _) = leader_then(&mut m, KeyCode::Char('['));
    assert_eq!(mode.prompt().as_deref(), Some("-- SCROLL -- (↑↓/PgUp/PgDn, q/Esc to exit)"));
    let (mode, effect) = key(mode, &mut m, KeyCode::Up);
    assert!(matches!(effect, KeyEffect::Nothing));
    assert_eq!(usize::from(mode.scroll_offset()), 1);
    let (mode, _) = key(mode, &mut m, KeyCode::PageUp);
    assert_eq!(usize::from(mode.scroll_offset()), 24);
    let (mode, effect) = key(mode, &mut m, KeyCode::Char('e'));
    assert!(matches!(effect, KeyEffect::Nothing));
    assert_eq!(usize::from(mode.scroll_offset()), 24);
    let (mode, _) = key(mode, &mut m, KeyCode::PageDown);
    assert_eq!(usize::from(mode.scroll_offset()), 1);
    let (mode, _) = key(mode, &mut m, KeyCode::Char('q'));
    assert!(matches!(mode, InputMode::Normal));
    assert_eq!(usize::from(mode.scroll_offset()), 0);
}

#[test]
fn help_is_dismissed_by_any_key() {
    let mut m = manager();
    let (mode, _) = leader_then(&mut m, KeyCode::Char('?'));
    assert!(mode.shows_help());
    let (mode, effect) = key(mode, &mut m, KeyCode::Char('z'));
    assert!(!mode.shows_help());
    assert!(matches!(mode, InputMode::Normal));
    assert!(matches!(effect, KeyEffect::Nothing));
}

#[test]
fn custom_leader_is_respected() {
    let mut m = manager();
    let custom = (KeyCode::Char('a'), KeyModifiers::control());
    let (mode, effect) = handle_key(KeyCode::Char('b'), KeyModifiers::control(), InputMode::Normal, &mut m, custom, 0);
    assert!(matches!(mode, InputMode::Normal));
    assert!(matches!(effect, KeyEffect::Write(ref b) if b == &vec![2u8]));
    let (mode, _) = handle_key(KeyCode::Char('a'), KeyModifiers::control(), InputMode::Normal, &mut m, custom, 0);
    assert!(matches!(mode, InputMode::AwaitingCommand));
}
