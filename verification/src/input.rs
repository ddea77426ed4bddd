//! What a key press does: the input modes (typing to the shell, awaiting a command after
//! the leader, entering a tab name, scrolling back, showing help) and their transitions.
use vstd::prelude::*;

use crate::keys::{holds, key_bytes, key_to_bytes, KeyCode, KeyModifiers, control_bits};
use crate::pane_manager::{
    close_active_pane_result, focus_next_result, focus_prev_result, rename_result,
    revert_name_result, switch_next_result, switch_prev_result, switch_to_result,
    undo_close_result, ManagerView, PaneManager, TabIndex,
};
use crate::scroll::{cap_scrollback, ScrollOffset, MAX_SCROLLBACK};
use crate::size::{sat_sub, Rows};
use crate::text::{append_chars, chars_to_string, str_chars};

verus! {

/// What keys currently do.
pub enum InputMode {
    /// Keys go to the active pane's shell.
    Normal,
    /// The leader was pressed; the next key is a command.
    AwaitingCommand,
    /// Entering the name of a new tab.
    Naming(Vec<char>),
    /// Entering a new name for the active tab.
    Renaming(Vec<char>),
    /// Scrolling the active pane back through its history.
    ScrollBack(ScrollOffset),
    /// The key-binding help is shown.
    Help,
    /// Sambil is quitting.
    Quit,
}

/// An input mode as a value.
pub enum ModeView {
    Normal,
    AwaitingCommand,
    Naming(Seq<char>),
    Renaming(Seq<char>),
    ScrollBack(usize),
    Help,
    Quit,
}

impl View for InputMode {
    type V = ModeView;

    open spec fn view(&self) -> ModeView {
        match self {
            InputMode::Normal => ModeView::Normal,
            InputMode::AwaitingCommand => ModeView::AwaitingCommand,
            InputMode::Naming(b) => ModeView::Naming(b@),
            InputMode::Renaming(b) => ModeView::Renaming(b@),
            InputMode::ScrollBack(o) => ModeView::ScrollBack(o.spec_lines()),
            InputMode::Help => ModeView::Help,
            InputMode::Quit => ModeView::Quit,
        }
    }
}

/// Work a key asks of the caller, beyond the state changes made here: starting a shell
/// for a new tab or pane, or sending bytes to the active pane's shell.
pub enum KeyEffect {
    /// Nothing beyond the state change.
    Nothing,
    /// Open a new tab named after its pane.
    OpenTab,
    /// Open a new tab with this name.
    OpenTabNamed(String),
    /// Split the active tab with a new pane.
    SplitPane,
    /// Send these bytes to the active pane's shell.
    Write(Vec<u8>),
}

/// A key's work for the caller, as a value.
pub enum EffectView {
    Nothing,
    OpenTab,
    OpenTabNamed(Seq<char>),
    SplitPane,
    Write(Seq<u8>),
}

impl View for KeyEffect {
    type V = EffectView;

    open spec fn view(&self) -> EffectView {
        match self {
            KeyEffect::Nothing => EffectView::Nothing,
            KeyEffect::OpenTab => EffectView::OpenTab,
            KeyEffect::OpenTabNamed(n) => EffectView::OpenTabNamed(n@),
            KeyEffect::SplitPane => EffectView::SplitPane,
            KeyEffect::Write(b) => EffectView::Write(b@),
        }
    }
}

/// Editing a name being entered: Backspace drops the last character, a character typed
/// without control is added, anything else leaves it as it is.
pub open spec fn edited(buf: Seq<char>, code: KeyCode, modifiers: KeyModifiers) -> Seq<char> {
    match code {
        KeyCode::Backspace => if buf.len() > 0 {
            buf.drop_last()
        } else {
            buf
        },
        KeyCode::Char(c) => if !holds(modifiers, control_bits()) {
            buf.push(c)
        } else {
            buf
        },
        _ => buf,
    }
}

/// What a key does in each mode, as (next mode, state, work for the caller):
/// - Normal: the leader key awaits a command; other keys are sent to the shell.
/// - Awaiting a command: `q` quits; `x` closes the active pane (quitting when it was the
///   last tab's only pane); `u` brings back the last closed tab still undoable at `now`;
///   `c` opens a tab; `C` asks for a new tab's name; `r` asks for the active tab's new name, starting from the
///   current one; `|` splits; ←/→ move between panes; `[` scrolls back; `?` shows help;
///   `n`/`p` switch to the next/previous tab; `1`–`9` switch to that tab. Then back to
///   Normal.
/// - Entering a name: Enter opens the tab (named, or named after its pane when empty) or
///   renames the active tab (dropping its name when empty); Esc cancels; other keys edit.
/// - Help: any key closes it.
/// - Scrolling back: ↑/↓ move a line, PgUp/PgDn a page, `q` or Esc return to Normal.
pub open spec fn key_transition(
    code: KeyCode,
    modifiers: KeyModifiers,
    mode: ModeView,
    m: ManagerView,
    leader: (KeyCode, KeyModifiers),
    now: u64,
) -> (ModeView, ManagerView, EffectView) {
    match mode {
        ModeView::AwaitingCommand => match code {
            KeyCode::Char(c) => if c == 'q' {
                (ModeView::Quit, m, EffectView::Nothing)
            } else if c == 'x' {
                let (m1, last) = close_active_pane_result(m, now);
                (if last {
                    ModeView::Quit
                } else {
                    ModeView::Normal
                }, m1, EffectView::Nothing)
            } else if c == 'u' {
                (ModeView::Normal, undo_close_result(m, now).0, EffectView::Nothing)
            } else if c == 'c' {
                (ModeView::Normal, m, EffectView::OpenTab)
            } else if c == 'C' {
                (ModeView::Naming(Seq::empty()), m, EffectView::Nothing)
            } else if c == 'r' {
                (ModeView::Renaming(m.active_tab().display_name()), m, EffectView::Nothing)
            } else if c == '|' {
                (ModeView::Normal, m, EffectView::SplitPane)
            } else if c == '[' {
                (ModeView::ScrollBack(0), m, EffectView::Nothing)
            } else if c == '?' {
                (ModeView::Help, m, EffectView::Nothing)
            } else if c == 'n' {
                (ModeView::Normal, switch_next_result(m), EffectView::Nothing)
            } else if c == 'p' {
                (ModeView::Normal, switch_prev_result(m), EffectView::Nothing)
            } else if '1' <= c <= '9' {
                (ModeView::Normal, switch_to_result(m, (c as u32 - 49) as usize), EffectView::Nothing)
            } else {
                (ModeView::Normal, m, EffectView::Nothing)
            },
            KeyCode::Left => (ModeView::Normal, focus_prev_result(m), EffectView::Nothing),
            KeyCode::Right => (ModeView::Normal, focus_next_result(m), EffectView::Nothing),
            _ => (ModeView::Normal, m, EffectView::Nothing),
        },
        ModeView::Naming(buf) => match code {
            KeyCode::Enter => (ModeView::Normal, m, if buf.len() == 0 {
                EffectView::OpenTab
            } else {
                EffectView::OpenTabNamed(buf)
            }),
            KeyCode::Esc => (ModeView::Normal, m, EffectView::Nothing),
            _ => (ModeView::Naming(edited(buf, code, modifiers)), m, EffectView::Nothing),
        },
        ModeView::Renaming(buf) => match code {
            KeyCode::Enter => (ModeView::Normal, if buf.len() == 0 {
                revert_name_result(m)
            } else {
                rename_result(m, buf)
            }, EffectView::Nothing),
            KeyCode::Esc => (ModeView::Normal, m, EffectView::Nothing),
            _ => (ModeView::Renaming(edited(buf, code, modifiers)), m, EffectView::Nothing),
        },
        ModeView::Help => (ModeView::Normal, m, EffectView::Nothing),
        ModeView::ScrollBack(lines) => {
            let page = m.size.spec_rows() - 1;
            match code {
                KeyCode::Up => (ModeView::ScrollBack(cap_scrollback(lines + 1) as usize), m, EffectView::Nothing),
                KeyCode::Down => (ModeView::ScrollBack(sat_sub(lines as int, 1) as usize), m, EffectView::Nothing),
                KeyCode::PageUp => (ModeView::ScrollBack(cap_scrollback(lines + page) as usize), m, EffectView::Nothing),
                KeyCode::PageDown => (ModeView::ScrollBack(sat_sub(lines as int, page) as usize), m, EffectView::Nothing),
                KeyCode::Char(c) => if c == 'q' {
                    (ModeView::Normal, m, EffectView::Nothing)
                } else {
                    (ModeView::ScrollBack(lines), m, EffectView::Nothing)
                },
                KeyCode::Esc => (ModeView::Normal, m, EffectView::Nothing),
                _ => (ModeView::ScrollBack(lines), m, EffectView::Nothing),
            }
        },
        ModeView::Normal => if code == leader.0 && holds(modifiers, leader.1) {
            (ModeView::AwaitingCommand, m, EffectView::Nothing)
        } else {
            (ModeView::Normal, m, match key_bytes(code, modifiers) {
                Some(b) => EffectView::Write(b),
                None => EffectView::Nothing,
            })
        },
        ModeView::Quit => (ModeView::Normal, m, EffectView::Nothing),
    }
}


/// `buf` edited by a key (see `edited`).
fn edit(buf: &mut Vec<char>, code: KeyCode, modifiers: KeyModifiers)
    ensures
        final(buf)@ == edited(old(buf)@, code, modifiers),
{
    match code {
        KeyCode::Backspace => {
            buf.pop();
        },
        KeyCode::Char(c) => {
            if !modifiers.contains(KeyModifiers::control()) {
                buf.push(c);
            }
        },
        _ => {},
    }
}

/// Handles one key press in mode `mode` (see `key_transition`): makes the state changes
/// the key asks for, and returns the next mode with the work left to the caller. `now` is
/// the time, in nanoseconds, recorded for a tab that a close keeps for undo.
pub fn handle_key(
    code: KeyCode,
    modifiers: KeyModifiers,
    mode: InputMode,
    manager: &mut PaneManager,
    leader: (KeyCode, KeyModifiers),
    now: u64,
) -> (r: (InputMode, KeyEffect))
    requires
        old(manager)@.wf(),
    ensures
        (r.0@, final(manager)@, r.1@) == key_transition(code, modifiers, mode@, old(manager)@, leader, now),
        final(manager)@.wf(),
{
    match mode {
        InputMode::AwaitingCommand => match code {
            KeyCode::Char(c) => {
                if c == 'q' {
                    (InputMode::Quit, KeyEffect::Nothing)
                } else if c == 'x' {
                    if manager.close_active_pane(now) {
                        (InputMode::Quit, KeyEffect::Nothing)
                    } else {
                        (InputMode::Normal, KeyEffect::Nothing)
                    }
                } else if c == 'u' {
                    let _ = manager.undo_close(now);
                    (InputMode::Normal, KeyEffect::Nothing)
                } else if c == 'c' {
                    (InputMode::Normal, KeyEffect::OpenTab)
                } else if c == 'C' {
                    let empty: Vec<char> = Vec::new();
                    assert(empty@ =~= Seq::<char>::empty());
                    (InputMode::Naming(empty), KeyEffect::Nothing)
                } else if c == 'r' {
                    let current = manager.active_name();
                    (InputMode::Renaming(str_chars(current.as_str())), KeyEffect::Nothing)
                } else if c == '|' {
                    (InputMode::Normal, KeyEffect::SplitPane)
                } else if c == '[' {
                    (InputMode::ScrollBack(ScrollOffset::zero()), KeyEffect::Nothing)
                } else if c == '?' {
                    (InputMode::Help, KeyEffect::Nothing)
                } else if c == 'n' {
                    manager.switch_to_next();
                    (InputMode::Normal, KeyEffect::Nothing)
                } else if c == 'p' {
                    manager.switch_to_prev();
                    (InputMode::Normal, KeyEffect::Nothing)
                } else if '1' <= c && c <= '9' {
                    let d: usize = (c as u32 - 49) as usize;
                    manager.switch_to(TabIndex::from(d));
                    (InputMode::Normal, KeyEffect::Nothing)
                } else {
                    (InputMode::Normal, KeyEffect::Nothing)
                }
            },
            KeyCode::Left => {
                manager.focus_prev_pane();
                (InputMode::Normal, KeyEffect::Nothing)
            },
            KeyCode::Right => {
                manager.focus_next_pane();
                (InputMode::Normal, KeyEffect::Nothing)
            },
            _ => (InputMode::Normal, KeyEffect::Nothing),
        },
        InputMode::Naming(mut buf) => match code {
            KeyCode::Enter => {
                if buf.len() == 0 {
                    (InputMode::Normal, KeyEffect::OpenTab)
                } else {
                    (InputMode::Normal, KeyEffect::OpenTabNamed(chars_to_string(&buf)))
                }
            },
            KeyCode::Esc => (InputMode::Normal, KeyEffect::Nothing),
            _ => {
                edit(&mut buf, code, modifiers);
                (InputMode::Naming(buf), KeyEffect::Nothing)
            },
        },
        InputMode::Renaming(mut buf) => match code {
            KeyCode::Enter => {
                if buf.len() == 0 {
                    manager.revert_active_name();
                } else {
                    manager.rename_active(chars_to_string(&buf));
                }
                (InputMode::Normal, KeyEffect::Nothing)
            },
            KeyCode::Esc => (InputMode::Normal, KeyEffect::Nothing),
            _ => {
                edit(&mut buf, code, modifiers);
                (InputMode::Renaming(buf), KeyEffect::Nothing)
            },
        },
        InputMode::Help => (InputMode::Normal, KeyEffect::Nothing),
        InputMode::ScrollBack(offset) => {
            let rows = Rows::from(manager.size);
            match code {
                KeyCode::Up => (InputMode::ScrollBack(offset.scroll_up()), KeyEffect::Nothing),
                KeyCode::Down => (InputMode::ScrollBack(offset.scroll_down()), KeyEffect::Nothing),
                KeyCode::PageUp => (InputMode::ScrollBack(offset.page_up(rows)), KeyEffect::Nothing),
                KeyCode::PageDown => (InputMode::ScrollBack(offset.page_down(rows)), KeyEffect::Nothing),
                KeyCode::Char(c) => {
                    if c == 'q' {
                        (InputMode::Normal, KeyEffect::Nothing)
                    } else {
                        (InputMode::ScrollBack(offset), KeyEffect::Nothing)
                    }
                },
                KeyCode::Esc => (InputMode::Normal, KeyEffect::Nothing),
                _ => (InputMode::ScrollBack(offset), KeyEffect::Nothing),
            }
        },
        InputMode::Normal => {
            if code == leader.0 && modifiers.contains(leader.1) {
                return (InputMode::AwaitingCommand, KeyEffect::Nothing);
            }
            match key_to_bytes(code, modifiers) {
                Some(bytes) => (InputMode::Normal, KeyEffect::Write(bytes)),
                None => (InputMode::Normal, KeyEffect::Nothing),
            }
        },
        InputMode::Quit => (InputMode::Normal, KeyEffect::Nothing),
    }
}

/// The text shown in place of the tab bar in each mode, if any.
pub open spec fn prompt_text(mode: ModeView) -> Option<Seq<char>> {
    match mode {
        ModeView::Naming(buf) => Some("New tab name: "@ + buf + "_"@),
        ModeView::Renaming(buf) => Some("Rename tab: "@ + buf + "_"@),
        ModeView::ScrollBack(_) => Some("-- SCROLL -- (↑↓/PgUp/PgDn, q/Esc to exit)"@),
        _ => None,
    }
}

impl InputMode {
    /// The text shown in place of the tab bar, if any (see `prompt_text`).
    pub fn prompt(&self) -> (r: Option<String>)
        ensures
            r is None <==> prompt_text(self@) is None,
            r matches Some(t) ==> prompt_text(self@) == Some(t@),
    {
        match self {
            InputMode::Naming(buf) => {
                let mut text = str_chars("New tab name: ");
                append_chars(&mut text, buf);
                append_chars(&mut text, &str_chars("_"));
                Some(chars_to_string(&text))
            },
            InputMode::Renaming(buf) => {
                let mut text = str_chars("Rename tab: ");
                append_chars(&mut text, buf);
                append_chars(&mut text, &str_chars("_"));
                Some(chars_to_string(&text))
            },
            InputMode::ScrollBack(_) => Some(
                chars_to_string(&str_chars("-- SCROLL -- (↑↓/PgUp/PgDn, q/Esc to exit)")),
            ),
            _ => None,
        }
    }

    /// How far the active pane is scrolled back: only while scrolling back.
    pub fn scroll_offset(&self) -> (r: ScrollOffset)
        ensures
            r.spec_lines() == match self@ {
                ModeView::ScrollBack(n) => n,
                _ => 0,
            },
    {
        match self {
            InputMode::ScrollBack(n) => *n,
            _ => ScrollOffset::zero(),
        }
    }

    /// Whether the key-binding help is shown.
    pub fn shows_help(&self) -> (r: bool)
        ensures
            r == (self@ matches ModeView::Help),
    {
        match self {
            InputMode::Help => true,
            _ => false,
        }
    }

    /// Whether Sambil is quitting.
    pub fn is_quit(&self) -> (r: bool)
        ensures
            r == (self@ matches ModeView::Quit),
    {
        match self {
            InputMode::Quit => true,
            _ => false,
        }
    }
}


/// Law: while scrolling back, no key reaches the shell, starts a shell, or changes the
/// tabs; keys only move the view or leave the mode.
pub proof fn lemma_scrollback_is_inert(code: KeyCode, modifiers: KeyModifiers, lines: usize, m: ManagerView, leader: (KeyCode, KeyModifiers), now: u64)
    ensures
        ({
            let (mode, m1, effect) = key_transition(code, modifiers, ModeView::ScrollBack(lines), m, leader, now);
            &&& m1 == m
            &&& effect matches EffectView::Nothing
            &&& (mode matches ModeView::ScrollBack(_) || mode matches ModeView::Normal)
        }),
{
}

/// Law: while scrolling back `lines` lines, Up goes one line further back (stopping at
/// the deepest position), Down one line towards the live screen (stopping there), PageUp
/// and PageDown a page (one line fewer than the terminal's rows) each way; so Up then Down
/// returns to where it started below the deepest position, and Down never goes further
/// back.
pub proof fn lemma_scrollback_moves(
    lines: usize,
    modifiers: KeyModifiers,
    m: ManagerView,
    leader: (KeyCode, KeyModifiers),
    now: u64,
)
    requires
        lines <= MAX_SCROLLBACK,
        m.size.spec_rows() >= 1,
    ensures
        key_transition(KeyCode::Up, modifiers, ModeView::ScrollBack(lines), m, leader, now).0 == ModeView::ScrollBack(
            if lines < MAX_SCROLLBACK {
                (lines + 1) as usize
            } else {
                MAX_SCROLLBACK
            },
        ),
        key_transition(KeyCode::Down, modifiers, ModeView::ScrollBack(lines), m, leader, now).0 == ModeView::ScrollBack(
            if lines > 0 {
                (lines - 1) as usize
            } else {
                0
            },
        ),
        key_transition(KeyCode::PageUp, modifiers, ModeView::ScrollBack(lines), m, leader, now).0 == ModeView::ScrollBack(
            if lines + m.size.spec_rows() - 1 <= MAX_SCROLLBACK {
                (lines + m.size.spec_rows() - 1) as usize
            } else {
                MAX_SCROLLBACK
            },
        ),
        key_transition(KeyCode::PageDown, modifiers, ModeView::ScrollBack(lines), m, leader, now).0 == ModeView::ScrollBack(
            if lines >= m.size.spec_rows() - 1 {
                (lines - (m.size.spec_rows() - 1)) as usize
            } else {
                0
            },
        ),
        lines < MAX_SCROLLBACK ==> key_transition(
            KeyCode::Down,
            modifiers,
            key_transition(KeyCode::Up, modifiers, ModeView::ScrollBack(lines), m, leader, now).0,
            m,
            leader,
            now,
        ).0 == ModeView::ScrollBack(lines),
        key_transition(KeyCode::Down, modifiers, ModeView::ScrollBack(lines), m, leader, now).0 matches ModeView::ScrollBack(
            n,
        ) && n <= lines,
{
}

/// Law: while the help is shown, any key just closes it.
pub proof fn lemma_help_dismissed_by_any_key(code: KeyCode, modifiers: KeyModifiers, m: ManagerView, leader: (KeyCode, KeyModifiers), now: u64)
    ensures
        ({
            let (mode, m1, effect) = key_transition(code, modifiers, ModeView::Help, m, leader, now);
            mode matches ModeView::Normal && m1 == m && effect matches EffectView::Nothing
        }),
{
}

/// Law: Esc while entering a name cancels: back to Normal, nothing opened or renamed.
pub proof fn lemma_esc_cancels_naming(buf: Seq<char>, modifiers: KeyModifiers, m: ManagerView, leader: (KeyCode, KeyModifiers), now: u64)
    ensures
        ({
            let (mode, m1, effect) = key_transition(KeyCode::Esc, modifiers, ModeView::Naming(buf), m, leader, now);
            mode matches ModeView::Normal && m1 == m && effect matches EffectView::Nothing
        }),
        ({
            let (mode, m1, effect) = key_transition(KeyCode::Esc, modifiers, ModeView::Renaming(buf), m, leader, now);
            mode matches ModeView::Normal && m1 == m && effect matches EffectView::Nothing
        }),
{
}

/// Law: a tab number with no such tab (after the leader) leaves the active tab as it is.
pub proof fn lemma_out_of_range_tab_number_is_noop(d: char, modifiers: KeyModifiers, m: ManagerView, leader: (KeyCode, KeyModifiers), now: u64)
    requires
        '1' <= d <= '9',
        (d as u32 - 49) >= m.tabs.tabs.len(),
    ensures
        ({
            let (mode, m1, effect) = key_transition(KeyCode::Char(d), modifiers, ModeView::AwaitingCommand, m, leader, now);
            mode matches ModeView::Normal && m1 == m && effect matches EffectView::Nothing
        }),
{
}

/// Law: in Normal mode the leader key only arms a command: nothing is sent to the shell.
pub proof fn lemma_leader_not_forwarded(modifiers: KeyModifiers, m: ManagerView, leader: (KeyCode, KeyModifiers), now: u64)
    requires
        holds(modifiers, leader.1),
    ensures
        ({
            let (mode, m1, effect) = key_transition(leader.0, modifiers, ModeView::Normal, m, leader, now);
            mode matches ModeView::AwaitingCommand && m1 == m && effect matches EffectView::Nothing
        }),
{
}

/// Law: a command key always ends the command: the mode after it is never "awaiting a
/// command" again, so the leader must be pressed anew for each command.
pub proof fn lemma_command_ends(code: KeyCode, modifiers: KeyModifiers, m: ManagerView, leader: (KeyCode, KeyModifiers), now: u64)
    ensures
        !(key_transition(code, modifiers, ModeView::AwaitingCommand, m, leader, now).0 matches ModeView::AwaitingCommand),
{
}

} // verus!
