use sambil::cell::CellContent;
use sambil::cursor::CursorStyle;
use sambil::pane::Pane;
use sambil::pane_manager::PaneManager;
use sambil::renderer::{
    flush_diff, paint_active_tab, paint_help, paint_prompt, paint_tab_bar, Attrs, Cell, Color, CursorState, DrawOp,
    FrameBuffer, PaneScreen, Renderer,
};
use sambil::size::{ContentArea, TerminalSize};

fn size(cols: u16, rows: u16) -> TerminalSize {
    TerminalSize::new(cols, rows).unwrap()
}

fn manager(cols: u16, rows: u16) -> PaneManager {
    let s = size(cols, rows);
    PaneManager::new(s, Pane::new(1, "/home/user/first", ContentArea::from(s).full_size()))
}

fn row_text(fb: &FrameBuffer, row: u16) -> String {
    (0..fb.size.cols()).map(|c| fb.get(row, c).unwrap().content.as_str().to_string()).collect()
}

fn cursor() -> CursorState {
    CursorState { row: 0, col: 0, hidden: false, style: CursorStyle::Default }
}

fn screen_with(text: &str, rows: u16, cols: u16) -> PaneScreen {
    let mut cells = Vec::new();
    let chars: Vec<char> = text.chars().collect();
    for r in 0..rows {
        for c in 0..cols {
            let i = (r as usize) * (cols as usize) + c as usize;
            let ch = if i < chars.len() { chars[i] } else { ' ' };
            cells.push(Cell::of_char(ch, Attrs::plain()));
        }
    }
    PaneScreen { rows, cols, cells }
}

#[test]
fn tab_bar_shows_the_active_tab() {
    let m = manager(40, 5);
    let mut fb = FrameBuffer::new(m.size);
    paint_tab_bar(&mut fb, &m);
    assert_eq!(row_text(&fb, 0).trim_end(), "  [●:first]");
    let active = fb.get(0, 3).unwrap();
    assert_eq!(active.attrs.bg, Color::Idx(8));
    assert_eq!(active.attrs.fg, Color::Idx(15));
    assert!(active.attrs.bold);
}

#[test]
fn tab_bar_numbers_inactive_tabs() {
    let mut m = manager(60, 5);
    m.open_tab(2, "/srv/second");
    let mut fb = FrameBuffer::new(m.size);
    paint_tab_bar(&mut fb, &m);
    assert_eq!(row_text(&fb, 0).trim_end(), "  [1:first]  [●:second]");
    let inactive = fb.get(0, 3).unwrap();
    assert_eq!(inactive.attrs.bg, Color::Default);
    assert_eq!(inactive.attrs.fg, Color::Idx(8));
}

#[test]
fn tab_bar_shows_undo_hint_while_a_close_can_be_undone() {
    let mut m = manager(40, 5);
    m.open_tab(2, "/two");
    m.close_active_pane(0);
    let mut fb = FrameBuffer::new(m.size);
    paint_tab_bar(&mut fb, &m);
    let text = row_text(&fb, 0);
    assert!(text.ends_with(" ↩ u "), "{text:?}");
    assert_eq!(fb.get(0, 37).unwrap().attrs.fg, Color::Idx(11));
}

#[test]
fn tab_bar_is_cut_at_the_edge() {
    let m = manager(6, 3);
    let mut fb = FrameBuffer::new(m.size);
    paint_tab_bar(&mut fb, &m);
    assert_eq!(row_text(&fb, 0), "  [●:f");
}

#[test]
fn prompt_replaces_text_but_keeps_attributes() {
    let mut fb = FrameBuffer::new(size(20, 3));
    fb.set(0, 1, Cell::of_char('x', Attrs { fg: Color::Idx(3), ..Attrs::plain() }));
    paint_prompt(&mut fb, "Rename tab: a_");
    assert_eq!(row_text(&fb, 0), "Rename tab: a_      ");
    assert_eq!(fb.get(0, 1).unwrap().attrs.fg, Color::Idx(3));
}

#[test]
fn help_lists_bindings_with_the_leader() {
    let mut fb = FrameBuffer::new(size(60, 24));
    paint_help(&mut fb, "CTRL+a");
    assert_eq!(row_text(&fb, 0).trim_end(), "");
    assert_eq!(row_text(&fb, 2).trim_end(), "  Sambil Key Bindings");
    assert_eq!(row_text(&fb, 4).trim_end(), "  Ctrl-a c  New tab (cwd name)");
    assert_eq!(row_text(&fb, 15).trim_end(), "  Ctrl-a q  Quit");
    assert_eq!(row_text(&fb, 18).trim_end(), "  Press any key to dismiss");
}

#[test]
fn help_stops_at_the_bottom() {
    let mut fb = FrameBuffer::new(size(60, 4));
    paint_help(&mut fb, "ctrl+b");
    assert_eq!(row_text(&fb, 3).trim_end(), "  ───────────────────────────────────────");
}

#[test]
fn panes_are_drawn_with_a_divider() {
    let mut m = manager(21, 4);
    m.split_horizontal(2, "/x");
    let screens = vec![screen_with("LEFT", 3, 10), screen_with("RIGHTPANE", 3, 10)];
    let mut fb = FrameBuffer::new(m.size);
    paint_active_tab(&mut fb, &m, &screens);
    assert_eq!(row_text(&fb, 1), "LEFT      │RIGHTPANE ");
    // The active pane is on the right: the middle row points right.
    assert_eq!(fb.get(2, 10).unwrap().content.as_str(), "▶");
    assert_eq!(fb.get(2, 10).unwrap().attrs.fg, Color::Idx(15));
    assert_eq!(fb.get(1, 10).unwrap().attrs.fg, Color::Idx(8));
}

#[test]
fn screen_cells_convert() {
    let wide = Cell::from_screen("x", true, Attrs { bold: true, ..Attrs::plain() }).unwrap();
    assert_eq!(wide.content.as_str(), " ");
    assert!(!wide.attrs.bold);
    let empty = Cell::from_screen("", false, Attrs { bold: true, ..Attrs::plain() }).unwrap();
    assert_eq!(empty.content.as_str(), " ");
    assert!(empty.attrs.bold);
    assert!(Cell::from_screen("ab", false, Attrs::plain()).is_err());
    assert_eq!(Cell::from_screen("Z", false, Attrs::plain()).unwrap().content.as_str(), "Z");
}

fn printed(ops: &[DrawOp]) -> String {
    ops.iter().filter_map(|o| match o { DrawOp::Print(s) => Some(s.as_str()), _ => None }).collect()
}

#[test]
fn draw_sends_only_what_changed() {
    let m = manager(20, 3);
    let mut r = Renderer::new(m.size);
    let screens = vec![screen_with("hello", 2, 20)];
    let first = r.draw(&m, None, false, "ctrl+b", &screens, cursor());
    assert!(matches!(first[0], DrawOp::HideCursor));
    assert!(printed(&first).contains("hello"));
    assert!(printed(&first).contains("[●:first]"));
    let second = r.draw(&m, None, false, "ctrl+b", &screens, cursor());
    assert_eq!(printed(&second), "");
    assert_eq!(second.len(), 4);
    assert!(matches!(second[1], DrawOp::MoveTo { col: 0, row: 1 }));
    assert!(matches!(second[3], DrawOp::ShowCursor));
}

#[test]
fn draw_hides_cursor_under_a_prompt_and_clears_for_help() {
    let m = manager(20, 3);
    let mut r = Renderer::new(m.size);
    let screens = vec![screen_with("", 2, 20)];
    let ops = r.draw(&m, Some("New tab name: _"), false, "ctrl+b", &screens, cursor());
    assert!(matches!(ops.last().unwrap(), DrawOp::HideCursor));
    assert!(printed(&ops).replace(' ', "").contains("Newtabname:_"));
    let ops = r.draw(&m, None, true, "ctrl+b", &screens, cursor());
    assert!(matches!(ops[0], DrawOp::ClearAll));
    assert!(printed(&ops).replace(' ', "").contains("SambilKeyBindin"));
}

#[test]
fn draw_places_cursor_in_the_active_pane() {
    let mut m = manager(21, 4);
    m.split_horizontal(2, "/x");
    let mut r = Renderer::new(m.size);
    let screens = vec![screen_with("", 3, 10), screen_with("", 3, 10)];
    let c = CursorState { row: 1, col: 2, hidden: false, style: CursorStyle::SteadyBar };
    let ops = r.draw(&m, None, false, "ctrl+b", &screens, c);
    let n = ops.len();
    assert!(matches!(ops[n - 3], DrawOp::MoveTo { col: 13, row: 2 }));
    assert!(matches!(ops[n - 2], DrawOp::SetCursorStyle(CursorStyle::SteadyBar)));
    let hidden = CursorState { hidden: true, ..c };
    let ops = r.draw(&m, None, false, "ctrl+b", &screens, hidden);
    assert!(matches!(ops.last().unwrap(), DrawOp::HideCursor));
}

#[test]
fn colours_are_switched_before_printing() {
    let m = manager(20, 3);
    let mut r = Renderer::new(m.size);
    let mut cells = Vec::new();
    for i in 0..40 {
        let attrs = if i == 0 {
            Attrs { fg: Color::Rgb(220, 50, 47), ..Attrs::plain() }
        } else {
            Attrs::plain()
        };
        cells.push(Cell::of_char(if i == 0 { 'Z' } else { ' ' }, attrs));
    }
    let screens = vec![PaneScreen { rows: 2, cols: 20, cells }];
    let ops = r.draw(&m, None, false, "ctrl+b", &screens, cursor());
    let z = ops.iter().position(|o| matches!(o, DrawOp::Print(s) if s == "Z")).unwrap();
    assert!(ops[..z].iter().any(|o| matches!(o, DrawOp::SetForeground(Color::Rgb(220, 50, 47)))));
    assert!(matches!(ops[z - 3], DrawOp::ResetAttributes));
    let _ = CellContent::default();
}

#[test]
fn a_wide_character_moves_the_cursor_two_columns() {
    let s = size(4, 1);
    let prev = FrameBuffer::new(s);
    let mut next = FrameBuffer::new(s);
    next.set(0, 0, Cell::of_char('漢', Attrs::plain()));
    next.set(0, 1, Cell::of_char('x', Attrs::plain()));
    next.set(0, 2, Cell::of_char('y', Attrs::plain()));
    let mut ops = Vec::new();
    flush_diff(&mut ops, &prev, &next);
    let moves: Vec<(u16, u16)> = ops
        .iter()
        .filter_map(|o| match o { DrawOp::MoveTo { col, row } => Some((*col, *row)), _ => None })
        .collect();
    assert_eq!(moves, vec![(0, 0), (1, 0)]);
    assert_eq!(printed(&ops), "漢xy");
}

/// Performs the operations on a grid of (text, attributes) cells, printing one column per
/// cell.
fn replay(grid: &mut Vec<Vec<(String, Attrs)>>, ops: &[DrawOp]) -> Attrs {
    let (mut row, mut col) = (0usize, 0usize);
    let mut attrs = Attrs::plain();
    for op in ops {
        match op {
            DrawOp::MoveTo { col: c, row: r } => {
                row = *r as usize;
                col = *c as usize;
            }
            DrawOp::ResetAttributes => attrs = Attrs::plain(),
            DrawOp::SetForeground(c) => attrs.fg = *c,
            DrawOp::SetBackground(c) => attrs.bg = *c,
            DrawOp::SetBold => attrs.bold = true,
            DrawOp::SetItalic => attrs.italic = true,
            DrawOp::SetUnderlined => attrs.underline = true,
            DrawOp::SetReverse => attrs.inverse = true,
            DrawOp::Print(s) => {
                grid[row][col] = (s.clone(), attrs);
                col += 1;
            }
            _ => {}
        }
    }
    attrs
}

fn grid_of(fb: &FrameBuffer) -> Vec<Vec<(String, Attrs)>> {
    (0..fb.size.rows())
        .map(|r| {
            (0..fb.size.cols())
                .map(|c| {
                    let cell = fb.get(r, c).unwrap();
                    (cell.content.as_str().to_string(), cell.attrs)
                })
                .collect()
        })
        .collect()
}

#[test]
fn replaying_a_diff_shows_the_next_frame() {
    let s = size(5, 3);
    let mut prev = FrameBuffer::new(s);
    prev.set(0, 0, Cell::of_char('a', Attrs::plain()));
    prev.set(1, 2, Cell::of_char('b', Attrs { bold: true, ..Attrs::plain() }));
    prev.set(2, 4, Cell::of_char('c', Attrs::plain()));
    let mut next = FrameBuffer::new(s);
    next.set(0, 0, Cell::of_char('a', Attrs::plain()));
    next.set(0, 1, Cell::of_char('x', Attrs { fg: Color::Idx(3), ..Attrs::plain() }));
    next.set(1, 2, Cell::of_char('b', Attrs::plain()));
    next.set(1, 3, Cell::of_char('y', Attrs { underline: true, inverse: true, ..Attrs::plain() }));
    next.set(2, 0, Cell::of_char('z', Attrs { bg: Color::Rgb(1, 2, 3), italic: true, ..Attrs::plain() }));
    let mut ops = Vec::new();
    flush_diff(&mut ops, &prev, &next);
    let mut grid = grid_of(&prev);
    let attrs = replay(&mut grid, &ops);
    assert_eq!(grid, grid_of(&next));
    assert_eq!(attrs, Attrs::plain());
}
