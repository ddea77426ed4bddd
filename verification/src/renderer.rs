//! Drawing: the frame of cells to show (tab bar or prompt, panes with dividers, or the
//! help), and the terminal operations that turn the previous frame into the next one.
use vstd::prelude::*;

use unicode_width::UnicodeWidthStr;

use crate::cell::{grapheme_count, CellContent, InvalidCellContent};
use crate::cursor::CursorStyle;
use crate::pane_manager::{ManagerView, PaneManager, Tab, TabActiveState, TabView};
use crate::size::{at_least_one, ColOffset, TerminalSize};
use crate::pane::Pane;
use crate::text::{append_chars, replace_first_chars, str_chars, to_lowercase};

verus! {

/// A colour as the terminal names it.
#[derive(Debug, Clone, Copy, PartialEq, Eq, Structural)]
pub enum Color {
    /// The terminal's default colour.
    Default,
    /// A palette colour.
    Idx(u8),
    /// A true colour: red, green, blue.
    Rgb(u8, u8, u8),
}

/// How a cell's text is drawn.
#[derive(Debug, Clone, Copy, PartialEq, Eq, Structural)]
pub struct Attrs {
    pub fg: Color,
    pub bg: Color,
    pub bold: bool,
    pub italic: bool,
    pub underline: bool,
    pub inverse: bool,
}

/// Default colours, no emphasis.
pub open spec fn plain() -> Attrs {
    Attrs {
        fg: Color::Default,
        bg: Color::Default,
        bold: false,
        italic: false,
        underline: false,
        inverse: false,
    }
}

impl Attrs {
    /// Default colours, no emphasis.
    pub fn plain() -> (r: Self)
        ensures
            r == plain(),
    {
        Attrs {
            fg: Color::Default,
            bg: Color::Default,
            bold: false,
            italic: false,
            underline: false,
            inverse: false,
        }
    }

    /// Whether two attribute sets are the same.
    pub fn same_as(&self, other: &Attrs) -> (r: bool)
        ensures
            r == (*self == *other),
    {
        *self == *other
    }
}

impl Default for Attrs {
    fn default() -> (r: Self)
        ensures
            r == plain(),
    {
        Attrs::plain()
    }
}

/// A cell as a value: its text and attributes.
pub struct CellView {
    pub content: Seq<char>,
    pub attrs: Attrs,
}

/// A blank cell: one space, plain.
pub open spec fn blank() -> CellView {
    CellView { content: seq![' '], attrs: plain() }
}

/// One cell of a frame: its text (one grapheme cluster) and how it is drawn.
pub struct Cell {
    pub content: CellContent,
    pub attrs: Attrs,
}

impl View for Cell {
    type V = CellView;

    open spec fn view(&self) -> CellView {
        CellView { content: self.content@, attrs: self.attrs }
    }
}

impl Cell {
    /// A blank cell: one space, plain.
    pub fn blank() -> (r: Self)
        ensures
            r@ == blank(),
    {
        Cell { content: CellContent::blank(), attrs: Attrs::plain() }
    }

    /// The character `c` drawn with `attrs`.
    pub fn of_char(c: char, attrs: Attrs) -> (r: Self)
        ensures
            r@ == (CellView { content: seq![c], attrs }),
    {
        Cell { content: CellContent::from(c), attrs }
    }

    /// A copy of this cell.
    pub fn duplicate(&self) -> (r: Self)
        ensures
            r@ == self@,
    {
        Cell { content: self.content.duplicate(), attrs: self.attrs }
    }

    /// Whether two cells show the same text the same way.
    pub fn same_as(&self, other: &Cell) -> (r: bool)
        ensures
            r == (self@ == other@),
    {
        let a = self.content.as_str();
        let b = other.content.as_str();
        let ac = crate::text::str_chars(a);
        let bc = crate::text::str_chars(b);
        if ac.len() != bc.len() {
            return false;
        }
        let mut i: usize = 0;
        while i < ac.len()
            invariant
                ac@ == self.content@,
                bc@ == other.content@,
                ac.len() == bc.len(),
                0 <= i <= ac.len(),
                forall|k: int| 0 <= k < i ==> ac@[k] == bc@[k],
            decreases ac.len() - i,
        {
            if ac[i] != bc[i] {
                return false;
            }
            i = i + 1;
        }
        assert(ac@ =~= bc@);
        self.attrs == other.attrs
    }
}

impl Default for Cell {
    fn default() -> (r: Self)
        ensures
            r@ == blank(),
    {
        Cell::blank()
    }
}

/// A frame's cells as values, row by row, with its size.
pub struct FrameView {
    pub size: TerminalSize,
    pub cells: Seq<CellView>,
}

/// The position of cell (`row`, `col`) in a row-by-row sequence `cols` wide.
pub open spec fn cell_index(cols: int, row: int, col: int) -> int {
    row * cols + col
}

impl FrameView {
    /// One cell per position.
    pub open spec fn wf(self) -> bool {
        self.cells.len() == self.size.spec_rows() * self.size.spec_cols()
    }

    /// Whether (`row`, `col`) lies in the frame.
    pub open spec fn contains(self, row: int, col: int) -> bool {
        0 <= row < self.size.spec_rows() && 0 <= col < self.size.spec_cols()
    }

    /// The cell at (`row`, `col`), or a blank one outside the frame.
    pub open spec fn at(self, row: int, col: int) -> CellView {
        if self.contains(row, col) {
            self.cells[cell_index(self.size.spec_cols() as int, row, col)]
        } else {
            blank()
        }
    }

    /// The frame with (`row`, `col`) set to `cell`, where that lies in the frame.
    pub open spec fn set(self, row: int, col: int, cell: CellView) -> FrameView {
        if self.contains(row, col) {
            FrameView { size: self.size, cells: self.cells.update(cell_index(self.size.spec_cols() as int, row, col), cell) }
        } else {
            self
        }
    }
}

/// A blank frame of the given size.
pub open spec fn blank_frame(size: TerminalSize) -> FrameView {
    FrameView { size, cells: Seq::new((size.spec_rows() * size.spec_cols()) as nat, |i: int| blank()) }
}

pub(crate) proof fn lemma_index_in_bounds(rows: int, cols: int, row: int, col: int)
    requires
        0 <= row < rows,
        0 <= col < cols,
    ensures
        0 <= cell_index(cols, row, col) < rows * cols,
{
    assert(row * cols + col < rows * cols) by (nonlinear_arith)
        requires
            0 <= row < rows,
            0 <= col < cols,
    ;
    assert(row * cols >= 0) by (nonlinear_arith)
        requires
            0 <= row,
            0 <= col < cols,
    ;
}

pub(crate) proof fn lemma_index_distinct(cols: int, r1: int, c1: int, r2: int, c2: int)
    requires
        0 <= c1 < cols,
        0 <= c2 < cols,
        0 <= r1,
        0 <= r2,
        cell_index(cols, r1, c1) == cell_index(cols, r2, c2),
    ensures
        r1 == r2 && c1 == c2,
{
    vstd::arithmetic::div_mod::lemma_fundamental_div_mod_converse(
        cell_index(cols, r1, c1),
        cols,
        r1,
        c1,
    );
    vstd::arithmetic::div_mod::lemma_fundamental_div_mod_converse(
        cell_index(cols, r2, c2),
        cols,
        r2,
        c2,
    );
}

/// Setting one cell leaves every other position as it was.
pub(crate) proof fn lemma_set_at(f: FrameView, row: int, col: int, cell: CellView, r: int, c: int)
    requires
        f.wf(),
    ensures
        f.set(row, col, cell).wf(),
        f.set(row, col, cell).size == f.size,
        f.set(row, col, cell).at(r, c) == if f.contains(row, col) && r == row && c == col {
            cell
        } else {
            f.at(r, c)
        },
{
    if f.contains(row, col) {
        lemma_index_in_bounds(f.size.spec_rows() as int, f.size.spec_cols() as int, row, col);
        if f.contains(r, c) {
            lemma_index_in_bounds(f.size.spec_rows() as int, f.size.spec_cols() as int, r, c);
            if r != row || c != col {
                if cell_index(f.size.spec_cols() as int, r, c) == cell_index(f.size.spec_cols() as int, row, col) {
                    lemma_index_distinct(f.size.spec_cols() as int, r, c, row, col);
                }
            }
        }
    }
}

/// The cells drawn for one frame.
pub struct FrameBuffer {
    pub size: TerminalSize,
    pub cells: Vec<Cell>,
}

impl View for FrameBuffer {
    type V = FrameView;

    open spec fn view(&self) -> FrameView {
        FrameView { size: self.size, cells: self.cells@.map_values(|c: Cell| c@) }
    }
}

impl FrameBuffer {
    /// A blank frame of the given size.
    pub fn new(size: TerminalSize) -> (r: Self)
        ensures
            r@ == blank_frame(size),
            r@.wf(),
    {
        let rows = size.rows();
        let cols = size.cols();
        assert(rows as int * cols as int <= 65535 * 65535) by (nonlinear_arith)
            requires
                rows <= 65535,
                cols <= 65535,
        ;
        let n: usize = rows as usize * cols as usize;
        let mut cells: Vec<Cell> = Vec::new();
        let mut i: usize = 0;
        while i < n
            invariant
                0 <= i <= n,
                cells@.len() == i,
                forall|k: int| 0 <= k < i ==> (#[trigger] cells@[k])@ == blank(),
            decreases n - i,
        {
            cells.push(Cell::blank());
            i = i + 1;
        }
        let r = FrameBuffer { size, cells };
        assert(r@.cells =~= blank_frame(size).cells);
        r
    }

    /// The position of (`row`, `col`) among the cells.
    fn index_of(&self, row: u16, col: u16) -> (r: usize)
        requires
            self@.wf(),
            self@.contains(row as int, col as int),
        ensures
            r == cell_index(self.size.spec_cols() as int, row as int, col as int),
            r < self.cells@.len(),
    {
        proof {
            lemma_index_in_bounds(self.size.spec_rows() as int, self.size.spec_cols() as int, row as int, col as int);
            assert(self.cells@.len() == self@.cells.len());
        }
        let cols = self.size.cols();
        assert(row as int * cols as int + col <= 65535 * 65535 + 65535) by (nonlinear_arith)
            requires
                row <= 65535,
                cols <= 65535,
                col <= 65535,
        ;
        let a: usize = row as usize * cols as usize;
        a + col as usize
    }

    /// Sets the cell at (`row`, `col`), where that lies in the frame.
    pub fn set(&mut self, row: u16, col: u16, cell: Cell)
        requires
            old(self)@.wf(),
        ensures
            final(self)@ == old(self)@.set(row as int, col as int, cell@),
            final(self)@.wf(),
    {
        let ghost before = self@;
        let ghost cv = cell@;
        if row < self.size.rows() && col < self.size.cols() {
            proof {
                lemma_index_in_bounds(self.size.spec_rows() as int, self.size.spec_cols() as int, row as int, col as int);
            }
            let i = self.index_of(row, col);
            self.cells.set(i, cell);
            proof {
                assert(self@.cells =~= before.cells.update(i as int, cv));
            }
        }
    }

    /// Sets the text of the cell at (`row`, `col`), keeping its attributes, where that
    /// lies in the frame.
    pub fn set_text(&mut self, row: u16, col: u16, content: CellContent)
        requires
            old(self)@.wf(),
        ensures
            final(self)@ == old(self)@.set(
                row as int,
                col as int,
                CellView { content: content@, attrs: old(self)@.at(row as int, col as int).attrs },
            ),
            final(self)@.wf(),
    {
        let ghost before = self@;
        if row < self.size.rows() && col < self.size.cols() {
            proof {
                lemma_index_in_bounds(self.size.spec_rows() as int, self.size.spec_cols() as int, row as int, col as int);
            }
            let i = self.index_of(row, col);
            let attrs = self.cells[i].attrs;
            let ghost cv = CellView { content: content@, attrs };
            self.cells.set(i, Cell { content, attrs });
            proof {
                assert(self@.cells =~= before.cells.update(i as int, cv));
            }
        }
    }

    /// The cell at (`row`, `col`), if that lies in the frame.
    pub fn get(&self, row: u16, col: u16) -> (r: Option<&Cell>)
        requires
            self@.wf(),
        ensures
            self@.contains(row as int, col as int) ==> (r matches Some(c) && c@ == self@.at(row as int, col as int)),
            !self@.contains(row as int, col as int) ==> r is None,
    {
        if row < self.size.rows() && col < self.size.cols() {
            proof {
                lemma_index_in_bounds(self.size.spec_rows() as int, self.size.spec_cols() as int, row as int, col as int);
            }
            let i = self.index_of(row, col);
            Some(&self.cells[i])
        } else {
            None
        }
    }
}

/// A terminal operation, in the order the terminal should perform them.
pub enum DrawOp {
    ClearAll,
    HideCursor,
    ShowCursor,
    MoveTo { col: u16, row: u16 },
    ResetAttributes,
    SetForeground(Color),
    SetBackground(Color),
    SetBold,
    SetItalic,
    SetUnderlined,
    SetReverse,
    Print(String),
    SetCursorStyle(CursorStyle),
}

/// A terminal operation as a value.
pub enum OpView {
    ClearAll,
    HideCursor,
    ShowCursor,
    MoveTo { col: u16, row: u16 },
    ResetAttributes,
    SetForeground(Color),
    SetBackground(Color),
    SetBold,
    SetItalic,
    SetUnderlined,
    SetReverse,
    Print(Seq<char>),
    SetCursorStyle(CursorStyle),
}

impl View for DrawOp {
    type V = OpView;

    open spec fn view(&self) -> OpView {
        match self {
            DrawOp::ClearAll => OpView::ClearAll,
            DrawOp::HideCursor => OpView::HideCursor,
            DrawOp::ShowCursor => OpView::ShowCursor,
            DrawOp::MoveTo { col, row } => OpView::MoveTo { col: *col, row: *row },
            DrawOp::ResetAttributes => OpView::ResetAttributes,
            DrawOp::SetForeground(c) => OpView::SetForeground(*c),
            DrawOp::SetBackground(c) => OpView::SetBackground(*c),
            DrawOp::SetBold => OpView::SetBold,
            DrawOp::SetItalic => OpView::SetItalic,
            DrawOp::SetUnderlined => OpView::SetUnderlined,
            DrawOp::SetReverse => OpView::SetReverse,
            DrawOp::Print(s) => OpView::Print(s@),
            DrawOp::SetCursorStyle(s) => OpView::SetCursorStyle(*s),
        }
    }
}

/// The operations as values.
pub open spec fn ops_view(ops: Seq<DrawOp>) -> Seq<OpView> {
    ops.map_values(|o: DrawOp| o@)
}

/// The operations that switch the terminal to `attrs`: reset, both colours, then each
/// emphasis that is on.
pub open spec fn attr_ops(attrs: Attrs) -> Seq<OpView> {
    seq![OpView::ResetAttributes, OpView::SetForeground(attrs.fg), OpView::SetBackground(attrs.bg)]
        + (if attrs.bold {
        seq![OpView::SetBold]
    } else {
        Seq::empty()
    }) + (if attrs.italic {
        seq![OpView::SetItalic]
    } else {
        Seq::empty()
    }) + (if attrs.underline {
        seq![OpView::SetUnderlined]
    } else {
        Seq::empty()
    }) + (if attrs.inverse {
        seq![OpView::SetReverse]
    } else {
        Seq::empty()
    })
}

fn push_op(ops: &mut Vec<DrawOp>, op: DrawOp)
    ensures
        ops_view(final(ops)@) == ops_view(old(ops)@).push(op@),
{
    let ghost before = ops@;
    let ghost ov = op@;
    ops.push(op);
    proof {
        assert(ops_view(ops@) =~= ops_view(before).push(ov));
    }
}

/// Appends the operations that switch the terminal to `attrs` (see `attr_ops`).
fn apply_attrs(ops: &mut Vec<DrawOp>, attrs: &Attrs)
    ensures
        ops_view(final(ops)@) == ops_view(old(ops)@) + attr_ops(*attrs),
{
    let ghost start = ops_view(ops@);
    push_op(ops, DrawOp::ResetAttributes);
    push_op(ops, DrawOp::SetForeground(attrs.fg));
    push_op(ops, DrawOp::SetBackground(attrs.bg));
    if attrs.bold {
        push_op(ops, DrawOp::SetBold);
    }
    if attrs.italic {
        push_op(ops, DrawOp::SetItalic);
    }
    if attrs.underline {
        push_op(ops, DrawOp::SetUnderlined);
    }
    if attrs.inverse {
        push_op(ops, DrawOp::SetReverse);
    }
    assert(ops_view(ops@) =~= start + attr_ops(*attrs));
}

/// The number of columns `unicode_width` gives a string with these characters.
pub uninterp spec fn display_width(s: Seq<char>) -> usize;

/// Calls `UnicodeWidthStr::width`; the result is named `display_width`.
#[verifier::external_body]
fn str_width(s: &str) -> (r: usize)
    ensures
        r == display_width(s@),
{
    UnicodeWidthStr::width(s)
}

/// Where the terminal's cursor is known to stand while a diff is written, and the
/// attributes in force.
pub struct DiffState {
    pub ops: Seq<OpView>,
    pub cursor: Option<(u16, u32)>,
    pub attrs: Attrs,
}

/// The state before any cell: nothing written, cursor unknown, plain attributes.
pub open spec fn diff_start() -> DiffState {
    DiffState { ops: Seq::empty(), cursor: None, attrs: plain() }
}

/// The columns the cursor moves on printing `content`: its display width, at least 1.
pub open spec fn advance(content: Seq<char>) -> u16 {
    at_least_one(display_width(content) as int) as u16
}

/// One cell of the diff: an unchanged cell is skipped (the cursor is then not known to be
/// next to it); a changed one is printed, after a move where the cursor is not already
/// there and after an attribute switch where the attributes differ.
pub open spec fn diff_cell(st: DiffState, prev: FrameView, next: FrameView, row: u16, col: u16) -> DiffState {
    let new = next.at(row as int, col as int);
    let old = prev.at(row as int, col as int);
    if new == old {
        DiffState { cursor: None, ..st }
    } else {
        let moved = if st.cursor == Some((row, col as u32)) {
            st.ops
        } else {
            st.ops.push(OpView::MoveTo { col, row })
        };
        let styled = if new.attrs != st.attrs {
            moved + attr_ops(new.attrs)
        } else {
            moved
        };
        DiffState {
            ops: styled.push(OpView::Print(new.content)),
            cursor: Some((row, (col + advance(new.content)) as u32)),
            attrs: new.attrs,
        }
    }
}

/// The diff over the first `col` cells of row `row`, starting from `st`.
pub open spec fn diff_row(st: DiffState, prev: FrameView, next: FrameView, row: u16, col: nat) -> DiffState
    decreases col,
{
    if col == 0 {
        st
    } else {
        diff_cell(diff_row(st, prev, next, row, (col - 1) as nat), prev, next, row, (col - 1) as u16)
    }
}

/// The diff over the first `rows` rows of `next`.
pub open spec fn diff_rows(prev: FrameView, next: FrameView, rows: nat) -> DiffState
    decreases rows,
{
    if rows == 0 {
        diff_start()
    } else {
        diff_row(diff_rows(prev, next, (rows - 1) as nat), prev, next, (rows - 1) as u16, next.size.spec_cols() as nat)
    }
}

/// The operations that turn a terminal showing `prev` into one showing `next`: the diff
/// of every cell, then a reset where attributes were left switched.
pub open spec fn diff_ops(prev: FrameView, next: FrameView) -> Seq<OpView> {
    let st = diff_rows(prev, next, next.size.spec_rows() as nat);
    if st.attrs != plain() {
        st.ops.push(OpView::ResetAttributes)
    } else {
        st.ops
    }
}

/// Appends the operations that turn a terminal showing `prev` into one showing `next`
/// (see `diff_ops`).
pub fn flush_diff(ops: &mut Vec<DrawOp>, prev: &FrameBuffer, next: &FrameBuffer)
    requires
        prev@.wf(),
        next@.wf(),
    ensures
        ops_view(final(ops)@) == ops_view(old(ops)@) + diff_ops(prev@, next@),
{
    let ghost start = ops_view(ops@);
    let mut cursor: Option<(u16, u32)> = None;
    let mut current_attrs = Attrs::plain();
    let rows = next.size.rows();
    let cols = next.size.cols();
    let blank_cell = Cell::blank();
    let mut row: u16 = 0;
    while row < rows
        invariant
            rows == next@.size.spec_rows(),
            cols == next@.size.spec_cols(),
            prev@.wf(),
            next@.wf(),
            blank_cell@ == blank(),
            0 <= row <= rows,
            ({
                let st = diff_rows(prev@, next@, row as nat);
                &&& ops_view(ops@) == start + st.ops
                &&& cursor == st.cursor
                &&& current_attrs == st.attrs
            }),
        decreases rows - row,
    {
        let mut col: u16 = 0;
        while col < cols
            invariant
                rows == next@.size.spec_rows(),
                cols == next@.size.spec_cols(),
                prev@.wf(),
                next@.wf(),
                blank_cell@ == blank(),
                0 <= row < rows,
                0 <= col <= cols,
                ({
                    let st = diff_row(diff_rows(prev@, next@, row as nat), prev@, next@, row, col as nat);
                    &&& ops_view(ops@) == start + st.ops
                    &&& cursor == st.cursor
                    &&& current_attrs == st.attrs
                }),
            decreases cols - col,
        {
            let ghost st0 = diff_row(diff_rows(prev@, next@, row as nat), prev@, next@, row, col as nat);
            let new_cell = match next.get(row, col) {
                Some(c) => c,
                None => {
                    col = col + 1;
                    continue;
                },
            };
            let old_cell = match prev.get(row, col) {
                Some(c) => c,
                None => &blank_cell,
            };
            if new_cell.same_as(old_cell) {
                cursor = None;
                col = col + 1;
                continue;
            }
            if cursor != Some((row, col as u32)) {
                push_op(ops, DrawOp::MoveTo { col, row });
            }
            if !new_cell.attrs.same_as(&current_attrs) {
                apply_attrs(ops, &new_cell.attrs);
                current_attrs = new_cell.attrs;
            }
            let text = new_cell.content.as_str();
            let w = str_width(text);
            let char_width: u16 = (if w >= 1 {
                w
            } else {
                1
            }) as u16;
            push_op(ops, DrawOp::Print(crate::text::str_to_string(text)));
            cursor = Some((row, col as u32 + char_width as u32));
            proof {
                let st1 = diff_cell(st0, prev@, next@, row, col);
                assert(ops_view(ops@) =~= start + st1.ops);
            }
            col = col + 1;
        }
        row = row + 1;
    }
    if !current_attrs.same_as(&Attrs::plain()) {
        push_op(ops, DrawOp::ResetAttributes);
    }
    proof {
        assert(ops_view(ops@) =~= start + diff_ops(prev@, next@));
    }
}


/// A frame whose cell at (`row`, `col`) is `cell(row, col)`.
pub open spec fn frame_of(size: TerminalSize, cell: spec_fn(int, int) -> CellView) -> FrameView {
    let cols = size.spec_cols() as int;
    FrameView { size, cells: Seq::new((size.spec_rows() * size.spec_cols()) as nat, |i: int| cell(i / cols, i % cols)) }
}

proof fn lemma_frame_of_at(size: TerminalSize, cell: spec_fn(int, int) -> CellView, r: int, c: int)
    requires
        size.spec_cols() >= 1,
    ensures
        frame_of(size, cell).wf(),
        frame_of(size, cell).contains(r, c) ==> frame_of(size, cell).at(r, c) == cell(r, c),
{
    let f = frame_of(size, cell);
    if f.contains(r, c) {
        let cols = size.spec_cols() as int;
        lemma_index_in_bounds(size.spec_rows() as int, cols, r, c);
        vstd::arithmetic::div_mod::lemma_fundamental_div_mod_converse(cell_index(cols, r, c), cols, r, c);
    }
}

/// Two well-formed frames of one size that agree at every position are the same frame.
pub(crate) proof fn lemma_frame_ext(f: FrameView, g: FrameView)
    requires
        f.wf(),
        g.wf(),
        f.size == g.size,
        f.size.spec_cols() >= 1,
        forall|r: int, c: int| f.contains(r, c) ==> #[trigger] f.at(r, c) == g.at(r, c),
    ensures
        f == g,
{
    let cols = f.size.spec_cols() as int;
    let rows = f.size.spec_rows() as int;
    assert forall|i: int| 0 <= i < f.cells.len() implies f.cells[i] == g.cells[i] by {
        let r = i / cols;
        let c = i % cols;
        vstd::arithmetic::div_mod::lemma_fundamental_div_mod(i, cols);
        assert(0 <= c < cols);
        assert(0 <= r) by {
            vstd::arithmetic::div_mod::lemma_div_pos_is_pos(i, cols);
        }
        assert(r < rows) by {
            if r >= rows {
                assert(r * cols >= rows * cols) by (nonlinear_arith)
                    requires
                        r >= rows,
                        cols >= 1,
                ;
            }
        }
        assert(cell_index(cols, r, c) == i) by (nonlinear_arith)
            requires
                i == cols * r + c,
        ;
        assert(f.at(r, c) == g.at(r, c));
    }
    assert(f.cells =~= g.cells);
}

/// The text of a row written one character per column from column 0, where columns are
/// 16-bit numbers: where the text is longer than 2^16 characters it wraps, and a later
/// character overwrites an earlier one. `None` where no character lands on `col`.
pub open spec fn wrapped_char(text: Seq<char>, col: int) -> Option<char> {
    if 0 <= col < text.len() && col < 65536 {
        Some(text[col + 65536 * ((text.len() - 1 - col) / 65536)])
    } else {
        None
    }
}

/// The cell at `col` once `text` is written over a cell of row 0 (keeping its attributes).
pub open spec fn texted(cell: CellView, text: Seq<char>, col: int) -> CellView {
    match wrapped_char(text, col) {
        Some(ch) => CellView { content: seq![ch], attrs: cell.attrs },
        None => cell,
    }
}

/// Writes the characters of `text` over row `row` from column 0, keeping each cell's
/// attributes; columns are 16-bit numbers (see `wrapped_char`).
fn write_text_row(buf: &mut FrameBuffer, row: u16, text: &Vec<char>)
    requires
        old(buf)@.wf(),
    ensures
        final(buf)@.wf(),
        final(buf)@.size == old(buf)@.size,
        forall|r: int, c: int|
            old(buf)@.contains(r, c) ==> #[trigger] final(buf)@.at(r, c) == if r == row {
                texted(old(buf)@.at(r, c), text@, c)
            } else {
                old(buf)@.at(r, c)
            },
{
    let ghost before = buf@;
    let cols = buf.size.cols();
    let len = text.len();
    let mut col: u16 = 0;
    while col < cols
        invariant
            before.wf(),
            buf@.wf(),
            buf@.size == before.size,
            cols == before.size.spec_cols(),
            len == text@.len(),
            0 <= col <= cols,
            forall|r: int, c: int|
                before.contains(r, c) ==> #[trigger] buf@.at(r, c) == if r == row && c < col {
                    texted(before.at(r, c), text@, c)
                } else {
                    before.at(r, c)
                },
        decreases cols - col,
    {
        if (col as usize) < len {
            let k: usize = (len - 1 - col as usize) / 65536;
            assert(k * 65536 <= len - 1 - col) by (nonlinear_arith)
                requires
                    k == (len - 1 - col) / 65536,
                    len - 1 - col >= 0,
            ;
            let i: usize = col as usize + 65536 * k;
            let ghost old_buf = buf@;
            buf.set_text(row, col, CellContent::from(text[i]));
            proof {
                assert forall|r: int, c: int| before.contains(r, c) implies #[trigger] buf@.at(r, c) == if r == row && c < col + 1 {
                    texted(before.at(r, c), text@, c)
                } else {
                    before.at(r, c)
                } by {
                    lemma_set_at(old_buf, row as int, col as int, CellView { content: seq![text@[i as int]], attrs: old_buf.at(row as int, col as int).attrs }, r, c);
                }
            }
        } else {
            proof {
                assert forall|r: int, c: int| before.contains(r, c) implies #[trigger] buf@.at(r, c) == if r == row && c < col + 1 {
                    texted(before.at(r, c), text@, c)
                } else {
                    before.at(r, c)
                } by {
                }
            }
        }
        col = col + 1;
    }
}

/// Writes `text` over the first row, keeping the cells' attributes.
pub fn paint_prompt(buf: &mut FrameBuffer, text: &str)
    requires
        old(buf)@.wf(),
    ensures
        final(buf)@.wf(),
        final(buf)@.size == old(buf)@.size,
        forall|r: int, c: int|
            old(buf)@.contains(r, c) ==> #[trigger] final(buf)@.at(r, c) == if r == 0 {
                texted(old(buf)@.at(r, c), text@, c)
            } else {
                old(buf)@.at(r, c)
            },
{
    let chars = crate::text::str_chars(text);
    write_text_row(buf, 0, &chars);
}


/// A help line for one binding: the leader as shown, the key, and what it does.
pub open spec fn binding_text(display: Seq<char>, key: Seq<char>, desc: Seq<char>) -> Seq<char> {
    "  "@ + display + " "@ + key + "  "@ + desc
}

/// The rule under the help's title and above its last line.
pub open spec fn help_rule() -> Seq<char> {
    "  "@ + Seq::new(39, |i: int| '─')
}

/// How the leader is shown in the help: lower case, with `ctrl+` written `Ctrl-`.
pub open spec fn leader_display(leader: Seq<char>) -> Seq<char> {
    crate::text::replace_first(crate::text::lowercase(leader), "ctrl+"@, "Ctrl-"@)
}

/// The help's lines, from the top of the screen.
pub open spec fn help_lines(leader: Seq<char>) -> Seq<Seq<char>> {
    let display = leader_display(leader);
    seq![
        Seq::empty(),
        "  Sambil Key Bindings"@,
        help_rule(),
        binding_text(display, "c"@, "New tab (cwd name)"@),
        binding_text(display, "C"@, "New tab (enter name)"@),
        binding_text(display, "|"@, "Split horizontal"@),
        binding_text(display, "x"@, "Close pane (tab if last)"@),
        binding_text(display, "u"@, "Undo close tab"@),
        binding_text(display, "r"@, "Rename tab"@),
        binding_text(display, "n"@, "Next tab"@),
        binding_text(display, "p"@, "Previous tab"@),
        binding_text(display, "←/→"@, "Previous/next pane"@),
        binding_text(display, "1-9"@, "Switch to tab N"@),
        binding_text(display, "["@, "Scroll mode"@),
        binding_text(display, "q"@, "Quit"@),
        binding_text(display, "?"@, "Show this help"@),
        help_rule(),
        "  Press any key to dismiss"@,
    ]
}

fn binding_line(display: &Vec<char>, key: &str, desc: &str) -> (r: Vec<char>)
    ensures
        r@ == binding_text(display@, key@, desc@),
{
    let mut line = str_chars("  ");
    append_chars(&mut line, display);
    append_chars(&mut line, &str_chars(" "));
    append_chars(&mut line, &str_chars(key));
    append_chars(&mut line, &str_chars("  "));
    append_chars(&mut line, &str_chars(desc));
    line
}

fn rule_line() -> (r: Vec<char>)
    ensures
        r@ == help_rule(),
{
    let mut line = str_chars("  ");
    let ghost start = line@;
    let mut i: usize = 0;
    while i < 39
        invariant
            0 <= i <= 39,
            line@ == start + Seq::new(i as nat, |k: int| '─'),
        decreases 39 - i,
    {
        line.push('─');
        i = i + 1;
        assert(line@ =~= start + Seq::new(i as nat, |k: int| '─'));
    }
    line
}

/// The help's lines for the given leader setting (see `help_lines`).
fn help_text(leader: &str) -> (r: Vec<Vec<char>>)
    ensures
        r@.map_values(|l: Vec<char>| l@) == help_lines(leader@),
{
    let lower = to_lowercase(leader);
    let display = replace_first_chars(&str_chars(lower.as_str()), &str_chars("ctrl+"), &str_chars("Ctrl-"));
    let mut lines: Vec<Vec<char>> = Vec::new();
    lines.push(Vec::new());
    lines.push(str_chars("  Sambil Key Bindings"));
    lines.push(rule_line());
    lines.push(binding_line(&display, "c", "New tab (cwd name)"));
    lines.push(binding_line(&display, "C", "New tab (enter name)"));
    lines.push(binding_line(&display, "|", "Split horizontal"));
    lines.push(binding_line(&display, "x", "Close pane (tab if last)"));
    lines.push(binding_line(&display, "u", "Undo close tab"));
    lines.push(binding_line(&display, "r", "Rename tab"));
    lines.push(binding_line(&display, "n", "Next tab"));
    lines.push(binding_line(&display, "p", "Previous tab"));
    lines.push(binding_line(&display, "←/→", "Previous/next pane"));
    lines.push(binding_line(&display, "1-9", "Switch to tab N"));
    lines.push(binding_line(&display, "[", "Scroll mode"));
    lines.push(binding_line(&display, "q", "Quit"));
    lines.push(binding_line(&display, "?", "Show this help"));
    lines.push(rule_line());
    lines.push(str_chars("  Press any key to dismiss"));
    proof {
        let v = lines@.map_values(|l: Vec<char>| l@);
        let w = help_lines(leader@);
        assert(v.len() == w.len());
        assert(v[0] =~= w[0]);
        assert forall|i: int| 0 <= i < v.len() implies v[i] == w[i] by {}
        assert(v =~= w);
    }
    lines
}

/// Draws the key-binding help over the frame, one line per row from the second row
/// (each line's characters over the cells, keeping their attributes), as far as the frame
/// is tall.
pub fn paint_help(buf: &mut FrameBuffer, leader: &str)
    requires
        old(buf)@.wf(),
    ensures
        final(buf)@.wf(),
        final(buf)@.size == old(buf)@.size,
        forall|r: int, c: int|
            old(buf)@.contains(r, c) ==> #[trigger] final(buf)@.at(r, c) == help_cell(old(buf)@.at(r, c), leader@, r, c),
{
    let ghost before = buf@;
    let lines = help_text(leader);
    let ghost lv = lines@.map_values(|l: Vec<char>| l@);
    let rows = buf.size.rows();
    let mut i: usize = 0;
    while i < lines.len() && i + 1 < rows as usize
        invariant
            before.wf(),
            buf@.wf(),
            buf@.size == before.size,
            rows == before.size.spec_rows(),
            lv == help_lines(leader@),
            lv == lines@.map_values(|l: Vec<char>| l@),
            0 <= i <= lines.len(),
            forall|r: int, c: int|
                before.contains(r, c) ==> #[trigger] buf@.at(r, c) == if 1 <= r <= i {
                    texted(before.at(r, c), lv[r - 1], c)
                } else {
                    before.at(r, c)
                },
        decreases lines.len() - i,
    {
        let ghost old_buf = buf@;
        let row: u16 = (i + 1) as u16;
        write_text_row(buf, row, &lines[i]);
        proof {
            assert(lines@[i as int]@ == lv[i as int]);
        }
        i = i + 1;
    }
}

/// The cell at (`r`, `c`) once the help is drawn over `cell`.
pub open spec fn help_cell(cell: CellView, leader: Seq<char>, r: int, c: int) -> CellView {
    let lines = help_lines(leader);
    if 1 <= r <= lines.len() {
        texted(cell, lines[r - 1], c)
    } else {
        cell
    }
}


/// A tab's label in the tab bar: ` [●:name] ` for the active tab, ` [N:name] ` (its number
/// from 1) for the others.
pub open spec fn tab_label(t: TabView, i: int, active: int) -> Seq<char> {
    " ["@ + (if i == active {
        "●"@
    } else {
        crate::text::decimal((i + 1) as nat)
    }) + ":"@ + t.display_name() + "] "@
}

/// The attributes of a tab's label: the active tab bold, light on grey; the others grey
/// on the bar's background.
pub open spec fn label_attrs(is_active: bool) -> Attrs {
    Attrs {
        fg: if is_active {
            Color::Idx(15)
        } else {
            Color::Idx(8)
        },
        bg: if is_active {
            Color::Idx(8)
        } else {
            Color::Default
        },
        bold: is_active,
        italic: false,
        underline: false,
        inverse: false,
    }
}

/// The cells of `text`, each drawn with `attrs`.
pub open spec fn text_cells(text: Seq<char>, attrs: Attrs) -> Seq<CellView> {
    Seq::new(text.len(), |i: int| CellView { content: seq![text[i]], attrs })
}

/// The labels of the first `k` tabs, one after another.
pub open spec fn bar_cells(tabs: Seq<TabView>, active: int, k: int) -> Seq<CellView>
    decreases k,
{
    if k <= 0 {
        Seq::empty()
    } else {
        bar_cells(tabs, active, k - 1) + text_cells(tab_label(tabs[k - 1], k - 1, active), label_attrs(k - 1 == active))
    }
}

/// The undo hint, shown at the right end of the bar while a closed tab can be brought back.
pub open spec fn undo_hint() -> Seq<char> {
    " ↩ u "@
}

/// The cell at column `c` of the tab bar: the undo hint at the right end (while a closed
/// tab can be brought back), else the labels from column 1, else blank.
pub open spec fn bar_cell(m: ManagerView, c: int) -> CellView {
    let cols = m.size.spec_cols() as int;
    let hint_col = crate::size::sat_sub(cols, 5);
    let bar = bar_cells(m.tabs.tabs, m.tabs.active as int, m.tabs.tabs.len() as int);
    if m.pending.len() > 0 && hint_col <= c && c - hint_col < 5 {
        CellView { content: seq![undo_hint()[c - hint_col]], attrs: Attrs { fg: Color::Idx(11), ..plain() } }
    } else if 1 <= c && c - 1 < bar.len() {
        bar[c - 1]
    } else {
        blank()
    }
}

/// Writes `text` with `attrs` along row 0 from column `*col`, advancing `*col`, and
/// stopping at the frame's edge.
fn write_label(buf: &mut FrameBuffer, col: &mut u16, text: &Vec<char>, attrs: Attrs)
    requires
        old(buf)@.wf(),
        1 <= *old(col) <= old(buf)@.size.spec_cols(),
    ensures
        final(buf)@.wf(),
        final(buf)@.size == old(buf)@.size,
        *final(col) as int == if *old(col) >= old(buf)@.size.spec_cols() {
            *old(col) as int
        } else if *old(col) + text@.len() <= old(buf)@.size.spec_cols() {
            *old(col) + text@.len()
        } else {
            old(buf)@.size.spec_cols() as int
        },
        forall|r: int, c: int|
            old(buf)@.contains(r, c) ==> #[trigger] final(buf)@.at(r, c) == if r == 0 && *old(col) <= c
                < *old(col) + text@.len() {
                text_cells(text@, attrs)[c - *old(col)]
            } else {
                old(buf)@.at(r, c)
            },
{
    let ghost before = buf@;
    let ghost start = *col;
    let cols = buf.size.cols();
    let mut i: usize = 0;
    while i < text.len() && *col < cols
        invariant
            before.wf(),
            buf@.wf(),
            buf@.size == before.size,
            cols == before.size.spec_cols(),
            0 <= i <= text@.len(),
            *col == start + i,
            *col <= cols,
            forall|r: int, c: int|
                before.contains(r, c) ==> #[trigger] buf@.at(r, c) == if r == 0 && start <= c < start + i {
                    text_cells(text@, attrs)[c - start]
                } else {
                    before.at(r, c)
                },
        decreases text@.len() - i,
    {
        let ghost old_buf = buf@;
        let cell = Cell::of_char(text[i], attrs);
        let ghost cv = cell@;
        buf.set(0, *col, cell);
        proof {
            assert forall|r: int, c: int| before.contains(r, c) implies #[trigger] buf@.at(r, c) == if r == 0 && start <= c < start + i + 1 {
                text_cells(text@, attrs)[c - start]
            } else {
                before.at(r, c)
            } by {
                lemma_set_at(old_buf, 0, *col as int, cv, r, c);
            }
        }
        *col = *col + 1;
        i = i + 1;
    }
}

/// The label of tab `i` (see `tab_label`).
fn label_text(tab: &Tab, i: usize, is_active: bool) -> (r: Vec<char>)
    requires
        tab@.wf(),
        i < usize::MAX,
    ensures
        r@ == tab_label(tab@, i as int, if is_active {
            i as int
        } else {
            -1
        }),
{
    let mut label = str_chars(" [");
    if is_active {
        append_chars(&mut label, &str_chars("●"));
    } else {
        append_chars(&mut label, &crate::text::decimal_chars(i + 1));
    }
    append_chars(&mut label, &str_chars(":"));
    let name = tab.display_name();
    append_chars(&mut label, &str_chars(name.as_str()));
    append_chars(&mut label, &str_chars("] "));
    label
}

/// Draws the tab bar over the first row (see `bar_cell`).
pub fn paint_tab_bar(buf: &mut FrameBuffer, manager: &PaneManager)
    requires
        old(buf)@.wf(),
        manager@.wf(),
        old(buf)@.size == manager@.size,
    ensures
        final(buf)@.wf(),
        final(buf)@.size == old(buf)@.size,
        forall|r: int, c: int|
            old(buf)@.contains(r, c) ==> #[trigger] final(buf)@.at(r, c) == if r == 0 {
                bar_cell(manager@, c)
            } else {
                old(buf)@.at(r, c)
            },
{
    let ghost before = buf@;
    let ghost m = manager@;
    let cols = manager.size.cols();
    let mut col: u16 = 0;
    while col < cols
        invariant
            before.wf(),
            buf@.wf(),
            buf@.size == before.size,
            cols == before.size.spec_cols(),
            0 <= col <= cols,
            forall|r: int, c: int|
                before.contains(r, c) ==> #[trigger] buf@.at(r, c) == if r == 0 && c < col {
                    blank()
                } else {
                    before.at(r, c)
                },
        decreases cols - col,
    {
        let ghost old_buf = buf@;
        buf.set(0, col, Cell::blank());
        proof {
            assert forall|r: int, c: int| before.contains(r, c) implies #[trigger] buf@.at(r, c) == if r == 0 && c < col + 1 {
                blank()
            } else {
                before.at(r, c)
            } by {
                lemma_set_at(old_buf, 0, col as int, blank(), r, c);
            }
        }
        col = col + 1;
    }
    let ghost after_blank = buf@;
    let tabs = manager.tabs.iter();
    let mut col: u16 = 1;
    let mut tab_num: usize = 0;
    let ghost active = m.tabs.active as int;
    while tab_num < tabs.len()
        invariant
            m == manager@,
            m.wf(),
            active == m.tabs.active as int,
            tabs.len() == m.tabs.tabs.len(),
            forall|i: int|
                0 <= i < tabs.len() ==> {
                    &&& (#[trigger] tabs@[i]).0 == (if i == m.tabs.active {
                        TabActiveState::Active
                    } else {
                        TabActiveState::Inactive
                    })
                    &&& tabs@[i].1@ == m.tabs.tabs[i]
                },
            before.wf(),
            buf@.wf(),
            buf@.size == before.size,
            cols == before.size.spec_cols(),
            0 <= tab_num <= tabs.len(),
            1 <= col <= cols || (col == 1 && cols == 1),
            col as int == if 1 + bar_cells(m.tabs.tabs, active, tab_num as int).len() <= cols {
                (1 + bar_cells(m.tabs.tabs, active, tab_num as int).len()) as int
            } else {
                cols as int
            },
            forall|r: int, c: int|
                before.contains(r, c) ==> #[trigger] buf@.at(r, c) == if r == 0 {
                    if 1 <= c && c - 1 < bar_cells(m.tabs.tabs, active, tab_num as int).len() {
                        bar_cells(m.tabs.tabs, active, tab_num as int)[c - 1]
                    } else {
                        blank()
                    }
                } else {
                    before.at(r, c)
                },
        decreases tabs.len() - tab_num,
    {
        let st = tabs[tab_num].0;
        let is_active = match st {
            TabActiveState::Active => true,
            TabActiveState::Inactive => false,
        };
        proof {
            assert(st == tabs@[tab_num as int].0);
            assert(tabs@[tab_num as int].0 == (if tab_num as int == m.tabs.active {
                TabActiveState::Active
            } else {
                TabActiveState::Inactive
            }));
            assert(is_active == (tab_num as int == active));
        }
        let tab = tabs[tab_num].1;
        proof {
            assert(tab@.wf());
        }
        let label = label_text(tab, tab_num, is_active);
        let attrs = Attrs {
            fg: if is_active {
                Color::Idx(15)
            } else {
                Color::Idx(8)
            },
            bg: if is_active {
                Color::Idx(8)
            } else {
                Color::Default
            },
            bold: is_active,
            italic: false,
            underline: false,
            inverse: false,
        };
        let ghost old_buf = buf@;
        let ghost old_col = col;
        let ghost prefix = bar_cells(m.tabs.tabs, active, tab_num as int);
        let ghost lbl = text_cells(tab_label(m.tabs.tabs[tab_num as int], tab_num as int, active), label_attrs(tab_num == active));
        proof {
            assert(label@ == tab_label(m.tabs.tabs[tab_num as int], tab_num as int, active));
            assert(attrs == label_attrs(tab_num == active));
            assert(bar_cells(m.tabs.tabs, active, tab_num + 1) == prefix + lbl);
        }
        write_label(buf, &mut col, &label, attrs);
        proof {
            let next = prefix + lbl;
            assert forall|r: int, c: int| before.contains(r, c) implies #[trigger] buf@.at(r, c) == if r == 0 {
                if 1 <= c && c - 1 < next.len() {
                    next[c - 1]
                } else {
                    blank()
                }
            } else {
                before.at(r, c)
            } by {
                assert(old_buf.at(r, c) == (if r == 0 {
                    if 1 <= c && c - 1 < prefix.len() {
                        prefix[c - 1]
                    } else {
                        blank()
                    }
                } else {
                    before.at(r, c)
                }));
                if r == 0 && 1 <= c && c - 1 < next.len() && c >= old_col {
                    if old_col < cols {
                        assert(old_col == 1 + prefix.len());
                        assert(next[c - 1] == lbl[c - old_col]);
                    }
                }
            }
        }
        tab_num = tab_num + 1;
    }
    let ghost bar = bar_cells(m.tabs.tabs, active, m.tabs.tabs.len() as int);
    let ghost hint_attrs_spec = Attrs { fg: Color::Idx(11), ..plain() };
    assert(forall|r: int, c: int|
        before.contains(r, c) ==> #[trigger] buf@.at(r, c) == if r == 0 {
            if 1 <= c && c - 1 < bar.len() {
                bar[c - 1]
            } else {
                blank()
            }
        } else {
            before.at(r, c)
        });
    if manager.has_pending_close() {
        let hint = str_chars(" ↩ u ");
        proof {
            reveal_strlit(" ↩ u ");
            assert(hint@.len() == 5);
        }
        let hint_col: u16 = if cols >= 5 {
            cols - 5
        } else {
            0
        };
        let hint_attrs = Attrs {
            fg: Color::Idx(11),
            bg: Color::Default,
            bold: false,
            italic: false,
            underline: false,
            inverse: false,
        };
        let mut offset: usize = 0;
        let ghost before_hint = buf@;
        while offset < hint.len()
            invariant
                hint@ == undo_hint(),
                hint@.len() == 5,
                hint_attrs == hint_attrs_spec,
                hint_attrs_spec == (Attrs { fg: Color::Idx(11), ..plain() }),
                before.wf(),
                buf@.wf(),
                buf@.size == before.size,
                cols == before.size.spec_cols(),
                hint_col as int == crate::size::sat_sub(cols as int, 5),
                0 <= offset <= 5,
                before_hint.wf(),
                before_hint.size == before.size,
                forall|r: int, c: int|
                    before.contains(r, c) ==> #[trigger] buf@.at(r, c) == if r == 0 && hint_col <= c < hint_col + offset {
                        CellView { content: seq![undo_hint()[c - hint_col]], attrs: hint_attrs_spec }
                    } else {
                        before_hint.at(r, c)
                    },
            decreases 5 - offset,
        {
            let c: u16 = hint_col + offset as u16;
            let ghost old_buf = buf@;
            if c < cols {
                let cell = Cell::of_char(hint[offset], hint_attrs);
                let ghost cv = cell@;
                buf.set(0, c, cell);
                proof {
                    assert forall|r: int, cc: int| before.contains(r, cc) implies #[trigger] buf@.at(r, cc) == if r == 0 && hint_col <= cc < hint_col + offset + 1 {
                        CellView { content: seq![undo_hint()[cc - hint_col]], attrs: hint_attrs_spec }
                    } else {
                        before_hint.at(r, cc)
                    } by {
                        lemma_set_at(old_buf, 0, c as int, cv, r, cc);
                        if r == 0 && cc == c {
                            assert(cv == CellView { content: seq![undo_hint()[cc - hint_col]], attrs: hint_attrs_spec });
                        }
                    }
                }
            }
            offset = offset + 1;
        }
    }
}


/// What a pane's terminal shows, as values: its size and its cells row by row.
pub struct ScreenView {
    pub rows: u16,
    pub cols: u16,
    pub cells: Seq<CellView>,
}

/// A screen with nothing on it.
pub open spec fn empty_screen() -> ScreenView {
    ScreenView { rows: 0, cols: 0, cells: Seq::empty() }
}

/// The cell a screen shows at (`row`, `col`), blank where it has none.
pub open spec fn screen_at(s: ScreenView, row: int, col: int) -> CellView {
    if 0 <= row < s.rows && 0 <= col < s.cols && cell_index(s.cols as int, row, col) < s.cells.len() {
        s.cells[cell_index(s.cols as int, row, col)]
    } else {
        blank()
    }
}

/// Law: a pane screen's cells are read row by row: the cell shown at (`row`, `col`) is cell
/// number `row * cols + col` (so the first cell of the second line is cell number `cols`),
/// and outside the screen, or past its cells, a blank one.
pub proof fn lemma_screen_cells_row_by_row(s: ScreenView, row: int, col: int)
    ensures
        0 <= row < s.rows && 0 <= col < s.cols && row * s.cols + col < s.cells.len() ==> screen_at(s, row, col)
            == s.cells[row * s.cols + col],
        !(0 <= row < s.rows && 0 <= col < s.cols) ==> screen_at(s, row, col) == blank(),
        1 < s.rows && 0 < s.cols && s.cols < s.cells.len() ==> screen_at(s, 1, 0) == s.cells[s.cols as int],
{
    if 1 < s.rows && 0 < s.cols && s.cols < s.cells.len() {
        assert(1 * s.cols + 0 == s.cols);
    }
}

/// A snapshot of what a pane's terminal shows (taken by the caller from its emulator).
pub struct PaneScreen {
    pub rows: u16,
    pub cols: u16,
    /// The cells, row by row.
    pub cells: Vec<Cell>,
}

impl View for PaneScreen {
    type V = ScreenView;

    open spec fn view(&self) -> ScreenView {
        ScreenView { rows: self.rows, cols: self.cols, cells: self.cells@.map_values(|c: Cell| c@) }
    }
}

impl PaneScreen {
    /// The cell shown at (`row`, `col`), or a blank one where the screen has none.
    pub fn cell_or_blank(&self, row: u16, col: u16) -> (r: Cell)
        ensures
            r@ == screen_at(self@, row as int, col as int),
    {
        if row < self.rows && col < self.cols {
            assert(row as int * self.cols as int + col <= 65535 * 65535 + 65535) by (nonlinear_arith)
                requires
                    row <= 65535,
                    self.cols <= 65535,
                    col <= 65535,
            ;
            let i: usize = row as usize * self.cols as usize + col as usize;
            if i < self.cells.len() {
                return self.cells[i].duplicate();
            }
        }
        Cell::blank()
    }
}

impl Cell {
    /// The cell to draw for a terminal cell showing `contents`: the second half of a wide
    /// character is drawn blank; empty contents are a space with the cell's attributes;
    /// other contents must be one grapheme cluster.
    pub fn from_screen(contents: &str, wide_continuation: bool, attrs: Attrs) -> (r: Result<Cell, InvalidCellContent>)
        ensures
            wide_continuation ==> (r matches Ok(c) && c@ == blank()),
            !wide_continuation && contents@.len() == 0 ==> (r matches Ok(c) && c@ == (CellView { content: seq![' '], attrs })),
            !wide_continuation && contents@.len() > 0 ==> {
                &&& (r is Ok <==> grapheme_count(contents@) == 1)
                &&& (r matches Ok(c) ==> c@ == (CellView { content: contents@, attrs }))
            },
    {
        if wide_continuation {
            return Ok(Cell::blank());
        }
        if contents.unicode_len() == 0 {
            return Ok(Cell { content: CellContent::blank(), attrs });
        }
        match CellContent::try_from(contents) {
            Ok(content) => Ok(Cell { content, attrs }),
            Err(e) => Err(e),
        }
    }
}

/// Column `c` relative to a pane starting at column `off`, counting around 2^16 columns
/// (columns are 16-bit numbers, so a pane can wrap past the last one).
pub open spec fn rel_col(c: int, off: int) -> int {
    if c >= off {
        c - off
    } else {
        c + 65536 - off
    }
}

/// The column `col` columns after `off`, in 16-bit numbers.
pub open spec fn abs_col(col: int, off: int) -> int {
    if col + off < 65536 {
        col + off
    } else {
        col + off - 65536
    }
}

/// The cell at (`r`, `c`) once pane `p`, starting at column `off` and showing `s`, is
/// drawn over `cell`: the pane covers rows 1 to its height and its width in columns.
pub open spec fn pane_cell(cell: CellView, p: Pane, s: ScreenView, off: int, r: int, c: int) -> CellView {
    let d = rel_col(c, off);
    if 1 <= r <= p.height && d < p.width {
        screen_at(s, r - 1, d)
    } else {
        cell
    }
}

/// Draws a pane's screen at rows 1 and below, from column `col_offset`.
pub fn paint_pane(buf: &mut FrameBuffer, pane: &Pane, screen: Option<&PaneScreen>, col_offset: ColOffset)
    requires
        old(buf)@.wf(),
    ensures
        final(buf)@.wf(),
        final(buf)@.size == old(buf)@.size,
        forall|r: int, c: int|
            old(buf)@.contains(r, c) ==> #[trigger] final(buf)@.at(r, c) == pane_cell(
                old(buf)@.at(r, c),
                *pane,
                match screen {
                    Some(s) => s@,
                    None => empty_screen(),
                },
                col_offset.spec_value() as int,
                r,
                c,
            ),
{
    let ghost before = buf@;
    let ghost sv = match screen {
        Some(s) => s@,
        None => empty_screen(),
    };
    let off = col_offset.value();
    let mut row: u16 = 0;
    while row < pane.height
        invariant
            before.wf(),
            buf@.wf(),
            buf@.size == before.size,
            0 <= row <= pane.height,
            off == col_offset.spec_value(),
            sv == (match screen {
                Some(s) => s@,
                None => empty_screen(),
            }),
            forall|r: int, c: int|
                before.contains(r, c) ==> #[trigger] buf@.at(r, c) == if 1 <= r <= row && rel_col(c, off as int) < pane.width {
                    screen_at(sv, r - 1, rel_col(c, off as int))
                } else {
                    before.at(r, c)
                },
        decreases pane.height - row,
    {
        let mut col: u16 = 0;
        while col < pane.width
            invariant
                before.wf(),
                buf@.wf(),
                buf@.size == before.size,
                0 <= row < pane.height,
                0 <= col <= pane.width,
                off == col_offset.spec_value(),
                sv == (match screen {
                    Some(s) => s@,
                    None => empty_screen(),
                }),
                forall|r: int, c: int|
                    before.contains(r, c) ==> #[trigger] buf@.at(r, c) == if (1 <= r <= row && rel_col(c, off as int) < pane.width) || (r == row + 1 && rel_col(c, off as int) < col) {
                        screen_at(sv, r - 1, rel_col(c, off as int))
                    } else {
                        before.at(r, c)
                    },
            decreases pane.width - col,
        {
            let cell = match screen {
                Some(s) => s.cell_or_blank(row, col),
                None => Cell::blank(),
            };
            let ghost cv = cell@;
            let target: u16 = if (col as u32) + (off as u32) < 65536 {
                col + off
            } else {
                ((col as u32 + off as u32) - 65536) as u16
            };
            assert(target == abs_col(col as int, off as int));
            let ghost old_buf = buf@;
            buf.set(row + 1, target, cell);
            proof {
                assert forall|r: int, c: int| before.contains(r, c) implies #[trigger] buf@.at(r, c) == if (1 <= r <= row && rel_col(c, off as int) < pane.width) || (r == row + 1 && rel_col(c, off as int) < col + 1) {
                    screen_at(sv, r - 1, rel_col(c, off as int))
                } else {
                    before.at(r, c)
                } by {
                    lemma_set_at(old_buf, row + 1, target as int, cv, r, c);
                    if c == target {
                        assert(rel_col(c, off as int) == col);
                    } else if 0 <= c < 65536 {
                        assert(rel_col(c, off as int) != col);
                    }
                }
            }
            col = col + 1;
        }
        row = row + 1;
    }
}


/// The row where a divider shows which side holds the active pane: the middle row of the
/// frame, counted in 16-bit numbers.
pub open spec fn mid_row(rows: int) -> int {
    ((rows + 1) % 65536) / 2
}

/// The divider after pane `i`: `◀` at the middle row when the active pane is on its left,
/// `▶` when it is on its right (light), a grey `│` elsewhere.
pub open spec fn divider_cell(i: int, active: int, r: int, rows: int) -> CellView {
    let indicator = if i == active {
        '◀'
    } else if i + 1 == active {
        '▶'
    } else {
        '│'
    };
    if r == mid_row(rows) && indicator != '│' {
        CellView { content: seq![indicator], attrs: Attrs { fg: Color::Idx(15), ..plain() } }
    } else {
        CellView { content: seq!['│'], attrs: Attrs { fg: Color::Idx(8), ..plain() } }
    }
}

/// The screen the caller supplied for pane `i`, or an empty one.
pub open spec fn screen_for(screens: Seq<ScreenView>, i: int) -> ScreenView {
    if 0 <= i < screens.len() {
        screens[i]
    } else {
        empty_screen()
    }
}

/// The cell at (`r`, `c`) once the first `k` panes of tab `t` (each followed by its
/// divider, but for the last) are drawn over `f`. Pane `i` starts at the column
/// `col_offset` gives it; its divider stands in the column after it, on rows 1 and below.
pub open spec fn panes_cell(f: FrameView, t: TabView, screens: Seq<ScreenView>, k: int, r: int, c: int) -> CellView
    decreases k,
{
    if k <= 0 {
        f.at(r, c)
    } else {
        let i = k - 1;
        let p = t.panes[i];
        let off = crate::pane_manager::col_offset(t.panes, i);
        let under = pane_cell(panes_cell(f, t, screens, k - 1, r, c), p, screen_for(screens, i), off, r, c);
        if i + 1 < t.panes.len() && r >= 1 && c == abs_col(p.width as int, off) {
            divider_cell(i, t.active_pane as int, r, f.size.spec_rows() as int)
        } else {
            under
        }
    }
}

/// The column where pane `k` starts when no column count reaches the 16-bit limit: each
/// pane before it with its divider.
spec fn raw_offset(panes: Seq<Pane>, k: int) -> int
    decreases k,
{
    if k <= 0 {
        0
    } else {
        raw_offset(panes, k - 1) + panes[k - 1].width + 1
    }
}

proof fn lemma_raw_offset_spanned(panes: Seq<Pane>, k: int)
    requires
        1 <= k <= panes.len(),
    ensures
        raw_offset(panes, k) == crate::pane_manager::spanned_width(panes.take(k)) + 1,
    decreases k,
{
    let tk = panes.take(k);
    assert(raw_offset(panes, k) == raw_offset(panes, k - 1) + panes[k - 1].width + 1);
    if k == 1 {
        assert(raw_offset(panes, 0) == 0);
        assert(tk.len() == 1);
        assert(tk[0] == panes[0]);
        assert(crate::pane_manager::spanned_width(tk) == tk[0].width);
    } else {
        lemma_raw_offset_spanned(panes, k - 1);
        assert(tk.drop_last() =~= panes.take(k - 1));
        assert(tk.last() == panes[k - 1]);
        assert(crate::pane_manager::spanned_width(tk) == crate::pane_manager::spanned_width(tk.drop_last()) + 1
            + tk.last().width);
    }
}

proof fn lemma_raw_offset_mono(panes: Seq<Pane>, a: int, b: int)
    requires
        0 <= a <= b <= panes.len(),
    ensures
        raw_offset(panes, a) + (b - a) <= raw_offset(panes, b),
    decreases b - a,
{
    if a < b {
        lemma_raw_offset_mono(panes, a, b - 1);
    }
}

proof fn lemma_col_offset_raw(panes: Seq<Pane>, k: int)
    requires
        0 <= k <= panes.len(),
        raw_offset(panes, panes.len() as int) <= 65535,
    ensures
        crate::pane_manager::col_offset(panes, k) == raw_offset(panes, k),
    decreases k,
{
    if k > 0 {
        lemma_col_offset_raw(panes, k - 1);
        lemma_raw_offset_mono(panes, k, panes.len() as int);
    }
}

/// The panes after pane `i` leave the divider after pane `i` as it is.
proof fn lemma_later_panes_keep_divider(
    f: FrameView,
    t: TabView,
    screens: Seq<ScreenView>,
    i: int,
    k: int,
    r: int,
    c: int,
)
    requires
        0 <= i,
        i + 1 <= k <= t.panes.len(),
        raw_offset(t.panes, t.panes.len() as int) <= 65535,
        c == raw_offset(t.panes, i + 1) - 1,
    ensures
        panes_cell(f, t, screens, k, r, c) == panes_cell(f, t, screens, i + 1, r, c),
    decreases k,
{
    if k > i + 1 {
        lemma_later_panes_keep_divider(f, t, screens, i, k - 1, r, c);
        let j = k - 1;
        let n = t.panes.len() as int;
        lemma_col_offset_raw(t.panes, j);
        lemma_raw_offset_mono(t.panes, i + 1, j);
        lemma_raw_offset_mono(t.panes, j + 1, n);
        lemma_raw_offset_mono(t.panes, 0, i + 1);
        assert(raw_offset(t.panes, 0) == 0);
        assert(c >= 0);
        let off = crate::pane_manager::col_offset(t.panes, j);
        assert(off == raw_offset(t.panes, j));
        assert(raw_offset(t.panes, j + 1) == off + t.panes[j].width + 1);
        assert(rel_col(c, off) == c + 65536 - off);
        assert(abs_col(t.panes[j].width as int, off) == off + t.panes[j].width);
        let below = panes_cell(f, t, screens, j, r, c);
        assert(pane_cell(below, t.panes[j], screen_for(screens, j), off, r, c) == below);
        assert(panes_cell(f, t, screens, k, r, c) == below);
    }
}

/// Law: in the drawn active tab, the divider right after pane `i` (in the column after the
/// pane) points at the active pane on the middle row: `◀` when pane `i` is active, `▶`
/// when the pane after it is (both light), and a grey `│` otherwise. This holds whenever
/// the panes and their dividers fit in 16-bit columns.
pub proof fn lemma_divider_points_at_active(f: FrameView, t: TabView, screens: Seq<ScreenView>, i: int)
    requires
        t.wf(),
        0 <= i < t.panes.len() - 1,
        crate::pane_manager::spanned_width(t.panes) < 65535,
        mid_row(f.size.spec_rows() as int) >= 1,
    ensures
        ({
            let n = t.panes.len() as int;
            let r = mid_row(f.size.spec_rows() as int);
            let c = crate::pane_manager::col_offset(t.panes, i) + t.panes[i].width;
            let cell = panes_cell(f, t, screens, n, r, c);
            &&& i == t.active_pane ==> cell.content == seq!['◀'] && cell.attrs.fg == Color::Idx(15)
            &&& i + 1 == t.active_pane ==> cell.content == seq!['▶'] && cell.attrs.fg == Color::Idx(15)
            &&& i != t.active_pane && i + 1 != t.active_pane ==> cell.content == seq!['│'] && cell.attrs.fg
                == Color::Idx(8)
        }),
{
    let n = t.panes.len() as int;
    let r = mid_row(f.size.spec_rows() as int);
    lemma_raw_offset_spanned(t.panes, n);
    assert(t.panes.take(n) =~= t.panes);
    lemma_col_offset_raw(t.panes, i);
    lemma_raw_offset_mono(t.panes, i + 1, n);
    let off = crate::pane_manager::col_offset(t.panes, i);
    let c = off + t.panes[i].width;
    assert(raw_offset(t.panes, i + 1) == off + t.panes[i].width + 1);
    assert(abs_col(t.panes[i].width as int, off) == c);
    lemma_later_panes_keep_divider(f, t, screens, i, n, r, c);
    assert(panes_cell(f, t, screens, i + 1, r, c) == divider_cell(i, t.active_pane as int, r, f.size.spec_rows() as int));
}

/// Draws the active tab's panes side by side, with dividers between them, below the bar.
/// `screens[i]` is what pane `i` shows.
pub fn paint_active_tab(buf: &mut FrameBuffer, manager: &PaneManager, screens: &Vec<PaneScreen>)
    requires
        old(buf)@.wf(),
        manager@.wf(),
    ensures
        final(buf)@.wf(),
        final(buf)@.size == old(buf)@.size,
        forall|r: int, c: int|
            old(buf)@.contains(r, c) ==> #[trigger] final(buf)@.at(r, c) == panes_cell(
                old(buf)@,
                manager@.active_tab(),
                screens@.map_values(|s: PaneScreen| s@),
                manager@.active_tab().panes.len() as int,
                r,
                c,
            ),
{
    let ghost before = buf@;
    let ghost sv = screens@.map_values(|s: PaneScreen| s@);
    let tab = manager.tabs.active();
    let ghost t = tab@;
    let n = tab.panes.len();
    let rows = buf.size.rows();
    let mid: u16 = (((rows as u32 + 1) % 65536) / 2) as u16;
    let mut col_offset = ColOffset::zero();
    let mut i: usize = 0;
    while i < n
        invariant
            t == manager@.active_tab(),
            t == tab@,
            t.wf(),
            n == t.panes.len(),
            before.wf(),
            buf@.wf(),
            buf@.size == before.size,
            rows == before.size.spec_rows(),
            rows >= 1,
            mid == mid_row(rows as int),
            sv == screens@.map_values(|s: PaneScreen| s@),
            0 <= i <= n,
            i < n ==> col_offset.spec_value() == crate::pane_manager::col_offset(t.panes, i as int),
            forall|r: int, c: int| before.contains(r, c) ==> #[trigger] buf@.at(r, c) == panes_cell(before, t, sv, i as int, r, c),
        decreases n - i,
    {
        let pane = &tab.panes[i];
        let screen = if i < screens.len() {
            Some(&screens[i])
        } else {
            None
        };
        let ghost off = col_offset.spec_value() as int;
        let ghost mid_buf = buf@;
        paint_pane(buf, pane, screen, col_offset);
        proof {
            assert(screen_for(sv, i as int) == match screen {
                Some(s) => s@,
                None => empty_screen(),
            });
        }
        if i + 1 < n {
            let off16 = col_offset.value();
            let width = pane.width;
            let divider_col: u16 = if (off16 as u32) + (width as u32) < 65536 {
                off16 + width
            } else {
                ((off16 as u32 + width as u32) - 65536) as u16
            };
            let indicator: char = if i == tab.active_pane {
                '◀'
            } else if i + 1 == tab.active_pane {
                '▶'
            } else {
                '│'
            };
            let ghost after_pane = buf@;
            let mut row: u16 = 1;
            while row < rows
                invariant
                    before.wf(),
                    buf@.wf(),
                    buf@.size == before.size,
                    after_pane.wf(),
                    after_pane.size == before.size,
                    rows == before.size.spec_rows(),
                    mid == mid_row(rows as int),
                    1 <= row <= rows,
                    i + 1 < n,
                    t.wf(),
                    n == t.panes.len(),
                    divider_col == abs_col(t.panes[i as int].width as int, off),
                    indicator == (if i == t.active_pane {
                        '◀'
                    } else if i + 1 == t.active_pane {
                        '▶'
                    } else {
                        '│'
                    }),
                    forall|r: int, c: int|
                        before.contains(r, c) ==> #[trigger] buf@.at(r, c) == if 1 <= r < row && c == divider_col {
                            divider_cell(i as int, t.active_pane as int, r, rows as int)
                        } else {
                            after_pane.at(r, c)
                        },
                decreases rows - row,
            {
                let cell = if row == mid && indicator != '│' {
                    Cell::of_char(indicator, Attrs {
                        fg: Color::Idx(15),
                        bg: Color::Default,
                        bold: false,
                        italic: false,
                        underline: false,
                        inverse: false,
                    })
                } else {
                    Cell::of_char('│', Attrs {
                        fg: Color::Idx(8),
                        bg: Color::Default,
                        bold: false,
                        italic: false,
                        underline: false,
                        inverse: false,
                    })
                };
                let ghost cv = cell@;
                let ghost old_buf = buf@;
                buf.set(row, divider_col, cell);
                proof {
                    assert(cv == divider_cell(i as int, t.active_pane as int, row as int, rows as int));
                    assert forall|r: int, c: int| before.contains(r, c) implies #[trigger] buf@.at(r, c) == if 1 <= r < row + 1 && c == divider_col {
                        divider_cell(i as int, t.active_pane as int, r, rows as int)
                    } else {
                        after_pane.at(r, c)
                    } by {
                        lemma_set_at(old_buf, row as int, divider_col as int, cv, r, c);
                    }
                }
                row = row + 1;
            }
            col_offset = col_offset.advance_past_pane(width);
        } else {
            col_offset = ColOffset::zero();
        }
        proof {
            assert forall|r: int, c: int| before.contains(r, c) implies #[trigger] buf@.at(r, c) == panes_cell(before, t, sv, i + 1, r, c) by {
                assert(mid_buf.at(r, c) == panes_cell(before, t, sv, i as int, r, c));
            }
        }
        i = i + 1;
    }
}


/// The cell at (`r`, `c`) of the frame drawn for `m`: the help (when shown) or the active
/// tab's panes, under the prompt (when one is shown) or the tab bar on the first row.
pub open spec fn drawn_cell(
    m: ManagerView,
    prompt: Option<Seq<char>>,
    show_help: bool,
    leader: Seq<char>,
    screens: Seq<ScreenView>,
    r: int,
    c: int,
) -> CellView {
    let body = if show_help {
        help_cell(blank(), leader, r, c)
    } else {
        panes_cell(blank_frame(m.size), m.active_tab(), screens, m.active_tab().panes.len() as int, r, c)
    };
    if r == 0 {
        match prompt {
            Some(t) => texted(body, t, c),
            None => bar_cell(m, c),
        }
    } else {
        body
    }
}

/// The frame drawn for `m` (see `drawn_cell`).
pub open spec fn next_frame(
    m: ManagerView,
    prompt: Option<Seq<char>>,
    show_help: bool,
    leader: Seq<char>,
    screens: Seq<ScreenView>,
) -> FrameView {
    frame_of(m.size, |r: int, c: int| drawn_cell(m, prompt, show_help, leader, screens, r, c))
}

/// Every drawn frame has one cell per position.
pub(crate) proof fn lemma_next_frame_wf(
    m: ManagerView,
    prompt: Option<Seq<char>>,
    show_help: bool,
    leader: Seq<char>,
    screens: Seq<ScreenView>,
)
    ensures
        next_frame(m, prompt, show_help, leader, screens).wf(),
{
    let rows = m.size.spec_rows() as int;
    let cols = m.size.spec_cols() as int;
    assert(rows * cols >= 0) by (nonlinear_arith)
        requires
            rows >= 0,
            cols >= 0,
    ;
}

/// Where the active pane's cursor is, whether its program hid it, and its shape.
#[derive(Debug, Clone, Copy, PartialEq, Eq)]
pub struct CursorState {
    pub row: u16,
    pub col: u16,
    pub hidden: bool,
    pub style: CursorStyle,
}

/// `a + b` in 16-bit numbers (wrapping).
pub open spec fn add16(a: int, b: int) -> u16 {
    ((a + b) % 65536) as u16
}

/// The cursor after drawing: hidden while the help or a prompt shows, or where the
/// pane's program hid it; else at the pane's cursor (below the bar, right of the panes
/// before it) with the shape the program asked for.
pub open spec fn cursor_ops(m: ManagerView, prompt_shown: bool, show_help: bool, cursor: CursorState) -> Seq<OpView> {
    if show_help || prompt_shown || cursor.hidden {
        seq![OpView::HideCursor]
    } else {
        let t = m.active_tab();
        let off = crate::pane_manager::col_offset(t.panes, t.active_pane as int);
        seq![
            OpView::MoveTo { col: add16(cursor.col as int, off), row: add16(cursor.row as int, 1) },
            OpView::SetCursorStyle(cursor.style),
            OpView::ShowCursor,
        ]
    }
}

/// The renderer's memory as values: the last frame drawn and whether it showed the help.
pub struct RendererView {
    pub prev: FrameView,
    pub prev_show_help: bool,
}

/// The operations one draw performs: a clear (and a fresh start) when the help appears
/// or goes, the cursor hidden, the cells that changed since the last frame, then the
/// cursor placed.
pub open spec fn draw_ops(
    rv: RendererView,
    m: ManagerView,
    prompt: Option<Seq<char>>,
    show_help: bool,
    leader: Seq<char>,
    screens: Seq<ScreenView>,
    cursor: CursorState,
) -> Seq<OpView> {
    let reset = show_help != rv.prev_show_help;
    let prev = if reset {
        blank_frame(m.size)
    } else {
        rv.prev
    };
    (if reset {
        seq![OpView::ClearAll]
    } else {
        Seq::empty()
    }) + seq![OpView::HideCursor] + diff_ops(prev, next_frame(m, prompt, show_help, leader, screens))
        + cursor_ops(m, prompt is Some, show_help, cursor)
}

/// The text as characters, if any.
pub open spec fn text_view(t: Option<&str>) -> Option<Seq<char>> {
    match t {
        Some(s) => Some(s@),
        None => None,
    }
}

/// Draws frames, sending only what changed since the last one.
pub struct Renderer {
    prev: FrameBuffer,
    prev_show_help: bool,
}

impl View for Renderer {
    type V = RendererView;

    closed spec fn view(&self) -> RendererView {
        RendererView { prev: self.prev@, prev_show_help: self.prev_show_help }
    }
}

pub(crate) proof fn lemma_blank_frame_at(size: TerminalSize, r: int, c: int)
    requires
        blank_frame(size).contains(r, c),
    ensures
        blank_frame(size).at(r, c) == blank(),
        blank_frame(size).wf(),
{
    lemma_index_in_bounds(size.spec_rows() as int, size.spec_cols() as int, r, c);
}

impl Renderer {
    /// Whether the last frame is well formed.
    pub closed spec fn wf(&self) -> bool {
        self.prev@.wf()
    }

    /// A renderer for a terminal of size `size` that has drawn nothing yet (a blank frame,
    /// no help).
    pub fn new(size: TerminalSize) -> (r: Self)
        ensures
            r@.prev == blank_frame(size),
            !r@.prev_show_help,
            r.wf(),
    {
        Renderer { prev: FrameBuffer::new(size), prev_show_help: false }
    }

    /// Forgets the last frame (after the terminal was resized to `size`), so the next
    /// draw sends every cell.
    pub fn invalidate(&mut self, size: TerminalSize)
        ensures
            final(self)@.prev == blank_frame(size),
            !final(self)@.prev_show_help,
            final(self).wf(),
    {
        self.prev = FrameBuffer::new(size);
        self.prev_show_help = false;
    }

    /// Draws the frame for `manager` (see `next_frame`) and returns the terminal
    /// operations that show it (see `draw_ops`): `prompt` replaces the tab bar, `show_help`
    /// shows the help instead of the panes, `screens[i]` is what pane `i` of the active tab
    /// shows, and `cursor` is the active pane's cursor.
    pub fn draw(
        &mut self,
        manager: &PaneManager,
        prompt: Option<&str>,
        show_help: bool,
        leader: &str,
        screens: &Vec<PaneScreen>,
        cursor: CursorState,
    ) -> (ops: Vec<DrawOp>)
        requires
            old(self).wf(),
            manager@.wf(),
        ensures
            ops_view(ops@) == draw_ops(
                old(self)@,
                manager@,
                text_view(prompt),
                show_help,
                leader@,
                screens@.map_values(|s: PaneScreen| s@),
                cursor,
            ),
            final(self)@.prev == next_frame(
                manager@,
                text_view(prompt),
                show_help,
                leader@,
                screens@.map_values(|s: PaneScreen| s@),
            ),
            final(self)@.prev_show_help == show_help,
            final(self).wf(),
    {
        let ghost m = manager@;
        let ghost sv = screens@.map_values(|s: PaneScreen| s@);
        let ghost pv = text_view(prompt);
        let mut ops: Vec<DrawOp> = Vec::new();
        let ghost rv = self@;
        if show_help != self.prev_show_help {
            push_op(&mut ops, DrawOp::ClearAll);
            self.prev = FrameBuffer::new(manager.size);
            self.prev_show_help = show_help;
        }
        let mut next = FrameBuffer::new(manager.size);
        let ghost f0 = next@;
        if show_help {
            paint_help(&mut next, leader);
        } else {
            paint_active_tab(&mut next, manager, screens);
        }
        let ghost f1 = next@;
        match prompt {
            Some(text) => paint_prompt(&mut next, text),
            None => paint_tab_bar(&mut next, manager),
        }
        let frame_cols = manager.size.cols();
        proof {
            assert(m.size.spec_cols() == frame_cols && frame_cols >= 1);
            let want = next_frame(m, pv, show_help, leader@, sv);
            let g = |r: int, c: int| drawn_cell(m, pv, show_help, leader@, sv, r, c);
            assert forall|r: int, c: int| next@.contains(r, c) implies #[trigger] next@.at(r, c) == want.at(r, c) by {
                lemma_frame_of_at(m.size, g, r, c);
                lemma_blank_frame_at(m.size, r, c);
                assert(f0.at(r, c) == blank());
            }
            lemma_frame_of_at(m.size, g, 0, 0);
            lemma_frame_ext(next@, want);
        }
        push_op(&mut ops, DrawOp::HideCursor);
        flush_diff(&mut ops, &self.prev, &next);
        self.prev = next;
        if show_help || prompt.is_some() {
            push_op(&mut ops, DrawOp::HideCursor);
        } else {
            let col_offset = manager.active_pane_col_offset();
            if cursor.hidden {
                push_op(&mut ops, DrawOp::HideCursor);
            } else {
                let col: u16 = ((cursor.col as u32 + col_offset.value() as u32) % 65536) as u16;
                let row: u16 = ((cursor.row as u32 + 1) % 65536) as u16;
                push_op(&mut ops, DrawOp::MoveTo { col, row });
                push_op(&mut ops, DrawOp::SetCursorStyle(cursor.style));
                push_op(&mut ops, DrawOp::ShowCursor);
            }
        }
        proof {
            assert(ops_view(ops@) =~= draw_ops(rv, m, pv, show_help, leader@, sv, cursor));
        }
        ops
    }
}


proof fn lemma_diff_row_identical(f: FrameView, st: DiffState, row: u16, col: nat)
    requires
        st.ops.len() == 0,
        st.attrs == plain(),
    ensures
        diff_row(st, f, f, row, col).ops.len() == 0,
        diff_row(st, f, f, row, col).attrs == plain(),
    decreases col,
{
    if col > 0 {
        lemma_diff_row_identical(f, st, row, (col - 1) as nat);
    }
}

proof fn lemma_diff_rows_identical(f: FrameView, rows: nat)
    ensures
        diff_rows(f, f, rows).ops.len() == 0,
        diff_rows(f, f, rows).attrs == plain(),
    decreases rows,
{
    if rows > 0 {
        lemma_diff_rows_identical(f, (rows - 1) as nat);
        lemma_diff_row_identical(f, diff_rows(f, f, (rows - 1) as nat), (rows - 1) as u16, f.size.spec_cols() as nat);
    }
}

/// Law: a frame that did not change costs nothing to show again: the diff of a frame
/// against itself is empty.
pub proof fn lemma_unchanged_frame_sends_nothing(f: FrameView)
    ensures
        diff_ops(f, f) == Seq::<OpView>::empty(),
{
    lemma_diff_rows_identical(f, f.size.spec_rows() as nat);
    assert(diff_ops(f, f) =~= Seq::<OpView>::empty());
}

/// Law: drawing the same picture twice in a row, the second draw only hides and places
/// the cursor: no cell is sent again.
pub proof fn lemma_redraw_sends_only_cursor(
    m: ManagerView,
    prompt: Option<Seq<char>>,
    show_help: bool,
    leader: Seq<char>,
    screens: Seq<ScreenView>,
    cursor: CursorState,
)
    ensures
        ({
            let rv = RendererView { prev: next_frame(m, prompt, show_help, leader, screens), prev_show_help: show_help };
            draw_ops(rv, m, prompt, show_help, leader, screens, cursor) == seq![OpView::HideCursor] + cursor_ops(
                m,
                prompt is Some,
                show_help,
                cursor,
            )
        }),
{
    let f = next_frame(m, prompt, show_help, leader, screens);
    lemma_unchanged_frame_sends_nothing(f);
    let rv = RendererView { prev: f, prev_show_help: show_help };
    assert(draw_ops(rv, m, prompt, show_help, leader, screens, cursor) =~= seq![OpView::HideCursor] + cursor_ops(
        m,
        prompt is Some,
        show_help,
        cursor,
    ));
}

} // verus!
