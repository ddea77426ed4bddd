//! What a terminal shows after it performs the drawing operations: a model of a terminal
//! that draws each printed cell one column wide, and the laws that a diff, and a whole
//! draw, leave it showing the frame that was drawn.
use vstd::prelude::*;

use crate::renderer::{
    advance, attr_ops, blank_frame, cell_index, diff_cell, diff_ops, diff_row, diff_rows, diff_start,
    draw_ops, lemma_frame_ext, lemma_index_distinct, lemma_index_in_bounds,
    lemma_set_at, next_frame, plain, Attrs, CellView, CursorState, DiffState, FrameView, OpView,
    RendererView, ScreenView,
};
use crate::pane_manager::ManagerView;

verus! {

/// A terminal as values: what it shows, where it prints next, and the attributes it
/// prints with.
pub struct TermView {
    pub frame: FrameView,
    pub row: int,
    pub col: int,
    pub attrs: Attrs,
}

/// One operation on the terminal: a clear blanks the screen, a move places the print
/// position, the attribute operations switch what printing uses, and a print sets the cell
/// at the print position and moves one column right. Showing, hiding and shaping the
/// cursor change nothing that is shown.
pub open spec fn apply_op(t: TermView, op: OpView) -> TermView {
    match op {
        OpView::ClearAll => TermView { frame: blank_frame(t.frame.size), ..t },
        OpView::MoveTo { col, row } => TermView { row: row as int, col: col as int, ..t },
        OpView::ResetAttributes => TermView { attrs: plain(), ..t },
        OpView::SetForeground(c) => TermView { attrs: Attrs { fg: c, ..t.attrs }, ..t },
        OpView::SetBackground(c) => TermView { attrs: Attrs { bg: c, ..t.attrs }, ..t },
        OpView::SetBold => TermView { attrs: Attrs { bold: true, ..t.attrs }, ..t },
        OpView::SetItalic => TermView { attrs: Attrs { italic: true, ..t.attrs }, ..t },
        OpView::SetUnderlined => TermView { attrs: Attrs { underline: true, ..t.attrs }, ..t },
        OpView::SetReverse => TermView { attrs: Attrs { inverse: true, ..t.attrs }, ..t },
        OpView::Print(s) => TermView {
            frame: t.frame.set(t.row, t.col, CellView { content: s, attrs: t.attrs }),
            col: t.col + 1,
            ..t
        },
        _ => t,
    }
}

/// The terminal after performing `ops` in order.
pub open spec fn apply_ops(t: TermView, ops: Seq<OpView>) -> TermView
    decreases ops.len(),
{
    if ops.len() == 0 {
        t
    } else {
        apply_op(apply_ops(t, ops.drop_last()), ops.last())
    }
}

/// Whether every cell of `f` is one column wide.
pub open spec fn single_width(f: FrameView) -> bool {
    forall|r: int, c: int| f.contains(r, c) ==> advance(#[trigger] f.at(r, c).content) == 1
}

proof fn lemma_apply_concat(t: TermView, a: Seq<OpView>, b: Seq<OpView>)
    ensures
        apply_ops(t, a + b) == apply_ops(apply_ops(t, a), b),
    decreases b.len(),
{
    if b.len() == 0 {
        assert(a + b =~= a);
    } else {
        assert((a + b).drop_last() =~= a + b.drop_last());
        assert((a + b).last() == b.last());
        lemma_apply_concat(t, a, b.drop_last());
    }
}

proof fn lemma_apply_one(t: TermView, op: OpView)
    ensures
        apply_ops(t, seq![op]) == apply_op(t, op),
{
    let e = seq![op].drop_last();
    assert(e =~= Seq::<OpView>::empty());
    assert(apply_ops(t, e) == t);
    assert(seq![op].last() == op);
}

proof fn lemma_apply_push(t: TermView, ops: Seq<OpView>, op: OpView)
    ensures
        apply_ops(t, ops.push(op)) == apply_op(apply_ops(t, ops), op),
{
    assert(ops.push(op).drop_last() =~= ops);
}

proof fn lemma_apply_flag(t: TermView, on: bool, op: OpView)
    ensures
        apply_ops(t, if on {
            seq![op]
        } else {
            Seq::empty()
        }) == if on {
            apply_op(t, op)
        } else {
            t
        },
{
    if on {
        lemma_apply_one(t, op);
    }
}

/// Switching to `attrs` leaves the terminal printing with exactly `attrs`, and changes
/// nothing else.
proof fn lemma_apply_attr_ops(t: TermView, attrs: Attrs)
    ensures
        apply_ops(t, attr_ops(attrs)) == (TermView { attrs, ..t }),
{
    let base = seq![OpView::ResetAttributes, OpView::SetForeground(attrs.fg), OpView::SetBackground(attrs.bg)];
    let b1: Seq<OpView> = if attrs.bold {
        seq![OpView::SetBold]
    } else {
        Seq::empty()
    };
    let b2: Seq<OpView> = if attrs.italic {
        seq![OpView::SetItalic]
    } else {
        Seq::empty()
    };
    let b3: Seq<OpView> = if attrs.underline {
        seq![OpView::SetUnderlined]
    } else {
        Seq::empty()
    };
    let b4: Seq<OpView> = if attrs.inverse {
        seq![OpView::SetReverse]
    } else {
        Seq::empty()
    };
    assert(attr_ops(attrs) == (((base + b1) + b2) + b3) + b4);
    assert(base =~= seq![OpView::ResetAttributes, OpView::SetForeground(attrs.fg)].push(OpView::SetBackground(attrs.bg)));
    assert(seq![OpView::ResetAttributes, OpView::SetForeground(attrs.fg)] =~= seq![OpView::ResetAttributes].push(
        OpView::SetForeground(attrs.fg),
    ));
    lemma_apply_one(t, OpView::ResetAttributes);
    lemma_apply_push(t, seq![OpView::ResetAttributes], OpView::SetForeground(attrs.fg));
    lemma_apply_push(t, seq![OpView::ResetAttributes, OpView::SetForeground(attrs.fg)], OpView::SetBackground(attrs.bg));
    let t0 = apply_ops(t, base);
    assert(t0 == TermView { attrs: Attrs { fg: attrs.fg, bg: attrs.bg, ..plain() }, ..t });
    lemma_apply_concat(t, base, b1);
    lemma_apply_flag(t0, attrs.bold, OpView::SetBold);
    let t1 = apply_ops(t, base + b1);
    lemma_apply_concat(t, base + b1, b2);
    lemma_apply_flag(t1, attrs.italic, OpView::SetItalic);
    let t2 = apply_ops(t, (base + b1) + b2);
    lemma_apply_concat(t, (base + b1) + b2, b3);
    lemma_apply_flag(t2, attrs.underline, OpView::SetUnderlined);
    let t3 = apply_ops(t, ((base + b1) + b2) + b3);
    lemma_apply_concat(t, ((base + b1) + b2) + b3, b4);
    lemma_apply_flag(t3, attrs.inverse, OpView::SetReverse);
}

/// The terminal shows the first `k` cells (in row-by-row order) of `next` and the rest of
/// `prev`.
pub open spec fn shows_prefix(t: TermView, prev: FrameView, next: FrameView, k: int) -> bool {
    &&& t.frame.wf()
    &&& t.frame.size == next.size
    &&& forall|r: int, c: int|
        next.contains(r, c) ==> #[trigger] t.frame.at(r, c) == if cell_index(next.size.spec_cols() as int, r, c) < k {
            next.at(r, c)
        } else {
            prev.at(r, c)
        }
}

/// The terminal prints with the attributes the diff assumes, and at the position the diff
/// assumes where it assumes one.
pub open spec fn tracks(t: TermView, st: DiffState) -> bool {
    &&& t.attrs == st.attrs
    &&& (st.cursor matches Some(p) ==> t.row == p.0 && t.col == p.1)
}

proof fn lemma_diff_cell_step(t0: TermView, st: DiffState, prev: FrameView, next: FrameView, row: u16, col: u16)
    requires
        prev.wf(),
        next.wf(),
        prev.size == next.size,
        single_width(next),
        row < next.size.spec_rows(),
        col < next.size.spec_cols(),
        shows_prefix(apply_ops(t0, st.ops), prev, next, cell_index(next.size.spec_cols() as int, row as int, col as int)),
        tracks(apply_ops(t0, st.ops), st),
    ensures
        ({
            let st1 = diff_cell(st, prev, next, row, col);
            &&& shows_prefix(apply_ops(t0, st1.ops), prev, next, cell_index(next.size.spec_cols() as int, row as int, col as int) + 1)
            &&& tracks(apply_ops(t0, st1.ops), st1)
        }),
{
    let cols = next.size.spec_cols() as int;
    let k = cell_index(cols, row as int, col as int);
    let t = apply_ops(t0, st.ops);
    let new = next.at(row as int, col as int);
    let old = prev.at(row as int, col as int);
    let st1 = diff_cell(st, prev, next, row, col);
    assert(next.contains(row as int, col as int));
    assert forall|r: int, c: int| next.contains(r, c) && cell_index(cols, r, c) == k implies r == row && c == col by {
        lemma_index_distinct(cols, r, c, row as int, col as int);
    }
    if new == old {
        assert(st1.ops == st.ops);
        assert forall|r: int, c: int| next.contains(r, c) implies #[trigger] t.frame.at(r, c) == if cell_index(cols, r, c) < k + 1 {
            next.at(r, c)
        } else {
            prev.at(r, c)
        } by {
            if cell_index(cols, r, c) == k {
                assert(r == row && c == col);
            }
        }
    } else {
        let moved = if st.cursor == Some((row, col as u32)) {
            st.ops
        } else {
            st.ops.push(OpView::MoveTo { col, row })
        };
        let tm = apply_ops(t0, moved);
        if st.cursor != Some((row, col as u32)) {
            lemma_apply_push(t0, st.ops, OpView::MoveTo { col, row });
        }
        assert(tm.row == row && tm.col == col);
        assert(tm.frame == t.frame && tm.attrs == t.attrs);
        let styled = if new.attrs != st.attrs {
            moved + attr_ops(new.attrs)
        } else {
            moved
        };
        let ts = apply_ops(t0, styled);
        if new.attrs != st.attrs {
            lemma_apply_concat(t0, moved, attr_ops(new.attrs));
            lemma_apply_attr_ops(tm, new.attrs);
        }
        assert(ts == TermView { attrs: new.attrs, ..tm });
        assert(st1.ops == styled.push(OpView::Print(new.content)));
        lemma_apply_push(t0, styled, OpView::Print(new.content));
        let t1 = apply_ops(t0, st1.ops);
        assert(CellView { content: new.content, attrs: new.attrs } == new);
        assert(t1.frame == ts.frame.set(row as int, col as int, new));
        assert(advance(new.content) == 1);
        assert forall|r: int, c: int| next.contains(r, c) implies #[trigger] t1.frame.at(r, c) == if cell_index(cols, r, c) < k + 1 {
            next.at(r, c)
        } else {
            prev.at(r, c)
        } by {
            lemma_set_at(ts.frame, row as int, col as int, new, r, c);
            if cell_index(cols, r, c) == k {
                assert(r == row && c == col);
            }
        }
        lemma_set_at(ts.frame, row as int, col as int, new, 0, 0);
    }
}

proof fn lemma_diff_row_step(t0: TermView, st: DiffState, prev: FrameView, next: FrameView, row: u16, n: nat)
    requires
        prev.wf(),
        next.wf(),
        prev.size == next.size,
        single_width(next),
        row < next.size.spec_rows(),
        n <= next.size.spec_cols(),
        shows_prefix(apply_ops(t0, st.ops), prev, next, cell_index(next.size.spec_cols() as int, row as int, 0)),
        tracks(apply_ops(t0, st.ops), st),
    ensures
        ({
            let st1 = diff_row(st, prev, next, row, n);
            &&& shows_prefix(apply_ops(t0, st1.ops), prev, next, cell_index(next.size.spec_cols() as int, row as int, n as int))
            &&& tracks(apply_ops(t0, st1.ops), st1)
        }),
    decreases n,
{
    if n > 0 {
        lemma_diff_row_step(t0, st, prev, next, row, (n - 1) as nat);
        lemma_diff_cell_step(t0, diff_row(st, prev, next, row, (n - 1) as nat), prev, next, row, (n - 1) as u16);
    }
}

proof fn lemma_diff_rows_step(t0: TermView, prev: FrameView, next: FrameView, rows: nat)
    requires
        prev.wf(),
        next.wf(),
        prev.size == next.size,
        single_width(next),
        rows <= next.size.spec_rows(),
        t0.frame == prev,
        t0.attrs == plain(),
    ensures
        ({
            let st = diff_rows(prev, next, rows);
            &&& shows_prefix(apply_ops(t0, st.ops), prev, next, rows * next.size.spec_cols())
            &&& tracks(apply_ops(t0, st.ops), st)
        }),
    decreases rows,
{
    let cols = next.size.spec_cols() as int;
    if rows == 0 {
        assert(diff_start().ops.len() == 0);
        assert(apply_ops(t0, diff_start().ops) == t0);
        assert forall|r: int, c: int| next.contains(r, c) implies #[trigger] t0.frame.at(r, c) == if cell_index(cols, r, c) < 0 {
            next.at(r, c)
        } else {
            prev.at(r, c)
        } by {
            lemma_index_in_bounds(next.size.spec_rows() as int, cols, r, c);
        }
    } else {
        let r0 = (rows - 1) as nat;
        lemma_diff_rows_step(t0, prev, next, r0);
        assert(r0 * cols == cell_index(cols, r0 as int, 0));
        lemma_diff_row_step(t0, diff_rows(prev, next, r0), prev, next, r0 as u16, cols as nat);
        assert(cell_index(cols, r0 as int, cols) == rows * cols) by (nonlinear_arith)
            requires
                r0 + 1 == rows,
        ;
    }
}

/// Law: the operations of a diff turn a terminal showing `prev` (and printing plainly)
/// into one showing `next` (and printing plainly again), wherever its cursor stood, when
/// every cell of `next` is one column wide.
pub proof fn lemma_diff_shows_next(prev: FrameView, next: FrameView, row: int, col: int)
    requires
        prev.wf(),
        next.wf(),
        prev.size == next.size,
        single_width(next),
    ensures
        ({
            let t = apply_ops(TermView { frame: prev, row, col, attrs: plain() }, diff_ops(prev, next));
            t.frame == next && t.attrs == plain()
        }),
{
    let t0 = TermView { frame: prev, row, col, attrs: plain() };
    let rows = next.size.spec_rows() as int;
    let cols = next.size.spec_cols() as int;
    lemma_diff_rows_step(t0, prev, next, rows as nat);
    let st = diff_rows(prev, next, rows as nat);
    let t = apply_ops(t0, st.ops);
    if cols >= 1 {
        assert forall|r: int, c: int| t.frame.contains(r, c) implies #[trigger] t.frame.at(r, c) == next.at(r, c) by {
            lemma_index_in_bounds(rows, cols, r, c);
        }
        lemma_frame_ext(t.frame, next);
    } else {
        assert(rows * cols == 0) by (nonlinear_arith)
            requires
                cols == 0,
        ;
        assert(t.frame.cells.len() == 0 && next.cells.len() == 0);
        assert(t.frame.cells =~= next.cells);
    }
    if st.attrs != plain() {
        lemma_apply_push(t0, st.ops, OpView::ResetAttributes);
    }
}

/// Law: after a draw, a terminal that showed the renderer's last frame (printing plainly)
/// shows the frame drawn, when every cell of that frame is one column wide.
pub proof fn lemma_draw_shows_frame(
    rv: RendererView,
    m: ManagerView,
    prompt: Option<Seq<char>>,
    show_help: bool,
    leader: Seq<char>,
    screens: Seq<ScreenView>,
    cursor: CursorState,
    row: int,
    col: int,
)
    requires
        rv.prev.wf(),
        rv.prev.size == m.size,
        single_width(next_frame(m, prompt, show_help, leader, screens)),
    ensures
        ({
            let t0 = TermView { frame: rv.prev, row, col, attrs: plain() };
            let t = apply_ops(t0, draw_ops(rv, m, prompt, show_help, leader, screens, cursor));
            t.frame == next_frame(m, prompt, show_help, leader, screens) && t.attrs == plain()
        }),
{
    let next = next_frame(m, prompt, show_help, leader, screens);
    crate::renderer::lemma_next_frame_wf(m, prompt, show_help, leader, screens);
    let reset = show_help != rv.prev_show_help;
    let prev = if reset {
        blank_frame(m.size)
    } else {
        rv.prev
    };
    let t0 = TermView { frame: rv.prev, row, col, attrs: plain() };
    let head: Seq<OpView> = if reset {
        seq![OpView::ClearAll]
    } else {
        Seq::empty()
    };
    let th = apply_ops(t0, head);
    if reset {
        lemma_apply_one(t0, OpView::ClearAll);
        let rows = m.size.spec_rows() as int;
        let cols = m.size.spec_cols() as int;
        assert(rows * cols >= 0) by (nonlinear_arith)
            requires
                rows >= 0,
                cols >= 0,
        ;
        assert(prev.wf());
    }
    assert(th.frame == prev && th.attrs == plain());
    let hidden = head + seq![OpView::HideCursor];
    lemma_apply_concat(t0, head, seq![OpView::HideCursor]);
    lemma_apply_one(th, OpView::HideCursor);
    let tv = apply_ops(t0, hidden);
    assert(tv.frame == prev && tv.attrs == plain());
    let d = diff_ops(prev, next);
    lemma_apply_concat(t0, hidden, d);
    lemma_diff_shows_next(prev, next, tv.row, tv.col);
    let td = apply_ops(t0, hidden + d);
    let c = crate::renderer::cursor_ops(m, prompt is Some, show_help, cursor);
    assert(draw_ops(rv, m, prompt, show_help, leader, screens, cursor) == (hidden + d) + c);
    lemma_apply_concat(t0, hidden + d, c);
    if show_help || prompt is Some || cursor.hidden {
        lemma_apply_one(td, OpView::HideCursor);
    } else {
        let mv = c[0];
        assert(c == seq![mv].push(c[1]).push(c[2]));
        lemma_apply_one(td, mv);
        lemma_apply_push(td, seq![mv], c[1]);
        lemma_apply_push(td, seq![mv].push(c[1]), c[2]);
    }
}

} // verus!
