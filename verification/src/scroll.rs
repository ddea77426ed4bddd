//! How far a pane is scrolled back into its history.
use vstd::prelude::*;

use crate::size::Rows;

verus! {

/// The deepest scrollback position, in lines.
pub const MAX_SCROLLBACK: usize = 1000;

/// `v`, lowered to `MAX_SCROLLBACK` where it is larger.
pub open spec fn cap_scrollback(v: int) -> int {
    if v <= MAX_SCROLLBACK {
        v
    } else {
        MAX_SCROLLBACK as int
    }
}

/// The lines a page moves: one fewer than the rows, so one line of context stays.
pub open spec fn page_lines(rows: Rows) -> int {
    rows.spec_count() - 1
}

/// A number of lines scrolled back, never more than `MAX_SCROLLBACK`.
#[derive(Debug, Clone, Copy, PartialEq, Eq)]
pub struct ScrollOffset(usize);

impl ScrollOffset {
    #[verifier::type_invariant]
    spec fn inv(self) -> bool {
        self.0 <= MAX_SCROLLBACK
    }

    /// The lines scrolled back.
    pub closed spec fn spec_lines(&self) -> usize {
        self.0
    }

    pub fn zero() -> (r: Self)
        ensures
            r.spec_lines() == 0,
    {
        ScrollOffset(0)
    }

    /// One line further back, up to the limit.
    pub fn scroll_up(self) -> (r: Self)
        ensures
            r.spec_lines() == cap_scrollback(self.spec_lines() + 1),
    {
        proof {
            use_type_invariant(&self);
        }
        if self.0 < MAX_SCROLLBACK {
            ScrollOffset(self.0 + 1)
        } else {
            ScrollOffset(MAX_SCROLLBACK)
        }
    }

    /// One line towards the live screen, stopping there.
    pub fn scroll_down(self) -> (r: Self)
        ensures
            r.spec_lines() == crate::size::sat_sub(self.spec_lines() as int, 1),
    {
        proof {
            use_type_invariant(&self);
        }
        if self.0 >= 1 {
            ScrollOffset(self.0 - 1)
        } else {
            ScrollOffset(0)
        }
    }

    /// A page further back, up to the limit.
    pub fn page_up(self, rows: Rows) -> (r: Self)
        ensures
            r.spec_lines() == cap_scrollback(self.spec_lines() + page_lines(rows)),
    {
        proof {
            use_type_invariant(&self);
        }
        let page: usize = rows.count() as usize - 1;
        if page <= MAX_SCROLLBACK - self.0 {
            ScrollOffset(self.0 + page)
        } else {
            ScrollOffset(MAX_SCROLLBACK)
        }
    }

    /// A page towards the live screen, stopping there.
    pub fn page_down(self, rows: Rows) -> (r: Self)
        ensures
            r.spec_lines() == crate::size::sat_sub(self.spec_lines() as int, page_lines(rows)),
    {
        proof {
            use_type_invariant(&self);
        }
        let page: usize = rows.count() as usize - 1;
        if self.0 >= page {
            ScrollOffset(self.0 - page)
        } else {
            ScrollOffset(0)
        }
    }

    /// The lines scrolled back, which never exceed `MAX_SCROLLBACK`.
    pub fn lines(self) -> (r: usize)
        ensures
            r == self.spec_lines(),
            r <= MAX_SCROLLBACK,
    {
        proof {
            use_type_invariant(&self);
        }
        self.0
    }
}

impl vstd::std_specs::convert::FromSpecImpl<ScrollOffset> for usize {
    open spec fn obeys_from_spec() -> bool {
        true
    }

    open spec fn from_spec(s: ScrollOffset) -> usize {
        s.spec_lines()
    }
}

impl From<ScrollOffset> for usize {
    fn from(s: ScrollOffset) -> (r: usize)
        ensures
            r == s.spec_lines(),
    {
        s.lines()
    }
}

/// Law: scrolling one line up and then one line down returns to where it started,
/// unless the start was already at the limit.
pub proof fn lemma_scroll_up_down(start: ScrollOffset)
    requires
        start.spec_lines() < MAX_SCROLLBACK,
    ensures
        crate::size::sat_sub(cap_scrollback(start.spec_lines() + 1), 1) == start.spec_lines(),
{
}

/// Law: a page up and then a page down return to where they started, when the page up
/// did not reach the limit.
pub proof fn lemma_page_up_down(start: ScrollOffset, rows: Rows)
    requires
        rows.spec_count() >= 1,
        start.spec_lines() + page_lines(rows) <= MAX_SCROLLBACK,
    ensures
        crate::size::sat_sub(cap_scrollback(start.spec_lines() + page_lines(rows)), page_lines(rows))
            == start.spec_lines(),
{
}

/// Law: scrolling down from the live screen stays on the live screen.
pub proof fn lemma_scroll_down_at_zero(start: ScrollOffset, rows: Rows)
    requires
        start.spec_lines() == 0,
        rows.spec_count() >= 1,
    ensures
        crate::size::sat_sub(start.spec_lines() as int, 1) == 0,
        crate::size::sat_sub(start.spec_lines() as int, page_lines(rows)) == 0,
{
}

} // verus!
