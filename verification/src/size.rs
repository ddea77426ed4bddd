//! Terminal, content-area and pane dimensions, and the horizontal split layout.
use vstd::prelude::*;

verus! {

/// `a - b`, or 0 where `b` exceeds `a`.
pub open spec fn sat_sub(a: int, b: int) -> int {
    if a >= b {
        a - b
    } else {
        0
    }
}

/// `a`, raised to 1 where it is smaller.
pub open spec fn at_least_one(a: int) -> int {
    if a >= 1 {
        a
    } else {
        1
    }
}

/// The pane count as the 16-bit number the layout divides by (the count taken modulo 2^16).
pub open spec fn split_divisor(n: usize) -> int {
    n as int % 65536
}

/// The columns left for panes once `d - 1` divider columns are taken from `cols`.
pub open spec fn split_available(cols: int, d: int) -> int {
    sat_sub(cols, sat_sub(d, 1))
}

/// The width of every pane but the last: an even share of the available columns, at least 1.
pub open spec fn split_base_width(cols: int, d: int) -> int {
    at_least_one(split_available(cols, d) / d)
}

/// The width of the last pane: what the other panes leave of the available columns, at least 1.
pub open spec fn split_last_width(cols: int, d: int) -> int {
    at_least_one(sat_sub(split_available(cols, d), split_base_width(cols, d) * (d - 1)))
}

/// The width of pane `i` of `n` side-by-side panes in `cols` columns.
pub open spec fn split_width(cols: int, n: usize, i: int) -> int {
    let d = split_divisor(n);
    if i == n - 1 {
        split_last_width(cols, d)
    } else {
        split_base_width(cols, d)
    }
}

/// The sum of the widths of the first `k` of `n` panes.
pub open spec fn split_total_width(cols: int, n: usize, k: nat) -> int
    decreases k,
{
    if k == 0 {
        0
    } else {
        split_total_width(cols, n, (k - 1) as nat) + split_width(cols, n, k - 1)
    }
}

/// The dimensions of a terminal or pane in character cells.
/// Both `cols` and `rows` are guaranteed to be at least 1.
#[derive(Debug, Clone, Copy, PartialEq, Eq)]
pub struct TerminalSize {
    cols: u16,
    rows: u16,
}

impl TerminalSize {
    #[verifier::type_invariant]
    spec fn inv(self) -> bool {
        self.cols >= 1 && self.rows >= 1
    }

    /// The number of columns.
    pub closed spec fn spec_cols(&self) -> u16 {
        self.cols
    }

    /// The number of rows.
    pub closed spec fn spec_rows(&self) -> u16 {
        self.rows
    }

    /// Returns `None` if either dimension is zero.
    pub fn new(cols: u16, rows: u16) -> (r: Option<Self>)
        ensures
            r is None <==> (cols == 0 || rows == 0),
            r matches Some(s) ==> s.spec_cols() == cols && s.spec_rows() == rows,
    {
        if cols == 0 || rows == 0 {
            None
        } else {
            Some(TerminalSize { cols, rows })
        }
    }

    /// Clamps a zero dimension to 1 rather than failing.
    pub fn new_clamped(cols: u16, rows: u16) -> (r: Self)
        ensures
            r.spec_cols() == at_least_one(cols as int),
            r.spec_rows() == at_least_one(rows as int),
    {
        let c: u16 = if cols >= 1 {
            cols
        } else {
            1
        };
        let r: u16 = if rows >= 1 {
            rows
        } else {
            1
        };
        TerminalSize { cols: c, rows: r }
    }

    #[verifier::when_used_as_spec(spec_cols)]
    pub fn cols(&self) -> (r: u16)
        ensures
            r == self.spec_cols(),
            r >= 1,
    {
        proof {
            use_type_invariant(self);
        }
        self.cols
    }

    #[verifier::when_used_as_spec(spec_rows)]
    pub fn rows(&self) -> (r: u16)
        ensures
            r == self.spec_rows(),
            r >= 1,
    {
        proof {
            use_type_invariant(self);
        }
        self.rows
    }
}

impl vstd::std_specs::convert::FromSpecImpl<TerminalSize> for Rows {
    open spec fn obeys_from_spec() -> bool {
        true
    }

    open spec fn from_spec(size: TerminalSize) -> Rows {
        Rows::spec_of(size.spec_rows())
    }
}

impl From<TerminalSize> for Rows {
    fn from(size: TerminalSize) -> (r: Rows)
        ensures
            r.spec_count() == size.spec_rows(),
    {
        Rows(size.rows())
    }
}

/// A row count guaranteed to be at least 1.
#[derive(Debug, Clone, Copy, PartialEq, Eq)]
pub struct Rows(u16);

impl Rows {
    #[verifier::type_invariant]
    spec fn inv(self) -> bool {
        self.0 >= 1
    }

    /// The number of rows.
    pub closed spec fn spec_count(&self) -> u16 {
        self.0
    }

    /// The row count `n`, as a value.
    pub closed spec fn spec_of(n: u16) -> Rows {
        Rows(n)
    }

    pub fn new_clamped(rows: u16) -> (r: Self)
        ensures
            r.spec_count() == at_least_one(rows as int),
    {
        if rows >= 1 {
            Rows(rows)
        } else {
            Rows(1)
        }
    }

    /// The number of rows, which is at least 1.
    pub fn count(&self) -> (r: u16)
        ensures
            r == self.spec_count(),
            r >= 1,
    {
        proof {
            use_type_invariant(self);
        }
        self.0
    }
}

impl vstd::std_specs::convert::FromSpecImpl<Rows> for usize {
    open spec fn obeys_from_spec() -> bool {
        true
    }

    open spec fn from_spec(r: Rows) -> usize {
        r.spec_count() as usize
    }
}

impl From<Rows> for usize {
    fn from(r: Rows) -> (n: usize)
        ensures
            n == r.spec_count(),
    {
        r.count() as usize
    }
}

/// The drawable area available for panes — the terminal minus the tab bar row.
/// Guaranteed to be at least 1×1.
#[derive(Debug, Clone, Copy, PartialEq, Eq)]
pub struct ContentArea {
    cols: u16,
    rows: u16,
}

impl ContentArea {
    #[verifier::type_invariant]
    spec fn inv(self) -> bool {
        self.cols >= 1 && self.rows >= 1
    }

    pub closed spec fn spec_cols(&self) -> u16 {
        self.cols
    }

    pub closed spec fn spec_rows(&self) -> u16 {
        self.rows
    }

    /// The content area of a terminal of the given size: all its columns, one row fewer
    /// (but at least one).
    pub open spec fn spec_from_size(size: TerminalSize) -> (u16, u16) {
        (size.spec_cols(), at_least_one(size.spec_rows() - 1) as u16)
    }

    #[verifier::when_used_as_spec(spec_cols)]
    pub fn cols(&self) -> (r: u16)
        ensures
            r == self.spec_cols(),
            r >= 1,
    {
        proof {
            use_type_invariant(self);
        }
        self.cols
    }

    #[verifier::when_used_as_spec(spec_rows)]
    pub fn rows(&self) -> (r: u16)
        ensures
            r == self.spec_rows(),
            r >= 1,
    {
        proof {
            use_type_invariant(self);
        }
        self.rows
    }

    /// The size of a single full-width pane occupying the entire content area.
    pub fn full_size(&self) -> (r: PaneSize)
        ensures
            r.spec_cols() == self.spec_cols(),
            r.spec_rows() == self.spec_rows(),
    {
        proof {
            use_type_invariant(self);
        }
        PaneSize { cols: self.cols, rows: self.rows }
    }

    /// Divides the content area evenly into `n` panes separated by 1-column dividers.
    /// Returns one `PaneSize` per pane; the last pane absorbs any remainder columns.
    /// The layout divides by the pane count as a 16-bit number, so a count that is a
    /// nonzero multiple of 2^16 cannot be laid out.
    pub fn split_horizontal(&self, n: usize) -> (r: Vec<PaneSize>)
        requires
            n == 0 || split_divisor(n) != 0,
        ensures
            r.len() == n,
            forall|i: int|
                0 <= i < n ==> {
                    &&& (#[trigger] r@[i]).spec_cols() == split_width(self.spec_cols() as int, n, i)
                    &&& r@[i].spec_rows() == self.spec_rows()
                },
    {
        proof {
            use_type_invariant(self);
        }
        let mut out: Vec<PaneSize> = Vec::new();
        if n == 0 {
            return out;
        }
        let (base_w, last_w) = pane_widths(self.cols, n);
        let mut i: usize = 0;
        while i < n
            invariant
                0 <= i <= n,
                n >= 1,
                split_divisor(n) != 0,
                self.rows >= 1,
                base_w == split_base_width(self.cols as int, split_divisor(n)),
                last_w == split_last_width(self.cols as int, split_divisor(n)),
                base_w >= 1,
                last_w >= 1,
                out.len() == i,
                forall|j: int|
                    0 <= j < i ==> {
                        &&& (#[trigger] out@[j]).spec_cols() == split_width(
                            self.spec_cols() as int,
                            n,
                            j,
                        )
                        &&& out@[j].spec_rows() == self.spec_rows()
                    },
            decreases n - i,
        {
            let w: u16 = if i == n - 1 {
                last_w
            } else {
                base_w
            };
            out.push(PaneSize { cols: w, rows: self.rows });
            i = i + 1;
        }
        out
    }
}

/// `(base_w, last_w)`: the width for all-but-last panes and the last pane, given
/// `total_cols` and `n` panes separated by single-column dividers.
pub(crate) fn pane_widths(total_cols: u16, n: usize) -> (r: (u16, u16))
    requires
        split_divisor(n) != 0,
    ensures
        r.0 == split_base_width(total_cols as int, split_divisor(n)),
        r.1 == split_last_width(total_cols as int, split_divisor(n)),
        r.0 >= 1,
        r.1 >= 1,
{
    let d: u16 = (n % 65536) as u16;
    let dividers: u16 = if d >= 1 {
        d - 1
    } else {
        0
    };
    let available: u16 = if total_cols >= dividers {
        total_cols - dividers
    } else {
        0
    };
    let share: u16 = available / d;
    let base_w: u16 = if share >= 1 {
        share
    } else {
        1
    };
    assert(base_w * (d - 1) <= u16::MAX) by {
        if share >= 1 {
            assert((available / d) * (d - 1) <= available) by (nonlinear_arith)
                requires
                    d >= 1,
                    available >= 0,
            ;
        }
    }
    let used: u16 = base_w * (d - 1);
    let rest: u16 = if available >= used {
        available - used
    } else {
        0
    };
    let last_w: u16 = if rest >= 1 {
        rest
    } else {
        1
    };
    (base_w, last_w)
}

impl vstd::std_specs::convert::FromSpecImpl<TerminalSize> for ContentArea {
    open spec fn obeys_from_spec() -> bool {
        true
    }

    open spec fn from_spec(size: TerminalSize) -> ContentArea {
        ContentArea::spec_new(
            ContentArea::spec_from_size(size).0,
            ContentArea::spec_from_size(size).1,
        )
    }
}

impl ContentArea {
    /// The area with the given dimensions, as a value.
    pub closed spec fn spec_new(cols: u16, rows: u16) -> ContentArea {
        ContentArea { cols, rows }
    }
}

impl From<TerminalSize> for ContentArea {
    fn from(size: TerminalSize) -> (r: ContentArea)
        ensures
            r.spec_cols() == ContentArea::spec_from_size(size).0,
            r.spec_rows() == ContentArea::spec_from_size(size).1,
    {
        let cols = size.cols();
        let rows = size.rows();
        let below_bar: u16 = rows - 1;
        ContentArea {
            cols,
            rows: if below_bar >= 1 {
                below_bar
            } else {
                1
            },
        }
    }
}

/// The dimensions of a single pane within the content area.
/// Guaranteed to be at least 1×1.
#[derive(Debug, Clone, Copy, PartialEq, Eq)]
pub struct PaneSize {
    cols: u16,
    rows: u16,
}

impl PaneSize {
    #[verifier::type_invariant]
    spec fn inv(self) -> bool {
        self.cols >= 1 && self.rows >= 1
    }

    pub closed spec fn spec_cols(&self) -> u16 {
        self.cols
    }

    pub closed spec fn spec_rows(&self) -> u16 {
        self.rows
    }

    #[verifier::when_used_as_spec(spec_cols)]
    pub fn cols(&self) -> (r: u16)
        ensures
            r == self.spec_cols(),
            r >= 1,
    {
        proof {
            use_type_invariant(self);
        }
        self.cols
    }

    #[verifier::when_used_as_spec(spec_rows)]
    pub fn rows(&self) -> (r: u16)
        ensures
            r == self.spec_rows(),
            r >= 1,
    {
        proof {
            use_type_invariant(self);
        }
        self.rows
    }
}

/// The horizontal offset, in columns, of a pane from the left edge of the terminal.
#[derive(Debug, Clone, Copy, PartialEq, Eq)]
pub struct ColOffset(u16);

impl ColOffset {
    pub closed spec fn spec_value(&self) -> u16 {
        self.0
    }

    pub fn zero() -> (r: Self)
        ensures
            r.spec_value() == 0,
    {
        ColOffset(0)
    }

    /// Advance by a pane width plus a 1-column divider (saturating at `u16::MAX`).
    pub fn advance_past_pane(self, pane_width: u16) -> (r: Self)
        ensures
            r.spec_value() == if self.spec_value() + pane_width + 1 <= u16::MAX {
                self.spec_value() + pane_width + 1
            } else {
                u16::MAX as int
            },
    {
        let a: u16 = if self.0 as u32 + pane_width as u32 <= 65535 {
            self.0 + pane_width
        } else {
            65535
        };
        let b: u16 = if a < 65535 {
            a + 1
        } else {
            65535
        };
        ColOffset(b)
    }

    /// The offset in columns.
    pub fn value(self) -> (r: u16)
        ensures
            r == self.spec_value(),
    {
        self.0
    }
}

impl vstd::std_specs::convert::FromSpecImpl<ColOffset> for u16 {
    open spec fn obeys_from_spec() -> bool {
        true
    }

    open spec fn from_spec(o: ColOffset) -> u16 {
        o.spec_value()
    }
}

impl From<ColOffset> for u16 {
    fn from(o: ColOffset) -> (r: u16)
        ensures
            r == o.spec_value(),
    {
        o.0
    }
}

/// Law: when every one of `n` panes can get at least one column (`2n - 1 <= cols`),
/// the split widths together with the `n - 1` dividers fill the columns exactly.
pub proof fn lemma_split_fills_width(cols: u16, n: usize)
    requires
        1 <= n <= 65535,
        2 * n - 1 <= cols,
    ensures
        split_total_width(cols as int, n, n as nat) + (n - 1) == cols,
{
    let d = split_divisor(n);
    assert(d == n);
    let avail = split_available(cols as int, d);
    assert(avail == cols - (n - 1));
    assert(avail >= n);
    let base = split_base_width(cols as int, d);
    assert(avail / d >= 1) by (nonlinear_arith)
        requires
            avail >= d,
            d >= 1,
    ;
    assert(base == avail / d);
    assert(base * (d - 1) <= avail) by (nonlinear_arith)
        requires
            base == avail / d,
            d >= 1,
            avail >= 0,
    ;
    lemma_split_prefix(cols, n, (n - 1) as nat);
    assert(split_total_width(cols as int, n, (n - 1) as nat) == (n - 1) * base);
    assert(split_last_width(cols as int, d) == avail - base * (d - 1)) by {
        assert(avail - base * (d - 1) >= base) by (nonlinear_arith)
            requires
                base == avail / d,
                d >= 1,
                avail >= d,
        ;
    }
    assert(split_total_width(cols as int, n, n as nat) == split_total_width(
        cols as int,
        n,
        (n - 1) as nat,
    ) + split_width(cols as int, n, n - 1));
    assert((n - 1) * base == base * (d - 1)) by (nonlinear_arith)
        requires
            d == n,
    ;
}

/// Law: every pane of a split is at least one column wide.
pub proof fn lemma_split_widths_positive(cols: u16, n: usize, i: int)
    requires
        0 <= i < n,
        split_divisor(n) != 0,
    ensures
        split_width(cols as int, n, i) >= 1,
{
}

proof fn lemma_split_prefix(cols: u16, n: usize, k: nat)
    requires
        k <= n - 1,
        n >= 1,
    ensures
        split_total_width(cols as int, n, k) == k * split_base_width(
            cols as int,
            split_divisor(n),
        ),
    decreases k,
{
    if k > 0 {
        lemma_split_prefix(cols, n, (k - 1) as nat);
        let b = split_base_width(cols as int, split_divisor(n));
        assert(split_width(cols as int, n, k - 1) == b);
        assert(split_total_width(cols as int, n, k) == split_total_width(cols as int, n, (k - 1) as nat) + b);
        assert((k - 1) * b + b == k * b) by (nonlinear_arith);
        assert(split_total_width(cols as int, n, k) == k * b);
    } else {
        let b = split_base_width(cols as int, split_divisor(n));
        assert(k * b == 0) by (nonlinear_arith)
            requires
                k == 0,
        ;
    }
}


/// Every split width fits in the terminal's columns (so in 16 bits), when there is at least
/// one column.
pub proof fn lemma_split_width_bound(cols: u16, n: usize, i: int)
    requires
        0 <= i < n,
        split_divisor(n) != 0,
        cols >= 1,
    ensures
        1 <= split_width(cols as int, n, i) <= cols,
{
    let d = split_divisor(n);
    let avail = split_available(cols as int, d);
    assert(avail <= cols);
    assert(avail / d <= avail) by (nonlinear_arith)
        requires
            d >= 1,
            avail >= 0,
    ;
}

} // verus!
