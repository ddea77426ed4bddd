//! Tabs of panes: which tab and pane are active, opening, splitting, closing (with undo),
//! pruning panes whose shells exited, naming, and laying panes out side by side.
use vstd::prelude::*;

use crate::pane::{auto_name, title_view, Pane};
use crate::size::{split_divisor, split_width, ColOffset, ContentArea, PaneSize, TerminalSize};

verus! {

/// The position of a tab in the tab bar, counted from 0.
#[derive(Debug, Clone, Copy, PartialEq, Eq)]
pub struct TabIndex(usize);

impl TabIndex {
    pub closed spec fn spec_index(&self) -> usize {
        self.0
    }
}

impl vstd::std_specs::convert::FromSpecImpl<usize> for TabIndex {
    open spec fn obeys_from_spec() -> bool {
        false
    }

    open spec fn from_spec(n: usize) -> TabIndex {
        arbitrary()
    }
}

impl From<usize> for TabIndex {
    fn from(n: usize) -> (r: Self)
        ensures
            r.spec_index() == n,
    {
        TabIndex(n)
    }
}

impl vstd::std_specs::convert::FromSpecImpl<TabIndex> for usize {
    open spec fn obeys_from_spec() -> bool {
        true
    }

    open spec fn from_spec(t: TabIndex) -> usize {
        t.spec_index()
    }
}

impl From<TabIndex> for usize {
    fn from(t: TabIndex) -> (r: usize)
        ensures
            r == t.spec_index(),
    {
        t.0
    }
}

/// Whether a tab is the active one.
#[derive(Debug, Clone, Copy, PartialEq, Eq)]
pub enum TabActiveState {
    Active,
    Inactive,
}

impl vstd::std_specs::convert::FromSpecImpl<bool> for TabActiveState {
    open spec fn obeys_from_spec() -> bool {
        true
    }

    open spec fn from_spec(value: bool) -> TabActiveState {
        if value {
            TabActiveState::Active
        } else {
            TabActiveState::Inactive
        }
    }
}

impl From<bool> for TabActiveState {
    fn from(value: bool) -> (r: Self)
        ensures
            r == (if value {
                TabActiveState::Active
            } else {
                TabActiveState::Inactive
            }),
    {
        if value {
            return TabActiveState::Active;
        }
        TabActiveState::Inactive
    }
}

/// A tab's contents as a value: its panes, the active one, and the name it was given.
pub struct TabView {
    pub panes: Seq<Pane>,
    pub active_pane: usize,
    pub name: Option<Seq<char>>,
}

impl TabView {
    /// At least one pane (and no more than a 16-bit count), and the active one among them.
    pub open spec fn wf(self) -> bool {
        &&& 1 <= self.panes.len() <= 65535
        &&& self.active_pane < self.panes.len()
    }

    /// The name shown in the tab bar: the given name, else the active pane's own name.
    pub open spec fn display_name(self) -> Seq<char> {
        match self.name {
            Some(n) => n,
            None => self.panes[self.active_pane as int].spec_auto_name(),
        }
    }
}

/// A tab holding just `pane`, unnamed.
pub open spec fn tab_of(pane: Pane) -> TabView {
    TabView { panes: seq![pane], active_pane: 0, name: None }
}

/// `p` with the given size.
pub open spec fn resized(p: Pane, width: int, height: int) -> Pane {
    Pane { id: p.id, width: width as u16, height: height as u16, title: p.title, exited: p.exited, cwd: p.cwd }
}

/// `panes` laid out side by side over the content area of a terminal of size `size`.
pub open spec fn laid_out(panes: Seq<Pane>, size: TerminalSize) -> Seq<Pane> {
    let area = ContentArea::spec_from_size(size);
    Seq::new(
        panes.len(),
        |i: int| resized(panes[i], split_width(area.0 as int, panes.len() as usize, i), area.1 as int),
    )
}

/// A tab: one or more panes side by side, one of them active, and an optional name.
pub struct Tab {
    pub panes: Vec<Pane>,
    pub active_pane: usize,
    pub name: Option<String>,
}

impl View for Tab {
    type V = TabView;

    open spec fn view(&self) -> TabView {
        TabView { panes: self.panes@, active_pane: self.active_pane, name: title_view(self.name) }
    }
}

impl Tab {
    pub fn new(pane: Pane) -> (r: Self)
        ensures
            r@ == tab_of(pane),
    {
        let mut panes: Vec<Pane> = Vec::new();
        panes.push(pane);
        Tab { panes, active_pane: 0, name: None }
    }

    /// The name shown in the tab bar.
    /// - Explicit name (`Some`) is shown as-is.
    /// - Auto-named (`None`): the active pane's window title, or its starting directory.
    pub fn display_name(&self) -> (r: String)
        requires
            self@.wf(),
        ensures
            r@ == self@.display_name(),
    {
        if let Some(name) = &self.name {
            return name.clone();
        }
        self.panes[self.active_pane].get_auto_name()
    }
}

/// The tabs as values, with the active index.
pub struct TabSetView {
    pub tabs: Seq<TabView>,
    pub active: usize,
}

impl TabSetView {
    /// At least one tab, the active one among them, every tab well formed.
    pub open spec fn wf(self) -> bool {
        &&& self.tabs.len() >= 1
        &&& self.active < self.tabs.len()
        &&& forall|i: int| 0 <= i < self.tabs.len() ==> (#[trigger] self.tabs[i]).wf()
    }
}

/// The ordered tabs and which one is active.
pub struct TabSet {
    tabs: Vec<Tab>,
    active: usize,
}

impl View for TabSet {
    type V = TabSetView;

    closed spec fn view(&self) -> TabSetView {
        TabSetView { tabs: self.tabs@.map_values(|t: Tab| t@), active: self.active }
    }
}

/// The index after `i` among `n`, wrapping to the first.
pub open spec fn next_index(i: int, n: int) -> int {
    (i + 1) % n
}

/// The index before `i` among `n`, wrapping to the last.
pub open spec fn prev_index(i: int, n: int) -> int {
    if i > 0 {
        i - 1
    } else {
        crate::size::sat_sub(n, 1)
    }
}

/// The active index once the tab at `removed` is taken out of `n` tabs: the tab after it
/// takes its place, or the one before where it was the last.
pub open spec fn active_after_removal(active: int, removed: int, n: int) -> int {
    if active >= n - 1 {
        crate::size::sat_sub(n - 1, 1)
    } else if active > removed {
        active - 1
    } else {
        active
    }
}

impl TabSet {
    proof fn lemma_view(&self)
        ensures
            self@.tabs.len() == self.tabs@.len(),
            self@.active == self.active,
            forall|i: int| 0 <= i < self.tabs@.len() ==> #[trigger] self@.tabs[i] == self.tabs@[i]@,
    {
    }

    pub fn new(first: Tab) -> (r: Self)
        requires
            first@.wf(),
        ensures
            r@.tabs == seq![first@],
            r@.active == 0,
            r@.wf(),
    {
        let mut tabs: Vec<Tab> = Vec::new();
        tabs.push(first);
        let r = TabSet { tabs, active: 0 };
        assert(r@.tabs =~= seq![first@]);
        r
    }

    pub fn active(&self) -> (r: &Tab)
        requires
            self@.wf(),
        ensures
            r@ == self@.tabs[self@.active as int],
    {
        proof {
            self.lemma_view();
        }
        &self.tabs[self.active]
    }

    /// The active tab, to change in place.
    pub fn active_mut(&mut self) -> (r: &mut Tab)
        requires
            old(self)@.wf(),
        ensures
            r@ == old(self)@.tabs[old(self)@.active as int],
            final(self)@.tabs == old(self)@.tabs.update(old(self)@.active as int, final(r)@),
            final(self)@.active == old(self)@.active,
    {
        proof {
            self.lemma_view();
        }
        let a = self.active;
        &mut self.tabs[a]
    }

    pub fn active_index(&self) -> (r: TabIndex)
        ensures
            r.spec_index() == self@.active,
    {
        TabIndex::from(self.active)
    }

    pub fn len(&self) -> (r: usize)
        ensures
            r == self@.tabs.len(),
    {
        proof {
            self.lemma_view();
        }
        self.tabs.len()
    }

    /// Each tab with whether it is the active one, in order.
    pub fn iter(&self) -> (r: Vec<(TabActiveState, &Tab)>)
        ensures
            r.len() == self@.tabs.len(),
            forall|i: int|
                0 <= i < r.len() ==> {
                    &&& (#[trigger] r@[i]).0 == (if i == self@.active {
                        TabActiveState::Active
                    } else {
                        TabActiveState::Inactive
                    })
                    &&& r@[i].1@ == self@.tabs[i]
                },
    {
        proof {
            self.lemma_view();
        }
        let mut out: Vec<(TabActiveState, &Tab)> = Vec::new();
        let mut i: usize = 0;
        while i < self.tabs.len()
            invariant
                0 <= i <= self.tabs.len(),
                out.len() == i,
                self@.tabs.len() == self.tabs@.len(),
                self@.active == self.active,
                forall|k: int| 0 <= k < self.tabs@.len() ==> #[trigger] self@.tabs[k] == self.tabs@[k]@,
                forall|k: int|
                    0 <= k < i ==> {
                        &&& (#[trigger] out@[k]).0 == (if k == self@.active {
                            TabActiveState::Active
                        } else {
                            TabActiveState::Inactive
                        })
                        &&& out@[k].1@ == self@.tabs[k]
                    },
            decreases self.tabs.len() - i,
        {
            out.push((TabActiveState::from(i == self.active), &self.tabs[i]));
            i = i + 1;
        }
        out
    }

    pub fn push_and_activate(&mut self, tab: Tab)
        requires
            old(self)@.wf(),
            tab@.wf(),
        ensures
            final(self)@.tabs == old(self)@.tabs.push(tab@),
            final(self)@.active == old(self)@.tabs.len(),
            final(self)@.wf(),
    {
        proof {
            self.lemma_view();
        }
        let ghost t = tab@;
        self.tabs.push(tab);
        self.active = self.tabs.len() - 1;
        proof {
            self.lemma_view();
            assert(self@.tabs =~= old(self)@.tabs.push(t));
        }
    }

    pub fn switch_to(&mut self, index: TabIndex)
        requires
            old(self)@.wf(),
        ensures
            final(self)@.wf(),
            final(self)@.tabs == old(self)@.tabs,
            final(self)@.active == if index.spec_index() < old(self)@.tabs.len() {
                index.spec_index()
            } else {
                old(self)@.active
            },
    {
        proof {
            self.lemma_view();
        }
        let i = usize::from(index);
        if i < self.tabs.len() {
            self.active = i;
        }
    }

    pub fn switch_next(&mut self)
        requires
            old(self)@.wf(),
        ensures
            final(self)@.tabs == old(self)@.tabs,
            final(self)@.active == next_index(old(self)@.active as int, old(self)@.tabs.len() as int),
            final(self)@.wf(),
    {
        proof {
            self.lemma_view();
        }
        let n = self.tabs.len();
        assert(self.active < n);
        self.active = (self.active + 1) % n;
    }

    pub fn switch_prev(&mut self)
        requires
            old(self)@.wf(),
        ensures
            final(self)@.tabs == old(self)@.tabs,
            final(self)@.active == prev_index(old(self)@.active as int, old(self)@.tabs.len() as int),
            final(self)@.wf(),
    {
        proof {
            self.lemma_view();
        }
        self.active = if self.active > 0 {
            self.active - 1
        } else {
            self.tabs.len() - 1
        };
    }

    /// Takes the active tab out, unless it is the only one.
    pub fn remove_active(&mut self) -> (r: Option<Tab>)
        requires
            old(self)@.wf(),
        ensures
            final(self)@.wf(),
            old(self)@.tabs.len() == 1 ==> (r is None && final(self)@ == old(self)@),
            old(self)@.tabs.len() > 1 ==> {
                &&& r matches Some(t) && t@ == old(self)@.tabs[old(self)@.active as int]
                &&& final(self)@.tabs == old(self)@.tabs.remove(old(self)@.active as int)
                &&& final(self)@.active == active_after_removal(
                    old(self)@.active as int,
                    old(self)@.active as int,
                    old(self)@.tabs.len() as int,
                )
            },
    {
        proof {
            self.lemma_view();
        }
        if self.tabs.len() == 1 {
            return None;
        }
        let ghost before = self@;
        let tab = self.tabs.remove(self.active);
        if self.active >= self.tabs.len() {
            self.active = self.tabs.len() - 1;
        }
        proof {
            self.lemma_view();
            assert(self@.tabs =~= before.tabs.remove(before.active as int));
        }
        Some(tab)
    }

    /// Takes out the tab at `idx`, keeping the active tab where it was where it remains.
    pub fn remove_at(&mut self, idx: usize) -> (r: Tab)
        requires
            old(self)@.wf(),
            idx < old(self)@.tabs.len(),
        ensures
            r@ == old(self)@.tabs[idx as int],
            final(self)@.tabs == old(self)@.tabs.remove(idx as int),
            final(self)@.active == active_after_removal(
                old(self)@.active as int,
                idx as int,
                old(self)@.tabs.len() as int,
            ),
            old(self)@.tabs.len() > 1 ==> final(self)@.wf(),
    {
        proof {
            self.lemma_view();
        }
        let ghost before = self@;
        let tab = self.tabs.remove(idx);
        if self.active >= self.tabs.len() {
            self.active = if self.tabs.len() >= 1 {
                self.tabs.len() - 1
            } else {
                0
            };
        } else if self.active > idx {
            self.active = self.active - 1;
        }
        proof {
            self.lemma_view();
            assert(self@.tabs =~= before.tabs.remove(idx as int));
        }
        tab
    }

    /// Tab `idx`, to change in place, if there is one.
    pub fn get_mut(&mut self, idx: usize) -> (r: Option<&mut Tab>)
        ensures
            final(self)@.active == old(self)@.active,
            match r {
                Some(t) => {
                    &&& idx < old(self)@.tabs.len()
                    &&& t@ == old(self)@.tabs[idx as int]
                    &&& final(self)@.tabs == old(self)@.tabs.update(idx as int, final(t)@)
                },
                None => idx >= old(self)@.tabs.len() && final(self)@.tabs == old(self)@.tabs,
            },
    {
        proof {
            self.lemma_view();
        }
        if idx < self.tabs.len() {
            Some(&mut self.tabs[idx])
        } else {
            None
        }
    }

    pub fn get(&self, idx: usize) -> (r: Option<&Tab>)
        ensures
            idx < self@.tabs.len() ==> (r matches Some(t) && t@ == self@.tabs[idx as int]),
            idx >= self@.tabs.len() ==> r is None,
    {
        proof {
            self.lemma_view();
        }
        if idx < self.tabs.len() {
            Some(&self.tabs[idx])
        } else {
            None
        }
    }
}

/// The panes among the first `k` of `panes` whose shells have not exited, in order.
pub open spec fn live_prefix(panes: Seq<Pane>, k: int) -> Seq<Pane>
    decreases k,
{
    if k <= 0 {
        Seq::empty()
    } else if panes[k - 1].exited {
        live_prefix(panes, k - 1)
    } else {
        live_prefix(panes, k - 1).push(panes[k - 1])
    }
}

/// A tab's panes whose shells have not exited, in order.
pub open spec fn live_panes(panes: Seq<Pane>) -> Seq<Pane> {
    live_prefix(panes, panes.len() as int)
}

/// Whether every pane of a tab has exited (so the whole tab closes).
pub open spec fn all_exited(t: TabView) -> bool {
    live_panes(t.panes).len() == 0
}

/// The active pane once the exited panes are dropped: the same pane where its shell runs
/// on, else the next remaining one, or the last.
pub open spec fn pruned_active(t: TabView) -> int {
    let k = live_prefix(t.panes, t.active_pane as int).len() as int;
    let n = live_panes(t.panes).len() as int;
    if k < n {
        k
    } else {
        n - 1
    }
}

/// A tab with its exited panes dropped, the active pane kept (see `pruned_active`), and,
/// where panes were dropped, the rest laid out anew.
pub open spec fn pruned(t: TabView, size: TerminalSize) -> TabView {
    let live = live_panes(t.panes);
    TabView {
        panes: if live.len() < t.panes.len() {
            laid_out(live, size)
        } else {
            t.panes
        },
        active_pane: pruned_active(t) as usize,
        name: t.name,
    }
}

proof fn lemma_live_prefix_len(panes: Seq<Pane>, k: int)
    requires
        0 <= k <= panes.len(),
    ensures
        live_prefix(panes, k).len() <= k,
        live_prefix(panes, k).len() == k ==> live_prefix(panes, k) == panes.take(k),
        forall|i: int| 0 <= i < live_prefix(panes, k).len() ==> !(#[trigger] live_prefix(panes, k)[i]).exited,
        live_prefix(panes, k).len() == 0 <==> forall|i: int| 0 <= i < k ==> (#[trigger] panes[i]).exited,
    decreases k,
{
    if k > 0 {
        lemma_live_prefix_len(panes, k - 1);
        if live_prefix(panes, k).len() == k {
            assert(!panes[k - 1].exited);
            assert(live_prefix(panes, k) =~= panes.take(k));
        }
        if live_prefix(panes, k).len() == 0 {
            assert forall|i: int| 0 <= i < k implies (#[trigger] panes[i]).exited by {
                if i == k - 1 {
                }
            }
        }
    }
}

proof fn lemma_live_prefix_mono(panes: Seq<Pane>, a: int, b: int)
    requires
        0 <= a <= b <= panes.len(),
    ensures
        live_prefix(panes, a).len() <= live_prefix(panes, b).len(),
        live_prefix(panes, b).len() <= live_prefix(panes, a).len() + (b - a),
        forall|i: int| 0 <= i < live_prefix(panes, a).len() ==> #[trigger] live_prefix(panes, b)[i] == live_prefix(panes, a)[i],
    decreases b - a,
{
    if a < b {
        lemma_live_prefix_mono(panes, a, b - 1);
        let pa = live_prefix(panes, a);
        let pb = live_prefix(panes, b);
        let pb1 = live_prefix(panes, b - 1);
        assert forall|i: int| 0 <= i < pa.len() implies #[trigger] pb[i] == pa[i] by {
            assert(pb1[i] == pa[i]);
            if !panes[b - 1].exited {
                assert(pb == pb1.push(panes[b - 1]));
            }
        }
    }
}

/// A running pane keeps its place among the running panes: it is the one after those
/// running before it.
proof fn lemma_live_index(panes: Seq<Pane>, a: int, k: int)
    requires
        0 <= a < k <= panes.len(),
        !panes[a].exited,
    ensures
        live_prefix(panes, a).len() < live_prefix(panes, k).len(),
        live_prefix(panes, k)[live_prefix(panes, a).len() as int] == panes[a],
{
    assert(live_prefix(panes, a + 1) == live_prefix(panes, a).push(panes[a]));
    lemma_live_prefix_mono(panes, a + 1, k);
}

impl Tab {
    /// Whether some pane's shell is still running.
    fn has_live_pane(&self) -> (r: bool)
        ensures
            r == !all_exited(self@),
    {
        let ghost panes = self@.panes;
        let mut i: usize = 0;
        while i < self.panes.len()
            invariant
                panes == self@.panes,
                0 <= i <= panes.len(),
                live_prefix(panes, i as int).len() == 0,
            decreases panes.len() - i,
        {
            if !self.panes[i].exited {
                proof {
                    assert(live_prefix(panes, i + 1) == live_prefix(panes, i as int).push(panes[i as int]));
                    lemma_live_prefix_mono(panes, i + 1, panes.len() as int);
                }
                return true;
            }
            i = i + 1;
        }
        false
    }

    /// Drops the panes whose shells exited, keeping the active pane where its shell runs
    /// on (else moving to the next remaining one, or the last). Returns whether any pane
    /// was dropped.
    fn prune_exited(&mut self) -> (changed: bool)
        requires
            old(self)@.wf(),
            !all_exited(old(self)@),
        ensures
            final(self)@.panes == live_panes(old(self)@.panes),
            final(self)@.active_pane == pruned_active(old(self)@),
            final(self)@.name == old(self)@.name,
            changed == (live_panes(old(self)@.panes).len() < old(self)@.panes.len()),
            final(self)@.wf(),
    {
        let ghost orig = self.panes@;
        let ghost a = self.active_pane as int;
        let ghost n = orig.len() as int;
        let ghost total = live_panes(orig).len() as int;
        let mut changed = false;
        let mut pi: usize = 0;
        let ghost mut j: int = 0;
        proof {
            assert(self.panes@ =~= live_prefix(orig, 0) + orig.subrange(0, n));
        }
        while pi < self.panes.len()
            invariant
                n == orig.len(),
                1 <= n <= 65535,
                0 <= a < n,
                0 <= j <= n,
                total == live_prefix(orig, n).len(),
                total >= 1,
                pi == live_prefix(orig, j).len(),
                self.panes@ == live_prefix(orig, j) + orig.subrange(j, n),
                self.active_pane == (if a >= j {
                    a - (j - pi)
                } else {
                    let k = live_prefix(orig, a).len() as int;
                    let last = pi + (n - j) - 1;
                    if k < last {
                        k
                    } else {
                        last
                    }
                }),
                changed == (pi < j),
                self.name == old(self).name,
            decreases n - j,
        {
            proof {
                lemma_live_prefix_len(orig, j);
                if j >= n {
                    assert(self.panes@.len() == pi);
                }
            }
            assert(self.panes@[pi as int] == orig[j]);
            if self.panes[pi].exited {
                proof {
                    assert(live_prefix(orig, j + 1) == live_prefix(orig, j));
                    lemma_live_prefix_mono(orig, j + 1, n);
                    if a < j {
                        lemma_live_prefix_mono(orig, a, j);
                    }
                }
                self.panes.remove(pi);
                changed = true;
                assert(self.panes.len() >= 1);
                if self.active_pane > pi && self.active_pane > 0 {
                    self.active_pane = self.active_pane - 1;
                } else if self.active_pane >= self.panes.len() {
                    self.active_pane = self.panes.len() - 1;
                }
                proof {
                    assert(self.panes@ =~= live_prefix(orig, j + 1) + orig.subrange(j + 1, n));
                    j = j + 1;
                }
            } else {
                pi = pi + 1;
                proof {
                    assert(live_prefix(orig, j + 1) == live_prefix(orig, j).push(orig[j]));
                    assert(self.panes@ =~= live_prefix(orig, j + 1) + orig.subrange(j + 1, n));
                    if a < j {
                        lemma_live_prefix_mono(orig, a, j);
                    }
                    j = j + 1;
                }
            }
        }
        proof {
            lemma_live_prefix_len(orig, j);
            if j < n {
                lemma_live_prefix_mono(orig, j, n);
            }
            assert(j == n);
            assert(self.panes@ =~= live_panes(orig));
            lemma_live_prefix_mono(orig, a, n);
        }
        changed
    }

    /// Lays the panes out side by side over the content area of a terminal of size `size`.
    fn relayout(&mut self, size: TerminalSize)
        requires
            old(self)@.wf(),
        ensures
            final(self)@.panes == laid_out(old(self)@.panes, size),
            final(self)@.active_pane == old(self)@.active_pane,
            final(self)@.name == old(self)@.name,
            final(self)@.wf(),
    {
        let n = self.panes.len();
        let area = ContentArea::from(size);
        let sizes = area.split_horizontal(n);
        let ghost orig = self.panes@;
        let mut i: usize = 0;
        while i < n
            invariant
                n == orig.len(),
                1 <= n <= 65535,
                sizes.len() == n,
                self.panes@.len() == n,
                0 <= i <= n,
                area.spec_cols() == ContentArea::spec_from_size(size).0,
                area.spec_rows() == ContentArea::spec_from_size(size).1,
                forall|k: int|
                    0 <= k < n ==> {
                        &&& (#[trigger] sizes@[k]).spec_cols() == split_width(area.spec_cols() as int, n, k)
                        &&& sizes@[k].spec_rows() == area.spec_rows()
                    },
                forall|k: int| 0 <= k < i ==> #[trigger] self.panes@[k] == laid_out(orig, size)[k],
                forall|k: int| i <= k < n ==> #[trigger] self.panes@[k] == orig[k],
                self.active_pane == old(self).active_pane,
                self.name == old(self).name,
            decreases n - i,
        {
            self.panes[i].resize(sizes[i]);
            i = i + 1;
        }
        proof {
            assert(self.panes@ =~= laid_out(orig, size));
        }
    }
}

/// How long a closed tab can be brought back, in nanoseconds (ten seconds).
pub const UNDO_TIMEOUT_NANOS: u64 = 10_000_000_000;

/// Why a closed tab could not be brought back.
#[derive(Debug)]
pub enum UndoCloseError {
    NoPendingClosures,
}

/// The whole state as values: the tabs, the terminal size, and the closed tabs that can
/// still be brought back, each with the time (in nanoseconds) it was closed.
pub struct ManagerView {
    pub tabs: TabSetView,
    pub size: TerminalSize,
    pub pending: Seq<(TabView, u64)>,
}

impl ManagerView {
    pub open spec fn wf(self) -> bool {
        &&& self.tabs.wf()
        &&& forall|i: int| 0 <= i < self.pending.len() ==> (#[trigger] self.pending[i]).0.wf()
    }

    /// The active tab.
    pub open spec fn active_tab(self) -> TabView {
        self.tabs.tabs[self.tabs.active as int]
    }

    /// The same state with the given tabs and active index.
    pub open spec fn with_tabs(self, tabs: Seq<TabView>, active: int) -> ManagerView {
        ManagerView { tabs: TabSetView { tabs, active: active as usize }, size: self.size, pending: self.pending }
    }

    /// The same state with the active tab replaced by `t`.
    pub open spec fn with_active_tab(self, t: TabView) -> ManagerView {
        self.with_tabs(self.tabs.tabs.update(self.tabs.active as int, t), self.tabs.active as int)
    }
}

/// Closing the active tab: refused (`true`) when it is the only tab; otherwise it is taken
/// out and kept, with the time `now`, for undo.
pub open spec fn close_active_tab_result(m: ManagerView, now: u64) -> (ManagerView, bool) {
    let a = m.tabs.active as int;
    let n = m.tabs.tabs.len() as int;
    if n == 1 {
        (m, true)
    } else {
        (
            ManagerView {
                tabs: TabSetView {
                    tabs: m.tabs.tabs.remove(a),
                    active: active_after_removal(a, a, n) as usize,
                },
                size: m.size,
                pending: m.pending.push((m.tabs.tabs[a], now)),
            },
            false,
        )
    }
}

/// Closing the active pane: where the tab has several, the pane goes (with no undo), the
/// next pane (or the new last) becomes active and the rest are laid out anew; where it is
/// the tab's only pane, the whole tab is closed.
pub open spec fn close_active_pane_result(m: ManagerView, now: u64) -> (ManagerView, bool) {
    let t = m.active_tab();
    if t.panes.len() > 1 {
        let panes = t.panes.remove(t.active_pane as int);
        let ap = if t.active_pane >= panes.len() {
            panes.len() - 1
        } else {
            t.active_pane as int
        };
        (
            m.with_active_tab(
                TabView { panes: laid_out(panes, m.size), active_pane: ap as usize, name: t.name },
            ),
            false,
        )
    } else {
        close_active_tab_result(m, now)
    }
}

/// Undoing a close at `now`: the closed tabs that can no longer be brought back are
/// forgotten (see `recent`); then the most recently closed of the rest comes back as the
/// last, active tab (`true`), or nothing more happens where none is left (`false`).
pub open spec fn undo_close_result(m: ManagerView, now: u64) -> (ManagerView, bool) {
    let kept = recent(m.pending, now);
    if kept.len() > 0 {
        let t = kept.last().0;
        (
            ManagerView {
                tabs: TabSetView { tabs: m.tabs.tabs.push(t), active: m.tabs.tabs.len() as usize },
                size: m.size,
                pending: kept.drop_last(),
            },
            true,
        )
    } else {
        (ManagerView { pending: kept, ..m }, false)
    }
}

/// Whether a tab closed at `closed_at` can still be brought back at `now`.
pub open spec fn still_undoable(now: u64, closed_at: u64) -> bool {
    crate::size::sat_sub(now as int, closed_at as int) < UNDO_TIMEOUT_NANOS
}

/// The closed tabs that can still be brought back at `now`, in order.
pub open spec fn recent(pending: Seq<(TabView, u64)>, now: u64) -> Seq<(TabView, u64)>
    decreases pending.len(),
{
    if pending.len() == 0 {
        pending
    } else if still_undoable(now, pending.last().1) {
        recent(pending.drop_last(), now).push(pending.last())
    } else {
        recent(pending.drop_last(), now)
    }
}

proof fn lemma_recent_wf(pending: Seq<(TabView, u64)>, now: u64)
    requires
        forall|i: int| 0 <= i < pending.len() ==> (#[trigger] pending[i]).0.wf(),
    ensures
        forall|i: int| 0 <= i < recent(pending, now).len() ==> (#[trigger] recent(pending, now)[i]).0.wf(),
    decreases pending.len(),
{
    if pending.len() > 0 {
        let d = pending.drop_last();
        assert forall|i: int| 0 <= i < d.len() implies (#[trigger] d[i]).0.wf() by {
            assert(d[i] == pending[i]);
        }
        lemma_recent_wf(d, now);
        assert(pending.last() == pending[pending.len() - 1]);
        let r = recent(pending, now);
        if still_undoable(now, pending.last().1) {
            assert(r == recent(d, now).push(pending.last()));
            assert forall|i: int| 0 <= i < r.len() implies (#[trigger] r[i]).0.wf() by {
                if i < r.len() - 1 {
                    assert(r[i] == recent(d, now)[i]);
                }
            }
        } else {
            assert(r == recent(d, now));
        }
    }
}

/// Focus moved to the next pane of the active tab (wrapping).
pub open spec fn focus_next_result(m: ManagerView) -> ManagerView {
    let t = m.active_tab();
    m.with_active_tab(TabView { active_pane: next_index(t.active_pane as int, t.panes.len() as int) as usize, ..t })
}

/// Focus moved to the previous pane of the active tab (wrapping).
pub open spec fn focus_prev_result(m: ManagerView) -> ManagerView {
    let t = m.active_tab();
    m.with_active_tab(TabView { active_pane: prev_index(t.active_pane as int, t.panes.len() as int) as usize, ..t })
}

/// The active tab named `name`.
pub open spec fn rename_result(m: ManagerView, name: Seq<char>) -> ManagerView {
    m.with_active_tab(TabView { name: Some(name), ..m.active_tab() })
}

/// The active tab's explicit name dropped.
pub open spec fn revert_name_result(m: ManagerView) -> ManagerView {
    m.with_active_tab(TabView { name: None, ..m.active_tab() })
}

/// Tab `index` made active, where there is such a tab.
pub open spec fn switch_to_result(m: ManagerView, index: usize) -> ManagerView {
    m.with_tabs(m.tabs.tabs, if index < m.tabs.tabs.len() {
        index as int
    } else {
        m.tabs.active as int
    })
}

/// The next tab made active (wrapping).
pub open spec fn switch_next_result(m: ManagerView) -> ManagerView {
    m.with_tabs(m.tabs.tabs, next_index(m.tabs.active as int, m.tabs.tabs.len() as int))
}

/// The previous tab made active (wrapping).
pub open spec fn switch_prev_result(m: ManagerView) -> ManagerView {
    m.with_tabs(m.tabs.tabs, prev_index(m.tabs.active as int, m.tabs.tabs.len() as int))
}

/// A pane just opened: terminal `id`, shell started in `cwd`, no title, still running.
pub open spec fn fresh_pane(p: Pane, id: u64, cwd: Seq<char>) -> bool {
    &&& p.id == id
    &&& p.title is None
    &&& !p.exited
    &&& p.spec_cwd() == cwd
}

/// A pane covering the whole content area of a terminal of size `size`.
pub open spec fn full_area_pane(p: Pane, size: TerminalSize) -> bool {
    &&& p.width == ContentArea::spec_from_size(size).0
    &&& p.height == ContentArea::spec_from_size(size).1
}

/// Opening a tab holding `p` (with the given name): it goes last and becomes active.
pub open spec fn open_tab_result(m: ManagerView, p: Pane, name: Option<Seq<char>>) -> ManagerView {
    m.with_tabs(m.tabs.tabs.push(TabView { name, ..tab_of(p) }), m.tabs.tabs.len() as int)
}

/// Splitting the active tab with `p`: it joins on the right, becomes active, and the tab
/// is laid out anew.
pub open spec fn split_result(m: ManagerView, p: Pane) -> ManagerView {
    let t = m.active_tab();
    relaid(m.with_active_tab(TabView { panes: t.panes.push(p), active_pane: t.panes.len() as usize, name: t.name }))
}

/// The column where pane `k` starts: each pane before it with its divider, saturating.
pub open spec fn col_offset(panes: Seq<Pane>, k: int) -> int
    decreases k,
{
    if k <= 0 {
        0
    } else {
        let o = col_offset(panes, k - 1) + panes[k - 1].width + 1;
        if o <= u16::MAX {
            o
        } else {
            u16::MAX as int
        }
    }
}

/// The first `k` tabs, pruned, without those whose panes all exited.
pub open spec fn survivors(tabs: Seq<TabView>, k: int, size: TerminalSize) -> Seq<TabView>
    decreases k,
{
    if k <= 0 {
        Seq::empty()
    } else if all_exited(tabs[k - 1]) {
        survivors(tabs, k - 1, size)
    } else {
        survivors(tabs, k - 1, size).push(pruned(tabs[k - 1], size))
    }
}

/// Closing what exited: every exited pane goes, the other panes staying in their tab and
/// order (see `pruned`); a tab goes when all its panes exited, the active tab moving to the
/// next remaining one (or the last). Where every pane exited no tab would remain: the
/// answer is `true` and nothing changes.
pub open spec fn close_exited_result(m: ManagerView) -> (ManagerView, bool) {
    let tabs = m.tabs.tabs;
    let n = tabs.len() as int;
    let s = survivors(tabs, n, m.size);
    if s.len() == 0 {
        (m, true)
    } else {
        let k = survivors(tabs, m.tabs.active as int, m.size).len() as int;
        (m.with_tabs(s, if k < s.len() {
            k
        } else {
            s.len() - 1
        }), false)
    }
}

/// The active tab with its panes laid out anew.
pub open spec fn relaid(m: ManagerView) -> ManagerView {
    let t = m.active_tab();
    m.with_active_tab(TabView { panes: laid_out(t.panes, m.size), active_pane: t.active_pane, name: t.name })
}

proof fn lemma_survivors_mono(tabs: Seq<TabView>, a: int, b: int, size: TerminalSize)
    requires
        0 <= a <= b <= tabs.len(),
    ensures
        survivors(tabs, a, size).len() <= survivors(tabs, b, size).len(),
        survivors(tabs, b, size).len() <= survivors(tabs, a, size).len() + (b - a),
        forall|i: int|
            0 <= i < survivors(tabs, a, size).len() ==> #[trigger] survivors(tabs, b, size)[i] == survivors(tabs, a, size)[i],
    decreases b - a,
{
    if a < b {
        lemma_survivors_mono(tabs, a, b - 1, size);
        let sa = survivors(tabs, a, size);
        let sb = survivors(tabs, b, size);
        let sb1 = survivors(tabs, b - 1, size);
        assert forall|i: int| 0 <= i < sa.len() implies #[trigger] sb[i] == sa[i] by {
            assert(sb1[i] == sa[i]);
            if !all_exited(tabs[b - 1]) {
                assert(sb == sb1.push(pruned(tabs[b - 1], size)));
            }
        }
    }
}

proof fn lemma_survivors_wf(tabs: Seq<TabView>, k: int, size: TerminalSize)
    requires
        0 <= k <= tabs.len(),
        forall|i: int| 0 <= i < tabs.len() ==> (#[trigger] tabs[i]).wf(),
    ensures
        forall|i: int| 0 <= i < survivors(tabs, k, size).len() ==> (#[trigger] survivors(tabs, k, size)[i]).wf(),
        survivors(tabs, k, size).len() <= k,
    decreases k,
{
    if k > 0 {
        lemma_survivors_wf(tabs, k - 1, size);
        if !all_exited(tabs[k - 1]) {
            lemma_pruned_wf(tabs[k - 1], size);
            let s = survivors(tabs, k, size);
            let s0 = survivors(tabs, k - 1, size);
            assert forall|i: int| 0 <= i < s.len() implies (#[trigger] s[i]).wf() by {
                if i < s0.len() {
                    assert(s[i] == s0[i]);
                }
            }
        }
    }
}

proof fn lemma_pruned_wf(t: TabView, size: TerminalSize)
    requires
        t.wf(),
        !all_exited(t),
    ensures
        pruned(t, size).wf(),
        pruned(t, size).name == t.name,
        pruned(t, size).panes.len() == live_panes(t.panes).len(),
{
    let n = t.panes.len() as int;
    lemma_live_prefix_len(t.panes, n);
}

/// Everything the manager tracks: the tabs, the terminal size, and the tabs closed
/// recently enough to be brought back, each with the time (in nanoseconds) it was closed.
pub struct PaneManager {
    pub tabs: TabSet,
    pub size: TerminalSize,
    pub pending_close: Vec<(Tab, u64)>,
}

impl View for PaneManager {
    type V = ManagerView;

    open spec fn view(&self) -> ManagerView {
        ManagerView {
            tabs: self.tabs@,
            size: self.size,
            pending: self.pending_close@.map_values(|e: (Tab, u64)| (e.0@, e.1)),
        }
    }
}

impl PaneManager {
    /// A manager for a terminal of size `size` with one tab holding `pane`, laid out over
    /// the whole content area.
    pub fn new(size: TerminalSize, pane: Pane) -> (r: Self)
        ensures
            r@.tabs.tabs == seq![tab_of(laid_out(seq![pane], size)[0])],
            same_pane(r@.tabs.tabs[0].panes[0], pane),
            full_area_pane(r@.tabs.tabs[0].panes[0], size),
            r@.tabs.active == 0,
            r@.size == size,
            r@.pending.len() == 0,
            r@.wf(),
    {
        let cols = size.cols();
        let area = ContentArea::from(size);
        let mut pane = pane;
        let ghost p0 = pane;
        pane.resize(area.full_size());
        proof {
            let l = laid_out(seq![p0], size);
            assert(split_width(cols as int, 1, 0) == cols);
            assert(pane == l[0]);
        }
        let r = PaneManager { tabs: TabSet::new(Tab::new(pane)), size, pending_close: Vec::new() };
        assert(r@.pending =~= Seq::<(TabView, u64)>::empty());
        r
    }

    /// Lays out the panes of tab `tab_idx` (if there is one) anew.
    fn resize_tab_panes(&mut self, tab_idx: usize)
        requires
            old(self)@.wf(),
        ensures
            final(self)@.wf(),
            final(self)@.size == old(self)@.size,
            final(self)@.pending == old(self)@.pending,
            final(self)@.tabs.active == old(self)@.tabs.active,
            final(self)@.tabs.tabs == if tab_idx < old(self)@.tabs.tabs.len() {
                old(self)@.tabs.tabs.update(
                    tab_idx as int,
                    TabView {
                        panes: laid_out(old(self)@.tabs.tabs[tab_idx as int].panes, old(self)@.size),
                        active_pane: old(self)@.tabs.tabs[tab_idx as int].active_pane,
                        name: old(self)@.tabs.tabs[tab_idx as int].name,
                    },
                )
            } else {
                old(self)@.tabs.tabs
            },
    {
        let ghost before = self@;
        if tab_idx < self.tabs.tabs.len() {
            assert(self.tabs.tabs@[tab_idx as int]@ == before.tabs.tabs[tab_idx as int]);
            self.tabs.tabs[tab_idx].relayout(self.size);
            proof {
                let t = before.tabs.tabs[tab_idx as int];
                let nt = TabView { panes: laid_out(t.panes, before.size), active_pane: t.active_pane, name: t.name };
                assert(self@.tabs.tabs =~= before.tabs.tabs.update(tab_idx as int, nt));
                assert(nt.wf());
                assert forall|i: int| 0 <= i < self@.tabs.tabs.len() implies (#[trigger] self@.tabs.tabs[i]).wf() by {
                    if i != tab_idx {
                        assert(self@.tabs.tabs[i] == before.tabs.tabs[i]);
                    }
                }
                assert(self@.tabs.wf());
                assert(self@.pending == before.pending);
            }
        }
    }

    /// Drops the exited panes of tab `ti` (see `pruned`).
    fn prune_tab_at(&mut self, ti: usize)
        requires
            old(self)@.wf(),
            ti < old(self)@.tabs.tabs.len(),
            !all_exited(old(self)@.tabs.tabs[ti as int]),
        ensures
            final(self)@.wf(),
            final(self)@.size == old(self)@.size,
            final(self)@.pending == old(self)@.pending,
            final(self)@.tabs.active == old(self)@.tabs.active,
            final(self)@.tabs.tabs == old(self)@.tabs.tabs.update(
                ti as int,
                pruned(old(self)@.tabs.tabs[ti as int], old(self)@.size),
            ),
    {
        let ghost before = self@;
        let ghost t = before.tabs.tabs[ti as int];
        assert(self.tabs.tabs@[ti as int]@ == t);
        let changed = self.tabs.tabs[ti].prune_exited();
        if changed {
            self.tabs.tabs[ti].relayout(self.size);
        }
        proof {
            lemma_pruned_wf(t, before.size);
            lemma_live_prefix_len(t.panes, t.panes.len() as int);
            if !changed {
                assert(live_panes(t.panes) =~= t.panes);
            }
            let pj = pruned(t, before.size);
            assert(self.tabs.tabs@[ti as int]@ == pj);
            assert(self@.tabs.tabs =~= before.tabs.tabs.update(ti as int, pj));
            assert forall|i: int| 0 <= i < self@.tabs.tabs.len() implies (#[trigger] self@.tabs.tabs[i]).wf() by {
                if i != ti {
                    assert(self@.tabs.tabs[i] == before.tabs.tabs[i]);
                }
            }
            assert(self@.pending == before.pending);
        }
    }

    /// Whether every pane of every tab has exited (so no tab would remain).
    fn every_pane_exited(&self) -> (r: bool)
        requires
            self@.wf(),
        ensures
            r == (survivors(self@.tabs.tabs, self@.tabs.tabs.len() as int, self@.size).len() == 0),
    {
        let ghost tabs = self@.tabs.tabs;
        let ghost n = tabs.len() as int;
        let mut i: usize = 0;
        while i < self.tabs.tabs.len()
            invariant
                tabs == self@.tabs.tabs,
                n == tabs.len(),
                0 <= i <= n,
                survivors(tabs, i as int, self@.size).len() == 0,
            decreases n - i,
        {
            assert(self.tabs.tabs@[i as int]@ == tabs[i as int]);
            if self.tabs.tabs[i].has_live_pane() {
                proof {
                    lemma_survivors_mono(tabs, i + 1, n, self@.size);
                }
                return false;
            }
            i = i + 1;
        }
        true
    }

    /// Closes the panes whose shells exited, and the tabs all of whose panes exited (see
    /// `close_exited_result`). Returns `true`, changing nothing, when no tab would remain.
    pub fn close_exited_tabs(&mut self) -> (r: bool)
        requires
            old(self)@.wf(),
        ensures
            (final(self)@, r) == close_exited_result(old(self)@),
            final(self)@.wf(),
    {
        if self.every_pane_exited() {
            return true;
        }
        let ghost orig = self@.tabs.tabs;
        let ghost n = orig.len() as int;
        let ghost a = self@.tabs.active as int;
        let ghost m0 = self@;
        let mut ti: usize = 0;
        let ghost mut j: int = 0;
        proof {
            assert(self@.tabs.tabs =~= survivors(orig, 0, m0.size) + orig.subrange(0, n));
        }
        while ti < self.tabs.tabs.len()
            invariant
                m0 == old(self)@,
                m0.wf(),
                orig == m0.tabs.tabs,
                n == orig.len(),
                a == m0.tabs.active,
                survivors(orig, n, m0.size).len() > 0,
                0 <= j <= n,
                self@.wf(),
                self@.size == m0.size,
                self@.pending == m0.pending,
                ti == survivors(orig, j, m0.size).len(),
                self@.tabs.tabs == survivors(orig, j, m0.size) + orig.subrange(j, n),
                self@.tabs.active == (if a >= j {
                    a - (j - ti)
                } else {
                    let k = survivors(orig, a, m0.size).len() as int;
                    let last = ti + (n - j) - 1;
                    if k < last {
                        k
                    } else {
                        last
                    }
                }),
            decreases n - j,
        {
            proof {
                lemma_survivors_wf(orig, j, m0.size);
                lemma_survivors_mono(orig, 0, j, m0.size);
                assert(self@.tabs.tabs[ti as int] == orig[j]);
            }
            assert(self.tabs.tabs@[ti as int]@ == orig[j]);
            if self.tabs.tabs[ti].has_live_pane() {
                let ghost pj = pruned(orig[j], m0.size);
                self.prune_tab_at(ti);
                proof {
                    lemma_pruned_wf(orig[j], m0.size);
                    assert(self@.tabs.tabs[ti as int] == pj);
                }
                ti = ti + 1;
                proof {
                    assert(survivors(orig, j + 1, m0.size) == survivors(orig, j, m0.size).push(pj));
                    assert(self@.tabs.tabs =~= survivors(orig, j + 1, m0.size) + orig.subrange(j + 1, n));
                    j = j + 1;
                }
            } else {
                proof {
                    assert(survivors(orig, j + 1, m0.size) == survivors(orig, j, m0.size));
                    if ti == 0 && j == n - 1 {
                        assert(survivors(orig, n, m0.size).len() == 0);
                    }
                    assert(self@.tabs.tabs.len() > 1);
                }
                let ghost mid = self@;
                self.tabs.remove_at(ti);
                proof {
                    assert(self@.tabs.tabs =~= survivors(orig, j + 1, m0.size) + orig.subrange(j + 1, n));
                    if a < j {
                        lemma_survivors_mono(orig, a, j, m0.size);
                    }
                    j = j + 1;
                }
            }
        }
        proof {
            assert(j == n);
            assert(self@.tabs.tabs =~= survivors(orig, n, m0.size));
            if a < n {
                lemma_survivors_mono(orig, a, n, m0.size);
            }
        }
        false
    }

    /// Closes the active pane (see `close_active_pane_result`): with several panes only the
    /// pane goes (no undo); a tab's last pane closes the tab, which can be brought back
    /// (it is kept with the time `now`), unless it is the last tab. Returns `true` when the
    /// last tab was asked to close (the caller quits).
    pub fn close_active_pane(&mut self, now: u64) -> (r: bool)
        requires
            old(self)@.wf(),
        ensures
            (final(self)@, r) == close_active_pane_result(old(self)@, now),
            final(self)@.wf(),
    {
        let ghost m0 = self@;
        let a = self.tabs.active;
        assert(self.tabs.tabs@[a as int]@ == m0.active_tab());
        if self.tabs.tabs[a].panes.len() > 1 {
            let pi = self.tabs.tabs[a].active_pane;
            self.tabs.tabs[a].panes.remove(pi);
            if self.tabs.tabs[a].active_pane >= self.tabs.tabs[a].panes.len() {
                let last = self.tabs.tabs[a].panes.len() - 1;
                self.tabs.tabs[a].active_pane = last;
            }
            proof {
                let t = m0.active_tab();
                let panes = t.panes.remove(t.active_pane as int);
                let ap = if t.active_pane >= panes.len() {
                    panes.len() - 1
                } else {
                    t.active_pane as int
                };
                let mid = TabView { panes, active_pane: ap as usize, name: t.name };
                assert(self.tabs.tabs@[a as int]@ == mid);
                assert(self@.tabs.tabs =~= m0.tabs.tabs.update(a as int, mid));
                assert forall|i: int| 0 <= i < self@.tabs.tabs.len() implies (#[trigger] self@.tabs.tabs[i]).wf() by {
                    if i != a {
                        assert(self@.tabs.tabs[i] == m0.tabs.tabs[i]);
                    }
                }
                assert(self@.pending == m0.pending);
            }
            let at = usize::from(self.tabs.active_index());
            self.resize_tab_panes(at);
            proof {
                let t = m0.active_tab();
                let panes = t.panes.remove(t.active_pane as int);
                let ap = if t.active_pane >= panes.len() {
                    panes.len() - 1
                } else {
                    t.active_pane as int
                };
                assert(self@.tabs.tabs =~= m0.tabs.tabs.update(
                    a as int,
                    TabView { panes: laid_out(panes, m0.size), active_pane: ap as usize, name: t.name },
                ));
            }
            false
        } else {
            self.close_active_tab(now)
        }
    }

    /// Closes the whole active tab (all its panes), keeping it for undo. Returns `true`
    /// (and changes nothing) when it is the last tab.
    fn close_active_tab(&mut self, now: u64) -> (r: bool)
        requires
            old(self)@.wf(),
        ensures
            (final(self)@, r) == close_active_tab_result(old(self)@, now),
            final(self)@.wf(),
    {
        let ghost m0 = self@;
        if let Some(tab) = self.tabs.remove_active() {
            let ghost t = tab@;
            self.pending_close.push((tab, now));
            proof {
                assert(self@.pending =~= m0.pending.push((t, now)));
                assert(forall|i: int| 0 <= i < self@.pending.len() - 1 ==> #[trigger] self@.pending[i] == m0.pending[i]);
            }
            false
        } else {
            true
        }
    }

    /// Brings back the most recently closed tab as the last, active tab.
    pub fn undo_close(&mut self, now: u64) -> (r: Result<(), UndoCloseError>)
        requires
            old(self)@.wf(),
        ensures
            final(self)@ == undo_close_result(old(self)@, now).0,
            r is Ok <==> undo_close_result(old(self)@, now).1,
            final(self)@.wf(),
    {
        self.reap_pending_close(now);
        let ghost m0 = self@;
        if let Some((tab, _)) = self.pending_close.pop() {
            proof {
                assert(tab@ == m0.pending.last().0);
                assert(tab@.wf());
            }
            self.tabs.push_and_activate(tab);
            proof {
                assert(self@.pending =~= m0.pending.drop_last());
            }
            return Ok(());
        }
        Err(UndoCloseError::NoPendingClosures)
    }

    /// Forgets the closed tabs that can no longer be brought back at `now` (closed ten
    /// seconds or more before it).
    pub fn reap_pending_close(&mut self, now: u64)
        requires
            old(self)@.wf(),
        ensures
            final(self)@.tabs == old(self)@.tabs,
            final(self)@.size == old(self)@.size,
            final(self)@.pending == recent(old(self)@.pending, now),
            final(self)@.wf(),
    {
        let ghost m0 = self@;
        let mut kept: Vec<(Tab, u64)> = Vec::new();
        let mut rest: Vec<(Tab, u64)> = Vec::new();
        std::mem::swap(&mut rest, &mut self.pending_close);
        let ghost all = m0.pending;
        let ghost f = |e: (Tab, u64)| (e.0@, e.1);
        assert(rest@.map_values(f) == all);
        let ghost mut i: int = 0;
        proof {
            assert(kept@.map_values(f) =~= recent(all.take(0), now));
            assert(rest@.map_values(f) =~= all.skip(0));
        }
        while rest.len() > 0
            invariant
                m0.wf(),
                all == m0.pending,
                f == (|e: (Tab, u64)| (e.0@, e.1)),
                0 <= i <= all.len(),
                rest@.map_values(f) == all.skip(i),
                kept@.map_values(f) == recent(all.take(i), now),
                self.tabs == old(self).tabs,
                self.size == old(self).size,
            decreases rest.len(),
        {
            let ghost before = kept@;
            proof {
                assert(rest@.map_values(f).len() == rest@.len());
                assert(all.skip(i).len() == all.len() - i);
                assert(rest@.map_values(f)[0] == f(rest@[0]));
            }
            let ghost old_rest = rest@;
            let e = rest.remove(0);
            proof {
                assert(f(e) == all[i]);
                assert forall|k: int| 0 <= k < rest@.len() implies #[trigger] rest@.map_values(f)[k] == all.skip(i + 1)[k] by {
                    assert(rest@[k] == old_rest[k + 1]);
                    assert(old_rest.map_values(f)[k + 1] == all.skip(i)[k + 1]);
                }
                assert(all.take(i + 1).drop_last() =~= all.take(i));
                assert(all.take(i + 1).last() == all[i]);
                assert(rest@.map_values(f) =~= all.skip(i + 1));
            }
            let closed_at = e.1;
            let keep = if now >= closed_at {
                now - closed_at < UNDO_TIMEOUT_NANOS
            } else {
                true
            };
            if keep {
                kept.push(e);
                proof {
                    assert(kept@.map_values(f) =~= before.map_values(f).push(f(e)));
                }
            }
            proof {
                i = i + 1;
            }
        }
        self.pending_close = kept;
        proof {
            assert(all.take(i) =~= all);
            assert(self@.pending == recent(m0.pending, now));
            lemma_recent_wf(m0.pending, now);
            assert(self@.tabs == m0.tabs);
        }
    }

    /// Whether any closed tab can still be brought back.
    pub fn has_pending_close(&self) -> (r: bool)
        ensures
            r == (self@.pending.len() > 0),
    {
        self.pending_close.len() > 0
    }

    /// Moves focus to the next pane in the active tab (wraps around).
    pub fn focus_next_pane(&mut self)
        requires
            old(self)@.wf(),
        ensures
            final(self)@ == focus_next_result(old(self)@),
            final(self)@.wf(),
    {
        let ghost m0 = self@;
        let a = self.tabs.active;
        assert(self.tabs.tabs@[a as int]@ == m0.active_tab());
        let n = self.tabs.tabs[a].panes.len();
        let next = (self.tabs.tabs[a].active_pane + 1) % n;
        self.tabs.tabs[a].active_pane = next;
        proof {
            self.lemma_update_active_tab(m0);
        }
    }

    /// Moves focus to the previous pane in the active tab (wraps around).
    pub fn focus_prev_pane(&mut self)
        requires
            old(self)@.wf(),
        ensures
            final(self)@ == focus_prev_result(old(self)@),
            final(self)@.wf(),
    {
        let ghost m0 = self@;
        let a = self.tabs.active;
        assert(self.tabs.tabs@[a as int]@ == m0.active_tab());
        let n = self.tabs.tabs[a].panes.len();
        let cur = self.tabs.tabs[a].active_pane;
        let prev = if cur > 0 {
            cur - 1
        } else {
            n - 1
        };
        self.tabs.tabs[a].active_pane = prev;
        proof {
            self.lemma_update_active_tab(m0);
        }
    }

    /// The active tab changed in place, the rest untouched: the view changes accordingly.
    proof fn lemma_update_active_tab(&self, m0: ManagerView)
        requires
            m0.wf(),
            self@.size == m0.size,
            self.pending_close@.map_values(|e: (Tab, u64)| (e.0@, e.1)) == m0.pending,
            self.tabs.active == m0.tabs.active,
            self.tabs.tabs@.len() == m0.tabs.tabs.len(),
            forall|i: int| 0 <= i < m0.tabs.tabs.len() && i != m0.tabs.active ==> #[trigger] self.tabs.tabs@[i]@ == m0.tabs.tabs[i],
            self.tabs.tabs@[m0.tabs.active as int]@.wf(),
        ensures
            self@ == m0.with_active_tab(self.tabs.tabs@[m0.tabs.active as int]@),
            self@.wf(),
    {
        let t = self.tabs.tabs@[m0.tabs.active as int]@;
        assert(self@.tabs.tabs =~= m0.tabs.tabs.update(m0.tabs.active as int, t));
        assert forall|i: int| 0 <= i < self@.tabs.tabs.len() implies (#[trigger] self@.tabs.tabs[i]).wf() by {
            if i != m0.tabs.active {
                assert(self@.tabs.tabs[i] == m0.tabs.tabs[i]);
            }
        }
    }

    /// Gives the active tab an explicit name (kept whatever title its pane sets).
    pub fn rename_active(&mut self, name: String)
        requires
            old(self)@.wf(),
        ensures
            final(self)@ == rename_result(old(self)@, name@),
            final(self)@.wf(),
    {
        let ghost m0 = self@;
        let a = self.tabs.active;
        assert(self.tabs.tabs@[a as int]@ == m0.active_tab());
        self.tabs.tabs[a].name = Some(name);
        proof {
            self.lemma_update_active_tab(m0);
        }
    }

    /// Drops the active tab's explicit name, so it is named by its active pane again.
    pub fn revert_active_name(&mut self)
        requires
            old(self)@.wf(),
        ensures
            final(self)@ == revert_name_result(old(self)@),
            final(self)@.wf(),
    {
        let ghost m0 = self@;
        let a = self.tabs.active;
        assert(self.tabs.tabs@[a as int]@ == m0.active_tab());
        self.tabs.tabs[a].name = None;
        proof {
            self.lemma_update_active_tab(m0);
        }
    }

    /// The name the active tab shows.
    pub fn active_name(&self) -> (r: String)
        requires
            self@.wf(),
        ensures
            r@ == self@.active_tab().display_name(),
    {
        self.tabs.active().display_name()
    }

    pub fn switch_to(&mut self, index: TabIndex)
        requires
            old(self)@.wf(),
        ensures
            final(self)@ == switch_to_result(old(self)@, index.spec_index()),
            final(self)@.wf(),
    {
        self.tabs.switch_to(index);
        proof {
            assert(self@.pending == old(self)@.pending);
        }
    }

    pub fn switch_to_next(&mut self)
        requires
            old(self)@.wf(),
        ensures
            final(self)@ == switch_next_result(old(self)@),
            final(self)@.wf(),
    {
        self.tabs.switch_next();
        proof {
            assert(self@.pending == old(self)@.pending);
        }
    }

    pub fn switch_to_prev(&mut self)
        requires
            old(self)@.wf(),
        ensures
            final(self)@ == switch_prev_result(old(self)@),
            final(self)@.wf(),
    {
        self.tabs.switch_prev();
        proof {
            assert(self@.pending == old(self)@.pending);
        }
    }

    /// Records a new terminal size and lays every tab out anew for it.
    pub fn resize(&mut self, size: TerminalSize)
        requires
            old(self)@.wf(),
        ensures
            final(self)@.size == size,
            final(self)@.pending == old(self)@.pending,
            final(self)@.tabs.active == old(self)@.tabs.active,
            final(self)@.tabs.tabs == Seq::new(
                old(self)@.tabs.tabs.len(),
                |i: int|
                    TabView {
                        panes: laid_out(old(self)@.tabs.tabs[i].panes, size),
                        ..old(self)@.tabs.tabs[i]
                    },
            ),
            final(self)@.wf(),
    {
        let ghost m0 = self@;
        self.size = size;
        proof {
            assert(self@.tabs == m0.tabs);
            assert(self@.pending == m0.pending);
        }
        let n = self.tabs.len();
        let mut i: usize = 0;
        while i < n
            invariant
                n == m0.tabs.tabs.len(),
                0 <= i <= n,
                self@.wf(),
                self@.size == size,
                self@.pending == m0.pending,
                self@.tabs.active == m0.tabs.active,
                self@.tabs.tabs.len() == n,
                forall|k: int|
                    0 <= k < i ==> #[trigger] self@.tabs.tabs[k] == (TabView {
                        panes: laid_out(m0.tabs.tabs[k].panes, size),
                        ..m0.tabs.tabs[k]
                    }),
                forall|k: int| i <= k < n ==> #[trigger] self@.tabs.tabs[k] == m0.tabs.tabs[k],
            decreases n - i,
        {
            self.resize_tab_panes(i);
            i = i + 1;
        }
        proof {
            assert(self@.tabs.tabs =~= Seq::new(
                m0.tabs.tabs.len(),
                |i: int| TabView { panes: laid_out(m0.tabs.tabs[i].panes, size), ..m0.tabs.tabs[i] },
            ));
        }
    }


    /// Opens a new tab, active and unnamed, holding one pane over the whole content area
    /// whose shell runs in `cwd` on terminal `id`.
    pub fn open_tab(&mut self, id: u64, cwd: &str)
        requires
            old(self)@.wf(),
        ensures
            exists|p: Pane|
                fresh_pane(p, id, cwd@) && full_area_pane(p, old(self)@.size) && final(self)@
                    == #[trigger] open_tab_result(old(self)@, p, None),
            final(self)@.wf(),
    {
        let pane_size = ContentArea::from(self.size).full_size();
        let pane = Pane::new(id, cwd, pane_size);
        let ghost p = pane;
        self.tabs.push_and_activate(Tab::new(pane));
        proof {
            assert(self@.pending == old(self)@.pending);
            assert(self@ == open_tab_result(old(self)@, p, None));
        }
    }

    /// Opens a new tab as `open_tab` does, with an explicit name (kept whatever title its
    /// pane sets).
    pub fn open_tab_named(&mut self, id: u64, cwd: &str, name: String)
        requires
            old(self)@.wf(),
        ensures
            exists|p: Pane|
                fresh_pane(p, id, cwd@) && full_area_pane(p, old(self)@.size) && final(self)@
                    == #[trigger] open_tab_result(old(self)@, p, Some(name@)),
            final(self)@.wf(),
    {
        let pane_size = ContentArea::from(self.size).full_size();
        let pane = Pane::new(id, cwd, pane_size);
        let ghost p = pane;
        let mut tab = Tab::new(pane);
        tab.name = Some(name);
        self.tabs.push_and_activate(tab);
        proof {
            assert(self@.pending == old(self)@.pending);
            assert(self@ == open_tab_result(old(self)@, p, Some(name@)));
        }
    }

    /// Splits the active tab: a new pane (shell in `cwd`, terminal `id`) joins on the right
    /// and becomes active, and the tab's panes are laid out anew.
    pub fn split_horizontal(&mut self, id: u64, cwd: &str)
        requires
            old(self)@.wf(),
            old(self)@.active_tab().panes.len() < 65535,
        ensures
            exists|p: Pane| fresh_pane(p, id, cwd@) && final(self)@ == #[trigger] split_result(old(self)@, p),
            final(self)@.wf(),
    {
        let ghost m0 = self@;
        let pane_size = ContentArea::from(self.size).full_size();
        let new_pane = Pane::new(id, cwd, pane_size);
        let ghost p = new_pane;
        let a = self.tabs.active;
        assert(self.tabs.tabs@[a as int]@ == m0.active_tab());
        self.tabs.tabs[a].panes.push(new_pane);
        let n = self.tabs.tabs[a].panes.len();
        self.tabs.tabs[a].active_pane = n - 1;
        proof {
            self.lemma_update_active_tab(m0);
            let t = m0.active_tab();
            assert(self.tabs.tabs@[a as int]@ == TabView { panes: t.panes.push(p), active_pane: t.panes.len() as usize, name: t.name });
        }
        let ghost mid = self@;
        let at = usize::from(self.tabs.active_index());
        self.resize_tab_panes(at);
        proof {
            assert(self@ == relaid(mid));
            assert(self@ == split_result(m0, p));
        }
    }

    /// The column at which the active pane starts: the widths of the panes to its left,
    /// each with its divider (saturating at `u16::MAX`).
    pub fn active_pane_col_offset(&self) -> (r: ColOffset)
        requires
            self@.wf(),
        ensures
            r.spec_value() == col_offset(self@.active_tab().panes, self@.active_tab().active_pane as int),
    {
        let tab = self.tabs.active();
        let mut offset = ColOffset::zero();
        let mut i: usize = 0;
        while i < tab.active_pane
            invariant
                tab@.wf(),
                0 <= i <= tab.active_pane,
                offset.spec_value() == col_offset(tab@.panes, i as int),
            decreases tab.active_pane - i,
        {
            offset = offset.advance_past_pane(tab.panes[i].width);
            i = i + 1;
        }
        offset
    }

}


/// Law: closing the only pane of a tab (when other tabs remain) and then undoing at once
/// brings the same tab back, as the last and active tab; the other tabs and the size are as
/// before, the other closed tabs are those still undoable, and no tab is lost or
/// duplicated.
pub proof fn lemma_close_then_undo(m: ManagerView, now: u64)
    requires
        m.wf(),
        m.active_tab().panes.len() == 1,
        1 < m.tabs.tabs.len() <= usize::MAX,
    ensures
        ({
            let (m1, quit) = close_active_pane_result(m, now);
            let (m2, restored) = undo_close_result(m1, now);
            &&& !quit
            &&& restored
            &&& m2.tabs.tabs == m.tabs.tabs.remove(m.tabs.active as int).push(m.active_tab())
            &&& m2.tabs.tabs.to_multiset() == m.tabs.tabs.to_multiset()
            &&& m2.tabs.active == m.tabs.tabs.len() - 1
            &&& m2.pending == recent(m.pending, now)
            &&& m2.size == m.size
        }),
{
    let a = m.tabs.active as int;
    let (m1, quit) = close_active_pane_result(m, now);
    let (m2, restored) = undo_close_result(m1, now);
    assert(m1.pending == m.pending.push((m.active_tab(), now)));
    assert(still_undoable(now, now));
    assert(m1.pending.drop_last() =~= m.pending);
    assert(recent(m1.pending, now) == recent(m.pending, now).push((m.active_tab(), now)));
    assert(m2.pending =~= recent(m.pending, now));
    let tabs = m.tabs.tabs;
    let t = tabs[a];
    let rest = tabs.remove(a);
    let left = tabs.subrange(0, a);
    let right = tabs.subrange(a + 1, tabs.len() as int);
    assert(tabs =~= (left + seq![t]) + right);
    assert(rest =~= left + right);
    assert(m2.tabs.tabs =~= rest + seq![t]);
    vstd::seq_lib::lemma_multiset_commutative(left + seq![t], right);
    vstd::seq_lib::lemma_multiset_commutative(left, seq![t]);
    vstd::seq_lib::lemma_multiset_commutative(left, right);
    vstd::seq_lib::lemma_multiset_commutative(rest, seq![t]);
    assert(m2.tabs.tabs.to_multiset() =~= tabs.to_multiset());
}

/// Law: a reap keeps, in order, exactly the closed tabs that can still be brought back:
/// every one it keeps was closed less than ten seconds before `now`, and none closed less
/// than ten seconds before is dropped.
pub proof fn lemma_reap_keeps_only_undoable(pending: Seq<(TabView, u64)>, now: u64)
    ensures
        forall|i: int|
            0 <= i < recent(pending, now).len() ==> still_undoable(now, (#[trigger] recent(pending, now)[i]).1),
        forall|i: int|
            0 <= i < pending.len() && still_undoable(now, (#[trigger] pending[i]).1)
                ==> recent(pending, now).contains(pending[i]),
    decreases pending.len(),
{
    if pending.len() > 0 {
        let d = pending.drop_last();
        let r = recent(pending, now);
        lemma_reap_keeps_only_undoable(d, now);
        let rd = recent(d, now);
        if still_undoable(now, pending.last().1) {
            assert(r == rd.push(pending.last()));
            assert forall|i: int| 0 <= i < r.len() implies still_undoable(now, (#[trigger] r[i]).1) by {
                if i < r.len() - 1 {
                    assert(r[i] == rd[i]);
                }
            }
            assert forall|i: int|
                0 <= i < pending.len() && still_undoable(now, (#[trigger] pending[i]).1) implies r.contains(pending[i]) by {
                if i < pending.len() - 1 {
                    assert(pending[i] == d[i]);
                    let k = choose|k: int| 0 <= k < rd.len() && rd[k] == d[i];
                    assert(r[k] == rd[k]);
                } else {
                    assert(r[r.len() - 1] == pending[i]);
                }
            }
        } else {
            assert(r == rd);
            assert forall|i: int|
                0 <= i < pending.len() && still_undoable(now, (#[trigger] pending[i]).1) implies r.contains(pending[i]) by {
                assert(i != pending.len() - 1);
                assert(pending[i] == d[i]);
            }
        }
    }
}

/// Law: a tab closed at `closed_at` can be brought back at any `now` less than ten seconds
/// later: undoing then restores it as the last, active tab.
pub proof fn lemma_undo_within_timeout(m: ManagerView, closed_at: u64, now: u64)
    requires
        m.wf(),
        m.active_tab().panes.len() == 1,
        1 < m.tabs.tabs.len() <= usize::MAX,
        now < closed_at + UNDO_TIMEOUT_NANOS,
    ensures
        ({
            let (m1, quit) = close_active_pane_result(m, closed_at);
            let (m3, restored) = undo_close_result(m1, now);
            &&& !quit
            &&& restored
            &&& m3.tabs.tabs.last() == m.active_tab()
            &&& m3.tabs.active == m3.tabs.tabs.len() - 1
        }),
{
    let (m1, quit) = close_active_pane_result(m, closed_at);
    assert(m1 == close_active_tab_result(m, closed_at).0);
    let p = m1.pending;
    assert(p == m.pending.push((m.active_tab(), closed_at)));
    assert(p.last() == (m.active_tab(), closed_at));
    assert(still_undoable(now, closed_at));
    let r = recent(p, now);
    assert(r == recent(p.drop_last(), now).push(p.last()));
    assert(r.len() > 0);
    assert(r.last() == p.last());
    let (m3, restored) = undo_close_result(m1, now);
    assert(m3.tabs.tabs == m1.tabs.tabs.push(m.active_tab()));
}

/// Law: a tab closed at `closed_at` and reaped ten seconds or more later is gone for good:
/// no kept closed tab is it.
pub proof fn lemma_closed_tab_expires(m: ManagerView, closed_at: u64, now: u64)
    requires
        m.wf(),
        m.active_tab().panes.len() == 1,
        m.tabs.tabs.len() > 1,
        now >= closed_at + UNDO_TIMEOUT_NANOS,
    ensures
        ({
            let (m1, quit) = close_active_pane_result(m, closed_at);
            &&& !quit
            &&& !recent(m1.pending, now).contains((m.active_tab(), closed_at))
        }),
{
    let (m1, quit) = close_active_pane_result(m, closed_at);
    lemma_reap_keeps_only_undoable(m1.pending, now);
    let r = recent(m1.pending, now);
    if r.contains((m.active_tab(), closed_at)) {
        let k = choose|k: int| 0 <= k < r.len() && r[k] == (m.active_tab(), closed_at);
        assert(still_undoable(now, r[k].1));
    }
}

/// Law: undoing when no closed tab is kept changes nothing and reports failure.
pub proof fn lemma_undo_without_pending(m: ManagerView, now: u64)
    requires
        m.pending.len() == 0,
    ensures
        undo_close_result(m, now) == (m, false),
{
    assert(recent(m.pending, now) == m.pending);
    assert((ManagerView { pending: m.pending, ..m }) == m);
}

proof fn lemma_recent_none(pending: Seq<(TabView, u64)>, now: u64)
    requires
        forall|i: int| 0 <= i < pending.len() ==> !still_undoable(now, (#[trigger] pending[i]).1),
    ensures
        recent(pending, now).len() == 0,
    decreases pending.len(),
{
    if pending.len() > 0 {
        let d = pending.drop_last();
        assert forall|i: int| 0 <= i < d.len() implies !still_undoable(now, (#[trigger] d[i]).1) by {
            assert(d[i] == pending[i]);
        }
        lemma_recent_none(d, now);
        assert(!still_undoable(now, pending[pending.len() - 1].1));
    }
}

/// Law: undoing when every closed tab was closed ten seconds or more before `now` brings
/// nothing back: it reports failure, the tabs and the size are unchanged, and the closed
/// tabs are forgotten.
pub proof fn lemma_undo_after_timeout(m: ManagerView, now: u64)
    requires
        forall|i: int| 0 <= i < m.pending.len() ==> now >= (#[trigger] m.pending[i]).1 + UNDO_TIMEOUT_NANOS,
    ensures
        undo_close_result(m, now) == (ManagerView { pending: Seq::empty(), ..m }, false),
{
    assert forall|i: int| 0 <= i < m.pending.len() implies !still_undoable(now, (#[trigger] m.pending[i]).1) by {}
    lemma_recent_none(m.pending, now);
    assert(recent(m.pending, now) =~= Seq::<(TabView, u64)>::empty());
}

/// Law: the last tab is never closed: asking to close its only pane is refused (the
/// caller quits) and the state is unchanged.
pub proof fn lemma_last_tab_not_closed(m: ManagerView, now: u64)
    requires
        m.wf(),
        m.tabs.tabs.len() == 1,
        m.active_tab().panes.len() == 1,
    ensures
        close_active_pane_result(m, now) == (m, true),
{
}

/// Whether two panes are the same pane (the same terminal, title, directory and state),
/// whatever their sizes.
pub open spec fn same_pane(p: Pane, q: Pane) -> bool {
    &&& p.id == q.id
    &&& p.title == q.title
    &&& p.cwd == q.cwd
    &&& p.exited == q.exited
}

/// A pruned tab holds exactly the running panes, in order, and the active pane stays the
/// same pane where its shell runs on.
proof fn lemma_pruned_panes(t: TabView, size: TerminalSize)
    requires
        t.wf(),
        !all_exited(t),
    ensures
        pruned(t, size).panes.len() == live_panes(t.panes).len(),
        forall|k: int|
            0 <= k < live_panes(t.panes).len() ==> same_pane(#[trigger] pruned(t, size).panes[k], live_panes(t.panes)[k]),
        forall|k: int| 0 <= k < pruned(t, size).panes.len() ==> !(#[trigger] pruned(t, size).panes[k]).exited,
        !t.panes[t.active_pane as int].exited ==> pruned(t, size).panes[pruned(t, size).active_pane as int].id
            == t.panes[t.active_pane as int].id,
{
    let n = t.panes.len() as int;
    let live = live_panes(t.panes);
    let p = pruned(t, size);
    lemma_live_prefix_len(t.panes, n);
    if live.len() == n {
        assert(live =~= t.panes);
    }
    assert forall|k: int| 0 <= k < live.len() implies same_pane(#[trigger] p.panes[k], live[k]) by {}
    assert forall|k: int| 0 <= k < p.panes.len() implies !(#[trigger] p.panes[k]).exited by {
        assert(same_pane(p.panes[k], live[k]));
    }
    let ap = t.active_pane as int;
    if !t.panes[ap].exited {
        lemma_live_index(t.panes, ap, n);
        assert(same_pane(p.panes[p.active_pane as int], live[p.active_pane as int]));
    }
}

#[verifier::spinoff_prover]
proof fn lemma_survivors_live(tabs: Seq<TabView>, k: int, size: TerminalSize)
    requires
        0 <= k <= tabs.len(),
        forall|i: int| 0 <= i < tabs.len() ==> (#[trigger] tabs[i]).wf(),
    ensures
        forall|i: int, j: int|
            0 <= i < survivors(tabs, k, size).len() && 0 <= j < survivors(tabs, k, size)[i].panes.len()
                ==> !(#[trigger] survivors(tabs, k, size)[i].panes[j]).exited,
    decreases k,
{
    if k > 0 {
        lemma_survivors_live(tabs, k - 1, size);
        let s = survivors(tabs, k, size);
        let s0 = survivors(tabs, k - 1, size);
        if all_exited(tabs[k - 1]) {
            assert(s == s0);
        } else {
            let pt = pruned(tabs[k - 1], size);
            lemma_pruned_panes(tabs[k - 1], size);
            assert(s == s0.push(pt));
            assert forall|i: int, j: int| 0 <= i < s.len() && 0 <= j < s[i].panes.len() implies !(#[trigger] s[i].panes[j]).exited by {
                if i < s0.len() {
                    assert(s[i] == s0[i]);
                    assert(!s0[i].panes[j].exited);
                } else {
                    assert(s[i] == pt);
                    assert(!pt.panes[j].exited);
                }
            }
        }
    }
}

/// A tab with a running pane keeps its place among the remaining tabs: it comes after the
/// remaining tabs before it.
proof fn lemma_survivors_index(tabs: Seq<TabView>, ti: int, k: int, size: TerminalSize)
    requires
        0 <= ti < k <= tabs.len(),
        !all_exited(tabs[ti]),
    ensures
        survivors(tabs, ti, size).len() < survivors(tabs, k, size).len(),
        survivors(tabs, k, size)[survivors(tabs, ti, size).len() as int] == pruned(tabs[ti], size),
{
    assert(survivors(tabs, ti + 1, size) == survivors(tabs, ti, size).push(pruned(tabs[ti], size)));
    lemma_survivors_mono(tabs, ti + 1, k, size);
}

/// Law: once exited shells are closed, no remaining pane has an exited shell — unless the
/// answer is that no tab remains.
pub proof fn lemma_close_exited_leaves_only_live(m: ManagerView)
    requires
        m.wf(),
    ensures
        ({
            let (m1, quit) = close_exited_result(m);
            !quit ==> forall|i: int, j: int|
                0 <= i < m1.tabs.tabs.len() && 0 <= j < m1.tabs.tabs[i].panes.len()
                    ==> !(#[trigger] m1.tabs.tabs[i].panes[j]).exited
        }),
{
    let s = survivors(m.tabs.tabs, m.tabs.tabs.len() as int, m.size);
    lemma_survivors_live(m.tabs.tabs, m.tabs.tabs.len() as int, m.size);
    let (m1, quit) = close_exited_result(m);
    if !quit {
        assert(m1.tabs.tabs == s);
        assert forall|i: int, j: int|
            0 <= i < m1.tabs.tabs.len() && 0 <= j < m1.tabs.tabs[i].panes.len()
                implies !(#[trigger] m1.tabs.tabs[i].panes[j]).exited by {
            assert(!s[i].panes[j].exited);
        }
    }
}

/// Law: closing exited shells answers "quit" exactly when every pane of every tab has
/// exited, and then changes nothing.
pub proof fn lemma_close_exited_quits_when_all_gone(m: ManagerView)
    requires
        m.wf(),
    ensures
        close_exited_result(m).1 <==> forall|i: int, j: int|
            0 <= i < m.tabs.tabs.len() && 0 <= j < m.tabs.tabs[i].panes.len() ==> (#[trigger] m.tabs.tabs[i].panes[j]).exited,
        close_exited_result(m).1 ==> close_exited_result(m).0 == m,
{
    let tabs = m.tabs.tabs;
    let n = tabs.len() as int;
    lemma_survivors_empty(tabs, n, m.size);
    assert forall|i: int| 0 <= i < n implies (all_exited(#[trigger] tabs[i]) <==> forall|j: int|
        0 <= j < tabs[i].panes.len() ==> (#[trigger] tabs[i].panes[j]).exited) by {
        lemma_live_prefix_len(tabs[i].panes, tabs[i].panes.len() as int);
    }
    if !close_exited_result(m).1 {
        let i = choose|i: int| 0 <= i < n && !all_exited(#[trigger] tabs[i]);
        let j = choose|j: int| 0 <= j < tabs[i].panes.len() && !(#[trigger] tabs[i].panes[j]).exited;
        assert(!tabs[i].panes[j].exited);
    }
}

proof fn lemma_survivors_empty(tabs: Seq<TabView>, k: int, size: TerminalSize)
    requires
        0 <= k <= tabs.len(),
    ensures
        survivors(tabs, k, size).len() == 0 <==> forall|i: int| 0 <= i < k ==> all_exited(#[trigger] tabs[i]),
    decreases k,
{
    if k > 0 {
        lemma_survivors_empty(tabs, k - 1, size);
        if survivors(tabs, k, size).len() == 0 {
            assert forall|i: int| 0 <= i < k implies all_exited(#[trigger] tabs[i]) by {
                if i < k - 1 {
                } else {
                }
            }
        }
    }
}

/// Law: closing exited shells keeps every tab that has a running pane, in order, with its
/// name and exactly its running panes, in order; the tabs all of whose panes exited go.
pub proof fn lemma_close_exited_keeps_running_panes(m: ManagerView)
    requires
        m.wf(),
    ensures
        ({
            let (m1, quit) = close_exited_result(m);
            let tabs = m.tabs.tabs;
            let n = tabs.len() as int;
            !quit ==> {
                &&& m1.tabs.tabs.len() == survivors(tabs, n, m.size).len()
                &&& forall|ti: int|
                    0 <= ti < n && !all_exited(#[trigger] tabs[ti]) ==> {
                        let t1 = m1.tabs.tabs[survivors(tabs, ti, m.size).len() as int];
                        let live = live_panes(tabs[ti].panes);
                        &&& survivors(tabs, ti, m.size).len() < m1.tabs.tabs.len()
                        &&& t1.name == tabs[ti].name
                        &&& t1.panes.len() == live.len()
                        &&& forall|k: int| 0 <= k < live.len() ==> same_pane(#[trigger] t1.panes[k], live[k])
                    }
                &&& forall|t1: int, t2: int|
                    0 <= t1 < t2 < n && !all_exited(#[trigger] tabs[t1]) && !all_exited(#[trigger] tabs[t2])
                        ==> survivors(tabs, t1, m.size).len() < survivors(tabs, t2, m.size).len()
            }
        }),
{
    let tabs = m.tabs.tabs;
    let n = tabs.len() as int;
    let (m1, quit) = close_exited_result(m);
    if !quit {
        assert forall|ti: int| 0 <= ti < n && !all_exited(#[trigger] tabs[ti]) implies ({
            let t1 = m1.tabs.tabs[survivors(tabs, ti, m.size).len() as int];
            let live = live_panes(tabs[ti].panes);
            &&& survivors(tabs, ti, m.size).len() < m1.tabs.tabs.len()
            &&& t1.name == tabs[ti].name
            &&& t1.panes.len() == live.len()
            &&& forall|k: int| 0 <= k < live.len() ==> same_pane(#[trigger] t1.panes[k], live[k])
        }) by {
            lemma_survivors_index(tabs, ti, n, m.size);
            lemma_pruned_panes(tabs[ti], m.size);
        }
        assert forall|t1: int, t2: int|
            0 <= t1 < t2 < n && !all_exited(#[trigger] tabs[t1]) && !all_exited(#[trigger] tabs[t2])
                implies survivors(tabs, t1, m.size).len() < survivors(tabs, t2, m.size).len() by {
            lemma_survivors_index(tabs, t1, t2, m.size);
        }
    }
}

/// Law: closing exited shells keeps the active tab active while it has a running pane, and
/// within it keeps the active pane active while its shell runs.
pub proof fn lemma_close_exited_keeps_active(m: ManagerView)
    requires
        m.wf(),
        !all_exited(m.active_tab()),
    ensures
        ({
            let (m1, quit) = close_exited_result(m);
            let t = m.active_tab();
            &&& !quit
            &&& m1.tabs.active == survivors(m.tabs.tabs, m.tabs.active as int, m.size).len()
            &&& m1.active_tab() == pruned(t, m.size)
            &&& !t.panes[t.active_pane as int].exited ==> m1.active_tab().panes[m1.active_tab().active_pane as int].id
                == t.panes[t.active_pane as int].id
        }),
{
    let tabs = m.tabs.tabs;
    let n = tabs.len() as int;
    let a = m.tabs.active as int;
    lemma_survivors_index(tabs, a, n, m.size);
    lemma_survivors_wf(tabs, a, m.size);
    lemma_pruned_panes(tabs[a], m.size);
}

/// Law: closing the active pane of a tab with several panes removes exactly that pane: the
/// tab keeps the other panes, in order, and nothing else changes but their layout; the
/// tabs, the active tab and the closed tabs stay as they were.
pub proof fn lemma_close_pane_removes_the_active_pane(m: ManagerView, now: u64)
    requires
        m.wf(),
        m.active_tab().panes.len() > 1,
    ensures
        ({
            let (m1, quit) = close_active_pane_result(m, now);
            let t = m.active_tab();
            let a = t.active_pane as int;
            let t1 = m1.active_tab();
            &&& !quit
            &&& m1.tabs.active == m.tabs.active
            &&& m1.tabs.tabs.len() == m.tabs.tabs.len()
            &&& m1.pending == m.pending
            &&& m1.size == m.size
            &&& forall|i: int| 0 <= i < m.tabs.tabs.len() && i != m.tabs.active ==> #[trigger] m1.tabs.tabs[i] == m.tabs.tabs[i]
            &&& t1.name == t.name
            &&& t1.panes.len() == t.panes.len() - 1
            &&& forall|k: int| 0 <= k < a ==> same_pane(#[trigger] t1.panes[k], t.panes[k])
            &&& forall|k: int| a <= k < t1.panes.len() ==> same_pane(#[trigger] t1.panes[k], t.panes[k + 1])
            &&& forall|k: int| 0 <= k < t1.panes.len() ==> (#[trigger] t1.panes[k]).id != t.panes[a].id || exists|j: int| 0 <= j < t.panes.len() && j != a && t.panes[j].id == t.panes[a].id
        }),
{
    let (m1, quit) = close_active_pane_result(m, now);
    let t = m.active_tab();
    let a = t.active_pane as int;
    let t1 = m1.active_tab();
    let rest = t.panes.remove(a);
    assert(t1.panes == laid_out(rest, m.size));
    assert forall|k: int| 0 <= k < a implies same_pane(#[trigger] t1.panes[k], t.panes[k]) by {
        assert(rest[k] == t.panes[k]);
    }
    assert forall|k: int| a <= k < t1.panes.len() implies same_pane(#[trigger] t1.panes[k], t.panes[k + 1]) by {
        assert(rest[k] == t.panes[k + 1]);
    }
    assert forall|k: int| 0 <= k < t1.panes.len() implies (#[trigger] t1.panes[k]).id != t.panes[a].id || exists|j: int| 0 <= j < t.panes.len() && j != a && t.panes[j].id == t.panes[a].id by {
        if t1.panes[k].id == t.panes[a].id {
            if k < a {
                assert(same_pane(t1.panes[k], t.panes[k]));
                assert(t.panes[k].id == t.panes[a].id);
            } else {
                assert(same_pane(t1.panes[k], t.panes[k + 1]));
                assert(t.panes[k + 1].id == t.panes[a].id);
            }
        }
    }
}

/// Law: the next tab and then the previous one lead back to where they started (and the
/// same holds for panes).
pub proof fn lemma_next_then_prev(i: int, n: int)
    requires
        0 <= i < n,
    ensures
        prev_index(next_index(i, n), n) == i,
        next_index(prev_index(i, n), n) == i,
{
    if i + 1 < n {
        vstd::arithmetic::div_mod::lemma_small_mod((i + 1) as nat, n as nat);
        vstd::arithmetic::div_mod::lemma_small_mod(i as nat, n as nat);
    } else {
        vstd::arithmetic::div_mod::lemma_mod_self_0(n);
    }
    if i > 0 {
        vstd::arithmetic::div_mod::lemma_small_mod(i as nat, n as nat);
    } else {
        vstd::arithmetic::div_mod::lemma_mod_self_0(n);
    }
}

/// Law: a tab given a name shows it, whatever its panes are titled; once the name is
/// dropped the tab shows its active pane's own name.
pub proof fn lemma_rename_shows_name(m: ManagerView, name: Seq<char>)
    requires
        m.wf(),
    ensures
        rename_result(m, name).active_tab().display_name() == name,
        revert_name_result(m).active_tab().display_name()
            == m.active_tab().panes[m.active_tab().active_pane as int].spec_auto_name(),
{
}

/// The columns that `panes` span side by side: their widths and a divider between each
/// two.
pub open spec fn spanned_width(panes: Seq<Pane>) -> int
    decreases panes.len(),
{
    if panes.len() == 0 {
        0
    } else if panes.len() == 1 {
        panes[0].width as int
    } else {
        spanned_width(panes.drop_last()) + 1 + panes.last().width
    }
}

proof fn lemma_spanned_prefix(panes: Seq<Pane>, size: TerminalSize, k: int)
    requires
        1 <= panes.len() <= 65535,
        size.spec_cols() >= 1,
        1 <= k <= panes.len(),
    ensures
        spanned_width(laid_out(panes, size).take(k)) == crate::size::split_total_width(
            size.spec_cols() as int,
            panes.len() as usize,
            k as nat,
        ) + (k - 1),
    decreases k,
{
    let n = panes.len() as usize;
    let cols = size.spec_cols() as int;
    let l = laid_out(panes, size);
    let lk = l.take(k);
    crate::size::lemma_split_width_bound(size.spec_cols(), n, k - 1);
    assert(lk.last() == l[k - 1]);
    assert(l[k - 1].width as int == split_width(cols, n, k - 1));
    assert(crate::size::split_total_width(cols, n, k as nat) == crate::size::split_total_width(cols, n, (k - 1) as nat)
        + split_width(cols, n, k - 1));
    if k == 1 {
        assert(lk[0] == l[0]);
        assert(crate::size::split_total_width(cols, n, 0) == 0);
    } else {
        lemma_spanned_prefix(panes, size, k - 1);
        assert(lk.drop_last() =~= l.take(k - 1));
    }
}

/// Law: whenever a tab's panes are laid out (on a split, a close or a resize) and each can
/// get a column, the panes and the dividers between them span the terminal's width
/// exactly, every pane is at least one column wide, and every pane is as tall as the
/// content area.
pub proof fn lemma_laid_out_fills(panes: Seq<Pane>, size: TerminalSize)
    requires
        1 <= panes.len() <= 65535,
        2 * panes.len() - 1 <= size.spec_cols(),
    ensures
        spanned_width(laid_out(panes, size)) == size.spec_cols(),
        crate::size::split_total_width(size.spec_cols() as int, panes.len() as usize, panes.len())
            + (panes.len() - 1) == size.spec_cols(),
        forall|i: int| 0 <= i < panes.len() ==> (#[trigger] laid_out(panes, size)[i]).width >= 1,
        forall|i: int| 0 <= i < panes.len() ==> (#[trigger] laid_out(panes, size)[i]).height == ContentArea::spec_from_size(size).1,
        forall|i: int| 0 <= i < panes.len() ==> (#[trigger] laid_out(panes, size)[i]).width as int == split_width(size.spec_cols() as int, panes.len() as usize, i),
{
    crate::size::lemma_split_fills_width(size.spec_cols(), panes.len() as usize);
    lemma_spanned_prefix(panes, size, panes.len() as int);
    assert(laid_out(panes, size).take(panes.len() as int) =~= laid_out(panes, size));
    assert forall|i: int| 0 <= i < panes.len() implies (#[trigger] laid_out(panes, size)[i]).width as int == split_width(size.spec_cols() as int, panes.len() as usize, i) by {
        crate::size::lemma_split_widths_positive(size.spec_cols(), panes.len() as usize, i);
        crate::size::lemma_split_width_bound(size.spec_cols(), panes.len() as usize, i);
    }
}

} // verus!
