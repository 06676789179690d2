//! Tabs and the panes they are split into.

use vstd::prelude::*;
use crate::input::{Direction, PaneId};
use crate::navigation::search::string_view;
use crate::text::least;

verus! {

// ------------------------------------------------------------------------
// Layouts
// ------------------------------------------------------------------------

/// How a tab is split into panes.
#[derive(Debug)]
pub enum Layout {
    Leaf(PaneId),
    Split { direction: Direction, first: Box<Layout>, second: Box<Layout> },
}

/// The panes of a layout, in order.
pub open spec fn leaves(layout: Layout) -> Seq<PaneId>
    decreases layout,
{
    match layout {
        Layout::Leaf(id) => seq![id],
        Layout::Split { direction, first, second } => leaves(*first) + leaves(*second),
    }
}

/// The layout with pane `at` split, and `new` in the second half.
pub open spec fn split_at(layout: Layout, at: PaneId, direction: Direction, new: PaneId) -> Layout
    decreases layout,
{
    match layout {
        Layout::Leaf(id) => if id == at {
            Layout::Split {
                direction,
                first: Box::new(Layout::Leaf(id)),
                second: Box::new(Layout::Leaf(new)),
            }
        } else {
            layout
        },
        Layout::Split { direction: d, first, second } => Layout::Split {
            direction: d,
            first: Box::new(split_at(*first, at, direction, new)),
            second: Box::new(split_at(*second, at, direction, new)),
        },
    }
}

/// The layout without pane `id`, whose room its sibling takes. Nothing is left of that
/// pane alone.
pub open spec fn layout_without(layout: Layout, id: PaneId) -> Option<Layout>
    decreases layout,
{
    match layout {
        Layout::Leaf(leaf) => if leaf == id {
            None
        } else {
            Some(layout)
        },
        Layout::Split { direction, first, second } => match (
            layout_without(*first, id),
            layout_without(*second, id),
        ) {
            (Some(f), Some(s)) => Some(
                Layout::Split { direction, first: Box::new(f), second: Box::new(s) },
            ),
            (Some(f), None) => Some(f),
            (None, Some(s)) => Some(s),
            (None, None) => None,
        },
    }
}

/// Every layout has a pane.
pub proof fn lemma_leaves(layout: Layout)
    ensures
        leaves(layout).len() > 0,
    decreases layout,
{
    if let Layout::Split { direction, first, second } = layout {
        lemma_leaves(*first);
        lemma_leaves(*second);
    }
}

/// `a` and `b` name no pane both.
pub open spec fn apart(a: Seq<PaneId>, b: Seq<PaneId>) -> bool {
    forall|i: int, j: int|
        0 <= i < a.len() && 0 <= j < b.len() ==> #[trigger] a[i] != #[trigger] b[j]
}

pub proof fn lemma_both_distinct(a: Seq<PaneId>, b: Seq<PaneId>)
    ensures
        (a + b).no_duplicates() <==> a.no_duplicates() && b.no_duplicates() && apart(a, b),
        forall|x: PaneId| #[trigger] (a + b).contains(x) <==> a.contains(x) || b.contains(x),
{
    let both = a + b;
    if both.no_duplicates() {
        assert forall|i: int, j: int| 0 <= i < a.len() && 0 <= j < a.len() && i != j implies a[i]
            != a[j] by {
            assert(both[i] == a[i] && both[j] == a[j]);
        }
        assert forall|i: int, j: int| 0 <= i < b.len() && 0 <= j < b.len() && i != j implies b[i]
            != b[j] by {
            assert(both[a.len() + i] == b[i] && both[a.len() + j] == b[j]);
        }
        assert forall|i: int, j: int|
            0 <= i < a.len() && 0 <= j < b.len() implies #[trigger] a[i] != #[trigger] b[j] by {
            assert(both[i] == a[i] && both[a.len() + j] == b[j]);
        }
    }
    assert forall|x: PaneId| #[trigger] both.contains(x) <==> a.contains(x) || b.contains(x) by {
        if both.contains(x) {
            let i = choose|i: int| 0 <= i < both.len() && both[i] == x;
            if i < a.len() {
                assert(a[i] == x);
            } else {
                assert(b[i - a.len()] == x);
            }
        }
        if a.contains(x) {
            let i = choose|i: int| 0 <= i < a.len() && a[i] == x;
            assert(both[i] == x);
        }
        if b.contains(x) {
            let i = choose|i: int| 0 <= i < b.len() && b[i] == x;
            assert(both[a.len() + i] == x);
        }
    }
}

proof fn lemma_split_at(layout: Layout, at: PaneId, direction: Direction, new: PaneId)
    requires
        leaves(layout).no_duplicates(),
        !leaves(layout).contains(new),
    ensures
        leaves(split_at(layout, at, direction, new)).no_duplicates(),
        forall|x: PaneId| #[trigger]
            leaves(split_at(layout, at, direction, new)).contains(x) <==> leaves(layout).contains(x)
                || (leaves(layout).contains(at) && x == new),
        leaves(split_at(layout, at, direction, new)).len() == leaves(layout).len() + (if leaves(
            layout,
        ).contains(at) {
            1int
        } else {
            0
        }),
    decreases layout,
{
    match layout {
        Layout::Leaf(id) => {
            assert(leaves(layout) =~= seq![id]);
            assert(leaves(layout)[0] == id);
            if id == at {
                let both = seq![id] + seq![new];
                assert(leaves(Layout::Leaf(id)) =~= seq![id]);
                assert(leaves(Layout::Leaf(new)) =~= seq![new]);
                assert(leaves(split_at(layout, at, direction, new)) =~= both);
                assert(both[0] == id && both[1] == new);
                assert forall|x: PaneId| #[trigger] both.contains(x) <==> leaves(layout).contains(x)
                    || x == new by {
                    if both.contains(x) {
                        let i = choose|i: int| 0 <= i < both.len() && both[i] == x;
                        assert(i == 0 || i == 1);
                    }
                }
            }
        },
        Layout::Split { direction: d, first, second } => {
            lemma_both_distinct(leaves(*first), leaves(*second));
            lemma_split_at(*first, at, direction, new);
            lemma_split_at(*second, at, direction, new);
            let f = leaves(split_at(*first, at, direction, new));
            let s = leaves(split_at(*second, at, direction, new));
            lemma_both_distinct(f, s);
            assert forall|i: int, j: int|
                0 <= i < f.len() && 0 <= j < s.len() implies #[trigger] f[i] != #[trigger] s[j] by {
                assert(f.contains(f[i]) && s.contains(s[j]));
                lemma_apart(leaves(*first), leaves(*second));
            }
            lemma_apart(leaves(*first), leaves(*second));
        },
    }
}

proof fn lemma_apart(a: Seq<PaneId>, b: Seq<PaneId>)
    requires
        apart(a, b),
    ensures
        forall|x: PaneId| #![trigger a.contains(x)] #![trigger b.contains(x)] !(a.contains(x) && b.contains(x)),
{
    assert forall|x: PaneId| #![trigger a.contains(x)] #![trigger b.contains(x)] !(a.contains(x) && b.contains(x)) by {
        if a.contains(x) && b.contains(x) {
            let i = choose|i: int| 0 <= i < a.len() && a[i] == x;
            let j = choose|j: int| 0 <= j < b.len() && b[j] == x;
            assert(a[i] != b[j]);
        }
    }
}

/// What is left of panes when `id` goes.
pub open spec fn panes_without(panes: Seq<PaneId>, id: PaneId) -> Seq<PaneId>
    decreases panes.len(),
{
    if panes.len() == 0 {
        panes
    } else {
        let rest = panes_without(panes.drop_last(), id);
        if panes.last() == id {
            rest
        } else {
            rest.push(panes.last())
        }
    }
}

proof fn lemma_panes_without_both(a: Seq<PaneId>, b: Seq<PaneId>, id: PaneId)
    ensures
        panes_without(a + b, id) == panes_without(a, id) + panes_without(b, id),
    decreases b.len(),
{
    if b.len() == 0 {
        assert(a + b =~= a);
        assert(panes_without(b, id) =~= Seq::empty());
        assert(panes_without(a, id) + panes_without(b, id) =~= panes_without(a, id));
    } else {
        assert((a + b).drop_last() =~= a + b.drop_last());
        lemma_panes_without_both(a, b.drop_last(), id);
        assert(panes_without(a + b, id) =~= panes_without(a, id) + panes_without(b, id));
    }
}

pub proof fn lemma_panes_without(panes: Seq<PaneId>, id: PaneId)
    ensures
        forall|x: PaneId| #[trigger] panes_without(panes, id).contains(x) <==> panes.contains(x) && x != id,
        panes.no_duplicates() ==> panes_without(panes, id).no_duplicates(),
        panes.no_duplicates() && panes.contains(id) ==> panes_without(panes, id).len() == panes.len()
            - 1,
        !panes.contains(id) ==> panes_without(panes, id) == panes,
        panes_without(panes, id).len() <= panes.len(),
    decreases panes.len(),
{
    if panes.len() > 0 {
        let rest = panes.drop_last();
        let kept = panes_without(rest, id);
        let all = panes_without(panes, id);
        lemma_panes_without(rest, id);
        assert(rest.push(panes.last()) =~= panes);
        assert forall|x: PaneId| #[trigger] panes.contains(x) <==> rest.contains(x) || x
            == panes.last() by {
            if panes.contains(x) {
                let i = choose|i: int| 0 <= i < panes.len() && panes[i] == x;
                if i < rest.len() {
                    assert(rest[i] == x);
                }
            }
            if rest.contains(x) {
                let i = choose|i: int| 0 <= i < rest.len() && rest[i] == x;
                assert(panes[i] == x);
            }
            assert(panes[panes.len() - 1] == panes.last());
        }
        assert forall|x: PaneId| #[trigger] all.contains(x) <==> panes.contains(x) && x != id by {
            if panes.last() != id {
                assert(all == kept.push(panes.last()));
                if all.contains(x) {
                    let i = choose|i: int| 0 <= i < all.len() && all[i] == x;
                    if i < kept.len() {
                        assert(kept[i] == x);
                    }
                }
                if kept.contains(x) {
                    let i = choose|i: int| 0 <= i < kept.len() && kept[i] == x;
                    assert(all[i] == x);
                }
                assert(all[all.len() - 1] == panes.last());
            }
        }
        if panes.no_duplicates() {
            assert(!rest.contains(panes.last())) by {
                if rest.contains(panes.last()) {
                    let i = choose|i: int| 0 <= i < rest.len() && rest[i] == panes.last();
                    assert(panes[i] == panes[panes.len() - 1]);
                }
            }
            assert(rest.no_duplicates());
            if panes.last() != id {
                assert forall|i: int, j: int| 0 <= i < all.len() && 0 <= j < all.len() && i
                    != j implies all[i] != all[j] by {
                    if i < kept.len() && j < kept.len() {
                        assert(kept[i] == all[i] && kept[j] == all[j]);
                    } else if i < kept.len() {
                        assert(kept.contains(kept[i]));
                    } else {
                        assert(kept.contains(kept[j]));
                    }
                }
            }
        }
        if !panes.contains(id) {
            assert(panes.contains(panes.last()));
            assert(!rest.contains(id));
            assert(all =~= panes);
        }
    }
}

/// To take a pane out of a layout is to take it out of the panes.
pub proof fn lemma_layout_without(layout: Layout, id: PaneId)
    ensures
        match layout_without(layout, id) {
            Some(rest) => leaves(rest) == panes_without(leaves(layout), id),
            None => panes_without(leaves(layout), id).len() == 0,
        },
    decreases layout,
{
    match layout {
        Layout::Leaf(leaf) => {
            assert(leaves(layout) =~= seq![leaf]);
            assert(seq![leaf].drop_last() =~= Seq::<PaneId>::empty());
            assert(panes_without(seq![leaf].drop_last(), id) =~= Seq::<PaneId>::empty());
            if leaf != id {
                assert(panes_without(seq![leaf], id) =~= seq![leaf]);
            }
        },
        Layout::Split { direction, first, second } => {
            lemma_layout_without(*first, id);
            lemma_layout_without(*second, id);
            lemma_panes_without_both(leaves(*first), leaves(*second), id);
            let f = panes_without(leaves(*first), id);
            let s = panes_without(leaves(*second), id);
            if f.len() == 0 {
                assert(f + s =~= s);
            }
            if s.len() == 0 {
                assert(f + s =~= f);
            }
        },
    }
}

fn push_leaves(layout: &Layout, panes: &mut Vec<PaneId>)
    ensures
        final(panes)@ == old(panes)@ + leaves(*layout),
    decreases layout,
{
    match layout {
        Layout::Leaf(id) => {
            panes.push(*id);
            assert(panes@ =~= old(panes)@ + leaves(*layout));
        },
        Layout::Split { first, second, .. } => {
            push_leaves(first, panes);
            push_leaves(second, panes);
            assert(panes@ =~= old(panes)@ + leaves(*layout));
        },
    }
}

fn split_layout(layout: Layout, at: PaneId, direction: Direction, new: PaneId) -> (r: Layout)
    ensures
        r == split_at(layout, at, direction, new),
    decreases layout,
{
    match layout {
        Layout::Leaf(id) => if id == at {
            Layout::Split {
                direction,
                first: Box::new(Layout::Leaf(id)),
                second: Box::new(Layout::Leaf(new)),
            }
        } else {
            Layout::Leaf(id)
        },
        Layout::Split { direction: d, first, second } => {
            let f = split_layout(*first, at, direction, new);
            let s = split_layout(*second, at, direction, new);
            Layout::Split { direction: d, first: Box::new(f), second: Box::new(s) }
        },
    }
}

fn remove_leaf(layout: Layout, id: PaneId) -> (r: Option<Layout>)
    ensures
        r == layout_without(layout, id),
    decreases layout,
{
    match layout {
        Layout::Leaf(leaf) => if leaf == id {
            None
        } else {
            Some(Layout::Leaf(leaf))
        },
        Layout::Split { direction, first, second } => {
            let f = remove_leaf(*first, id);
            let s = remove_leaf(*second, id);
            match (f, s) {
                (Some(f), Some(s)) => Some(
                    Layout::Split { direction, first: Box::new(f), second: Box::new(s) },
                ),
                (Some(f), None) => Some(f),
                (None, Some(s)) => Some(s),
                (None, None) => None,
            }
        },
    }
}

/// The same layout again.
pub fn copy_layout(layout: &Layout) -> (r: Layout)
    ensures
        r == *layout,
    decreases layout,
{
    match layout {
        Layout::Leaf(id) => Layout::Leaf(*id),
        Layout::Split { direction, first, second } => {
            let f = copy_layout(first);
            let s = copy_layout(second);
            Layout::Split { direction: *direction, first: Box::new(f), second: Box::new(s) }
        },
    }
}

/// The panes of a layout, in order.
pub fn layout_panes(layout: &Layout) -> (r: Vec<PaneId>)
    ensures
        r@ == leaves(*layout),
{
    let mut panes: Vec<PaneId> = Vec::new();
    push_leaves(layout, &mut panes);
    assert(panes@ =~= leaves(*layout));
    panes
}

/// Where `id` is among `panes`, or their number.
pub open spec fn place_of(panes: Seq<PaneId>, id: PaneId, i: int) -> int
    decreases panes.len() - i,
{
    if 0 <= i < panes.len() && panes[i] != id {
        place_of(panes, id, i + 1)
    } else {
        i
    }
}

/// Where a pane is, it is; and there is such a place if and only if it is among them.
pub proof fn lemma_place_of(panes: Seq<PaneId>, id: PaneId, i: int)
    requires
        0 <= i <= panes.len(),
        forall|j: int| 0 <= j < i ==> (#[trigger] panes[j]) != id,
    ensures
        i <= place_of(panes, id, i) <= panes.len(),
        place_of(panes, id, i) < panes.len() ==> panes[place_of(panes, id, i)] == id,
        place_of(panes, id, i) < panes.len() <==> panes.contains(id),
    decreases panes.len() - i,
{
    if i < panes.len() && panes[i] != id {
        lemma_place_of(panes, id, i + 1);
    } else if i == panes.len() {
        assert(!panes.contains(id));
    } else {
        assert(panes.contains(panes[i]));
    }
}

/// Where `id` is among `panes`, or their number.
pub fn find_pane(panes: &Vec<PaneId>, id: PaneId) -> (r: usize)
    ensures
        r == place_of(panes@, id, 0),
        r <= panes@.len(),
        r < panes@.len() <==> panes@.contains(id),
{
    proof {
        lemma_place_of(panes@, id, 0);
    }
    let mut i: usize = 0;
    while i < panes.len() && panes[i] != id
        invariant
            i <= panes@.len(),
            place_of(panes@, id, i as int) == place_of(panes@, id, 0),
        decreases panes@.len() - i,
    {
        i = i + 1;
    }
    i
}

// ------------------------------------------------------------------------
// A tab
// ------------------------------------------------------------------------

/// A tab: its panes, which of them has focus, and whether that one fills the tab.
#[derive(Debug)]
pub struct Tab {
    pub focus: PaneId,
    pub layout: Layout,
    pub zoomed: bool,
}

/// The pane that has focus when the one at `at` has gone and `panes` are left: the one
/// that came after it, or the last.
pub open spec fn heir(panes: Seq<PaneId>, at: int) -> PaneId {
    panes[least(at, panes.len() - 1)]
}

impl Tab {
    /// The tab's panes, in order.
    pub open spec fn ids(self) -> Seq<PaneId> {
        leaves(self.layout)
    }

    /// Every pane is there once, and one of them has focus.
    pub open spec fn wf(self) -> bool {
        self.ids().no_duplicates() && self.ids().contains(self.focus)
    }

    /// With the pane that has focus split, and `new` with focus.
    pub open spec fn after_split(self, direction: Direction, new: PaneId) -> Tab {
        Tab { layout: split_at(self.layout, self.focus, direction, new), focus: new, ..self }
    }

    /// Without pane `id`, which is not the only one.
    pub open spec fn after_close(self, id: PaneId) -> Tab {
        match layout_without(self.layout, id) {
            Some(layout) => Tab {
                layout,
                focus: if self.focus == id {
                    heir(leaves(layout), place_of(self.ids(), id, 0))
                } else {
                    self.focus
                },
                ..self
            },
            None => self,
        }
    }

    /// With focus on pane `id`, if it is there.
    pub open spec fn with_focus(self, id: PaneId) -> Tab {
        if self.ids().contains(id) {
            Tab { focus: id, ..self }
        } else {
            self
        }
    }

    /// The first tab: pane 0 fills it.
    pub fn new() -> (r: Tab)
        ensures
            r == (Tab { focus: PaneId(0), layout: Layout::Leaf(PaneId(0)), zoomed: false }),
            r.wf(),
    {
        Tab::with_root(PaneId(0))
    }

    /// A tab that pane `id` fills.
    pub fn with_root(id: PaneId) -> (r: Tab)
        ensures
            r == (Tab { focus: id, layout: Layout::Leaf(id), zoomed: false }),
            r.wf(),
            r.ids() == seq![id],
    {
        let r = Tab { focus: id, layout: Layout::Leaf(id), zoomed: false };
        assert(r.ids() =~= seq![id]);
        assert(r.ids()[0] == id);
        r
    }

    /// A tab split as `layout` is.
    pub fn from_tree(layout: Layout, focus: PaneId) -> (r: Tab)
        ensures
            r == (Tab { focus, layout, zoomed: false }),
    {
        Tab { focus, layout, zoomed: false }
    }

    /// The tab's panes, in order.
    pub fn panes(&self) -> (r: Vec<PaneId>)
        ensures
            r@ == self.ids(),
    {
        layout_panes(&self.layout)
    }

    /// The pane that has focus.
    pub fn focused(&self) -> (r: PaneId)
        ensures
            r == self.focus,
    {
        self.focus
    }

    /// Whether the tab has pane `id`.
    pub fn holds(&self, id: PaneId) -> (r: bool)
        ensures
            r == self.ids().contains(id),
    {
        let panes = self.panes();
        find_pane(&panes, id) < panes.len()
    }

    /// How the tab is split.
    pub fn export_tree(&self) -> (r: Layout)
        ensures
            r == self.layout,
    {
        copy_layout(&self.layout)
    }

    /// Split the pane that has focus. The new pane has focus then.
    pub fn split(&mut self, direction: Direction, new: PaneId)
        requires
            old(self).wf(),
            !old(self).ids().contains(new),
        ensures
            final(self).wf(),
            *final(self) == old(self).after_split(direction, new),
            forall|x: PaneId| #[trigger] final(self).ids().contains(x) <==> old(self).ids().contains(x) || x == new,
            final(self).ids().len() == old(self).ids().len() + 1,
    {
        proof {
            lemma_split_at(self.layout, self.focus, direction, new);
        }
        let mut layout = Layout::Leaf(new);
        std::mem::swap(&mut layout, &mut self.layout);
        self.layout = split_layout(layout, self.focus, direction, new);
        self.focus = new;
    }

    /// Close a pane that is not the only one. Its sibling takes its room.
    pub fn close(&mut self, id: PaneId)
        requires
            old(self).wf(),
            old(self).ids().len() > 1,
        ensures
            final(self).wf(),
            *final(self) == old(self).after_close(id),
            final(self).ids() == panes_without(old(self).ids(), id),
            forall|x: PaneId| #[trigger] final(self).ids().contains(x) <==> old(self).ids().contains(x) && x != id,
    {
        proof {
            lemma_layout_without(self.layout, id);
            lemma_panes_without(self.ids(), id);
            lemma_place_of(self.ids(), id, 0);
        }
        let panes = self.panes();
        let at: usize = find_pane(&panes, id);
        let mut layout = Layout::Leaf(id);
        std::mem::swap(&mut layout, &mut self.layout);
        match remove_leaf(layout, id) {
            Some(rest) => {
                if self.focus == id {
                    let left = layout_panes(&rest);
                    proof {
                        lemma_leaves(rest);
                    }
                    self.focus = if at < left.len() {
                        left[at]
                    } else {
                        left[left.len() - 1]
                    };
                    assert(leaves(rest).contains(self.focus));
                }
                self.layout = rest;
            },
            None => {
                proof {
                    if !old(self).ids().contains(id) {
                        assert(false);
                    }
                }
            },
        }
    }

    /// Give pane `id` focus, if it is there.
    pub fn give_focus(&mut self, id: PaneId)
        requires
            old(self).wf(),
        ensures
            final(self).wf(),
            *final(self) == old(self).with_focus(id),
    {
        if self.holds(id) {
            self.focus = id;
        }
    }

    /// Give the pane at `index` focus, if there is one.
    pub fn focus_by_index(&mut self, index: usize)
        requires
            old(self).wf(),
        ensures
            final(self).wf(),
            *final(self) == (if index < old(self).ids().len() {
                old(self).with_focus(old(self).ids()[index as int])
            } else {
                *old(self)
            }),
    {
        let panes = self.panes();
        if index < panes.len() {
            assert(self.ids().contains(panes@[index as int]));
            self.focus = panes[index];
        }
    }

    /// Let the pane that has focus fill the tab, or not any more.
    pub fn toggle_zoom(&mut self)
        requires
            old(self).wf(),
        ensures
            final(self).wf(),
            *final(self) == (Tab { zoomed: !old(self).zoomed, ..*old(self) }),
    {
        self.zoomed = !self.zoomed;
    }
}

/// To split a pane and close the new one leaves the panes as they were.
pub proof fn law_closing_a_split_gives_back_the_panes(tab: Tab, direction: Direction, new: PaneId)
    requires
        tab.wf(),
        !tab.ids().contains(new),
    ensures
        tab.after_split(direction, new).after_close(new).layout == tab.layout,
{
    lemma_split_then_remove(tab.layout, tab.focus, direction, new);
}

proof fn lemma_split_then_remove(layout: Layout, at: PaneId, direction: Direction, new: PaneId)
    requires
        !leaves(layout).contains(new),
    ensures
        layout_without(split_at(layout, at, direction, new), new) == Some(layout),
    decreases layout,
{
    match layout {
        Layout::Leaf(id) => {
            assert(leaves(layout)[0] == id);
            assert(id != new);
            if id == at {
                assert(layout_without(Layout::Leaf(new), new) is None);
                assert(layout_without(Layout::Leaf(id), new) == Some(Layout::Leaf(id)));
            }
        },
        Layout::Split { direction: d, first, second } => {
            lemma_both_distinct(leaves(*first), leaves(*second));
            lemma_split_then_remove(*first, at, direction, new);
            lemma_split_then_remove(*second, at, direction, new);
        },
    }
}

// ------------------------------------------------------------------------
// Tabs
// ------------------------------------------------------------------------

/// The open tabs: which is shown, in what order they were last used, and what they are
/// called.
pub struct Tabs {
    pub active: usize,
    pub all: Vec<Tab>,
    /// Tabs by their places, the last used first.
    pub mru: Vec<usize>,
    /// A name the user has given a tab.
    pub names: Vec<Option<String>>,
    /// Where in `mru` a walk through it has come to.
    pub walk: Option<usize>,
}

/// The open tabs.
pub struct TabsView {
    pub active: usize,
    pub all: Seq<Tab>,
    pub mru: Seq<usize>,
    pub names: Seq<Option<Seq<char>>>,
    pub walk: Option<usize>,
}

/// Names by their texts.
pub open spec fn name_views(names: Seq<Option<String>>) -> Seq<Option<Seq<char>>> {
    Seq::new(names.len(), |i: int| string_view(names[i]))
}

impl View for Tabs {
    type V = TabsView;

    open spec fn view(&self) -> TabsView {
        TabsView {
            active: self.active,
            all: self.all@,
            mru: self.mru@,
            names: name_views(self.names@),
            walk: self.walk,
        }
    }
}

/// `order` without `i`.
pub open spec fn order_without(order: Seq<usize>, i: usize) -> Seq<usize>
    decreases order.len(),
{
    if order.len() == 0 {
        order
    } else {
        let rest = order_without(order.drop_last(), i);
        if order.last() == i {
            rest
        } else {
            rest.push(order.last())
        }
    }
}

/// `order` with `i` in front.
pub open spec fn order_fronted(order: Seq<usize>, i: usize) -> Seq<usize> {
    seq![i] + order_without(order, i)
}

/// A place once the one at `i` is gone.
pub open spec fn shifted_place(place: usize, i: usize) -> usize {
    if place > i {
        (place - 1) as usize
    } else {
        place
    }
}

/// `order` once the place `i` is gone.
pub open spec fn order_shifted(order: Seq<usize>, i: usize) -> Seq<usize> {
    order_without(order, i).map_values(|p: usize| shifted_place(p, i))
}

/// A place once the things at `a` and `b` have changed places.
pub open spec fn swapped_place(place: usize, a: usize, b: usize) -> usize {
    if place == a {
        b
    } else if place == b {
        a
    } else {
        place
    }
}

/// `s` with what is at `a` and at `b` exchanged.
pub open spec fn exchanged<T>(s: Seq<T>, a: int, b: int) -> Seq<T> {
    s.update(a, s[b]).update(b, s[a])
}

/// Each place once, and all of them below `n`.
pub open spec fn order_ok(order: Seq<usize>, n: int) -> bool {
    order.no_duplicates() && forall|i: int| 0 <= i < order.len() ==> (#[trigger] order[i]) < n
}

proof fn lemma_order_without(order: Seq<usize>, i: usize, n: int)
    requires
        order_ok(order, n),
    ensures
        order_ok(order_without(order, i), n),
        !order_without(order, i).contains(i),
        forall|x: usize| #[trigger] order_without(order, i).contains(x) ==> order.contains(x),
    decreases order.len(),
{
    if order.len() > 0 {
        let rest = order.drop_last();
        let kept = order_without(rest, i);
        let all = order_without(order, i);
        assert forall|a: int, b: int| 0 <= a < rest.len() && 0 <= b < rest.len() && a
            != b implies rest[a] != rest[b] by {
            assert(rest[a] == order[a] && rest[b] == order[b]);
        }
        assert(rest.no_duplicates());
        lemma_order_without(rest, i, n);
        assert forall|x: usize| #[trigger] all.contains(x) implies order.contains(x) && x != i by {
            let k = choose|k: int| 0 <= k < all.len() && all[k] == x;
            if k < kept.len() {
                assert(kept[k] == x);
                assert(kept.contains(x));
                let j = choose|j: int| 0 <= j < rest.len() && rest[j] == x;
                assert(order[j] == x);
            } else {
                assert(order[order.len() - 1] == x);
            }
        }
        assert forall|a: int| 0 <= a < all.len() implies (#[trigger] all[a]) < n by {
            if a < kept.len() {
                assert(all[a] == kept[a]);
            } else {
                assert(all[a] == order[order.len() - 1]);
            }
        }
        assert forall|a: int, b: int| 0 <= a < all.len() && 0 <= b < all.len() && a
            != b implies all[a] != all[b] by {
            if a < kept.len() && b < kept.len() {
                assert(all[a] == kept[a] && all[b] == kept[b]);
            } else {
                let c = if a < kept.len() {
                    a
                } else {
                    b
                };
                assert(kept.contains(kept[c]));
                let j = choose|j: int| 0 <= j < rest.len() && rest[j] == kept[c];
                assert(order[j] == kept[c]);
                assert(order[j] != order[order.len() - 1]);
            }
        }
    }
}

proof fn lemma_order_fronted(order: Seq<usize>, i: usize, n: int)
    requires
        order_ok(order, n),
        i < n,
    ensures
        order_ok(order_fronted(order, i), n),
{
    lemma_order_without(order, i, n);
    let rest = order_without(order, i);
    let all = order_fronted(order, i);
    assert forall|a: int| 0 <= a < all.len() implies (#[trigger] all[a]) < n by {
        if a > 0 {
            assert(all[a] == rest[a - 1]);
        }
    }
    assert forall|a: int, b: int| 0 <= a < all.len() && 0 <= b < all.len() && a != b implies all[a]
        != all[b] by {
        if a > 0 {
            assert(all[a] == rest[a - 1]);
            assert(rest.contains(rest[a - 1]));
        }
        if b > 0 {
            assert(all[b] == rest[b - 1]);
            assert(rest.contains(rest[b - 1]));
        }
    }
}

proof fn lemma_order_shifted(order: Seq<usize>, i: usize, n: int)
    requires
        order_ok(order, n),
        i < n,
    ensures
        order_ok(order_shifted(order, i), n - 1),
{
    lemma_order_without(order, i, n);
    let rest = order_without(order, i);
    let all = order_shifted(order, i);
    assert forall|a: int| 0 <= a < all.len() implies (#[trigger] all[a]) < n - 1 by {
        assert(all[a] == shifted_place(rest[a], i));
        assert(rest.contains(rest[a]));
    }
    assert forall|a: int, b: int| 0 <= a < all.len() && 0 <= b < all.len() && a != b implies all[a]
        != all[b] by {
        assert(all[a] == shifted_place(rest[a], i) && all[b] == shifted_place(rest[b], i));
        assert(rest.contains(rest[a]) && rest.contains(rest[b]));
        assert(rest[a] != rest[b]);
    }
}

impl TabsView {
    /// There is a tab, the shown one is one of them, each has a place for a name, and
    /// the order of use speaks of each at most once.
    pub open spec fn wf(self) -> bool {
        &&& self.active < self.all.len()
        &&& self.names.len() == self.all.len()
        &&& order_ok(self.mru, self.all.len() as int)
        &&& self.walk matches Some(at) ==> at < self.mru.len()
        &&& forall|i: int| 0 <= i < self.all.len() ==> (#[trigger] self.all[i]).wf()
    }

    /// The tab that is shown.
    pub open spec fn tab(self) -> Tab {
        self.all[self.active as int]
    }

    /// With tab `i` shown, if there is one. It is the last used, and a walk is over.
    pub open spec fn switched(self, i: int) -> TabsView {
        if i < self.all.len() {
            TabsView {
                active: i as usize,
                mru: order_fronted(self.mru, i as usize),
                walk: None,
                ..self
            }
        } else {
            self
        }
    }

    /// With the tab after or before the shown one shown, around the end.
    pub open spec fn cycled(self, forward: bool) -> TabsView {
        let n = self.all.len();
        self.switched(if forward {
            if self.active + 1 < n {
                self.active + 1
            } else {
                0
            }
        } else {
            if self.active > 0 {
                self.active - 1
            } else {
                n - 1
            }
        })
    }

    /// With the tab that was used before, or after, the one a walk has come to shown.
    /// The order of use stays as it is.
    pub open spec fn walked(self, forward: bool) -> TabsView {
        if self.all.len() <= 1 || self.mru.len() == 0 {
            self
        } else {
            let at = match self.walk {
                Some(at) => at as int,
                None => 0,
            };
            let next = if forward {
                if at > 0 {
                    at - 1
                } else {
                    0
                }
            } else {
                least(at + 1, self.mru.len() - 1)
            };
            TabsView { active: self.mru[next], walk: Some(next as usize), ..self }
        }
    }

    /// With `tab` opened and shown.
    pub open spec fn opened(self, tab: Tab) -> TabsView {
        TabsView { all: self.all.push(tab), names: self.names.push(None), ..self }.switched(
            self.all.len() as int,
        )
    }

    /// Without tab `i`. What is shown stays shown, unless that is the tab that goes:
    /// then the one that comes after it is, or the last.
    pub open spec fn closed(self, i: int) -> TabsView {
        let all = self.all.remove(i);
        let active = if self.active > i {
            self.active - 1
        } else if self.active == i {
            least(i, all.len() - 1)
        } else {
            self.active as int
        };
        TabsView {
            active: active as usize,
            all,
            mru: order_fronted(order_shifted(self.mru, i as usize), active as usize),
            names: self.names.remove(i),
            walk: None,
        }
    }

    /// With the tabs at `a` and `b` in each other's place. What is shown stays shown.
    pub open spec fn swapped(self, a: int, b: int) -> TabsView {
        if a == b || a >= self.all.len() || b >= self.all.len() {
            self
        } else {
            TabsView {
                active: swapped_place(self.active, a as usize, b as usize),
                all: exchanged(self.all, a, b),
                mru: self.mru.map_values(|p: usize| swapped_place(p, a as usize, b as usize)),
                names: exchanged(self.names, a, b),
                ..self
            }
        }
    }

    /// With the shown tab as `tab` is.
    pub open spec fn with_tab(self, tab: Tab) -> TabsView {
        TabsView { all: self.all.update(self.active as int, tab), ..self }
    }

    /// The place of the first tab from `i` on that has pane `id`, or the number of tabs.
    pub open spec fn holding(self, id: PaneId, i: int) -> int
        decreases self.all.len() - i,
    {
        if 0 <= i < self.all.len() && !self.all[i].ids().contains(id) {
            self.holding(id, i + 1)
        } else {
            i
        }
    }
}

/// The place of a tab that has a pane is one, and the tab has the pane.
pub proof fn lemma_holding(tabs: TabsView, id: PaneId, i: int)
    requires
        0 <= i <= tabs.all.len(),
    ensures
        i <= tabs.holding(id, i) <= tabs.all.len(),
        tabs.holding(id, i) < tabs.all.len() ==> tabs.all[tabs.holding(id, i)].ids().contains(id),
    decreases tabs.all.len() - i,
{
    if i < tabs.all.len() && !tabs.all[i].ids().contains(id) {
        lemma_holding(tabs, id, i + 1);
    }
}

fn without_place(order: &Vec<usize>, i: usize) -> (r: Vec<usize>)
    ensures
        r@ == order_without(order@, i),
{
    let mut kept: Vec<usize> = Vec::new();
    let mut k: usize = 0;
    assert(order@.take(0) =~= Seq::empty());
    while k < order.len()
        invariant
            k <= order@.len(),
            kept@ == order_without(order@.take(k as int), i),
        decreases order@.len() - k,
    {
        assert(order@.take(k + 1).drop_last() =~= order@.take(k as int));
        if order[k] != i {
            kept.push(order[k]);
        }
        k = k + 1;
    }
    assert(order@.take(k as int) =~= order@);
    kept
}

fn fronted(order: &Vec<usize>, i: usize) -> (r: Vec<usize>)
    ensures
        r@ == order_fronted(order@, i),
{
    let mut kept = without_place(order, i);
    kept.insert(0, i);
    assert(kept@ =~= order_fronted(order@, i));
    kept
}

impl Tabs {
    /// What is held is in order.
    pub open spec fn wf(self) -> bool {
        self@.wf()
    }

    /// One tab, which pane 0 fills.
    pub fn new() -> (r: Tabs)
        ensures
            r.wf(),
            r@ == (TabsView {
                active: 0,
                all: seq![
                    Tab { focus: PaneId(0), layout: Layout::Leaf(PaneId(0)), zoomed: false },
                ],
                mru: seq![0usize],
                names: seq![None],
                walk: None,
            }),
    {
        let mut all: Vec<Tab> = Vec::new();
        all.push(Tab::new());
        let mut mru: Vec<usize> = Vec::new();
        mru.push(0);
        let mut names: Vec<Option<String>> = Vec::new();
        names.push(None);
        let r = Tabs { active: 0, all, mru, names, walk: None };
        assert(r@.names =~= seq![None]);
        assert(r@.mru =~= seq![0usize]);
        r
    }

    /// The tab that is shown.
    pub fn tab(&self) -> (r: &Tab)
        requires
            self.wf(),
        ensures
            *r == self@.tab(),
    {
        &self.all[self.active]
    }

    /// Show tab `i`, if there is one.
    pub fn switch_tab(&mut self, i: usize)
        requires
            old(self).wf(),
        ensures
            final(self).wf(),
            final(self)@ == old(self)@.switched(i as int),
    {
        if i < self.all.len() {
            proof {
                lemma_order_fronted(self.mru@, i, self.all@.len() as int);
            }
            self.active = i;
            self.mru = fronted(&self.mru, i);
            self.walk = None;
        }
    }

    /// Show the tab after the shown one, or before it, around the end.
    pub fn cycle_tab(&mut self, forward: bool)
        requires
            old(self).wf(),
        ensures
            final(self).wf(),
            final(self)@ == old(self)@.cycled(forward),
    {
        let total: usize = self.all.len();
        let next: usize = if forward {
            if self.active < total - 1 {
                self.active + 1
            } else {
                0
            }
        } else if self.active > 0 {
            self.active - 1
        } else {
            total - 1
        };
        self.switch_tab(next);
    }

    /// Show the tab that was used before the one a walk has come to, or after it.
    pub fn recent_tab(&mut self, forward: bool)
        requires
            old(self).wf(),
        ensures
            final(self).wf(),
            final(self)@ == old(self)@.walked(forward),
    {
        if self.all.len() <= 1 || self.mru.len() == 0 {
            return;
        }
        let at: usize = match self.walk {
            Some(at) => at,
            None => 0,
        };
        let next: usize = if forward {
            if at > 0 {
                at - 1
            } else {
                0
            }
        } else if at < self.mru.len() - 1 {
            at + 1
        } else {
            self.mru.len() - 1
        };
        self.active = self.mru[next];
        self.walk = Some(next);
    }

    /// Open `tab` and show it.
    pub fn open(&mut self, tab: Tab)
        requires
            old(self).wf(),
            tab.wf(),
            old(self)@.all.len() < usize::MAX,
        ensures
            final(self).wf(),
            final(self)@ == old(self)@.opened(tab),
    {
        let at: usize = self.all.len();
        self.all.push(tab);
        self.names.push(None);
        assert(name_views(self.names@) =~= old(self)@.names.push(None));
        assert(self.wf());
        self.switch_tab(at);
    }

    /// Close tab `i`, which is not the only one.
    pub fn close(&mut self, i: usize)
        requires
            old(self).wf(),
            i < old(self)@.all.len(),
            old(self)@.all.len() > 1,
        ensures
            final(self).wf(),
            final(self)@ == old(self)@.closed(i as int),
    {
        let ghost before = self@;
        proof {
            lemma_order_shifted(self.mru@, i, self.all@.len() as int);
        }
        self.all.remove(i);
        self.names.remove(i);
        let total: usize = self.all.len();
        if self.active > i {
            self.active = self.active - 1;
        } else if self.active == i && i > total - 1 {
            self.active = total - 1;
        }
        let kept = without_place(&self.mru, i);
        let mut order: Vec<usize> = Vec::new();
        let mut k: usize = 0;
        while k < kept.len()
            invariant
                k <= kept@.len(),
                order@ == kept@.take(k as int).map_values(|p: usize| shifted_place(p, i)),
            decreases kept@.len() - k,
        {
            let p: usize = kept[k];
            order.push(
                if p > i {
                    p - 1
                } else {
                    p
                },
            );
            assert(order@ =~= kept@.take(k + 1).map_values(|p: usize| shifted_place(p, i)));
            k = k + 1;
        }
        assert(kept@.take(k as int) =~= kept@);
        self.mru = fronted(&order, self.active);
        self.walk = None;
        proof {
            lemma_order_fronted(order@, self.active, total as int);
            assert(name_views(self.names@) =~= before.names.remove(i as int));
        }
    }

    /// Let the tabs at `a` and `b` change places.
    pub fn swap_tabs(&mut self, a: usize, b: usize)
        requires
            old(self).wf(),
        ensures
            final(self).wf(),
            final(self)@ == old(self)@.swapped(a as int, b as int),
    {
        if a == b || a >= self.all.len() || b >= self.all.len() {
            return;
        }
        let ghost before = self@;
        let (low, high): (usize, usize) = if a < b {
            (a, b)
        } else {
            (b, a)
        };
        let second = self.all.remove(high);
        let first = self.all.remove(low);
        self.all.insert(low, second);
        self.all.insert(high, first);
        assert(self.all@ =~= exchanged(before.all, a as int, b as int));
        let second_name = self.names.remove(high);
        let first_name = self.names.remove(low);
        self.names.insert(low, second_name);
        self.names.insert(high, first_name);
        assert(name_views(self.names@) =~= exchanged(before.names, a as int, b as int));
        if self.active == a {
            self.active = b;
        } else if self.active == b {
            self.active = a;
        }
        let mut order: Vec<usize> = Vec::new();
        let mut k: usize = 0;
        while k < self.mru.len()
            invariant
                k <= self.mru@.len(),
                order@ == self.mru@.take(k as int).map_values(|p: usize| swapped_place(p, a, b)),
            decreases self.mru@.len() - k,
        {
            let p: usize = self.mru[k];
            order.push(
                if p == a {
                    b
                } else if p == b {
                    a
                } else {
                    p
                },
            );
            assert(order@ =~= self.mru@.take(k + 1).map_values(|p: usize| swapped_place(p, a, b)));
            k = k + 1;
        }
        assert(self.mru@.take(k as int) =~= self.mru@);
        proof {
            let all = order@;
            assert(all.len() == before.mru.len());
            assert forall|x: int, y: int| 0 <= x < all.len() && 0 <= y < all.len() && x
                != y implies all[x] != all[y] by {
                assert(all[x] == swapped_place(before.mru[x], a, b));
                assert(all[y] == swapped_place(before.mru[y], a, b));
                assert(before.mru[x] != before.mru[y]);
            }
            assert forall|x: int| 0 <= x < all.len() implies (#[trigger] all[x])
                < before.all.len() by {
                assert(all[x] == swapped_place(before.mru[x], a, b));
                assert(before.mru[x] < before.all.len());
            }
            assert forall|x: int| 0 <= x < self.all@.len() implies (#[trigger] self.all@[x]).wf() by {
                assert(before.all[x].wf() && before.all[a as int].wf() && before.all[b as int].wf());
            }
        }
        self.mru = order;
    }

    /// The place of the first tab that has pane `id`.
    pub fn tab_holding(&self, id: PaneId) -> (r: Option<usize>)
        ensures
            match r {
                Some(i) => i == self@.holding(id, 0) && i < self@.all.len()
                    && self@.all[i as int].ids().contains(id),
                None => self@.holding(id, 0) == self@.all.len(),
            },
    {
        let mut i: usize = 0;
        while i < self.all.len()
            invariant
                i <= self.all@.len(),
                self@.holding(id, i as int) == self@.holding(id, 0),
            decreases self.all@.len() - i,
        {
            if self.all[i].holds(id) {
                return Some(i);
            }
            i = i + 1;
        }
        None
    }
}

/// To switch to a tab is to have used it last: the next step back through the order of
/// use leads to the tab that was last used before.
pub proof fn law_the_last_used_tab_is_one_step_back(tabs: TabsView, i: int)
    requires
        tabs.wf(),
        0 <= i < tabs.all.len(),
        i != tabs.active,
        tabs.mru.len() > 0,
        tabs.mru[0] == tabs.active,
        tabs.all.len() <= usize::MAX,
    ensures
        tabs.switched(i).mru[0] == i,
        tabs.switched(i).walked(false).active == tabs.active,
        tabs.switched(i).walked(false).mru == tabs.switched(i).mru,
{
    lemma_first_stays(tabs.mru, i as usize);
}

proof fn lemma_first_stays(order: Seq<usize>, i: usize)
    requires
        order.len() > 0,
        order[0] != i,
    ensures
        order_without(order, i).len() > 0,
        order_without(order, i)[0] == order[0],
    decreases order.len(),
{
    if order.len() > 1 {
        assert(order.drop_last()[0] == order[0]);
        lemma_first_stays(order.drop_last(), i);
    } else {
        assert(order_without(order.drop_last(), i) =~= Seq::empty());
    }
}

/// A tab that changes places with another and back is where it was.
pub proof fn law_swapping_tabs_twice_returns(tabs: TabsView, a: int, b: int)
    requires
        tabs.wf(),
        0 <= a < tabs.all.len(),
        0 <= b < tabs.all.len(),
        tabs.all.len() <= usize::MAX,
    ensures
        tabs.swapped(a, b).swapped(a, b) == tabs,
{
    if a != b {
        let once = tabs.swapped(a, b);
        let twice = once.swapped(a, b);
        assert(twice.all =~= tabs.all);
        assert(twice.names =~= tabs.names);
        assert(twice.mru =~= tabs.mru) by {
            assert forall|i: int| 0 <= i < tabs.mru.len() implies #[trigger] twice.mru[i]
                == tabs.mru[i] by {
                assert(once.mru[i] == swapped_place(tabs.mru[i], a as usize, b as usize));
                assert(twice.mru[i] == swapped_place(once.mru[i], a as usize, b as usize));
            }
        }
    }
}

} // verus!
