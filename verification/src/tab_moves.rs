//! What opening, closing and moving leaves of tabs and of the panes in them.

use vstd::prelude::*;
use crate::input::{Direction, PaneId};
use crate::tabs::{
    layout_without, leaves, lemma_both_distinct, lemma_leaves, lemma_place_of, order_without,
    place_of, split_at, Layout, Tab, TabsView,
};

verus! {

proof fn lemma_split_leaves(layout: Layout, at: PaneId, direction: Direction, new: PaneId, i: int)
    requires
        leaves(layout).no_duplicates(),
        0 <= i < leaves(layout).len(),
        leaves(layout)[i] == at,
    ensures
        leaves(split_at(layout, at, direction, new)) == leaves(layout).insert(i + 1, new),
    decreases layout,
{
    let all = leaves(layout);
    match layout {
        Layout::Leaf(id) => {
            let first = Layout::Leaf(id);
            let second = Layout::Leaf(new);
            assert(leaves(first) == seq![id]);
            assert(leaves(second) == seq![new]);
            assert(leaves(split_at(layout, at, direction, new)) =~= all.insert(i + 1, new));
        },
        Layout::Split { direction: d, first, second } => {
            let (a, b) = (leaves(*first), leaves(*second));
            lemma_both_distinct(a, b);
            if i < a.len() {
                assert(a[i] == at);
                assert(!b.contains(at)) by {
                    if b.contains(at) {
                        let j = choose|j: int| 0 <= j < b.len() && b[j] == at;
                        assert(a[i] != b[j]);
                    }
                }
                lemma_split_leaves(*first, at, direction, new, i);
                lemma_split_elsewhere(*second, at, direction, new);
                assert(a.insert(i + 1, new) + b =~= all.insert(i + 1, new));
            } else {
                let k = i - a.len();
                assert(b[k] == at);
                assert(!a.contains(at)) by {
                    if a.contains(at) {
                        let j = choose|j: int| 0 <= j < a.len() && a[j] == at;
                        assert(a[j] != b[k]);
                    }
                }
                lemma_split_elsewhere(*first, at, direction, new);
                lemma_split_leaves(*second, at, direction, new, k);
                assert(a + b.insert(k + 1, new) =~= all.insert(i + 1, new));
            }
        },
    }
}

proof fn lemma_split_elsewhere(layout: Layout, at: PaneId, direction: Direction, new: PaneId)
    requires
        !leaves(layout).contains(at),
    ensures
        leaves(split_at(layout, at, direction, new)) == leaves(layout),
    decreases layout,
{
    match layout {
        Layout::Leaf(id) => {
            assert(leaves(layout)[0] == id);
        },
        Layout::Split { direction: d, first, second } => {
            lemma_both_distinct(leaves(*first), leaves(*second));
            lemma_split_elsewhere(*first, at, direction, new);
            lemma_split_elsewhere(*second, at, direction, new);
        },
    }
}

/// A split puts the new pane right after the one that had focus, and gives it focus. The other
/// panes stay as they were.
pub proof fn law_a_split_comes_after_the_focus(
    tab: Tab,
    direction: Direction,
    new: PaneId,
    i: int,
)
    requires
        tab.wf(),
        0 <= i < tab.ids().len(),
        tab.ids()[i] == tab.focus,
    ensures
        tab.after_split(direction, new).ids() == tab.ids().insert(i + 1, new),
        tab.after_split(direction, new).focus == new,
        tab.after_split(direction, new).zoomed == tab.zoomed,
{
    lemma_split_leaves(tab.layout, tab.focus, direction, new, i);
}

proof fn lemma_close_leaves(layout: Layout, id: PaneId, i: int)
    requires
        leaves(layout).no_duplicates(),
        0 <= i < leaves(layout).len(),
        leaves(layout)[i] == id,
    ensures
        match layout_without(layout, id) {
            Some(rest) => leaves(rest) == leaves(layout).remove(i),
            None => leaves(layout).len() == 1,
        },
        leaves(layout).len() > 1 ==> layout_without(layout, id) is Some,
    decreases layout,
{
    let all = leaves(layout);
    match layout {
        Layout::Leaf(leaf) => {},
        Layout::Split { direction, first, second } => {
            let (a, b) = (leaves(*first), leaves(*second));
            lemma_both_distinct(a, b);
            lemma_leaves(*first);
            lemma_leaves(*second);
            if i < a.len() {
                assert(a[i] == id);
                assert(!b.contains(id)) by {
                    if b.contains(id) {
                        let j = choose|j: int| 0 <= j < b.len() && b[j] == id;
                        assert(a[i] != b[j]);
                    }
                }
                lemma_close_leaves(*first, id, i);
                lemma_close_elsewhere(*second, id);
                if a.len() == 1 {
                    assert(all.remove(i) =~= b);
                    lemma_only_leaf(*first, id);
                } else {
                    assert(a.remove(i) + b =~= all.remove(i));
                }
            } else {
                let k = i - a.len();
                assert(b[k] == id);
                assert(!a.contains(id)) by {
                    if a.contains(id) {
                        let j = choose|j: int| 0 <= j < a.len() && a[j] == id;
                        assert(a[j] != b[k]);
                    }
                }
                lemma_close_elsewhere(*first, id);
                lemma_close_leaves(*second, id, k);
                if b.len() == 1 {
                    assert(all.remove(i) =~= a);
                    lemma_only_leaf(*second, id);
                } else {
                    assert(a + b.remove(k) =~= all.remove(i));
                }
            }
        },
    }
}

proof fn lemma_only_leaf(layout: Layout, id: PaneId)
    requires
        leaves(layout).len() == 1,
        leaves(layout)[0] == id,
    ensures
        layout_without(layout, id) is None,
{
    if let Layout::Split { direction, first, second } = layout {
        lemma_leaves(*first);
        lemma_leaves(*second);
    }
}

proof fn lemma_close_elsewhere(layout: Layout, id: PaneId)
    requires
        !leaves(layout).contains(id),
    ensures
        layout_without(layout, id) is Some,
        leaves(layout_without(layout, id)->0) == leaves(layout),
    decreases layout,
{
    match layout {
        Layout::Leaf(leaf) => {
            assert(leaves(layout)[0] == leaf);
        },
        Layout::Split { direction, first, second } => {
            lemma_both_distinct(leaves(*first), leaves(*second));
            lemma_close_elsewhere(*first, id);
            lemma_close_elsewhere(*second, id);
        },
    }
}

/// A pane that is closed goes, and the others stay in their order. Focus stays where it is,
/// unless it was on that pane: then the next pane has it, or the last one when there is none.
pub proof fn law_a_closed_pane_hands_its_focus_on(tab: Tab, id: PaneId, i: int)
    requires
        tab.wf(),
        tab.ids().len() > 1,
        0 <= i < tab.ids().len(),
        tab.ids()[i] == id,
    ensures
        tab.after_close(id).ids() == tab.ids().remove(i),
        tab.focus != id ==> tab.after_close(id).focus == tab.focus,
        tab.focus == id && i + 1 < tab.ids().len() ==> tab.after_close(id).focus == tab.ids()[i
            + 1],
        tab.focus == id && i + 1 == tab.ids().len() ==> tab.after_close(id).focus == tab.ids()[i
            - 1],
{
    lemma_close_leaves(tab.layout, id, i);
    lemma_place_of(tab.ids(), id, 0);
    let at = place_of(tab.ids(), id, 0);
    assert(tab.ids().contains(id));
    assert(at == i);
}

/// The tab after the shown one, or before it, is the next in a circle.
pub proof fn law_tabs_go_round(tabs: TabsView)
    requires
        tabs.wf(),
        tabs.all.len() <= usize::MAX,
    ensures
        tabs.cycled(true).active == (tabs.active + 1) % (tabs.all.len() as int),
        tabs.cycled(false).active == (tabs.active + tabs.all.len() - 1) % (tabs.all.len() as int),
        tabs.cycled(true).all == tabs.all,
        tabs.cycled(false).all == tabs.all,
{
    let n = tabs.all.len() as int;
    let a = tabs.active as int;
    assert(0 <= a < n ==> (if a + 1 < n {
        a + 1
    } else {
        0
    }) == (a + 1) % n) by (nonlinear_arith);
    assert(tabs.cycled(true).active as int == (if a + 1 < n {
        a + 1
    } else {
        0
    }));
    assert(0 <= a < n ==> (if a > 0 {
        a - 1
    } else {
        n - 1
    }) == (a + n - 1) % n) by (nonlinear_arith);
    assert(tabs.cycled(false).active as int == (if a > 0 {
        a - 1
    } else {
        n - 1
    }));
}

proof fn lemma_order_kept(order: Seq<usize>, i: usize)
    ensures
        order_without(order, i) == order.filter(|p: usize| p != i),
    decreases order.len(),
{
    reveal(Seq::filter);
    if order.len() > 0 {
        lemma_order_kept(order.drop_last(), i);
    }
}

/// The tab that is gone to is shown and is the last used; the others were used in the order
/// they were. A number that no tab has changes nothing.
pub proof fn law_the_shown_tab_is_the_last_used(tabs: TabsView, i: int)
    requires
        tabs.wf(),
        0 <= i,
        tabs.all.len() <= usize::MAX,
    ensures
        i < tabs.all.len() ==> {
            let after = tabs.switched(i);
            &&& after.tab() == tabs.all[i]
            &&& after.all == tabs.all && after.names == tabs.names
            &&& after.mru == seq![i as usize] + tabs.mru.filter(|p: usize| p != i as usize)
            &&& after.walk is None
        },
        i >= tabs.all.len() ==> tabs.switched(i) == tabs,
{
    lemma_order_kept(tabs.mru, i as usize);
}

/// A tab that is opened comes last, without a name, and is shown.
pub proof fn law_an_opened_tab_is_shown(tabs: TabsView, tab: Tab)
    requires
        tabs.wf(),
        tabs.all.len() < usize::MAX,
    ensures
        tabs.opened(tab).all == tabs.all.push(tab),
        tabs.opened(tab).tab() == tab,
        tabs.opened(tab).names == tabs.names.push(None),
{
}

/// When a tab is closed, what is shown stays shown, with its name; when it is the shown tab
/// that goes, the one after it is shown, or the last.
pub proof fn law_closing_a_tab_leaves_the_shown_one(tabs: TabsView, i: int)
    requires
        tabs.wf(),
        0 <= i < tabs.all.len(),
        tabs.all.len() > 1,
        tabs.all.len() <= usize::MAX,
    ensures
        ({
            let after = tabs.closed(i);
            let at = tabs.active as int;
            &&& after.all == tabs.all.remove(i) && after.names == tabs.names.remove(i)
            &&& at != i ==> after.tab() == tabs.tab() && after.names[after.active as int]
                == tabs.names[at]
            &&& at == i && i + 1 < tabs.all.len() ==> after.tab() == tabs.all[i + 1]
            &&& at == i && i + 1 == tabs.all.len() ==> after.tab() == tabs.all[i - 1]
            &&& after.mru.len() > 0 && after.mru[0] == after.active
        }),
{
}

/// Two tabs that change places keep their names and what they hold, and the tab that is shown
/// stays shown.
pub proof fn law_a_moved_tab_stays_shown(tabs: TabsView, a: int, b: int)
    requires
        tabs.wf(),
        0 <= a < tabs.all.len(),
        0 <= b < tabs.all.len(),
        tabs.all.len() <= usize::MAX,
    ensures
        ({
            let after = tabs.swapped(a, b);
            &&& after.all[a] == tabs.all[b] && after.all[b] == tabs.all[a]
            &&& after.names[a] == tabs.names[b] && after.names[b] == tabs.names[a]
            &&& forall|k: int|
                0 <= k < tabs.all.len() && k != a && k != b ==> #[trigger] after.all[k]
                    == tabs.all[k]
            &&& after.tab() == tabs.tab()
        }),
{
}

/// A walk goes back through the tabs in the order they were used, and forward again, without
/// changing that order.
pub proof fn law_a_walk_follows_the_order_of_use(tabs: TabsView)
    requires
        tabs.wf(),
        tabs.all.len() > 1,
        tabs.mru.len() > 0,
    ensures
        ({
            let at = match tabs.walk {
                Some(at) => at as int,
                None => 0,
            };
            let back = tabs.walked(false);
            let on = tabs.walked(true);
            &&& back.mru == tabs.mru && on.mru == tabs.mru
            &&& at + 1 < tabs.mru.len() ==> back.active == tabs.mru[at + 1] && back.walk == Some(
                (at + 1) as usize,
            )
            &&& at + 1 == tabs.mru.len() ==> back.active == tabs.mru[at]
            &&& at > 0 ==> on.active == tabs.mru[at - 1] && on.walk == Some((at - 1) as usize)
            &&& at == 0 ==> on.active == tabs.mru[0]
        }),
{
}

} // verus!
