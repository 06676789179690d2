//! What keys and commands do to the tabs and panes of the window.

use vstd::prelude::*;
use crate::app::commands::{command_named, Command};
use crate::app::{AppView, Keymap};
use crate::input::{Action, BlockNav, Direction, FocusDir, PaneId};
use crate::requests::RequestView;
use crate::session::EffectView;
use crate::tab_moves::{
    law_a_moved_tab_stays_shown, law_a_split_comes_after_the_focus, law_an_opened_tab_is_shown,
    law_tabs_go_round, law_the_shown_tab_is_the_last_used,
};

verus! {

/// The next tab and the one before it are shown in a circle, and a tab is gone to by its
/// number, the first being number one. The tabs stay as they were.
pub proof fn law_a_key_shows_another_tab(
    app: AppView,
    focused: PaneId,
    keymap: Keymap,
    n: usize,
)
    requires
        app.tabs.wf(),
        app.tabs.all.len() <= usize::MAX,
        n >= 1,
    ensures
        ({
            let count = app.tabs.all.len() as int;
            let next = app.window_acted(Action::NextTab, focused, keymap);
            let prev = app.window_acted(Action::PrevTab, focused, keymap);
            let there = app.window_acted(Action::GotoTab(n), focused, keymap);
            &&& next.tabs.active == (app.tabs.active + 1) % count && next.tabs.all == app.tabs.all
            &&& prev.tabs.active == (app.tabs.active + count - 1) % count && prev.tabs.all
                == app.tabs.all
            &&& n <= count ==> there.tabs.active == n - 1 && there.tabs.all == app.tabs.all
            &&& n > count ==> there.tabs == app.tabs
        }),
{
    reveal(AppView::window_acted);
    law_tabs_go_round(app.tabs);
    law_the_shown_tab_is_the_last_used(app.tabs, n - 1);
}

/// The shown tab moves by one place and stays shown. It does not move past either end.
pub proof fn law_a_key_moves_the_shown_tab(app: AppView, focused: PaneId, keymap: Keymap)
    requires
        app.tabs.wf(),
        app.tabs.all.len() <= usize::MAX,
    ensures
        ({
            let at = app.tabs.active as int;
            let left = app.window_acted(Action::MoveTabLeft, focused, keymap);
            let right = app.window_acted(Action::MoveTabRight, focused, keymap);
            &&& at > 0 ==> left.tabs.all[at - 1] == app.tabs.all[at] && left.tabs.all[at]
                == app.tabs.all[at - 1] && left.tabs.tab() == app.tabs.tab()
            &&& at == 0 ==> left.tabs == app.tabs
            &&& at + 1 < app.tabs.all.len() ==> right.tabs.all[at + 1] == app.tabs.all[at]
                && right.tabs.all[at] == app.tabs.all[at + 1] && right.tabs.tab()
                == app.tabs.tab()
            &&& at + 1 == app.tabs.all.len() ==> right.tabs == app.tabs
        }),
{
    reveal(AppView::window_acted);
    let at = app.tabs.active as int;
    if at > 0 {
        law_a_moved_tab_stays_shown(app.tabs, at, at - 1);
    }
    if at + 1 < app.tabs.all.len() {
        law_a_moved_tab_stays_shown(app.tabs, at, at + 1);
    }
}

/// A command does what the key for the same thing does.
pub proof fn law_a_command_does_as_its_key(
    app: AppView,
    focused: PaneId,
    keymap: Keymap,
    direction: Direction,
    dir: FocusDir,
)
    ensures
        app.commanded(Command::NewTab, focused) == app.window_acted(
            Action::NewTab,
            focused,
            keymap,
        ),
        app.commanded(Command::NextTab, focused) == app.window_acted(
            Action::NextTab,
            focused,
            keymap,
        ),
        app.commanded(Command::PrevTab, focused) == app.window_acted(
            Action::PrevTab,
            focused,
            keymap,
        ),
        app.commanded(Command::CloseTab, focused) == app.window_acted(
            Action::CloseTab(None),
            focused,
            keymap,
        ),
        app.commanded(Command::ClosePane, focused) == app.window_acted(
            Action::ClosePane,
            focused,
            keymap,
        ),
        app.commanded(Command::Split(direction), focused) == app.window_acted(
            Action::SplitPane(direction),
            focused,
            keymap,
        ),
        app.commanded(Command::Focus(dir), focused) == app.window_acted(
            Action::FocusPane(dir),
            focused,
            keymap,
        ),
        app.commanded(Command::OpenSettings, focused) == app.window_acted(
            Action::OpenSettings,
            focused,
            keymap,
        ),
        app.commanded(Command::TogglePaneZoom, focused).tabs == app.window_acted(
            Action::ZoomPane,
            focused,
            keymap,
        ).tabs,
{
    reveal(AppView::commanded);
    reveal(AppView::window_acted);
}

/// A split asks for one shell, in the new pane, which comes right after the one that had focus
/// and has focus now. The other tabs stay as they were.
pub proof fn law_a_split_asks_for_a_shell(
    app: AppView,
    direction: Direction,
    cwd: Option<Seq<char>>,
    i: int,
)
    requires
        app.tabs.wf(),
        app.tabs.tab().wf(),
        0 <= app.tabs.active < app.tabs.all.len(),
        0 <= i < app.tabs.tab().ids().len(),
        app.tabs.tab().ids()[i] == app.tabs.tab().focus,
        app.next_pane_id < u64::MAX,
    ensures
        ({
            let after = app.pane_split(direction, cwd);
            let new = PaneId(app.next_pane_id);
            &&& after.tabs.tab().ids() == app.tabs.tab().ids().insert(i + 1, new)
            &&& after.tabs.tab().focus == new
            &&& after.tabs.active == app.tabs.active
            &&& after.tabs.all.len() == app.tabs.all.len()
            &&& forall|k: int|
                0 <= k < app.tabs.all.len() && k != app.tabs.active ==> #[trigger] after.tabs.all[k]
                    == app.tabs.all[k]
            &&& after.next_pane_id == app.next_pane_id + 1
            &&& after.shared.effects.len() == app.shared.effects.len() + 1
            &&& after.shared.effects.last() matches EffectView::Ask(
                RequestView::SpawnShell { pane, cells: _, cwd: from },
            ) && pane == new && from == cwd
        }),
{
    reveal(AppView::pane_split);
    law_a_split_comes_after_the_focus(app.tabs.tab(), direction, PaneId(app.next_pane_id), i);
}

/// A tab that is opened comes last and is shown. It has one pane, which is new and has focus,
/// and a shell is asked for in it.
pub proof fn law_a_tab_is_opened_for_a_shell(app: AppView, cwd: Option<Seq<char>>)
    requires
        app.tabs.wf(),
        app.tabs.all.len() < usize::MAX,
        app.next_pane_id < u64::MAX,
    ensures
        ({
            let after = app.tab_opened(cwd);
            let new = PaneId(app.next_pane_id);
            &&& after.tabs.all.drop_last() == app.tabs.all
            &&& after.tabs.tab() == after.tabs.all.last()
            &&& after.tabs.tab().ids() == seq![new]
            &&& after.tabs.tab().focus == new
            &&& after.next_pane_id == app.next_pane_id + 1
            &&& after.shared.effects.len() == app.shared.effects.len() + 1
            &&& after.shared.effects.last() matches EffectView::Ask(
                RequestView::SpawnShell { pane, cells: _, cwd: from },
            ) && pane == new && from == cwd
        }),
{
    reveal(AppView::tab_opened);
    let after = app.tab_opened(cwd);
    law_an_opened_tab_is_shown(app.tabs, after.tabs.all.last());
    assert(after.tabs.all.drop_last() =~= app.tabs.all);
}

/// What is switched on by a command is switched off by it again, and says so.
pub proof fn law_a_switch_goes_either_way(app: AppView)
    requires
        app.tabs.wf(),
        0 <= app.tabs.active < app.tabs.all.len(),
    ensures
        app.parens_toggled().config.rainbow_parens == !app.config.rainbow_parens,
        app.parens_toggled().parens_toggled().config == app.config,
        app.sentences_toggled().config.sentence_highlight == !app.config.sentence_highlight,
        app.sentences_toggled().sentences_toggled().config == app.config,
        app.zoomed().tabs.tab().zoomed == !app.tabs.tab().zoomed,
        app.zoomed().tabs.tab().layout == app.tabs.tab().layout,
        app.zoomed().tabs.tab().focus == app.tabs.tab().focus,
        app.zoomed().zoomed().tabs.all == app.tabs.all,
{
    reveal(AppView::parens_toggled);
    reveal(AppView::sentences_toggled);
    reveal(AppView::zoomed);
    let once = app.zoomed();
    assert(once.zoomed().tabs.all =~= app.tabs.all);
}

/// The key that shows a list puts it away again.
pub proof fn law_the_key_of_a_list_puts_it_away(
    app: AppView,
    action: Action,
    focused: PaneId,
    keymap: Keymap,
)
    requires
        action is TogglePalette || action is ToggleHistoryPalette || action is TogglePaneSwitcher
            || action is ToggleSwoop,
    ensures
        app.palette is Some ==> app.window_acted(action, focused, keymap).palette is None,
        app.palette is None && !(action is ToggleSwoop) ==> app.window_acted(
            action,
            focused,
            keymap,
        ).palette is Some,
        app.window_acted(action, focused, keymap).tabs == app.tabs || action is ToggleSwoop,
{
    reveal(AppView::window_acted);
    reveal(AppView::commanded);
}

/// Commands for either of two ways, or for one of several, are named for the way they go.
pub proof fn law_commands_are_named_for_their_way()
    ensures
        command_named("next_tab"@) == Some(Command::NextTab),
        command_named("prev_tab"@) == Some(Command::PrevTab),
        command_named("recent_tab_back"@) == Some(Command::RecentTab { forward: false }),
        command_named("recent_tab_forward"@) == Some(Command::RecentTab { forward: true }),
        command_named("split_horizontal"@) == Some(Command::Split(Direction::Horizontal)),
        command_named("split_vertical"@) == Some(Command::Split(Direction::Vertical)),
        command_named("focus_down"@) == Some(Command::Focus(FocusDir::Down)),
        command_named("focus_up"@) == Some(Command::Focus(FocusDir::Up)),
        command_named("focus_left"@) == Some(Command::Focus(FocusDir::Left)),
        command_named("focus_right"@) == Some(Command::Focus(FocusDir::Right)),
        command_named("next_block"@) == Some(Command::Block(BlockNav::Next)),
        command_named("prev_block"@) == Some(Command::Block(BlockNav::Previous)),
{
    reveal_strlit("new_tab");
    reveal_strlit("close_tab");
    reveal_strlit("rename_tab");
    reveal_strlit("next_tab");
    reveal_strlit("prev_tab");
    reveal_strlit("recent_tab_back");
    reveal_strlit("recent_tab_forward");
    reveal_strlit("reload");
    reveal_strlit("toggle_mode");
    reveal_strlit("split_horizontal");
    reveal_strlit("split_vertical");
    reveal_strlit("close_pane");
    reveal_strlit("copy_cwd");
    reveal_strlit("focus_down");
    reveal_strlit("focus_up");
    reveal_strlit("focus_left");
    reveal_strlit("focus_right");
    reveal_strlit("search");
    reveal_strlit("next_block");
    reveal_strlit("prev_block");
    assert("new_tab"@.len() == 7);
    assert("close_tab"@.len() == 9);
    assert("rename_tab"@.len() == 10);
    assert("rename_tab"@[0] == 'r');
    assert("next_tab"@.len() == 8);
    assert("next_tab"@[0] == 'n');
    assert("prev_tab"@.len() == 8);
    assert("prev_tab"@[0] == 'p');
    assert("recent_tab_back"@.len() == 15);
    assert("recent_tab_forward"@.len() == 18);
    assert("reload"@.len() == 6);
    assert("reload"@[0] == 'r');
    assert("toggle_mode"@.len() == 11);
    assert("toggle_mode"@[0] == 't');
    assert("split_horizontal"@.len() == 16);
    assert("split_vertical"@.len() == 14);
    assert("close_pane"@.len() == 10);
    assert("close_pane"@[0] == 'c');
    assert("copy_cwd"@.len() == 8);
    assert("copy_cwd"@[0] == 'c');
    assert("focus_down"@.len() == 10);
    assert("focus_down"@[0] == 'f');
    assert("focus_down"@[6] == 'd');
    assert("focus_up"@.len() == 8);
    assert("focus_up"@[0] == 'f');
    assert("focus_left"@.len() == 10);
    assert("focus_left"@[0] == 'f');
    assert("focus_left"@[6] == 'l');
    assert("focus_right"@.len() == 11);
    assert("focus_right"@[0] == 'f');
    assert("search"@.len() == 6);
    assert("search"@[0] == 's');
    assert("next_block"@.len() == 10);
    assert("next_block"@[0] == 'n');
    assert("prev_block"@.len() == 10);
    assert("prev_block"@[0] == 'p');
}

} // verus!
