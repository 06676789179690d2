use winter_term::app::palette::{cd_line, mux_session_entries, SessionInfo, SessionList};
use winter_term::history::EditHistory;
use winter_term::input::{Direction, PaneId};
use winter_term::navigation::lists::{ChangeList, JumpList, MAX_LIST_LEN};
use winter_term::palette::{Palette, PaletteEntry, PaletteMode};
use winter_term::tabs::{Tab, Tabs};

fn ids(numbers: &[u64]) -> Vec<PaneId> {
    numbers.iter().map(|n| PaneId(*n)).collect()
}

fn entry(label: &str, shortcut: &str) -> PaletteEntry {
    PaletteEntry {
        action: label.to_string(),
        label: label.to_string(),
        shortcut: shortcut.to_string(),
    }
}

fn palette(labels: &[&str], history: &[&str]) -> Palette {
    let lines = labels.iter().map(|l| entry(l, "")).collect();
    let past: Vec<String> = history.iter().map(|h| h.to_string()).collect();
    Palette::open(PaletteMode::Commands, lines, &past)
}

fn left(p: &Palette) -> Vec<&str> {
    p.filtered.iter().map(|i| p.entries[*i].label.as_str()).collect()
}

#[test]
fn undoing_and_redoing_walk_the_same_states() {
    let mut history = EditHistory::new(1);
    history.record(2);
    history.record(3);
    assert_eq!(history.undo(), Some(&2));
    assert_eq!(history.undo(), Some(&1));
    assert_eq!(history.undo(), None);
    assert_eq!(history.redo(), Some(&2));
    history.record(9);
    assert_eq!(history.redo(), None, "a new state forgets what was undone");
    history.amend(10);
    assert_eq!(history.current(), &10);
    assert_eq!(history.undo(), Some(&2));
    history.reset(0);
    assert_eq!(history.undo(), None);
}

#[test]
fn jumps_are_walked_back_and_forth() {
    let mut jumps = JumpList::default();
    assert_eq!(jumps.older((9, 9)), None);
    jumps.push((1, 0));
    jumps.push((2, 0));
    assert_eq!(jumps.older((5, 5)), Some((2, 0)));
    assert_eq!(jumps.older((5, 5)), Some((1, 0)));
    assert_eq!(jumps.older((5, 5)), None);
    assert_eq!(jumps.newer(), Some((2, 0)));
    assert_eq!(jumps.newer(), Some((5, 5)), "the walk ends where it began");
    assert_eq!(jumps.newer(), None);
}

#[test]
fn no_list_of_places_grows_past_its_limit() {
    let mut jumps = JumpList::default();
    let mut changes = ChangeList::default();
    for n in 0..MAX_LIST_LEN + 7 {
        jumps.push((n, 0));
        changes.push((n, 0));
    }
    let mut steps = 0;
    while jumps.older((0, 0)).is_some() {
        steps += 1;
    }
    assert_eq!(steps, MAX_LIST_LEN);
    assert_eq!(changes.older((0, 0)), Some((MAX_LIST_LEN + 6, 0)));
}

#[test]
fn closing_a_split_gives_the_panes_back() {
    let mut tab = Tab::with_root(PaneId(4));
    tab.split(Direction::Vertical, PaneId(5));
    assert_eq!(tab.panes(), ids(&[4, 5]));
    assert_eq!(tab.focused(), PaneId(5));
    tab.split(Direction::Horizontal, PaneId(6));
    assert_eq!(tab.panes(), ids(&[4, 5, 6]));
    tab.close(PaneId(6));
    assert_eq!(tab.panes(), ids(&[4, 5]));
    tab.close(PaneId(4));
    assert_eq!(tab.panes(), ids(&[5]));
    assert_eq!(tab.focused(), PaneId(5));
    assert!(tab.holds(PaneId(5)) && !tab.holds(PaneId(4)));
}

#[test]
fn focus_goes_only_where_there_is_a_pane() {
    let mut tab = Tab::new();
    tab.split(Direction::Vertical, PaneId(1));
    tab.give_focus(PaneId(8));
    assert_eq!(tab.focused(), PaneId(1));
    tab.give_focus(PaneId(0));
    assert_eq!(tab.focused(), PaneId(0));
    tab.focus_by_index(1);
    assert_eq!(tab.focused(), PaneId(1));
    tab.focus_by_index(7);
    assert_eq!(tab.focused(), PaneId(1));
}

#[test]
fn the_tab_used_last_is_one_step_back_and_swaps_undo_themselves() {
    let mut tabs = Tabs::new();
    tabs.open(Tab::with_root(PaneId(1)));
    tabs.open(Tab::with_root(PaneId(2)));
    assert_eq!(tabs.active, 2);
    tabs.switch_tab(0);
    tabs.recent_tab(false);
    assert_eq!(tabs.active, 2);
    let before: Vec<Vec<PaneId>> = tabs.all.iter().map(|t| t.panes()).collect();
    let order = tabs.mru.clone();
    tabs.swap_tabs(0, 2);
    assert_ne!(tabs.all.iter().map(|t| t.panes()).collect::<Vec<_>>(), before);
    tabs.swap_tabs(0, 2);
    assert_eq!(tabs.all.iter().map(|t| t.panes()).collect::<Vec<_>>(), before);
    assert_eq!(tabs.mru, order);
    assert_eq!(tabs.tab_holding(PaneId(1)), Some(1));
    assert_eq!(tabs.tab_holding(PaneId(9)), None);
}

#[test]
fn cycling_wraps_round_the_tabs() {
    let mut tabs = Tabs::new();
    tabs.open(Tab::with_root(PaneId(1)));
    tabs.switch_tab(0);
    tabs.cycle_tab(false);
    assert_eq!(tabs.active, 1);
    tabs.cycle_tab(true);
    assert_eq!(tabs.active, 0);
}

#[test]
fn what_is_typed_narrows_the_list() {
    let mut p = palette(&["New tab", "Close tab", "Split"], &[]);
    assert_eq!(left(&p), ["New tab", "Close tab", "Split"], "nothing typed shows all");
    p.push_text("tab");
    assert_eq!(left(&p), ["New tab", "Close tab"]);
    p.move_down();
    assert_eq!(p.selected_action().as_deref(), Some("Close tab"));
    p.push_char('x');
    assert!(left(&p).is_empty());
    assert_eq!(p.selected_action(), None);
    p.pop_char();
    assert_eq!(left(&p), ["New tab", "Close tab"]);
}

#[test]
fn the_query_is_undone_and_redone() {
    let mut p = palette(&["alpha", "beta"], &[]);
    p.push_char('a');
    p.push_char('l');
    p.undo();
    assert_eq!(p.query_text(), "a");
    p.undo();
    assert_eq!(p.query_text(), "");
    p.undo();
    assert_eq!(p.query_text(), "");
    p.redo();
    p.redo();
    assert_eq!(p.query_text(), "al");
    assert_eq!(left(&p), ["alpha"]);
}

#[test]
fn what_was_typed_before_is_walked() {
    let mut p = palette(&["alpha", "beta"], &["be", "al"]);
    p.history_prev();
    assert_eq!(p.query_text(), "be");
    p.history_prev();
    assert_eq!(p.query_text(), "al");
    p.history_next();
    assert_eq!(p.query_text(), "be");
    p.history_next();
    assert_eq!(p.query_text(), "");
}

#[test]
fn a_shortcut_names_its_line() {
    let p = Palette::open(
        PaletteMode::Panes,
        vec![entry("one", "1"), entry("two", "2")],
        &Vec::new(),
    );
    assert_eq!(p.position_by_shortcut("2"), Some(1));
    assert_eq!(p.position_by_shortcut("3"), None);
}

#[test]
fn a_directory_is_quoted_for_the_shell() {
    assert_eq!(cd_line("/tmp/a b").as_deref(), Some("cd '/tmp/a b'\n"));
    assert_eq!(cd_line("/tmp/it's").as_deref(), Some("cd '/tmp/it'\\''s'\n"));
    assert_eq!(cd_line("/tmp/a\nrm"), None);
}

#[test]
fn sessions_are_listed_with_what_runs_in_them() {
    let list = SessionList::Sessions(vec![SessionInfo {
        attached: 1,
        cols: 80,
        command: "vim".to_string(),
        name: "work".to_string(),
        rows: 24,
        uptime: "2h".to_string(),
    }]);
    assert_eq!(
        mux_session_entries(&list, "none"),
        ["work (80x24, up 2h, 1 attached) - vim"]
    );
}
