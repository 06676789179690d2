use winter_term::app::ticks::Edge;
use winter_term::app::{App, Keymap};
use winter_term::events::{auto_scroll_lines, AUTO_SCROLL_MAX_LINES_PER_TICK};
use winter_term::grid::{Cell, Grid, Row, Style};
use winter_term::input::{Action, InsertAt, Key, KeyCode, Mode, PaneId};
use winter_term::palette::PaletteMode;
use winter_term::pointer::Selection;
use winter_term::prompt_edit::PromptDelete;
use winter_term::session::{NoticeKind, Pane, PaneState, Session};
use winter_term::tabs::Tab;

fn row(text: &str, cols: usize) -> Row {
    let mut cells: Vec<Cell> =
        text.chars().map(|ch| Cell { ch, style: Style::default() }).collect();
    while cells.len() < cols {
        cells.push(Cell { ch: ' ', style: Style::default() });
    }
    Row { cells, indent: 0, links: Vec::new(), wraps: false }
}

fn grid(lines: &[String], cols: usize, rows: usize, cursor: (usize, usize)) -> Grid {
    let mut all: Vec<Row> = lines.iter().map(|l| row(l, cols)).collect();
    while all.len() < rows {
        all.push(row("", cols));
    }
    Grid::from_lines(all, cols, rows, cursor).expect("a grid")
}

/// What `seq 1 200` leaves in a pane of 40 columns and 10 rows.
fn pane_with_scrollback() -> Pane {
    let mut lines: Vec<String> = (1..=200).map(|n: u32| n.to_string()).collect();
    lines.push("$ ".to_string());
    let shown = grid(&lines, 40, 10, (9, 2));
    assert!(shown.scrollback_len() > shown.rows());
    Pane::new(shown)
}

fn blank_pane(total: usize, cols: usize, rows: usize) -> Pane {
    let lines: Vec<String> = (0..total).map(|_| String::new()).collect();
    Pane::new(grid(&lines, cols, rows, (0, 0)))
}

fn new_app() -> App {
    App::new(Vec::new(), 0)
}

fn keymap() -> Keymap {
    let key = |c: char| Key { alt: false, code: KeyCode::Char(c), ctrl: true, shift: false };
    Keymap { commands: Vec::new(), menu: Vec::new(), redo: key('\\'), undo: key('/') }
}

fn set_pane(app: &mut App, id: PaneId, pane: Pane) {
    let mut state = app.panes.remove(&id.0).unwrap_or_default();
    state.pane = Some(pane);
    app.panes.insert(id.0, state);
}

fn offset(app: &App, id: PaneId) -> usize {
    shown(app, id).scroll_offset()
}

fn shown(app: &App, id: PaneId) -> &Grid {
    &app.panes[&id.0].pane.as_ref().expect("a program runs").grid
}

/// An app with `n` tabs of one pane each, the first shown.
fn app_with_tabs(n: usize) -> App {
    let mut app = new_app();
    for i in 1..n {
        app.tabs.all.push(Tab::with_root(PaneId(i as u64)));
        app.tabs.names.push(None);
    }
    app.tabs.mru = (0..n).collect();
    app.next_pane_id = n as u64;
    app
}

fn cell_selection(pane: PaneId, r: usize) -> Selection {
    Selection { block: false, start_row: r, start_col: 0, end_row: r, end_col: 0, pane }
}

/// A pointer just inside the top edge's margin.
fn barely_up() -> Option<Edge> {
    Some(Edge { up: true, lines: auto_scroll_lines(0) })
}

#[test]
fn test_render_window_title_expands_pane_placeholders() {
    let mut app = new_app();
    let focused = app.tabs.all[0].focused();
    app.titles.insert(focused.0, "butterfly — Winter Term.md".into());
    assert_eq!(
        app.render_window_title("{{ app_name }} — {{ pane_title }} [{{ title }}]", ""),
        " — butterfly — Winter Term.md [butterfly — Winter Term.md]"
    );
    assert_eq!(
        app.render_window_title("Winter - {{ title }}", ""),
        "Winter - butterfly — Winter Term.md"
    );
}

#[test]
fn test_resize_all_panes_keeps_a_scrolled_back_pane_in_place() {
    let mut app = new_app();
    let focused = app.tab().focused();
    let mut pane = blank_pane(28, 40, 8);
    pane.grid.scroll_up_history(6);
    set_pane(&mut app, focused, pane);

    app.pane_resized(focused, blank_pane(28, 88, 20).grid);

    assert_ne!(shown(&app, focused).rows(), 8, "the pane is resized");
    assert_eq!(offset(&app, focused), 6, "the pane should stay where it was scrolled to");
}

#[test]
fn test_prompt_editing_is_enabled_by_default() {
    let app = new_app();
    assert!(app.shared.prompt_editing);
}

#[test]
fn test_prompt_editing_is_declined_under_non_emacs_bindings() {
    let mut app = new_app();
    app.shared.prompt_editing = false;
    let s = Session { id: app.tab().focused(), shared: app.shared, state: PaneState::default() };
    assert!(!s.prompt_editing_enabled());
}

#[test]
fn test_declined_prompt_operator_writes_nothing_to_the_pty() {
    let mut app = new_app();
    app.shared.prompt_editing = false;
    let focused = app.tab().focused();
    set_pane(&mut app, focused, blank_pane(8, 40, 8));
    let mut s = Session {
        id: focused,
        shared: app.shared,
        state: app.panes.remove(&focused.0).unwrap(),
    };
    s.delete_on_prompt(PromptDelete::WordBack);
    assert!(s.shared.notice.is_some(), "the declined keypress should be reported");
    assert!(s.state.pane.unwrap().outbox.is_empty());
}

#[test]
fn test_entering_insert_scrolls_back_down_to_the_prompt() {
    let entries: Vec<Action> = vec![
        Action::EnterInsert(InsertAt::Cursor),
        Action::EnterInsert(InsertAt::After),
        Action::EnterInsert(InsertAt::LineEnd),
        Action::SwitchMode(Mode::Insert),
    ];
    for action in entries {
        let mut app = new_app();
        let focused = app.tab().focused();
        let mut pane = blank_pane(24, 40, 8);
        pane.grid.scroll_up_history(5);
        assert_eq!(pane.grid.scroll_offset(), 5, "fixture must start scrolled up");
        set_pane(&mut app, focused, pane);
        app.set_mode(focused, Mode::Normal);
        app.set_nav_cursor(focused, (0, 0));

        app.handle_action(&action, focused, &keymap());

        assert_eq!(offset(&app, focused), 0, "{action:?} should scroll back down to the prompt");
        assert_eq!(app.panes[&focused.0].mode, Some(Mode::Insert));
    }
}

#[test]
fn test_escape_in_normal_mode_stays_in_normal_and_only_clears_the_search() {
    let mut app = new_app();
    let focused = app.tab().focused();
    app.set_mode(focused, Mode::Normal);
    app.shared.search.query = Some("foo".to_string());
    app.shared.search.match_total = 2;

    app.handle_action(&Action::SearchCancel, focused, &keymap());

    assert_eq!(app.panes[&focused.0].mode, Some(Mode::Normal));
    assert!(app.shared.search.query.is_none());
    assert_eq!(app.shared.search.match_total, 0);
}

#[test]
fn test_enter_insert_is_the_only_way_out_of_normal_mode() {
    for (mode, at) in [
        (Mode::Normal, InsertAt::Cursor),
        (Mode::Normal, InsertAt::After),
        (Mode::Normal, InsertAt::LineEnd),
        (Mode::Visual, InsertAt::Cursor),
    ] {
        let mut app = new_app();
        let focused = app.tab().focused();
        app.set_mode(focused, mode);
        app.set_nav_cursor(focused, (0, 0));

        app.handle_action(&Action::EnterInsert(at), focused, &keymap());

        assert_eq!(
            app.panes[&focused.0].mode,
            Some(Mode::Insert),
            "{at:?} from {mode:?} should reach Insert"
        );
        assert_eq!(app.nav_cursor(focused), None, "the nav cursor is dropped");
    }
}

#[test]
fn test_app_default_has_one_pane() {
    let app = new_app();
    assert_eq!(app.tab().panes(), vec![PaneId(0)]);
    assert!(app.panes.values().all(|state| state.pane.is_none()));
}

#[test]
fn test_nav_cursor_is_isolated_per_pane() {
    let mut app = new_app();
    let a = PaneId(1);
    let b = PaneId(2);
    app.set_nav_cursor(a, (5, 3));
    app.set_nav_cursor(b, (1, 9));
    assert_eq!(app.nav_cursor(a), Some((5, 3)));
    assert_eq!(app.nav_cursor(b), Some((1, 9)));
    assert_eq!(app.nav_cursor(PaneId(99)), None);
    app.clear_nav_cursor(a);
    assert_eq!(app.nav_cursor(a), None);
    assert_eq!(app.nav_cursor(b), Some((1, 9)));
}

#[test]
fn test_alloc_pane_id_is_monotonic() {
    let mut app = new_app();
    assert_eq!(app.alloc_pane_id(), PaneId(1));
    assert_eq!(app.alloc_pane_id(), PaneId(2));
}

#[test]
fn test_status_bar_visible_forces_on_during_search_even_when_configured_off() {
    let mut app = new_app();
    app.shared.status_bar_enabled = false;
    assert!(!app.status_bar_visible());

    app.shared.search.query = Some("foo".to_string());
    assert!(app.status_bar_visible());

    app.shared.search.query = None;
    assert!(!app.status_bar_visible());
}

#[test]
fn test_status_bar_visible_stays_on_when_configured_on_regardless_of_search() {
    let mut app = new_app();
    app.shared.status_bar_enabled = true;
    assert!(app.status_bar_visible());

    app.shared.search.query = Some("foo".to_string());
    assert!(app.status_bar_visible());
}

#[test]
fn test_leaving_normal_mode_ends_a_search_and_hides_the_forced_status_bar() {
    let mut app = app_with_tabs(1);
    app.shared.status_bar_enabled = false;
    let focused = app.tab().focused();
    app.set_mode(focused, Mode::Normal);

    app.shared.search.query = Some("foo".to_string());
    app.shared.search.match_index = 1;
    app.shared.search.match_total = 3;
    assert!(app.status_bar_visible());

    app.handle_action(&Action::SwitchMode(Mode::Insert), focused, &keymap());
    assert!(app.shared.search.query.is_none());
    assert_eq!(app.shared.search.match_index, 0);
    assert_eq!(app.shared.search.match_total, 0);
    assert!(!app.status_bar_visible());
}

#[test]
fn test_app_new_has_no_quick_select() {
    let app = new_app();
    assert!(app.shared.quick_select.is_none());
}

#[test]
fn test_set_error_surfaces_a_live_notice() {
    let mut app = new_app();
    assert!(app.active_notice().is_none());
    app.set_error("boom");
    assert_eq!(app.active_notice(), Some(("boom", NoticeKind::Error)));
}

#[test]
fn test_set_notice_surfaces_an_info_notice() {
    let mut app = new_app();
    app.set_notice("Copied to clipboard");
    assert_eq!(app.active_notice(), Some(("Copied to clipboard", NoticeKind::Info)));
}

#[test]
fn test_run_command_action_dispatches_the_same_effect_as_the_palette() {
    let mut app = new_app();
    let focused = app.tab().focused();
    app.handle_action(
        &Action::RunCommand("mux_new_session".to_string()),
        focused,
        &keymap(),
    );
    assert_eq!(app.palette.as_ref().map(|p| p.mode), Some(PaletteMode::MuxNew));
}

#[test]
fn test_expired_notice_is_not_active() {
    let mut app = new_app();
    app.set_error("stale");
    app.shared.now = 2_999;
    assert!(app.active_notice().is_some());
    app.shared.now = 4_000;
    assert!(app.active_notice().is_none());
}

#[test]
fn test_close_pane_keeps_last_pane_of_only_tab() {
    let mut app = app_with_tabs(1);
    let pane = app.tab().panes()[0];
    app.close_pane(pane);
    assert_eq!(app.tabs.all.len(), 1);
    assert!(app.tab().panes().contains(&pane));
}

#[test]
fn test_close_pane_closes_tab_when_other_tabs_exist() {
    let mut app = app_with_tabs(2);
    app.tabs.active = 0;
    let pane = app.tabs.all[0].panes()[0];
    app.close_pane(pane);
    assert_eq!(app.tabs.all.len(), 1);
}

#[test]
fn test_reap_dead_panes_closes_tab_when_its_lone_pane_dies() {
    let mut app = app_with_tabs(2);
    let dead = app.tabs.all[0].panes()[0];
    set_pane(&mut app, dead, blank_pane(5, 20, 5));
    app.reap_dead_panes(&vec![dead]);
    assert_eq!(app.tabs.all.len(), 1);
    assert!(!app.tabs.all.iter().any(|t| t.panes().contains(&dead)));
}

#[test]
fn test_reap_dead_panes_requests_exit_when_last_pane_of_last_tab_dies() {
    let mut app = app_with_tabs(1);
    let dead = app.tab().panes()[0];
    set_pane(&mut app, dead, blank_pane(5, 20, 5));
    app.reap_dead_panes(&vec![dead]);
    assert!(app.window.exit_requested);
}

#[test]
fn test_switch_tab_moves_to_front_of_mru() {
    let mut app = app_with_tabs(3);
    app.switch_tab(2);
    assert_eq!(app.tabs.active, 2);
    assert_eq!(app.tabs.mru, vec![2, 0, 1]);
    app.switch_tab(1);
    assert_eq!(app.tabs.mru, vec![1, 2, 0]);
    assert_eq!(app.tabs.walk, None);
}

#[test]
fn test_recent_tab_walks_backward_and_forward_without_reshuffling() {
    let mut app = app_with_tabs(3);
    app.switch_tab(2);
    app.switch_tab(1);

    app.recent_tab(false);
    assert_eq!(app.tabs.active, 2);
    assert_eq!(app.tabs.walk, Some(1));
    assert_eq!(app.tabs.mru, vec![1, 2, 0]);
    app.recent_tab(false);
    assert_eq!(app.tabs.active, 0);
    assert_eq!(app.tabs.walk, Some(2));

    app.recent_tab(true);
    assert_eq!(app.tabs.active, 2);
    assert_eq!(app.tabs.mru, vec![1, 2, 0]);
}

#[test]
fn test_deliberate_switch_ends_walk_and_reseeds_mru() {
    let mut app = app_with_tabs(3);
    app.switch_tab(1);
    app.recent_tab(false);
    assert_eq!(app.tabs.active, 0);
    assert!(app.tabs.walk.is_some());
    app.switch_tab(2);
    assert_eq!(app.tabs.walk, None);
    assert_eq!(app.tabs.mru[0], 2);
}

#[test]
fn test_recent_tab_is_noop_with_one_tab() {
    let mut app = new_app();
    app.recent_tab(false);
    app.recent_tab(true);
    assert_eq!(app.tabs.active, 0);
    assert_eq!(app.tabs.walk, None);
}

#[test]
fn test_close_tab_compacts_mru_indices() {
    let mut app = app_with_tabs(3);
    app.switch_tab(2);
    app.close_tab(0);
    assert_eq!(app.tabs.all.len(), 2);
    assert_eq!(app.tabs.active, 1);
    assert_eq!(app.tabs.mru, vec![1, 0]);
    assert_eq!(app.tabs.walk, None);
}

#[test]
fn test_swap_tabs_updates_active_tab_and_mru() {
    let mut app = app_with_tabs(3);
    app.switch_tab(1);
    let tab0_id = app.tabs.all[0].focused();
    let tab1_id = app.tabs.all[1].focused();
    app.swap_tabs(0, 1);
    assert_eq!(app.tabs.all[0].focused(), tab1_id);
    assert_eq!(app.tabs.all[1].focused(), tab0_id);
    assert_eq!(app.tabs.active, 0);
    assert_eq!(app.tabs.mru[0], 0);
}

#[test]
fn test_swap_tabs_is_noop_for_same_index() {
    let mut app = app_with_tabs(2);
    let tab0_id = app.tabs.all[0].focused();
    app.swap_tabs(0, 0);
    assert_eq!(app.tabs.all[0].focused(), tab0_id);
    assert_eq!(app.tabs.active, 0);
}

#[test]
fn test_blink_defaults_on() {
    let app = new_app();
    assert!(app.config.blink);
    assert!(app.clock.blink_phase);
}

#[test]
fn test_switch_to_pane_changes_tab_and_focus() {
    let mut app = new_app();
    assert_eq!(app.tabs.active, 0);
    app.new_tab();
    assert_eq!(app.tabs.all.len(), 2);
    app.switch_tab(0);
    assert_eq!(app.tabs.active, 0);
    let second = app.tabs.all[1].focused();
    app.switch_to_pane(second);
    assert_eq!(app.tabs.active, 1);
    assert_eq!(app.tabs.all[1].focused(), second);
}

#[test]
fn test_auto_scroll_selection_scrolls_up_when_pointer_near_top_edge() {
    let mut app = new_app();
    let id = PaneId(1);
    set_pane(&mut app, id, pane_with_scrollback());
    app.drag.mouse_down = true;
    app.shared.selection.span = Some(cell_selection(id, 5));

    app.auto_scroll_selection(barely_up(), 0);

    assert_eq!(offset(&app, id), 1, "should scroll one line into history");
    let sel = app.shared.selection.span.expect("selection still active");
    assert_eq!(
        (sel.end_row, sel.end_col),
        (shown(&app, id).to_absolute_row(0), 0),
        "drag end follows the new top row's absolute address"
    );
}

#[test]
fn test_auto_scroll_selection_expands_further_back_each_tick() {
    let mut app = new_app();
    let id = PaneId(1);
    set_pane(&mut app, id, pane_with_scrollback());
    app.drag.mouse_down = true;
    let start = shown(&app, id).to_absolute_row(5);
    app.shared.selection.span = Some(cell_selection(id, start));

    let mut ends = Vec::new();
    for _ in 0..3 {
        app.drag.auto_scroll_next = 0;
        app.auto_scroll_selection(barely_up(), 0);
        ends.push(app.shared.selection.span.unwrap().end_row);
    }

    assert!(
        ends[0] > ends[1] && ends[1] > ends[2],
        "end_row should move further back each tick, not reset: {ends:?}"
    );
    assert_eq!(offset(&app, id), 3);
}

#[test]
fn test_auto_scroll_selection_speed_scales_with_edge_depth() {
    let scrolled = |extra: usize| {
        let mut app = new_app();
        let id = PaneId(1);
        set_pane(&mut app, id, pane_with_scrollback());
        app.drag.mouse_down = true;
        app.shared.selection.span = Some(cell_selection(id, 5));
        app.auto_scroll_selection(Some(Edge { up: true, lines: auto_scroll_lines(extra) }), 0);
        offset(&app, id)
    };
    assert_eq!(scrolled(0), 1, "barely inside the margin scrolls one line");
    assert_eq!(
        scrolled(AUTO_SCROLL_MAX_LINES_PER_TICK - 1),
        AUTO_SCROLL_MAX_LINES_PER_TICK,
        "at the viewport's own edge the step hits its cap"
    );
    assert_eq!(scrolled(100), AUTO_SCROLL_MAX_LINES_PER_TICK);
}

#[test]
fn test_selected_text_covers_every_line_after_auto_scrolling_past_one_page() {
    let mut lines: Vec<String> = (0..20).map(|n: u32| n.to_string()).collect();
    lines.push(String::new());
    let pane = Pane::new(grid(&lines, 10, 3, (2, 0)));
    let rows = pane.grid.rows();

    let mut app = new_app();
    let id = PaneId(1);
    set_pane(&mut app, id, pane);
    app.drag.mouse_down = true;
    let start = shown(&app, id).to_absolute_row(0);
    app.shared.selection.span = Some(cell_selection(id, start));

    for _ in 0..(rows + 25) {
        app.drag.auto_scroll_next = 0;
        app.auto_scroll_selection(barely_up(), 0);
    }
    assert_eq!(offset(&app, id), shown(&app, id).scrollback_len(), "scrolled all the way back");

    let sel = app.shared.selection.span.unwrap();
    let expected = sel.start_row.max(sel.end_row) - sel.start_row.min(sel.end_row) + 1;
    let text = app.selected_text().expect("selection has content");
    let lines: Vec<&str> = text.lines().collect();
    assert_eq!(lines.len(), expected, "should cover every line: {lines:?}");
    assert_eq!(lines[0].trim(), "0");
}

#[test]
fn test_auto_scroll_selection_throttles_repeated_ticks() {
    let mut app = new_app();
    let id = PaneId(1);
    set_pane(&mut app, id, pane_with_scrollback());
    app.drag.mouse_down = true;
    app.shared.selection.span = Some(cell_selection(id, 5));

    app.auto_scroll_selection(barely_up(), 1_000);
    app.auto_scroll_selection(barely_up(), 1_010);
    assert_eq!(offset(&app, id), 1);
    app.auto_scroll_selection(barely_up(), 1_050);
    assert_eq!(offset(&app, id), 2);
}

#[test]
fn test_auto_scroll_selection_noop_when_pointer_not_near_an_edge() {
    let mut app = new_app();
    let id = PaneId(1);
    set_pane(&mut app, id, pane_with_scrollback());
    app.drag.mouse_down = true;
    app.shared.selection.span = Some(cell_selection(id, 5));

    app.auto_scroll_selection(None, 0);

    assert_eq!(offset(&app, id), 0);
}

#[test]
fn test_auto_scroll_selection_noop_when_mouse_not_held() {
    let mut app = new_app();
    let id = PaneId(1);
    set_pane(&mut app, id, pane_with_scrollback());
    app.drag.mouse_down = false;
    app.shared.selection.span = Some(cell_selection(id, 5));

    app.auto_scroll_selection(Some(Edge { up: true, lines: 4 }), 0);

    assert_eq!(offset(&app, id), 0);
}

#[test]
fn test_export_focused_block_text_with_no_pane() {
    let mut app = new_app();
    app.export_focused_block_text(PaneId(999));
    assert!(app.shared.notice.is_none());
}

#[test]
fn test_is_block_folded_defaults_to_false() {
    let app = new_app();
    assert!(!app.is_block_folded(PaneId(1), 0));
}
