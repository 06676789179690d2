use winter_term::app::{App, Keymap};
use winter_term::grid::{Cell, Grid, Row, Style};
use winter_term::input::{Action, BlockNav, Key, KeyCode, Mode, PaneId};
use winter_term::navigation::search::{
    buffer_match_starts, is_explicit_regex, row_match_spans, spans_from_matches,
    visible_match_cells, word_at, SearchFrom, SearchState,
};
use winter_term::session::{Pane, Session};

fn row(text: &str, cols: usize) -> Row {
    let mut cells: Vec<Cell> =
        text.chars().map(|ch| Cell { ch, style: Style::default() }).collect();
    while cells.len() < cols {
        cells.push(Cell { ch: ' ', style: Style::default() });
    }
    Row { cells, indent: 0, links: Vec::new(), wraps: false }
}

fn grid_of(lines: &[&str], total: usize) -> Grid {
    let mut all: Vec<Row> = lines.iter().map(|l| row(l, 40)).collect();
    while all.len() < total {
        all.push(row("", 40));
    }
    Grid::from_lines(all, 40, 8, (0, 0)).expect("a grid")
}

fn pane_with_lines(lines: &[&str]) -> Pane {
    Pane::new(grid_of(lines, 8))
}

fn keymap() -> Keymap {
    let key = |c: char| Key { alt: false, code: KeyCode::Char(c), ctrl: true, shift: false };
    Keymap { commands: Vec::new(), menu: Vec::new(), redo: key('\\'), undo: key('/') }
}

fn app_with_pane(pane: Pane, query: &str) -> (App, PaneId) {
    let mut app = App::new(Vec::new(), 0);
    app.shared.status_bar_enabled = true;
    let id = app.tab().panes()[0];
    let mut state = app.panes.remove(&id.0).unwrap_or_default();
    state.pane = Some(pane);
    app.panes.insert(id.0, state);
    app.set_nav_cursor(id, (0, 0));
    app.shared.search.query = Some(query.to_string());
    (app, id)
}

fn app_with_lines(lines: &[&str], query: &str) -> (App, PaneId) {
    app_with_pane(pane_with_lines(lines), query)
}

fn in_pane(app: &mut App, id: PaneId, work: impl Fn(&mut Session)) {
    let mut s = Session {
        id,
        shared: std::mem::take(&mut app.shared),
        state: app.panes.remove(&id.0).unwrap_or_default(),
    };
    work(&mut s);
    app.shared = s.shared;
    app.panes.insert(id.0, s.state);
}

fn step(app: &mut App, id: PaneId, direction: BlockNav) {
    in_pane(app, id, |s| s.search_in_pane(direction));
}

fn act(app: &mut App, action: Action, id: PaneId) {
    app.handle_action(&action, id, &keymap());
}

/// Three occurrences of `ink`: two on one row, one on the next.
const LINES: &[&str] = &["prompt$", "ink one ink", "two ink", ""];

#[test]
fn test_word_at_returns_the_keyword_run_under_the_column() {
    let line: Vec<char> = "foo_bar baz".chars().collect();
    assert_eq!(word_at(&line, 0), Some("foo_bar".to_string()));
    assert_eq!(word_at(&line, 6), Some("foo_bar".to_string()));
    assert_eq!(word_at(&line, 8), Some("baz".to_string()));
}

#[test]
fn test_word_at_returns_none_on_whitespace_or_out_of_bounds() {
    let line: Vec<char> = "foo bar".chars().collect();
    assert_eq!(word_at(&line, 3), None);
    assert_eq!(word_at(&line, 99), None);
    assert_eq!(word_at(&Vec::new(), 0), None);
}

#[test]
fn test_search_start_direction_follows_search_reverse() {
    let mut search = SearchState::default();
    assert_eq!(search.search_start_direction(), BlockNav::Next);
    search.reverse = true;
    assert_eq!(search.search_start_direction(), BlockNav::Previous);
}

#[test]
fn test_buffer_match_starts_lists_every_occurrence_including_repeats_on_a_row() {
    let pane = pane_with_lines(LINES);
    assert_eq!(buffer_match_starts(&pane.grid, "ink"), vec![(1, 0), (1, 8), (2, 4)]);
}

#[test]
fn test_visible_match_cells_cover_exactly_the_counted_matches() {
    let pane = pane_with_lines(LINES);
    let cells = visible_match_cells(&pane.grid, "ink");
    assert_eq!(cells.len(), buffer_match_starts(&pane.grid, "ink").len() * 3);
    assert_eq!(&cells[..3], &[(1, 0), (1, 1), (1, 2)]);
}

#[test]
fn test_regex_search_matches_patterns_and_variable_lengths() {
    let pane = pane_with_lines(&["foo123", "bar45678", "baz"]);
    let starts = buffer_match_starts(&pane.grid, r"\d+");
    assert_eq!(starts, vec![(0, 3), (1, 3)]);
    let cells = visible_match_cells(&pane.grid, r"\d+");
    assert_eq!(cells.len(), 8);
}

#[test]
fn test_search_counts_occurrences_not_rows() {
    let (mut app, id) = app_with_lines(LINES, "ink");

    step(&mut app, id, BlockNav::Next);

    assert_eq!(app.shared.search.match_total, 3);
    assert_eq!(app.shared.search.match_index, 1);
    assert_eq!(app.nav_cursor(id), Some((1, 0)), "cursor lands on the match");
}

#[test]
fn test_search_next_steps_through_every_match_on_screen_then_wraps() {
    let (mut app, id) = app_with_lines(LINES, "ink");

    let mut stops = Vec::new();
    for _ in 0..4 {
        step(&mut app, id, BlockNav::Next);
        stops.push((app.shared.search.match_index, app.nav_cursor(id).unwrap()));
    }

    assert_eq!(
        stops,
        vec![(1, (1, 0)), (2, (1, 8)), (3, (2, 4)), (1, (1, 0))],
        "n should visit each occurrence in turn and wrap to the first"
    );
}

#[test]
fn test_search_previous_steps_backward_and_wraps_to_the_last_match() {
    let (mut app, id) = app_with_lines(LINES, "ink");

    let mut stops = Vec::new();
    for _ in 0..3 {
        step(&mut app, id, BlockNav::Previous);
        stops.push((app.shared.search.match_index, app.nav_cursor(id).unwrap()));
    }

    assert_eq!(stops, vec![(3, (2, 4)), (2, (1, 8)), (1, (1, 0))]);
}

#[test]
fn test_incremental_search_rescans_from_the_launch_position() {
    let (mut app, id) = app_with_lines(LINES, "");
    in_pane(&mut app, id, |s| s.set_search_origin());

    for c in "ink".chars() {
        app.shared.search.query.as_mut().unwrap().push(c);
        in_pane(&mut app, id, |s| s.search_step(BlockNav::Next, SearchFrom::Origin));
    }

    assert_eq!(app.shared.search.match_index, 1);
    assert_eq!(app.nav_cursor(id), Some((1, 0)));
}

#[test]
fn test_search_with_no_matches_reports_a_zero_counter() {
    let (mut app, id) = app_with_lines(LINES, "nomatch");

    step(&mut app, id, BlockNav::Next);

    assert_eq!(app.shared.search.match_total, 0);
    assert_eq!(app.shared.search.match_index, 0);
}

#[test]
fn test_search_scrolls_a_match_in_scrollback_into_view() {
    let shown = grid_of(&["ink here"], 17);
    assert!(shown.scrollback_len() >= shown.rows());
    let (mut app, id) = app_with_pane(Pane::new(shown), "ink");
    app.clear_nav_cursor(id);

    step(&mut app, id, BlockNav::Next);

    assert_eq!(app.shared.search.match_total, 1);
    let grid = &app.panes[&id.0].pane.as_ref().unwrap().grid;
    let (row, col) = app.nav_cursor(id).unwrap();
    let visible: String =
        (0..3).filter_map(|k| grid.visible_cell(row, col + k)).map(|cell| cell.ch).collect();
    assert_eq!(visible, "ink", "the match should be scrolled into view");
}

#[test]
fn test_slash_then_repeats_walk_matches_through_the_action_layer() {
    let (mut app, id) = app_with_lines(LINES, "");
    app.shared.search.query = None;

    act(&mut app, Action::SearchStart, id);
    for c in "ink".chars() {
        act(&mut app, Action::SearchChar(c), id);
    }
    act(&mut app, Action::SearchExecute, id);
    assert_eq!((app.shared.search.match_index, app.shared.search.match_total), (1, 3));

    act(&mut app, Action::SearchNext, id);
    assert_eq!(app.shared.search.match_index, 2);
    act(&mut app, Action::SearchNext, id);
    assert_eq!(app.shared.search.match_index, 3);
    act(&mut app, Action::SearchPrevious, id);
    assert_eq!(app.shared.search.match_index, 2);

    act(&mut app, Action::SearchCancel, id);
    assert_eq!(app.shared.search.query, None);
    assert_eq!(app.shared.search.match_total, 0);
    assert_eq!(app.nav_cursor(id), Some((1, 8)));
}

#[test]
fn test_n_after_esc_resumes_the_last_search_from_the_cursor() {
    let (mut app, id) = app_with_lines(LINES, "ink");
    step(&mut app, id, BlockNav::Next);
    assert_eq!(app.shared.search.match_index, 1);

    act(&mut app, Action::SearchCancel, id);
    assert_eq!(app.shared.search.query, None);
    assert_eq!(app.shared.search.last.as_deref(), Some("ink"));

    act(&mut app, Action::SearchNext, id);

    assert_eq!(app.shared.search.query.as_deref(), Some("ink"), "highlight comes back");
    assert_eq!(app.shared.search.match_total, 3);
    assert_eq!(app.shared.search.match_index, 2);
    assert_eq!(app.nav_cursor(id), Some((1, 8)));
}

#[test]
fn test_repeat_does_nothing_when_nothing_has_been_searched_for() {
    let (mut app, id) = app_with_lines(LINES, "");
    app.shared.search.query = None;

    act(&mut app, Action::SearchNext, id);

    assert_eq!(app.shared.search.query, None);
    assert_eq!(app.shared.search.match_total, 0);
}

#[test]
fn test_search_current_tracks_the_focused_match_for_the_highlight() {
    let (mut app, id) = app_with_lines(LINES, "ink");

    step(&mut app, id, BlockNav::Next);
    assert_eq!(app.shared.search.current, Some((id, (1, 0))));
    step(&mut app, id, BlockNav::Next);
    assert_eq!(app.shared.search.current, Some((id, (1, 8))));

    act(&mut app, Action::SearchCancel, id);
    assert_eq!(app.shared.search.current, None);
}

#[test]
fn test_search_current_clears_when_the_query_stops_matching() {
    let (mut app, id) = app_with_lines(LINES, "ink");
    step(&mut app, id, BlockNav::Next);
    assert!(app.shared.search.current.is_some());

    app.shared.search.query = Some("nomatch".to_string());
    step(&mut app, id, BlockNav::Next);

    assert_eq!(app.shared.search.current, None);
}

#[test]
fn test_search_word_under_cursor_forward_sets_query_and_direction() {
    let (mut app, id) = app_with_lines(&["needle here", "needle"], "");
    app.shared.search.query = None;

    in_pane(&mut app, id, |s| s.search_word_under_cursor(true));

    assert_eq!(app.shared.search.query.as_deref(), Some("needle"));
    assert!(!app.shared.search.reverse);
    assert_eq!(app.nav_cursor(id), Some((1, 0)));
}

#[test]
fn test_search_word_under_cursor_backward_sets_query_and_direction() {
    let (mut app, id) = app_with_lines(&["needle here", "needle"], "");
    app.shared.search.query = None;
    app.set_nav_cursor(id, (1, 0));

    in_pane(&mut app, id, |s| s.search_word_under_cursor(false));

    assert_eq!(app.shared.search.query.as_deref(), Some("needle"));
    assert!(app.shared.search.reverse);
    assert_eq!(app.nav_cursor(id), Some((0, 0)));
}

#[test]
fn test_search_word_under_cursor_on_blank_cell_leaves_query_untouched() {
    let (mut app, id) = app_with_lines(&["needle"], "");
    app.shared.search.query = None;
    app.set_nav_cursor(id, (0, 30));

    in_pane(&mut app, id, |s| s.search_word_under_cursor(true));

    assert_eq!(app.shared.search.query, None);
}

#[test]
fn test_select_search_match_gn() {
    let (mut app, id) = app_with_lines(&["first match here and second match"], "match");
    app.set_nav_cursor(id, (0, 0));

    act(&mut app, Action::SelectSearchMatch { forward: true }, id);

    assert_eq!(app.panes[&id.0].mode, Some(Mode::Visual));
    assert_eq!(app.shared.selection.visual_anchor, Some((0, 6)));
    assert_eq!(app.nav_cursor(id), Some((0, 10)));
}

#[test]
fn test_change_search_match_cgn() {
    let (mut app, id) = app_with_lines(&["echo test match"], "match");
    app.set_nav_cursor(id, (0, 0));

    act(&mut app, Action::ChangeSearchMatch { forward: true }, id);

    assert_eq!(app.panes[&id.0].mode, Some(Mode::Insert));
}

#[test]
fn a_query_is_found_in_either_case_and_as_a_pattern() {
    assert_eq!(row_match_spans("Ink and ink", "ink"), vec![(0, 3), (8, 11)]);
    assert_eq!(row_match_spans("a1 b22", r"[a-z]\d+"), vec![(0, 2), (3, 6)]);
    assert!(is_explicit_regex(r"a.*b"));
    assert!(!is_explicit_regex("plain"));
}

#[test]
fn a_pattern_that_is_none_is_looked_for_as_it_stands() {
    assert_eq!(row_match_spans("call f(x) here", "f("), vec![(5, 7)]);
    assert_eq!(spans_from_matches("call f(x)", "f(", &None), vec![(5, 7)]);
}

#[test]
fn matches_beyond_ascii_are_counted_in_characters() {
    assert_eq!(row_match_spans("h\u{e9}llo w\u{f6}rld", "w\u{f6}"), vec![(6, 8)]);
}

#[test]
fn a_plain_match_is_told_in_columns_of_the_row() {
    assert_eq!(row_match_spans("\u{130} foo(", "foo("), [(2, 6)], "one letter lowers to two");
    assert_eq!(row_match_spans("a Foo( FOO(", "foo("), [(2, 6), (7, 11)]);
    assert!(row_match_spans("a foo", "foo(").is_empty());
}
