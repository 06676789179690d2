use winter_term::app::{App, Keymap};
use winter_term::events::{LogicalKey, NamedKey, PhysicalKey};
use winter_term::grid::{Cell, Grid, Row, Style};
use winter_term::input::{
    Action, CursorMove, FindChar, GotoMark, InsertAt, Key, KeyCode, Mode, PaneId, PendingPrefix,
    TextObject, TextObjectSpec, VisualKind,
};
use winter_term::navigation::lists::{ChangeList, JumpList};
use winter_term::palette::PaletteMode;
use winter_term::session::{LastChange, Pane, Session};

fn row(text: &str, cols: usize) -> Row {
    let mut cells: Vec<Cell> =
        text.chars().map(|ch| Cell { ch, style: Style::default() }).collect();
    while cells.len() < cols {
        cells.push(Cell { ch: ' ', style: Style::default() });
    }
    Row { cells, indent: 0, links: Vec::new(), wraps: false }
}

fn grid(lines: &[&str], cols: usize, rows: usize, cursor: (usize, usize)) -> Grid {
    let mut all: Vec<Row> = lines.iter().map(|l| row(l, cols)).collect();
    while all.len() < rows {
        all.push(row("", cols));
    }
    Grid::from_lines(all, cols, rows, cursor).expect("a grid")
}

/// What `seq 1 200` leaves in a pane of 40 columns and 10 rows.
fn pane_with_scrollback() -> Pane {
    let numbers: Vec<String> = (1..=200).map(|n: u32| n.to_string()).collect();
    let mut lines: Vec<&str> = numbers.iter().map(String::as_str).collect();
    lines.push("$ ");
    Pane::new(grid(&lines, 40, 10, (9, 2)))
}

/// A pane that shows `lines` from the top, with the shell at its prompt in the first
/// cell.
fn pane_with_lines(lines: &[&str]) -> Pane {
    let cols = lines.iter().map(|l| l.chars().count()).max().unwrap_or(20).max(20) + 5;
    let rows = lines.len().max(8);
    let mut pane = Pane::new(grid(lines, cols, rows, (0, 0)));
    pane.at_prompt = true;
    pane
}

/// A pane of four rows in which `lines` have been printed one after the other.
fn pane_with_history(lines: &[&str]) -> Pane {
    let last = lines[lines.len() - 1].chars().count();
    let cursor_row = lines.len().min(4) - 1;
    Pane::new(grid(lines, 20, 4, (cursor_row, last)))
}

fn keymap() -> Keymap {
    let key = |c: char| Key { alt: false, code: KeyCode::Char(c), ctrl: true, shift: false };
    Keymap { commands: Vec::new(), menu: Vec::new(), redo: key('\\'), undo: key('/') }
}

fn new_app() -> App {
    App::new(Vec::new(), 0)
}

fn set_pane(app: &mut App, id: PaneId, pane: Pane) {
    let mut state = app.panes.remove(&id.0).unwrap_or_default();
    state.pane = Some(pane);
    app.panes.insert(id.0, state);
}

fn shown(app: &App, id: PaneId) -> &Grid {
    &app.panes[&id.0].pane.as_ref().expect("a program runs").grid
}

fn mode(app: &App, id: PaneId) -> Option<Mode> {
    app.panes[&id.0].mode
}

fn act(app: &mut App, action: Action, id: PaneId) {
    app.handle_action(&action, id, &keymap());
}

fn go(app: &mut App, mv: CursorMove, id: PaneId) {
    act(app, Action::MoveCursor(mv), id);
}

/// Work on one pane alone.
fn in_pane(app: &mut App, id: PaneId, work: impl Fn(&mut Session)) {
    let mut s = Session {
        id,
        shared: std::mem::take(&mut app.shared),
        state: app.panes.remove(&id.0).unwrap_or_default(),
    };
    work(&mut s);
    app.shared = s.shared;
    app.panes.insert(id.0, s.state);
}

fn app_in(pane: Pane, id: PaneId, mode: Mode, cursor: (usize, usize)) -> App {
    let mut app = new_app();
    app.shared.status_bar_enabled = true;
    set_pane(&mut app, id, pane);
    app.set_mode(id, mode);
    app.set_nav_cursor(id, cursor);
    app
}

/// Two lines, a blank one, then one line.
fn app_with_paragraphs(cursor_row: usize) -> (App, PaneId) {
    let id = PaneId(0);
    let pane = pane_with_lines(&["alpha", "beta", "", "gamma"]);
    (app_in(pane, id, Mode::Normal, (cursor_row, 0)), id)
}

fn find(ch: char, till: bool) -> Action {
    Action::FindChar(FindChar { ch, forward: true, till })
}

fn label_cells(app: &App) -> Vec<(usize, usize)> {
    app.shared
        .find_labels
        .as_ref()
        .expect("overlay is up")
        .iter()
        .map(|l| (l.row, l.col))
        .collect()
}

fn nth_label(app: &App, n: usize) -> char {
    app.shared.find_labels.as_ref().expect("overlay is up")[n].label
}

fn span_rows(app: &App) -> Option<(usize, usize)> {
    app.shared.selection.span.map(|s| (s.start_row, s.end_row))
}

#[test]
fn test_select_paragraph_covers_the_run_of_lines_around_the_cursor() {
    let (mut app, id) = app_with_paragraphs(1);

    act(&mut app, Action::SelectParagraph, id);

    assert_eq!(mode(&app, id), Some(Mode::Visual));
    assert_eq!(
        app.shared.selection.visual_kind,
        VisualKind::Line,
        "paragraph selection is linewise"
    );
    assert_eq!(span_rows(&app), Some((0, 1)));
    assert_eq!(app.selected_text().as_deref(), Some("alpha\nbeta"));
    assert_eq!(app.nav_cursor(id), Some((1, 0)), "cursor ends on the last line");
}

#[test]
fn test_select_paragraph_from_a_one_line_paragraph_selects_only_that_line() {
    let (mut app, id) = app_with_paragraphs(3);

    act(&mut app, Action::SelectParagraph, id);

    assert_eq!(span_rows(&app), Some((3, 3)));
    assert_eq!(app.selected_text().as_deref(), Some("gamma"));
}

#[test]
fn test_select_paragraph_on_a_blank_line_selects_the_blank_run() {
    let (mut app, id) = app_with_paragraphs(2);

    act(&mut app, Action::SelectParagraph, id);

    assert_eq!(span_rows(&app), Some((2, 2)));
}

#[test]
fn test_find_overlay_labels_every_candidate_and_jumps_to_the_picked_one() {
    let id = PaneId(1);
    let mut app = app_in(pane_with_lines(&["banana"]), id, Mode::Normal, (0, 0));

    act(&mut app, find('a', false), id);

    assert_eq!(label_cells(&app), vec![(0, 1), (0, 3), (0, 5)]);
    assert!(
        app.shared.find_labels.as_ref().unwrap().iter().all(|l| l.label.is_ascii_lowercase()),
        "labels are lowercase"
    );
    assert_eq!(app.shared.pending, PendingPrefix::FindLabel);
    assert_eq!(app.nav_cursor(id), Some((0, 0)), "nothing moves yet");

    let second = nth_label(&app, 1);
    act(&mut app, Action::FindJump(second), id);

    assert_eq!(app.nav_cursor(id), Some((0, 3)));
    assert!(app.shared.find_labels.is_none(), "overlay taken down after the jump");
}

#[test]
fn test_find_overlay_is_skipped_for_a_single_candidate() {
    let id = PaneId(1);
    let mut app = app_in(pane_with_lines(&["abc"]), id, Mode::Normal, (0, 0));

    act(&mut app, find('c', false), id);

    assert!(app.shared.find_labels.is_none(), "one candidate needs no overlay");
    assert_eq!(app.nav_cursor(id), Some((0, 2)), "it just jumps");
    assert_eq!(app.shared.pending, PendingPrefix::Idle);
}

#[test]
fn test_find_overlay_spans_the_visible_rows_and_respects_till() {
    let id = PaneId(1);
    let mut app = app_in(pane_with_lines(&["--a--", "--a--"]), id, Mode::Normal, (0, 0));

    act(&mut app, find('a', true), id);

    assert_eq!(
        label_cells(&app),
        vec![(0, 1), (1, 1)],
        "one landing spot per row, each one cell before the 'a'"
    );
}

#[test]
fn test_find_overlay_jump_extends_a_visual_selection() {
    let id = PaneId(1);
    let mut app = app_in(pane_with_lines(&["banana"]), id, Mode::Visual, (0, 0));
    app.shared.selection.visual_anchor = Some((0, 0));
    in_pane(&mut app, id, |s| s.update_visual_selection());

    act(&mut app, find('a', false), id);
    let label = nth_label(&app, 2);
    act(&mut app, Action::FindJump(label), id);

    assert_eq!(app.nav_cursor(id), Some((0, 5)));
    assert_eq!(app.selected_text().as_deref(), Some("banana"));
}

#[test]
fn test_find_overlay_cancel_leaves_the_cursor_alone() {
    let id = PaneId(1);
    let mut app = app_in(pane_with_lines(&["banana"]), id, Mode::Normal, (0, 0));

    act(&mut app, find('a', false), id);
    act(&mut app, Action::FindCancel, id);

    assert!(app.shared.find_labels.is_none());
    assert_eq!(app.nav_cursor(id), Some((0, 0)));
}

#[test]
fn test_matching_bracket_reaches_a_partner_in_scrollback() {
    let id = PaneId(1);
    let pane = pane_with_history(&["f(x", "a", "b", "c", "d", ")end"]);
    let mut app = app_in(pane, id, Mode::Normal, (0, 0));
    assert!(shown(&app, id).scrollback_len() > 0, "the opening bracket is above the view");
    let last = shown(&app, id).last_content_row();
    app.set_nav_cursor(id, (last, 0));

    go(&mut app, CursorMove::MatchingBracket, id);

    let (row, col) = app.nav_cursor(id).unwrap();
    let grid = shown(&app, id);
    assert!(grid.scroll_offset() > 0, "the view scrolled up to the partner");
    assert_eq!(
        grid.visible_cell(row, col).map(|c| c.ch),
        Some('('),
        "the cursor sits on the opening bracket"
    );
}

#[test]
fn test_word_end_back_wraps_onto_the_previous_line_in_scrollback() {
    let id = PaneId(1);
    let pane = pane_with_history(&["aa", "bb", "cc", "dd", "ee"]);
    let mut app = app_in(pane, id, Mode::Normal, (0, 0));
    assert_eq!(shown(&app, id).scrollback_len(), 1, "one line above");

    go(&mut app, CursorMove::WordEndBack, id);

    let (row, col) = app.nav_cursor(id).unwrap();
    let grid = shown(&app, id);
    assert_eq!(grid.scroll_offset(), 1, "scrolled one line into history");
    assert_eq!(row, 0);
    assert_eq!(
        grid.visible_cell(row, col).map(|c| c.ch),
        Some('a'),
        "landed on the end of the previous line's word"
    );
}

#[test]
fn test_paragraph_motion_scrolls_past_the_viewport_edge() {
    let id = PaneId(1);
    let texts: Vec<String> = (0..6).map(|i| format!("para{i}")).collect();
    let mut lines: Vec<&str> = Vec::new();
    for text in &texts {
        lines.push(text);
        lines.push("");
    }
    lines.push("");
    let mut app = app_in(Pane::new(grid(&lines, 20, 4, (3, 0))), id, Mode::Normal, (0, 0));
    assert!(shown(&app, id).scrollback_len() > 0, "paragraphs are above the view");
    let abs_before = shown(&app, id).to_absolute_row(0);

    go(&mut app, CursorMove::ParagraphBack, id);

    let (row, _) = app.nav_cursor(id).unwrap();
    let abs_after = shown(&app, id).to_absolute_row(row);
    assert!(
        abs_after < abs_before,
        "was at absolute row {abs_before}, landed on {abs_after}"
    );
    assert!(shown(&app, id).scroll_offset() > 0, "and scroll the view up to show it");

    go(&mut app, CursorMove::ParagraphForward, id);
    let (row_fwd, _) = app.nav_cursor(id).unwrap();
    let abs_fwd = shown(&app, id).to_absolute_row(row_fwd);
    assert!(abs_fwd > abs_after, "forward paragraph moves back down");
}

#[test]
fn test_paragraph_motions_stop_on_the_blank_separators() {
    let id = PaneId(1);
    let pane = pane_with_lines(&["alpha", "beta", "", "gamma", "delta"]);
    let mut app = app_in(pane, id, Mode::Normal, (0, 0));

    go(&mut app, CursorMove::ParagraphForward, id);
    assert_eq!(app.nav_cursor(id).unwrap().0, 2, "forward paragraph lands on the blank row");

    app.set_nav_cursor(id, (4, 0));
    go(&mut app, CursorMove::ParagraphBack, id);
    assert_eq!(app.nav_cursor(id).unwrap().0, 2, "backward paragraph lands on the blank row");
}

#[test]
fn test_screen_motions_jump_to_top_middle_and_bottom_of_the_viewport() {
    let id = PaneId(1);
    let texts: Vec<String> = (0..8).map(|i| format!("line{i}")).collect();
    let lines: Vec<&str> = texts.iter().map(String::as_str).collect();
    let mut app = app_in(pane_with_lines(&lines), id, Mode::Normal, (3, 2));
    let rows = shown(&app, id).rows();

    go(&mut app, CursorMove::ScreenTop, id);
    assert_eq!(app.nav_cursor(id).unwrap().0, 0);
    go(&mut app, CursorMove::ScreenBottom, id);
    assert_eq!(app.nav_cursor(id).unwrap().0, rows - 1);
    go(&mut app, CursorMove::ScreenMiddle, id);
    assert_eq!(app.nav_cursor(id).unwrap().0, rows / 2);
}

#[test]
fn test_matching_bracket_hops_between_partners_counting_nesting() {
    let id = PaneId(1);
    let mut app = app_in(pane_with_lines(&["f(g(x))"]), id, Mode::Normal, (0, 1));

    go(&mut app, CursorMove::MatchingBracket, id);
    assert_eq!(app.nav_cursor(id), Some((0, 6)));
    go(&mut app, CursorMove::MatchingBracket, id);
    assert_eq!(app.nav_cursor(id), Some((0, 1)));

    app.set_nav_cursor(id, (0, 0));
    go(&mut app, CursorMove::MatchingBracket, id);
    assert_eq!(app.nav_cursor(id), Some((0, 6)));
}

#[test]
fn test_last_non_blank_and_word_end_back_motions() {
    let id = PaneId(1);
    let mut app = app_in(pane_with_lines(&["foo bar baz"]), id, Mode::Normal, (0, 0));

    go(&mut app, CursorMove::LastNonBlank, id);
    assert_eq!(app.nav_cursor(id), Some((0, 10)), "g_ lands on the final z");

    app.set_nav_cursor(id, (0, 9));
    go(&mut app, CursorMove::WordEndBack, id);
    assert_eq!(app.nav_cursor(id), Some((0, 6)));
}

#[test]
fn test_line_to_top_scrolls_the_cursor_line_to_the_first_row() {
    let id = PaneId(1);
    let mut pane = pane_with_scrollback();
    pane.grid.scroll_up_history(20);
    let mut app = app_in(pane, id, Mode::Normal, (5, 0));
    let abs_before = shown(&app, id).to_absolute_row(5);

    go(&mut app, CursorMove::LineToTop, id);

    let (row, _) = app.nav_cursor(id).unwrap();
    assert_eq!(row, 0, "the cursor's line is now the top row");
    assert_eq!(
        shown(&app, id).to_absolute_row(row),
        abs_before,
        "and it is still the same buffer line"
    );
}

#[test]
fn test_page_up_snaps_cursor_to_top_of_page() {
    let id = PaneId(1);
    let mut app = app_in(pane_with_scrollback(), id, Mode::Normal, (5, 0));

    go(&mut app, CursorMove::PageUp, id);

    let (row, _) = app.nav_cursor(id).expect("cursor still there");
    assert_eq!(row, 0, "PageUp should land the cursor on the new page's top row");
}

#[test]
fn test_page_down_snaps_cursor_to_bottom_of_page() {
    let id = PaneId(1);
    let mut app = app_in(pane_with_scrollback(), id, Mode::Normal, (5, 0));

    go(&mut app, CursorMove::Top, id);
    go(&mut app, CursorMove::PageDown, id);

    let rows = shown(&app, id).rows();
    let (row, _) = app.nav_cursor(id).expect("cursor still there");
    assert_eq!(row, rows - 1, "PageDown should land the cursor on the new page's bottom row");
}

#[test]
fn test_page_down_from_history_does_not_strand_cursor_past_last_prompt() {
    let id = PaneId(1);
    let pane = Pane::new(grid(&["$ echo hi", "hi", "$ "], 40, 10, (2, 2)));
    let last_row = pane.grid.last_content_row();
    let bottom_row = pane.grid.rows() - 1;
    assert!(bottom_row > last_row, "blank rows below the last prompt");
    let mut app = app_in(pane, id, Mode::Normal, (bottom_row, 0));

    go(&mut app, CursorMove::PageDown, id);

    let (row, _) = app.nav_cursor(id).expect("cursor still there");
    assert!(row <= last_row, "cursor at row {row} sits past the last prompt line ({last_row})");
}

#[test]
fn test_mouse_tracking_parks_nav_cursor_in_normal_and_visual_modes() {
    let (mut app, id) = app_with_paragraphs(0);

    in_pane(&mut app, id, |s| s.track_nav_cursor_to_mouse(2, 4));
    assert_eq!(app.nav_cursor(id), Some((2, 4)));

    app.set_mode(id, Mode::Visual);
    in_pane(&mut app, id, |s| s.track_nav_cursor_to_mouse(3, 1));
    assert_eq!(app.nav_cursor(id), Some((3, 1)));
}

#[test]
fn test_mouse_tracking_leaves_nav_cursor_alone_in_insert_mode() {
    let (mut app, id) = app_with_paragraphs(1);
    app.set_mode(id, Mode::Insert);

    in_pane(&mut app, id, |s| s.track_nav_cursor_to_mouse(2, 4));

    assert_eq!(
        app.nav_cursor(id),
        Some((1, 0)),
        "Insert-mode click must not move the traversal cursor"
    );
}

#[test]
fn test_count_moves_the_cursor_multiple_rows() {
    let (mut app, id) = app_with_paragraphs(0);

    act(&mut app, Action::MoveCursorN { count: 3, mv: CursorMove::Down }, id);

    assert_eq!(app.nav_cursor(id), Some((3, 0)), "3j from row 0 lands on row 3");
}

#[test]
fn test_changelist_appends_instead_of_forking() {
    let mut changes = ChangeList::default();
    changes.push((1, 0));
    changes.push((2, 0));
    assert_eq!(changes.older((9, 9)), Some((2, 0)));
    changes.push((3, 0));
    assert_eq!(
        changes.older((9, 9)),
        Some((3, 0)),
        "a change made while stepped back becomes the newest entry"
    );
    assert_eq!(changes.older((9, 9)), Some((2, 0)), "older entries survive the push");
}

#[test]
fn test_changelist_walk_returns_to_the_live_position_last() {
    let mut changes = ChangeList::default();
    changes.push((1, 0));
    changes.push((2, 0));
    assert_eq!(changes.older((9, 9)), Some((2, 0)));
    assert_eq!(changes.older((9, 9)), Some((1, 0)));
    assert_eq!(changes.newer(), Some((2, 0)));
    assert_eq!(changes.newer(), Some((9, 9)), "g, walks all the way back to where it started");
    assert_eq!(changes.newer(), None, "at the live position, g, has nowhere to go");
}

#[test]
fn test_g_semicolon_returns_to_where_a_change_began() {
    let (mut app, id) = app_with_paragraphs(0);
    let (prompt_row, prompt_col) = shown(&app, id).cursor();
    app.set_nav_cursor(id, (prompt_row, prompt_col));

    act(&mut app, Action::DeleteCharForward, id);

    go(&mut app, CursorMove::Down, id);
    act(&mut app, Action::ChangeOlder, id);
    assert_eq!(
        app.nav_cursor(id),
        Some((prompt_row, prompt_col)),
        "g; lands where the delete began"
    );
    act(&mut app, Action::ChangeNewer, id);
    assert_eq!(
        app.nav_cursor(id),
        Some((prompt_row + 1, 0)),
        "g, returns to the position the walk started from"
    );
}

#[test]
fn test_dot_redispatches_the_last_normal_mode_change() {
    let (mut app, id) = app_with_paragraphs(0);
    let (prompt_row, prompt_col) = shown(&app, id).cursor();
    app.set_nav_cursor(id, (prompt_row, prompt_col));

    act(&mut app, Action::DeleteCharForward, id);
    assert!(matches!(
        app.panes[&id.0].last_change,
        Some(LastChange::Action(Action::DeleteCharForward))
    ));

    app.shared.nav_resync_pending = false;
    act(&mut app, Action::RepeatLastChange, id);
    assert!(
        app.shared.nav_resync_pending,
        "`.` must re-run the recorded delete, not just remember it"
    );
}

#[test]
fn test_dot_replays_the_last_insert_typing_run() {
    let id = PaneId(0);
    let mut app = app_in(pane_with_lines(&[""]), id, Mode::Normal, (0, 0));

    act(&mut app, Action::EnterInsert(InsertAt::Cursor), id);
    act(&mut app, Action::SendBytes(b"hi".to_vec()), id);
    app.panes
        .get_mut(&id.0)
        .unwrap()
        .insert_session
        .as_mut()
        .expect("a visit to Insert mode")
        .run
        .extend_from_slice(b"hi");
    act(&mut app, Action::SwitchMode(Mode::Normal), id);
    assert_eq!(app.panes[&id.0].last_change, Some(LastChange::Typed(b"hi".to_vec())));

    act(&mut app, Action::RepeatLastChange, id);
    let sent = app.take_outbox(id);
    assert_eq!(sent, b"hihi", "`.` must re-send the recorded typing run");
}

#[test]
fn test_dot_without_a_recorded_change_is_a_no_op() {
    let (mut app, id) = app_with_paragraphs(0);
    let before = app.nav_cursor(id);

    act(&mut app, Action::RepeatLastChange, id);

    assert_eq!(app.nav_cursor(id), before);
    assert!(app.panes[&id.0].last_change.is_none());
}

#[test]
fn test_dot_session_through_the_real_resolver_and_key_path() {
    let id = PaneId(0);
    let mut app = app_in(pane_with_lines(&[""]), id, Mode::Normal, (0, 0));

    act(&mut app, Action::EnterInsert(InsertAt::Cursor), id);
    for ch in ['h', 'i'] {
        let key = Key { alt: false, code: KeyCode::Char(ch), ctrl: false, shift: false };
        let action = Action::SendBytes(vec![ch as u8]);
        in_pane(&mut app, id, |s| {
            let at_prompt = s.at_prompt();
            s.record_insert_key(&key, &action, at_prompt);
        });
        act(&mut app, action, id);
    }
    act(&mut app, Action::SwitchMode(Mode::Normal), id);

    assert_eq!(mode(&app, id), Some(Mode::Normal), "left Insert");
    assert_eq!(
        app.panes[&id.0].last_change,
        Some(LastChange::Typed(b"hi".to_vec())),
        "the typed run was accumulated and finalized on leaving Insert"
    );

    act(&mut app, Action::RepeatLastChange, id);
    assert_eq!(app.take_outbox(id), b"hihi", "`.` re-sends the recorded run");
}

#[test]
fn test_jumplist_returns_to_the_position_before_the_jump() {
    let (mut app, id) = app_with_paragraphs(2);
    let abs_before = shown(&app, id).to_absolute_row(2);

    go(&mut app, CursorMove::Top, id);
    assert_eq!(app.nav_cursor(id), Some((0, 0)), "gg lands on the oldest row");

    act(&mut app, Action::JumpOlder, id);
    let (row, _) = app.nav_cursor(id).expect("cursor restored");
    assert_eq!(
        shown(&app, id).to_absolute_row(row),
        abs_before,
        "Ctrl+O returns to the pre-jump line"
    );

    act(&mut app, Action::JumpNewer, id);
    assert_eq!(
        app.nav_cursor(id),
        Some((0, 0)),
        "Ctrl+I walks forward to the post-jump position"
    );
}

#[test]
fn test_jumplist_forks_when_a_new_jump_leaves_the_past() {
    let mut jumps = JumpList::default();
    jumps.push((1, 0));
    jumps.push((2, 0));
    assert_eq!(jumps.older((9, 9)), Some((2, 0)));
    jumps.push((3, 0));
    assert_eq!(
        jumps.older((8, 8)),
        Some((3, 0)),
        "the entry stepped back past is forked away, not kept"
    );
    assert_eq!(
        jumps.newer(),
        Some((8, 8)),
        "walking all the way forward returns to the live position"
    );
    assert_eq!(jumps.newer(), None, "already at the live position");
}

#[test]
fn a_walk_past_the_oldest_jump_stays() {
    let mut jumps = JumpList::default();
    assert_eq!(jumps.older((5, 5)), None);
    jumps.push((1, 0));
    assert_eq!(jumps.older((5, 5)), Some((1, 0)));
    assert_eq!(jumps.older((5, 5)), None);
    assert_eq!(jumps.newer(), Some((5, 5)));
}

#[test]
fn test_leaving_normal_records_a_jump_origin() {
    let (mut app, id) = app_with_paragraphs(2);
    let abs_before = shown(&app, id).to_absolute_row(2);

    act(&mut app, Action::SwitchMode(Mode::Insert), id);
    act(&mut app, Action::SwitchMode(Mode::Normal), id);

    act(&mut app, Action::JumpOlder, id);
    let (row, _) = app.nav_cursor(id).expect("cursor restored");
    assert_eq!(
        shown(&app, id).to_absolute_row(row),
        abs_before,
        "the pre-Insert browsing position is on the jumplist"
    );
}

#[test]
fn test_visual_o_swaps_the_cursor_to_the_anchor() {
    let (mut app, id) = app_with_paragraphs(2);
    app.set_mode(id, Mode::Visual);
    app.shared.selection.visual_anchor = Some((0, 2));
    app.set_nav_cursor(id, (2, 1));
    in_pane(&mut app, id, |s| s.update_visual_selection());
    let covered = |app: &App| span_rows(app).map(|(a, b)| (a.min(b), a.max(b)));
    let before = covered(&app);

    act(&mut app, Action::SwapVisualEnds, id);

    assert_eq!(app.nav_cursor(id), Some((0, 2)), "cursor sits on the anchor");
    assert_eq!(
        app.shared.selection.visual_anchor,
        Some((2, 1)),
        "anchor moved to the old cursor"
    );
    assert_eq!(covered(&app), before, "the selection span itself is unchanged");
}

#[test]
fn test_gv_restores_the_last_visual_selection() {
    let (mut app, id) = app_with_paragraphs(0);
    act(&mut app, Action::EnterVisual(VisualKind::Line), id);
    act(&mut app, Action::MoveCursorN { count: 2, mv: CursorMove::Down }, id);
    let span = span_rows(&app).expect("selection live");

    act(&mut app, Action::EnterVisual(VisualKind::Line), id);
    assert!(app.shared.selection.span.is_none(), "exiting Visual cleared the selection");

    act(&mut app, Action::RestoreVisual, id);

    assert_eq!(mode(&app, id), Some(Mode::Visual), "gv re-enters Visual");
    assert_eq!(
        app.shared.selection.visual_kind,
        VisualKind::Line,
        "the linewise kind is preserved"
    );
    assert_eq!(span_rows(&app), Some(span), "the same span is selected again");
}

#[test]
fn test_mark_set_and_goto_exact_and_first_non_blank() {
    let id = PaneId(0);
    let pane = pane_with_lines(&["alpha", "   beta", "gamma"]);
    let mut app = app_in(pane, id, Mode::Normal, (1, 4));

    act(&mut app, Action::SetMark('a'), id);
    app.set_nav_cursor(id, (0, 0));

    act(&mut app, Action::GotoMark(GotoMark { mark: 'a', exact: true }), id);
    assert_eq!(app.nav_cursor(id), Some((1, 4)));

    app.set_nav_cursor(id, (0, 0));
    act(&mut app, Action::GotoMark(GotoMark { mark: 'a', exact: false }), id);
    assert_eq!(app.nav_cursor(id), Some((1, 3)));
}

#[test]
fn test_goto_mark_records_jump_origin_for_ctrl_o() {
    let (mut app, id) = app_with_paragraphs(0);
    app.set_nav_cursor(id, (3, 0));
    act(&mut app, Action::SetMark('z'), id);

    app.set_nav_cursor(id, (0, 2));

    act(&mut app, Action::GotoMark(GotoMark { mark: 'z', exact: true }), id);
    assert_eq!(app.nav_cursor(id), Some((3, 0)));

    act(&mut app, Action::JumpOlder, id);
    assert_eq!(app.nav_cursor(id), Some((0, 2)));
}

#[test]
fn test_goto_mark_in_visual_mode_extends_selection() {
    let (mut app, id) = app_with_paragraphs(0);
    app.set_nav_cursor(id, (3, 0));
    act(&mut app, Action::SetMark('b'), id);

    app.set_nav_cursor(id, (0, 0));
    act(&mut app, Action::EnterVisual(VisualKind::Char), id);

    act(&mut app, Action::GotoMark(GotoMark { mark: 'b', exact: true }), id);
    assert_eq!(app.nav_cursor(id), Some((3, 0)));
    assert_eq!(span_rows(&app), Some((0, 3)), "selection extends to the mark");
}

#[test]
fn test_select_text_object_word_in_normal_enters_visual() {
    let id = PaneId(0);
    let mut app = app_in(pane_with_lines(&["hello world foo"]), id, Mode::Normal, (0, 7));

    act(
        &mut app,
        Action::SelectTextObject(TextObjectSpec { around: false, object: TextObject::Word }),
        id,
    );

    assert_eq!(mode(&app, id), Some(Mode::Visual));
    assert_eq!(app.shared.selection.visual_kind, VisualKind::Char);
    assert_eq!(app.selected_text().as_deref(), Some("world"));
}

#[test]
fn test_select_text_object_quotes() {
    let id = PaneId(0);
    let pane = pane_with_lines(&["let s = \"hello world\";"]);
    let mut app = app_in(pane, id, Mode::Normal, (0, 11));

    let quotes = |around| {
        Action::SelectTextObject(TextObjectSpec { around, object: TextObject::Quotes('"') })
    };
    act(&mut app, quotes(false), id);
    assert_eq!(app.selected_text().as_deref(), Some("hello world"));

    act(&mut app, quotes(true), id);
    assert_eq!(app.selected_text().as_deref(), Some("\"hello world\""));
}

#[test]
fn test_blockwise_visual_selection_and_yank() {
    let id = PaneId(0);
    let pane = pane_with_lines(&["abcdef", "123456", "ghijkl"]);
    let mut app = app_in(pane, id, Mode::Normal, (0, 1));

    act(&mut app, Action::EnterVisual(VisualKind::Block), id);
    assert_eq!(mode(&app, id), Some(Mode::Visual));
    assert_eq!(app.shared.selection.visual_kind, VisualKind::Block);

    app.set_nav_cursor(id, (2, 3));
    in_pane(&mut app, id, |s| s.update_visual_selection());

    assert!(app.shared.selection.span.expect("block selection active").block);
    assert_eq!(app.selected_text().as_deref(), Some("bcd\n234\nhij"));
}

#[test]
fn test_named_register_yank_and_paste_in_app() {
    let id = PaneId(0);
    let pane = pane_with_lines(&["echo \"hello\"", ""]);
    let mut app = app_in(pane, id, Mode::Visual, (0, 11));
    app.shared.selection.visual_anchor = Some((0, 5));
    in_pane(&mut app, id, |s| s.update_visual_selection());

    act(&mut app, Action::YankSelectionRegister('a'), id);
    assert_eq!(
        app.shared.registers.get(&('a' as u32)).map(String::as_str),
        Some("\"hello\"")
    );
    assert_eq!(mode(&app, id), Some(Mode::Normal));

    act(&mut app, Action::PasteRegister { register: 'a', after: true }, id);
    assert_eq!(app.take_outbox(id), b"\"hello\"");
}

fn press(app: &mut App, named: NamedKey, id: PaneId) -> bool {
    let mut palette = app.palette.take().expect("the palette is up");
    let key = LogicalKey::Named(named);
    app.handle_palette_input(&mut palette, &key, PhysicalKey::Other, id, &keymap());
    let active = palette.active;
    if active {
        app.palette = Some(palette);
    }
    active
}

#[test]
fn test_buffer_swoop_opens_navigates_and_confirms_with_jump_history() {
    let id = PaneId(0);
    let pane = pane_with_lines(&["alpha line", "beta target", "gamma last"]);
    let mut app = app_in(pane, id, Mode::Normal, (0, 0));

    app.open_swoop(id);
    let palette = app.palette.as_ref().expect("palette is active");
    assert_eq!(palette.mode, PaletteMode::Swoop);
    assert_eq!(palette.entries.len(), 3);

    press(&mut app, NamedKey::ArrowDown, id);
    assert_eq!(app.nav_cursor(id), Some((1, 0)));

    assert!(!press(&mut app, NamedKey::Enter, id));
    assert!(app.palette.is_none());
    assert_eq!(app.nav_cursor(id), Some((1, 0)));

    let state = app.panes.get_mut(&id.0).unwrap();
    assert_eq!(state.jump_list.older((1, 0)), Some((0, 0)));
}

#[test]
fn test_buffer_swoop_cancel_restores_initial_cursor() {
    let id = PaneId(0);
    let pane = pane_with_lines(&["alpha line", "beta target", "gamma last"]);
    let mut app = app_in(pane, id, Mode::Normal, (0, 2));

    app.open_swoop(id);
    press(&mut app, NamedKey::ArrowDown, id);
    assert_eq!(app.nav_cursor(id), Some((1, 0)));

    press(&mut app, NamedKey::Escape, id);
    assert!(app.palette.is_none());
    assert_eq!(app.nav_cursor(id), Some((0, 2)));
}

#[test]
fn test_change_operator_deletes_and_enters_insert() {
    let id = PaneId(0);
    let mut app = app_in(pane_with_lines(&["echo \"hello world\""]), id, Mode::Normal, (0, 6));

    act(
        &mut app,
        Action::ChangeTextObject(TextObjectSpec {
            around: false,
            object: TextObject::Quotes('"'),
        }),
        id,
    );
    assert_eq!(mode(&app, id), Some(Mode::Insert));

    app.set_mode(id, Mode::Normal);
    app.set_nav_cursor(id, (0, 2));
    act(&mut app, Action::SubstituteChar, id);
    assert_eq!(mode(&app, id), Some(Mode::Insert));

    app.set_mode(id, Mode::Normal);
    act(&mut app, Action::ChangeLine, id);
    assert_eq!(mode(&app, id), Some(Mode::Insert));
}

#[test]
fn test_replace_char_and_toggle_case_on_prompt() {
    let id = PaneId(0);
    let mut app = app_in(pane_with_lines(&["Hello World"]), id, Mode::Normal, (0, 0));

    act(&mut app, Action::ReplaceChar('X'), id);
    assert_eq!(mode(&app, id), Some(Mode::Normal));

    act(&mut app, Action::ToggleCaseChar, id);
    assert_eq!(app.nav_cursor(id), Some((0, 1)));
    assert_eq!(mode(&app, id), Some(Mode::Normal));
}

#[test]
fn test_jump_to_prompt_gp() {
    let id = PaneId(0);
    let lines = ["first line", "second line", "prompt line"];
    let pane = Pane::new(grid(&lines, 25, 8, (2, 5)));
    let mut app = app_in(pane, id, Mode::Normal, (0, 0));

    act(&mut app, Action::JumpToPrompt, id);
    assert_eq!(app.nav_cursor(id), Some((2, 5)));
}

#[test]
fn half_pages_keep_the_row_while_there_is_history() {
    let id = PaneId(1);
    let mut app = app_in(pane_with_scrollback(), id, Mode::Normal, (3, 0));
    go(&mut app, CursorMove::HalfPageUp, id);
    assert_eq!(app.nav_cursor(id).map(|c| c.0), Some(3));
    assert_eq!(shown(&app, id).scroll_offset(), 5);
    go(&mut app, CursorMove::HalfPageDown, id);
    assert_eq!(app.nav_cursor(id).map(|c| c.0), Some(3));
    assert_eq!(shown(&app, id).scroll_offset(), 0);

    let short = Pane::new(grid(&["$ echo hi", "hi", "$ "], 40, 10, (2, 2)));
    let mut app = app_in(short, id, Mode::Normal, (8, 0));
    go(&mut app, CursorMove::HalfPageDown, id);
    assert_eq!(app.nav_cursor(id).map(|c| c.0), Some(2), "nothing is printed below");
}

#[test]
fn history_is_not_edited_from_a_scrolled_view() {
    let id = PaneId(1);
    let lines = ["old zero", "old one", "$ ls -l", ""];
    let mut back = Pane::new(grid(&lines, 20, 2, (0, 4)));
    back.grid.set_scroll_offset(2);
    let mut app = app_in(back, id, Mode::Normal, (0, 2));
    app.shared.prompt_editing = true;
    act(&mut app, Action::DeleteLine, id);
    assert!(app.take_outbox(id).is_empty(), "row zero of the view is history");
    assert_eq!(
        app.active_notice().map(|n| n.0),
        Some("Cannot delete: not on the editable prompt line")
    );

    let mut back = Pane::new(grid(&lines, 20, 2, (0, 4)));
    back.grid.set_scroll_offset(1);
    let mut app = app_in(back, id, Mode::Normal, (1, 4));
    app.shared.prompt_editing = true;
    act(&mut app, Action::DeleteLine, id);
    assert!(!app.take_outbox(id).is_empty(), "the prompt is on row one of the view");
}

#[test]
fn a_jump_to_the_prompt_scrolls_down_to_it() {
    let id = PaneId(1);
    let mut pane = pane_with_scrollback();
    pane.grid.set_scroll_offset(40);
    let at = pane.grid.cursor();
    let mut app = app_in(pane, id, Mode::Normal, (3, 0));
    act(&mut app, Action::JumpToPrompt, id);
    assert_eq!(app.nav_cursor(id), Some(at));
    assert_eq!(shown(&app, id).scroll_offset(), 0);
}
