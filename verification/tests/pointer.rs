use winter_term::app::pointer::{editor_arguments, editor_command};
use winter_term::app::{App, Keymap};
use winter_term::grid::{Cell, Grid, Row, Style};
use winter_term::input::{Action, CursorMove, Key, KeyCode, Mode, PaneId, VisualKind};
use winter_term::pointer::clipboard::{
    copy_confirmation, paste_bytes, selected_text, word_char, word_selection, WORD_CHARS,
};
use winter_term::pointer::mouse::{
    button_bytes, motion_bytes, sgr_mouse_bytes, wheel_bytes, MouseButton, LEGACY_MOUSE_MAX_CELL,
};
use winter_term::pointer::{PointerState, Selection};
use winter_term::session::{Pane, Session};

fn row(text: &str, cols: usize) -> Row {
    let mut cells: Vec<Cell> =
        text.chars().map(|ch| Cell { ch, style: Style::default() }).collect();
    while cells.len() < cols {
        cells.push(Cell { ch: ' ', style: Style::default() });
    }
    Row { cells, indent: 0, links: Vec::new(), wraps: false }
}

fn grid(lines: &[&str], cols: usize, rows: usize) -> Grid {
    let mut all: Vec<Row> = lines.iter().map(|l| row(l, cols)).collect();
    while all.len() < rows {
        all.push(row("", cols));
    }
    Grid::from_lines(all, cols, rows, (0, 0)).expect("a grid")
}

fn keymap() -> Keymap {
    let key = |c: char| Key { alt: false, code: KeyCode::Char(c), ctrl: true, shift: false };
    Keymap { commands: Vec::new(), menu: Vec::new(), redo: key('\\'), undo: key('/') }
}

fn app_with_grid(shown: Grid) -> (App, PaneId) {
    let mut app = App::new(Vec::new(), 0);
    let id = app.tab().panes()[0];
    let mut state = app.panes.remove(&id.0).unwrap_or_default();
    state.pane = Some(Pane::new(shown));
    app.panes.insert(id.0, state);
    (app, id)
}

fn in_pane(app: &mut App, id: PaneId, work: impl Fn(&mut Session)) {
    let mut s = Session {
        id,
        shared: std::mem::take(&mut app.shared),
        state: app.panes.remove(&id.0).unwrap_or_default(),
    };
    work(&mut s);
    app.shared = s.shared;
    app.panes.insert(id.0, s.state);
}

fn select_between(app: &mut App, id: PaneId, anchor: (usize, usize), cursor: (usize, usize)) {
    app.panes.get_mut(&id.0).expect("a pane").mode = Some(Mode::Visual);
    app.shared.selection.visual_anchor = Some(anchor);
    app.set_nav_cursor(id, cursor);
    in_pane(app, id, |s| s.update_visual_selection());
}

fn app_with_visual_selection(line: &str, anchor: usize, cursor: usize) -> App {
    let (mut app, id) = app_with_grid(grid(&[line], 20, 4));
    app.shared.status_bar_enabled = true;
    select_between(&mut app, id, (0, anchor), (0, cursor));
    app
}

#[test]
fn test_word_chars_contains_alphanumeric() {
    assert!(WORD_CHARS.contains('a'));
    assert!(WORD_CHARS.contains('Z'));
    assert!(WORD_CHARS.contains('0'));
    assert!(WORD_CHARS.contains('_'));
    assert!(!WORD_CHARS.contains(' '));
}

#[test]
fn the_characters_of_words_are_those_listed() {
    for code in 0u32..128 {
        let c = char::from_u32(code).expect("a character");
        assert_eq!(word_char(c), WORD_CHARS.contains(c), "{c:?}");
    }
    assert!(!word_char('\u{e9}'));
}

#[test]
fn test_copy_confirmation_pluralizes_multiple_lines_and_chars() {
    assert_eq!(copy_confirmation("ab\ncd"), "Copied 2 lines, 5 characters");
}

#[test]
fn test_copy_confirmation_singular_for_one_line_one_char() {
    assert_eq!(copy_confirmation("a"), "Copied 1 line, 1 character");
}

#[test]
fn test_copy_confirmation_counts_unicode_scalars_not_bytes() {
    assert_eq!(copy_confirmation("h\u{e9}llo"), "Copied 1 line, 5 characters");
}

#[test]
fn test_visual_anchor_holds_its_line_when_the_cursor_scrolls() {
    let (mut app, id) =
        app_with_grid(grid(&["aaa", "bbb", "ccc", "ddd", "eee", "fff"], 20, 3));
    app.panes.get_mut(&id.0).expect("a pane").mode = Some(Mode::Normal);
    app.set_nav_cursor(id, (0, 0));
    app.handle_action(&Action::EnterVisual(VisualKind::Char), id, &keymap());
    let anchored = app.shared.selection.span.as_ref().expect("selection").start_row;
    assert_eq!(anchored, 3, "anchor should sit on absolute row 3");

    for _ in 0..2 {
        app.handle_action(&Action::MoveCursor(CursorMove::Up), id, &keymap());
    }
    assert_eq!(
        app.panes[&id.0].pane.as_ref().expect("contents").grid.scroll_offset(),
        2,
        "the motion should have scrolled history"
    );
    assert_eq!(
        app.shared.selection.span.as_ref().expect("selection").start_row,
        anchored,
        "the anchor drifted with the viewport instead of holding its line"
    );
}

#[test]
fn test_visual_selection_includes_the_character_under_the_cursor() {
    let app = app_with_visual_selection("abcdef", 0, 2);
    assert_eq!(app.selected_text().as_deref(), Some("abc"));
}

#[test]
fn test_visual_selection_backwards_also_includes_the_cursor_cell() {
    let app = app_with_visual_selection("abcdef", 4, 1);
    assert_eq!(app.selected_text().as_deref(), Some("bcde"));
}

#[test]
fn test_selected_text_joins_soft_wrapped_lines_and_skips_hanging_indent() {
    let mut first = row("  01234567", 10);
    first.wraps = true;
    let mut second = row("  XYZ", 10);
    second.indent = 2;
    let rows = vec![first, second, row("", 10), row("", 10)];
    let (mut app, id) =
        app_with_grid(Grid::from_lines(rows, 10, 4, (0, 0)).expect("a grid"));
    select_between(&mut app, id, (0, 0), (1, 4));
    assert_eq!(app.selected_text().as_deref(), Some("  01234567XYZ"));
}

#[test]
fn test_drag_anchor_starts_at_the_press_not_at_the_first_motion() {
    let pointer =
        PointerState { press_cell: Some((PaneId(1), 40, 3)), ..Default::default() };
    assert_eq!(pointer.drag_anchor(PaneId(1), (57, 12)), (40, 3));
}

#[test]
fn test_drag_anchor_falls_back_when_the_press_was_in_another_pane() {
    let mut pointer =
        PointerState { press_cell: Some((PaneId(2), 40, 3)), ..Default::default() };
    assert_eq!(pointer.drag_anchor(PaneId(1), (57, 12)), (57, 12));
    pointer.press_cell = None;
    assert_eq!(pointer.drag_anchor(PaneId(1), (57, 12)), (57, 12));
}

#[test]
fn test_sgr_mouse_bytes_keeps_the_button_code_unchanged_on_release() {
    assert_eq!(sgr_mouse_bytes(1, 5, 10, true), b"\x1b[<1;6;11M");
    assert_eq!(sgr_mouse_bytes(1, 5, 10, false), b"\x1b[<1;6;11m");
}

#[test]
fn test_wheel_bytes_reports_one_notch_per_event() {
    assert_eq!(wheel_bytes(true, true, 5, 10), b"\x1b[<64;6;11M");
    assert_eq!(wheel_bytes(true, false, 5, 10), b"\x1b[<65;6;11M");
}

#[test]
fn test_wheel_bytes_biases_the_legacy_encoding_clear_of_c0() {
    assert_eq!(wheel_bytes(false, true, 5, 10), b"\x1b[M\x60\x26\x2b");
    assert_eq!(
        wheel_bytes(false, true, 5_000, 10),
        wheel_bytes(false, true, LEGACY_MOUSE_MAX_CELL, 10),
        "a column past the encoding's reach clamps to the last one it can name"
    );
}

#[test]
fn buttons_and_motion_are_reported_as_the_program_asked() {
    assert_eq!(
        button_bytes(true, MouseButton::Middle, true, 0, 0).as_deref(),
        Some(&b"\x1b[<1;1;1M"[..])
    );
    assert_eq!(
        button_bytes(false, MouseButton::Left, true, 5, 10).as_deref(),
        Some(&b"\x1b[M\x20\x26\x2b"[..])
    );
    assert_eq!(
        button_bytes(false, MouseButton::Left, false, 5, 10).as_deref(),
        Some(&b"\x1b[M\x23\x26\x2b"[..])
    );
    assert_eq!(motion_bytes(true, 5, 10), b"\x1b[<32;6;11M");
}

#[test]
fn legacy_coordinates_stay_clear_of_controls() {
    for cell in [0, 1, 94, 95, 222, 223, 4_000] {
        for byte in wheel_bytes(false, false, cell, cell).iter().skip(3) {
            assert!(*byte >= 33, "{cell}: {byte}");
        }
    }
}

#[test]
fn a_double_click_takes_the_word() {
    let shown = grid(&["cd /usr/bin now"], 20, 4);
    let word = word_selection(&shown, PaneId(3), 0, 6);
    assert_eq!(word.pane, PaneId(3));
    assert_eq!(selected_text(&shown, word).as_deref(), Some("/usr/bin"));
    let (mut app, id) = app_with_grid(shown);
    app.select_word_at(id, 0, 0);
    assert_eq!(app.selected_text().as_deref(), Some("cd"));
}

#[test]
fn a_block_selection_takes_the_same_columns_of_each_row() {
    let shown = grid(&["abcdef", "ghijkl", "mnopqr"], 20, 4);
    let span = Selection {
        block: true,
        end_col: 3,
        end_row: 2,
        pane: PaneId(0),
        start_col: 1,
        start_row: 0,
    };
    assert_eq!(selected_text(&shown, span).as_deref(), Some("bcd\nhij\nnop"));
}

#[test]
fn a_bracketed_paste_is_wrapped() {
    assert_eq!(paste_bytes("ls", false), b"ls");
    assert_eq!(paste_bytes("ls", true), b"\x1b[200~ls\x1b[201~");
}

#[test]
fn the_editor_is_the_one_the_user_names() {
    let some = |s: &str| Some(s.to_string());
    assert_eq!(editor_command(&some("code"), &some("vi")), "code");
    assert_eq!(editor_command(&None, &some("nano")), "nano");
    assert_eq!(editor_command(&None, &None), "vi");
    assert_eq!(editor_arguments("a.rs", None), ["a.rs"]);
    assert_eq!(editor_arguments("a.rs", Some(7)), ["+7", "a.rs"]);
}

fn span(from: (usize, usize), to: (usize, usize), block: bool) -> Selection {
    Selection {
        block,
        end_col: to.1,
        end_row: to.0,
        pane: PaneId(0),
        start_col: from.1,
        start_row: from.0,
    }
}

#[test]
fn a_selection_may_be_made_from_either_end() {
    let shown = grid(&["abcdef", "ghijkl", "mnopqr"], 20, 4);
    for block in [false, true] {
        let there = selected_text(&shown, span((0, 4), (2, 1), block));
        let back = selected_text(&shown, span((2, 1), (0, 4), block));
        assert_eq!(there, back);
    }
    assert_eq!(
        selected_text(&shown, span((2, 1), (0, 4), false)).as_deref(),
        Some("ef\nghijkl\nmn")
    );
}

#[test]
fn a_selection_stays_on_its_text_while_the_view_scrolls() {
    let lines = ["one", "two", "three", "four", "five", "six"];
    let mut shown = grid(&lines, 20, 3);
    let before = selected_text(&shown, span((1, 1), (4, 2), false));
    assert_eq!(before.as_deref(), Some("wo\nthree\nfour\nfiv"));
    shown.scroll_up_history(2);
    assert_eq!(selected_text(&shown, span((1, 1), (4, 2), false)), before);
}

#[test]
fn a_selection_within_a_row_takes_what_is_between_its_ends() {
    let shown = grid(&["ab  cd"], 20, 4);
    assert_eq!(selected_text(&shown, span((0, 1), (0, 4), false)).as_deref(), Some("b  c"));
    assert_eq!(selected_text(&shown, span((0, 3), (0, 0), false)).as_deref(), Some("ab"));
    assert_eq!(selected_text(&shown, span((0, 2), (0, 3), false)), None);
}
