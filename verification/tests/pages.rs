use winter_term::app::outcomes::InputUse;
use winter_term::app::pages::{Offer, EDITOR_TOOL, KEYS_TOOL};
use winter_term::app::{App, Keymap};
use winter_term::events::{LogicalKey, NamedKey, PhysicalKey};
use winter_term::grid::{Cell, Grid, Row, Style};
use winter_term::input::{Action, Key, KeyCode, Mode, PaneId};
use winter_term::jobs::{Finished, JobReply, JobRequest};
use winter_term::pages::{
    input_dialog, FileTarget, PageOutcome, PageSlot, PickRequest, PromptMode, PromptRequest,
};
use winter_term::palette::PaletteMode;
use winter_term::requests::Request;
use winter_term::session::{Effect, Pane};

fn row(text: &str, cols: usize) -> Row {
    let mut cells: Vec<Cell> =
        text.chars().map(|ch| Cell { ch, style: Style::default() }).collect();
    while cells.len() < cols {
        cells.push(Cell { ch: ' ', style: Style::default() });
    }
    Row { cells, indent: 0, links: Vec::new(), wraps: false }
}

fn grid(lines: &[&str], cols: usize, rows: usize) -> Grid {
    let mut all: Vec<Row> = lines.iter().map(|l| row(l, cols)).collect();
    while all.len() < rows {
        all.push(row("", cols));
    }
    Grid::from_lines(all, cols, rows, (0, 0)).expect("a grid")
}

fn keymap() -> Keymap {
    let key = |c: char| Key { alt: false, code: KeyCode::Char(c), ctrl: true, shift: false };
    Keymap { commands: Vec::new(), menu: Vec::new(), redo: key('\\'), undo: key('/') }
}

fn new_app() -> App {
    App::new(Vec::new(), 0)
}

fn key_of(code: KeyCode) -> Key {
    Key { alt: false, code, ctrl: false, shift: false }
}

fn app_with_open_page() -> (App, PaneId) {
    let mut app = new_app();
    app.show_page("counting", None);
    let pane = app.tab().focused();
    (app, pane)
}

fn tool(app: &App, pane: PaneId) -> Option<String> {
    app.pages.slots.get(&pane.0).map(|slot: &PageSlot| slot.tool.clone())
}

/// What a page that claims `x`, runs a command on `r` and closes on `q` makes of a key.
fn counting_page(key: &Key) -> PageOutcome {
    match key.code {
        KeyCode::Char('x') => PageOutcome::Consumed,
        KeyCode::Char('r') => PageOutcome::RunAction("new_tab".to_string()),
        KeyCode::Char('q') => PageOutcome::Close,
        _ => PageOutcome::Ignored,
    }
}

/// Offer a key as the event loop does: to the page, where there is one.
fn offer(app: &mut App, pane: PaneId, key: &Key) -> bool {
    match app.offer_key_to_page(pane, key) {
        Offer::Spent => true,
        Offer::Declined => false,
        Offer::Ask => {
            app.act_on_page_outcome(pane, counting_page(key), &keymap()) == InputUse::Spent
        }
    }
}

/// The answers that have been given to pages.
fn heard(app: &mut App) -> Vec<Option<String>> {
    let mut answers = Vec::new();
    for effect in app.take_effects() {
        if let Effect::Ask(Request::AnswerPage { answer, .. }) = effect {
            answers.push(answer);
        }
    }
    answers
}

fn requests(app: &mut App) -> Vec<Request> {
    let mut asked = Vec::new();
    for effect in app.take_effects() {
        if let Effect::Ask(request) = effect {
            asked.push(request);
        }
    }
    asked
}

fn app_asking() -> (App, PaneId) {
    let mut app = new_app();
    app.show_page("asking", None);
    let pane = app.tab().focused();
    app.act_on_page_outcome(
        pane,
        PageOutcome::Prompt(PromptRequest {
            initial: "seed".to_string(),
            label: "Name: ".to_string(),
            mode: PromptMode::Text,
            tag: "ask".to_string(),
        }),
        &keymap(),
    );
    (app, pane)
}

fn pick(items: &[&str]) -> PageOutcome {
    PageOutcome::Pick(PickRequest {
        items: items.iter().map(|s| s.to_string()).collect(),
        label: "Checkout".to_string(),
        tag: "ask".to_string(),
    })
}

#[test]
fn test_a_tool_opens_where_the_page_is_looking_not_where_the_shell_is() {
    let mut app = new_app();
    let looking_at = "/tmp/winter-test-somewhere-else".to_string();
    app.show_page("located", Some(looking_at.clone()));
    assert_eq!(
        app.focused_start_dir(&Some("/here".to_string()), &Some("/home/me".to_string())),
        looking_at
    );
}

#[test]
fn test_a_pane_with_no_page_still_starts_where_its_shell_is() {
    let mut app = new_app();
    let here = Some("/here".to_string());
    let home = Some("/home/me".to_string());
    app.show_page("counting", None);
    let with_page = app.focused_start_dir(&here, &home);
    app.close_page(app.tab().focused());
    assert!(app.pages.slots.is_empty(), "the page is gone");
    assert_eq!(app.focused_start_dir(&here, &home), with_page);
}

#[test]
fn test_a_page_covers_the_focused_pane_without_splitting_it() {
    let (app, pane) = app_with_open_page();
    assert_eq!(app.tab().panes().len(), 1, "no new pane is created");
    assert!(app.pages.covers(pane));
    assert_eq!(app.panes[&pane.0].mode, Some(Mode::Page));
}

#[test]
fn test_opening_a_file_stacks_the_editor_and_a_refused_one_opens_nothing() {
    let mut app = new_app();
    let pane = app.tab().focused();
    app.open_editor_page(false, &None);
    assert_eq!(tool(&app, pane).as_deref(), Some("editor"));

    app.close_page(pane);
    app.open_editor_page(false, &Some("binary file".to_string()));
    assert!(app.pages.slots.is_empty(), "nothing was opened");
    assert_eq!(app.active_notice().map(|n| n.0), Some("binary file"));
}

#[test]
fn test_a_page_opened_over_another_uncovers_it_rather_than_the_terminal() {
    let mut app = new_app();
    let pane = app.tab().focused();
    app.set_mode(pane, Mode::Normal);
    app.show_page("counting", None);
    app.stack_page("stacked", None);
    assert_eq!(tool(&app, pane).as_deref(), Some("stacked"), "the new page is the one showing");

    app.close_page(pane);
    assert_eq!(
        tool(&app, pane).as_deref(),
        Some("counting"),
        "and closing it puts the covered one back"
    );
    assert_eq!(app.panes[&pane.0].mode, Some(Mode::Page));

    app.close_page(pane);
    assert!(app.pages.slots.is_empty(), "the last one uncovers the terminal");
    assert_eq!(app.panes[&pane.0].mode, Some(Mode::Normal));
}

#[test]
fn test_closing_a_page_gives_the_pane_back_as_it_was() {
    let mut app = new_app();
    let pane = app.tab().focused();
    app.set_mode(pane, Mode::Normal);
    app.show_page("counting", None);

    app.close_page(pane);
    assert!(app.pages.slots.is_empty());
    assert_eq!(app.tab().panes().len(), 1);
    assert_eq!(app.panes[&pane.0].mode, Some(Mode::Normal));
}

fn browse(app: &mut App, files: &[&str]) {
    let list: Vec<String> = files.iter().map(|s| s.to_string()).collect();
    app.files_listed(&list);
}

fn browse_key(app: &mut App, named: NamedKey) {
    let pane = app.tab().focused();
    let mut palette = app.palette.take().expect("the browser is up");
    let key = LogicalKey::Named(named);
    app.handle_palette_input(&mut palette, &key, PhysicalKey::Other, pane, &keymap());
    if palette.active {
        app.palette = Some(palette);
    }
}

fn browse_to(app: &mut App, label: &str) {
    let palette = app.palette.as_mut().expect("the browser is up");
    let at = palette
        .filtered
        .iter()
        .position(|&i| palette.entries[i].label == label)
        .unwrap_or_else(|| panic!("no row labelled {label}"));
    palette.selected = at;
}

#[test]
fn test_browsing_into_a_directory_keeps_the_palette_up_rooted_there() {
    let mut app = new_app();
    browse(&mut app, &["/tmp/tree/src/", "/tmp/tree/README.md"]);
    app.take_effects();

    browse_to(&mut app, "/tmp/tree/src/");
    browse_key(&mut app, NamedKey::Enter);
    assert!(app.palette.is_some(), "still browsing");
    let asked = requests(&mut app);
    assert!(
        asked.iter().any(|r| matches!(r, Request::ListFilesIn(dir) if dir == "/tmp/tree/src/")),
        "{asked:?}"
    );

    browse(&mut app, &["/tmp/tree/src/lib.rs"]);
    browse_key(&mut app, NamedKey::Backspace);
    assert!(app.palette.is_some(), "still browsing");
    let asked = requests(&mut app);
    assert!(asked.iter().any(|r| matches!(r, Request::ListFilesAbove)), "{asked:?}");
}

#[test]
fn test_a_second_file_joins_the_editor_rather_than_covering_it() {
    let mut app = new_app();
    let pane = app.tab().focused();
    app.open_editor_page(true, &None);
    app.open_editor_page(true, &None);
    assert_eq!(tool(&app, pane).as_deref(), Some(EDITOR_TOOL));
    assert!(
        app.pages.covered.get(&pane.0).map_or(true, |below| below.is_empty()),
        "one editor, not two"
    );
}

#[test]
fn test_the_browser_chord_pressed_twice_puts_it_away() {
    let mut app = new_app();
    app.open_file_browser();
    assert!(requests(&mut app).iter().any(|r| matches!(r, Request::ListFiles)));
    browse(&mut app, &["/tmp/a"]);
    assert!(app.palette.is_some());
    app.open_file_browser();
    assert!(app.palette.is_none(), "the same chord toggles it off");
}

#[test]
fn test_browsing_onto_a_file_opens_it_in_the_editor_over_the_pane() {
    let mut app = new_app();
    let pane = app.tab().focused();
    browse(&mut app, &["/tmp/tree/README.md"]);
    app.take_effects();

    browse_to(&mut app, "/tmp/tree/README.md");
    browse_key(&mut app, NamedKey::Enter);

    assert!(app.palette.is_none(), "the browser is done");
    let asked = requests(&mut app);
    assert!(
        asked.iter().any(
            |r| matches!(r, Request::OpenPath { path, line: None } if path == "/tmp/tree/README.md")
        ),
        "{asked:?}"
    );
    app.open_path_page(false, false, &None);
    assert_eq!(
        tool(&app, pane).as_deref(),
        Some(EDITOR_TOOL),
        "and the file is open over the pane"
    );
}

#[test]
fn test_a_tool_chord_pressed_twice_closes_its_own_page() {
    let mut app = new_app();
    let pane = app.tab().focused();
    app.open_keys_page();
    assert!(app.pages.covers(pane));
    app.open_keys_page();
    assert!(app.pages.slots.is_empty(), "the same tool toggles off");
}

#[test]
fn test_another_tool_replaces_the_page_instead_of_toggling() {
    let mut app = new_app();
    let pane = app.tab().focused();
    app.open_keys_page();
    app.open_dir_page("/tmp".to_string());
    assert!(app.pages.covers(pane), "the pane still shows a page");
    assert_eq!(app.pages.slots.len(), 1);
}

#[test]
fn test_declined_key_falls_through_to_the_host() {
    let (mut app, pane) = app_with_open_page();
    assert!(offer(&mut app, pane, &key_of(KeyCode::Char('x'))));
    assert!(!offer(&mut app, pane, &key_of(KeyCode::Char('z'))));
}

#[test]
fn test_a_page_closing_itself_uncovers_the_pane() {
    let (mut app, pane) = app_with_open_page();
    assert!(offer(&mut app, pane, &key_of(KeyCode::Char('q'))));
    assert!(app.pages.slots.is_empty(), "the page is gone");
    assert_eq!(app.tab().panes().len(), 1, "the pane is not");
}

#[test]
fn test_a_page_running_a_command_uncovers_the_pane_first() {
    let (mut app, pane) = app_with_open_page();
    let tabs_before = app.tabs.all.len();

    assert!(offer(&mut app, pane, &key_of(KeyCode::Char('r'))));
    assert!(app.pages.slots.is_empty(), "the page handed the pane back");
    assert_eq!(app.tabs.all.len(), tabs_before + 1, "and the command ran");
}

#[test]
fn test_a_pane_with_no_page_is_never_offered_a_page_key() {
    let (mut app, covered) = app_with_open_page();
    let other = PaneId(covered.0 + 1);
    assert!(!offer(&mut app, other, &key_of(KeyCode::Char('x'))));
}

#[test]
fn test_alt_z_toggles_wrapping_without_reaching_the_page() {
    let (mut app, pane) = app_with_open_page();
    let mut key = key_of(KeyCode::Char('z'));
    key.alt = true;
    assert!(offer(&mut app, pane, &key), "the toggle is spent");
    assert!(app.pages.wrap);
    assert!(offer(&mut app, pane, &key));
    assert!(!app.pages.wrap);
}

#[test]
fn test_a_prompt_starts_holding_its_initial_text() {
    let (app, _) = app_asking();
    let view = app.input_view().expect("a dialog");
    assert_eq!(view.input.as_deref(), Some("seed"));
    assert_eq!(view.label, "Name", "the label's separator is the layout's");
}

#[test]
fn test_a_question_answered_by_one_key_offers_no_line_to_type_on() {
    let text = input_dialog("Name: ", "seed", PromptMode::Text);
    assert_eq!(text.input.as_deref(), Some("seed"));

    let confirm = input_dialog("Delete 3 entries?", "", PromptMode::Confirm);
    assert_eq!(confirm.input, None);
    assert_eq!(confirm.label, "Delete 3 entries?");
    assert!(
        confirm.hint.contains('y'),
        "a dialog taking one key says which: {}",
        confirm.hint
    );
}

#[test]
fn test_typing_edits_the_prompt_and_enter_delivers_the_answer() {
    let (mut app, pane) = app_asking();
    app.handle_prompt_key(&key_of(KeyCode::Backspace));
    app.handle_prompt_key(&key_of(KeyCode::Char('!')));
    assert_eq!(app.input_view().and_then(|view| view.input).as_deref(), Some("see!"));

    app.handle_prompt_key(&key_of(KeyCode::Enter));
    assert!(app.pages.prompt.is_none(), "the prompt closes on Enter");
    assert!(app.pages.covers(pane), "and the page stays open");
    assert_eq!(heard(&mut app), [Some("see!".to_string())]);
}

#[test]
fn test_a_list_answers_the_page_the_way_a_prompt_does() {
    let (mut app, pane) = app_asking();
    app.pages.prompt = None;
    app.act_on_page_outcome(pane, pick(&["main", "feature"]), &keymap());
    assert!(app.palette.is_some(), "the list is showing");
    assert_eq!(
        app.pages.pick.as_ref().map(|pick| pick.label.as_str()),
        Some("Checkout"),
        "and it says what it is a list of"
    );

    app.answer_page_pick(Some("feature".to_string()));
    assert!(app.pages.pick.is_none(), "the question is answered");
    assert_eq!(heard(&mut app), [Some("feature".to_string())]);
}

#[test]
fn test_a_list_closed_without_choosing_says_so() {
    let (mut app, pane) = app_asking();
    app.pages.prompt = None;
    app.act_on_page_outcome(pane, pick(&["main"]), &keymap());
    app.answer_page_pick(None);
    assert_eq!(heard(&mut app), [None]);
}

#[test]
fn escape_in_a_list_answers_with_nothing_and_enter_with_the_choice() {
    let (mut app, pane) = app_asking();
    app.pages.prompt = None;
    app.act_on_page_outcome(pane, pick(&["main", "feature"]), &keymap());
    browse_key(&mut app, NamedKey::Escape);
    assert!(app.palette.is_none());
    assert_eq!(heard(&mut app), [None]);

    app.act_on_page_outcome(pane, pick(&["main", "feature"]), &keymap());
    browse_key(&mut app, NamedKey::ArrowDown);
    browse_key(&mut app, NamedKey::Enter);
    assert!(app.palette.is_none());
    assert_eq!(heard(&mut app), [Some("feature".to_string())]);
}

#[test]
fn test_escape_cancels_a_prompt_and_says_so() {
    let (mut app, _) = app_asking();
    app.handle_prompt_key(&key_of(KeyCode::Escape));
    assert!(app.pages.prompt.is_none());
    assert_eq!(heard(&mut app), [None]);
}

#[test]
fn test_closing_the_page_takes_its_question_with_it() {
    let (mut app, pane) = app_asking();
    assert!(app.pages.prompt.is_some());
    app.close_page(pane);
    assert!(app.pages.prompt.is_none());
    assert!(heard(&mut app).is_empty(), "and answers nothing");
}

#[test]
fn test_resize_leaves_a_covered_pane_showing_its_page() {
    let (mut app, pane) = app_with_open_page();
    app.pane_resized(pane, grid(&[], 30, 5));
    assert!(app.pages.covers(pane));
}

fn app_with_painted_page(lines: &[&str]) -> (App, PaneId) {
    let mut app = new_app();
    let pane = PaneId(0);
    app.show_page(KEYS_TOOL, None);
    let painted = grid(lines, 40, lines.len().max(1));
    app.pages.slots.get_mut(&pane.0).expect("a page").painted = Some(painted);
    (app, pane)
}

fn press(app: &mut App, code: KeyCode) -> bool {
    app.handle_page_cursor_key(&key_of(code))
}

#[test]
fn test_a_visual_selection_copies_the_page_rows_not_the_terminal_underneath() {
    let (mut app, pane) = app_with_painted_page(&["alpha", "bravo", "charlie"]);
    app.panes.get_mut(&pane.0).expect("a pane").pane =
        Some(Pane::new(grid(&["shell", "output"], 40, 3)));
    app.start_page_cursor(pane);
    assert!(press(&mut app, KeyCode::Char('V')), "V starts a linewise span");
    assert!(press(&mut app, KeyCode::Char('j')));
    assert_eq!(app.selected_text().as_deref(), Some("alpha\nbravo"));
}

#[test]
fn test_the_cursor_starts_on_the_first_non_blank_column() {
    let (mut app, pane) = app_with_painted_page(&["   indented", "x"]);
    app.start_page_cursor(pane);
    let cursor = app.pages.cursor.as_ref().expect("a cursor");
    assert_eq!(cursor.col, 3, "lands on the `i`, not the blank gutter");
}

#[test]
fn test_a_blank_row_leaves_the_cursor_at_column_zero() {
    let (mut app, pane) = app_with_painted_page(&["   "]);
    app.start_page_cursor(pane);
    assert_eq!(app.pages.cursor.as_ref().expect("a cursor").col, 0);
}

#[test]
fn test_v_anchors_straight_away_so_the_next_motion_selects() {
    let (mut app, pane) = app_with_painted_page(&["alpha", "bravo"]);
    app.start_page_cursor(pane);
    press(&mut app, KeyCode::Char('l'));
    press(&mut app, KeyCode::Char('l'));
    assert_eq!(app.selected_text().as_deref(), Some("alp"));
}

#[test]
fn test_v_a_second_time_drops_the_selection() {
    let (mut app, pane) = app_with_painted_page(&["alpha", "bravo"]);
    app.start_page_cursor(pane);
    press(&mut app, KeyCode::Char('l'));
    assert!(app.shared.selection.span.is_some(), "fixture: something is selected");
    press(&mut app, KeyCode::Char('v'));
    assert!(app.shared.selection.span.is_none());
}

#[test]
fn test_escape_drops_the_cursor_and_its_selection() {
    let (mut app, pane) = app_with_painted_page(&["alpha", "bravo"]);
    app.start_page_cursor(pane);
    press(&mut app, KeyCode::Char('l'));
    assert!(app.shared.selection.span.is_some(), "fixture: something is selected");
    press(&mut app, KeyCode::Escape);
    assert!(app.pages.cursor.is_none());
    assert!(app.shared.selection.span.is_none(), "the highlight goes with it");
}

#[test]
fn test_chorded_keys_fall_through_to_the_window() {
    let (mut app, pane) = app_with_painted_page(&["alpha"]);
    app.start_page_cursor(pane);
    let chord = Key { alt: true, code: KeyCode::Char('h'), ctrl: false, shift: false };
    assert!(!app.handle_page_cursor_key(&chord));
    assert!(app.pages.cursor.is_some(), "and the cursor survives the chord");
}

#[test]
fn test_closing_the_page_takes_the_cursor_with_it() {
    let (mut app, pane) = app_with_painted_page(&["alpha"]);
    app.start_page_cursor(pane);
    app.close_page(pane);
    assert!(app.pages.cursor.is_none());
}

#[test]
fn copying_with_the_cursor_copies_and_ends_it() {
    let (mut app, pane) = app_with_painted_page(&["alpha", "bravo"]);
    app.start_page_cursor(pane);
    press(&mut app, KeyCode::Char('w'));
    press(&mut app, KeyCode::Char('0'));
    press(&mut app, KeyCode::Char('l'));
    app.take_effects();
    assert!(press(&mut app, KeyCode::Char('y')));
    assert!(app.pages.cursor.is_none());
    let effects = app.take_effects();
    assert!(matches!(&effects[0], Effect::Copy { text, done, failed: None }
        if text == "al" && done == "Copied 1 line, 2 characters"));
    assert!(matches!(&effects[1], Effect::Ask(Request::CopyToPrimary(text)) if text == "al"));
}

#[test]
fn a_cursor_does_not_follow_focus_to_another_pane() {
    let (mut app, pane) = app_with_painted_page(&["alpha"]);
    app.start_page_cursor(pane);
    app.new_tab();
    assert!(!press(&mut app, KeyCode::Char('l')));
    assert!(app.pages.cursor.is_none());
}

#[test]
fn a_page_has_its_jobs_done_and_hears_of_them() {
    let (mut app, pane) = app_with_open_page();
    app.take_effects();
    let job = PageOutcome::Job(JobRequest::DirSize("/tmp".to_string()));
    assert_eq!(app.act_on_page_outcome(pane, job, &keymap()), InputUse::Spent);
    let asked = requests(&mut app);
    let id = match &asked[0] {
        Request::StartJob { id, pane: asker, .. } => {
            assert_eq!(*asker, pane);
            *id
        }
        other => panic!("no job but {other:?}"),
    };
    assert!(app.jobs.is_busy());
    let reply = JobReply::DirSize { bytes: 7, path: "/tmp".to_string() };
    let answers = app.deliver_finished_jobs(vec![Finished { id, pane, reply }]);
    assert_eq!(answers.len(), 1);
    assert!(!app.jobs.is_busy());
}

#[test]
fn an_answer_for_a_page_that_is_gone_is_dropped() {
    let (mut app, pane) = app_with_open_page();
    app.begin_job(pane, JobRequest::DirSize("/tmp".to_string()));
    app.close_page(pane);
    assert!(!app.jobs.is_busy());
    let reply = JobReply::DirSize { bytes: 7, path: "/tmp".to_string() };
    let answers = app.deliver_finished_jobs(vec![Finished { id: 0, pane, reply }]);
    assert!(answers.is_empty());
}

#[test]
fn what_a_page_asks_for_is_asked_of_the_world() {
    let (mut app, pane) = app_with_open_page();
    app.take_effects();
    let target = || FileTarget { line: Some(3), path: "/tmp/a.rs".to_string() };
    for outcome in [
        PageOutcome::OpenExternal("/tmp/a.png".to_string()),
        PageOutcome::OpenPath(target()),
        PageOutcome::SpawnEditor(target()),
        PageOutcome::Spawn("top".to_string()),
    ] {
        assert_eq!(app.act_on_page_outcome(pane, outcome, &keymap()), InputUse::Spent);
    }
    let asked = requests(&mut app);
    assert!(matches!(&asked[0], Request::OpenExternal(path) if path == "/tmp/a.png"));
    assert!(matches!(&asked[1], Request::OpenPath { path, line: Some(3) } if path == "/tmp/a.rs"));
    assert!(matches!(&asked[2], Request::OpenEditor { path, line: Some(3) } if path == "/tmp/a.rs"));
    assert!(matches!(&asked[3], Request::SpawnCommand(command) if command == "top"));
    assert_eq!(asked.len(), 4);

    app.act_on_page_outcome(pane, PageOutcome::Yank("abc123".to_string()), &keymap());
    let effects = app.take_effects();
    assert!(matches!(&effects[0], Effect::Copy { text, done, failed: Some(failed) }
        if text == "abc123" && done == "copied abc123" && failed == "clipboard unavailable"));
}

#[test]
fn what_came_of_opening_a_path_is_said() {
    let mut app = new_app();
    app.external_opened("/tmp/a.png", &None);
    assert_eq!(app.active_notice().map(|n| n.0), Some("opened /tmp/a.png"));
    app.external_opened("/tmp/a.png", &Some("no viewer".to_string()));
    assert_eq!(app.active_notice().map(|n| n.0), Some("could not open /tmp/a.png: no viewer"));
}

#[test]
fn pages_are_named_by_their_tool() {
    let (mut app, pane) = app_with_open_page();
    app.close_page(pane);
    app.open_keys_page();
    let slot = &app.pages.slots[&pane.0];
    assert_eq!(slot.status_label("Keys"), "\u{f11c} Keys");
    assert_eq!(slot.tab_label("Keys"), "Keys");
    assert_eq!(slot.tab_label("all of them"), "keys: all of them");
}

#[test]
fn a_surface_key_that_no_page_wants_is_the_keymaps() {
    let mut app = new_app();
    let pane = app.tab().focused();
    let key = key_of(KeyCode::Char('t'));
    assert_eq!(app.route_surface_key(pane, &key, &Action::NewTab, &keymap()), Offer::Declined);
    assert_eq!(app.tabs.all.len(), 2);
    app.show_page("counting", None);
    let covered = app.tab().focused();
    assert_eq!(app.route_surface_key(covered, &key, &Action::NewTab, &keymap()), Offer::Ask);
    assert_eq!(app.tabs.all.len(), 2);
    assert_eq!(app.palette.as_ref().map(|p| p.mode), None::<PaletteMode>);
}

#[test]
fn what_a_page_makes_of_a_paste_says_whether_a_key_was_used() {
    let (mut app, pane) = app_with_open_page();
    app.take_effects();
    app.shared.dirty = false;
    assert_eq!(app.act_on_page_outcome(pane, PageOutcome::Paste, &keymap()), InputUse::Paste);
    assert!(app.take_effects().is_empty() && !app.shared.dirty, "nothing has happened yet");
    assert_eq!(
        app.act_on_page_outcome(pane, PageOutcome::Ignored, &keymap()),
        InputUse::Declined
    );
    assert!(app.take_effects().is_empty() && !app.shared.dirty, "nor now");
    assert_eq!(app.act_on_page_outcome(pane, PageOutcome::Consumed, &keymap()), InputUse::Spent);
    assert!(app.shared.dirty);

    let elsewhere = PaneId(41);
    assert_eq!(
        app.act_on_page_outcome(elsewhere, PageOutcome::Paste, &keymap()),
        InputUse::Spent,
        "without a page there is nobody to ask"
    );
}

#[test]
fn a_surface_key_that_the_page_declines_is_the_keymaps() {
    let (mut app, pane) = app_with_open_page();
    let key = key_of(KeyCode::Char('t'));
    assert_eq!(app.route_surface_key(pane, &key, &Action::NewTab, &keymap()), Offer::Ask);
    app.shared.dirty = false;
    app.surface_key_declined(pane, &Action::NewTab, &keymap());
    assert_eq!(app.tabs.all.len(), 2);
    assert!(app.shared.dirty);
}

fn app_confirming() -> App {
    let (mut app, pane) = app_with_open_page();
    app.act_on_page_outcome(
        pane,
        PageOutcome::Prompt(PromptRequest {
            initial: String::new(),
            label: "Delete? ".to_string(),
            mode: PromptMode::Confirm,
            tag: "sure".to_string(),
        }),
        &keymap(),
    );
    app.take_effects();
    app
}

#[test]
fn one_key_ends_a_question_answered_with_yes_or_no() {
    for code in [
        KeyCode::Enter,
        KeyCode::Backspace,
        KeyCode::Escape,
        KeyCode::Tab,
        KeyCode::Space,
        KeyCode::Up,
        KeyCode::Char(' '),
        KeyCode::Char('n'),
    ] {
        let mut app = app_confirming();
        app.handle_prompt_key(&key_of(code));
        assert!(app.pages.prompt.is_none(), "{code:?} ends the question");
        assert_eq!(heard(&mut app), [None]);
    }
    for c in ['y', 'Y'] {
        let mut app = app_confirming();
        app.handle_prompt_key(&key_of(KeyCode::Char(c)));
        assert!(app.pages.prompt.is_none());
        assert_eq!(heard(&mut app), [Some(c.to_string())]);
    }
}

#[test]
fn whole_lines_are_selected_upward_too() {
    let (mut app, pane) = app_with_painted_page(&["alpha", "bravo", "charlie"]);
    app.start_page_cursor(pane);
    press(&mut app, KeyCode::Char('G'));
    press(&mut app, KeyCode::Char('k'));
    let row = app.pages.cursor.as_ref().map(|c| c.row).expect("a cursor");
    press(&mut app, KeyCode::Char('V'));
    press(&mut app, KeyCode::Char('k'));
    let sel = app.shared.selection.span.expect("a selection");
    assert_eq!((sel.start_row, sel.start_col), (row - 1, 0));
    assert_eq!(sel.end_row, row);
    assert!(sel.end_col > 6);
}
