use winter_term::app::commands::find_command;
use winter_term::app::output::PaneOutput;
use winter_term::app::pages::Offer;
use winter_term::app::palette::SessionList;
use winter_term::app::panes::Closing;
use winter_term::app::ticks::{
    color_source, export_file_name, ColorSource, ConfigChange, News, Next, SystemTheme,
    WindowEvent,
};
use winter_term::app::titles::expand_window_title_template;
use winter_term::app::{App, Config, Keymap, Modifiers, NamedAction, ThemeSetting};
use winter_term::events::{LogicalKey, NamedKey, PhysicalKey};
use winter_term::grid::{Cell, Grid, Link, Row, Style};
use winter_term::input::{
    Action, Direction, Key, KeyCode, Mode, PaneId, PendingPrefix, TextObject, TextObjectSpec,
};
use winter_term::jobs::JobRequest;
use winter_term::navigation::export::{html_escape, Rgb};
use winter_term::navigation::vim::text_object_span;
use winter_term::palette::PaletteMode;
use winter_term::pointer::mouse::MouseButton;
use winter_term::requests::{Export, FontChange, Request};
use winter_term::session::{Block, Effect, NoticeKind, Pane};

fn row(text: &str, cols: usize) -> Row {
    let mut cells: Vec<Cell> =
        text.chars().map(|ch| Cell { ch, style: Style::default() }).collect();
    while cells.len() < cols {
        cells.push(Cell { ch: ' ', style: Style::default() });
    }
    Row { cells, indent: 0, links: Vec::new(), wraps: false }
}

fn pane(lines: &[&str]) -> Pane {
    let mut all: Vec<Row> = lines.iter().map(|l| row(l, 20)).collect();
    while all.len() < 4 {
        all.push(row("", 20));
    }
    Pane::new(Grid::from_lines(all, 20, 4, (0, 0)).expect("a grid"))
}

fn key(c: char) -> Key {
    Key { alt: false, code: KeyCode::Char(c), ctrl: true, shift: false }
}

fn keymap() -> Keymap {
    Keymap {
        commands: vec![NamedAction { action: Action::IncreaseFontSize, name: "font_up".to_string() }],
        menu: Vec::new(),
        redo: key('\\'),
        undo: key('/'),
    }
}

fn new_app() -> App {
    App::new(Vec::new(), 0)
}

fn set_pane(app: &mut App, id: PaneId, pane: Pane) {
    let mut state = app.panes.remove(&id.0).unwrap_or_default();
    state.pane = Some(pane);
    app.panes.insert(id.0, state);
}

fn requests(app: &mut App) -> Vec<Request> {
    let mut asked = Vec::new();
    for effect in app.take_effects() {
        if let Effect::Ask(request) = effect {
            asked.push(request);
        }
    }
    asked
}

fn output(id: u64) -> PaneOutput {
    PaneOutput {
        blocks: Vec::new(),
        clipboard_read: false,
        clipboard_write: None,
        contents: None,
        elided: Vec::new(),
        erased: Vec::new(),
        pane: PaneId(id),
        patched: Vec::new(),
        remaps: Vec::new(),
        title: None,
    }
}

fn quiet() -> News {
    News { config: None, dead: Vec::new(), edge: None, output: Vec::new(), reload: false }
}

fn notice(app: &App) -> Option<&str> {
    app.active_notice().map(|n| n.0)
}

#[test]
fn old_blocks_go_before_new_ones_come() {
    let mut app = new_app();
    let mut first = output(0);
    first.blocks = vec![3];
    first.erased = vec![(0, 5)];
    let mut second = output(1);
    second.elided = vec![(2, 1)];
    second.remaps = vec![7];
    second.patched = vec![4];
    assert!(!app.drain_all_panes(vec![first, second]));
    let asked = requests(&mut app);
    assert!(matches!(&asked[0], Request::LimitTrust(0)));
    assert!(matches!(&asked[1], Request::RemapAnchors { pane: PaneId(1), remap: 7 }));
    assert!(matches!(&asked[2], Request::DropBlocks { pane: PaneId(0), from: 0, to: 5 }));
    assert!(matches!(&asked[3], Request::DropElided { pane: PaneId(1), block: 2, segment: 1 }));
    assert!(matches!(&asked[4], Request::CreateTiles(new) if *new == [(PaneId(0), 3)]));
    assert!(matches!(&asked[5], Request::PatchTile { pane: PaneId(1), block: 4 }));
    assert_eq!(asked.len(), 6);
}

#[test]
fn trust_is_limited_each_time_before_blocks_come() {
    let mut app = new_app();
    let config = Config { block_max_trust: 2, ..app.config };
    app.reload_config_if_changed(Some(ConfigChange { config, error: None }));
    for _ in 0..2 {
        app.take_effects();
        let mut news = output(0);
        news.blocks = vec![1];
        app.drain_all_panes(vec![news]);
        let asked = requests(&mut app);
        assert!(matches!(&asked[..], [Request::LimitTrust(2), Request::CreateTiles(_)]));
    }
    app.drain_all_panes(Vec::new());
    assert!(matches!(&requests(&mut app)[..], [Request::LimitTrust(2)]));
}

#[test]
fn the_window_is_named_anew_when_its_title_may_have_changed() {
    let names = |asked: &[Request]| {
        asked.iter().filter(|r| matches!(r, Request::UpdateTitle)).count()
    };
    let mut app = new_app();
    set_pane(&mut app, PaneId(0), pane(&["old"]));
    let mut named = output(0);
    named.title = Some("vim".to_string());
    named.remaps = vec![3];
    app.drain_all_panes(vec![named]);
    let asked = requests(&mut app);
    assert!(matches!(&asked[..],
        [Request::LimitTrust(_), Request::UpdateTitle, Request::RemapAnchors { .. }]));
    app.drain_all_panes(vec![output(0)]);
    assert_eq!(names(&requests(&mut app)), 0);

    let mut wrote = output(0);
    wrote.contents = Some(pane(&["new"]));
    app.about_to_wait(1, News { output: vec![wrote], ..quiet() });
    assert_eq!(names(&requests(&mut app)), 1);
    app.about_to_wait(2, quiet());
    assert_eq!(names(&requests(&mut app)), 0);

    let config = app.config;
    app.reload_config_if_changed(Some(ConfigChange { config, error: None }));
    let asked = requests(&mut app);
    assert!(matches!(&asked[..2], [Request::UpdateTitle, Request::RebuildTheme]));

    app.switch_to_pane(PaneId(0));
    assert_eq!(names(&requests(&mut app)), 1);
    app.switch_to_pane(PaneId(9));
    assert_eq!(names(&requests(&mut app)), 0);
}

#[test]
fn the_window_is_named_only_where_its_title_differs() {
    let app = new_app();
    assert_eq!(app.title_change("", "W {{ title }}", "", None).as_deref(), Some("W shell"));
    assert_eq!(app.title_change("W shell", "W {{ title }}", "", None), None);
}

#[test]
fn programs_read_the_clipboard_only_where_they_may() {
    let mut app = new_app();
    app.config.clipboard_read = false;
    let mut asks = output(0);
    asks.clipboard_read = true;
    asks.clipboard_write = Some("kept".to_string());
    app.drain_all_panes(vec![asks]);
    let asked = requests(&mut app);
    assert_eq!(asked.len(), 2);
    assert!(matches!(&asked[1], Request::ClipboardWrite(text) if text == "kept"));

    app.config.clipboard_read = true;
    let mut asks = output(0);
    asks.clipboard_read = true;
    app.drain_all_panes(vec![asks]);
    assert!(matches!(&requests(&mut app)[..],
        [Request::LimitTrust(_), Request::ClipboardAnswer(PaneId(0))]));
}

#[test]
fn what_a_program_has_written_is_shown() {
    let mut app = new_app();
    set_pane(&mut app, PaneId(0), pane(&["old"]));
    let mut news = output(0);
    news.contents = Some(pane(&["new"]));
    news.title = Some("vim".to_string());
    assert!(app.drain_all_panes(vec![news]));
    let grid = &app.panes[&0].pane.as_ref().expect("contents").grid;
    assert_eq!(grid.visible_cell(0, 0).map(|c| c.ch), Some('n'));
    assert_eq!(app.titles.get(&0).map(|t| t.as_str()), Some("vim"));
    assert_eq!(app.tab_title(0), "vim");
}

#[test]
fn a_window_that_loses_focus_forgets_the_prefix() {
    let mut app = new_app();
    app.shared.pending = PendingPrefix::Other;
    app.clock.pending_since = Some(3);
    let mut shell = pane(&["$"]);
    shell.focus_events = true;
    set_pane(&mut app, PaneId(0), shell);
    app.window_event(WindowEvent::Focused(false), 10);
    assert_eq!(app.shared.pending, PendingPrefix::Idle);
    assert_eq!(app.clock.pending_since, None);
    assert_eq!(app.clock.last_activity, 10);
    app.window_event(WindowEvent::Focused(true), 11);
    assert!(app.window.focused);
    assert_eq!(app.take_outbox(PaneId(0)), b"\x1b[O\x1b[I");
    assert!(app.take_outbox(PaneId(0)).is_empty());
}

#[test]
fn what_happens_to_the_window_is_passed_on() {
    let mut app = new_app();
    let held = Modifiers { alt: true, ctrl: false, shift: false };
    app.window.suppress_synthesized_keys = true;
    app.window_event(WindowEvent::ModifiersChanged(held), 1);
    assert!(app.window.modifiers.alt && !app.window.suppress_synthesized_keys);
    app.window_event(WindowEvent::CloseRequested, 2);
    app.window_event(WindowEvent::RedrawRequested, 3);
    app.window_event(WindowEvent::Resized { width: 0, height: 9 }, 4);
    app.window_event(WindowEvent::Resized { width: 8, height: 9 }, 5);
    let asked = requests(&mut app);
    assert_eq!(asked.len(), 3);
    assert!(matches!(asked[0], Request::Quit));
    assert!(matches!(asked[1], Request::Render));
    assert!(matches!(asked[2], Request::ResizeSurface { width: 8, height: 9 }));

    app.window_event(WindowEvent::SurfaceResized { minimized: true }, 6);
    assert!(!requests(&mut app).iter().any(|r| matches!(r, Request::SaveState)));
    app.window_event(WindowEvent::SurfaceResized { minimized: false }, 7);
    assert!(requests(&mut app).iter().any(|r| matches!(r, Request::SaveState)));

    app.window.drawn = true;
    app.theme = ThemeSetting::Dark;
    app.window_event(WindowEvent::ThemeChanged, 8);
    assert!(requests(&mut app).is_empty());
    app.theme = ThemeSetting::Auto;
    app.window_event(WindowEvent::ThemeChanged, 9);
    assert!(requests(&mut app).iter().any(|r| matches!(r, Request::RebuildTheme)));
}

#[test]
fn the_loop_ends_starts_again_or_waits() {
    let mut app = new_app();
    assert!(matches!(app.about_to_wait(5, quiet()), Next::Wait(at) if at > 5));
    assert_eq!(app.about_to_wait(6, News { reload: true, ..quiet() }), Next::Reload);
    assert!(matches!(app.about_to_wait(7, quiet()), Next::Wait(_)), "once only");
    assert_eq!(app.about_to_wait(8, News { dead: vec![PaneId(0)], ..quiet() }), Next::Quit);
}

#[test]
fn settings_that_change_are_used() {
    let mut app = new_app();
    app.clock.blink_phase = false;
    let config = Config { blink: false, ..app.config };
    let error = Some("unknown key".to_string());
    app.about_to_wait(1, News { config: Some(ConfigChange { config, error }), ..quiet() });
    assert!(!app.config.blink);
    assert!(app.clock.blink_phase, "a cursor that does not blink is seen");
    assert_eq!(app.active_notice().map(|n| (n.0, n.1)), Some(("unknown key", NoticeKind::Error)));
    assert!(requests(&mut app).iter().any(|r| matches!(r, Request::RebuildTheme)));
}

#[test]
fn a_closed_pane_comes_back_where_it_was() {
    let mut app = new_app();
    app.split_pane(Direction::Vertical);
    assert_eq!(app.tab().panes(), [PaneId(0), PaneId(1)]);
    app.close_pane_now(PaneId(0));
    assert_eq!(app.tab().panes(), [PaneId(1)]);
    let closed = app.closed.pop().expect("it is remembered");
    assert!(app.reopen_fits(&closed));
    app.restore_closed_pane(closed);
    assert_eq!(app.tab().panes(), [PaneId(0), PaneId(1)]);
    assert_eq!(app.tab().focused(), PaneId(0));
}

#[test]
fn a_shell_that_ends_is_not_remembered() {
    let mut app = new_app();
    app.split_pane(Direction::Vertical);
    app.close_pane_in_any_tab(PaneId(1), Closing::Forget);
    assert_eq!(app.tab().panes(), [PaneId(0)]);
    assert!(app.closed.is_empty());
}

#[test]
fn a_page_with_edits_is_asked_about_before_its_pane_closes() {
    let mut app = new_app();
    app.split_pane(Direction::Vertical);
    app.show_page("editor", None);
    let id = app.tab().focused();
    app.pages.slots.get_mut(&id.0).expect("a page").unsaved = true;
    app.take_effects();
    app.close_pane(id);
    assert_eq!(app.tab().panes().len(), 2);
    let asked = requests(&mut app);
    assert!(matches!(&asked[..], [Request::AskBeforeClosing(pane)] if *pane == id));
    app.close_pane_now(id);
    assert_eq!(app.tab().panes().len(), 1);
}

#[test]
fn all_other_panes_can_be_closed() {
    let mut app = new_app();
    app.split_pane(Direction::Vertical);
    app.split_pane(Direction::Horizontal);
    app.close_other_panes(PaneId(1));
    assert_eq!(app.tab().panes(), [PaneId(1)]);
}

#[test]
fn a_shell_that_does_not_start_is_reported() {
    let mut app = new_app();
    app.shell_refused("no such file");
    assert_eq!(
        notice(&app),
        Some("shell failed to start (no such file), trying the default shell")
    );
}

#[test]
fn commands_are_known_by_their_names() {
    assert!(find_command("new_tab").is_some());
    assert!(find_command("new-tab").is_none());
    let mut app = new_app();
    app.run_command("split_horizontal", PaneId(0), &keymap());
    assert_eq!(app.tab().panes().len(), 2);
    app.take_effects();
    app.run_command("font_up", PaneId(0), &keymap());
    assert!(matches!(&requests(&mut app)[..], [Request::ChangeFont(FontChange::Larger)]));
    app.run_command("no_such_command", PaneId(0), &keymap());
    assert!(requests(&mut app).is_empty());
}

#[test]
fn commands_say_what_they_did() {
    let mut app = new_app();
    app.config.rainbow_parens = false;
    app.run_command("toggle_rainbow_parens", PaneId(0), &keymap());
    assert_eq!(notice(&app), Some("rainbow parens enabled"));
    app.run_command("toggle_rainbow_parens", PaneId(0), &keymap());
    assert_eq!(notice(&app), Some("rainbow parens disabled"));
    app.config.sentence_highlight = true;
    app.run_command("toggle_sentence_highlight", PaneId(0), &keymap());
    assert_eq!(notice(&app), Some("sentence highlight disabled"));
    app.run_command("copy_cwd", PaneId(0), &keymap());
    assert_eq!(notice(&app), Some("no working directory reported yet"));
    app.run_command("mux_detach_session", PaneId(0), &keymap());
    assert_eq!(notice(&app), Some("this pane is not attached to a mux session"));

    let mut shell = pane(&["one", "two"]);
    shell.mux_session = Some("work".to_string());
    shell.cwd = Some("/srv".to_string());
    set_pane(&mut app, PaneId(0), shell);
    app.run_command("mux_detach_session", PaneId(0), &keymap());
    assert_eq!(
        notice(&app),
        Some("cannot detach the only pane \u{2014} close the window or open another tab")
    );
    app.take_effects();
    app.run_command("copy_cwd", PaneId(0), &keymap());
    app.run_command("copy_scrollback", PaneId(0), &keymap());
    let effects = app.take_effects();
    assert!(matches!(&effects[0], Effect::Copy { text, done, .. }
        if text == "/srv" && done == "copied /srv"));
    assert!(matches!(&effects[1], Effect::Copy { text, done, .. }
        if text.starts_with("one\ntwo") && done == "copied scrollback to clipboard"));
}

#[test]
fn switching_the_mode_and_the_theme() {
    let mut app = new_app();
    assert_eq!(app.mode(PaneId(0)), Mode::Insert);
    app.run_command("toggle_mode", PaneId(0), &keymap());
    assert_eq!(app.mode(PaneId(0)), Mode::Normal);
    app.run_command("toggle_mode", PaneId(0), &keymap());
    assert_eq!(app.mode(PaneId(0)), Mode::Insert);
    app.run_command("theme_light", PaneId(0), &keymap());
    assert!(matches!(app.theme, ThemeSetting::Light));
    app.run_command("theme_new", PaneId(0), &keymap());
    assert_eq!(app.theme_name_input.as_deref(), Some(""));
    assert_eq!(app.check_theme_name(" my-theme ").as_deref(), Some("my-theme"));
    assert_eq!(app.check_theme_name("a/b"), None);
    assert_eq!(notice(&app), Some("Theme name must use only letters, numbers, - or _"));
    app.create_named_theme("my-theme", &None);
    assert_eq!(notice(&app), Some("Created theme \"my-theme\""));
    assert!(matches!(&app.theme, ThemeSetting::Named(name) if name == "my-theme"));
}

#[test]
fn panes_are_listed_to_switch_between() {
    let mut app = new_app();
    app.split_pane(Direction::Vertical);
    app.run_command("select_pane", PaneId(1), &keymap());
    let list = app.palette.as_ref().expect("a list");
    assert_eq!(list.mode, PaletteMode::Panes);
    let lines: Vec<(&str, &str, &str)> = list
        .entries
        .iter()
        .map(|e| (e.action.as_str(), e.label.as_str(), e.shortcut.as_str()))
        .collect();
    assert_eq!(lines, [("0", "1: shell", "1"), ("1", "1: shell", "2")]);

    let mut list = app.palette.take().expect("a list");
    let digit = LogicalKey::Character("1".to_string());
    app.handle_palette_input(&mut list, &digit, PhysicalKey::Other, PaneId(1), &keymap());
    assert_eq!(app.tab().focused(), PaneId(0));
}

#[test]
fn escape_puts_the_palette_away_and_nothing_else() {
    let mut app = new_app();
    app.open_commands(&keymap());
    let mut list = app.palette.take().expect("a list");
    app.take_effects();
    let escape = LogicalKey::Named(NamedKey::Escape);
    app.handle_palette_input(&mut list, &escape, PhysicalKey::Other, PaneId(0), &keymap());
    assert!(!list.active);
    assert!(app.palette.is_none());
    assert!(requests(&mut app).is_empty());
}

#[test]
fn exports_are_named_by_what_they_hold() {
    assert_eq!(export_file_name(Export::ScrollbackAnsi, 12), "winter-scrollback-ansi-12.txt");
    assert_eq!(export_file_name(Export::ScrollbackText, 0), "winter-scrollback-0.txt");
    assert_eq!(export_file_name(Export::ScrollbackHtml, 907), "winter-scrollback-907.html");
    assert_eq!(export_file_name(Export::BlockDrawing, 5), "winter-block-5.svg");
}

#[test]
fn what_came_of_an_export_is_said() {
    let mut app = new_app();
    app.export_failed(Export::ScrollbackAnsi, "disk full");
    assert_eq!(notice(&app), Some("could not write ANSI scrollback file: disk full"));
    app.export_failed(Export::BlockDrawing, "disk full");
    assert_eq!(notice(&app), Some("Could not write SVG file: disk full"));
    app.export_written(Export::ScrollbackHtml, "/tmp/a.html", &None);
    assert_eq!(notice(&app), Some("opened /tmp/a.html"));
    app.export_written(Export::ScrollbackHtml, "/tmp/a.html", &Some("no browser".to_string()));
    assert_eq!(notice(&app), Some("could not open HTML file: no browser"));
    app.take_effects();
    app.export_written(Export::ScrollbackText, "/tmp/a.txt", &None);
    assert_eq!(notice(&app), Some("opened scrollback in editor"));
    assert!(matches!(&requests(&mut app)[..],
        [Request::OpenEditor { path, line: None }] if path == "/tmp/a.txt"));
}

#[test]
fn colors_come_from_the_theme_or_the_system() {
    let from = |theme: ThemeSetting, system| color_source(&theme, system);
    assert!(matches!(from(ThemeSetting::Dark, Some(SystemTheme::Light)), ColorSource::Dark));
    assert!(matches!(from(ThemeSetting::Auto, Some(SystemTheme::Light)), ColorSource::Light));
    assert!(matches!(from(ThemeSetting::Auto, None), ColorSource::Fallback));
    assert!(matches!(from(ThemeSetting::Named("x".to_string()), None),
        ColorSource::Named(name) if name == "x"));
}

#[test]
fn titles_are_put_into_the_template() {
    assert_eq!(
        expand_window_title_template("{{ title }}|{{ cwd }}|{{ other }}", "t", "app", "p", "/c"),
        "t|/c|{{ other }}"
    );
    let mut app = new_app();
    assert_eq!(app.tab_title(0), "shell");
    let mut shell = pane(&["$"]);
    shell.cwd = Some("/srv".to_string());
    set_pane(&mut app, PaneId(0), shell);
    assert_eq!(app.render_window_title("{{ app_name }}: {{ cwd }}", "winter"), "winter: /srv");
}

#[test]
fn the_mouse_is_reported_to_a_program_in_the_form_it_asked_for() {
    let mut app = new_app();
    let mut shell = pane(&["$"]);
    shell.mouse_sgr = true;
    set_pane(&mut app, PaneId(0), shell);
    app.forward_mouse_event(true, MouseButton::Left, (2, 3), PaneId(0));
    assert_eq!(app.take_outbox(PaneId(0)), b"\x1b[<0;4;3M");
    app.forward_mouse_scroll(2, (2, 3), PaneId(0));
    assert_eq!(app.take_outbox(PaneId(0)), b"\x1b[<64;4;3M");
    app.forward_mouse_scroll(-1, (2, 3), PaneId(0));
    assert_eq!(app.take_outbox(PaneId(0)), b"\x1b[<65;4;3M");
    app.paste_text("hi");
    assert_eq!(app.take_outbox(PaneId(0)), b"hi");
}

#[test]
fn panes_share_nothing_of_their_own() {
    let mut app = new_app();
    app.split_pane(Direction::Vertical);
    app.set_mode(PaneId(1), Mode::Normal);
    app.set_nav_cursor(PaneId(1), (3, 3));
    assert_eq!(app.mode(PaneId(0)), Mode::Insert);
    assert_eq!(app.nav_cursor(PaneId(0)), None);
}

#[test]
fn what_is_under_the_cursor_is_opened() {
    let mut app = new_app();
    app.open_at(PaneId(0), 0, 0, &Vec::new());
    assert_eq!(notice(&app), None, "no program, nothing to open");
    let mut shell = pane(&["see https://a.b/c", "in src/a.rs:7"]);
    shell.cwd = Some("/w".to_string());
    set_pane(&mut app, PaneId(0), shell);

    app.open_at(PaneId(0), 0, 6, &Vec::new());
    assert!(matches!(&requests(&mut app)[..],
        [Request::OpenExternal(url)] if url == "https://a.b/c"));

    let paths = app.open_paths_at(PaneId(0), 1, 4);
    assert_eq!(paths, ["/w/src/a.rs"]);
    app.open_at(PaneId(0), 1, 4, &paths);
    assert!(matches!(&requests(&mut app)[..],
        [Request::OpenEditor { path, line: Some(7) }] if path == "/w/src/a.rs"));

    app.open_at(PaneId(0), 1, 4, &Vec::new());
    assert_eq!(notice(&app), Some("nothing to open under the cursor"));
    app.open_at(PaneId(0), 90, 4, &paths);
    assert!(requests(&mut app).is_empty());
    app.editor_failed("vi", "not found");
    assert_eq!(notice(&app), Some("could not start vi: not found"));
}

#[test]
fn the_window_is_called_after_what_it_shows() {
    let mut app = new_app();
    assert_eq!(app.update_window_title("W {{ title }}", "", None), "W shell");
    assert_eq!(app.update_window_title("W {{ title }}", "", Some(0)), "Winter - shell");
    app.shared.search.query = Some("ink".to_string());
    assert_eq!(app.update_window_title("W", "", None), "Winter - search: /ink");
    app.shared.search.reverse = true;
    assert_eq!(app.update_window_title("W", "", None), "Winter - search: ?ink");
    app.open_texts(PaletteMode::History, &vec!["make".to_string()]);
    assert_eq!(app.update_window_title("W", "", None), "Winter - palette: >  [make]");
    app.window.settings_open = true;
    assert_eq!(app.update_window_title("W", "", None), "Winter - Settings");
}

#[test]
fn a_tab_can_be_opened_round_a_program_that_runs() {
    let mut app = new_app();
    let id = app.push_new_tab(pane(&["vi"]));
    assert_eq!(id, PaneId(1));
    assert_eq!(app.tab().panes(), [PaneId(1)]);
    assert!(app.panes[&1].pane.is_some());
    assert!(app.has_numbers_left());
}

#[test]
fn a_split_without_a_shell_is_undone() {
    let mut app = new_app();
    app.split_pane(Direction::Vertical);
    app.shell_failed(PaneId(1), "out of ptys");
    assert_eq!(notice(&app), Some("could not start a shell: out of ptys"));
    assert_eq!(app.tab().panes(), [PaneId(0)]);
}

#[test]
fn sessions_are_offered_and_ended() {
    let mut app = new_app();
    app.open_mux_palette(&SessionList::Unanswered);
    let list = app.palette.as_ref().expect("a list");
    assert_eq!(list.mode, PaletteMode::MuxSessions);
    assert_eq!(list.entries[0].label, "(could not query sessions)");
    app.open_mux_kill_palette(&SessionList::Sessions(Vec::new()));
    assert_eq!(app.palette.as_ref().map(|list| list.mode), Some(PaletteMode::MuxKill));
    app.session_killed("work", true);
    assert_eq!(notice(&app), Some("killed mux session 'work'"));
    app.session_killed("work", false);
    assert_eq!(notice(&app), Some("could not connect to mux daemon"));
}

#[test]
fn focus_is_given_to_panes_of_the_shown_tab_only() {
    let mut app = new_app();
    app.split_pane(Direction::Vertical);
    app.focus_pane(PaneId(0));
    assert_eq!(app.tab().focused(), PaneId(0));
    app.focus_pane(PaneId(9));
    assert_eq!(app.tab().focused(), PaneId(0));
    app.switch_to_pane(PaneId(1));
    assert_eq!(app.tab().focused(), PaneId(1));
}

#[test]
fn the_search_and_repository_tools_open_pages() {
    let mut app = new_app();
    app.open_grep_page("/w".to_string());
    assert_eq!(app.pages.slots[&0].tool, "grep");
    app.take_effects();
    app.open_git_page("/w".to_string(), JobRequest::DirSize("/w".to_string()));
    assert_eq!(app.pages.slots[&0].tool, "git");
    assert!(requests(&mut app).iter().any(|r| matches!(r, Request::StartJob { .. })));
    assert_eq!(app.offer_scroll_to_page(PaneId(0)), Offer::Ask);
    assert_eq!(app.offer_scroll_to_page(PaneId(5)), Offer::Declined);
}

#[test]
fn colors_and_text_for_a_web_page() {
    assert_eq!(Rgb { r: 0, g: 171, b: 255 }.to_hex(), "#00abff");
    assert_eq!(html_escape("a<b & \"c\""), "a&lt;b &amp; &quot;c&quot;");
}

#[test]
fn a_link_is_known_by_the_cell_it_covers() {
    let mut app = new_app();
    let mut linked = row("read the docs", 20);
    linked.links.push(Link { end_col: 13, start_col: 9, url: "https://d.oc".to_string() });
    let rows = vec![linked, row("", 20)];
    let shell = Pane::new(Grid::from_lines(rows, 20, 2, (0, 0)).expect("a grid"));
    set_pane(&mut app, PaneId(0), shell);
    assert_eq!(app.hovered_link_at(PaneId(0), 0, 10).as_deref(), Some("https://d.oc"));
    assert_eq!(app.hovered_link_at(PaneId(0), 0, 2), None);
    assert_eq!(app.hovered_link_at(PaneId(0), 9, 10), None);
    assert_eq!(app.hovered_link_at(PaneId(4), 0, 10), None);
}

#[test]
fn a_bracket_object_has_two_brackets() {
    let shown = pane(&["a|b|c (d)"]).grid;
    let found = |open, close, col| {
        text_object_span(&shown, 0, col, false, TextObject::Brackets(open, close)).is_some()
    };
    assert!(found('(', ')', 7));
    assert!(!found('|', '|', 2), "one character does not both open and close");

    let mut app = new_app();
    set_pane(&mut app, PaneId(0), pane(&["a|b|c"]));
    let object = TextObject::Brackets('|', '|');
    let action = Action::DeleteTextObject(TextObjectSpec { around: false, object });
    app.take_effects();
    app.handle_action(&action, PaneId(0), &keymap());
    assert!(app.take_outbox(PaneId(0)).is_empty());
}

#[test]
fn the_drawing_of_the_block_in_view_is_exported() {
    let mut app = new_app();
    let mut shell = pane(&["$ draw"]);
    let block = |svg: Option<&str>| Block {
        command: "draw".to_string(),
        cwd: None,
        svg: svg.map(str::to_string),
        text: String::new(),
    };
    shell.blocks = vec![block(Some("<svg/>"))];
    shell.offsets = vec![0];
    set_pane(&mut app, PaneId(0), shell);
    assert_eq!(app.block_drawing(PaneId(0)).as_deref(), Some("<svg/>"));
    assert_eq!(app.block_drawing(PaneId(7)), None);
    app.take_effects();
    app.run_command("export_block_svg", PaneId(0), &keymap());
    assert!(matches!(&requests(&mut app)[..],
        [Request::Export { kind: Export::BlockDrawing, pane: PaneId(0) }]));
}

#[test]
fn a_fold_names_its_pane_and_its_block() {
    let mut app = new_app();
    let mut shell = pane(&["$ one"]);
    shell.offsets = vec![0];
    set_pane(&mut app, PaneId(0), shell);
    app.take_effects();
    app.handle_action(&Action::ToggleFold, PaneId(0), &keymap());
    app.handle_action(&Action::ToggleFold, PaneId(0), &keymap());
    let effects = app.take_effects();
    assert!(matches!(&effects[..],
        [Effect::FoldBlock(PaneId(0), 0), Effect::UnfoldBlock(PaneId(0), 0)]));
}

#[test]
fn keys_that_are_sent_are_recorded() {
    let mut app = new_app();
    set_pane(&mut app, PaneId(0), pane(&["$"]));
    let tab = Key { alt: false, code: KeyCode::Tab, ctrl: false, shift: false };
    app.record_insert_key(PaneId(0), &tab, &Action::SendBytes(vec![9]), true);
    assert!(app.panes[&0].pending_tab_completion);
    let plain = Key { code: KeyCode::Char('a'), ..tab };
    app.record_insert_key(PaneId(0), &plain, &Action::SendBytes(vec![97]), true);
    assert!(!app.panes[&0].pending_tab_completion);
    let run = app.panes[&0].insert_session.as_ref().map(|session| session.run.clone());
    assert_eq!(run, Some(vec![9, 97]));
}
