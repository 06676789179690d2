use winter_term::events::{
    content_rows, escape_clears_selection, escape_forwarded_to_pty, forwarded_to_pty, hint_shown,
    is_alt_screen_escape_double_tap, is_poll_idle, is_pre_focus_key_leak, next_wakeup,
    parse_mux_attach_query, parse_mux_spawn_query, physical_key_fallback, route_escape,
    settings_theme_options, status_bar, theme_name, winit_key_to_code, EscapeUse, LogicalKey,
    NamedKey, PhysicalKey, StatusBarConfig, StatusNotice, StatusSearch,
    ALT_SCREEN_ESCAPE_DOUBLE_TAP, HINT_DELAY, PTY_ACTIVE_WINDOW, PTY_POLL_INTERVAL,
    PTY_POLL_INTERVAL_IDLE, STATUS_BAR_ROWS,
};
use winter_term::input::{Action, ElementState, Key, KeyCode, Mode, PaneId, PendingPrefix};
use winter_term::navigation::export::{Rgb, Theme};
use winter_term::session::NoticeKind;

fn theme() -> Theme {
    let mut ansi = [Rgb { r: 0, g: 0, b: 0 }; 16];
    for (i, color) in ansi.iter_mut().enumerate() {
        color.r = i as u8;
    }
    Theme { ansi, background: Rgb { r: 0, g: 0, b: 0 }, foreground: Rgb { r: 9, g: 9, b: 9 } }
}

fn escape(shift: bool) -> Key {
    Key { alt: false, code: KeyCode::Escape, ctrl: false, shift }
}

#[test]
fn test_content_rows_reserves_status_bar_and_floors_at_one() {
    assert_eq!(content_rows(24), 24 - STATUS_BAR_ROWS);
    assert_eq!(content_rows(1), 1);
    assert_eq!(content_rows(0), 1);
}

#[test]
fn test_status_bar_labels_each_mode() {
    let theme = theme();
    let cfg = StatusBarConfig::default();
    assert_eq!(status_bar(Mode::Insert, &theme, None, None, &cfg).mode, "\u{f03eb} Insert");
    assert_eq!(status_bar(Mode::Normal, &theme, None, None, &cfg).mode, "\u{e795} Normal");
    assert_eq!(status_bar(Mode::BlockFocus, &theme, None, None, &cfg).mode, "\u{f0485} Block");
    assert_ne!(
        status_bar(Mode::Insert, &theme, None, None, &cfg).accent,
        status_bar(Mode::Normal, &theme, None, None, &cfg).accent
    );
}

#[test]
fn test_status_bar_show_mode_toggle_hides_mode_label() {
    let theme = theme();
    let cfg = StatusBarConfig { show_mode: false, ..StatusBarConfig::default() };
    let bar = status_bar(Mode::Normal, &theme, None, None, &cfg);
    assert_eq!(bar.mode, "");
}

#[test]
fn test_status_bar_shows_search_while_active_and_hides_when_none() {
    let theme = theme();
    let cfg = StatusBarConfig::default();
    let active = status_bar(
        Mode::Normal,
        &theme,
        Some(StatusSearch {
            query: "foo".to_string(),
            match_index: 1,
            match_total: 3,
            reverse: false,
        }),
        None,
        &cfg,
    );
    assert!(active.search.is_some());

    let inactive = status_bar(Mode::Normal, &theme, None, None, &cfg);
    assert!(inactive.search.is_none());
}

#[test]
fn test_status_bar_notice_is_set() {
    let theme = theme();
    let cfg = StatusBarConfig::default();
    let notice = StatusNotice { kind: NoticeKind::Info, text: "oops".to_string() };
    let bar = status_bar(Mode::Normal, &theme, None, Some(notice), &cfg);
    assert_eq!(bar.notice.map(|n| n.text), Some("oops".to_string()));
}

#[test]
fn test_winit_key_to_code_chars() {
    let placeholder = PhysicalKey::Letter(0);
    assert_eq!(
        winit_key_to_code(&LogicalKey::Character("a".into()), placeholder),
        KeyCode::Char('a')
    );
    assert_eq!(
        winit_key_to_code(&LogicalKey::Named(NamedKey::Enter), placeholder),
        KeyCode::Enter
    );
    assert_eq!(
        winit_key_to_code(&LogicalKey::Named(NamedKey::Space), placeholder),
        KeyCode::Space
    );
}

#[test]
fn test_winit_key_to_code_falls_back_to_physical_key_when_logical_is_unidentified() {
    let physical = PhysicalKey::Digit(2);
    assert_eq!(winit_key_to_code(&LogicalKey::Unidentified, physical), KeyCode::Char('2'));
}

#[test]
fn a_place_stands_for_a_digit_or_a_letter() {
    assert_eq!(physical_key_fallback(PhysicalKey::Digit(0)), Some('0'));
    assert_eq!(physical_key_fallback(PhysicalKey::Digit(9)), Some('9'));
    assert_eq!(physical_key_fallback(PhysicalKey::Letter(25)), Some('z'));
    assert_eq!(physical_key_fallback(PhysicalKey::Other), None);
}

#[test]
fn test_parse_mux_spawn_query_splits_name_from_command() {
    assert_eq!(
        parse_mux_spawn_query("dev  cargo   watch -x test"),
        Some(("dev".into(), Some("cargo watch -x test".into())))
    );
    assert_eq!(parse_mux_spawn_query("dev"), Some(("dev".into(), None)));
}

#[test]
fn test_parse_mux_spawn_query_rejects_unusable_names() {
    assert_eq!(parse_mux_spawn_query(""), None);
    assert_eq!(parse_mux_spawn_query("   "), None);
    assert_eq!(parse_mux_spawn_query("(default shell)"), None);
    assert_eq!(parse_mux_spawn_query("de\u{7}v cargo"), None);
}

#[test]
fn test_parse_mux_attach_query_splits_host_from_session() {
    assert_eq!(
        parse_mux_attach_query("box.example.com work"),
        Some(("box.example.com".into(), Some("work".into())))
    );
    assert_eq!(
        parse_mux_attach_query("box.example.com"),
        Some(("box.example.com".into(), None))
    );
}

#[test]
fn test_parse_mux_attach_query_rejects_unusable_hosts() {
    assert_eq!(parse_mux_attach_query(""), None);
    assert_eq!(parse_mux_attach_query("   "), None);
    assert_eq!(parse_mux_attach_query("(host [session])"), None);
    assert_eq!(parse_mux_attach_query("ho\u{7}st work"), None);
}

#[test]
fn test_forwarded_to_pty_rejects_empty_send_bytes() {
    assert!(!forwarded_to_pty(&Action::SendBytes(Vec::new())));
    assert!(forwarded_to_pty(&Action::SendBytes(vec![0x04])));
    assert!(!forwarded_to_pty(&Action::Ignore));
}

#[test]
fn test_escape_forwarded_to_pty_on_foreground_process_or_pending_completion() {
    assert!(escape_forwarded_to_pty(true, false));
    assert!(escape_forwarded_to_pty(false, true));
    assert!(escape_forwarded_to_pty(true, true));
    assert!(!escape_forwarded_to_pty(false, false));
}

#[test]
fn test_alt_screen_escape_double_tap_requires_same_pane_within_window() {
    let pane = PaneId(1);
    let other_pane = PaneId(2);
    let first = 10_000;
    let soon = first + 1;
    let late = first + ALT_SCREEN_ESCAPE_DOUBLE_TAP;

    assert!(is_alt_screen_escape_double_tap(Some((pane, first)), pane, soon));
    assert!(!is_alt_screen_escape_double_tap(Some((other_pane, first)), pane, soon));
    assert!(!is_alt_screen_escape_double_tap(Some((pane, first)), pane, late));
    assert!(!is_alt_screen_escape_double_tap(None, pane, soon));
}

#[test]
fn test_is_pre_focus_key_leak_swallows_press_before_focus() {
    assert!(is_pre_focus_key_leak(ElementState::Pressed, false));
}

#[test]
fn test_is_pre_focus_key_leak_ignores_press_once_focused() {
    assert!(!is_pre_focus_key_leak(ElementState::Pressed, true));
}

#[test]
fn test_is_pre_focus_key_leak_ignores_release_events() {
    assert!(!is_pre_focus_key_leak(ElementState::Released, false));
}

#[test]
fn test_is_poll_idle_false_before_active_window_elapses() {
    let last_activity = 5_000;
    let now = last_activity + PTY_ACTIVE_WINDOW - 1;
    assert!(!is_poll_idle(last_activity, now));
}

#[test]
fn test_is_poll_idle_true_once_active_window_elapses() {
    let last_activity = 5_000;
    let now = last_activity + PTY_ACTIVE_WINDOW;
    assert!(is_poll_idle(last_activity, now));
}

#[test]
fn test_escape_clears_selection_outside_visual_mode() {
    let key = escape(false);
    assert!(escape_clears_selection(&key, Mode::Insert, true));
    assert!(escape_clears_selection(&key, Mode::Normal, true));
}

#[test]
fn test_escape_clears_selection_false_without_a_selection() {
    let key = escape(false);
    assert!(!escape_clears_selection(&key, Mode::Insert, false));
}

#[test]
fn test_escape_clears_selection_false_in_visual_mode() {
    let key = escape(false);
    assert!(!escape_clears_selection(&key, Mode::Visual, true));
}

#[test]
fn test_escape_clears_selection_false_with_modifiers() {
    let shift_escape = escape(true);
    assert!(!escape_clears_selection(&shift_escape, Mode::Insert, true));
}

#[test]
fn test_which_key_timer_logic() {
    assert!(!hint_shown(PendingPrefix::Other, None, 5_000));
    let since = 5_000;
    assert!(!hint_shown(PendingPrefix::Other, Some(since), since), "hidden before the delay");
    assert!(!hint_shown(PendingPrefix::Other, Some(since), since + HINT_DELAY - 1));
    assert!(hint_shown(PendingPrefix::Other, Some(since), since + 1005), "shown after it");
    assert!(!hint_shown(PendingPrefix::Idle, Some(since), since + 1005));
}

#[test]
fn the_loop_looks_again_at_whatever_comes_first() {
    let now = 100_000;
    assert_eq!(next_wakeup(now, now, None, PendingPrefix::Idle, None), now + PTY_POLL_INTERVAL);
    assert_eq!(
        next_wakeup(now - PTY_ACTIVE_WINDOW, now, None, PendingPrefix::Idle, None),
        now + PTY_POLL_INTERVAL_IDLE
    );
    assert_eq!(next_wakeup(now, now, Some(now + 3), PendingPrefix::Idle, None), now + 3);
    assert_eq!(
        next_wakeup(now, now, None, PendingPrefix::Other, Some(now + 5 - HINT_DELAY)),
        now + 5
    );
    assert_eq!(
        next_wakeup(now, now, None, PendingPrefix::Other, Some(now - HINT_DELAY)),
        now + PTY_POLL_INTERVAL
    );
}

#[test]
fn every_theme_can_be_chosen() {
    let options = settings_theme_options(&vec!["solarized".to_string()]);
    let values: Vec<&str> = options.iter().map(|o| o.value.as_str()).collect();
    assert_eq!(values, ["dark", "light", "auto", "solarized"]);
    assert_eq!(options[2].label, "Auto (follow system)");
}

#[test]
fn a_theme_is_named_with_letters_digits_and_dashes() {
    assert_eq!(theme_name("  my-theme_2 "), Some("my-theme_2".to_string()));
    assert_eq!(theme_name("my theme"), None);
    assert_eq!(theme_name("../x"), None);
    assert_eq!(theme_name("   "), None);
}

#[test]
fn escape_is_the_programs_the_selections_or_the_keymaps() {
    let pane = PaneId(3);
    let escape = Key { alt: false, code: KeyCode::Escape, ctrl: false, shift: false };
    let insert = Mode::Insert;
    let route = |selected, running, completing, last, now| {
        route_escape(&escape, insert, selected, running, completing, last, pane, now)
    };
    assert_eq!(route(true, true, false, None, 9), (EscapeUse::ClearSelection, None));
    assert_eq!(route(false, false, false, None, 9), (EscapeUse::Keymap, None));
    assert_eq!(route(false, false, true, None, 9), (EscapeUse::Forward, None));
    let first = route(false, true, false, None, 9);
    assert_eq!(first, (EscapeUse::Forward, Some((pane, 9))));
    assert_eq!(route(false, true, false, first.1, 10), (EscapeUse::Keymap, None));
    let late = 9 + ALT_SCREEN_ESCAPE_DOUBLE_TAP;
    assert_eq!(route(false, true, false, first.1, late), (EscapeUse::Forward, Some((pane, late))));
    let other = Key { code: KeyCode::Char('x'), ..escape };
    assert_eq!(
        route_escape(&other, insert, true, true, true, first.1, pane, 10),
        (EscapeUse::Keymap, None)
    );
}
