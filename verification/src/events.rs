//! What the event loop decides by itself: how keys are named, what an Escape means, how
//! often to look for output, and what the status bar says.

use vstd::prelude::*;
use crate::input::{Action, ElementState, Key, KeyCode, Mode, PaneId, PendingPrefix};
use crate::navigation::export::{Rgb, Theme};
use crate::navigation::search::string_view;
use crate::session::NoticeKind;
use crate::text::{
    append_str, chars_of, greatest, is_alphanumeric_char, is_control_char, is_white, least, minus,
    string_of, string_of_range, trim_text, trimmed,
};

verus! {

// ------------------------------------------------------------------------
// Room for panes
// ------------------------------------------------------------------------

/// Rows the status bar takes.
pub const STATUS_BAR_ROWS: usize = 1;

/// Rows left to panes beside the status bar, never below one.
pub fn content_rows(full_rows: usize) -> (r: usize)
    ensures
        r == greatest(minus(full_rows as int, STATUS_BAR_ROWS as int), 1),
{
    if full_rows > STATUS_BAR_ROWS {
        full_rows - STATUS_BAR_ROWS
    } else {
        1
    }
}

/// The most lines one step of scrolling at the edge takes.
pub const AUTO_SCROLL_MAX_LINES_PER_TICK: usize = 4;

/// How many lines to scroll with the pointer held `extra` steps into the edge.
pub fn auto_scroll_lines(extra: usize) -> (r: usize)
    ensures
        r == least(1 + extra, AUTO_SCROLL_MAX_LINES_PER_TICK as int),
{
    if extra < AUTO_SCROLL_MAX_LINES_PER_TICK - 1 {
        1 + extra
    } else {
        AUTO_SCROLL_MAX_LINES_PER_TICK
    }
}

// ------------------------------------------------------------------------
// Keys
// ------------------------------------------------------------------------

/// Where a key is on the keyboard, as far as chords name such places.
#[derive(Clone, Copy, Debug, PartialEq, Eq, Structural)]
pub enum PhysicalKey {
    /// The key of a digit, 0 to 9.
    Digit(u8),
    /// The key of a letter, counted from 0 for `a`.
    Letter(u8),
    Other,
}

/// A key that stands for no character.
#[derive(Clone, Copy, Debug, PartialEq, Eq, Structural)]
pub enum NamedKey {
    ArrowDown,
    ArrowLeft,
    ArrowRight,
    ArrowUp,
    Backspace,
    Delete,
    End,
    Enter,
    Escape,
    /// A function key, by its number.
    F(u8),
    Home,
    Insert,
    Other,
    PageDown,
    PageUp,
    Space,
    Tab,
}

/// What the keyboard layout makes of a key.
#[derive(Debug)]
pub enum LogicalKey {
    Character(String),
    Named(NamedKey),
    Unidentified,
}

/// A key by its name or its text.
pub enum LogicalView {
    Character(Seq<char>),
    Named(NamedKey),
    Unidentified,
}

impl View for LogicalKey {
    type V = LogicalView;

    open spec fn view(&self) -> LogicalView {
        match *self {
            LogicalKey::Character(text) => LogicalView::Character(text@),
            LogicalKey::Named(name) => LogicalView::Named(name),
            LogicalKey::Unidentified => LogicalView::Unidentified,
        }
    }
}

/// The character a key's place stands for: a digit or a lower-case letter.
pub open spec fn physical_char(physical: PhysicalKey) -> Option<char> {
    match physical {
        PhysicalKey::Digit(d) => if d < 10 {
            Some(('0' as int + d) as char)
        } else {
            None
        },
        PhysicalKey::Letter(l) => if l < 26 {
            Some(('a' as int + l) as char)
        } else {
            None
        },
        PhysicalKey::Other => None,
    }
}

/// The character a key's place stands for, for a layout that makes nothing of the key.
pub fn physical_key_fallback(physical: PhysicalKey) -> (r: Option<char>)
    ensures
        r == physical_char(physical),
{
    match physical {
        PhysicalKey::Digit(d) => if d < 10 {
            Some((48u8 + d) as char)
        } else {
            None
        },
        PhysicalKey::Letter(l) => if l < 26 {
            Some((97u8 + l) as char)
        } else {
            None
        },
        PhysicalKey::Other => None,
    }
}

/// A key's code when the layout does not name it.
pub open spec fn fallback_code(physical: PhysicalKey) -> KeyCode {
    match physical_char(physical) {
        Some(c) => KeyCode::Char(c),
        None => KeyCode::Char('\0'),
    }
}

fn char_key(c: char) -> (r: KeyCode)
    ensures
        r == KeyCode::Char(c),
{
    KeyCode::Char(c)
}

fn fallback_key(physical: PhysicalKey) -> (r: KeyCode)
    ensures
        r == fallback_code(physical),
{
    match physical_key_fallback(physical) {
        Some(c) => char_key(c),
        None => KeyCode::Char('\0'),
    }
}

/// The code of a character key: the first character of its text.
pub open spec fn typed_code(first: char) -> KeyCode {
    KeyCode::Char(first)
}

/// The code of a key: its first character, its name, or what its place stands for.
pub open spec fn key_code(key: LogicalView, physical: PhysicalKey) -> KeyCode {
    match key {
        LogicalView::Character(text) => if text.len() > 0 {
            typed_code(text[0])
        } else {
            KeyCode::Char('\0')
        },
        LogicalView::Named(NamedKey::Enter) => KeyCode::Enter,
        LogicalView::Named(NamedKey::Backspace) => KeyCode::Backspace,
        LogicalView::Named(NamedKey::Tab) => KeyCode::Tab,
        LogicalView::Named(NamedKey::Escape) => KeyCode::Escape,
        LogicalView::Named(NamedKey::ArrowUp) => KeyCode::Up,
        LogicalView::Named(NamedKey::ArrowDown) => KeyCode::Down,
        LogicalView::Named(NamedKey::ArrowLeft) => KeyCode::Left,
        LogicalView::Named(NamedKey::ArrowRight) => KeyCode::Right,
        LogicalView::Named(NamedKey::Space) => KeyCode::Space,
        LogicalView::Named(NamedKey::Home) => KeyCode::Home,
        LogicalView::Named(NamedKey::End) => KeyCode::End,
        LogicalView::Named(NamedKey::PageUp) => KeyCode::PageUp,
        LogicalView::Named(NamedKey::PageDown) => KeyCode::PageDown,
        LogicalView::Named(NamedKey::Insert) => KeyCode::Insert,
        LogicalView::Named(NamedKey::Delete) => KeyCode::Delete,
        LogicalView::Named(NamedKey::F(n)) => if 1 <= n <= 12 {
            KeyCode::F(n)
        } else {
            fallback_code(physical)
        },
        LogicalView::Named(NamedKey::Other) => fallback_code(physical),
        LogicalView::Unidentified => fallback_code(physical),
    }
}

/// The code of a key: its first character, its name, or what its place stands for.
pub fn winit_key_to_code(key: &LogicalKey, physical: PhysicalKey) -> (r: KeyCode)
    ensures
        r == key_code(key@, physical),
{
    match key {
        LogicalKey::Character(text) => {
            let chars = chars_of(text.as_str());
            if chars.len() > 0 {
                char_key(chars[0])
            } else {
                KeyCode::Char('\0')
            }
        },
        LogicalKey::Named(name) => match name {
            NamedKey::Enter => KeyCode::Enter,
            NamedKey::Backspace => KeyCode::Backspace,
            NamedKey::Tab => KeyCode::Tab,
            NamedKey::Escape => KeyCode::Escape,
            NamedKey::ArrowUp => KeyCode::Up,
            NamedKey::ArrowDown => KeyCode::Down,
            NamedKey::ArrowLeft => KeyCode::Left,
            NamedKey::ArrowRight => KeyCode::Right,
            NamedKey::Space => KeyCode::Space,
            NamedKey::Home => KeyCode::Home,
            NamedKey::End => KeyCode::End,
            NamedKey::PageUp => KeyCode::PageUp,
            NamedKey::PageDown => KeyCode::PageDown,
            NamedKey::Insert => KeyCode::Insert,
            NamedKey::Delete => KeyCode::Delete,
            NamedKey::F(n) => if 1 <= *n && *n <= 12 {
                KeyCode::F(*n)
            } else {
                fallback_key(physical)
            },
            NamedKey::Other => fallback_key(physical),
        },
        LogicalKey::Unidentified => fallback_key(physical),
    }
}

/// Whether an action puts bytes on the way to the program. A key that cannot be
/// identified sends none.
pub fn forwarded_to_pty(action: &Action) -> (r: bool)
    ensures
        r == (action matches Action::SendBytes(bytes) && bytes@.len() > 0),
{
    match action {
        Action::SendBytes(bytes) => bytes.len() > 0,
        _ => false,
    }
}

/// Whether a bare Escape in Insert mode goes to the program and leaves the mode alone: a
/// program has the pane, or the shell may be amid a completion.
pub fn escape_forwarded_to_pty(has_foreground_process: bool, pending_tab_completion: bool) -> (r:
    bool)
    ensures
        r == (has_foreground_process || pending_tab_completion),
{
    has_foreground_process || pending_tab_completion
}

/// How soon a second Escape follows the first, in milliseconds, to count as a double
/// tap.
pub const ALT_SCREEN_ESCAPE_DOUBLE_TAP: u64 = 400;

/// Whether an Escape in `pane` at `now` completes a double tap with the one before.
pub open spec fn double_tap(prev: Option<(PaneId, u64)>, pane: PaneId, now: u64) -> bool {
    prev matches Some((prev_pane, at)) && prev_pane == pane && minus(now as int, at as int)
        < ALT_SCREEN_ESCAPE_DOUBLE_TAP
}

/// Whether an Escape in `pane` at `now` completes a double tap with the one before:
/// the same pane, and soon enough.
pub fn is_alt_screen_escape_double_tap(prev: Option<(PaneId, u64)>, pane: PaneId, now: u64) -> (r:
    bool)
    ensures
        r == double_tap(prev, pane, now),
{
    match prev {
        Some((prev_pane, at)) => prev_pane == pane && (now <= at || now - at
            < ALT_SCREEN_ESCAPE_DOUBLE_TAP),
        None => false,
    }
}

/// Whether a key is Escape with nothing held.
pub open spec fn bare_escape(key: Key) -> bool {
    key.code == KeyCode::Escape && !key.ctrl && !key.alt && !key.shift
}

/// Whether a key takes a selection away and does nothing else: a bare Escape outside of
/// Visual mode, whose own Escape clears the selection.
pub fn escape_clears_selection(key: &Key, mode: Mode, has_selection: bool) -> (r: bool)
    ensures
        r == (bare_escape(*key) && mode != Mode::Visual && has_selection),
{
    key.code == KeyCode::Escape && !key.ctrl && !key.alt && !key.shift && mode != Mode::Visual
        && has_selection
}

/// What becomes of a key before the keymap sees it, on account of its being Escape.
#[derive(Clone, Copy, Debug, PartialEq, Eq, Structural)]
pub enum EscapeUse {
    /// It takes the selection away.
    ClearSelection,
    /// It goes to the program.
    Forward,
    /// The keymap says.
    Keymap,
}

/// What becomes of `key` in `pane` at `now`, with `last` the last Escape that went to a
/// program which has its pane to itself. In Insert mode a bare Escape goes to a program that
/// has the pane, and to a shell that may be amid a completion; a double tap is the keymap's.
pub open spec fn escape_use(
    key: Key,
    mode: Mode,
    has_selection: bool,
    has_foreground_process: bool,
    pending_tab_completion: bool,
    last: Option<(PaneId, u64)>,
    pane: PaneId,
    now: u64,
) -> EscapeUse {
    if bare_escape(key) && mode != Mode::Visual && has_selection {
        EscapeUse::ClearSelection
    } else if bare_escape(key) && mode == Mode::Insert && (has_foreground_process
        || pending_tab_completion) && !double_tap(last, pane, now) {
        EscapeUse::Forward
    } else {
        EscapeUse::Keymap
    }
}

/// What becomes of a key before the keymap sees it, and the Escape that a next one may
/// complete a double tap with: any other key forgets it.
pub fn route_escape(
    key: &Key,
    mode: Mode,
    has_selection: bool,
    has_foreground_process: bool,
    pending_tab_completion: bool,
    last: Option<(PaneId, u64)>,
    pane: PaneId,
    now: u64,
) -> (r: (EscapeUse, Option<(PaneId, u64)>))
    ensures
        r.0 == escape_use(
            *key,
            mode,
            has_selection,
            has_foreground_process,
            pending_tab_completion,
            last,
            pane,
            now,
        ),
        r.1 == (if r.0 == EscapeUse::Forward && has_foreground_process {
            Some((pane, now))
        } else {
            None
        }),
{
    if escape_clears_selection(key, mode, has_selection) {
        return (EscapeUse::ClearSelection, None);
    }
    let bare: bool = key.code == KeyCode::Escape && !key.ctrl && !key.alt && !key.shift;
    if bare && mode == Mode::Insert && escape_forwarded_to_pty(
        has_foreground_process,
        pending_tab_completion,
    ) && !is_alt_screen_escape_double_tap(last, pane, now) {
        let seen = if has_foreground_process {
            Some((pane, now))
        } else {
            None
        };
        return (EscapeUse::Forward, seen);
    }
    (EscapeUse::Keymap, None)
}

/// A program that has its pane gets every single Escape, and a second one within the time of
/// a double tap is the keymap's, which leaves Insert mode by it.
pub proof fn law_a_double_tap_leaves_the_program(key: Key, pane: PaneId, first: u64, second: u64)
    requires
        bare_escape(key),
        first <= second,
    ensures
        escape_use(key, Mode::Insert, false, true, false, None, pane, first) == EscapeUse::Forward,
        escape_use(key, Mode::Insert, false, true, false, Some((pane, first)), pane, second) == (
        if second - first < ALT_SCREEN_ESCAPE_DOUBLE_TAP {
            EscapeUse::Keymap
        } else {
            EscapeUse::Forward
        }),
{
}

/// Whether a key event is left over from another window: a press that comes before the
/// window has focus.
pub fn is_pre_focus_key_leak(state: ElementState, window_has_focus: bool) -> (r: bool)
    ensures
        r == (state == ElementState::Pressed && !window_has_focus),
{
    state == ElementState::Pressed && !window_has_focus
}

// ------------------------------------------------------------------------
// Waking up
// ------------------------------------------------------------------------

/// How long to wait for output, in milliseconds, while there has been some of late.
pub const PTY_POLL_INTERVAL: u64 = 16;

/// How long to wait for output, in milliseconds, when nothing has happened for a while.
pub const PTY_POLL_INTERVAL_IDLE: u64 = 250;

/// How long after the last activity, in milliseconds, waits become long ones.
pub const PTY_ACTIVE_WINDOW: u64 = 2000;

/// How long the cursor stays on or off, in milliseconds.
pub const CURSOR_BLINK_PERIOD: u64 = 530;

/// How long a prefix is held, in milliseconds, before the keys that may follow it are
/// shown.
pub const HINT_DELAY: u64 = 1000;

/// Whether nothing has happened for a while.
pub fn is_poll_idle(last_activity: u64, now: u64) -> (r: bool)
    ensures
        r == (minus(now as int, last_activity as int) >= PTY_ACTIVE_WINDOW),
{
    now > last_activity && now - last_activity >= PTY_ACTIVE_WINDOW
}

/// The time `wait` after `now`, at most the last there is.
pub open spec fn later(now: u64, wait: u64) -> int {
    least(now + wait, u64::MAX as int)
}

/// The time `wait` after `now`, at most the last there is.
pub fn after(now: u64, wait: u64) -> (r: u64)
    ensures
        r == later(now, wait),
{
    if now <= u64::MAX - wait {
        now + wait
    } else {
        u64::MAX
    }
}

/// Whether keys may follow `pending` that are worth showing.
pub open spec fn hints(pending: PendingPrefix) -> bool {
    pending == PendingPrefix::Other
}

/// Whether the keys that may follow a prefix are shown at `now`.
pub open spec fn hint_due(pending: PendingPrefix, since: Option<u64>, now: u64) -> bool {
    &&& hints(pending)
    &&& since matches Some(since)
    &&& minus(now as int, since as int) >= HINT_DELAY
}

/// Whether the keys that may follow a prefix are shown at `now`: it has been held for
/// long enough.
pub fn hint_shown(pending: PendingPrefix, since: Option<u64>, now: u64) -> (r: bool)
    ensures
        r == hint_due(pending, since, now),
{
    match since {
        Some(since) => pending == PendingPrefix::Other && now > since && now - since >= HINT_DELAY,
        None => false,
    }
}

/// When the event loop looks again: for output, for the cursor's next blink, or to show
/// what may follow a prefix, whichever comes first.
pub open spec fn wakeup(
    last_activity: u64,
    now: u64,
    blink_next: Option<u64>,
    pending: PendingPrefix,
    since: Option<u64>,
) -> int {
    let poll = if minus(now as int, last_activity as int) >= PTY_ACTIVE_WINDOW {
        later(now, PTY_POLL_INTERVAL_IDLE)
    } else {
        later(now, PTY_POLL_INTERVAL)
    };
    let blink = match blink_next {
        Some(at) => least(poll, at as int),
        None => poll,
    };
    match since {
        Some(since) => if hints(pending) && later(since, HINT_DELAY) > now {
            least(blink, later(since, HINT_DELAY))
        } else {
            blink
        },
        None => blink,
    }
}

/// When the event loop looks again.
pub fn next_wakeup(
    last_activity: u64,
    now: u64,
    blink_next: Option<u64>,
    pending: PendingPrefix,
    since: Option<u64>,
) -> (r: u64)
    ensures
        r == wakeup(last_activity, now, blink_next, pending, since),
{
    let mut at: u64 = if is_poll_idle(last_activity, now) {
        after(now, PTY_POLL_INTERVAL_IDLE)
    } else {
        after(now, PTY_POLL_INTERVAL)
    };
    if let Some(blink) = blink_next {
        if blink < at {
            at = blink;
        }
    }
    if let Some(since) = since {
        if pending == PendingPrefix::Other {
            let deadline: u64 = after(since, HINT_DELAY);
            if deadline > now && deadline < at {
                at = deadline;
            }
        }
    }
    at
}

/// The loop looks again soon: within a quarter of a second, whatever else is due, and
/// within a sixtieth while there has been activity of late.
pub proof fn law_output_is_looked_for_in_time(
    last_activity: u64,
    now: u64,
    blink_next: Option<u64>,
    pending: PendingPrefix,
    since: Option<u64>,
)
    ensures
        wakeup(last_activity, now, blink_next, pending, since) <= now + PTY_POLL_INTERVAL_IDLE,
        minus(now as int, last_activity as int) < PTY_ACTIVE_WINDOW ==> wakeup(
            last_activity,
            now,
            blink_next,
            pending,
            since,
        ) <= now + PTY_POLL_INTERVAL,
        blink_next matches Some(at) ==> wakeup(last_activity, now, blink_next, pending, since)
            <= at,
{
}

// ------------------------------------------------------------------------
// The status bar
// ------------------------------------------------------------------------

/// The icons of the modes. Visual mode has that of Normal mode.
#[derive(Debug)]
pub struct ModeIcons {
    pub block: String,
    pub insert: String,
    pub normal: String,
}

/// How the status bar is to look.
#[derive(Debug)]
pub struct StatusBarConfig {
    pub enabled: bool,
    pub icons: ModeIcons,
    pub show_mode: bool,
}

/// A status bar that is not shown at all times, with an icon for each mode.
impl Default for StatusBarConfig {
    fn default() -> (r: Self)
        ensures
            !r.enabled,
            r.show_mode,
            r.icons.block@ == "\u{f0485}"@,
            r.icons.insert@ == "\u{f03eb}"@,
            r.icons.normal@ == "\u{e795}"@,
    {
        StatusBarConfig {
            enabled: false,
            icons: ModeIcons {
                block: "\u{f0485}".to_owned(),
                insert: "\u{f03eb}".to_owned(),
                normal: "\u{e795}".to_owned(),
            },
            show_mode: true,
        }
    }
}

/// A search as the status bar tells of it.
#[derive(Debug)]
pub struct StatusSearch {
    pub match_index: usize,
    pub match_total: usize,
    pub query: String,
    pub reverse: bool,
}

/// A notice as the status bar shows it.
#[derive(Debug)]
pub struct StatusNotice {
    pub kind: NoticeKind,
    pub text: String,
}

/// What the status bar shows.
#[derive(Debug)]
pub struct StatusBar {
    pub accent: Rgb,
    pub mode: String,
    pub notice: Option<StatusNotice>,
    pub search: Option<StatusSearch>,
}

/// A mode as the status bar names it.
pub open spec fn mode_name(mode: Mode) -> Seq<char> {
    match mode {
        Mode::Insert => "Insert"@,
        Mode::Normal => "Normal"@,
        Mode::Visual => "Visual"@,
        Mode::BlockFocus => "Block"@,
        Mode::Page => "Page"@,
    }
}

/// Which of the terminal's colors stands for a mode.
pub open spec fn mode_color(mode: Mode) -> int {
    match mode {
        Mode::Insert => 12,
        Mode::Normal => 4,
        Mode::Visual => 6,
        Mode::BlockFocus => 5,
        Mode::Page => 5,
    }
}

/// The icon of a mode.
pub open spec fn mode_icon(mode: Mode, icons: ModeIcons) -> Seq<char> {
    match mode {
        Mode::Insert => icons.insert@,
        Mode::Normal => icons.normal@,
        Mode::Visual => icons.normal@,
        Mode::BlockFocus => icons.block@,
        Mode::Page => icons.block@,
    }
}

/// What the status bar says of the mode: nothing when it is not to be shown, else its
/// name, behind its icon when it has one.
pub open spec fn mode_label(mode: Mode, config: StatusBarConfig) -> Seq<char> {
    if !config.show_mode {
        Seq::empty()
    } else if mode_icon(mode, config.icons).len() == 0 {
        mode_name(mode)
    } else {
        mode_icon(mode, config.icons) + " "@ + mode_name(mode)
    }
}

/// What the status bar shows of a mode, a search and a notice.
pub fn status_bar(
    mode: Mode,
    theme: &Theme,
    search: Option<StatusSearch>,
    notice: Option<StatusNotice>,
    config: &StatusBarConfig,
) -> (r: StatusBar)
    ensures
        r.accent == theme.ansi@[mode_color(mode)],
        r.mode@ == mode_label(mode, *config),
        r.search == search,
        r.notice == notice,
{
    let (name, color): (&str, usize) = match mode {
        Mode::Insert => ("Insert", 12),
        Mode::Normal => ("Normal", 4),
        Mode::Visual => ("Visual", 6),
        Mode::BlockFocus => ("Block", 5),
        Mode::Page => ("Page", 5),
    };
    let icon: &String = match mode {
        Mode::Insert => &config.icons.insert,
        Mode::Normal => &config.icons.normal,
        Mode::Visual => &config.icons.normal,
        Mode::BlockFocus => &config.icons.block,
        Mode::Page => &config.icons.block,
    };
    let mut label: Vec<char> = Vec::new();
    if config.show_mode {
        let glyphs = chars_of(icon.as_str());
        if glyphs.len() > 0 {
            append_str(&mut label, icon.as_str());
            append_str(&mut label, " ");
        }
        append_str(&mut label, name);
    }
    let mode = string_of(&label);
    StatusBar { accent: theme.ansi[color], mode, notice, search }
}

/// Whether the status bar is there: at all times, or for as long as there is a search,
/// which is told of nowhere else.
pub fn status_bar_shown(enabled: bool, searching: bool) -> (r: bool)
    ensures
        r == (enabled || searching),
{
    enabled || searching
}

// ------------------------------------------------------------------------
// Themes
// ------------------------------------------------------------------------

/// One choice of a settings row.
#[derive(Debug)]
pub struct ChoiceOption {
    pub label: String,
    pub value: String,
}

/// A choice by its texts.
pub open spec fn choice_texts(options: Seq<ChoiceOption>) -> Seq<(Seq<char>, Seq<char>)> {
    Seq::new(options.len(), |i: int| (options[i].label@, options[i].value@))
}

/// The themes that are always there.
pub open spec fn built_in_themes() -> Seq<(Seq<char>, Seq<char>)> {
    seq![("Dark"@, "dark"@), ("Light"@, "light"@), ("Auto (follow system)"@, "auto"@)]
}

/// The themes to choose from: those that are always there, then the named ones.
pub open spec fn theme_choices(names: Seq<String>) -> Seq<(Seq<char>, Seq<char>)> {
    built_in_themes() + Seq::new(names.len(), |i: int| (names[i]@, names[i]@))
}

/// The themes to choose from: those that are always there, then those of `names`.
pub fn settings_theme_options(names: &Vec<String>) -> (r: Vec<ChoiceOption>)
    ensures
        choice_texts(r@) == theme_choices(names@),
{
    let mut options: Vec<ChoiceOption> = Vec::new();
    options.push(ChoiceOption { label: "Dark".to_owned(), value: "dark".to_owned() });
    options.push(ChoiceOption { label: "Light".to_owned(), value: "light".to_owned() });
    options.push(
        ChoiceOption { label: "Auto (follow system)".to_owned(), value: "auto".to_owned() },
    );
    let mut i: usize = 0;
    assert(choice_texts(options@) =~= theme_choices(names@.take(0)));
    while i < names.len()
        invariant
            i <= names@.len(),
            choice_texts(options@) == theme_choices(names@.take(i as int)),
        decreases names@.len() - i,
    {
        let ghost before = options@;
        options.push(
            ChoiceOption { label: names[i].as_str().to_owned(), value: names[i].as_str().to_owned() },
        );
        assert(choice_texts(options@) =~= choice_texts(before).push((names@[i as int]@, names@[i as int]@)));
        assert(theme_choices(names@.take(i + 1)) =~= theme_choices(names@.take(i as int)).push(
            (names@[i as int]@, names@[i as int]@),
        ));
        i = i + 1;
    }
    assert(names@.take(names@.len() as int) =~= names@);
    options
}

/// Every theme that has a name can be chosen by it.
pub proof fn law_every_named_theme_can_be_chosen(names: Seq<String>, i: int)
    requires
        0 <= i < names.len(),
    ensures
        theme_choices(names).contains((names[i]@, names[i]@)),
{
    assert(theme_choices(names)[3 + i] == (names[i]@, names[i]@));
}

/// Whether `c` may stand in the name of a theme: a letter, a digit, `-` or `_`.
pub open spec fn theme_char(c: char) -> bool {
    is_alphanumeric_char(c) || c == '-' || c == '_'
}

/// Whether `name` can be the name of a theme.
pub open spec fn theme_name_ok(name: Seq<char>) -> bool {
    name.len() > 0 && forall|i: int| 0 <= i < name.len() ==> theme_char(#[trigger] name[i])
}

/// The name of a theme that is typed as `input`, the white space around it aside, or
/// nothing when it cannot be one.
pub fn theme_name(input: &str) -> (r: Option<String>)
    ensures
        string_view(r) == (if theme_name_ok(trimmed(input@)) {
            Some(trimmed(input@))
        } else {
            None
        }),
{
    let name = trim_text(input);
    let chars = chars_of(name.as_str());
    if chars.len() == 0 {
        return None;
    }
    let mut i: usize = 0;
    while i < chars.len()
        invariant
            i <= chars@.len(),
            chars@ == name@,
            name@ == trimmed(input@),
            forall|j: int| 0 <= j < i ==> theme_char(#[trigger] chars@[j]),
        decreases chars@.len() - i,
    {
        if !(chars[i].is_alphanumeric() || chars[i] == '-' || chars[i] == '_') {
            assert(!theme_char(chars@[i as int]));
            return None;
        }
        i = i + 1;
    }
    Some(name)
}

// ------------------------------------------------------------------------
// Multiplexer queries
// ------------------------------------------------------------------------

/// Where the word that starts at `i` ends.
pub open spec fn word_stop(text: Seq<char>, i: int) -> int
    decreases text.len() - i,
{
    if 0 <= i < text.len() && !is_white(text[i]) {
        word_stop(text, i + 1)
    } else {
        i
    }
}

/// Where a word ends is within the text, and past its start when there is one.
pub proof fn lemma_word_stop(text: Seq<char>, i: int)
    requires
        0 <= i <= text.len(),
    ensures
        i <= word_stop(text, i) <= text.len(),
        i < text.len() && !is_white(text[i]) ==> i < word_stop(text, i),
        forall|j: int| i <= j < word_stop(text, i) ==> !is_white(#[trigger] text[j]),
    decreases text.len() - i,
{
    if i < text.len() && !is_white(text[i]) {
        lemma_word_stop(text, i + 1);
    }
}

/// The words of `text` from `i` on: its stretches without white space.
pub open spec fn words_from(text: Seq<char>, i: int) -> Seq<Seq<char>>
    decreases text.len() - i,
{
    if 0 <= i < text.len() {
        if is_white(text[i]) {
            words_from(text, i + 1)
        } else {
            proof {
                lemma_word_stop(text, i);
            }
            seq![text.subrange(i, word_stop(text, i))] + words_from(text, word_stop(text, i))
        }
    } else {
        Seq::empty()
    }
}

/// Texts by their characters.
pub open spec fn texts(v: Seq<String>) -> Seq<Seq<char>> {
    Seq::new(v.len(), |i: int| v[i]@)
}

/// The words of `text`.
pub fn split_words(text: &str) -> (r: Vec<String>)
    ensures
        texts(r@) == words_from(text@, 0),
{
    let chars = chars_of(text);
    let mut words: Vec<String> = Vec::new();
    let mut i: usize = 0;
    assert(texts(words@) + words_from(chars@, 0) =~= words_from(chars@, 0));
    while i < chars.len()
        invariant
            i <= chars@.len(),
            texts(words@) + words_from(chars@, i as int) == words_from(chars@, 0),
        decreases chars@.len() - i,
    {
        if chars[i].is_whitespace() {
            i = i + 1;
        } else {
            let from: usize = i;
            proof {
                lemma_word_stop(chars@, from as int);
            }
            while i < chars.len() && !chars[i].is_whitespace()
                invariant
                    from <= i <= chars@.len(),
                    word_stop(chars@, i as int) == word_stop(chars@, from as int),
                decreases chars@.len() - i,
            {
                i = i + 1;
            }
            let ghost before = texts(words@);
            let ghost word = chars@.subrange(from as int, i as int);
            words.push(string_of_range(&chars, from, i));
            assert(texts(words@) =~= before.push(word));
            assert(before.push(word) + words_from(chars@, i as int) =~= before + (seq![word]
                + words_from(chars@, i as int)));
        }
    }
    assert(texts(words@) + words_from(chars@, i as int) =~= texts(words@));
    words
}

/// Words with one space between each two.
pub open spec fn spaced(words: Seq<Seq<char>>) -> Seq<char>
    decreases words.len(),
{
    if words.len() == 0 {
        Seq::empty()
    } else if words.len() == 1 {
        words[0]
    } else {
        spaced(words.drop_last()) + " "@ + words.last()
    }
}

/// The words from the second on, with one space between each two.
fn rest_of(words: &Vec<String>) -> (r: String)
    requires
        words@.len() > 0,
    ensures
        r@ == spaced(texts(words@).drop_first()),
{
    let mut line: Vec<char> = Vec::new();
    let mut i: usize = 1;
    let ghost all = texts(words@).drop_first();
    assert(all.take(0) =~= Seq::empty());
    while i < words.len()
        invariant
            1 <= i <= words@.len(),
            all == texts(words@).drop_first(),
            line@ == spaced(all.take(i - 1)),
        decreases words@.len() - i,
    {
        proof {
            assert(all.take(i as int).drop_last() =~= all.take(i - 1));
            assert(all.take(i as int).last() == words@[i as int]@);
        }
        if i > 1 {
            append_str(&mut line, " ");
        }
        append_str(&mut line, words[i].as_str());
        assert(line@ =~= spaced(all.take(i as int)));
        i = i + 1;
    }
    assert(all.take(i - 1) =~= all);
    string_of(&line)
}

/// Whether a word can name a session or a host: not one of the list's placeholders,
/// and without control characters.
pub open spec fn usable_name(word: Seq<char>) -> bool {
    &&& !(word.len() > 0 && word[0] == '(')
    &&& forall|i: int| 0 <= i < word.len() ==> !is_control_char(#[trigger] word[i])
}

/// Whether a word can name a session or a host.
pub fn is_usable_name(word: &str) -> (r: bool)
    ensures
        r == usable_name(word@),
{
    let chars = chars_of(word);
    if chars.len() > 0 && chars[0] == '(' {
        return false;
    }
    let mut i: usize = 0;
    while i < chars.len()
        invariant
            i <= chars@.len(),
            chars@ == word@,
            forall|j: int| 0 <= j < i ==> !is_control_char(#[trigger] chars@[j]),
        decreases chars@.len() - i,
    {
        if chars[i].is_control() {
            assert(is_control_char(chars@[i as int]));
            return false;
        }
        i = i + 1;
    }
    true
}

/// A query's first word and the rest of it, or nothing when that word cannot be a name.
pub open spec fn query_parts(query: Seq<char>) -> Option<(Seq<char>, Option<Seq<char>>)> {
    let words = words_from(query, 0);
    if words.len() == 0 || !usable_name(words[0]) {
        None
    } else {
        let rest = spaced(words.drop_first());
        Some((words[0], if rest.len() == 0 {
            None
        } else {
            Some(rest)
        }))
    }
}

/// A query's parts by their texts.
pub open spec fn parts_view(parts: Option<(String, Option<String>)>) -> Option<
    (Seq<char>, Option<Seq<char>>),
> {
    match parts {
        Some((name, rest)) => Some((name@, string_view(rest))),
        None => None,
    }
}

fn split_query(query: &str) -> (r: Option<(String, Option<String>)>)
    ensures
        parts_view(r) == query_parts(query@),
{
    let mut words = split_words(query);
    let ghost all = texts(words@);
    if words.len() == 0 || !is_usable_name(words[0].as_str()) {
        return None;
    }
    let rest = rest_of(&words);
    let name = words.remove(0);
    let length: usize = chars_of(rest.as_str()).len();
    assert(name@ == all[0]);
    if length == 0 {
        Some((name, None))
    } else {
        Some((name, Some(rest)))
    }
}

/// A query for a new session: its name, and the command to run in it when one is given.
pub fn parse_mux_spawn_query(query: &str) -> (r: Option<(String, Option<String>)>)
    ensures
        parts_view(r) == query_parts(query@),
{
    split_query(query)
}

/// A query for a session elsewhere: its host, and the session's name when one is given.
pub fn parse_mux_attach_query(query: &str) -> (r: Option<(String, Option<String>)>)
    ensures
        parts_view(r) == query_parts(query@),
{
    split_query(query)
}

/// A query of one usable word names a session and asks for nothing else.
pub proof fn law_a_bare_name_asks_for_the_default(name: Seq<char>)
    requires
        name.len() > 0,
        forall|i: int| 0 <= i < name.len() ==> !is_white(#[trigger] name[i]),
        usable_name(name),
    ensures
        query_parts(name) == Some((name, None::<Seq<char>>)),
{
    lemma_one_word(name, 0);
    assert(name.subrange(0, name.len() as int) =~= name);
    assert(words_from(name, name.len() as int) =~= Seq::empty());
    assert(words_from(name, 0) =~= seq![name]);
    assert(words_from(name, 0).drop_first() =~= Seq::empty());
}

proof fn lemma_one_word(name: Seq<char>, i: int)
    requires
        0 <= i <= name.len(),
        forall|j: int| 0 <= j < name.len() ==> !is_white(#[trigger] name[j]),
    ensures
        word_stop(name, i) == name.len(),
    decreases name.len() - i,
{
    if i < name.len() {
        lemma_one_word(name, i + 1);
    }
}

} // verus!
