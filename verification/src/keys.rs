//! What keys and the clock decide before anything is done.

use vstd::prelude::*;
use crate::events::{
    double_tap, escape_use, key_code, later, physical_char, wakeup, EscapeUse, LogicalView,
    NamedKey, PhysicalKey, ALT_SCREEN_ESCAPE_DOUBLE_TAP, HINT_DELAY, PTY_ACTIVE_WINDOW,
    PTY_POLL_INTERVAL, PTY_POLL_INTERVAL_IDLE,
};
use crate::input::{Key, KeyCode, Mode, PaneId, PendingPrefix};

verus! {

/// Whether a key has a name of its own, wherever it is.
pub open spec fn is_named(name: NamedKey) -> bool {
    match name {
        NamedKey::Other => false,
        NamedKey::F(n) => 1 <= n <= 12,
        _ => true,
    }
}

/// Keys with different names are different keys, and none of them is a character.
pub proof fn law_names_tell_keys_apart(a: NamedKey, b: NamedKey, at: PhysicalKey, other: PhysicalKey)
    requires
        is_named(a),
        is_named(b),
    ensures
        (key_code(LogicalView::Named(a), at) == key_code(LogicalView::Named(b), other)) == (a
            == b),
        !(key_code(LogicalView::Named(a), at) is Char),
{
}

/// The digits and letters of a keyboard count on from the first of them.
pub proof fn law_places_count_on(d: u8)
    ensures
        physical_char(PhysicalKey::Digit(0)) == Some('0'),
        physical_char(PhysicalKey::Letter(0)) == Some('a'),
        d < 9 ==> physical_char(PhysicalKey::Digit((d + 1) as u8))->0 as int == physical_char(
            PhysicalKey::Digit(d),
        )->0 as int + 1,
        d < 25 ==> physical_char(PhysicalKey::Letter((d + 1) as u8))->0 as int == physical_char(
            PhysicalKey::Letter(d),
        )->0 as int + 1,
        physical_char(PhysicalKey::Digit(d)) is Some == (d <= 9),
        physical_char(PhysicalKey::Letter(d)) is Some == (d <= 25),
{
}

/// A second Escape in the same pane counts for as long as it comes soon enough, and no
/// longer. In another pane it never does.
pub proof fn law_a_double_tap_is_soon(pane: PaneId, other: PaneId, at: u64, wait: u64)
    requires
        at + wait <= u64::MAX,
    ensures
        double_tap(Some((pane, at)), pane, (at + wait) as u64) == (wait
            < ALT_SCREEN_ESCAPE_DOUBLE_TAP),
        pane != other ==> !double_tap(Some((pane, at)), other, (at + wait) as u64),
        !double_tap(None, pane, at),
{
}

/// Only a bare Escape is kept from the keymap: first for a selection outside of Visual mode,
/// then in Insert mode for a program or a completion.
pub proof fn law_only_a_bare_escape_is_kept(
    key: Key,
    mode: Mode,
    selection: bool,
    program: bool,
    completion: bool,
    last: Option<(PaneId, u64)>,
    pane: PaneId,
    now: u64,
)
    ensures
        ({
            let r = escape_use(key, mode, selection, program, completion, last, pane, now);
            let bare = key.code == KeyCode::Escape && !key.ctrl && !key.alt && !key.shift;
            &&& !bare ==> r == EscapeUse::Keymap
            &&& bare && selection ==> (r == EscapeUse::ClearSelection) == (mode != Mode::Visual)
            &&& !selection ==> r != EscapeUse::ClearSelection
            &&& r == EscapeUse::Forward ==> mode == Mode::Insert && (program || completion)
            &&& bare && !selection && mode == Mode::Insert && program && last is None ==> r
                == EscapeUse::Forward
        }),
{
}

/// The event loop looks again when the first of what it waits for is due, and then something
/// is.
pub proof fn law_the_first_that_is_due_wakes(
    last_activity: u64,
    now: u64,
    blink_next: Option<u64>,
    pending: PendingPrefix,
    since: Option<u64>,
)
    requires
        last_activity <= now,
    ensures
        ({
            let at = wakeup(last_activity, now, blink_next, pending, since);
            let idle = now - last_activity >= PTY_ACTIVE_WINDOW;
            let poll = later(
                now,
                if idle {
                    PTY_POLL_INTERVAL_IDLE
                } else {
                    PTY_POLL_INTERVAL
                },
            );
            &&& at <= poll
            &&& blink_next matches Some(blink) ==> at <= blink
            &&& at == poll || blink_next == Some(at as u64) || (since matches Some(held) && at
                == later(held, HINT_DELAY) && pending == PendingPrefix::Other && at > now)
        }),
{
}

} // verus!
