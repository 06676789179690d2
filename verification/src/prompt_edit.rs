//! Vim operators on the prompt line.
//!
//! Normal mode never forwards keys to the shell, so an operator is realized by
//! sending the shell's line editor the keystrokes that have the same effect:
//! arrow keys that bring the editor's cursor under the Vim cursor, then a kill.
//! The default emacs bindings are assumed. A shadow of the line follows what is
//! sent, so edits can be undone and redone.

use vstd::prelude::*;
use vstd::utf8::encode_utf8;
use crate::history::{EditHistory, HistoryView};
use crate::input::{EditAction, Key, KeyCode};
use crate::text::{
    append_bytes, append_chars, chars_of, chars_range, clamped, greatest, is_white, least, minus,
    string_of,
};

verus! {

// ------------------------------------------------------------------------
// Keystrokes
// ------------------------------------------------------------------------

/// `Ctrl-_`: the line editor's own undo.
pub const READLINE_UNDO: u8 = 0x1f;

/// A keystroke the shell's line editor acts on.
#[derive(Clone, Copy, Debug, PartialEq, Eq, Structural)]
pub enum Keystroke {
    /// The Delete key.
    DeleteForward,
    /// `Ctrl-A`.
    Home,
    /// `Ctrl-K`.
    KillToEnd,
    /// `Ctrl-U`.
    KillToStart,
    /// `Ctrl-W`.
    KillWordBack,
    /// `Alt-d`.
    KillWordForward,
    Left,
    /// The end of a bracketed paste.
    PasteEnd,
    /// The start of a bracketed paste.
    PasteStart,
    Right,
    Insert(char),
}

/// The bytes a terminal sends for `k`.
pub open spec fn keystroke_bytes(k: Keystroke) -> Seq<u8> {
    match k {
        Keystroke::DeleteForward => seq![0x1bu8, 0x5bu8, 0x33u8, 0x7eu8],
        Keystroke::Home => seq![0x01u8],
        Keystroke::KillToEnd => seq![0x0bu8],
        Keystroke::KillToStart => seq![0x15u8],
        Keystroke::KillWordBack => seq![0x17u8],
        Keystroke::KillWordForward => seq![0x1bu8, 0x64u8],
        Keystroke::Left => seq![0x1bu8, 0x5bu8, 0x44u8],
        Keystroke::PasteEnd => seq![0x1bu8, 0x5bu8, 0x32u8, 0x30u8, 0x31u8, 0x7eu8],
        Keystroke::PasteStart => seq![0x1bu8, 0x5bu8, 0x32u8, 0x30u8, 0x30u8, 0x7eu8],
        Keystroke::Right => seq![0x1bu8, 0x5bu8, 0x43u8],
        Keystroke::Insert(c) => encode_utf8(seq![c]),
    }
}

/// The bytes a terminal sends for `keys`, one after the other.
pub open spec fn key_bytes(keys: Seq<Keystroke>) -> Seq<u8>
    decreases keys.len(),
{
    if keys.len() == 0 {
        Seq::empty()
    } else {
        key_bytes(keys.drop_last()) + keystroke_bytes(keys.last())
    }
}

/// `n` times the keystroke `k`.
pub open spec fn repeated(k: Keystroke, n: int) -> Seq<Keystroke> {
    Seq::new(if n < 0 { 0 } else { n as nat }, |i: int| k)
}

/// The arrow keys that walk the editor's cursor from column `from` to `to`.
pub open spec fn align_keys(from: int, to: int) -> Seq<Keystroke> {
    if to >= from {
        repeated(Keystroke::Right, to - from)
    } else {
        repeated(Keystroke::Left, from - to)
    }
}

pub proof fn lemma_key_bytes_push(keys: Seq<Keystroke>, k: Keystroke)
    ensures
        key_bytes(keys.push(k)) == key_bytes(keys) + keystroke_bytes(k),
{
    assert(keys.push(k).drop_last() =~= keys);
}

pub proof fn lemma_key_bytes_concat(a: Seq<Keystroke>, b: Seq<Keystroke>)
    ensures
        key_bytes(a + b) == key_bytes(a) + key_bytes(b),
    decreases b.len(),
{
    if b.len() == 0 {
        assert(a + b =~= a);
        assert(key_bytes(a) + key_bytes(b) =~= key_bytes(a));
    } else {
        assert((a + b).drop_last() =~= a + b.drop_last());
        lemma_key_bytes_concat(a, b.drop_last());
        assert(key_bytes(a + b) =~= key_bytes(a) + key_bytes(b));
    }
}

pub proof fn lemma_key_bytes_one(k: Keystroke)
    ensures
        key_bytes(seq![k]) == keystroke_bytes(k),
{
    assert(seq![k].drop_last() =~= Seq::empty());
    assert(key_bytes(Seq::<Keystroke>::empty()) =~= Seq::<u8>::empty());
    assert(Seq::<u8>::empty() + keystroke_bytes(k) =~= keystroke_bytes(k));
}

/// Append the bytes of `keys` that come before `k` and then those of `k`.
fn push_keystroke(bytes: &mut Vec<u8>, k: Keystroke)
    ensures
        final(bytes)@ == old(bytes)@ + keystroke_bytes(k),
{
    match k {
        Keystroke::DeleteForward => append_bytes(bytes, &[0x1b, 0x5b, 0x33, 0x7e]),
        Keystroke::Home => append_bytes(bytes, &[0x01]),
        Keystroke::KillToEnd => append_bytes(bytes, &[0x0b]),
        Keystroke::KillToStart => append_bytes(bytes, &[0x15]),
        Keystroke::KillWordBack => append_bytes(bytes, &[0x17]),
        Keystroke::KillWordForward => append_bytes(bytes, &[0x1b, 0x64]),
        Keystroke::Left => append_bytes(bytes, &[0x1b, 0x5b, 0x44]),
        Keystroke::PasteEnd => append_bytes(bytes, &[0x1b, 0x5b, 0x32, 0x30, 0x31, 0x7e]),
        Keystroke::PasteStart => append_bytes(bytes, &[0x1b, 0x5b, 0x32, 0x30, 0x30, 0x7e]),
        Keystroke::Right => append_bytes(bytes, &[0x1b, 0x5b, 0x43]),
        Keystroke::Insert(c) => {
            let mut s = String::new();
            s.push(c);
            assert(s@ =~= seq![c]);
            append_bytes(bytes, s.as_str().as_bytes());
        },
    }
    assert(bytes@ =~= old(bytes)@ + keystroke_bytes(k));
}

/// Append the bytes of `n` times the keystroke `k`.
fn push_repeated(bytes: &mut Vec<u8>, k: Keystroke, n: usize)
    ensures
        final(bytes)@ == old(bytes)@ + key_bytes(repeated(k, n as int)),
{
    let mut i: usize = 0;
    assert(bytes@ =~= old(bytes)@ + key_bytes(repeated(k, 0)));
    while i < n
        invariant
            i <= n,
            bytes@ == old(bytes)@ + key_bytes(repeated(k, i as int)),
        decreases n - i,
    {
        push_keystroke(bytes, k);
        proof {
            assert(repeated(k, i + 1) =~= repeated(k, i as int).push(k));
            lemma_key_bytes_push(repeated(k, i as int), k);
            assert(bytes@ =~= old(bytes)@ + key_bytes(repeated(k, i + 1)));
        }
        i = i + 1;
    }
}

// ------------------------------------------------------------------------
// Translation
// ------------------------------------------------------------------------

/// A Vim delete operator on the prompt line.
#[derive(Clone, Copy, Debug, PartialEq, Eq, Structural)]
pub enum PromptDelete {
    /// `x`: the character under the cursor.
    CharForward,
    /// `dd`: the whole line.
    Line,
    /// `diw`, `da(` and the like: an inclusive range of columns.
    Range { start_col: usize, end_col: usize },
    /// `D`, `d$`: from the cursor to the end of the line.
    ToLineEnd,
    /// `d0`: from the cursor to the start of the line.
    ToLineStart,
    /// `db`: the word before the cursor.
    WordBack,
    /// `dw`: the word after the cursor.
    WordForward,
}

/// How many columns an inclusive range covers; none when it runs backwards.
pub open spec fn range_len(start_col: int, end_col: int) -> int {
    if end_col >= start_col {
        end_col - start_col + 1
    } else {
        0
    }
}

/// The keystrokes of `op` itself, from the editor's cursor.
pub open spec fn delete_keys(op: PromptDelete) -> Seq<Keystroke> {
    match op {
        PromptDelete::CharForward => seq![Keystroke::DeleteForward],
        PromptDelete::Line => seq![Keystroke::Home, Keystroke::KillToEnd],
        PromptDelete::Range { start_col, end_col } => repeated(
            Keystroke::DeleteForward,
            range_len(start_col as int, end_col as int),
        ),
        PromptDelete::ToLineEnd => seq![Keystroke::KillToEnd],
        PromptDelete::ToLineStart => seq![Keystroke::KillToStart],
        PromptDelete::WordBack => seq![Keystroke::KillWordBack],
        PromptDelete::WordForward => seq![Keystroke::KillWordForward],
    }
}

/// The column `op` starts at: the Vim cursor's, or the first of a range.
pub open spec fn target_col(op: PromptDelete, nav_col: int) -> int {
    match op {
        PromptDelete::Range { start_col, .. } => start_col as int,
        _ => nav_col,
    }
}

/// The column `op` starts at.
fn delete_target(op: PromptDelete, nav_col: usize) -> (r: usize)
    ensures
        r == target_col(op, nav_col as int),
{
    match op {
        PromptDelete::Range { start_col, .. } => start_col,
        _ => nav_col,
    }
}

/// The keystrokes that perform `op` with the editor's cursor at `pty_col` and
/// the Vim cursor at `nav_col`: every operator but `Line` is aligned with the
/// column it starts at first.
pub open spec fn prompt_delete_keys(op: PromptDelete, pty_col: int, nav_col: int) -> Seq<
    Keystroke,
> {
    if op == PromptDelete::Line {
        delete_keys(op)
    } else {
        align_keys(pty_col, target_col(op, nav_col)) + delete_keys(op)
    }
}

/// The bytes that perform `op` when the line editor's cursor sits at `pty_col`
/// and the Vim cursor sits at `nav_col` on the same prompt row. Operators that
/// depend on a column are prefixed with arrow keys that align the editor's
/// cursor; `Line` ignores the columns and clears the whole line.
pub fn prompt_delete_bytes(op: PromptDelete, pty_col: usize, nav_col: usize) -> (r: Vec<u8>)
    ensures
        r@ == key_bytes(prompt_delete_keys(op, pty_col as int, nav_col as int)),
{
    let mut bytes: Vec<u8> = Vec::new();
    let ghost aligned = if op == PromptDelete::Line {
        Seq::empty()
    } else {
        align_keys(pty_col as int, target_col(op, nav_col as int))
    };
    if op != PromptDelete::Line {
        align_cursor(&mut bytes, pty_col, delete_target(op, nav_col));
    }
    assert(bytes@ =~= key_bytes(aligned));
    match op {
        PromptDelete::CharForward => push_keystroke(&mut bytes, Keystroke::DeleteForward),
        PromptDelete::Line => {
            push_keystroke(&mut bytes, Keystroke::Home);
            push_keystroke(&mut bytes, Keystroke::KillToEnd);
            proof {
                lemma_key_bytes_one(Keystroke::Home);
                lemma_key_bytes_push(seq![Keystroke::Home], Keystroke::KillToEnd);
                assert(seq![Keystroke::Home].push(Keystroke::KillToEnd) =~= delete_keys(op));
            }
        },
        PromptDelete::Range { start_col, end_col } => {
            if end_col >= start_col {
                let more: usize = end_col - start_col;
                push_repeated(&mut bytes, Keystroke::DeleteForward, more);
                push_keystroke(&mut bytes, Keystroke::DeleteForward);
                proof {
                    let keys = repeated(Keystroke::DeleteForward, more as int);
                    lemma_key_bytes_push(keys, Keystroke::DeleteForward);
                    assert(keys.push(Keystroke::DeleteForward) =~= delete_keys(op));
                }
            } else {
                assert(key_bytes(delete_keys(op)) =~= Seq::empty());
            }
        },
        PromptDelete::ToLineEnd => push_keystroke(&mut bytes, Keystroke::KillToEnd),
        PromptDelete::ToLineStart => push_keystroke(&mut bytes, Keystroke::KillToStart),
        PromptDelete::WordBack => push_keystroke(&mut bytes, Keystroke::KillWordBack),
        PromptDelete::WordForward => push_keystroke(&mut bytes, Keystroke::KillWordForward),
    }
    proof {
        match op {
            PromptDelete::CharForward => lemma_key_bytes_one(Keystroke::DeleteForward),
            PromptDelete::ToLineEnd => lemma_key_bytes_one(Keystroke::KillToEnd),
            PromptDelete::ToLineStart => lemma_key_bytes_one(Keystroke::KillToStart),
            PromptDelete::WordBack => lemma_key_bytes_one(Keystroke::KillWordBack),
            PromptDelete::WordForward => lemma_key_bytes_one(Keystroke::KillWordForward),
            _ => {},
        }
        lemma_key_bytes_concat(aligned, delete_keys(op));
        assert(aligned + delete_keys(op) =~= prompt_delete_keys(
            op,
            pty_col as int,
            nav_col as int,
        ));
        assert(bytes@ =~= key_bytes(aligned) + key_bytes(delete_keys(op)));
    }
    bytes
}

/// Append the arrow keys that walk the editor's cursor from `from` to `to`.
pub fn align_cursor(bytes: &mut Vec<u8>, from: usize, to: usize)
    ensures
        final(bytes)@ == old(bytes)@ + key_bytes(align_keys(from as int, to as int)),
{
    if to >= from {
        push_repeated(bytes, Keystroke::Right, to - from);
    } else {
        push_repeated(bytes, Keystroke::Left, from - to);
    }
}

/// The keystrokes that replace the character under the Vim cursor with `ch` and
/// leave the cursor on it.
pub open spec fn replace_char_keys(pty_col: int, nav_col: int, ch: char) -> Seq<Keystroke> {
    align_keys(pty_col, nav_col) + seq![
        Keystroke::DeleteForward,
        Keystroke::Insert(ch),
        Keystroke::Left,
    ]
}

/// The bytes that replace the character at `nav_col` with `ch` and put the
/// cursor back on `nav_col`.
pub fn prompt_replace_char_bytes(pty_col: usize, nav_col: usize, ch: char) -> (r: Vec<u8>)
    ensures
        r@ == key_bytes(replace_char_keys(pty_col as int, nav_col as int, ch)),
{
    let mut bytes: Vec<u8> = Vec::new();
    let ghost mut keys: Seq<Keystroke> = Seq::empty();
    align_step(&mut bytes, pty_col, nav_col, Ghost(keys));
    proof {
        keys = keys + align_keys(pty_col as int, nav_col as int);
    }
    type_step(&mut bytes, Keystroke::DeleteForward, Ghost(keys));
    proof {
        keys = keys.push(Keystroke::DeleteForward);
    }
    type_step(&mut bytes, Keystroke::Insert(ch), Ghost(keys));
    proof {
        keys = keys.push(Keystroke::Insert(ch));
    }
    type_step(&mut bytes, Keystroke::Left, Ghost(keys));
    proof {
        keys = keys.push(Keystroke::Left);
        assert(keys =~= replace_char_keys(pty_col as int, nav_col as int, ch));
    }
    bytes
}

/// Extend the bytes of `keys` by one keystroke.
fn type_step(bytes: &mut Vec<u8>, k: Keystroke, Ghost(keys): Ghost<Seq<Keystroke>>)
    requires
        old(bytes)@ == key_bytes(keys),
    ensures
        final(bytes)@ == key_bytes(keys.push(k)),
{
    push_keystroke(bytes, k);
    proof {
        lemma_key_bytes_push(keys, k);
    }
}

/// Extend the bytes of `keys` by an alignment.
fn align_step(bytes: &mut Vec<u8>, from: usize, to: usize, Ghost(keys): Ghost<Seq<Keystroke>>)
    requires
        old(bytes)@ == key_bytes(keys),
    ensures
        final(bytes)@ == key_bytes(keys + align_keys(from as int, to as int)),
{
    align_cursor(bytes, from, to);
    proof {
        lemma_key_bytes_concat(keys, align_keys(from as int, to as int));
    }
}

/// The keystrokes that replace the character under the Vim cursor with
/// `toggled` and leave the cursor one column on.
pub open spec fn toggle_case_keys(pty_col: int, nav_col: int, toggled: char) -> Seq<Keystroke> {
    align_keys(pty_col, nav_col) + seq![Keystroke::DeleteForward, Keystroke::Insert(toggled)]
}

/// The bytes that replace the character at `nav_col` with `toggled` and leave
/// the cursor at `nav_col + 1`.
pub fn prompt_toggle_case_bytes(pty_col: usize, nav_col: usize, toggled: char) -> (r: Vec<u8>)
    ensures
        r@ == key_bytes(toggle_case_keys(pty_col as int, nav_col as int, toggled)),
{
    let mut bytes: Vec<u8> = Vec::new();
    let ghost keys = align_keys(pty_col as int, nav_col as int);
    align_step(&mut bytes, pty_col, nav_col, Ghost(Seq::empty()));
    assert(Seq::empty() + keys =~= keys);
    type_step(&mut bytes, Keystroke::DeleteForward, Ghost(keys));
    type_step(&mut bytes, Keystroke::Insert(toggled), Ghost(keys.push(Keystroke::DeleteForward)));
    assert(keys.push(Keystroke::DeleteForward).push(Keystroke::Insert(toggled))
        =~= toggle_case_keys(pty_col as int, nav_col as int, toggled));
    bytes
}

/// The keystrokes that delete the delimiters at columns `c1` and `c2`, the later
/// one first, and bring the cursor back to `nav_col` as far as the shorter line
/// allows.
pub open spec fn delete_surround_keys(pty_col: int, c1: int, c2: int, nav_col: int) -> Seq<
    Keystroke,
> {
    let first = least(c1, c2);
    let second = greatest(c1, c2);
    align_keys(pty_col, second).push(Keystroke::DeleteForward) + align_keys(second, first).push(
        Keystroke::DeleteForward,
    ) + align_keys(first, least(nav_col, minus(second, 2)))
}

/// The bytes that delete the delimiters at `c1` and `c2` on the prompt row.
pub fn prompt_delete_surround_bytes(pty_col: usize, c1: usize, c2: usize, nav_col: usize) -> (r:
    Vec<u8>)
    ensures
        r@ == key_bytes(
            delete_surround_keys(pty_col as int, c1 as int, c2 as int, nav_col as int),
        ),
{
    let mut bytes: Vec<u8> = Vec::new();
    let first: usize = if c1 <= c2 { c1 } else { c2 };
    let second: usize = if c1 <= c2 { c2 } else { c1 };
    let limit: usize = second.saturating_sub(2);
    let back: usize = if nav_col <= limit { nav_col } else { limit };
    let ghost k1 = align_keys(pty_col as int, second as int);
    align_step(&mut bytes, pty_col, second, Ghost(Seq::empty()));
    assert(Seq::empty() + k1 =~= k1);
    type_step(&mut bytes, Keystroke::DeleteForward, Ghost(k1));
    let ghost k2 = k1.push(Keystroke::DeleteForward);
    align_step(&mut bytes, second, first, Ghost(k2));
    let ghost k3 = k2 + align_keys(second as int, first as int);
    type_step(&mut bytes, Keystroke::DeleteForward, Ghost(k3));
    let ghost k4 = k3.push(Keystroke::DeleteForward);
    align_step(&mut bytes, first, back, Ghost(k4));
    assert(k4 + align_keys(first as int, back as int) =~= delete_surround_keys(
        pty_col as int,
        c1 as int,
        c2 as int,
        nav_col as int,
    ));
    bytes
}

/// The keystrokes that replace the delimiter at `c1` with `open` and the one at
/// `c2` with `close`, the later one first, and bring the cursor to `nav_col`.
pub open spec fn change_surround_keys(
    pty_col: int,
    c1: int,
    open: char,
    c2: int,
    close: char,
    nav_col: int,
) -> Seq<Keystroke> {
    let first = least(c1, c2);
    let second = greatest(c1, c2);
    let first_ch = if c1 <= c2 { open } else { close };
    let second_ch = if c1 <= c2 { close } else { open };
    align_keys(pty_col, second) + seq![Keystroke::DeleteForward, Keystroke::Insert(second_ch)]
        + align_keys(second + 1, first) + seq![Keystroke::DeleteForward, Keystroke::Insert(first_ch)]
        + align_keys(first + 1, nav_col)
}

/// The bytes that replace the delimiter at `c1` with `open` and the one at `c2`
/// with `close`.
pub fn prompt_change_surround_bytes(
    pty_col: usize,
    c1: usize,
    open: char,
    c2: usize,
    close: char,
    nav_col: usize,
) -> (r: Vec<u8>)
    requires
        c1 < usize::MAX,
        c2 < usize::MAX,
    ensures
        r@ == key_bytes(
            change_surround_keys(
                pty_col as int,
                c1 as int,
                open,
                c2 as int,
                close,
                nav_col as int,
            ),
        ),
{
    let mut bytes: Vec<u8> = Vec::new();
    let (first, open_ch, second, close_ch): (usize, char, usize, char) = if c1 <= c2 {
        (c1, open, c2, close)
    } else {
        (c2, close, c1, open)
    };
    let ghost k1 = align_keys(pty_col as int, second as int);
    align_step(&mut bytes, pty_col, second, Ghost(Seq::empty()));
    assert(Seq::empty() + k1 =~= k1);
    type_step(&mut bytes, Keystroke::DeleteForward, Ghost(k1));
    let ghost k2 = k1.push(Keystroke::DeleteForward);
    type_step(&mut bytes, Keystroke::Insert(close_ch), Ghost(k2));
    let ghost k3 = k2.push(Keystroke::Insert(close_ch));
    align_step(&mut bytes, second + 1, first, Ghost(k3));
    let ghost k4 = k3 + align_keys(second + 1, first as int);
    type_step(&mut bytes, Keystroke::DeleteForward, Ghost(k4));
    let ghost k5 = k4.push(Keystroke::DeleteForward);
    type_step(&mut bytes, Keystroke::Insert(open_ch), Ghost(k5));
    let ghost k6 = k5.push(Keystroke::Insert(open_ch));
    align_step(&mut bytes, first + 1, nav_col, Ghost(k6));
    assert(k6 + align_keys(first + 1, nav_col as int) =~= change_surround_keys(
        pty_col as int,
        c1 as int,
        open,
        c2 as int,
        close,
        nav_col as int,
    ));
    bytes
}

/// The keystrokes that put `close` after column `c2` and `open` before column
/// `c1`, and bring the cursor to `nav_col`.
pub open spec fn add_surround_keys(
    pty_col: int,
    c1: int,
    c2: int,
    open: char,
    close: char,
    nav_col: int,
) -> Seq<Keystroke> {
    align_keys(pty_col, c2 + 1).push(Keystroke::Insert(close)) + align_keys(c2 + 2, c1).push(
        Keystroke::Insert(open),
    ) + align_keys(c1 + 1, nav_col)
}

/// The bytes that wrap the columns `c1..=c2` in `open` and `close`.
pub fn prompt_add_surround_bytes(
    pty_col: usize,
    c1: usize,
    c2: usize,
    open: char,
    close: char,
    nav_col: usize,
) -> (r: Vec<u8>)
    requires
        c1 < usize::MAX,
        c2 + 2 <= usize::MAX,
    ensures
        r@ == key_bytes(
            add_surround_keys(
                pty_col as int,
                c1 as int,
                c2 as int,
                open,
                close,
                nav_col as int,
            ),
        ),
{
    let mut bytes: Vec<u8> = Vec::new();
    let ghost k1 = align_keys(pty_col as int, c2 + 1);
    align_step(&mut bytes, pty_col, c2 + 1, Ghost(Seq::empty()));
    assert(Seq::empty() + k1 =~= k1);
    type_step(&mut bytes, Keystroke::Insert(close), Ghost(k1));
    let ghost k2 = k1.push(Keystroke::Insert(close));
    align_step(&mut bytes, c2 + 2, c1, Ghost(k2));
    let ghost k3 = k2 + align_keys(c2 + 2, c1 as int);
    type_step(&mut bytes, Keystroke::Insert(open), Ghost(k3));
    let ghost k4 = k3.push(Keystroke::Insert(open));
    align_step(&mut bytes, c1 + 1, nav_col, Ghost(k4));
    assert(k4 + align_keys(c1 + 1, nav_col as int) =~= add_surround_keys(
        pty_col as int,
        c1 as int,
        c2 as int,
        open,
        close,
        nav_col as int,
    ));
    bytes
}

// ------------------------------------------------------------------------
// The line
// ------------------------------------------------------------------------

/// A line of text with a cursor between its characters.
#[verifier::ext_equal]
pub struct LineView {
    pub cursor: int,
    pub text: Seq<char>,
}

/// Where the run of characters that end before `i` and are all white, or all
/// not, begins.
pub open spec fn run_start(text: Seq<char>, i: int, white: bool) -> int
    decreases i,
{
    if 0 < i <= text.len() && is_white(text[i - 1]) == white {
        run_start(text, i - 1, white)
    } else {
        i
    }
}

/// Where the run of characters from `i` that are all white, or all not, ends.
pub open spec fn run_end(text: Seq<char>, i: int, white: bool) -> int
    decreases text.len() - i,
{
    if 0 <= i < text.len() && is_white(text[i]) == white {
        run_end(text, i + 1, white)
    } else {
        i
    }
}

/// Where the whitespace-delimited word that ends at `i` begins: back over white
/// space, then over the word.
pub open spec fn word_start(text: Seq<char>, i: int) -> int {
    run_start(text, run_start(text, i, true), false)
}

/// Where the whitespace-delimited word that starts at `i` ends: over the word,
/// then over the white space after it.
pub open spec fn word_stop(text: Seq<char>, i: int) -> int {
    run_end(text, run_end(text, i, false), true)
}

impl LineView {
    /// The cursor stands between two characters, or at an end.
    pub open spec fn wf(self) -> bool {
        0 <= self.cursor <= self.text.len()
    }

    pub open spec fn empty() -> LineView {
        LineView { cursor: 0, text: Seq::empty() }
    }

    /// The line without the characters from `from` up to `to`, and the cursor at
    /// `from`.
    pub open spec fn cut(self, from: int, to: int) -> LineView {
        LineView {
            cursor: from,
            text: self.text.take(from) + self.text.skip(to),
        }
    }

    pub open spec fn typed(self, c: char) -> LineView {
        let at = least(self.cursor, self.text.len() as int);
        LineView { cursor: at + 1, text: self.text.insert(at, c) }
    }

    pub open spec fn backspaced(self) -> LineView {
        if self.cursor == 0 {
            self
        } else {
            self.cut(self.cursor - 1, self.cursor)
        }
    }

    pub open spec fn deleted_forward(self) -> LineView {
        if self.cursor < self.text.len() {
            self.cut(self.cursor, self.cursor + 1)
        } else {
            self
        }
    }

    pub open spec fn at(self, cursor: int) -> LineView {
        LineView { cursor, text: self.text }
    }

    pub open spec fn moved_left(self) -> LineView {
        self.at(minus(self.cursor, 1))
    }

    pub open spec fn moved_right(self) -> LineView {
        self.at(least(self.cursor + 1, self.text.len() as int))
    }

    pub open spec fn killed_to_start(self) -> LineView {
        self.cut(0, least(self.cursor, self.text.len() as int))
    }

    pub open spec fn killed_to_end(self) -> LineView {
        self.cut(least(self.cursor, self.text.len() as int), self.text.len() as int)
    }

    pub open spec fn killed_word_back(self) -> LineView {
        self.cut(word_start(self.text, self.cursor), self.cursor)
    }

    pub open spec fn killed_word_forward(self) -> LineView {
        self.cut(self.cursor, word_stop(self.text, self.cursor))
    }

    /// What the Vim operator `op` leaves when its target stands before the
    /// character at index `at`.
    pub open spec fn after_delete(self, op: PromptDelete, at: int) -> LineView {
        let len = self.text.len() as int;
        match op {
            PromptDelete::CharForward => if at < len {
                self.cut(at, at + 1)
            } else {
                self
            },
            PromptDelete::Line => LineView::empty(),
            PromptDelete::Range { start_col, end_col } => {
                let count = range_len(start_col as int, end_col as int);
                if at < len && count > 0 {
                    self.cut(at, least(at + count, len))
                } else {
                    self
                }
            },
            PromptDelete::ToLineEnd => self.cut(at, len),
            PromptDelete::ToLineStart => self.cut(0, at),
            PromptDelete::WordBack => self.cut(word_start(self.text, at), at),
            PromptDelete::WordForward => self.cut(at, word_stop(self.text, at)),
        }
    }

    /// What the line editor makes of one keystroke.
    pub open spec fn after_key(self, k: Keystroke) -> LineView {
        match k {
            Keystroke::DeleteForward => self.deleted_forward(),
            Keystroke::Home => self.at(0),
            Keystroke::KillToEnd => self.killed_to_end(),
            Keystroke::KillToStart => self.killed_to_start(),
            Keystroke::KillWordBack => self.killed_word_back(),
            Keystroke::KillWordForward => self.killed_word_forward(),
            Keystroke::Left => self.moved_left(),
            Keystroke::PasteEnd => self,
            Keystroke::PasteStart => self,
            Keystroke::Right => self.moved_right(),
            Keystroke::Insert(c) => self.typed(c),
        }
    }

    /// What the line editor makes of `keys`, one after the other.
    pub open spec fn after_keys(self, keys: Seq<Keystroke>) -> LineView
        decreases keys.len(),
    {
        if keys.len() == 0 {
            self
        } else {
            self.after_keys(keys.drop_last()).after_key(keys.last())
        }
    }
}

proof fn lemma_runs(text: Seq<char>, i: int, white: bool)
    requires
        0 <= i <= text.len(),
    ensures
        0 <= run_start(text, i, white) <= i,
    decreases i,
{
    if i > 0 && is_white(text[i - 1]) == white {
        lemma_runs(text, i - 1, white);
    }
}

proof fn lemma_run_end(text: Seq<char>, i: int, white: bool)
    requires
        0 <= i <= text.len(),
    ensures
        i <= run_end(text, i, white) <= text.len(),
    decreases text.len() - i,
{
    if i < text.len() && is_white(text[i]) == white {
        lemma_run_end(text, i + 1, white);
    }
}

/// The word before a position begins at or before it, and the word after it ends
/// at or after it, within the text.
pub proof fn lemma_word_bounds(text: Seq<char>, i: int)
    requires
        0 <= i <= text.len(),
    ensures
        0 <= word_start(text, i) <= i,
        i <= word_stop(text, i) <= text.len(),
{
    lemma_runs(text, i, true);
    lemma_runs(text, run_start(text, i, true), false);
    lemma_run_end(text, i, false);
    lemma_run_end(text, run_end(text, i, false), true);
}

/// The char index where the whitespace-delimited word ending at `cursor` begins:
/// skip trailing white space, then the word.
pub fn word_start_before(text: &str, cursor: usize) -> (r: usize)
    ensures
        r == word_start(text@, least(cursor as int, text@.len() as int)),
{
    let chars = chars_of(text);
    let mut i: usize = if cursor <= chars.len() { cursor } else { chars.len() };
    let ghost start = i as int;
    while i > 0 && chars[i - 1].is_whitespace()
        invariant
            i <= chars@.len(),
            chars@ == text@,
            run_start(text@, start, true) == run_start(text@, i as int, true),
        decreases i,
    {
        i = i - 1;
    }
    assert(run_start(text@, i as int, true) == i);
    let ghost middle = i as int;
    while i > 0 && !chars[i - 1].is_whitespace()
        invariant
            i <= chars@.len(),
            chars@ == text@,
            run_start(text@, middle, false) == run_start(text@, i as int, false),
        decreases i,
    {
        i = i - 1;
    }
    i
}

/// The char index where the whitespace-delimited word starting at `cursor` ends:
/// skip the word, then the white space after it.
pub fn word_end_after(text: &str, cursor: usize) -> (r: usize)
    ensures
        r == word_stop(text@, least(cursor as int, text@.len() as int)),
{
    let chars = chars_of(text);
    let mut i: usize = if cursor <= chars.len() { cursor } else { chars.len() };
    let ghost start = i as int;
    while i < chars.len() && !chars[i].is_whitespace()
        invariant
            i <= chars@.len(),
            chars@ == text@,
            run_end(text@, start, false) == run_end(text@, i as int, false),
        decreases chars@.len() - i,
    {
        i = i + 1;
    }
    assert(run_end(text@, i as int, false) == i);
    let ghost middle = i as int;
    while i < chars.len() && chars[i].is_whitespace()
        invariant
            i <= chars@.len(),
            chars@ == text@,
            run_end(text@, middle, true) == run_end(text@, i as int, true),
        decreases chars@.len() - i,
    {
        i = i + 1;
    }
    i
}

/// A model of the editable prompt line, in characters: what the shell's line
/// editor is believed to hold. `cursor` is an index between characters.
#[derive(Debug)]
pub struct PromptLine {
    pub cursor: usize,
    pub text: String,
}

impl View for PromptLine {
    type V = LineView;

    open spec fn view(&self) -> LineView {
        LineView { cursor: self.cursor as int, text: self.text@ }
    }
}

impl Clone for PromptLine {
    fn clone(&self) -> (r: Self)
        ensures
            r == *self,
    {
        PromptLine { cursor: self.cursor, text: self.text.clone() }
    }
}

/// The empty line.
impl Default for PromptLine {
    fn default() -> (r: Self)
        ensures
            r@ == LineView::empty(),
    {
        PromptLine { cursor: 0, text: String::new() }
    }
}

/// A change to a [`PromptLine`], or a motion on it.
#[derive(Clone, Copy, Debug, PartialEq, Eq, Structural)]
pub enum LineOp {
    Backspace,
    DeleteForward,
    InsertChar(char),
    KillToEnd,
    KillToStart,
    KillWordBack,
    KillWordForward,
    MoveEnd,
    MoveHome,
    MoveLeft,
    MoveRight,
}

impl LineView {
    /// What `op` leaves.
    pub open spec fn after_op(self, op: LineOp) -> LineView {
        match op {
            LineOp::Backspace => self.backspaced(),
            LineOp::DeleteForward => self.deleted_forward(),
            LineOp::InsertChar(c) => self.typed(c),
            LineOp::KillToEnd => self.killed_to_end(),
            LineOp::KillToStart => self.killed_to_start(),
            LineOp::KillWordBack => self.killed_word_back(),
            LineOp::KillWordForward => self.killed_word_forward(),
            LineOp::MoveEnd => self.at(self.text.len() as int),
            LineOp::MoveHome => self.at(0),
            LineOp::MoveLeft => self.moved_left(),
            LineOp::MoveRight => self.moved_right(),
        }
    }
}

impl PromptLine {
    /// How many characters the line holds.
    pub fn len(&self) -> (r: usize)
        ensures
            r == self@.text.len(),
    {
        chars_of(self.text.as_str()).len()
    }

    /// Make the line `chars`, with the cursor at `cursor` or at the end.
    pub fn set(&mut self, chars: Vec<char>, cursor: usize)
        ensures
            final(self)@.text == chars@,
            final(self)@.cursor == least(cursor as int, chars@.len() as int),
    {
        self.text = string_of(&chars);
        self.cursor = if cursor <= chars.len() { cursor } else { chars.len() };
    }

    /// Take out the characters from `from` up to `to`.
    fn cut(&mut self, from: usize, to: usize)
        requires
            from <= to <= old(self)@.text.len(),
        ensures
            final(self)@ == old(self)@.cut(from as int, to as int),
    {
        let chars = chars_of(self.text.as_str());
        let mut kept = chars_range(&chars, 0, from);
        let rest = chars_range(&chars, to, chars.len());
        append_chars(&mut kept, &rest);
        assert(kept@ =~= chars@.take(from as int) + chars@.skip(to as int));
        self.set(kept, from);
    }

    /// Insert `c` at the cursor and step past it.
    pub fn insert_char(&mut self, c: char)
        ensures
            final(self)@ == old(self)@.typed(c),
    {
        let mut chars = chars_of(self.text.as_str());
        let at: usize = if self.cursor <= chars.len() { self.cursor } else { chars.len() };
        chars.insert(at, c);
        assert(at + 1 <= chars.len());
        self.set(chars, at + 1);
    }

    /// Delete the character before the cursor.
    pub fn backspace(&mut self)
        requires
            old(self)@.wf(),
        ensures
            final(self)@ == old(self)@.backspaced(),
    {
        if self.cursor == 0 {
            return;
        }
        let cursor: usize = self.cursor;
        self.cut(cursor - 1, cursor);
    }

    /// Delete the character after the cursor.
    pub fn delete_forward(&mut self)
        ensures
            final(self)@ == old(self)@.deleted_forward(),
    {
        let len: usize = self.len();
        if self.cursor < len {
            let cursor: usize = self.cursor;
            self.cut(cursor, cursor + 1);
        }
    }

    pub fn move_left(&mut self)
        ensures
            final(self)@ == old(self)@.moved_left(),
    {
        self.cursor = self.cursor.saturating_sub(1);
    }

    pub fn move_right(&mut self)
        ensures
            final(self)@ == old(self)@.moved_right(),
    {
        let len: usize = self.len();
        self.cursor = if self.cursor < len { self.cursor + 1 } else { len };
    }

    pub fn move_home(&mut self)
        ensures
            final(self)@ == old(self)@.at(0),
    {
        self.cursor = 0;
    }

    pub fn move_end(&mut self)
        ensures
            final(self)@ == old(self)@.at(old(self)@.text.len() as int),
    {
        self.cursor = self.len();
    }

    /// Delete everything before the cursor.
    pub fn kill_to_start(&mut self)
        ensures
            final(self)@ == old(self)@.killed_to_start(),
    {
        let len: usize = self.len();
        let to: usize = if self.cursor <= len { self.cursor } else { len };
        self.cut(0, to);
    }

    /// Delete everything after the cursor.
    pub fn kill_to_end(&mut self)
        ensures
            final(self)@ == old(self)@.killed_to_end(),
    {
        let len: usize = self.len();
        let from: usize = if self.cursor <= len { self.cursor } else { len };
        self.cut(from, len);
    }

    /// Delete the word before the cursor.
    pub fn kill_word_back(&mut self)
        requires
            old(self)@.wf(),
        ensures
            final(self)@ == old(self)@.killed_word_back(),
    {
        proof {
            lemma_word_bounds(self@.text, self@.cursor);
        }
        let cursor: usize = self.cursor;
        let start: usize = word_start_before(self.text.as_str(), cursor);
        self.cut(start, cursor);
    }

    /// Delete the word after the cursor.
    pub fn kill_word_forward(&mut self)
        requires
            old(self)@.wf(),
        ensures
            final(self)@ == old(self)@.killed_word_forward(),
    {
        proof {
            lemma_word_bounds(self@.text, self@.cursor);
        }
        let cursor: usize = self.cursor;
        let end: usize = word_end_after(self.text.as_str(), cursor);
        self.cut(cursor, end);
    }

    /// Apply a Vim delete operator with its target at char index `at`, mirroring
    /// the edit [`prompt_delete_bytes`] sends for the same operator.
    pub fn apply_delete(&mut self, op: PromptDelete, at: usize)
        requires
            at <= old(self)@.text.len(),
        ensures
            final(self)@ == old(self)@.after_delete(op, at as int),
    {
        let len: usize = self.len();
        proof {
            lemma_word_bounds(self@.text, at as int);
        }
        match op {
            PromptDelete::CharForward => {
                if at < len {
                    self.cut(at, at + 1);
                }
            },
            PromptDelete::Line => {
                self.set(Vec::new(), 0);
                assert(self@ =~= LineView::empty());
            },
            PromptDelete::Range { start_col, end_col } => {
                if at < len && end_col >= start_col {
                    let span: usize = end_col - start_col;
                    let to: usize = if span < len - at { at + span + 1 } else { len };
                    self.cut(at, to);
                }
            },
            PromptDelete::ToLineEnd => self.cut(at, len),
            PromptDelete::ToLineStart => self.cut(0, at),
            PromptDelete::WordBack => {
                let start: usize = word_start_before(self.text.as_str(), at);
                self.cut(start, at);
            },
            PromptDelete::WordForward => {
                let end: usize = word_end_after(self.text.as_str(), at);
                self.cut(at, end);
            },
        }
    }

    /// Carry out `op`.
    pub fn apply(&mut self, op: LineOp)
        requires
            old(self)@.wf(),
        ensures
            final(self)@ == old(self)@.after_op(op),
    {
        match op {
            LineOp::Backspace => self.backspace(),
            LineOp::DeleteForward => self.delete_forward(),
            LineOp::InsertChar(c) => self.insert_char(c),
            LineOp::KillToEnd => self.kill_to_end(),
            LineOp::KillToStart => self.kill_to_start(),
            LineOp::KillWordBack => self.kill_word_back(),
            LineOp::KillWordForward => self.kill_word_forward(),
            LineOp::MoveEnd => self.move_end(),
            LineOp::MoveHome => self.move_home(),
            LineOp::MoveLeft => self.move_left(),
            LineOp::MoveRight => self.move_right(),
        }
    }
}

// ------------------------------------------------------------------------
// The shadow
// ------------------------------------------------------------------------

/// Whether a tracked edit added or removed text. Consecutive inserts make one
/// undo step; every removal is a step of its own.
#[derive(Clone, Copy, Debug, PartialEq, Eq, Structural)]
pub enum EditKind {
    Delete,
    Insert,
}

/// Undo and redo over a pane's [`PromptLine`].
///
/// Tracking goes on while the shadow is trusted to match the shell: from the
/// start, again from an empty line when a fresh prompt follows, and no longer
/// once something happens that is not modelled. While it is off, undo and redo
/// do nothing, so a stale model never rewrites the real line.
pub struct PromptShadow {
    active: bool,
    history: EditHistory<PromptLine>,
    last_kind: Option<EditKind>,
}

/// What a [`PromptShadow`] holds.
pub struct ShadowView {
    pub active: bool,
    pub history: HistoryView<LineView>,
    pub last_kind: Option<EditKind>,
}

/// The lines of a history, each by its view.
pub open spec fn line_views(lines: Seq<PromptLine>) -> Seq<LineView> {
    Seq::new(lines.len(), |i: int| lines[i]@)
}

/// A history of lines, each by its view.
pub open spec fn history_views(h: HistoryView<PromptLine>) -> HistoryView<LineView> {
    HistoryView {
        past: line_views(h.past),
        current: h.current@,
        future: line_views(h.future),
    }
}

impl View for PromptShadow {
    type V = ShadowView;

    closed spec fn view(&self) -> ShadowView {
        ShadowView {
            active: self.active,
            history: history_views(self.history@),
            last_kind: self.last_kind,
        }
    }
}

impl ShadowView {
    /// Every line the history holds has its cursor within it.
    pub open spec fn wf(self) -> bool {
        &&& self.history.current.wf()
        &&& forall|i: int| 0 <= i < self.history.past.len() ==> (#[trigger] self.history.past[i]).wf()
        &&& forall|i: int|
            0 <= i < self.history.future.len() ==> (#[trigger] self.history.future[i]).wf()
    }

    /// Tracking from an empty line.
    pub open spec fn fresh() -> ShadowView {
        ShadowView {
            active: true,
            history: HistoryView::started(LineView::empty()),
            last_kind: None,
        }
    }

    /// No longer trusted; the history is kept.
    pub open spec fn desynced(self) -> ShadowView {
        ShadowView { active: false, last_kind: None, ..self }
    }

    /// `next` recorded, as part of the step before when both are inserts.
    pub open spec fn pushed(self, next: LineView, kind: EditKind) -> ShadowView {
        ShadowView {
            history: if self.last_kind == Some(EditKind::Insert) && kind == EditKind::Insert {
                self.history.amended(next)
            } else {
                self.history.recorded(next)
            },
            last_kind: Some(kind),
            ..self
        }
    }

    /// An edit of the line.
    pub open spec fn edited(self, op: LineOp, kind: EditKind) -> ShadowView {
        if self.active {
            self.pushed(self.history.current.after_op(op), kind)
        } else {
            self
        }
    }

    /// A motion: no step of its own, but the end of a run of inserts.
    pub open spec fn moved(self, op: LineOp) -> ShadowView {
        if self.active {
            ShadowView {
                history: self.history.amended(self.history.current.after_op(op)),
                last_kind: None,
                ..self
            }
        } else {
            self
        }
    }

    /// What an Insert-mode key does.
    pub open spec fn after_insert_key(self, key: Key, at_prompt: bool) -> ShadowView {
        if !at_prompt || key.alt {
            self.desynced()
        } else if key.ctrl {
            match key.code {
                KeyCode::Char('a') => self.moved(LineOp::MoveHome),
                KeyCode::Char('e') => self.moved(LineOp::MoveEnd),
                KeyCode::Char('u') => self.edited(LineOp::KillToStart, EditKind::Delete),
                KeyCode::Char('k') => self.edited(LineOp::KillToEnd, EditKind::Delete),
                KeyCode::Char('w') => self.edited(LineOp::KillWordBack, EditKind::Delete),
                KeyCode::Char('d') => self.edited(LineOp::DeleteForward, EditKind::Delete),
                KeyCode::Char('c') => ShadowView::fresh(),
                KeyCode::Char('/') => self,
                KeyCode::Char('\\') => self,
                _ => self.desynced(),
            }
        } else {
            match key.code {
                KeyCode::Char(c) => self.edited(LineOp::InsertChar(c), EditKind::Insert),
                KeyCode::Space => self.edited(LineOp::InsertChar(' '), EditKind::Insert),
                KeyCode::Backspace => self.edited(LineOp::Backspace, EditKind::Delete),
                KeyCode::Delete => self.edited(LineOp::DeleteForward, EditKind::Delete),
                KeyCode::Left => self.moved(LineOp::MoveLeft),
                KeyCode::Right => self.moved(LineOp::MoveRight),
                KeyCode::Home => self.moved(LineOp::MoveHome),
                KeyCode::End => self.moved(LineOp::MoveEnd),
                KeyCode::Enter => ShadowView::fresh(),
                _ => self.desynced(),
            }
        }
    }

    /// What a configurable line edit does.
    pub open spec fn after_edit_action(self, action: EditAction, at_prompt: bool) -> ShadowView {
        if !at_prompt {
            self.desynced()
        } else {
            self.edited(edit_action_op(action), EditKind::Delete)
        }
    }

    /// The char index at column `col`: the shadow's cursor moved by the gap to the
    /// shell cursor's column, kept within the line.
    pub open spec fn nav_index(self, col: int, pty_col: int) -> int {
        clamped(
            self.history.current.cursor + col - pty_col,
            0,
            self.history.current.text.len() as int,
        )
    }

    /// What a Normal-mode delete does.
    pub open spec fn after_normal_delete(
        self,
        op: PromptDelete,
        nav_col: int,
        pty_col: int,
    ) -> ShadowView {
        if self.active {
            self.pushed(
                self.history.current.after_delete(
                    op,
                    self.nav_index(target_col(op, nav_col), pty_col),
                ),
                EditKind::Delete,
            )
        } else {
            self
        }
    }

    /// The cursor realigned with the shell's.
    pub open spec fn cursor_synced(self, nav_col: int, pty_col: int) -> ShadowView {
        if self.active {
            ShadowView {
                history: self.history.amended(
                    self.history.current.at(self.nav_index(nav_col, pty_col)),
                ),
                last_kind: None,
                ..self
            }
        } else {
            self
        }
    }

    /// One undo step, when tracking and when there is one.
    pub open spec fn stepped_back(self) -> ShadowView {
        if self.active && self.history.past.len() > 0 {
            ShadowView { history: self.history.undone(), last_kind: None, ..self }
        } else {
            self
        }
    }

    /// One redo step, when tracking and when there is one.
    pub open spec fn stepped_forward(self) -> ShadowView {
        if self.active && self.history.future.len() > 0 {
            ShadowView { history: self.history.redone(), last_kind: None, ..self }
        } else {
            self
        }
    }
}

/// The line edit a configurable action stands for.
pub open spec fn edit_action_op(action: EditAction) -> LineOp {
    match action {
        EditAction::DeleteToLineEnd => LineOp::KillToEnd,
        EditAction::DeleteToLineStart => LineOp::KillToStart,
        EditAction::DeleteWordBackward => LineOp::KillWordBack,
        EditAction::DeleteWordForward => LineOp::KillWordForward,
    }
}

proof fn lemma_views(h: HistoryView<PromptLine>)
    ensures
        forall|next: PromptLine|
            #![trigger h.recorded(next)]
            history_views(h.recorded(next)) == history_views(h).recorded(next@),
        forall|next: PromptLine|
            #![trigger h.amended(next)]
            history_views(h.amended(next)) == history_views(h).amended(next@),
        history_views(h.undone()) == history_views(h).undone(),
        history_views(h.redone()) == history_views(h).redone(),
        forall|next: PromptLine|
            #![trigger HistoryView::started(next)]
            history_views(HistoryView::started(next)) == HistoryView::started(next@),
{
    assert forall|next: PromptLine|
        #![trigger h.recorded(next)]
        history_views(h.recorded(next)) == history_views(h).recorded(next@) by {
        assert(line_views(h.past.push(h.current)) =~= line_views(h.past).push(h.current@));
        assert(line_views(Seq::empty()) =~= Seq::empty());
    }
    assert forall|next: PromptLine|
        #![trigger HistoryView::started(next)]
        history_views(HistoryView::started(next)) == HistoryView::started(next@) by {
        assert(line_views(Seq::empty()) =~= Seq::empty());
    }
    if h.past.len() > 0 {
        assert(line_views(h.past.drop_last()) =~= line_views(h.past).drop_last());
        assert(line_views(seq![h.current] + h.future) =~= seq![h.current@] + line_views(h.future));
    }
    if h.future.len() > 0 {
        assert(line_views(h.future.drop_first()) =~= line_views(h.future).drop_first());
        assert(line_views(h.past.push(h.current)) =~= line_views(h.past).push(h.current@));
    }
}

/// An operation leaves the cursor within the line.
pub proof fn law_ops_keep_the_cursor_in_the_line(line: LineView, op: LineOp)
    requires
        line.wf(),
    ensures
        line.after_op(op).wf(),
{
    lemma_word_bounds(line.text, line.cursor);
}

/// A Vim delete leaves the cursor within the line.
pub proof fn law_deletes_keep_the_cursor_in_the_line(line: LineView, op: PromptDelete, at: int)
    requires
        line.wf(),
        0 <= at <= line.text.len(),
    ensures
        line.after_delete(op, at).wf(),
{
    lemma_word_bounds(line.text, at);
}

/// A shadow that tracks from an empty line.
impl Default for PromptShadow {
    fn default() -> (r: Self)
        ensures
            r@ == ShadowView::fresh(),
            r@.wf(),
    {
        let r = PromptShadow {
            active: true,
            history: EditHistory::new(PromptLine::default()),
            last_kind: None,
        };
        proof {
            lemma_views(r.history@);
        }
        r
    }
}

impl PromptShadow {
    /// The line as the shadow has it.
    pub fn current(&self) -> (r: &PromptLine)
        ensures
            r@ == self@.history.current,
    {
        self.history.current()
    }

    /// Track again from an empty line, the state of the prompt after a command
    /// is submitted.
    pub fn rearm_empty(&mut self)
        ensures
            final(self)@ == ShadowView::fresh(),
            final(self)@.wf(),
    {
        self.history.reset(PromptLine::default());
        self.active = true;
        self.last_kind = None;
        proof {
            lemma_views(self.history@);
        }
    }

    /// Stop trusting the shadow until the next fresh prompt. The history is kept
    /// but undo and redo do nothing.
    pub fn desync(&mut self)
        ensures
            final(self)@ == old(self)@.desynced(),
            old(self)@.wf() ==> final(self)@.wf(),
    {
        self.active = false;
        self.last_kind = None;
    }

    /// Fold one Insert-mode key into the shadow. `at_prompt` is the pane's live
    /// shell-integration state; off the prompt the shadow cannot be trusted.
    pub fn apply_insert_key(&mut self, key: &Key, at_prompt: bool)
        requires
            old(self)@.wf(),
        ensures
            final(self)@ == old(self)@.after_insert_key(*key, at_prompt),
            final(self)@.wf(),
    {
        if !at_prompt || key.alt {
            self.desync();
            return;
        }
        if key.ctrl {
            match key.code {
                KeyCode::Char('a') => self.cursor_op(LineOp::MoveHome),
                KeyCode::Char('e') => self.cursor_op(LineOp::MoveEnd),
                KeyCode::Char('u') => self.edit_op(LineOp::KillToStart, EditKind::Delete),
                KeyCode::Char('k') => self.edit_op(LineOp::KillToEnd, EditKind::Delete),
                KeyCode::Char('w') => self.edit_op(LineOp::KillWordBack, EditKind::Delete),
                // Ctrl-D on a line that is not empty deletes forward.
                KeyCode::Char('d') => self.edit_op(LineOp::DeleteForward, EditKind::Delete),
                // An interrupt drops the line and draws a fresh prompt.
                KeyCode::Char('c') => self.rearm_empty(),
                // Undo and redo arrive as actions, not as keys.
                KeyCode::Char('/') => {},
                KeyCode::Char('\\') => {},
                _ => self.desync(),
            }
            return;
        }
        match key.code {
            KeyCode::Char(c) => self.edit_op(LineOp::InsertChar(c), EditKind::Insert),
            KeyCode::Space => self.edit_op(LineOp::InsertChar(' '), EditKind::Insert),
            KeyCode::Backspace => self.edit_op(LineOp::Backspace, EditKind::Delete),
            KeyCode::Delete => self.edit_op(LineOp::DeleteForward, EditKind::Delete),
            KeyCode::Left => self.cursor_op(LineOp::MoveLeft),
            KeyCode::Right => self.cursor_op(LineOp::MoveRight),
            KeyCode::Home => self.cursor_op(LineOp::MoveHome),
            KeyCode::End => self.cursor_op(LineOp::MoveEnd),
            KeyCode::Enter => self.rearm_empty(),
            _ => self.desync(),
        }
    }

    /// Fold a configurable Insert-mode line edit into the shadow. The matching
    /// bytes are [`edit_action_bytes`].
    pub fn apply_edit_action(&mut self, action: EditAction, at_prompt: bool)
        requires
            old(self)@.wf(),
        ensures
            final(self)@ == old(self)@.after_edit_action(action, at_prompt),
            final(self)@.wf(),
    {
        if !at_prompt {
            self.desync();
            return;
        }
        match action {
            EditAction::DeleteToLineEnd => self.edit_op(LineOp::KillToEnd, EditKind::Delete),
            EditAction::DeleteToLineStart => self.edit_op(LineOp::KillToStart, EditKind::Delete),
            EditAction::DeleteWordBackward => self.edit_op(LineOp::KillWordBack, EditKind::Delete),
            EditAction::DeleteWordForward => {
                self.edit_op(LineOp::KillWordForward, EditKind::Delete)
            },
        }
    }

    /// The char index under the Vim cursor.
    fn index_under(&self, nav_col: usize, pty_col: usize) -> (r: usize)
        ensures
            r == self@.nav_index(nav_col as int, pty_col as int),
    {
        let line = self.history.current();
        let len: usize = line.len();
        let target: i128 = line.cursor as i128 + nav_col as i128 - pty_col as i128;
        if target < 0 {
            0
        } else if target > len as i128 {
            len
        } else {
            target as usize
        }
    }

    /// Mirror a Normal-mode delete operator into the shadow. `nav_col` and
    /// `pty_col` are the grid columns of the Vim cursor and the shell cursor;
    /// their gap maps the operator's target to a character.
    pub fn record_normal_delete(&mut self, op: PromptDelete, nav_col: usize, pty_col: usize)
        requires
            old(self)@.wf(),
        ensures
            final(self)@ == old(self)@.after_normal_delete(op, nav_col as int, pty_col as int),
            final(self)@.wf(),
    {
        if !self.active {
            return;
        }
        let at: usize = self.index_under(delete_target(op, nav_col), pty_col);
        let mut next = self.history.current().clone();
        proof {
            law_deletes_keep_the_cursor_in_the_line(next@, op, at as int);
        }
        next.apply_delete(op, at);
        self.push(next, EditKind::Delete);
    }

    /// Realign the shadow's cursor with the shell's when Insert mode is entered
    /// again after Normal-mode navigation.
    pub fn sync_cursor(&mut self, nav_col: usize, pty_col: usize)
        requires
            old(self)@.wf(),
        ensures
            final(self)@ == old(self)@.cursor_synced(nav_col as int, pty_col as int),
            final(self)@.wf(),
    {
        if !self.active {
            return;
        }
        let at: usize = self.index_under(nav_col, pty_col);
        let mut line = self.history.current().clone();
        line.cursor = at;
        proof {
            lemma_views(self.history@);
        }
        self.history.amend(line);
        self.last_kind = None;
    }

    /// Move the undo pointer back one step. The edit itself is the shell's own
    /// undo, [`READLINE_UNDO`]; this only follows it. Returns whether there was a
    /// step.
    pub fn step_back(&mut self) -> (r: bool)
        requires
            old(self)@.wf(),
        ensures
            r == (old(self)@.active && old(self)@.history.past.len() > 0),
            final(self)@ == old(self)@.stepped_back(),
            final(self)@.wf(),
    {
        if !self.active {
            return false;
        }
        proof {
            lemma_views(self.history@);
        }
        let stepped = self.history.undo().is_some();
        if stepped {
            self.last_kind = None;
        }
        stepped
    }

    /// Step forward and return the line that the caller is to rebuild, or `None`
    /// when there is nothing to redo.
    pub fn redo_target(&mut self) -> (r: Option<PromptLine>)
        requires
            old(self)@.wf(),
        ensures
            final(self)@ == old(self)@.stepped_forward(),
            final(self)@.wf(),
            match r {
                Some(line) => {
                    &&& old(self)@.active
                    &&& old(self)@.history.future.len() > 0
                    &&& line@ == final(self)@.history.current
                },
                None => !(old(self)@.active && old(self)@.history.future.len() > 0),
            },
    {
        if !self.active {
            return None;
        }
        proof {
            lemma_views(self.history@);
        }
        let target = match self.history.redo() {
            Some(line) => line.clone(),
            None => {
                return None;
            },
        };
        self.last_kind = None;
        Some(target)
    }

    /// Carry out an edit on the tracked line.
    pub fn edit_op(&mut self, op: LineOp, kind: EditKind)
        requires
            old(self)@.wf(),
        ensures
            final(self)@ == old(self)@.edited(op, kind),
            final(self)@.wf(),
    {
        if !self.active {
            return;
        }
        let mut line = self.history.current().clone();
        proof {
            law_ops_keep_the_cursor_in_the_line(line@, op);
        }
        line.apply(op);
        self.push(line, kind);
    }

    /// Carry out a motion on the tracked line.
    pub fn cursor_op(&mut self, op: LineOp)
        requires
            old(self)@.wf(),
        ensures
            final(self)@ == old(self)@.moved(op),
            final(self)@.wf(),
    {
        if !self.active {
            return;
        }
        let mut line = self.history.current().clone();
        proof {
            law_ops_keep_the_cursor_in_the_line(line@, op);
            lemma_views(self.history@);
        }
        line.apply(op);
        self.history.amend(line);
        self.last_kind = None;
    }

    /// Record `next`, making a run of inserts one undo step.
    pub fn push(&mut self, next: PromptLine, kind: EditKind)
        requires
            old(self)@.wf(),
            next@.wf(),
        ensures
            final(self)@ == old(self)@.pushed(next@, kind),
            final(self)@.wf(),
    {
        proof {
            lemma_views(self.history@);
        }
        if self.last_kind == Some(EditKind::Insert) && kind == EditKind::Insert {
            self.history.amend(next);
        } else {
            self.history.record(next);
        }
        self.last_kind = Some(kind);
    }
}

// ------------------------------------------------------------------------
// Rebuilding the line
// ------------------------------------------------------------------------

/// The keystroke that types `c`.
pub open spec fn insert_key(c: char) -> Keystroke {
    Keystroke::Insert(c)
}

/// The keystrokes that type `text`.
pub open spec fn typing_keys(text: Seq<char>) -> Seq<Keystroke>
    decreases text.len(),
{
    if text.len() == 0 {
        Seq::empty()
    } else {
        typing_keys(text.drop_last()).push(insert_key(text.last()))
    }
}

proof fn lemma_encode_concat(a: Seq<char>, b: Seq<char>)
    ensures
        encode_utf8(a + b) == encode_utf8(a) + encode_utf8(b),
    decreases a.len(),
{
    if a.len() == 0 {
        assert(a + b =~= b);
        assert(encode_utf8(a) + encode_utf8(b) =~= encode_utf8(b));
    } else {
        assert((a + b).drop_first() =~= a.drop_first() + b);
        lemma_encode_concat(a.drop_first(), b);
        assert(encode_utf8(a + b) =~= encode_utf8(a) + encode_utf8(b));
    }
}

/// The keystrokes that make whatever line there is become `target`: clear it,
/// type the text (as one paste when the terminal brackets pastes), and walk the
/// cursor left to its place.
pub open spec fn rebuild_keys(target: LineView, bracketed: bool) -> Seq<Keystroke> {
    let text = typing_keys(target.text);
    let inserted = if bracketed {
        seq![Keystroke::PasteStart] + text + seq![Keystroke::PasteEnd]
    } else {
        text
    };
    seq![Keystroke::Home, Keystroke::KillToEnd] + inserted + repeated(
        Keystroke::Left,
        minus(target.text.len() as int, target.cursor),
    )
}

pub proof fn lemma_typing_bytes(text: Seq<char>)
    ensures
        key_bytes(typing_keys(text)) == encode_utf8(text),
    decreases text.len(),
{
    if text.len() == 0 {
        assert(key_bytes(typing_keys(text)) =~= encode_utf8(text));
    } else {
        lemma_typing_bytes(text.drop_last());
        lemma_key_bytes_push(typing_keys(text.drop_last()), insert_key(text.last()));
        lemma_encode_concat(text.drop_last(), seq![text.last()]);
        assert(text.drop_last() + seq![text.last()] =~= text);
    }
}

/// The bytes that make the live line become `target`, used by redo.
///
/// The line cannot be trusted to match the shadow, so it is rebuilt whole, and
/// the text is inserted in one operation where the terminal brackets pastes.
pub fn rebuild_line_bytes(target: &PromptLine, bracketed: bool) -> (r: Vec<u8>)
    ensures
        r@ == key_bytes(rebuild_keys(target@, bracketed)),
{
    let mut bytes: Vec<u8> = Vec::new();
    let ghost k0 = Seq::<Keystroke>::empty();
    type_step(&mut bytes, Keystroke::Home, Ghost(k0));
    let ghost k1 = k0.push(Keystroke::Home);
    type_step(&mut bytes, Keystroke::KillToEnd, Ghost(k1));
    let ghost mut keys = k1.push(Keystroke::KillToEnd);
    if bracketed {
        type_step(&mut bytes, Keystroke::PasteStart, Ghost(keys));
        proof {
            keys = keys.push(Keystroke::PasteStart);
        }
    }
    append_bytes(&mut bytes, target.text.as_str().as_bytes());
    proof {
        lemma_typing_bytes(target.text@);
        lemma_key_bytes_concat(keys, typing_keys(target.text@));
        keys = keys + typing_keys(target.text@);
    }
    if bracketed {
        type_step(&mut bytes, Keystroke::PasteEnd, Ghost(keys));
        proof {
            keys = keys.push(Keystroke::PasteEnd);
        }
    }
    let back: usize = target.len().saturating_sub(target.cursor);
    push_repeated(&mut bytes, Keystroke::Left, back);
    proof {
        lemma_key_bytes_concat(keys, repeated(Keystroke::Left, back as int));
        assert(keys + repeated(Keystroke::Left, back as int) =~= rebuild_keys(target@, bracketed));
    }
    bytes
}

/// The keystroke that performs `action` from the shell's own cursor.
pub open spec fn edit_action_key(action: EditAction) -> Keystroke {
    match action {
        EditAction::DeleteToLineEnd => Keystroke::KillToEnd,
        EditAction::DeleteToLineStart => Keystroke::KillToStart,
        EditAction::DeleteWordBackward => Keystroke::KillWordBack,
        EditAction::DeleteWordForward => Keystroke::KillWordForward,
    }
}

/// The bytes that perform `action` from the shell's own cursor, which needs no
/// alignment.
pub fn edit_action_bytes(action: EditAction) -> (r: Vec<u8>)
    ensures
        r@ == keystroke_bytes(edit_action_key(action)),
{
    let mut bytes: Vec<u8> = Vec::new();
    match action {
        EditAction::DeleteToLineEnd => push_keystroke(&mut bytes, Keystroke::KillToEnd),
        EditAction::DeleteToLineStart => push_keystroke(&mut bytes, Keystroke::KillToStart),
        EditAction::DeleteWordBackward => push_keystroke(&mut bytes, Keystroke::KillWordBack),
        EditAction::DeleteWordForward => push_keystroke(&mut bytes, Keystroke::KillWordForward),
    }
    assert(bytes@ =~= keystroke_bytes(edit_action_key(action)));
    bytes
}

// ------------------------------------------------------------------------
// Laws
// ------------------------------------------------------------------------

pub proof fn lemma_after_keys_concat(line: LineView, a: Seq<Keystroke>, b: Seq<Keystroke>)
    ensures
        line.after_keys(a + b) == line.after_keys(a).after_keys(b),
    decreases b.len(),
{
    if b.len() == 0 {
        assert(a + b =~= a);
    } else {
        assert((a + b).drop_last() =~= a + b.drop_last());
        lemma_after_keys_concat(line, a, b.drop_last());
    }
}

pub proof fn lemma_one_key(line: LineView, k: Keystroke)
    ensures
        line.after_keys(seq![k]) == line.after_key(k),
{
    assert(seq![k].drop_last() =~= Seq::empty());
    assert(line.after_keys(Seq::empty()) == line);
}

pub proof fn lemma_arrows(line: LineView, k: Keystroke, n: int)
    requires
        line.wf(),
        n >= 0,
        k == Keystroke::Left || k == Keystroke::Right,
    ensures
        line.after_keys(repeated(k, n)) == line.at(
            clamped(
                if k == Keystroke::Left {
                    line.cursor - n
                } else {
                    line.cursor + n
                },
                0,
                line.text.len() as int,
            ),
        ),
    decreases n,
{
    if n == 0 {
        assert(repeated(k, n) =~= Seq::empty());
    } else {
        assert(repeated(k, n).drop_last() =~= repeated(k, n - 1));
        lemma_arrows(line, k, n - 1);
    }
}

pub proof fn lemma_align(line: LineView, from: int, to: int)
    requires
        line.wf(),
    ensures
        line.after_keys(align_keys(from, to)) == line.at(
            clamped(line.cursor + to - from, 0, line.text.len() as int),
        ),
{
    if to >= from {
        lemma_arrows(line, Keystroke::Right, to - from);
    } else {
        lemma_arrows(line, Keystroke::Left, from - to);
    }
}

pub proof fn lemma_deletes(line: LineView, n: int)
    requires
        line.wf(),
        n >= 0,
    ensures
        line.after_keys(repeated(Keystroke::DeleteForward, n)) == line.cut(
            line.cursor,
            least(line.cursor + n, line.text.len() as int),
        ),
    decreases n,
{
    if n == 0 {
        assert(repeated(Keystroke::DeleteForward, n) =~= Seq::empty());
        assert(line.cut(line.cursor, line.cursor) =~= line);
    } else {
        assert(repeated(Keystroke::DeleteForward, n).drop_last() =~= repeated(
            Keystroke::DeleteForward,
            n - 1,
        ));
        lemma_deletes(line, n - 1);
        assert(line.after_keys(repeated(Keystroke::DeleteForward, n)) =~= line.cut(
            line.cursor,
            least(line.cursor + n, line.text.len() as int),
        ));
    }
}

/// What the shell's line editor makes of the keystrokes of a Vim delete is what
/// the shadow records for it, whatever the line: the same text, and the same
/// cursor wherever something is deleted.
pub proof fn law_shadow_mirrors_the_shell(
    line: LineView,
    op: PromptDelete,
    pty_col: int,
    nav_col: int,
)
    requires
        line.wf(),
    ensures
        ({
            let col = target_col(op, nav_col);
            let at = clamped(line.cursor + col - pty_col, 0, line.text.len() as int);
            let shell = line.after_keys(prompt_delete_keys(op, pty_col, nav_col));
            let shadow = line.after_delete(op, at);
            &&& shell.text == shadow.text
            &&& shadow.text != line.text ==> shell == shadow
        }),
{
    let col = target_col(op, nav_col);
    let at = clamped(line.cursor + col - pty_col, 0, line.text.len() as int);
    let moved = line.at(at);
    lemma_align(line, pty_col, col);
    lemma_after_keys_concat(line, align_keys(pty_col, col), delete_keys(op));
    match op {
        PromptDelete::CharForward => {
            lemma_one_key(moved, Keystroke::DeleteForward);
        },
        PromptDelete::Line => {
            lemma_after_keys_concat(line, seq![Keystroke::Home], seq![Keystroke::KillToEnd]);
            assert(seq![Keystroke::Home] + seq![Keystroke::KillToEnd] =~= delete_keys(op));
            lemma_one_key(line, Keystroke::Home);
            lemma_one_key(line.at(0), Keystroke::KillToEnd);
            assert(line.at(0).killed_to_end() =~= LineView::empty());
        },
        PromptDelete::Range { start_col, end_col } => {
            let count = range_len(start_col as int, end_col as int);
            lemma_deletes(moved, count);
            if at >= line.text.len() || count == 0 {
                assert(moved.cut(at, least(at + count, line.text.len() as int)).text
                    =~= line.text);
            } else {
                assert(moved.cut(at, least(at + count, line.text.len() as int)) =~= line.cut(
                    at,
                    least(at + count, line.text.len() as int),
                ));
            }
        },
        PromptDelete::ToLineEnd => {
            lemma_one_key(moved, Keystroke::KillToEnd);
        },
        PromptDelete::ToLineStart => {
            lemma_one_key(moved, Keystroke::KillToStart);
        },
        PromptDelete::WordBack => {
            lemma_one_key(moved, Keystroke::KillWordBack);
        },
        PromptDelete::WordForward => {
            lemma_one_key(moved, Keystroke::KillWordForward);
        },
    }
}

pub proof fn lemma_typing(line: LineView, text: Seq<char>)
    requires
        line.wf(),
        line.cursor == line.text.len(),
    ensures
        line.after_keys(typing_keys(text)) == (LineView {
            cursor: (line.text.len() + text.len()) as int,
            text: line.text + text,
        }),
    decreases text.len(),
{
    if text.len() == 0 {
        assert(typing_keys(text) =~= Seq::empty());
        assert(line.text + text =~= line.text);
    } else {
        assert(typing_keys(text).drop_last() =~= typing_keys(text.drop_last()));
        lemma_typing(line, text.drop_last());
        assert((line.text + text.drop_last()).insert(
            (line.text.len() + text.len() - 1) as int,
            text.last(),
        ) =~= line.text + text);
    }
}

/// The bytes of a rebuild make any line at all become the target.
pub proof fn law_rebuild_reaches_the_target(line: LineView, target: LineView, bracketed: bool)
    requires
        line.wf(),
        target.wf(),
    ensures
        line.after_keys(rebuild_keys(target, bracketed)) == target,
{
    let clear = seq![Keystroke::Home, Keystroke::KillToEnd];
    let text = typing_keys(target.text);
    let inserted = if bracketed {
        seq![Keystroke::PasteStart] + text + seq![Keystroke::PasteEnd]
    } else {
        text
    };
    let back = repeated(Keystroke::Left, minus(target.text.len() as int, target.cursor));
    let empty = LineView::empty();
    lemma_after_keys_concat(line, clear + inserted, back);
    lemma_after_keys_concat(line, clear, inserted);
    assert(clear =~= seq![Keystroke::Home] + seq![Keystroke::KillToEnd]);
    lemma_after_keys_concat(line, seq![Keystroke::Home], seq![Keystroke::KillToEnd]);
    lemma_one_key(line, Keystroke::Home);
    lemma_one_key(line.at(0), Keystroke::KillToEnd);
    assert(line.at(0).killed_to_end() =~= empty);
    lemma_typing(empty, target.text);
    assert(empty.text + target.text =~= target.text);
    let typed = target.at(target.text.len() as int);
    if bracketed {
        lemma_after_keys_concat(empty, seq![Keystroke::PasteStart] + text, seq![Keystroke::PasteEnd]);
        lemma_after_keys_concat(empty, seq![Keystroke::PasteStart], text);
        lemma_one_key(empty, Keystroke::PasteStart);
        lemma_one_key(typed, Keystroke::PasteEnd);
    }
    assert(empty.after_keys(inserted) == typed);
    lemma_arrows(typed, Keystroke::Left, minus(target.text.len() as int, target.cursor));
}

/// Typing `text`, one key at a time.
pub open spec fn after_typing(shadow: ShadowView, text: Seq<char>) -> ShadowView
    decreases text.len(),
{
    if text.len() == 0 {
        shadow
    } else {
        after_typing(shadow, text.drop_last()).edited(
            LineOp::InsertChar(text.last()),
            EditKind::Insert,
        )
    }
}

/// A run of inserts is one undo step: undoing once takes all of it back.
pub proof fn law_inserts_make_one_step(shadow: ShadowView, text: Seq<char>)
    requires
        shadow.active,
        shadow.last_kind != Some(EditKind::Insert),
        text.len() > 0,
    ensures
        after_typing(shadow, text).stepped_back().history.current == shadow.history.current,
        after_typing(shadow, text).stepped_back().history.past == shadow.history.past,
{
    lemma_typing_history(shadow, text);
    assert(shadow.history.past.push(shadow.history.current).drop_last() =~= shadow.history.past);
}

proof fn lemma_typing_history(shadow: ShadowView, text: Seq<char>)
    requires
        shadow.active,
        shadow.last_kind != Some(EditKind::Insert),
        text.len() > 0,
    ensures
        after_typing(shadow, text).active,
        after_typing(shadow, text).last_kind == Some(EditKind::Insert),
        after_typing(shadow, text).history.past == shadow.history.past.push(
            shadow.history.current,
        ),
    decreases text.len(),
{
    if text.len() > 1 {
        lemma_typing_history(shadow, text.drop_last());
    } else {
        assert(after_typing(shadow, text.drop_last()) == shadow);
    }
}

/// A removal is an undo step of its own: undoing it puts the line back as it
/// was just before.
pub proof fn law_a_removal_is_its_own_step(shadow: ShadowView, op: LineOp)
    requires
        shadow.active,
    ensures
        shadow.edited(op, EditKind::Delete).stepped_back().history.current
            == shadow.history.current,
        shadow.edited(op, EditKind::Delete).stepped_back().history.past == shadow.history.past,
{
    assert(shadow.history.past.push(shadow.history.current).drop_last() =~= shadow.history.past);
}

/// Redo brings back what undo took away.
pub proof fn law_redo_restores_what_undo_took(shadow: ShadowView)
    requires
        shadow.active,
        shadow.history.past.len() > 0,
    ensures
        shadow.stepped_back().stepped_forward().history == shadow.history,
{
    crate::history::law_undo_then_redo(shadow.history);
}

/// Once desynced, nothing but a fresh prompt brings undo or redo back: every key
/// leaves the shadow either off with its history untouched, or fresh.
pub proof fn law_a_desynced_shadow_changes_nothing(shadow: ShadowView, key: Key, at_prompt: bool)
    requires
        !shadow.active,
    ensures
        shadow.stepped_back() == shadow,
        shadow.stepped_forward() == shadow,
        ({
            let after = shadow.after_insert_key(key, at_prompt);
            ||| after == ShadowView::fresh()
            ||| !after.active && after.history == shadow.history
        }),
{
}

/// A submitted or interrupted line starts tracking afresh, however the shadow
/// stood.
pub proof fn law_a_fresh_prompt_rearms(shadow: ShadowView, key: Key)
    requires
        !key.alt,
        key.code == KeyCode::Enter && !key.ctrl || key.code == KeyCode::Char('c') && key.ctrl,
    ensures
        shadow.after_insert_key(key, true) == ShadowView::fresh(),
{
}

} // verus!
