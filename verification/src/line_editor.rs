//! What the shell's line editor makes of the bytes it is sent, and what that makes of a line
//! that is edited from Normal mode.

use vstd::prelude::*;
use vstd::utf8::{
    char_u32_cast, decode_first_scalar, encode_scalar, encode_utf8, encode_utf8_first_scalar,
    length_of_first_scalar, valid_first_scalar,
};
use crate::input::{EditAction, Key, KeyCode};
use crate::pointer::clipboard::pasted;
use crate::prompt_edit::{
    add_surround_keys, align_keys, change_surround_keys, delete_keys, delete_surround_keys,
    edit_action_key, key_bytes, keystroke_bytes, lemma_align, lemma_after_keys_concat,
    lemma_deletes, lemma_key_bytes_concat, lemma_key_bytes_one, lemma_one_key, lemma_word_bounds,
    prompt_delete_keys, rebuild_keys, repeated, replace_char_keys, run_end, run_start,
    toggle_case_keys, typing_keys, word_start, word_stop, Keystroke, LineView, PromptDelete,
    ShadowView,
};
use crate::text::is_white;

verus! {

// ------------------------------------------------------------------------
// The editor
// ------------------------------------------------------------------------

/// Whether the word before `at` starts at `from`: blanks lie before `at`, and before those the
/// characters of a word, as many of each as there are. `mid` is where the blanks start.
pub open spec fn word_before(text: Seq<char>, from: int, mid: int, at: int) -> bool {
    &&& 0 <= from <= mid <= at <= text.len()
    &&& forall|k: int| mid <= k < at ==> is_white(#[trigger] text[k])
    &&& forall|k: int| from <= k < mid ==> !is_white(#[trigger] text[k])
    &&& from == 0 || is_white(text[from - 1])
    &&& from == mid ==> from == 0
}

/// Whether the word after `at`, and the blanks after it, end at `to`. `mid` is where the blanks
/// start.
pub open spec fn word_after(text: Seq<char>, at: int, mid: int, to: int) -> bool {
    &&& 0 <= at <= mid <= to <= text.len()
    &&& forall|k: int| at <= k < mid ==> !is_white(#[trigger] text[k])
    &&& forall|k: int| mid <= k < to ==> is_white(#[trigger] text[k])
    &&& to == text.len() || !is_white(text[to])
    &&& mid == to ==> to == text.len()
}

/// Where the word before the cursor starts.
pub open spec fn back_to(line: LineView) -> int {
    (choose|p: (int, int)| #[trigger] word_before(line.text, p.0, p.1, line.cursor)).0
}

/// Where the word after the cursor, with the blanks after it, ends.
pub open spec fn on_to(line: LineView) -> int {
    (choose|p: (int, int)| #[trigger] word_after(line.text, line.cursor, p.1, p.0)).0
}

/// Whether `bytes` start with `lead`.
pub open spec fn leads(bytes: Seq<u8>, lead: Seq<u8>) -> bool {
    bytes.len() >= lead.len() && bytes.take(lead.len() as int) == lead
}

/// The line after the editor, under its Emacs bindings, has taken `bytes`: `Ctrl-A` goes to the
/// start, `Ctrl-K` cuts what is after the cursor and `Ctrl-U` what is before it, `Ctrl-W` cuts
/// the word before it and `Alt-d` the one after it, the arrow keys step, Delete takes the
/// character after the cursor and Backspace the one before it, the marks around a paste do nothing, and what is printed is put
/// in at the cursor.
#[verifier::opaque]
pub open spec fn fed(line: LineView, bytes: Seq<u8>) -> LineView
    decreases bytes.len(),
{
    let text = line.text;
    let at = line.cursor;
    let end = text.len() as int;
    if bytes.len() == 0 {
        line
    } else if bytes[0] == 0x01 {
        fed(LineView { cursor: 0, text }, bytes.skip(1))
    } else if bytes[0] == 0x0b {
        fed(LineView { cursor: at, text: text.take(at) }, bytes.skip(1))
    } else if bytes[0] == 0x15 {
        fed(LineView { cursor: 0, text: text.skip(at) }, bytes.skip(1))
    } else if bytes[0] == 0x17 {
        let from = back_to(line);
        fed(LineView { cursor: from, text: text.take(from) + text.skip(at) }, bytes.skip(1))
    } else if bytes[0] == 0x7f {
        fed(
            LineView {
                cursor: if at > 0 { at - 1 } else { at },
                text: if at > 0 { text.remove(at - 1) } else { text },
            },
            bytes.skip(1),
        )
    } else if leads(bytes, seq![0x1bu8, 0x64u8]) {
        let to = on_to(line);
        fed(LineView { cursor: at, text: text.take(at) + text.skip(to) }, bytes.skip(2))
    } else if leads(bytes, seq![0x1bu8, 0x5bu8, 0x43u8]) {
        fed(LineView { cursor: if at < end { at + 1 } else { at }, text }, bytes.skip(3))
    } else if leads(bytes, seq![0x1bu8, 0x5bu8, 0x44u8]) {
        fed(LineView { cursor: if at > 0 { at - 1 } else { at }, text }, bytes.skip(3))
    } else if leads(bytes, seq![0x1bu8, 0x5bu8, 0x33u8, 0x7eu8]) {
        fed(
            LineView { cursor: at, text: if at < end { text.remove(at) } else { text } },
            bytes.skip(4),
        )
    } else if leads(bytes, seq![0x1bu8, 0x5bu8, 0x32u8, 0x30u8, 0x30u8, 0x7eu8]) {
        fed(line, bytes.skip(6))
    } else if leads(bytes, seq![0x1bu8, 0x5bu8, 0x32u8, 0x30u8, 0x31u8, 0x7eu8]) {
        fed(line, bytes.skip(6))
    } else if bytes[0] >= 0x20 && valid_first_scalar(bytes) && 0 < length_of_first_scalar(bytes)
        <= bytes.len() {
        fed(
            LineView {
                cursor: at + 1,
                text: text.insert(at, decode_first_scalar(bytes) as char),
            },
            bytes.skip(length_of_first_scalar(bytes)),
        )
    } else {
        fed(line, bytes.skip(1))
    }
}

/// Whether `c` can be typed into a line: it is no control character.
pub open spec fn is_typed(c: char) -> bool {
    c as int >= 0x20 && c as int != 0x7f
}

/// Whether a keystroke types nothing but what can be typed.
pub open spec fn is_plain(k: Keystroke) -> bool {
    k matches Keystroke::Insert(c) ==> is_typed(c)
}

proof fn lemma_run_start(text: Seq<char>, i: int, white: bool)
    requires
        0 <= i <= text.len(),
    ensures
        0 <= run_start(text, i, white) <= i,
        forall|k: int| run_start(text, i, white) <= k < i ==> is_white(#[trigger] text[k]) == white,
        run_start(text, i, white) > 0 ==> is_white(text[run_start(text, i, white) - 1]) != white,
    decreases i,
{
    if i > 0 && is_white(text[i - 1]) == white {
        lemma_run_start(text, i - 1, white);
    }
}

proof fn lemma_run_end(text: Seq<char>, i: int, white: bool)
    requires
        0 <= i <= text.len(),
    ensures
        i <= run_end(text, i, white) <= text.len(),
        forall|k: int| i <= k < run_end(text, i, white) ==> is_white(#[trigger] text[k]) == white,
        run_end(text, i, white) < text.len() ==> is_white(text[run_end(text, i, white)]) != white,
    decreases text.len() - i,
{
    if i < text.len() && is_white(text[i]) == white {
        lemma_run_end(text, i + 1, white);
    }
}

proof fn lemma_one_word_before(text: Seq<char>, a: int, m: int, b: int, n: int, at: int)
    requires
        word_before(text, a, m, at),
        word_before(text, b, n, at),
    ensures
        a == b,
{
    if m < n {
        assert(is_white(text[n - 1]));
        if b < n {
            assert(!is_white(text[n - 1]));
        }
    }
    if n < m {
        assert(is_white(text[m - 1]));
        if a < m {
            assert(!is_white(text[m - 1]));
        }
    }
    if a < b {
        assert(is_white(text[b - 1]));
        assert(!is_white(text[b - 1]));
    }
    if b < a {
        assert(is_white(text[a - 1]));
        assert(!is_white(text[a - 1]));
    }
}

proof fn lemma_one_word_after(text: Seq<char>, at: int, m: int, a: int, n: int, b: int)
    requires
        word_after(text, at, m, a),
        word_after(text, at, n, b),
    ensures
        a == b,
{
    if m < n {
        assert(!is_white(text[m]));
        if m < a {
            assert(is_white(text[m]));
        }
    }
    if n < m {
        assert(!is_white(text[n]));
        if n < b {
            assert(is_white(text[n]));
        }
    }
    if a < b {
        assert(is_white(text[a]));
    }
    if b < a {
        assert(is_white(text[b]));
    }
}

proof fn lemma_back_to(line: LineView)
    requires
        line.wf(),
    ensures
        back_to(line) == word_start(line.text, line.cursor),
        0 <= back_to(line) <= line.cursor,
        exists|mid: int| word_before(line.text, back_to(line), mid, line.cursor),
{
    let mid = run_start(line.text, line.cursor, true);
    lemma_run_start(line.text, line.cursor, true);
    let from = run_start(line.text, mid, false);
    lemma_run_start(line.text, mid, false);
    let p = (from, mid);
    assert(word_before(line.text, p.0, p.1, line.cursor));
    let q = choose|p: (int, int)| #[trigger] word_before(line.text, p.0, p.1, line.cursor);
    lemma_one_word_before(line.text, p.0, p.1, q.0, q.1, line.cursor);
}

proof fn lemma_on_to(line: LineView)
    requires
        line.wf(),
    ensures
        on_to(line) == word_stop(line.text, line.cursor),
        line.cursor <= on_to(line) <= line.text.len(),
        exists|mid: int| word_after(line.text, line.cursor, mid, on_to(line)),
{
    let mid = run_end(line.text, line.cursor, false);
    lemma_run_end(line.text, line.cursor, false);
    let to = run_end(line.text, mid, true);
    lemma_run_end(line.text, mid, true);
    let p = (to, mid);
    assert(word_after(line.text, line.cursor, p.1, p.0));
    let q = choose|p: (int, int)| #[trigger] word_after(line.text, line.cursor, p.1, p.0);
    lemma_one_word_after(line.text, line.cursor, p.1, p.0, q.1, q.0);
}

proof fn lemma_fed_char(line: LineView, c: char, rest: Seq<u8>)
    requires
        line.wf(),
        is_typed(c),
    ensures
        fed(line, encode_utf8(seq![c]) + rest) == fed(line.typed(c), rest),
{
    reveal(fed);
    let one = encode_utf8(seq![c]);
    let bytes = one + rest;
    encode_utf8_first_scalar(seq![c]);
    assert(seq![c].drop_first() =~= Seq::empty());
    assert(encode_utf8(Seq::empty()) =~= Seq::<u8>::empty());
    assert(one =~= encode_scalar(c as u32));
    lemma_scalar_bytes(c);
    assert(bytes[0] == one[0]);
    if one.len() > 1 {
        assert(bytes[1] == one[1]);
    }
    if one.len() > 2 {
        assert(bytes[2] == one[2]);
    }
    if one.len() > 3 {
        assert(bytes[3] == one[3]);
    }
    assert(length_of_first_scalar(bytes) == one.len());
    assert(decode_first_scalar(bytes) == decode_first_scalar(one));
    assert(valid_first_scalar(bytes));
    char_u32_cast(c, c as u32);
    assert(bytes.skip(one.len() as int) =~= rest);
    assert(!leads(bytes, seq![0x1bu8, 0x64u8])) by {
        assert(seq![0x1bu8, 0x64u8][0] == 0x1bu8);
        assert(bytes.len() >= 2 ==> bytes.take(2)[0] == bytes[0]);
    }
    assert(bytes.len() >= 3 ==> bytes.take(3)[0] == bytes[0]);
    assert(bytes.len() >= 4 ==> bytes.take(4)[0] == bytes[0]);
    assert(bytes.len() >= 6 ==> bytes.take(6)[0] == bytes[0]);
    assert(seq![0x1bu8, 0x5bu8, 0x43u8][0] == 0x1bu8);
    assert(seq![0x1bu8, 0x5bu8, 0x44u8][0] == 0x1bu8);
    assert(seq![0x1bu8, 0x5bu8, 0x33u8, 0x7eu8][0] == 0x1bu8);
    assert(seq![0x1bu8, 0x5bu8, 0x32u8, 0x30u8, 0x30u8, 0x7eu8][0] == 0x1bu8);
    assert(seq![0x1bu8, 0x5bu8, 0x32u8, 0x30u8, 0x31u8, 0x7eu8][0] == 0x1bu8);
}

/// The first byte of what can be typed is no control byte.
proof fn lemma_scalar_bytes(c: char)
    requires
        is_typed(c),
    ensures
        1 <= encode_scalar(c as u32).len() <= 4,
        encode_scalar(c as u32)[0] >= 0x20,
        encode_scalar(c as u32)[0] != 0x7f,
{
    let s = c as u32;
    vstd::utf8::char_is_scalar(c);
    assert(0x20 <= s <= 0x7f ==> (s & 0x7F) as u8 >= 0x20 && (s != 0x7f ==> (s & 0x7F) as u8
        != 0x7f)) by (bit_vector);
    assert((0xC0u8 | ((s >> 6) & 0x1F) as u8) >= 0x80) by (bit_vector);
    assert((0xE0u8 | ((s >> 12) & 0x0F) as u8) >= 0x80) by (bit_vector);
    assert((0xF0u8 | ((s >> 18) & 0x07) as u8) >= 0x80) by (bit_vector);
}

proof fn lemma_fed_key(line: LineView, k: Keystroke, rest: Seq<u8>)
    requires
        line.wf(),
        is_plain(k),
    ensures
        fed(line, keystroke_bytes(k) + rest) == fed(line.after_key(k), rest),
        line.after_key(k).wf(),
{
    let bytes = keystroke_bytes(k) + rest;
    lemma_word_bounds(line.text, line.cursor);
    match k {
        Keystroke::Insert(c) => {
            lemma_fed_char(line, c, rest);
        },
        Keystroke::KillWordBack => {
            reveal(fed);
            lemma_back_to(line);
            assert(bytes[0] == 0x17);
            assert(bytes.skip(1) =~= rest);
        },
        Keystroke::KillWordForward => {
            reveal(fed);
            lemma_on_to(line);
            assert(bytes[0] == 0x1b);
            assert(bytes.take(2) =~= seq![0x1bu8, 0x64u8]);
            assert(bytes.skip(2) =~= rest);
        },
        Keystroke::Home => {
            reveal(fed);
            assert(bytes[0] == 0x01);
            assert(bytes.skip(1) =~= rest);
        },
        Keystroke::KillToEnd => {
            reveal(fed);
            assert(bytes[0] == 0x0b);
            assert(bytes.skip(1) =~= rest);
            assert(line.killed_to_end() =~= (LineView {
                cursor: line.cursor,
                text: line.text.take(line.cursor),
            }));
        },
        Keystroke::KillToStart => {
            reveal(fed);
            assert(bytes[0] == 0x15);
            assert(bytes.skip(1) =~= rest);
            assert(line.killed_to_start() =~= (LineView {
                cursor: 0,
                text: line.text.skip(line.cursor),
            }));
        },
        _ => {
            lemma_fed_escape(line, k, rest);
        },
    }
}

proof fn lemma_fed_escape(line: LineView, k: Keystroke, rest: Seq<u8>)
    requires
        line.wf(),
        k is Right || k is Left || k is DeleteForward || k is PasteStart || k is PasteEnd,
    ensures
        fed(line, keystroke_bytes(k) + rest) == fed(line.after_key(k), rest),
        line.after_key(k).wf(),
{
    reveal(fed);
    let own = keystroke_bytes(k);
    let bytes = own + rest;
    assert(bytes[0] == 0x1b && bytes[1] == 0x5b && bytes[2] == own[2]);
    assert(bytes.take(2)[1] == bytes[1]);
    assert(seq![0x1bu8, 0x64u8][1] == 0x64u8);
    assert(bytes.take(own.len() as int) =~= own);
    assert(bytes.skip(own.len() as int) =~= rest);
    assert(seq![0x1bu8, 0x5bu8, 0x43u8][2] == 0x43u8);
    assert(seq![0x1bu8, 0x5bu8, 0x44u8][2] == 0x44u8);
    assert(bytes.take(3)[2] == bytes[2]);
    if own.len() >= 4 {
        assert(bytes.take(4)[2] == bytes[2]);
        assert(seq![0x1bu8, 0x5bu8, 0x33u8, 0x7eu8][2] == 0x33u8);
    }
    if own.len() == 6 {
        assert(bytes.take(6)[4] == bytes[4]);
        assert(bytes[4] == own[4]);
        assert(seq![0x1bu8, 0x5bu8, 0x32u8, 0x30u8, 0x30u8, 0x7eu8][4] == 0x30u8);
    }
    if k is DeleteForward && line.cursor < line.text.len() {
        assert(line.deleted_forward() =~= (LineView {
            cursor: line.cursor,
            text: line.text.remove(line.cursor),
        }));
    }
}

/// Whether all keystrokes are plain.
pub open spec fn all_plain(keys: Seq<Keystroke>) -> bool {
    forall|i: int| 0 <= i < keys.len() ==> is_plain(#[trigger] keys[i])
}

proof fn lemma_fed_rest(line: LineView, keys: Seq<Keystroke>, rest: Seq<u8>)
    requires
        line.wf(),
        all_plain(keys),
    ensures
        fed(line, key_bytes(keys) + rest) == fed(line.after_keys(keys), rest),
        line.after_keys(keys).wf(),
    decreases keys.len(),
{
    if keys.len() == 0 {
        assert(key_bytes(keys) + rest =~= rest);
    } else {
        let last = keystroke_bytes(keys.last()) + rest;
        assert(is_plain(keys[keys.len() - 1]));
        assert forall|i: int| 0 <= i < keys.drop_last().len() implies is_plain(
            #[trigger] keys.drop_last()[i],
        ) by {
            assert(is_plain(keys[i]));
        }
        lemma_fed_rest(line, keys.drop_last(), last);
        lemma_fed_key(line.after_keys(keys.drop_last()), keys.last(), rest);
        assert(key_bytes(keys) + rest =~= key_bytes(keys.drop_last()) + last);
    }
}

/// The editor takes keystrokes one after the other.
pub proof fn lemma_fed_keys(line: LineView, keys: Seq<Keystroke>)
    requires
        line.wf(),
        all_plain(keys),
    ensures
        fed(line, key_bytes(keys)) == line.after_keys(keys),
        line.after_keys(keys).wf(),
{
    lemma_fed_rest(line, keys, Seq::empty());
    assert(key_bytes(keys) + Seq::<u8>::empty() =~= key_bytes(keys));
    reveal(fed);
}

// ------------------------------------------------------------------------
// Laws
// ------------------------------------------------------------------------

/// The place in a line that is as far from the editor's cursor as column `col` is from column
/// `pty_col`, which the editor's cursor is in, as far as the line goes.
pub open spec fn place_in(line: LineView, col: int, pty_col: int) -> int {
    let at = line.cursor + col - pty_col;
    if at < 0 {
        0
    } else if at > line.text.len() {
        line.text.len() as int
    } else {
        at
    }
}

/// Whether a delete with its target at `at` makes `line` into `after`: what each operator takes
/// away, and where the cursor is then.
pub open spec fn is_deleted(line: LineView, op: PromptDelete, at: int, after: LineView) -> bool {
    let text = line.text;
    match op {
        PromptDelete::CharForward => if at < text.len() {
            after.text == text.remove(at) && after.cursor == at
        } else {
            after.text == text && after.cursor == at
        },
        PromptDelete::Line => after.text.len() == 0 && after.cursor == 0,
        PromptDelete::ToLineEnd => after.text == text.take(at) && after.cursor == at,
        PromptDelete::ToLineStart => after.text == text.skip(at) && after.cursor == 0,
        PromptDelete::WordBack => exists|from: int, mid: int| #[trigger]
            word_before(text, from, mid, at) && after.text == text.take(from) + text.skip(at)
                && after.cursor == from,
        PromptDelete::WordForward => exists|to: int, mid: int| #[trigger]
            word_after(text, at, mid, to) && after.text == text.take(at) + text.skip(to)
                && after.cursor == at,
        PromptDelete::Range { start_col, end_col } => if end_col < start_col {
            after.text == text && after.cursor == at
        } else if at + (end_col - start_col) < text.len() {
            after.text == text.take(at) + text.skip(at + (end_col - start_col) + 1)
                && after.cursor == at
        } else {
            after.text == text.take(at) && after.cursor == at
        },
    }
}

/// The bytes of a delete take away what the operator says, from the place under the Vim cursor:
/// `D` leaves the characters before it, `d0` those from it on, `x` all but the one at it, and
/// so on.
pub proof fn law_a_delete_takes_what_it_says(
    line: LineView,
    op: PromptDelete,
    pty_col: int,
    nav_col: int,
)
    requires
        line.wf(),
    ensures
        ({
            let col = match op {
                PromptDelete::Range { start_col, .. } => start_col as int,
                _ => nav_col,
            };
            is_deleted(
                line,
                op,
                place_in(line, col, pty_col),
                fed(line, key_bytes(prompt_delete_keys(op, pty_col, nav_col))),
            )
        }),
{
    let keys = prompt_delete_keys(op, pty_col, nav_col);
    assert forall|i: int| 0 <= i < keys.len() implies is_plain(#[trigger] keys[i]) by {}
    lemma_fed_keys(line, keys);
    let col = crate::prompt_edit::target_col(op, nav_col);
    let at = place_in(line, col, pty_col);
    let moved = line.at(at);
    let after = line.after_keys(keys);
    lemma_align(line, pty_col, col);
    lemma_after_keys_concat(line, align_keys(pty_col, col), delete_keys(op));
    match op {
        PromptDelete::CharForward => {
            lemma_one_key(moved, Keystroke::DeleteForward);
            if at < line.text.len() {
                assert(after.text =~= line.text.remove(at));
            }
        },
        PromptDelete::Line => {
            lemma_after_keys_concat(line, seq![Keystroke::Home], seq![Keystroke::KillToEnd]);
            assert(seq![Keystroke::Home] + seq![Keystroke::KillToEnd] =~= delete_keys(op));
            lemma_one_key(line, Keystroke::Home);
            lemma_one_key(line.at(0), Keystroke::KillToEnd);
        },
        PromptDelete::Range { start_col, end_col } => {
            let count = crate::prompt_edit::range_len(start_col as int, end_col as int);
            lemma_deletes(moved, count);
            if end_col < start_col {
                assert(after.text =~= line.text);
            } else if at + (end_col - start_col) < line.text.len() {
                assert(after.text =~= line.text.take(at) + line.text.skip(
                    at + (end_col - start_col) + 1,
                ));
            } else {
                assert(after.text =~= line.text.take(at));
            }
        },
        PromptDelete::ToLineEnd => {
            lemma_one_key(moved, Keystroke::KillToEnd);
            assert(after.text =~= line.text.take(at));
        },
        PromptDelete::ToLineStart => {
            lemma_one_key(moved, Keystroke::KillToStart);
            assert(after.text =~= line.text.skip(at));
        },
        PromptDelete::WordBack => {
            lemma_one_key(moved, Keystroke::KillWordBack);
            lemma_back_to(moved);
            let mid = choose|mid: int| word_before(moved.text, back_to(moved), mid, moved.cursor);
            assert(word_before(line.text, back_to(moved), mid, at));
        },
        PromptDelete::WordForward => {
            lemma_one_key(moved, Keystroke::KillWordForward);
            lemma_on_to(moved);
            let mid = choose|mid: int| word_after(moved.text, moved.cursor, mid, on_to(moved));
            assert(word_after(line.text, at, mid, on_to(moved)));
        },
    }
}

/// The bytes of an edit in Insert mode take away what the edit says, from the editor's own
/// cursor.
pub proof fn law_an_edit_takes_what_it_says(line: LineView, action: EditAction)
    requires
        line.wf(),
    ensures
        is_deleted(
            line,
            match action {
                EditAction::DeleteToLineEnd => PromptDelete::ToLineEnd,
                EditAction::DeleteToLineStart => PromptDelete::ToLineStart,
                EditAction::DeleteWordBackward => PromptDelete::WordBack,
                EditAction::DeleteWordForward => PromptDelete::WordForward,
            },
            line.cursor,
            fed(line, keystroke_bytes(edit_action_key(action))),
        ),
{
    let k = edit_action_key(action);
    lemma_key_bytes_one(k);
    assert(all_plain(seq![k]));
    lemma_fed_keys(line, seq![k]);
    lemma_one_key(line, k);
    let after = line.after_key(k);
    match action {
        EditAction::DeleteToLineEnd => {
            assert(after.text =~= line.text.take(line.cursor));
        },
        EditAction::DeleteToLineStart => {
            assert(after.text =~= line.text.skip(line.cursor));
        },
        EditAction::DeleteWordBackward => {
            lemma_back_to(line);
            let mid = choose|mid: int| word_before(line.text, back_to(line), mid, line.cursor);
            assert(word_before(line.text, back_to(line), mid, line.cursor));
        },
        EditAction::DeleteWordForward => {
            lemma_on_to(line);
            let mid = choose|mid: int| word_after(line.text, line.cursor, mid, on_to(line));
            assert(word_after(line.text, line.cursor, mid, on_to(line)));
        },
    }
}

proof fn lemma_joined_plain(a: Seq<Keystroke>, b: Seq<Keystroke>)
    requires
        all_plain(a),
        all_plain(b),
    ensures
        all_plain(a + b),
{
    assert forall|i: int| 0 <= i < (a + b).len() implies is_plain(#[trigger] (a + b)[i]) by {
        if i < a.len() {
            assert(is_plain(a[i]));
        } else {
            assert(is_plain(b[i - a.len()]));
        }
    }
}

/// What the editor does on the way to column `to` and with one keystroke there.
proof fn lemma_walk_and_press(line: LineView, from: int, to: int, k: Keystroke)
    requires
        line.wf(),
        is_plain(k),
    ensures
        all_plain(align_keys(from, to)),
        all_plain(align_keys(from, to).push(k)),
        line.after_keys(align_keys(from, to)) == line.at(place_in(line, to, from)),
        line.after_keys(align_keys(from, to).push(k)) == line.at(
            place_in(line, to, from),
        ).after_key(k),
{
    let walk = align_keys(from, to);
    lemma_align(line, from, to);
    lemma_after_keys_concat(line, walk, seq![k]);
    lemma_one_key(line.at(place_in(line, to, from)), k);
    assert(walk + seq![k] =~= walk.push(k));
    assert(all_plain(seq![k]));
    lemma_joined_plain(walk, seq![k]);
}

/// Two keystrokes that put `c` in the place of what is after the cursor.
proof fn lemma_put(line: LineView, c: char)
    requires
        line.wf(),
        is_typed(c),
    ensures
        all_plain(seq![Keystroke::DeleteForward, Keystroke::Insert(c)]),
        line.after_keys(seq![Keystroke::DeleteForward, Keystroke::Insert(c)]) == (LineView {
            cursor: line.cursor + 1,
            text: if line.cursor < line.text.len() {
                line.text.update(line.cursor, c)
            } else {
                line.text.push(c)
            },
        }),
{
    let (a, b) = (seq![Keystroke::DeleteForward], seq![Keystroke::Insert(c)]);
    lemma_after_keys_concat(line, a, b);
    lemma_one_key(line, Keystroke::DeleteForward);
    lemma_one_key(line.deleted_forward(), Keystroke::Insert(c));
    assert(a + b =~= seq![Keystroke::DeleteForward, Keystroke::Insert(c)]);
    let after = line.deleted_forward().typed(c);
    if line.cursor < line.text.len() {
        assert(after.text =~= line.text.update(line.cursor, c));
    } else {
        assert(after.text =~= line.text.push(c));
    }
}

/// The bytes of `r` put one character in the place of the one under the Vim cursor, and leave
/// the cursor there.
pub proof fn law_replacing_puts_one_character(line: LineView, pty_col: int, nav_col: int, ch: char)
    requires
        line.wf(),
        is_typed(ch),
    ensures
        ({
            let at = place_in(line, nav_col, pty_col);
            fed(line, key_bytes(replace_char_keys(pty_col, nav_col, ch))) == (LineView {
                cursor: at,
                text: if at < line.text.len() {
                    line.text.update(at, ch)
                } else {
                    line.text.push(ch)
                },
            })
        }),
{
    let at = place_in(line, nav_col, pty_col);
    let put = seq![Keystroke::DeleteForward, Keystroke::Insert(ch)];
    let walk = align_keys(pty_col, nav_col);
    lemma_walk_and_press(line, pty_col, nav_col, Keystroke::Left);
    lemma_put(line.at(at), ch);
    lemma_after_keys_concat(line, walk, put);
    let done = line.at(at).after_keys(put);
    lemma_after_keys_concat(line, walk + put, seq![Keystroke::Left]);
    lemma_one_key(done, Keystroke::Left);
    let keys = replace_char_keys(pty_col, nav_col, ch);
    assert(keys =~= walk + put + seq![Keystroke::Left]);
    lemma_joined_plain(walk, put);
    assert(all_plain(seq![Keystroke::Left]));
    lemma_joined_plain(walk + put, seq![Keystroke::Left]);
    lemma_fed_keys(line, keys);
}

/// The bytes of `~` put the other case in the place of the character under the Vim cursor, and
/// leave the cursor after it.
pub proof fn law_toggling_puts_the_other_case(
    line: LineView,
    pty_col: int,
    nav_col: int,
    ch: char,
)
    requires
        line.wf(),
        is_typed(ch),
    ensures
        ({
            let at = place_in(line, nav_col, pty_col);
            fed(line, key_bytes(toggle_case_keys(pty_col, nav_col, ch))) == (LineView {
                cursor: at + 1,
                text: if at < line.text.len() {
                    line.text.update(at, ch)
                } else {
                    line.text.push(ch)
                },
            })
        }),
{
    let at = place_in(line, nav_col, pty_col);
    let put = seq![Keystroke::DeleteForward, Keystroke::Insert(ch)];
    let walk = align_keys(pty_col, nav_col);
    lemma_walk_and_press(line, pty_col, nav_col, Keystroke::Left);
    lemma_put(line.at(at), ch);
    lemma_after_keys_concat(line, walk, put);
    lemma_joined_plain(walk, put);
    lemma_fed_keys(line, toggle_case_keys(pty_col, nav_col, ch));
}

/// The bytes that take the delimiters in columns `c1` and `c2` away take these two characters
/// and no other.
pub proof fn law_unwrapping_takes_both_delimiters(
    line: LineView,
    pty_col: int,
    c1: int,
    c2: int,
    nav_col: int,
)
    requires
        line.wf(),
        0 <= line.cursor + c1 - pty_col,
        0 <= c1 < c2,
        line.cursor + c2 - pty_col < line.text.len(),
    ensures
        ({
            let i = line.cursor + c1 - pty_col;
            let j = line.cursor + c2 - pty_col;
            let after = fed(line, key_bytes(delete_surround_keys(pty_col, c1, c2, nav_col)));
            &&& after.text == line.text.take(i) + line.text.subrange(i + 1, j) + line.text.skip(
                j + 1,
            )
            &&& c1 <= nav_col <= c2 - 2 ==> after.cursor == line.cursor + nav_col - pty_col
        }),
{
    let i = line.cursor + c1 - pty_col;
    let j = line.cursor + c2 - pty_col;
    let k = Keystroke::DeleteForward;
    let back = crate::text::least(nav_col, crate::text::minus(c2, 2));
    let one = align_keys(pty_col, c2).push(k);
    let two = align_keys(c2, c1).push(k);
    let three = align_keys(c1, back);
    lemma_walk_and_press(line, pty_col, c2, k);
    let l1 = line.at(j).after_key(k);
    lemma_walk_and_press(l1, c2, c1, k);
    let l2 = l1.at(i).after_key(k);
    assert(place_in(l1, c1, c2) == i);
    lemma_walk_and_press(l2, c1, back, k);
    lemma_after_keys_concat(line, one, two);
    lemma_after_keys_concat(line, one + two, three);
    lemma_joined_plain(one, two);
    lemma_joined_plain(one + two, three);
    assert(delete_surround_keys(pty_col, c1, c2, nav_col) =~= one + two + three);
    lemma_fed_keys(line, one + two + three);
    assert(l2.text =~= line.text.take(i) + line.text.subrange(i + 1, j) + line.text.skip(j + 1));
}

/// The bytes that change the delimiters in columns `c1` and `c2` put the opening one in the
/// place of the first and the closing one in the place of the second.
pub proof fn law_rewrapping_changes_both_delimiters(
    line: LineView,
    pty_col: int,
    c1: int,
    open: char,
    c2: int,
    close: char,
    nav_col: int,
)
    requires
        line.wf(),
        is_typed(open),
        is_typed(close),
        0 <= line.cursor + c1 - pty_col,
        c1 < c2,
        line.cursor + c2 - pty_col < line.text.len(),
    ensures
        ({
            let i = line.cursor + c1 - pty_col;
            let j = line.cursor + c2 - pty_col;
            fed(
                line,
                key_bytes(change_surround_keys(pty_col, c1, open, c2, close, nav_col)),
            ) == (LineView {
                cursor: place_in(line, nav_col, pty_col),
                text: line.text.update(i, open).update(j, close),
            })
        }),
{
    let i = line.cursor + c1 - pty_col;
    let j = line.cursor + c2 - pty_col;
    let k = Keystroke::Left;
    let w1 = align_keys(pty_col, c2);
    let p1 = seq![Keystroke::DeleteForward, Keystroke::Insert(close)];
    let w2 = align_keys(c2 + 1, c1);
    let p2 = seq![Keystroke::DeleteForward, Keystroke::Insert(open)];
    let w3 = align_keys(c1 + 1, nav_col);
    lemma_walk_and_press(line, pty_col, c2, k);
    lemma_put(line.at(j), close);
    let l1 = line.at(j).after_keys(p1);
    lemma_walk_and_press(l1, c2 + 1, c1, k);
    assert(place_in(l1, c1, c2 + 1) == i);
    lemma_put(l1.at(i), open);
    let l2 = l1.at(i).after_keys(p2);
    lemma_walk_and_press(l2, c1 + 1, nav_col, k);
    lemma_after_keys_concat(line, w1, p1);
    lemma_after_keys_concat(line, w1 + p1, w2);
    lemma_after_keys_concat(line, w1 + p1 + w2, p2);
    lemma_after_keys_concat(line, w1 + p1 + w2 + p2, w3);
    lemma_joined_plain(w1, p1);
    lemma_joined_plain(w1 + p1, w2);
    lemma_joined_plain(w1 + p1 + w2, p2);
    lemma_joined_plain(w1 + p1 + w2 + p2, w3);
    lemma_fed_keys(line, w1 + p1 + w2 + p2 + w3);
    assert(l2.text =~= line.text.update(i, open).update(j, close));
}

/// The bytes that wrap columns `c1` to `c2` put the opening delimiter before the first and the
/// closing one after the second.
pub proof fn law_wrapping_puts_a_delimiter_on_either_side(
    line: LineView,
    pty_col: int,
    c1: int,
    c2: int,
    open: char,
    close: char,
    nav_col: int,
)
    requires
        line.wf(),
        is_typed(open),
        is_typed(close),
        0 <= line.cursor + c1 - pty_col,
        c1 <= c2,
        line.cursor + c2 - pty_col < line.text.len(),
    ensures
        ({
            let i = line.cursor + c1 - pty_col;
            let j = line.cursor + c2 - pty_col;
            let after = fed(
                line,
                key_bytes(add_surround_keys(pty_col, c1, c2, open, close, nav_col)),
            );
            &&& after.text == line.text.take(i).push(open) + line.text.subrange(i, j + 1).push(
                close,
            ) + line.text.skip(j + 1)
            &&& c1 <= nav_col <= c2 ==> after.cursor == line.cursor + nav_col - pty_col
        }),
{
    let i = line.cursor + c1 - pty_col;
    let j = line.cursor + c2 - pty_col;
    let one = align_keys(pty_col, c2 + 1).push(Keystroke::Insert(close));
    let two = align_keys(c2 + 2, c1).push(Keystroke::Insert(open));
    let three = align_keys(c1 + 1, nav_col);
    lemma_walk_and_press(line, pty_col, c2 + 1, Keystroke::Insert(close));
    let l1 = line.at(j + 1).typed(close);
    lemma_walk_and_press(l1, c2 + 2, c1, Keystroke::Insert(open));
    assert(place_in(l1, c1, c2 + 2) == i);
    let l2 = l1.at(i).typed(open);
    lemma_walk_and_press(l2, c1 + 1, nav_col, Keystroke::Left);
    lemma_after_keys_concat(line, one, two);
    lemma_after_keys_concat(line, one + two, three);
    lemma_joined_plain(one, two);
    lemma_joined_plain(one + two, three);
    assert(add_surround_keys(pty_col, c1, c2, open, close, nav_col) =~= one + two + three);
    lemma_fed_keys(line, one + two + three);
    assert(l2.text =~= line.text.take(i).push(open) + line.text.subrange(i, j + 1).push(close)
        + line.text.skip(j + 1));
}

proof fn lemma_typing_plain(text: Seq<char>)
    requires
        forall|i: int| 0 <= i < text.len() ==> is_typed(#[trigger] text[i]),
    ensures
        all_plain(typing_keys(text)),
    decreases text.len(),
{
    if text.len() > 0 {
        let less = text.drop_last();
        assert forall|i: int| 0 <= i < less.len() implies is_typed(#[trigger] less[i]) by {
            assert(is_typed(text[i]));
        }
        lemma_typing_plain(less);
        assert(is_typed(text[text.len() - 1]));
        let last = seq![crate::prompt_edit::insert_key(text.last())];
        assert(all_plain(last));
        lemma_joined_plain(typing_keys(less), last);
        assert(typing_keys(less) + last =~= typing_keys(text));
    }
}

/// The bytes of a rebuild make any line the line that is wanted, its cursor included.
pub proof fn law_a_rebuild_makes_the_line(line: LineView, target: LineView, bracketed: bool)
    requires
        line.wf(),
        target.wf(),
        forall|i: int| 0 <= i < target.text.len() ==> is_typed(#[trigger] target.text[i]),
    ensures
        fed(line, key_bytes(rebuild_keys(target, bracketed))) == target,
{
    crate::prompt_edit::law_rebuild_reaches_the_target(line, target, bracketed);
    lemma_typing_plain(target.text);
    let text = typing_keys(target.text);
    let back = repeated(
        Keystroke::Left,
        crate::text::minus(target.text.len() as int, target.cursor),
    );
    let clear = seq![Keystroke::Home, Keystroke::KillToEnd];
    let (a, b) = (seq![Keystroke::PasteStart], seq![Keystroke::PasteEnd]);
    assert(all_plain(a) && all_plain(b) && all_plain(clear) && all_plain(back));
    lemma_joined_plain(a, text);
    lemma_joined_plain(a + text, b);
    lemma_joined_plain(clear, a + text + b);
    lemma_joined_plain(clear, text);
    lemma_joined_plain(clear + (a + text + b), back);
    lemma_joined_plain(clear + text, back);
    lemma_fed_keys(line, rebuild_keys(target, bracketed));
}

/// The bytes of a walk bring the editor's cursor to the column and leave the text alone.
pub proof fn law_a_walk_reaches_the_column(line: LineView, pty_col: int, col: int)
    requires
        line.wf(),
    ensures
        fed(line, key_bytes(align_keys(pty_col, col))) == (LineView {
            cursor: place_in(line, col, pty_col),
            text: line.text,
        }),
{
    lemma_walk_and_press(line, pty_col, col, Keystroke::Left);
    lemma_fed_keys(line, align_keys(pty_col, col));
}

/// What a key typed at the prompt makes of the line that the shadow follows.
pub proof fn law_a_key_at_the_prompt_changes_the_shadow(shadow: ShadowView, key: Key)
    requires
        shadow.active,
        shadow.wf(),
        !key.alt,
    ensures
        ({
            let line = shadow.history.current;
            let text = line.text;
            let at = line.cursor;
            let after = shadow.after_insert_key(key, true);
            let now = after.history.current;
            &&& key.ctrl ==> match key.code {
                KeyCode::Char(c) => {
                    &&& c == 'a' ==> now.text == text && now.cursor == 0
                    &&& c == 'e' ==> now.text == text && now.cursor == text.len()
                    &&& c == 'u' ==> now.text == text.skip(at) && now.cursor == 0
                    &&& c == 'k' ==> now.text == text.take(at) && now.cursor == at
                    &&& c == 'w' ==> is_deleted(line, PromptDelete::WordBack, at, now)
                    &&& c == 'd' ==> is_deleted(line, PromptDelete::CharForward, at, now)
                    &&& c == 'c' ==> after.active && now.text.len() == 0 && now.cursor == 0
                        && after.history.past.len() == 0 && after.history.future.len() == 0
                    &&& c == '/' || c == '\\' ==> after == shadow
                    &&& (c == 'a' || c == 'e' || c == 'u' || c == 'k' || c == 'w' || c == 'd' || c
                        == 'c' || c == '/' || c == '\\') == after.active
                },
                _ => !after.active && after.history == shadow.history,
            }
            &&& !key.ctrl ==> match key.code {
                KeyCode::Char(c) => now.text == text.insert(at, c) && now.cursor == at + 1,
                KeyCode::Space => now.text == text.insert(at, ' ') && now.cursor == at + 1,
                KeyCode::Backspace => if at == 0 {
                    now == line
                } else {
                    now.text == text.remove(at - 1) && now.cursor == at - 1
                },
                KeyCode::Delete => is_deleted(line, PromptDelete::CharForward, at, now),
                KeyCode::Left => now.text == text && now.cursor == (if at == 0 {
                    0
                } else {
                    at - 1
                }),
                KeyCode::Right => now.text == text && now.cursor == (if at == text.len() {
                    at
                } else {
                    at + 1
                }),
                KeyCode::Home => now.text == text && now.cursor == 0,
                KeyCode::End => now.text == text && now.cursor == text.len(),
                KeyCode::Enter => after.active && now.text.len() == 0 && now.cursor == 0
                    && after.history.past.len() == 0 && after.history.future.len() == 0,
                _ => !after.active && after.history == shadow.history,
            }
        }),
{
    let line = shadow.history.current;
    let text = line.text;
    let at = line.cursor;
    lemma_back_to(line);
    let mid = choose|mid: int| word_before(line.text, back_to(line), mid, line.cursor);
    assert(word_before(text, back_to(line), mid, at));
    assert(line.killed_to_start().text =~= text.skip(at));
    assert(line.killed_to_end().text =~= text.take(at));
    if at > 0 {
        assert(line.backspaced().text =~= text.remove(at - 1));
    }
    if at < text.len() {
        assert(line.deleted_forward().text =~= text.remove(at));
    }
}

/// Away from the prompt, and with Alt held, what is typed is not followed.
pub proof fn law_the_shadow_is_only_kept_at_the_prompt(
    shadow: ShadowView,
    key: Key,
    at_prompt: bool,
)
    requires
        !at_prompt || key.alt,
    ensures
        !shadow.after_insert_key(key, at_prompt).active,
        shadow.after_insert_key(key, at_prompt).history == shadow.history,
{
}

/// The shadow keeps up with the shell: when both have the same line and a delete is sent to
/// the one and recorded in the other, both have the same text again.
pub proof fn law_the_shadow_keeps_up_with_a_delete(
    shadow: ShadowView,
    op: PromptDelete,
    pty_col: int,
    nav_col: int,
)
    requires
        shadow.active,
        shadow.wf(),
    ensures
        shadow.after_normal_delete(op, nav_col, pty_col).history.current.text == fed(
            shadow.history.current,
            key_bytes(prompt_delete_keys(op, pty_col, nav_col)),
        ).text,
        shadow.after_normal_delete(op, nav_col, pty_col).active,
        shadow.after_normal_delete(op, nav_col, pty_col).history.past
            == shadow.history.past.push(shadow.history.current),
{
    let keys = prompt_delete_keys(op, pty_col, nav_col);
    assert forall|i: int| 0 <= i < keys.len() implies is_plain(#[trigger] keys[i]) by {}
    lemma_fed_keys(shadow.history.current, keys);
    crate::prompt_edit::law_shadow_mirrors_the_shell(
        shadow.history.current,
        op,
        pty_col,
        nav_col,
    );
}

/// What is pasted is put into the shell's line at its cursor, between marks or not.
pub proof fn law_a_paste_is_put_in_at_the_cursor(line: LineView, text: Seq<char>, bracketed: bool)
    requires
        line.wf(),
        forall|i: int| 0 <= i < text.len() ==> is_typed(#[trigger] text[i]),
    ensures
        fed(line, pasted(text, bracketed)) == (LineView {
            cursor: line.cursor + text.len(),
            text: line.text.take(line.cursor) + text + line.text.skip(line.cursor),
        }),
{
    lemma_typing_plain(text);
    crate::prompt_edit::lemma_typing_bytes(text);
    lemma_typed_in(line, text);
    let keys = typing_keys(text);
    if bracketed {
        let (a, b) = (seq![Keystroke::PasteStart], seq![Keystroke::PasteEnd]);
        lemma_key_bytes_one(Keystroke::PasteStart);
        lemma_key_bytes_one(Keystroke::PasteEnd);
        lemma_key_bytes_concat(a, keys);
        lemma_key_bytes_concat(a + keys, b);
        lemma_after_keys_concat(line, a, keys);
        lemma_after_keys_concat(line, a + keys, b);
        lemma_one_key(line, Keystroke::PasteStart);
        lemma_one_key(line.after_keys(keys), Keystroke::PasteEnd);
        assert(all_plain(a) && all_plain(b));
        lemma_joined_plain(a, keys);
        lemma_joined_plain(a + keys, b);
        lemma_fed_keys(line, a + keys + b);
        assert(pasted(text, bracketed) =~= key_bytes(a + keys + b));
    } else {
        lemma_fed_keys(line, keys);
    }
}

proof fn lemma_typed_in(line: LineView, text: Seq<char>)
    requires
        line.wf(),
    ensures
        line.after_keys(typing_keys(text)) == (LineView {
            cursor: line.cursor + text.len(),
            text: line.text.take(line.cursor) + text + line.text.skip(line.cursor),
        }),
    decreases text.len(),
{
    if text.len() == 0 {
        assert(typing_keys(text) =~= Seq::empty());
        assert(line.text.take(line.cursor) + text + line.text.skip(line.cursor) =~= line.text);
    } else {
        lemma_typed_in(line, text.drop_last());
        assert(typing_keys(text).drop_last() =~= typing_keys(text.drop_last()));
        let before = line.after_keys(typing_keys(text.drop_last()));
        assert(before.text.insert(before.cursor, text.last()) =~= line.text.take(line.cursor)
            + text + line.text.skip(line.cursor));
    }
}

} // verus!
