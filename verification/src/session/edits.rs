//! What the edits that a pane sends make of the line that its shell holds.

use vstd::prelude::*;
use crate::grid::Grid;
use crate::input::{Action, EditAction, Mode, TextObject, TextObjectSpec};
use crate::line_editor::{
    fed, is_typed, law_a_delete_takes_what_it_says, law_a_rebuild_makes_the_line,
    law_an_edit_takes_what_it_says, law_replacing_puts_one_character,
    law_rewrapping_changes_both_delimiters,
    law_the_shadow_keeps_up_with_a_delete, law_toggling_puts_the_other_case,
    law_unwrapping_takes_both_delimiters, law_wrapping_puts_a_delimiter_on_either_side, place_in,
    word_after, word_before,
};
use crate::navigation::vim::surround_pair;
use crate::prompt_edit::{key_bytes, prompt_delete_keys, LineView, PromptDelete};
use crate::session::actions::{
    lemma_search_acted_not, lemma_selection_acted_not, lemma_view_moved_not,
};
use crate::session::SessionView;
use crate::text::other_case;

verus! {

broadcast use {Grid::lemma_bounds, Grid::lemma_scrolled};

/// Whether an action edits the prompt line.
spec fn edits_prompt(action: Action) -> bool {
    match action {
        Action::ChangeSurround { .. } | Action::DeleteSurround(_)
        | Action::SurroundTextObject { .. } | Action::PromptUndo | Action::PromptRedo
        | Action::Edit(_) | Action::ChangeLine | Action::ChangeToLineEnd
        | Action::ChangeToLineStart | Action::ChangeWordBack | Action::ChangeWordForward
        | Action::ChangeTextObject(_) | Action::SubstituteChar | Action::ReplaceChar(_)
        | Action::ToggleCaseChar | Action::DeleteCharForward | Action::DeleteLine
        | Action::DeleteSelection | Action::DeleteTextObject(_) | Action::DeleteToLineEnd
        | Action::DeleteToLineStart | Action::DeleteWordBack | Action::DeleteWordForward => true,
        _ => false,
    }
}

proof fn lemma_performed(s: SessionView, action: Action, selected: Option<Seq<char>>)
    requires
        edits_prompt(action),
    ensures
        s.performed(action, selected) == s.prompt_edited(action),
{
    lemma_search_acted_not(s.prompt_edited(action), action);
    lemma_view_moved_not(s.prompt_edited(action), action);
    lemma_selection_acted_not(s.prompt_edited(action), action, selected);
    reveal(SessionView::performed);
}

proof fn lemma_noted(s: SessionView, action: Action)
    ensures
        s.noted(action).state.pane == s.state.pane,
        s.noted(action).state.nav_cursor == s.state.nav_cursor,
        s.noted(action).state.shadow == s.state.shadow,
        s.noted(action).state.mode == s.state.mode,
        s.noted(action).shared == s.shared,
        s.noted(action).id == s.id,
{
    reveal(SessionView::noted);
}

proof fn lemma_acted(s: SessionView, action: Action, selected: Option<Seq<char>>)
    requires
        edits_prompt(action),
    ensures
        s.acted(action, selected) == s.noted(action).prompt_edited(action),
        s.noted(action).state.pane == s.state.pane,
        s.noted(action).state.nav_cursor == s.state.nav_cursor,
        s.noted(action).state.shadow == s.state.shadow,
        s.noted(action).state.mode == s.state.mode,
        s.noted(action).shared == s.shared,
        s.noted(action).id == s.id,
{
    lemma_noted(s, action);
    lemma_performed(s.noted(action), action, selected);
}

/// What is under the cursor on the prompt line goes by what the pane shows and where the cursor
/// is alone.
proof fn lemma_same_cols(s: SessionView, n: SessionView)
    requires
        n.state.pane == s.state.pane,
        n.state.nav_cursor == s.state.nav_cursor,
    ensures
        forall|around: bool, object: TextObject| #[trigger]
            n.object_cols(around, object) == s.object_cols(around, object),
        forall|target: char| #[trigger] n.surround_cols(target) == s.surround_cols(target),
{
}

/// The bytes that a pane has sent to its shell from one state to a later one.
pub open spec fn sent_since(s: SessionView, t: SessionView) -> Seq<u8> {
    t.state.pane->0.outbox.skip(s.state.pane->0.outbox.len() as int)
}

/// The line that the shell holds after what was sent from one state to a later one, when it
/// was `line` before.
pub open spec fn shell_line(s: SessionView, t: SessionView, line: LineView) -> LineView {
    fed(line, sent_since(s, t))
}

/// Whether the pane lives on, and what was to be sent before still is, first.
pub open spec fn goes_on(s: SessionView, t: SessionView) -> bool {
    &&& t.live()
    &&& t.state.pane->0.outbox.len() >= s.state.pane->0.outbox.len()
    &&& t.state.pane->0.outbox.take(s.state.pane->0.outbox.len() as int) == s.state.pane->0.outbox
}

/// Whether the cursor is on the prompt's row, where edits may be made.
pub open spec fn may_edit(s: SessionView) -> bool {
    &&& s.live()
    &&& s.shared.prompt_editing
    &&& match s.state.nav_cursor {
        Some((row, _)) => s.grid().top() + row == s.grid().history() + s.grid().cursor_at().0,
        None => true,
    }
}

/// The place in the shell's line that the cursor is on: as far from the shell's own cursor as
/// the cursor's column is from the shell's.
pub open spec fn place_under(s: SessionView, line: LineView) -> int {
    place_in(
        line,
        match s.state.nav_cursor {
            Some((_, col)) => col as int,
            None => s.grid().cursor_at().1 as int,
        },
        s.grid().cursor_at().1 as int,
    )
}

proof fn lemma_off_the_prompt(s: SessionView)
    requires
        s.wf(),
        s.live(),
    ensures
        may_edit(s) == (s.shared.prompt_editing && s.on_prompt()),
{
}

proof fn lemma_sent(s: SessionView, t: SessionView, bytes: Seq<u8>)
    requires
        t.live(),
        t.state.pane->0.outbox == s.state.pane->0.outbox + bytes,
    ensures
        goes_on(s, t),
        sent_since(s, t) == bytes,
{
    assert((s.state.pane->0.outbox + bytes).skip(s.state.pane->0.outbox.len() as int) =~= bytes);
    assert((s.state.pane->0.outbox + bytes).take(s.state.pane->0.outbox.len() as int)
        =~= s.state.pane->0.outbox);
}

/// Whether a shadow that had the shell's line has the text of that line again.
pub open spec fn keeps_up(s: SessionView, t: SessionView, line: LineView) -> bool {
    match s.state.shadow {
        Some(shadow) => shadow.active && shadow.wf() && shadow.history.current == line ==> {
            &&& t.state.shadow is Some
            &&& t.state.shadow->0.active
            &&& t.state.shadow->0.history.current.text == shell_line(s, t, line).text
        },
        None => t.state.shadow is None,
    }
}

/// Whether an action takes part of the prompt line away at the cursor.
pub open spec fn is_delete(action: Action) -> bool {
    match action {
        Action::DeleteCharForward | Action::DeleteLine | Action::DeleteToLineEnd
        | Action::DeleteToLineStart | Action::DeleteWordBack | Action::DeleteWordForward => true,
        _ => false,
    }
}

/// Whether an action takes part of the prompt line away at the cursor, to type something else.
pub open spec fn is_replacement(action: Action) -> bool {
    match action {
        Action::SubstituteChar | Action::ChangeLine | Action::ChangeToLineEnd
        | Action::ChangeToLineStart | Action::ChangeWordBack | Action::ChangeWordForward => true,
        _ => false,
    }
}

/// Whether what an action is to leave of `line`, with the cursor on place `at` of it, is
/// `after`.
pub open spec fn leaves(action: Action, line: LineView, at: int, after: LineView) -> bool {
    let text = line.text;
    match action {
        Action::DeleteCharForward | Action::SubstituteChar => if at < text.len() {
            after.text == text.remove(at) && after.cursor == at
        } else {
            after.text == text
        },
        Action::DeleteLine | Action::ChangeLine => after.text.len() == 0,
        Action::DeleteToLineEnd | Action::ChangeToLineEnd => after.text == text.take(at)
            && after.cursor == at,
        Action::DeleteToLineStart | Action::ChangeToLineStart => after.text == text.skip(at)
            && after.cursor == 0,
        Action::DeleteWordBack | Action::ChangeWordBack => exists|from: int, mid: int| #[trigger]
            word_before(text, from, mid, at) && after.text == text.take(from) + text.skip(at)
                && after.cursor == from,
        Action::DeleteWordForward | Action::ChangeWordForward => exists|to: int, mid: int|
            #[trigger]
            word_after(text, at, mid, to) && after.text == text.take(at) + text.skip(to)
                && after.cursor == at,
        _ => false,
    }
}

spec fn operator(action: Action) -> PromptDelete {
    match action {
        Action::DeleteCharForward | Action::SubstituteChar => PromptDelete::CharForward,
        Action::DeleteLine | Action::ChangeLine => PromptDelete::Line,
        Action::DeleteToLineEnd | Action::ChangeToLineEnd => PromptDelete::ToLineEnd,
        Action::DeleteToLineStart | Action::ChangeToLineStart => PromptDelete::ToLineStart,
        Action::DeleteWordBack | Action::ChangeWordBack => PromptDelete::WordBack,
        _ => PromptDelete::WordForward,
    }
}

proof fn lemma_delete_action(s: SessionView, action: Action)
    requires
        is_delete(action),
    ensures
        s.prompt_edited(action) == s.prompt_deleted(operator(action)),
{
    reveal(SessionView::prompt_edited);
}

proof fn lemma_change_action(s: SessionView, action: Action)
    requires
        is_replacement(action),
    ensures
        s.prompt_edited(action) == s.prompt_changed(operator(action)),
{
    reveal(SessionView::prompt_edited);
}

/// On the prompt line, each delete leaves the shell's line without what it is to take away at
/// the cursor: `D` leaves the characters before the cursor, `d0` those from it on, and so on.
/// The mode stays, and a shadow that had the shell's line has its text again.
pub proof fn law_a_delete_edits_the_line_of_the_shell(
    s: SessionView,
    action: Action,
    selected: Option<Seq<char>>,
    line: LineView,
)
    requires
        s.wf(),
        may_edit(s),
        is_delete(action),
        line.wf(),
    ensures
        ({
            let t = s.acted(action, selected);
            &&& goes_on(s, t)
            &&& leaves(action, line, place_under(s, line), shell_line(s, t, line))
            &&& t.state.mode == s.state.mode
            &&& t.state.nav_cursor == s.state.nav_cursor
            &&& t.shared.nav_resync_pending
            &&& keeps_up(s, t, line)
        }),
{
    lemma_off_the_prompt(s);
    let n = s.noted(action);
    lemma_acted(s, action, selected);
    lemma_delete_action(n, action);
    let op = operator(action);
    let t = n.prompt_deleted(op);
    lemma_sent(s, t, key_bytes(prompt_delete_keys(op, n.pty_col(), n.nav_col())));
    law_a_delete_takes_what_it_says(line, op, n.pty_col(), n.nav_col());
    if let Some(shadow) = s.state.shadow {
        if shadow.active && shadow.wf() && shadow.history.current == line {
            law_the_shadow_keeps_up_with_a_delete(shadow, op, n.pty_col(), n.nav_col());
        }
    }
}

/// On the prompt line, each change takes away what the delete of the same name does, and goes
/// to Insert mode with nothing selected.
pub proof fn law_a_change_edits_the_line_and_inserts(
    s: SessionView,
    action: Action,
    selected: Option<Seq<char>>,
    line: LineView,
)
    requires
        s.wf(),
        may_edit(s),
        is_replacement(action),
        line.wf(),
    ensures
        ({
            let t = s.acted(action, selected);
            &&& goes_on(s, t)
            &&& leaves(action, line, place_under(s, line), shell_line(s, t, line))
            &&& t.state.mode == Some(Mode::Insert)
            &&& t.shared.selection.span is None
            &&& t.shared.nav_resync_pending
            &&& keeps_up(s, t, line)
        }),
{
    lemma_off_the_prompt(s);
    let n = s.noted(action);
    lemma_acted(s, action, selected);
    lemma_change_action(n, action);
    let op = operator(action);
    let t = n.prompt_changed(op);
    lemma_sent(s, t, key_bytes(prompt_delete_keys(op, n.pty_col(), n.nav_col())));
    law_a_delete_takes_what_it_says(line, op, n.pty_col(), n.nav_col());
    if let Some(shadow) = s.state.shadow {
        if shadow.active && shadow.wf() && shadow.history.current == line {
            law_the_shadow_keeps_up_with_a_delete(shadow, op, n.pty_col(), n.nav_col());
        }
    }
}

/// `r` puts the character in the place of the one that the cursor is on, and nothing else of
/// the shell's line changes.
pub proof fn law_a_replaced_character(
    s: SessionView,
    ch: char,
    selected: Option<Seq<char>>,
    line: LineView,
)
    requires
        s.wf(),
        may_edit(s),
        line.wf(),
        is_typed(ch),
        place_under(s, line) < line.text.len(),
    ensures
        ({
            let t = s.acted(Action::ReplaceChar(ch), selected);
            let at = place_under(s, line);
            &&& goes_on(s, t)
            &&& shell_line(s, t, line).text == line.text.update(at, ch)
            &&& shell_line(s, t, line).cursor == at
            &&& t.state.mode == s.state.mode
        }),
{
    lemma_off_the_prompt(s);
    let action = Action::ReplaceChar(ch);
    let n = s.noted(action);
    lemma_acted(s, action, selected);
    assert(n.prompt_edited(action) == n.char_replaced(ch)) by {
        reveal(SessionView::prompt_edited);
    }
    lemma_sent(
        s,
        n.char_replaced(ch),
        key_bytes(crate::prompt_edit::replace_char_keys(n.pty_col(), n.nav_col(), ch)),
    );
    law_replacing_puts_one_character(line, n.pty_col(), n.nav_col(), ch);
}

/// `~` puts a letter's other case in its place, and leaves anything else alone.
pub proof fn law_a_toggled_character(s: SessionView, selected: Option<Seq<char>>, line: LineView)
    requires
        s.wf(),
        may_edit(s),
        line.wf(),
        s.nav_col() < s.grid().width(),
        place_under(s, line) < line.text.len(),
        line.text[place_under(s, line)] == s.grid().cell_at(s.prompt_row(), s.nav_col()).ch,
    ensures
        ({
            let t = s.acted(Action::ToggleCaseChar, selected);
            let at = place_under(s, line);
            let c = line.text[at];
            let after = shell_line(s, t, line);
            &&& goes_on(s, t)
            &&& 'a' <= c <= 'z' ==> after.text == line.text.update(
                at,
                (c as int - 'a' as int + 'A' as int) as char,
            )
            &&& 'A' <= c <= 'Z' ==> after.text == line.text.update(
                at,
                (c as int - 'A' as int + 'a' as int) as char,
            )
            &&& !('a' <= c <= 'z') && !('A' <= c <= 'Z') ==> sent_since(s, t).len() == 0
        }),
{
    lemma_off_the_prompt(s);
    let action = Action::ToggleCaseChar;
    let n = s.noted(action);
    lemma_acted(s, action, selected);
    assert(n.prompt_edited(action) == n.case_toggled()) by {
        reveal(SessionView::prompt_edited);
    }
    let t = n.case_toggled();
    let c = line.text[place_under(s, line)];
    match other_case(c) {
        Some(toggled) => {
            lemma_sent(
                s,
                t,
                key_bytes(
                    crate::prompt_edit::toggle_case_keys(n.pty_col(), n.nav_col(), toggled),
                ),
            );
            law_toggling_puts_the_other_case(line, n.pty_col(), n.nav_col(), toggled);
        },
        None => {
            assert(s.state.pane->0.outbox + Seq::<u8>::empty() =~= s.state.pane->0.outbox);
            lemma_sent(s, t, Seq::empty());
        },
    }
}

/// A text object that is deleted on the prompt line goes from its first column to its last,
/// and no other character does.
pub proof fn law_an_object_is_deleted_whole(
    s: SessionView,
    spec: TextObjectSpec,
    selected: Option<Seq<char>>,
    line: LineView,
    c1: usize,
    c2: usize,
)
    requires
        s.wf(),
        may_edit(s),
        line.wf(),
        s.object_cols(spec.around, spec.object) == Some((c1, c2)),
        c1 <= c2,
        0 <= line.cursor + c1 - s.grid().cursor_at().1,
        line.cursor + c2 - s.grid().cursor_at().1 < line.text.len(),
    ensures
        ({
            let i = line.cursor + c1 - s.grid().cursor_at().1;
            let j = line.cursor + c2 - s.grid().cursor_at().1;
            let t = s.acted(Action::DeleteTextObject(spec), selected);
            &&& goes_on(s, t)
            &&& shell_line(s, t, line).text == line.text.take(i) + line.text.skip(j + 1)
            &&& shell_line(s, t, line).cursor == i
            &&& t.state.mode == s.state.mode
        }),
{
    let op = PromptDelete::Range { start_col: c1, end_col: c2 };
    let action = Action::DeleteTextObject(spec);
    let n = s.noted(action);
    lemma_acted(s, action, selected);
    assert(n.prompt_edited(action) == n.object_deleted(spec.around, spec.object)) by {
        reveal(SessionView::prompt_edited);
    }
    lemma_off_the_prompt(s);
    lemma_same_cols(s, n);
    lemma_sent(
        s,
        n.object_deleted(spec.around, spec.object),
        key_bytes(prompt_delete_keys(op, s.pty_col(), s.nav_col())),
    );
    law_a_delete_takes_what_it_says(line, op, s.pty_col(), s.nav_col());
}

/// A text object that is changed on the prompt line goes as one that is deleted does, and the
/// pane is in Insert mode then.
pub proof fn law_an_object_is_changed_whole(
    s: SessionView,
    spec: TextObjectSpec,
    selected: Option<Seq<char>>,
    line: LineView,
    c1: usize,
    c2: usize,
)
    requires
        s.wf(),
        may_edit(s),
        line.wf(),
        s.object_cols(spec.around, spec.object) == Some((c1, c2)),
        c1 <= c2,
        0 <= line.cursor + c1 - s.grid().cursor_at().1,
        line.cursor + c2 - s.grid().cursor_at().1 < line.text.len(),
    ensures
        ({
            let i = line.cursor + c1 - s.grid().cursor_at().1;
            let j = line.cursor + c2 - s.grid().cursor_at().1;
            let t = s.acted(Action::ChangeTextObject(spec), selected);
            &&& goes_on(s, t)
            &&& shell_line(s, t, line).text == line.text.take(i) + line.text.skip(j + 1)
            &&& shell_line(s, t, line).cursor == i
            &&& t.state.mode == Some(Mode::Insert)
        }),
{
    let op = PromptDelete::Range { start_col: c1, end_col: c2 };
    let action = Action::ChangeTextObject(spec);
    let n = s.noted(action);
    lemma_acted(s, action, selected);
    assert(n.prompt_edited(action) == n.object_changed(spec.around, spec.object)) by {
        reveal(SessionView::prompt_edited);
    }
    lemma_off_the_prompt(s);
    lemma_same_cols(s, n);
    lemma_sent(
        s,
        n.object_changed(spec.around, spec.object),
        key_bytes(prompt_delete_keys(op, s.pty_col(), s.nav_col())),
    );
    law_a_delete_takes_what_it_says(line, op, s.pty_col(), s.nav_col());
}

/// What is selected on the prompt line goes when it is deleted, from one end to the other, and
/// the pane is in Normal mode with nothing selected.
pub proof fn law_a_selection_is_taken_whole(
    s: SessionView,
    selected: Option<Seq<char>>,
    line: LineView,
    sel: crate::pointer::Selection,
    c1: usize,
    c2: usize,
)
    requires
        s.wf(),
        may_edit(s),
        line.wf(),
        s.shared.selection.span == Some(sel),
        sel.pane == s.id,
        sel.start_row == s.prompt_row(),
        sel.end_row == s.prompt_row(),
        c1 <= c2,
        sel.start_col == c1 && sel.end_col == c2 || sel.start_col == c2 && sel.end_col == c1,
        0 <= line.cursor + c1 - s.grid().cursor_at().1,
        line.cursor + c2 - s.grid().cursor_at().1 < line.text.len(),
    ensures
        ({
            let i = line.cursor + c1 - s.grid().cursor_at().1;
            let j = line.cursor + c2 - s.grid().cursor_at().1;
            let t = s.acted(Action::DeleteSelection, selected);
            &&& goes_on(s, t)
            &&& shell_line(s, t, line).text == line.text.take(i) + line.text.skip(j + 1)
            &&& t.state.mode == Some(Mode::Normal)
            &&& t.shared.selection.span is None
        }),
{
    lemma_off_the_prompt(s);
    let op = PromptDelete::Range { start_col: c1, end_col: c2 };
    let action = Action::DeleteSelection;
    let n = s.noted(action);
    lemma_acted(s, action, selected);
    assert(n.prompt_edited(action) == n.selection_deleted()) by {
        reveal(SessionView::prompt_edited);
    }
    let bytes = key_bytes(prompt_delete_keys(op, s.pty_col(), s.nav_col()));
    lemma_sent(s, n.selection_deleted(), bytes);
    law_a_delete_takes_what_it_says(line, op, s.pty_col(), s.nav_col());
}

/// The opening and the closing delimiter that a key stands for.
pub open spec fn delimiters(d: char) -> Option<(char, char)> {
    if d == '"' {
        Some(('"', '"'))
    } else if d == '\'' {
        Some(('\'', '\''))
    } else if d == '`' {
        Some(('`', '`'))
    } else if d == '(' || d == ')' || d == 'b' {
        Some(('(', ')'))
    } else if d == '[' || d == ']' {
        Some(('[', ']'))
    } else if d == '{' || d == '}' || d == 'B' {
        Some(('{', '}'))
    } else if d == '<' || d == '>' {
        Some(('<', '>'))
    } else {
        None
    }
}

/// The delimiters around the cursor on the prompt line are taken away, both of them and nothing
/// else, or changed to those that another key stands for.
pub proof fn law_delimiters_go_in_pairs(
    s: SessionView,
    target: char,
    replacement: char,
    selected: Option<Seq<char>>,
    line: LineView,
    c1: usize,
    c2: usize,
)
    requires
        s.wf(),
        may_edit(s),
        line.wf(),
        s.surround_cols(target) == Some((c1, c2)),
        c1 < c2,
        0 <= line.cursor + c1 - s.grid().cursor_at().1,
        line.cursor + c2 - s.grid().cursor_at().1 < line.text.len(),
    ensures
        ({
            let i = line.cursor + c1 - s.grid().cursor_at().1;
            let j = line.cursor + c2 - s.grid().cursor_at().1;
            let d = s.acted(Action::DeleteSurround(target), selected);
            let c = s.acted(Action::ChangeSurround { target, replacement }, selected);
            &&& goes_on(s, d)
            &&& shell_line(s, d, line).text == line.text.take(i) + line.text.subrange(i + 1, j)
                + line.text.skip(j + 1)
            &&& match delimiters(replacement) {
                Some((open, close)) => goes_on(s, c) && shell_line(s, c, line).text
                    == line.text.update(i, open).update(j, close),
                None => c.state.pane == s.state.pane,
            }
        }),
{
    lemma_off_the_prompt(s);
    let da = Action::DeleteSurround(target);
    let ca = Action::ChangeSurround { target, replacement };
    let dn = s.noted(da);
    let cn = s.noted(ca);
    lemma_acted(s, da, selected);
    lemma_acted(s, ca, selected);
    assert(dn.prompt_edited(da) == dn.surround_deleted(target)) by {
        reveal(SessionView::prompt_edited);
    }
    assert(cn.prompt_edited(ca) == cn.surround_changed(target, replacement)) by {
        reveal(SessionView::prompt_edited);
    }
    lemma_same_cols(s, dn);
    lemma_same_cols(s, cn);
    lemma_sent(
        s,
        dn.surround_deleted(target),
        key_bytes(
            crate::prompt_edit::delete_surround_keys(
                s.pty_col(),
                c1 as int,
                c2 as int,
                s.nav_col(),
            ),
        ),
    );
    law_unwrapping_takes_both_delimiters(line, s.pty_col(), c1 as int, c2 as int, s.nav_col());
    match surround_pair(replacement) {
        Some((open, close, _)) => {
            lemma_sent(
                s,
                cn.surround_changed(target, replacement),
                key_bytes(
                    crate::prompt_edit::change_surround_keys(
                        s.pty_col(),
                        c1 as int,
                        open,
                        c2 as int,
                        close,
                        s.nav_col(),
                    ),
                ),
            );
            law_rewrapping_changes_both_delimiters(
                line,
                s.pty_col(),
                c1 as int,
                open,
                c2 as int,
                close,
                s.nav_col(),
            );
        },
        None => {},
    }
}

/// A text object on the prompt line is wrapped in the delimiters that a key stands for: the
/// opening one before its first column, the closing one after its last.
pub proof fn law_an_object_is_wrapped(
    s: SessionView,
    spec: TextObjectSpec,
    delimiter: char,
    selected: Option<Seq<char>>,
    line: LineView,
    c1: usize,
    c2: usize,
)
    requires
        s.wf(),
        may_edit(s),
        line.wf(),
        s.object_cols(spec.around, spec.object) == Some((c1, c2)),
        c1 <= c2,
        0 <= line.cursor + c1 - s.grid().cursor_at().1,
        line.cursor + c2 - s.grid().cursor_at().1 < line.text.len(),
    ensures
        ({
            let i = line.cursor + c1 - s.grid().cursor_at().1;
            let j = line.cursor + c2 - s.grid().cursor_at().1;
            let t = s.acted(Action::SurroundTextObject { spec, delimiter }, selected);
            match delimiters(delimiter) {
                Some((open, close)) => goes_on(s, t) && shell_line(s, t, line).text
                    == line.text.take(i).push(open) + line.text.subrange(i, j + 1).push(close)
                    + line.text.skip(j + 1),
                None => t.state.pane == s.state.pane,
            }
        }),
{
    lemma_off_the_prompt(s);
    let action = Action::SurroundTextObject { spec, delimiter };
    let n = s.noted(action);
    lemma_acted(s, action, selected);
    assert(n.prompt_edited(action) == n.object_surrounded(
        spec.around,
        spec.object,
        delimiter,
    )) by {
        reveal(SessionView::prompt_edited);
    }
    lemma_same_cols(s, n);
    match surround_pair(delimiter) {
        Some((open, close, _)) => {
            lemma_sent(
                s,
                n.object_surrounded(spec.around, spec.object, delimiter),
                key_bytes(
                    crate::prompt_edit::add_surround_keys(
                        s.pty_col(),
                        c1 as int,
                        c2 as int,
                        open,
                        close,
                        s.nav_col(),
                    ),
                ),
            );
            law_wrapping_puts_a_delimiter_on_either_side(
                line,
                s.pty_col(),
                c1 as int,
                c2 as int,
                open,
                close,
                s.nav_col(),
            );
        },
        None => {},
    }
}

/// An edit in Insert mode takes away what it says, from the shell's own cursor, and the mode
/// stays.
pub proof fn law_an_edit_while_inserting(
    s: SessionView,
    edit: EditAction,
    selected: Option<Seq<char>>,
    line: LineView,
)
    requires
        s.live(),
        line.wf(),
    ensures
        ({
            let t = s.acted(Action::Edit(edit), selected);
            let after = shell_line(s, t, line);
            let at = line.cursor;
            &&& goes_on(s, t)
            &&& t.state.mode == s.state.mode
            &&& match edit {
                EditAction::DeleteToLineEnd => after.text == line.text.take(at),
                EditAction::DeleteToLineStart => after.text == line.text.skip(at),
                EditAction::DeleteWordBackward => leaves(Action::DeleteWordBack, line, at, after),
                EditAction::DeleteWordForward => leaves(
                    Action::DeleteWordForward,
                    line,
                    at,
                    after,
                ),
            }
        }),
{
    let action = Action::Edit(edit);
    let n = s.noted(action);
    lemma_acted(s, action, selected);
    assert(n.prompt_edited(action) == n.edited(edit)) by {
        reveal(SessionView::prompt_edited);
    }
    lemma_sent(
        s,
        n.edited(edit),
        crate::prompt_edit::keystroke_bytes(crate::prompt_edit::edit_action_key(edit)),
    );
    law_an_edit_takes_what_it_says(line, edit);
}

/// Undo at the prompt sends the line editor's own undo, `Ctrl-_`, and the shadow takes a step
/// back with it. Redo makes the shell's line the one that was undone, as the shadow has it.
pub proof fn law_undo_and_redo_at_the_prompt(
    s: SessionView,
    selected: Option<Seq<char>>,
    line: LineView,
)
    requires
        s.wf(),
        s.live(),
        s.shared.prompt_editing,
        s.state.pane->0.at_prompt,
        line.wf(),
    ensures
        ({
            let u = s.acted(Action::PromptUndo, selected);
            let r = s.acted(Action::PromptRedo, selected);
            &&& goes_on(s, u) && sent_since(s, u) == seq![0x1fu8]
            &&& s.state.shadow matches Some(shadow) ==> {
                &&& shadow.active && shadow.history.past.len() > 0 ==> u.state.shadow is Some
                    && u.state.shadow->0.history.current == shadow.history.past.last()
                &&& shadow.active && shadow.history.future.len() > 0 ==> {
                    let next = shadow.history.future[0];
                    (forall|i: int| 0 <= i < next.text.len() ==> is_typed(#[trigger] next.text[i]))
                        ==> goes_on(s, r) && shell_line(s, r, line) == next
                        && r.state.shadow is Some && r.state.shadow->0.history.current == next
                }
                &&& !(shadow.active && shadow.history.future.len() > 0) ==> r.state.pane
                    == s.state.pane
            }
        }),
{
    let ua = Action::PromptUndo;
    let ra = Action::PromptRedo;
    let un = s.noted(ua);
    let rn = s.noted(ra);
    lemma_acted(s, ua, selected);
    lemma_acted(s, ra, selected);
    assert(un.prompt_edited(ua) == un.prompt_undone()) by {
        reveal(SessionView::prompt_edited);
    }
    assert(rn.prompt_edited(ra) == rn.prompt_redone()) by {
        reveal(SessionView::prompt_edited);
    }
    lemma_sent(s, un.prompt_undone(), seq![0x1fu8]);
    if let Some(shadow) = s.state.shadow {
        if shadow.active && shadow.history.future.len() > 0 {
            let next = shadow.history.future[0];
            assert(shadow.history.redone().current == next);
            let bracketed = s.state.pane->0.bracketed_paste;
            lemma_sent(
                s,
                rn.prompt_redone(),
                key_bytes(crate::prompt_edit::rebuild_keys(next, bracketed)),
            );
            if forall|i: int| 0 <= i < next.text.len() ==> is_typed(#[trigger] next.text[i]) {
                law_a_rebuild_makes_the_line(line, next, bracketed);
            }
        }
    }
}

/// Whether an action needs the cursor on the prompt's row.
pub open spec fn needs_prompt(action: Action) -> bool {
    ||| is_delete(action)
    ||| is_replacement(action)
    ||| action is ReplaceChar
    ||| action is ToggleCaseChar
    ||| action is DeleteSurround
    ||| action is ChangeSurround
    ||| action is SurroundTextObject
}

proof fn lemma_refused(s: SessionView, action: Action)
    requires
        needs_prompt(action),
        s.live(),
        !(s.shared.prompt_editing && s.on_prompt()),
    ensures
        s.prompt_edited(action).state == s.state,
        s.prompt_edited(action).shared.notice is Some,
{
    if is_delete(action) {
        lemma_delete_action(s, action);
    } else if is_replacement(action) {
        lemma_change_action(s, action);
    } else if let Action::ReplaceChar(ch) = action {
        assert(s.prompt_edited(action) == s.char_replaced(ch)) by {
            reveal(SessionView::prompt_edited);
        }
    } else if let Action::ToggleCaseChar = action {
        assert(s.prompt_edited(action) == s.case_toggled()) by {
            reveal(SessionView::prompt_edited);
        }
    } else if let Action::DeleteSurround(target) = action {
        assert(s.prompt_edited(action) == s.surround_deleted(target)) by {
            reveal(SessionView::prompt_edited);
        }
    } else if let Action::ChangeSurround { target, replacement } = action {
        assert(s.prompt_edited(action) == s.surround_changed(target, replacement)) by {
            reveal(SessionView::prompt_edited);
        }
    } else if let Action::SurroundTextObject { spec, delimiter } = action {
        assert(s.prompt_edited(action) == s.object_surrounded(
            spec.around,
            spec.object,
            delimiter,
        )) by {
            reveal(SessionView::prompt_edited);
        }
    }
}

/// Away from the prompt's row, and where the shell takes other keys, nothing is sent and
/// nothing changes but that a notice says so.
pub proof fn law_an_edit_elsewhere_is_refused(
    s: SessionView,
    action: Action,
    selected: Option<Seq<char>>,
)
    requires
        s.wf(),
        needs_prompt(action),
        s.live(),
        !may_edit(s),
    ensures
        s.acted(action, selected).state.pane == s.state.pane,
        s.acted(action, selected).state.mode == s.state.mode,
        s.acted(action, selected).state.shadow == s.state.shadow,
        s.acted(action, selected).shared.notice is Some,
{
    lemma_acted(s, action, selected);
    let n = s.noted(action);
    lemma_off_the_prompt(s);
    lemma_refused(n, action);
}

} // verus!
