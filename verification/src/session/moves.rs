//! What the actions that move the view and the cursor, copy and paste do to a pane.

use vstd::prelude::*;
use crate::grid::Grid;
use crate::input::{Action, CursorMove, VisualKind};
use crate::line_editor::{fed, is_typed, law_a_paste_is_put_in_at_the_cursor};
use crate::navigation::cursor::moved;
use crate::pointer::visual_span;
use crate::prompt_edit::LineView;
use crate::session::actions::{
    lemma_noted_not, lemma_prompt_edited_not, lemma_search_acted_not, lemma_selection_acted_not,
    lemma_view_moved_not,
};
use crate::session::{EffectView, SessionView};

verus! {

broadcast use {Grid::lemma_bounds, Grid::lemma_scrolled};

/// Whether an action scrolls the view.
pub open spec fn is_scroll(action: Action) -> bool {
    ||| action is ScrollPageUp
    ||| action is ScrollPageDown
    ||| action is ScrollLineUp
    ||| action is ScrollLineDown
    ||| action is ScrollToTop
    ||| action is ScrollToBottom
}

proof fn lemma_motion_only(s: SessionView, action: Action, selected: Option<Seq<char>>)
    requires
        is_scroll(action) || action is MoveCursor,
    ensures
        s.acted(action, selected) == s.view_moved(action),
{
    lemma_noted_not(s, action);
    lemma_prompt_edited_not(s, action);
    lemma_search_acted_not(s, action);
    lemma_selection_acted_not(s.view_moved(action), action, selected);
    reveal(SessionView::performed);
}

/// The view scrolls by a line or by its height, or to either end of the buffer, no further than
/// there are rows. The cursor stays on its row of the view.
pub proof fn law_the_view_scrolls_as_it_is_told(
    s: SessionView,
    action: Action,
    selected: Option<Seq<char>>,
)
    requires
        s.wf(),
        s.live(),
    ensures
        ({
            let t = s.acted(action, selected);
            let (top, end, h) = (s.grid().top(), s.grid().history(), s.grid().height());
            match action {
                Action::ScrollLineUp => t.grid().top() == (if top > 0 {
                    top - 1
                } else {
                    0
                }),
                Action::ScrollLineDown => t.grid().top() == (if top < end {
                    top + 1
                } else {
                    end
                }),
                Action::ScrollPageUp => t.grid().top() == (if top > h {
                    top - h
                } else {
                    0
                }),
                Action::ScrollPageDown => t.grid().top() == (if top + h < end {
                    top + h
                } else {
                    end
                }),
                Action::ScrollToTop => t.grid().top() == 0,
                Action::ScrollToBottom => t.grid().top() == end,
                _ => true,
            }
        }),
        is_scroll(action) ==> s.acted(action, selected).state.nav_cursor == s.state.nav_cursor
            && s.acted(action, selected).state.mode == s.state.mode,
{
    if is_scroll(action) {
        lemma_motion_only(s, action, selected);
        lemma_scroll(s, action);
    }
}

proof fn lemma_scroll(s: SessionView, action: Action)
    requires
        is_scroll(action),
        s.live(),
    ensures
        ({
            let g = s.grid();
            let offset = match action {
                Action::ScrollPageUp => g.offset() + g.height(),
                Action::ScrollPageDown => crate::text::minus(g.offset(), g.height()),
                Action::ScrollLineUp => g.offset() + 1,
                Action::ScrollLineDown => crate::text::minus(g.offset(), 1),
                Action::ScrollToTop => g.history(),
                _ => 0,
            };
            s.view_moved(action) == s.with_grid(g.scrolled(offset)).redrawn()
        }),
{
    reveal(SessionView::view_moved);
}

/// A motion puts the cursor where the motion lands, with the view as the motion leaves it.
pub proof fn law_a_motion_moves_the_cursor(
    s: SessionView,
    mv: CursorMove,
    selected: Option<Seq<char>>,
)
    requires
        s.live(),
    ensures
        ({
            let t = s.acted(Action::MoveCursor(mv), selected);
            let from = match s.state.nav_cursor {
                Some(pos) => (pos.0 as int, pos.1 as int),
                None => (s.grid().cursor_at().0 as int, s.grid().cursor_at().1 as int),
            };
            let l = moved(s.grid(), from, mv);
            &&& t.live()
            &&& t.grid() == l.grid
            &&& t.state.nav_cursor == Some((l.row as usize, l.col as usize))
            &&& t.state.mode == s.state.mode
        }),
{
    let action = Action::MoveCursor(mv);
    lemma_motion_only(s, action, selected);
    assert(s.view_moved(action) == s.cursor_moved(mv).extended()) by {
        reveal(SessionView::view_moved);
    }
}

proof fn lemma_selection_only(s: SessionView, action: Action, selected: Option<Seq<char>>)
    requires
        action is Copy || action is YankSelection || action is YankSelectionRegister,
    ensures
        s.acted(action, selected) == s.selection_acted(action, selected),
{
    lemma_noted_not(s, action);
    lemma_prompt_edited_not(s, action);
    lemma_search_acted_not(s, action);
    lemma_view_moved_not(s, action);
    reveal(SessionView::performed);
}

/// What is selected is copied as it is, and nothing when nothing is. To yank it copies it too.
pub proof fn law_what_is_selected_is_copied(s: SessionView, text: Seq<char>)
    ensures
        ({
            let t = s.acted(Action::Copy, Some(text));
            &&& t.shared.effects.len() == s.shared.effects.len() + 1
            &&& t.shared.effects.drop_last() == s.shared.effects
            &&& t.shared.effects.last() matches EffectView::Copy { text: copied, .. } && copied
                == text
            &&& t.state == s.state
        }),
        s.acted(Action::Copy, None) == s,
{
    lemma_selection_only(s, Action::Copy, Some(text));
    lemma_selection_only(s, Action::Copy, None);
    assert(s.selection_acted(Action::Copy, Some(text)) == s.selection_copied(Some(text))) by {
        reveal(SessionView::selection_acted);
    }
    assert(s.selection_acted(Action::Copy, None) == s.selection_copied(None)) by {
        reveal(SessionView::selection_acted);
    }
    assert(s.selection_copied(Some(text)).shared.effects.drop_last() =~= s.shared.effects);
}

/// A register gives what it holds to the shell's line at its cursor; `+` and `*` stand for the
/// clipboard.
pub proof fn law_a_register_is_pasted(s: SessionView, register: char, line: LineView)
    requires
        s.live(),
        line.wf(),
    ensures
        ({
            let t = s.register_pasted(register);
            let old = s.state.pane->0.outbox;
            &&& register == '+' || register == '*' ==> t.shared.effects == s.shared.effects.push(
                EffectView::PasteClipboard,
            ) && t.state == s.state
            &&& register != '+' && register != '*' && s.shared.registers.contains_key(
                register as u32,
            ) ==> {
                let text = s.shared.registers[register as u32];
                (forall|i: int| 0 <= i < text.len() ==> is_typed(#[trigger] text[i])) ==> {
                    &&& t.state.pane->0.outbox.len() >= old.len()
                    &&& t.state.pane->0.outbox.take(old.len() as int) == old
                    &&& fed(line, t.state.pane->0.outbox.skip(old.len() as int)).text
                        == line.text.take(line.cursor) + text + line.text.skip(line.cursor)
                }
            }
            &&& register != '+' && register != '*' && !s.shared.registers.contains_key(
                register as u32,
            ) ==> t == s
        }),
{
    if register != '+' && register != '*' && s.shared.registers.contains_key(register as u32) {
        let text = s.shared.registers[register as u32];
        let old = s.state.pane->0.outbox;
        let bytes = crate::pointer::clipboard::pasted(text, s.state.pane->0.bracketed_paste);
        let t = s.register_pasted(register);
        assert(t.state.pane->0.outbox == old + bytes);
        assert((old + bytes).skip(old.len() as int) =~= bytes);
        assert((old + bytes).take(old.len() as int) =~= old);
        if forall|i: int| 0 <= i < text.len() ==> is_typed(#[trigger] text[i]) {
            law_a_paste_is_put_in_at_the_cursor(line, text, s.state.pane->0.bracketed_paste);
        }
    }
}

/// A Visual selection goes from the anchor to the cursor, cell by cell or as a rectangle between
/// the two; linewise it takes all columns of every row between them.
pub proof fn law_a_visual_selection_spans_its_ends(
    kind: VisualKind,
    pane: crate::input::PaneId,
    anchor: (usize, usize),
    cursor: (usize, usize),
    cols: usize,
)
    requires
        cols > 0,
    ensures
        ({
            let sel = visual_span(kind, pane, anchor, (cursor.0 as int, cursor.1), cols as int);
            &&& sel.pane == pane
            &&& sel.block == (kind == VisualKind::Block)
            &&& kind != VisualKind::Line ==> (sel.start_row, sel.start_col) == anchor && (
            sel.end_row, sel.end_col) == cursor
            &&& kind == VisualKind::Line ==> {
                &&& sel.start_col == 0 && sel.end_col == cols - 1
                &&& sel.start_row <= anchor.0 <= sel.end_row
                &&& sel.start_row <= cursor.0 <= sel.end_row
                &&& sel.start_row == anchor.0 || sel.start_row == cursor.0
                &&& sel.end_row == anchor.0 || sel.end_row == cursor.0
            }
        }),
{
}

} // verus!
