//! The palette at work: the lists it shows, and what choosing from them does.

use vstd::prelude::*;
use crate::app::{
    copy_option, lemma_put_back, lemma_session, lemma_with_session, phrase, App, AppView, Keymap,
    Modifiers,
};
use crate::events::{
    key_code, parse_mux_attach_query, parse_mux_spawn_query, query_parts, split_words, texts,
    winit_key_to_code, words_from, LogicalKey, LogicalView, NamedKey, PhysicalKey,
};
use crate::grid::Grid;
use crate::input::{Key, Mode, PaneId};
use crate::navigation::search::string_view;
use crate::navigation::swoop::{extract_swoop_lines, swoop_rows, swoop_views};
use crate::pages::PagesView;
use crate::palette::{
    entry_views, EntryView, Palette, PaletteEntry, PaletteMode, PaletteView,
};
use crate::requests::{Request, RequestView};
use crate::session::{BlockView, SessionView, StateView};
use crate::text::{
    append_str, chars_of, decimal, decimal_chars, is_control_char, lowered, parse_number,
    parsed_number, same_text, string_of, trim_text, trimmed,
};

verus! {

broadcast use {
    Grid::lemma_bounds,
    Grid::lemma_scrolled,
    vstd::std_specs::hash::group_hash_axioms,
    lemma_put_back,
    lemma_session,
    lemma_with_session,
};

/// How many queries are remembered.
pub const PALETTE_HISTORY: usize = 100;

// ------------------------------------------------------------------------
// Lists
// ------------------------------------------------------------------------

/// A line that says what choosing it stands for.
pub open spec fn plain_entry(text: Seq<char>) -> EntryView {
    EntryView { action: text, label: text, shortcut: Seq::empty() }
}

/// Lines that say what choosing them stands for.
pub open spec fn plain_entries(list: Seq<Seq<char>>) -> Seq<EntryView> {
    Seq::new(list.len(), |i: int| plain_entry(list[i]))
}

/// A line of the buffer to jump to.
pub open spec fn swoop_entry(row: int, text: Seq<char>) -> EntryView {
    EntryView { action: decimal(row as nat), label: text, shortcut: Seq::empty() }
}

/// The lines of the buffer to jump between.
pub open spec fn swoop_entries(lines: Seq<(int, Seq<char>)>) -> Seq<EntryView> {
    Seq::new(lines.len(), |i: int| swoop_entry(lines[i].0, lines[i].1))
}

/// The directories that the last `n` of `blocks` ran in, the latest first, each once.
pub open spec fn recent_dirs(blocks: Seq<BlockView>, n: int) -> Seq<Seq<char>>
    decreases n,
{
    if n <= 0 {
        Seq::empty()
    } else {
        let later = recent_dirs(blocks, n - 1);
        match blocks[blocks.len() - n].cwd {
            Some(dir) => if later.contains(dir) {
                later
            } else {
                later.push(dir)
            },
            None => later,
        }
    }
}

/// A text list with `text` in front of what else it holds, as far as lists go.
pub open spec fn remembered(history: Seq<Seq<char>>, text: Seq<char>) -> Seq<Seq<char>> {
    let all = seq![text] + texts_without(history, text);
    all.take(if all.len() <= PALETTE_HISTORY {
        all.len() as int
    } else {
        PALETTE_HISTORY as int
    })
}

/// `history` without `text`.
pub open spec fn texts_without(history: Seq<Seq<char>>, text: Seq<char>) -> Seq<Seq<char>>
    decreases history.len(),
{
    if history.len() == 0 {
        history
    } else {
        let rest = texts_without(history.drop_last(), text);
        if history.last() == text {
            rest
        } else {
            rest.push(history.last())
        }
    }
}

fn plain_list(list: &Vec<String>) -> (r: Vec<PaletteEntry>)
    ensures
        entry_views(r@) == plain_entries(texts(list@)),
{
    let mut entries: Vec<PaletteEntry> = Vec::new();
    let mut i: usize = 0;
    while i < list.len()
        invariant
            i <= list@.len(),
            entries@.len() == i,
            forall|j: int| 0 <= j < i ==> (#[trigger] entries@[j])@ == plain_entry(list@[j]@),
        decreases list@.len() - i,
    {
        let text: &str = list[i].as_str();
        let shortcut = String::new();
        assert(shortcut@ =~= Seq::empty());
        entries.push(
            PaletteEntry { action: text.to_owned(), label: text.to_owned(), shortcut },
        );
        i = i + 1;
    }
    assert(entry_views(entries@) =~= plain_entries(texts(list@)));
    entries
}

fn copy_entries(list: &Vec<PaletteEntry>) -> (r: Vec<PaletteEntry>)
    ensures
        entry_views(r@) == entry_views(list@),
{
    let mut entries: Vec<PaletteEntry> = Vec::new();
    let mut i: usize = 0;
    while i < list.len()
        invariant
            i <= list@.len(),
            entries@.len() == i,
            forall|j: int| 0 <= j < i ==> (#[trigger] entries@[j])@ == list@[j]@,
        decreases list@.len() - i,
    {
        entries.push(
            PaletteEntry {
                action: list[i].action.as_str().to_owned(),
                label: list[i].label.as_str().to_owned(),
                shortcut: list[i].shortcut.as_str().to_owned(),
            },
        );
        i = i + 1;
    }
    assert(entry_views(entries@) =~= entry_views(list@));
    entries
}

fn swoop_list(grid: &Grid) -> (r: Vec<PaletteEntry>)
    requires
        grid.wf(),
    ensures
        entry_views(r@) == swoop_entries(swoop_rows(*grid, grid.total())),
{
    let lines = extract_swoop_lines(grid);
    let ghost rows = swoop_rows(*grid, grid.total());
    let mut entries: Vec<PaletteEntry> = Vec::new();
    let mut i: usize = 0;
    while i < lines.len()
        invariant
            i <= lines@.len(),
            swoop_views(lines@) == rows,
            entries@.len() == i,
            forall|j: int|
                0 <= j < i ==> (#[trigger] entries@[j])@ == swoop_entry(rows[j].0, rows[j].1),
        decreases lines@.len() - i,
    {
        let action = string_of(&decimal_chars(lines[i].0 as u64));
        let shortcut = String::new();
        assert(shortcut@ =~= Seq::empty());
        assert(swoop_views(lines@)[i as int] == (lines@[i as int].0 as int, lines@[i as int].1@));
        entries.push(PaletteEntry { action, label: lines[i].1.as_str().to_owned(), shortcut });
        i = i + 1;
    }
    assert(entry_views(entries@) =~= swoop_entries(rows));
    entries
}

// ------------------------------------------------------------------------
// Sessions to choose from
// ------------------------------------------------------------------------

/// A multiplexer session.
#[derive(Debug)]
pub struct SessionInfo {
    pub attached: u64,
    pub cols: u64,
    pub command: String,
    pub name: String,
    pub rows: u64,
    /// How long it has run, as a text.
    pub uptime: String,
}

/// What came of asking the multiplexer for its sessions.
#[derive(Debug)]
pub enum SessionList {
    Sessions(Vec<SessionInfo>),
    /// There is no multiplexer to ask.
    Unreachable,
    /// It did not answer.
    Unanswered,
}

/// A session as a list shows it. Its first word is the session's name.
pub open spec fn session_line(session: SessionInfo) -> Seq<char> {
    session.name@ + " ("@ + decimal(session.cols as nat) + "x"@ + decimal(session.rows as nat)
        + ", up "@ + session.uptime@ + ", "@ + decimal(session.attached as nat) + " attached) - "@
        + session.command@
}

/// What a list of sessions shows. A line that names none starts with `(`.
pub open spec fn session_lines(list: SessionList, fallback: Seq<char>) -> Seq<Seq<char>> {
    match list {
        SessionList::Sessions(sessions) => if sessions@.len() == 0 {
            seq![fallback]
        } else {
            Seq::new(sessions@.len(), |i: int| session_line(sessions@[i]))
        },
        SessionList::Unreachable => seq![
            "(no daemon running — start with 'winter mux serve')"@,
        ],
        SessionList::Unanswered => seq!["(could not query sessions)"@],
    }
}

fn session_text(session: &SessionInfo) -> (r: String)
    ensures
        r@ == session_line(*session),
{
    let mut out = chars_of(session.name.as_str());
    append_str(&mut out, " (");
    crate::text::append_chars(&mut out, &decimal_chars(session.cols));
    append_str(&mut out, "x");
    crate::text::append_chars(&mut out, &decimal_chars(session.rows));
    append_str(&mut out, ", up ");
    append_str(&mut out, session.uptime.as_str());
    append_str(&mut out, ", ");
    crate::text::append_chars(&mut out, &decimal_chars(session.attached));
    append_str(&mut out, " attached) - ");
    append_str(&mut out, session.command.as_str());
    string_of(&out)
}

/// What a list of sessions shows. `fallback` is offered when there is none.
pub fn mux_session_entries(list: &SessionList, fallback: &str) -> (r: Vec<String>)
    ensures
        texts(r@) == session_lines(*list, fallback@),
{
    let mut lines: Vec<String> = Vec::new();
    match list {
        SessionList::Sessions(sessions) => {
            if sessions.len() == 0 {
                lines.push(fallback.to_owned());
                assert(texts(lines@) =~= seq![fallback@]);
                return lines;
            }
            let mut i: usize = 0;
            while i < sessions.len()
                invariant
                    i <= sessions@.len(),
                    lines@.len() == i,
                    forall|j: int|
                        0 <= j < i ==> (#[trigger] lines@[j])@ == session_line(sessions@[j]),
                decreases sessions@.len() - i,
            {
                lines.push(session_text(&sessions[i]));
                i = i + 1;
            }
            assert(texts(lines@) =~= session_lines(*list, fallback@));
        },
        SessionList::Unreachable => {
            lines.push("(no daemon running — start with 'winter mux serve')".to_owned());
            assert(texts(lines@) =~= session_lines(*list, fallback@));
        },
        SessionList::Unanswered => {
            lines.push("(could not query sessions)".to_owned());
            assert(texts(lines@) =~= session_lines(*list, fallback@));
        },
    }
    lines
}

/// The session that a line names: its first word, or all of it where it has none.
pub open spec fn session_named(line: Seq<char>) -> Seq<char> {
    if words_from(line, 0).len() > 0 {
        words_from(line, 0)[0]
    } else {
        line
    }
}

fn session_name(line: &str) -> (r: String)
    ensures
        r@ == session_named(line@),
{
    let mut words = split_words(line);
    if words.len() > 0 {
        assert(texts(words@)[0] == words@[0]@);
        words.remove(0)
    } else {
        line.to_owned()
    }
}

/// Whether a line names no session.
pub open spec fn is_notice_line(name: Seq<char>) -> bool {
    name.len() > 0 && name[0] == '('
}

fn names_session(name: &str) -> (r: bool)
    ensures
        r == !is_notice_line(name@),
{
    let chars = chars_of(name);
    !(chars.len() > 0 && chars[0] == '(')
}

/// A text between single quotes for a shell: nothing in it is special but the quote
/// itself, which ends the quotes, stands escaped, and starts them again.
pub open spec fn quote_escaped(text: Seq<char>, n: int) -> Seq<char>
    decreases n,
{
    if n <= 0 {
        Seq::empty()
    } else if text[n - 1] == '\'' {
        quote_escaped(text, n - 1) + "'\\''"@
    } else {
        quote_escaped(text, n - 1).push(text[n - 1])
    }
}

/// What takes a shell to `dir`.
pub open spec fn cd_command(dir: Seq<char>) -> Seq<char> {
    "cd '"@ + quote_escaped(dir, dir.len() as int) + "'\n"@
}

/// Whether `text` holds no control character.
pub open spec fn no_controls(text: Seq<char>) -> bool {
    forall|i: int| 0 <= i < text.len() ==> !is_control_char(#[trigger] text[i])
}

/// What takes a shell to `dir`, unless it holds a control character: one could end the
/// line and start another.
pub fn cd_line(dir: &str) -> (r: Option<String>)
    ensures
        string_view(r) == (if no_controls(dir@) {
            Some(cd_command(dir@))
        } else {
            None
        }),
{
    let chars = chars_of(dir);
    let mut out: Vec<char> = Vec::new();
    let mut n: usize = 0;
    while n < chars.len()
        invariant
            n <= chars@.len(),
            chars@ == dir@,
            out@ == quote_escaped(chars@, n as int),
            forall|i: int| 0 <= i < n ==> !is_control_char(#[trigger] chars@[i]),
        decreases chars@.len() - n,
    {
        if chars[n].is_control() {
            assert(is_control_char(dir@[n as int]));
            return None;
        }
        if chars[n] == '\'' {
            append_str(&mut out, "'\\''");
        } else {
            out.push(chars[n]);
        }
        n = n + 1;
    }
    let quoted = string_of(&out);
    Some(phrase("cd '", quoted.as_str(), "'\n"))
}

/// How a shell reads on: bare, after a backslash, between single quotes, or not in this
/// word any more.
pub enum Reading {
    Bare,
    Escaped,
    Over,
    Quoted,
}

/// The word that a shell reads in the first `n` characters of `text`, and how it reads on.
pub open spec fn shell_word(text: Seq<char>, n: int) -> (Seq<char>, Reading)
    decreases n,
{
    if n <= 0 {
        (Seq::empty(), Reading::Bare)
    } else {
        let (word, reading) = shell_word(text, n - 1);
        let c = text[n - 1];
        match reading {
            Reading::Bare => if c == '\'' {
                (word, Reading::Quoted)
            } else if c == '\\' {
                (word, Reading::Escaped)
            } else {
                (word, Reading::Over)
            },
            Reading::Escaped => (word.push(c), Reading::Bare),
            Reading::Over => (word, Reading::Over),
            Reading::Quoted => if c == '\'' {
                (word, Reading::Bare)
            } else {
                (word.push(c), Reading::Quoted)
            },
        }
    }
}

proof fn lemma_shell_word_prefix(text: Seq<char>, more: Seq<char>, n: int)
    requires
        n <= text.len(),
    ensures
        shell_word(text + more, n) == shell_word(text, n),
    decreases n,
{
    if n > 0 {
        lemma_shell_word_prefix(text, more, n - 1);
        assert((text + more)[n - 1] == text[n - 1]);
    }
}

proof fn lemma_quoted_reads_back(dir: Seq<char>, n: int)
    requires
        0 <= n <= dir.len(),
    ensures
        ({
            let text = "'"@ + quote_escaped(dir, n);
            shell_word(text, text.len() as int) == (dir.take(n), Reading::Quoted)
        }),
    decreases n,
{
    reveal_strlit("'");
    reveal_strlit("'\\''");
    let text = "'"@ + quote_escaped(dir, n);
    if n == 0 {
        reveal_with_fuel(shell_word, 2);
        assert(dir.take(0) =~= Seq::empty());
    } else {
        lemma_quoted_reads_back(dir, n - 1);
        let before = "'"@ + quote_escaped(dir, n - 1);
        let at = before.len() as int;
        let more = if dir[n - 1] == '\'' {
            "'\\''"@
        } else {
            seq![dir[n - 1]]
        };
        assert(text =~= before + more);
        lemma_shell_word_prefix(before, more, at);
        assert(dir.take(n) =~= dir.take(n - 1).push(dir[n - 1]));
        if dir[n - 1] == '\'' {
            assert(text[at] == '\'');
            assert(text[at + 1] == '\\');
            assert(text[at + 2] == '\'');
            assert(text[at + 3] == '\'');
            assert(shell_word(text, at + 1) == (dir.take(n - 1), Reading::Bare));
            assert(shell_word(text, at + 2) == (dir.take(n - 1), Reading::Escaped));
            assert(shell_word(text, at + 3) == (dir.take(n), Reading::Bare));
            assert(shell_word(text, at + 4) == (dir.take(n), Reading::Quoted));
        } else {
            assert(shell_word(text, at + 1) == (dir.take(n), Reading::Quoted));
        }
    }
}

proof fn lemma_no_controls(dir: Seq<char>, n: int)
    requires
        no_controls(dir),
        0 <= n <= dir.len(),
    ensures
        no_controls(quote_escaped(dir, n)),
    decreases n,
{
    reveal_strlit("'\\''");
    if n > 0 {
        lemma_no_controls(dir, n - 1);
        let before = quote_escaped(dir, n - 1);
        let all = quote_escaped(dir, n);
        assert forall|i: int| 0 <= i < all.len() implies !is_control_char(#[trigger] all[i]) by {
            if i < before.len() {
                assert(all[i] == before[i]);
            }
        }
    }
}

/// The name of a directory is one word to the shell, and the same name, whatever it holds:
/// it cannot end the line that takes the shell there.
pub proof fn law_a_directory_cannot_end_its_line(dir: Seq<char>)
    requires
        no_controls(dir),
    ensures
        ({
            let word = "'"@ + quote_escaped(dir, dir.len() as int) + "'"@;
            &&& cd_command(dir) == "cd "@ + word + "\n"@
            &&& no_controls(word)
            &&& shell_word(word, word.len() as int) == (dir, Reading::Bare)
        }),
{
    reveal_strlit("'");
    reveal_strlit("cd ");
    reveal_strlit("cd '");
    reveal_strlit("'\n");
    reveal_strlit("\n");
    let inner = quote_escaped(dir, dir.len() as int);
    let open = "'"@ + inner;
    let word = open + "'"@;
    lemma_quoted_reads_back(dir, dir.len() as int);
    lemma_no_controls(dir, dir.len() as int);
    lemma_shell_word_prefix(open, "'"@, open.len() as int);
    assert(word[open.len() as int] == '\'');
    assert(dir.take(dir.len() as int) =~= dir);
    assert(cd_command(dir) =~= "cd "@ + word + "\n"@);
    assert forall|i: int| 0 <= i < word.len() implies !is_control_char(#[trigger] word[i]) by {
        if 0 < i < open.len() {
            assert(word[i] == inner[i - 1]);
        }
    }
}

// ------------------------------------------------------------------------
// Keys
// ------------------------------------------------------------------------

/// What a key asks of the palette.
#[derive(Debug)]
pub enum PaletteKey {
    Cancel,
    Confirm,
    Down,
    Erase,
    /// Choose the line at a place at once.
    Jump(usize),
    Newer,
    Older,
    Other,
    Redo,
    Type(String),
    Undo,
    Up,
}

/// What a key asks of the palette, by its contents.
pub enum PaletteKeyView {
    Cancel,
    Confirm,
    Down,
    Erase,
    Jump(usize),
    Newer,
    Older,
    Other,
    Redo,
    Type(Seq<char>),
    Undo,
    Up,
}

impl View for PaletteKey {
    type V = PaletteKeyView;

    open spec fn view(&self) -> PaletteKeyView {
        match *self {
            PaletteKey::Cancel => PaletteKeyView::Cancel,
            PaletteKey::Confirm => PaletteKeyView::Confirm,
            PaletteKey::Down => PaletteKeyView::Down,
            PaletteKey::Erase => PaletteKeyView::Erase,
            PaletteKey::Jump(at) => PaletteKeyView::Jump(at),
            PaletteKey::Newer => PaletteKeyView::Newer,
            PaletteKey::Older => PaletteKeyView::Older,
            PaletteKey::Other => PaletteKeyView::Other,
            PaletteKey::Redo => PaletteKeyView::Redo,
            PaletteKey::Type(text) => PaletteKeyView::Type(text@),
            PaletteKey::Undo => PaletteKeyView::Undo,
            PaletteKey::Up => PaletteKeyView::Up,
        }
    }
}

/// A key with what is held.
pub open spec fn held_key(key: LogicalView, physical: PhysicalKey, mods: Modifiers) -> Key {
    Key { alt: mods.alt, code: key_code(key, physical), ctrl: mods.ctrl, shift: mods.shift }
}

/// Whether a key is the letter `letter`, in either case.
pub open spec fn is_letter(key: LogicalView, letter: Seq<char>) -> bool {
    key matches LogicalView::Character(text) && lowered(text) == letter
}

/// What a key asks of the palette: undo and redo as the keymap has them; with Control or
/// Alt held `n` and `p` step through the lines or through what was typed before; the
/// digit beside a pane chooses it; any other text is typed.
#[verifier::opaque]
pub open spec fn palette_key(
    palette: PaletteView,
    key: LogicalView,
    physical: PhysicalKey,
    mods: Modifiers,
    keymap: Keymap,
) -> PaletteKeyView {
    let model = held_key(key, physical, mods);
    if model == keymap.undo {
        PaletteKeyView::Undo
    } else if model == keymap.redo {
        PaletteKeyView::Redo
    } else if mods.ctrl && is_letter(key, "n"@) {
        PaletteKeyView::Down
    } else if mods.ctrl && is_letter(key, "p"@) {
        PaletteKeyView::Up
    } else if mods.alt && is_letter(key, "p"@) {
        PaletteKeyView::Older
    } else if mods.alt && is_letter(key, "n"@) {
        PaletteKeyView::Newer
    } else {
        match key {
            LogicalView::Named(NamedKey::Escape) => PaletteKeyView::Cancel,
            LogicalView::Named(NamedKey::Enter) => PaletteKeyView::Confirm,
            LogicalView::Named(NamedKey::Backspace) => PaletteKeyView::Erase,
            LogicalView::Named(NamedKey::ArrowUp) => PaletteKeyView::Up,
            LogicalView::Named(NamedKey::ArrowDown) => PaletteKeyView::Down,
            LogicalView::Character(text) => if palette.mode == PaletteMode::Panes
                && palette.shortcut_at(text, 0) < palette.filtered.len() {
                PaletteKeyView::Jump(palette.shortcut_at(text, 0) as usize)
            } else {
                PaletteKeyView::Type(text)
            },
            _ => PaletteKeyView::Other,
        }
    }
}

fn has_letter(key: &LogicalKey, letter: &str) -> (r: bool)
    ensures
        r == is_letter(key@, letter@),
{
    match key {
        LogicalKey::Character(text) => {
            let low = text.as_str().to_lowercase();
            same_text(low.as_str(), letter)
        },
        _ => false,
    }
}

/// What a key asks of the palette.
pub fn key_in_palette(
    palette: &Palette,
    key: &LogicalKey,
    physical: PhysicalKey,
    mods: Modifiers,
    keymap: &Keymap,
) -> (r: PaletteKey)
    requires
        palette.wf(),
    ensures
        r@ == palette_key(palette@, key@, physical, mods, *keymap),
        r matches PaletteKey::Jump(at) ==> at < palette@.filtered.len(),
{
    proof {
        reveal(palette_key);
    }
    let model = Key {
        alt: mods.alt,
        code: winit_key_to_code(key, physical),
        ctrl: mods.ctrl,
        shift: mods.shift,
    };
    if model == keymap.undo {
        return PaletteKey::Undo;
    }
    if model == keymap.redo {
        return PaletteKey::Redo;
    }
    if mods.ctrl && has_letter(key, "n") {
        return PaletteKey::Down;
    }
    if mods.ctrl && has_letter(key, "p") {
        return PaletteKey::Up;
    }
    if mods.alt && has_letter(key, "p") {
        return PaletteKey::Older;
    }
    if mods.alt && has_letter(key, "n") {
        return PaletteKey::Newer;
    }
    match key {
        LogicalKey::Named(name) => match name {
            NamedKey::Escape => PaletteKey::Cancel,
            NamedKey::Enter => PaletteKey::Confirm,
            NamedKey::Backspace => PaletteKey::Erase,
            NamedKey::ArrowUp => PaletteKey::Up,
            NamedKey::ArrowDown => PaletteKey::Down,
            _ => PaletteKey::Other,
        },
        LogicalKey::Character(text) => {
            if palette.mode == PaletteMode::Panes {
                if let Some(at) = palette.position_by_shortcut(text.as_str()) {
                    return PaletteKey::Jump(at);
                }
            }
            PaletteKey::Type(text.as_str().to_owned())
        },
        LogicalKey::Unidentified => PaletteKey::Other,
    }
}

// ------------------------------------------------------------------------
// The palette at work
// ------------------------------------------------------------------------

impl SessionView {
    /// With the cursor at the start of an absolute row, and the row in view.
    #[verifier::opaque]
    pub open spec fn swooped(self, row: usize) -> SessionView {
        self.with_cursor((row, 0)).revealed((row, 0))
    }

    /// Where the cursor is, by its absolute row, or where the shell's is.
    pub open spec fn swoop_start(self) -> (usize, usize) {
        match self.live_position() {
            Some(pos) => pos,
            None => (
                self.grid().absolute(self.grid().cursor_at().0 as int) as usize,
                self.grid().cursor_at().1,
            ),
        }
    }

    /// With `origin` recorded as where a jump came from.
    pub open spec fn came_from(self, origin: (usize, usize)) -> SessionView {
        SessionView {
            state: StateView { jump_list: self.state.jump_list.jumped(origin), ..self.state },
            ..self
        }
    }
}

impl AppView {
    /// With a query remembered, the white space around it aside.
    pub open spec fn query_recorded(self, query: Seq<char>) -> AppView {
        if trimmed(query).len() == 0 {
            self
        } else {
            AppView {
                palette_history: remembered(self.palette_history, trimmed(query)),
                ..self
            }.asked(RequestView::SaveState)
        }
    }

    /// With a list shown to choose from.
    pub open spec fn listed(self, mode: PaletteMode, entries: Seq<EntryView>) -> AppView {
        AppView {
            palette: Some(PaletteView::opened(mode, entries, self.palette_history)),
            ..self
        }.redrawn()
    }

    /// Without the palette.
    pub open spec fn palette_gone(self) -> AppView {
        AppView { palette: None, ..self }
    }

    /// With the lines of pane `focused` listed to jump between, and the first of them in
    /// view.
    pub open spec fn swoop_opened(self, focused: PaneId) -> AppView {
        let s = self.session(focused);
        if !s.live() {
            self
        } else {
            let entries = swoop_entries(swoop_rows(s.grid(), s.grid().total()));
            self.swoop_shown(
                focused,
                s.swoop_start(),
                PaletteView::opened(PaletteMode::Swoop, entries, self.palette_history),
            )
        }
    }

    /// With `palette` listing the lines of pane `focused`, whose cursor was at `start`, and
    /// the first of them in view.
    #[verifier::opaque]
    pub open spec fn swoop_shown(
        self,
        focused: PaneId,
        start: (usize, usize),
        palette: PaletteView,
    ) -> AppView {
        let normal = AppView { swoop_origin: Some((focused, start)), ..self }.with_mode(
            focused,
            Mode::Normal,
        );
        let shown = match row_chosen(palette) {
            Some(row) => normal.with_session(normal.session(focused).swooped(row)),
            None => normal,
        };
        AppView { palette: Some(palette), ..shown }.redrawn()
    }

    /// With the line that is chosen of a list of lines in view.
    pub open spec fn previewed(self, palette: PaletteView, focused: PaneId) -> AppView {
        match row_chosen(palette) {
            Some(row) => self.with_session(self.session(focused).swooped(row)).redrawn(),
            None => self,
        }
    }

    /// The same, when the palette lists lines.
    pub open spec fn previewed_if(self, palette: PaletteView, focused: PaneId) -> AppView {
        if palette.mode == PaletteMode::Swoop {
            self.previewed(palette, focused)
        } else {
            self
        }
    }

    /// With the cursor back where it was before lines were listed.
    pub open spec fn swoop_cancelled(self, focused: PaneId) -> AppView {
        match self.swoop_origin {
            Some((pane, pos)) => {
                let me = AppView { swoop_origin: None, ..self };
                if pane == focused {
                    me.with_session(me.session(focused).with_cursor(pos).revealed(pos))
                } else {
                    me
                }
            },
            None => self,
        }
    }

    /// With the cursor on the line that was chosen, and a jump recorded.
    pub open spec fn swoop_confirmed(self, action: Seq<char>, focused: PaneId) -> AppView {
        match parsed_number(action) {
            Some(row) => {
                let s = self.session(focused);
                let from = match self.swoop_origin {
                    Some((_, origin)) => s.came_from(origin),
                    None => s,
                };
                let me = AppView { swoop_origin: None, ..self };
                me.with_session(from.swooped(row as usize).with_mode(Mode::Normal))
            },
            None => self,
        }
    }
}

/// The row that the chosen line of a list of lines is on.
pub open spec fn row_chosen(palette: PaletteView) -> Option<usize> {
    match palette.chosen() {
        Some(action) => match parsed_number(action) {
            Some(row) => Some(row as usize),
            None => None,
        },
        None => None,
    }
}

fn chosen_row(palette: &Palette) -> (r: Option<usize>)
    requires
        palette.wf(),
    ensures
        r == row_chosen(palette@),
{
    match palette.selected_action() {
        Some(action) => {
            let chars = chars_of(action.as_str());
            parse_number(&chars)
        },
        None => None,
    }
}

impl App {
    /// Remember a query, the white space around it aside.
    pub fn record_palette_query(&mut self, query: &str)
        requires
            old(self).wf(),
        ensures
            final(self).wf(),
            final(self)@ == old(self)@.query_recorded(query@),
    {
        let ghost before = self@;
        let text = trim_text(query);
        let chars = chars_of(text.as_str());
        if chars.len() == 0 {
            return;
        }
        let mut kept: Vec<String> = Vec::new();
        let ghost all = texts(self.palette_history@);
        let mut i: usize = 0;
        assert(texts(kept@) =~= texts_without(all.take(0), text@)) by {
            assert(all.take(0) =~= Seq::empty());
        }
        while i < self.palette_history.len()
            invariant
                self@ == before,
                all == texts(self.palette_history@),
                i <= all.len(),
                texts(kept@) == texts_without(all.take(i as int), text@),
            decreases all.len() - i,
        {
            assert(all.take(i + 1).drop_last() =~= all.take(i as int));
            let ghost so_far = kept@;
            if !same_text(self.palette_history[i].as_str(), text.as_str()) {
                kept.push(self.palette_history[i].as_str().to_owned());
                assert(texts(kept@) =~= texts(so_far).push(all[i as int]));
            }
            i = i + 1;
        }
        assert(all.take(i as int) =~= all);
        let ghost rest = texts(kept@);
        kept.insert(0, text);
        assert(texts(kept@) =~= seq![text@] + rest);
        let ghost full = texts(kept@);
        if kept.len() > PALETTE_HISTORY {
            kept.truncate(PALETTE_HISTORY);
        }
        assert(texts(kept@) =~= remembered(all, text@));
        self.palette_history = kept;
        self.ask(Request::SaveState);
    }

    /// Show a list to choose from.
    pub fn open_list(&mut self, mode: PaletteMode, entries: Vec<PaletteEntry>)
        requires
            old(self).wf(),
        ensures
            final(self).wf(),
            final(self)@ == old(self)@.listed(mode, entry_views(entries@)),
    {
        self.palette = Some(Palette::open(mode, entries, &self.palette_history));
        self.redraw();
    }

    /// Show a list of texts to choose from.
    pub fn open_texts(&mut self, mode: PaletteMode, list: &Vec<String>)
        requires
            old(self).wf(),
        ensures
            final(self).wf(),
            final(self)@ == old(self)@.listed(mode, plain_entries(texts(list@))),
    {
        let entries = plain_list(list);
        self.open_list(mode, entries);
    }

    /// Show the keymap's commands to choose from.
    pub fn open_commands(&mut self, keymap: &Keymap)
        requires
            old(self).wf(),
        ensures
            final(self).wf(),
            final(self)@ == old(self)@.listed(PaletteMode::Commands, entry_views(keymap.menu@)),
    {
        let entries = copy_entries(&keymap.menu);
        self.open_list(PaletteMode::Commands, entries);
    }

    /// Show the shell's commands to choose from.
    pub fn open_history(&mut self)
        requires
            old(self).wf(),
        ensures
            final(self).wf(),
            final(self)@ == old(self)@.listed(
                PaletteMode::History,
                plain_entries(old(self)@.shell_history),
            ),
    {
        let entries = plain_list(&self.shell_history);
        self.open_list(PaletteMode::History, entries);
    }

    /// Show the sessions there are, to attach to one.
    pub fn open_mux_palette(&mut self, list: &SessionList)
        requires
            old(self).wf(),
        ensures
            final(self).wf(),
            final(self)@ == old(self)@.listed(
                PaletteMode::MuxSessions,
                plain_entries(session_lines(*list, "default (80x24)"@)),
            ),
    {
        let lines = mux_session_entries(list, "default (80x24)");
        self.open_texts(PaletteMode::MuxSessions, &lines);
    }

    /// Show the sessions there are, to kill one.
    pub fn open_mux_kill_palette(&mut self, list: &SessionList)
        requires
            old(self).wf(),
        ensures
            final(self).wf(),
            final(self)@ == old(self)@.listed(
                PaletteMode::MuxKill,
                plain_entries(session_lines(*list, "(no running sessions)"@)),
            ),
    {
        let lines = mux_session_entries(list, "(no running sessions)");
        self.open_texts(PaletteMode::MuxKill, &lines);
    }

    /// Show the files of a directory, to open one.
    pub fn files_listed(&mut self, files: &Vec<String>)
        requires
            old(self).wf(),
        ensures
            final(self).wf(),
            final(self)@ == old(self)@.listed(PaletteMode::Files, plain_entries(texts(files@))),
    {
        self.open_texts(PaletteMode::Files, files);
    }

    /// The lines of a pane to jump between, and where its cursor is.
    fn swoop_lines(&self, focused: PaneId) -> (r: Option<(Vec<PaletteEntry>, (usize, usize))>)
        requires
            self.wf(),
        ensures
            match r {
                Some((entries, start)) => {
                    let s = self@.session(focused);
                    &&& s.live()
                    &&& entry_views(entries@) == swoop_entries(
                        swoop_rows(s.grid(), s.grid().total()),
                    )
                    &&& start == s.swoop_start()
                },
                None => !self@.session(focused).live(),
            },
    {
        match self.panes.get(&focused.0) {
            Some(state) => {
                assert(self@.panes.dom().contains(focused.0));
                match &state.pane {
                    Some(pane) => {
                        let entries = swoop_list(&pane.grid);
                        let start = match state.nav_cursor {
                            Some((row, col)) => (pane.grid.to_absolute_row(row), col),
                            None => {
                                let (row, col) = pane.grid.cursor();
                                (pane.grid.to_absolute_row(row), col)
                            },
                        };
                        Some((entries, start))
                    },
                    None => None,
                }
            },
            None => None,
        }
    }

    /// List the lines of a pane to jump between.
    pub fn open_swoop(&mut self, focused: PaneId)
        requires
            old(self).wf(),
        ensures
            final(self).wf(),
            final(self)@ == old(self)@.swoop_opened(focused),
    {
        let (entries, start) = match self.swoop_lines(focused) {
            Some(found) => found,
            None => {
                return;
            },
        };
        let palette = Palette::open(PaletteMode::Swoop, entries, &self.palette_history);
        self.show_swoop(focused, start, palette);
    }

    fn show_swoop(&mut self, focused: PaneId, start: (usize, usize), palette: Palette)
        requires
            old(self).wf(),
            palette.wf(),
        ensures
            final(self).wf(),
            final(self)@ == old(self)@.swoop_shown(focused, start, palette@),
    {
        proof {
            reveal(AppView::swoop_shown);
        }
        let row = chosen_row(&palette);
        self.begin_swoop(focused, start);
        if let Some(row) = row {
            self.swoop_to(focused, row);
        }
        self.put_palette(palette);
    }

    /// Put a pane in Normal mode, to come back to `start`.
    fn begin_swoop(&mut self, focused: PaneId, start: (usize, usize))
        requires
            old(self).wf(),
        ensures
            final(self).wf(),
            final(self)@ == (AppView {
                swoop_origin: Some((focused, start)),
                ..old(self)@
            }).with_mode(focused, Mode::Normal),
    {
        self.swoop_origin = Some((focused, start));
        self.set_mode(focused, Mode::Normal);
    }

    /// Show a palette.
    fn put_palette(&mut self, palette: Palette)
        requires
            old(self).wf(),
            palette.wf(),
        ensures
            final(self).wf(),
            final(self)@ == (AppView { palette: Some(palette@), ..old(self)@ }).redrawn(),
    {
        self.palette = Some(palette);
        self.redraw();
    }

    /// Put the cursor of a pane at the start of an absolute row, and the row in view.
    fn swoop_to(&mut self, focused: PaneId, row: usize)
        requires
            old(self).wf(),
        ensures
            final(self).wf(),
            final(self)@ == old(self)@.with_session(old(self)@.session(focused).swooped(row)),
    {
        proof {
            reveal(SessionView::swooped);
        }
        let mut s = self.enter(focused);
        s.set_nav_cursor((row, 0));
        s.reveal_position((row, 0));
        self.leave(s);
    }

    /// Show the line that is chosen of a list of lines.
    pub fn update_swoop_preview(&mut self, palette: &Palette, focused: PaneId)
        requires
            old(self).wf(),
            palette.wf(),
        ensures
            final(self).wf(),
            final(self)@ == old(self)@.previewed(palette@, focused),
    {
        if let Some(row) = chosen_row(palette) {
            self.swoop_to(focused, row);
            self.redraw();
        }
    }

    pub(crate) fn preview_if(&mut self, palette: &Palette, focused: PaneId)
        requires
            old(self).wf(),
            palette.wf(),
        ensures
            final(self).wf(),
            final(self)@ == old(self)@.previewed_if(palette@, focused),
    {
        if palette.mode == PaletteMode::Swoop {
            self.update_swoop_preview(palette, focused);
        }
    }

    pub(crate) fn cancel_swoop(&mut self, focused: PaneId)
        requires
            old(self).wf(),
        ensures
            final(self).wf(),
            final(self)@ == old(self)@.swoop_cancelled(focused),
    {
        match self.swoop_origin {
            Some((pane, pos)) => {
                self.swoop_origin = None;
                if pane == focused {
                    let mut s = self.enter(focused);
                    s.set_nav_cursor(pos);
                    s.reveal_position(pos);
                    self.leave(s);
                }
            },
            None => {},
        }
    }

    pub(crate) fn confirm_swoop(&mut self, action: &str, focused: PaneId)
        requires
            old(self).wf(),
        ensures
            final(self).wf(),
            final(self)@ == old(self)@.swoop_confirmed(action@, focused),
    {
        proof {
            reveal(SessionView::swooped);
        }
        let chars = chars_of(action);
        match parse_number(&chars) {
            Some(row) => {
                let origin = self.swoop_origin;
                self.swoop_origin = None;
                let mut s = self.enter(focused);
                if let Some((_, from)) = origin {
                    s.state.jump_list.push(from);
                }
                s.set_nav_cursor((row, 0));
                s.reveal_position((row, 0));
                s.state.mode = Some(Mode::Normal);
                self.leave(s);
            },
            None => {},
        }
    }

    /// Send a text to the program of a pane.
    pub(crate) fn type_text(&mut self, focused: PaneId, text: &str)
        requires
            old(self).wf(),
        ensures
            final(self).wf(),
            final(self)@ == old(self)@.text_sent(focused, text@),
    {
        proof {
            reveal(AppView::text_sent);
        }
        let mut s = self.enter(focused);
        s.send(text.as_bytes());
        self.leave(s);
    }

    /// Take the shell of a pane to a directory.
    pub(crate) fn change_dir(&mut self, focused: PaneId, dir: &str)
        requires
            old(self).wf(),
        ensures
            final(self).wf(),
            final(self)@ == old(self)@.dir_changed(focused, dir@),
    {
        if let Some(line) = cd_line(dir) {
            self.type_text(focused, line.as_str());
        }
    }

    /// Show the pane whose number was chosen.
    pub(crate) fn show_chosen_pane(&mut self, number: &str)
        requires
            old(self).wf(),
        ensures
            final(self).wf(),
            final(self)@ == old(self)@.numbered_pane_shown(number@),
    {
        proof {
            reveal(AppView::numbered_pane_shown);
        }
        let chars = chars_of(number);
        if let Some(n) = parse_number(&chars) {
            self.switch_to_pane(PaneId(n as u64));
        }
    }

    /// Attach to the session that was chosen, or kill it.
    pub(crate) fn use_session(&mut self, line: &str, kill: bool)
        requires
            old(self).wf(),
        ensures
            final(self).wf(),
            final(self)@ == old(self)@.session_used(line@, kill),
    {
        proof {
            reveal(AppView::session_used);
        }
        let name = session_name(line);
        if names_session(name.as_str()) {
            if kill {
                self.ask(Request::KillSession(name));
            } else {
                self.ask(Request::AttachSession(name));
            }
        }
    }

    /// Start the session that was typed, where the pane in focus is.
    pub(crate) fn start_session(&mut self, query: &str, focused: PaneId)
        requires
            old(self).wf(),
        ensures
            final(self).wf(),
            final(self)@ == old(self)@.session_started(query@, focused),
    {
        proof {
            reveal(AppView::session_started);
        }
        match parse_mux_spawn_query(query) {
            Some((name, command)) => {
                let cwd = match self.panes.get(&focused.0) {
                    Some(state) => match &state.pane {
                        Some(pane) => copy_option(&pane.cwd),
                        None => None,
                    },
                    None => None,
                };
                self.ask(Request::SpawnSession { name, command, cwd });
            },
            None => self.set_error("mux new: usage: name [command]"),
        }
    }

    /// Attach to the session on another host that was typed.
    pub(crate) fn attach_elsewhere(&mut self, query: &str)
        requires
            old(self).wf(),
        ensures
            final(self).wf(),
            final(self)@ == old(self)@.attached_elsewhere(query@),
    {
        proof {
            reveal(AppView::attached_elsewhere);
        }
        match parse_mux_attach_query(query) {
            Some((host, session)) => {
                let session = match session {
                    Some(session) => session,
                    None => "default".to_owned(),
                };
                self.ask(Request::AttachRemote { host, session });
            },
            None => self.set_error("mux attach: usage: host [session]"),
        }
    }

    /// Go into the directory that was chosen, or open the file.
    pub(crate) fn use_file(&mut self, path: &str)
        requires
            old(self).wf(),
        ensures
            final(self).wf(),
            final(self)@ == old(self)@.file_used(path@),
    {
        proof {
            reveal(AppView::file_used);
        }
        if names_directory(path) {
            self.ask(Request::ListFilesIn(path.to_owned()));
        } else {
            self.ask(Request::OpenPath { path: path.to_owned(), line: None });
        }
    }

    /// Give the page that asked the choice made from its list. One put away without a
    /// choice is answered with nothing.
    pub fn answer_page_pick(&mut self, choice: Option<String>)
        requires
            old(self).wf(),
        ensures
            final(self).wf(),
            final(self)@ == old(self)@.picked(string_view(choice)),
    {
        proof {
            reveal(AppView::picked);
        }
        let pick = self.pages.pick.take();
        if let Some(pick) = pick {
            if self.pages.covers(pick.pane) {
                self.ask(
                    Request::AnswerPage { pane: pick.pane, answer: choice, tag: pick.tag },
                );
            }
        }
    }

    /// Put the palette away.
    pub(crate) fn put_away(&mut self)
        requires
            old(self).wf(),
        ensures
            final(self).wf(),
            final(self)@ == old(self)@.palette_gone().redrawn(),
    {
        self.palette = None;
        self.redraw();
    }

    /// Say what came of killing a session.
    pub fn session_killed(&mut self, name: &str, connected: bool)
        requires
            old(self).wf(),
        ensures
            final(self).wf(),
            final(self)@ == (if connected {
                old(self)@.told("killed mux session '"@ + name@ + "'"@)
            } else {
                old(self)@.faulted("could not connect to mux daemon"@)
            }),
    {
        if connected {
            let text = phrase("killed mux session '", name, "'");
            self.set_notice(text.as_str());
        } else {
            self.set_error("could not connect to mux daemon");
        }
    }
}

/// Whether a path names a directory: it ends as one.
pub open spec fn is_directory(path: Seq<char>) -> bool {
    path.len() > 0 && path.last() == '/'
}

pub(crate) fn names_directory(path: &str) -> (r: bool)
    ensures
        r == is_directory(path@),
{
    let chars = chars_of(path);
    chars.len() > 0 && chars[chars.len() - 1] == '/'
}

impl AppView {
    /// With a text sent to the program of a pane.
    #[verifier::opaque]
    pub open spec fn text_sent(self, focused: PaneId, text: Seq<char>) -> AppView {
        self.with_session(self.session(focused).sent(vstd::utf8::encode_utf8(text)))
    }

    /// With the shell of a pane taken to a directory, unless its name holds a control
    /// character.
    pub open spec fn dir_changed(self, focused: PaneId, dir: Seq<char>) -> AppView {
        if no_controls(dir) {
            self.text_sent(focused, cd_command(dir))
        } else {
            self
        }
    }

    /// With the pane shown that `number` is the number of.
    #[verifier::opaque]
    pub open spec fn numbered_pane_shown(self, number: Seq<char>) -> AppView {
        match parsed_number(number) {
            Some(n) => self.pane_shown(PaneId(n as u64)),
            None => self,
        }
    }

    /// With the session that a line names attached to, or killed. A line that names none
    /// does nothing.
    #[verifier::opaque]
    pub open spec fn session_used(self, line: Seq<char>, kill: bool) -> AppView {
        let name = session_named(line);
        if is_notice_line(name) {
            self
        } else if kill {
            self.asked(RequestView::KillSession(name))
        } else {
            self.asked(RequestView::AttachSession(name))
        }
    }

    /// With the session started that `query` names, where the pane in focus is.
    #[verifier::opaque]
    pub open spec fn session_started(self, query: Seq<char>, focused: PaneId) -> AppView {
        match query_parts(query) {
            Some((name, command)) => self.asked(
                RequestView::SpawnSession {
                    name,
                    command,
                    cwd: match self.state(focused).pane {
                        Some(pane) => pane.cwd,
                        None => None,
                    },
                },
            ),
            None => self.faulted("mux new: usage: name [command]"@),
        }
    }

    /// With the session attached to that `query` names the host of.
    #[verifier::opaque]
    pub open spec fn attached_elsewhere(self, query: Seq<char>) -> AppView {
        match query_parts(query) {
            Some((host, session)) => self.asked(
                RequestView::AttachRemote {
                    host,
                    session: match session {
                        Some(session) => session,
                        None => "default"@,
                    },
                },
            ),
            None => self.faulted("mux attach: usage: host [session]"@),
        }
    }

    /// With the directory that was chosen listed, or the file opened.
    #[verifier::opaque]
    pub open spec fn file_used(self, path: Seq<char>) -> AppView {
        if is_directory(path) {
            self.asked(RequestView::ListFilesIn(path))
        } else {
            self.asked(RequestView::OpenPath { path, line: None })
        }
    }

    /// With the choice from its list given to the page that asked.
    #[verifier::opaque]
    pub open spec fn picked(self, choice: Option<Seq<char>>) -> AppView {
        match self.pages.pick {
            Some(pick) => {
                let me = AppView { pages: PagesView { pick: None, ..self.pages }, ..self };
                if me.pages.covers(pick.pane) {
                    me.asked(
                        RequestView::AnswerPage {
                            pane: pick.pane,
                            answer: choice,
                            tag: pick.tag,
                        },
                    )
                } else {
                    me
                }
            },
            None => self,
        }
    }
}

} // verus!
