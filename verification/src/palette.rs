//! The palette: a list that is narrowed by typing, and a choice out of it.

use vstd::prelude::*;
use crate::events::texts;
use crate::text::{ascii_lowered, chars_of, same_text, string_of};

verus! {

/// What a choice means.
#[derive(Clone, Copy, Debug, PartialEq, Eq, Structural)]
pub enum PaletteMode {
    Commands,
    Files,
    History,
    MuxAttachRemote,
    MuxKill,
    MuxNew,
    MuxSessions,
    Panes,
    Pick,
    RecentDirs,
    Swoop,
}

/// One line of the list: what it says, what choosing it stands for, and the key that
/// chooses it at once.
#[derive(Debug)]
pub struct PaletteEntry {
    pub action: String,
    pub label: String,
    pub shortcut: String,
}

/// A line of the list by its texts.
pub struct EntryView {
    pub action: Seq<char>,
    pub label: Seq<char>,
    pub shortcut: Seq<char>,
}

impl View for PaletteEntry {
    type V = EntryView;

    open spec fn view(&self) -> EntryView {
        EntryView { action: self.action@, label: self.label@, shortcut: self.shortcut@ }
    }
}

/// Lines by their texts.
pub open spec fn entry_views(entries: Seq<PaletteEntry>) -> Seq<EntryView> {
    Seq::new(entries.len(), |i: int| entries[i]@)
}

/// A list to choose from, narrowed by what is typed.
pub struct Palette {
    pub active: bool,
    pub entries: Vec<PaletteEntry>,
    /// The lines that match what is typed, by their places.
    pub filtered: Vec<usize>,
    /// What was typed on other occasions, the last first.
    pub history: Vec<String>,
    pub history_at: Option<usize>,
    pub mode: PaletteMode,
    pub query: Vec<char>,
    pub redone: Vec<Vec<char>>,
    pub selected: usize,
    pub undone: Vec<Vec<char>>,
}

/// A palette by its contents.
pub struct PaletteView {
    pub active: bool,
    pub entries: Seq<EntryView>,
    pub filtered: Seq<usize>,
    pub history: Seq<Seq<char>>,
    pub history_at: Option<usize>,
    pub mode: PaletteMode,
    pub query: Seq<char>,
    pub redone: Seq<Seq<char>>,
    pub selected: usize,
    pub undone: Seq<Seq<char>>,
}

/// Typed texts by their characters.
pub open spec fn typed_texts(v: Seq<Vec<char>>) -> Seq<Seq<char>> {
    Seq::new(v.len(), |i: int| v[i]@)
}

impl View for Palette {
    type V = PaletteView;

    open spec fn view(&self) -> PaletteView {
        PaletteView {
            active: self.active,
            entries: entry_views(self.entries@),
            filtered: self.filtered@,
            history: texts(self.history@),
            history_at: self.history_at,
            mode: self.mode,
            query: self.query@,
            redone: typed_texts(self.redone@),
            selected: self.selected,
            undone: typed_texts(self.undone@),
        }
    }
}

/// Whether two characters are the same but for the case of an ASCII letter.
pub open spec fn same_letter(a: char, b: char) -> bool {
    ascii_lowered(a) == ascii_lowered(b)
}

/// Whether the characters of `query` from `i` on stand in `label` from `j` on, in their
/// order though not side by side, the case of ASCII letters aside.
pub open spec fn fuzzy(query: Seq<char>, i: int, label: Seq<char>, j: int) -> bool
    decreases label.len() - j,
{
    if !(0 <= i < query.len()) {
        true
    } else if !(0 <= j < label.len()) {
        false
    } else if same_letter(query[i], label[j]) {
        fuzzy(query, i + 1, label, j + 1)
    } else {
        fuzzy(query, i, label, j + 1)
    }
}

/// Of the first `n` lines, those that match `query`, by their places.
pub open spec fn matching(entries: Seq<EntryView>, query: Seq<char>, n: int) -> Seq<usize>
    decreases n,
{
    if n <= 0 {
        Seq::empty()
    } else {
        let rest = matching(entries, query, n - 1);
        if fuzzy(query, 0, entries[n - 1].label, 0) {
            rest.push((n - 1) as usize)
        } else {
            rest
        }
    }
}

/// The lines that match are lines, each is there at most once, and in order.
pub proof fn lemma_matching(entries: Seq<EntryView>, query: Seq<char>, n: int)
    requires
        0 <= n <= entries.len(),
        entries.len() <= usize::MAX,
    ensures
        forall|i: int|
            0 <= i < matching(entries, query, n).len() ==> (#[trigger] matching(entries, query, n)[i])
                < n,
        forall|i: int, j: int|
            0 <= i < j < matching(entries, query, n).len() ==> (#[trigger] matching(
                entries,
                query,
                n,
            )[i]) < (#[trigger] matching(entries, query, n)[j]),
    decreases n,
{
    if n > 0 {
        lemma_matching(entries, query, n - 1);
        let rest = matching(entries, query, n - 1);
        let all = matching(entries, query, n);
        assert forall|i: int| 0 <= i < all.len() implies (#[trigger] all[i]) < n by {
            if i < rest.len() {
                assert(all[i] == rest[i]);
            }
        }
        assert forall|i: int, j: int| 0 <= i < j < all.len() implies (#[trigger] all[i]) < (
        #[trigger] all[j]) by {
            assert(all[i] == rest[i]);
            if j < rest.len() {
                assert(all[j] == rest[j]);
            }
        }
    }
}

impl PaletteView {
    /// The lines that are shown are lines.
    pub open spec fn wf(self) -> bool {
        &&& forall|i: int|
            0 <= i < self.filtered.len() ==> (#[trigger] self.filtered[i]) < self.entries.len()
        &&& self.history_at matches Some(at) ==> at < self.history.len()
    }

    /// Nothing typed yet, in a list of `entries`.
    pub open spec fn opened(
        mode: PaletteMode,
        entries: Seq<EntryView>,
        history: Seq<Seq<char>>,
    ) -> PaletteView {
        PaletteView {
            active: true,
            entries,
            filtered: matching(entries, Seq::empty(), entries.len() as int),
            history,
            history_at: None,
            mode,
            query: Seq::empty(),
            redone: Seq::empty(),
            selected: 0,
            undone: Seq::empty(),
        }
    }

    /// What the chosen line stands for.
    pub open spec fn chosen(self) -> Option<Seq<char>> {
        if self.selected < self.filtered.len() {
            Some(self.entries[self.filtered[self.selected as int] as int].action)
        } else {
            None
        }
    }

    /// With `query` typed, and the first line that matches chosen.
    pub open spec fn with_query(self, query: Seq<char>) -> PaletteView {
        PaletteView {
            query,
            filtered: matching(self.entries, query, self.entries.len() as int),
            selected: 0,
            ..self
        }
    }

    /// With `query` typed in place of what was.
    pub open spec fn retyped(self, query: Seq<char>) -> PaletteView {
        PaletteView {
            undone: self.undone.push(self.query),
            redone: Seq::empty(),
            history_at: None,
            ..self.with_query(query)
        }
    }

    /// With one character more.
    pub open spec fn typed(self, c: char) -> PaletteView {
        self.retyped(self.query.push(c))
    }

    /// With the first `n` characters of `more` typed.
    pub open spec fn all_typed(self, more: Seq<char>, n: int) -> PaletteView
        decreases n,
    {
        if n <= 0 {
            self
        } else {
            self.all_typed(more, n - 1).typed(more[n - 1])
        }
    }

    /// With the last character taken back.
    pub open spec fn erased(self) -> PaletteView {
        if self.query.len() == 0 {
            self
        } else {
            self.retyped(self.query.drop_last())
        }
    }

    /// With the last change of the query taken back.
    pub open spec fn query_undone(self) -> PaletteView {
        if self.undone.len() == 0 {
            self
        } else {
            PaletteView {
                undone: self.undone.drop_last(),
                redone: self.redone.push(self.query),
                ..self.with_query(self.undone.last())
            }
        }
    }

    /// With the last change taken back made again.
    pub open spec fn query_redone(self) -> PaletteView {
        if self.redone.len() == 0 {
            self
        } else {
            PaletteView {
                redone: self.redone.drop_last(),
                undone: self.undone.push(self.query),
                ..self.with_query(self.redone.last())
            }
        }
    }

    /// With the line above chosen.
    pub open spec fn moved_up(self) -> PaletteView {
        if self.selected > 0 {
            PaletteView { selected: (self.selected - 1) as usize, ..self }
        } else {
            self
        }
    }

    /// With the line below chosen.
    pub open spec fn moved_down(self) -> PaletteView {
        if self.selected + 1 < self.filtered.len() {
            PaletteView { selected: (self.selected + 1) as usize, ..self }
        } else {
            self
        }
    }

    /// With what was typed on the occasion before typed again.
    pub open spec fn recalled_older(self) -> PaletteView {
        let next = match self.history_at {
            Some(at) => at + 1,
            None => 0,
        };
        if next < self.history.len() {
            PaletteView {
                history_at: Some(next as usize),
                ..self.with_query(self.history[next])
            }
        } else {
            self
        }
    }

    /// With what was typed on the occasion after typed again, and nothing after the last.
    pub open spec fn recalled_newer(self) -> PaletteView {
        match self.history_at {
            Some(at) => if at > 0 {
                PaletteView {
                    history_at: Some((at - 1) as usize),
                    ..self.with_query(self.history[at - 1])
                }
            } else {
                PaletteView { history_at: None, ..self.with_query(Seq::empty()) }
            },
            None => self,
        }
    }

    /// Put away.
    pub open spec fn closed(self) -> PaletteView {
        PaletteView { active: false, ..self }
    }

    /// Where the line with the shortcut `key` is among those that match, from `i` on.
    pub open spec fn shortcut_at(self, key: Seq<char>, i: int) -> int
        decreases self.filtered.len() - i,
    {
        if 0 <= i < self.filtered.len() && self.entries[self.filtered[i] as int].shortcut != key {
            self.shortcut_at(key, i + 1)
        } else {
            i
        }
    }
}

fn letter(c: char) -> (r: char)
    ensures
        r == ascii_lowered(c),
{
    if 'A' <= c && c <= 'Z' {
        (c as u8 + 32) as char
    } else {
        c
    }
}

fn is_same_letter(a: char, b: char) -> (r: bool)
    ensures
        r == same_letter(a, b),
{
    letter(a) == letter(b)
}

fn is_match(query: &Vec<char>, label: &Vec<char>) -> (r: bool)
    ensures
        r == fuzzy(query@, 0, label@, 0),
{
    let mut i: usize = 0;
    let mut j: usize = 0;
    while i < query.len() && j < label.len()
        invariant
            i <= query@.len(),
            j <= label@.len(),
            fuzzy(query@, i as int, label@, j as int) == fuzzy(query@, 0, label@, 0),
        decreases label@.len() - j,
    {
        if is_same_letter(query[i], label[j]) {
            i = i + 1;
        }
        j = j + 1;
    }
    i >= query.len()
}

fn matching_lines(entries: &Vec<PaletteEntry>, query: &Vec<char>) -> (r: Vec<usize>)
    ensures
        r@ == matching(entry_views(entries@), query@, entries@.len() as int),
{
    let mut kept: Vec<usize> = Vec::new();
    let mut n: usize = 0;
    while n < entries.len()
        invariant
            n <= entries@.len(),
            kept@ == matching(entry_views(entries@), query@, n as int),
        decreases entries@.len() - n,
    {
        let label = chars_of(entries[n].label.as_str());
        if is_match(query, &label) {
            kept.push(n);
        }
        n = n + 1;
    }
    kept
}

/// The same characters again.
pub fn copy_chars(v: &Vec<char>) -> (r: Vec<char>)
    ensures
        r@ == v@,
{
    let mut r: Vec<char> = Vec::new();
    crate::text::append_chars(&mut r, v);
    assert(r@ =~= v@);
    r
}

/// The same texts again.
pub fn copy_texts(v: &Vec<String>) -> (r: Vec<String>)
    ensures
        texts(r@) == texts(v@),
{
    let mut r: Vec<String> = Vec::new();
    let mut i: usize = 0;
    while i < v.len()
        invariant
            i <= v@.len(),
            r@.len() == i,
            forall|j: int| 0 <= j < i ==> (#[trigger] r@[j])@ == v@[j]@,
        decreases v@.len() - i,
    {
        r.push(v[i].as_str().to_owned());
        i = i + 1;
    }
    assert(texts(r@) =~= texts(v@));
    r
}

impl Palette {
    /// The lines that are shown are lines.
    pub open spec fn wf(self) -> bool {
        self@.wf()
    }

    /// A list of `entries`, with nothing typed yet.
    pub fn open(mode: PaletteMode, entries: Vec<PaletteEntry>, history: &Vec<String>) -> (r:
        Palette)
        ensures
            r.wf(),
            r@ == PaletteView::opened(mode, entry_views(entries@), texts(history@)),
    {
        let query: Vec<char> = Vec::new();
        let filtered = matching_lines(&entries, &query);
        let total: usize = entries.len();
        proof {
            lemma_matching(entry_views(entries@), query@, total as int);
        }
        let r = Palette {
            active: true,
            entries,
            filtered,
            history: copy_texts(history),
            history_at: None,
            mode,
            query,
            redone: Vec::new(),
            selected: 0,
            undone: Vec::new(),
        };
        assert(typed_texts(r.redone@) =~= Seq::empty());
        assert(typed_texts(r.undone@) =~= Seq::empty());
        assert(r.query@ =~= Seq::empty());
        r
    }

    /// What is typed.
    pub fn query_text(&self) -> (r: String)
        ensures
            r@ == self@.query,
    {
        string_of(&self.query)
    }

    /// What the chosen line stands for.
    pub fn selected_action(&self) -> (r: Option<String>)
        requires
            self.wf(),
        ensures
            crate::navigation::search::string_view(r) == self@.chosen(),
    {
        if self.selected < self.filtered.len() {
            let at: usize = self.filtered[self.selected];
            assert(at < self@.entries.len());
            assert(self@.entries[at as int] == self.entries@[at as int]@);
            Some(self.entries[at].action.as_str().to_owned())
        } else {
            None
        }
    }

    fn set_query(&mut self, query: Vec<char>)
        requires
            old(self).wf(),
        ensures
            final(self).wf(),
            final(self)@ == old(self)@.with_query(query@),
    {
        self.filtered = matching_lines(&self.entries, &query);
        let total: usize = self.entries.len();
        proof {
            lemma_matching(entry_views(self.entries@), query@, self.entries@.len() as int);
        }
        self.query = query;
        self.selected = 0;
    }

    fn retype(&mut self, query: Vec<char>)
        requires
            old(self).wf(),
        ensures
            final(self).wf(),
            final(self)@ == old(self)@.retyped(query@),
    {
        let ghost before = self@;
        let typed = copy_chars(&self.query);
        self.set_query(query);
        self.undone.push(typed);
        assert(typed_texts(self.undone@) =~= before.undone.push(before.query));
        self.redone.clear();
        assert(typed_texts(self.redone@) =~= Seq::empty());
        self.history_at = None;
    }

    /// Type a character.
    pub fn push_char(&mut self, c: char)
        requires
            old(self).wf(),
        ensures
            final(self).wf(),
            final(self)@ == old(self)@.typed(c),
    {
        let mut query = copy_chars(&self.query);
        query.push(c);
        self.retype(query);
    }

    /// Type every character of `more`.
    pub fn push_text(&mut self, more: &str)
        requires
            old(self).wf(),
        ensures
            final(self).wf(),
            final(self)@ == old(self)@.all_typed(more@, more@.len() as int),
    {
        let chars = chars_of(more);
        let mut n: usize = 0;
        while n < chars.len()
            invariant
                n <= chars@.len(),
                chars@ == more@,
                self.wf(),
                self@ == old(self)@.all_typed(more@, n as int),
            decreases chars@.len() - n,
        {
            self.push_char(chars[n]);
            n = n + 1;
        }
    }

    /// Take the last character back.
    pub fn pop_char(&mut self)
        requires
            old(self).wf(),
        ensures
            final(self).wf(),
            final(self)@ == old(self)@.erased(),
    {
        if self.query.len() > 0 {
            let mut query = copy_chars(&self.query);
            query.pop();
            assert(query@ =~= self.query@.drop_last());
            self.retype(query);
        }
    }

    /// Take the last change of the query back.
    pub fn undo(&mut self)
        requires
            old(self).wf(),
        ensures
            final(self).wf(),
            final(self)@ == old(self)@.query_undone(),
    {
        let ghost before = self@;
        match self.undone.pop() {
            Some(query) => {
                assert(typed_texts(self.undone@) =~= before.undone.drop_last());
                let typed = copy_chars(&self.query);
                self.redone.push(typed);
                assert(typed_texts(self.redone@) =~= before.redone.push(before.query));
                assert(self@.filtered == before.filtered && self@.entries == before.entries);
                assert(self.wf());
                self.set_query(query);
            },
            None => {},
        }
    }

    /// Make the last change that was taken back again.
    pub fn redo(&mut self)
        requires
            old(self).wf(),
        ensures
            final(self).wf(),
            final(self)@ == old(self)@.query_redone(),
    {
        let ghost before = self@;
        match self.redone.pop() {
            Some(query) => {
                assert(typed_texts(self.redone@) =~= before.redone.drop_last());
                let typed = copy_chars(&self.query);
                self.undone.push(typed);
                assert(typed_texts(self.undone@) =~= before.undone.push(before.query));
                assert(self@.filtered == before.filtered && self@.entries == before.entries);
                assert(self.wf());
                self.set_query(query);
            },
            None => {},
        }
    }

    /// Choose the line above.
    pub fn move_up(&mut self)
        requires
            old(self).wf(),
        ensures
            final(self).wf(),
            final(self)@ == old(self)@.moved_up(),
    {
        if self.selected > 0 {
            self.selected = self.selected - 1;
        }
    }

    /// Choose the line below.
    pub fn move_down(&mut self)
        requires
            old(self).wf(),
        ensures
            final(self).wf(),
            final(self)@ == old(self)@.moved_down(),
    {
        if self.filtered.len() > 0 && self.selected < self.filtered.len() - 1 {
            self.selected = self.selected + 1;
        }
    }

    /// Type again what was typed on the occasion before.
    pub fn history_prev(&mut self)
        requires
            old(self).wf(),
        ensures
            final(self).wf(),
            final(self)@ == old(self)@.recalled_older(),
    {
        let total: usize = self.history.len();
        let next: usize = match self.history_at {
            Some(at) => at + 1,
            None => 0,
        };
        if next < total {
            let query = chars_of(self.history[next].as_str());
            assert(query@ == self@.history[next as int]);
            self.set_query(query);
            self.history_at = Some(next);
        }
    }

    /// Type again what was typed on the occasion after.
    pub fn history_next(&mut self)
        requires
            old(self).wf(),
        ensures
            final(self).wf(),
            final(self)@ == old(self)@.recalled_newer(),
    {
        match self.history_at {
            Some(at) => {
                if at > 0 {
                    let query = chars_of(self.history[at - 1].as_str());
                    assert(query@ == self@.history[at - 1]);
                    self.set_query(query);
                    self.history_at = Some(at - 1);
                } else {
                    let query: Vec<char> = Vec::new();
                    assert(query@ =~= Seq::empty());
                    self.set_query(query);
                    self.history_at = None;
                }
            },
            None => {},
        }
    }

    /// Put the palette away.
    pub fn close(&mut self)
        requires
            old(self).wf(),
        ensures
            final(self).wf(),
            final(self)@ == old(self)@.closed(),
    {
        self.active = false;
    }

    /// Where the line with the shortcut `key` is among those that match.
    pub fn position_by_shortcut(&self, key: &str) -> (r: Option<usize>)
        requires
            self.wf(),
        ensures
            match r {
                Some(at) => at == self@.shortcut_at(key@, 0) && at < self@.filtered.len(),
                None => self@.shortcut_at(key@, 0) == self@.filtered.len(),
            },
    {
        let mut i: usize = 0;
        while i < self.filtered.len()
            invariant
                self.wf(),
                i <= self.filtered@.len(),
                self@.shortcut_at(key@, i as int) == self@.shortcut_at(key@, 0),
            decreases self.filtered@.len() - i,
        {
            let at: usize = self.filtered[i];
            assert(self@.filtered[i as int] < self@.entries.len());
            assert(self@.entries[at as int] == self.entries@[at as int]@);
            if same_text(self.entries[at].shortcut.as_str(), key) {
                return Some(i);
            }
            i = i + 1;
        }
        None
    }
}

/// With nothing typed every line is shown.
pub proof fn law_an_empty_query_shows_every_line(entries: Seq<EntryView>, n: int)
    requires
        0 <= n <= entries.len(),
        entries.len() <= usize::MAX,
    ensures
        matching(entries, Seq::empty(), n) == Seq::new(n as nat, |i: int| i as usize),
    decreases n,
{
    if n > 0 {
        law_an_empty_query_shows_every_line(entries, n - 1);
    }
    assert(matching(entries, Seq::empty(), n) =~= Seq::new(n as nat, |i: int| i as usize));
}

/// To take back a change of the query and make it again leaves the query as it was.
pub proof fn law_undoing_the_query_and_redoing_it_returns(palette: PaletteView)
    requires
        palette.undone.len() > 0,
    ensures
        palette.query_undone().query_redone().query == palette.query,
        palette.query_undone().query_redone().undone == palette.undone,
        palette.query_undone().query_redone().redone == palette.redone,
{
    assert(palette.undone.drop_last().push(palette.undone.last()) =~= palette.undone);
    assert(palette.redone.push(palette.query).drop_last() =~= palette.redone);
}

} // verus!
