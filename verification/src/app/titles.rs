//! What tabs and the window are called.

use vstd::prelude::*;
use crate::app::{phrase, App, AppView};
use crate::input::{PaneId, PendingPrefix};
use crate::jobs::stands_at;
use crate::navigation::search::string_view;
use crate::text::{append_chars, append_str, chars_of, chars_range, same_chars, same_text, string_of};

verus! {

broadcast use vstd::std_specs::hash::group_hash_axioms;

/// What a title is made of.
pub struct TitleParts {
    /// The program in the foreground.
    pub app_name: Seq<char>,
    pub cwd: Seq<char>,
    pub pane_title: Seq<char>,
    pub title: Seq<char>,
}

/// Whether the placeholder `name` stands at `at` in `template`.
pub open spec fn placeholder_at(template: Seq<char>, name: Seq<char>, at: int) -> bool {
    name.len() > 0 && stands_at(template, name, at)
}

/// What `template` says from `i` on, with each placeholder replaced by what it names.
pub open spec fn expanded(template: Seq<char>, i: int, parts: TitleParts) -> Seq<char>
    decreases template.len() - i,
{
    if !(0 <= i < template.len()) {
        Seq::empty()
    } else if placeholder_at(template, "{{ title }}"@, i) {
        parts.title + expanded(template, i + "{{ title }}"@.len(), parts)
    } else if placeholder_at(template, "{{ app_name }}"@, i) {
        parts.app_name + expanded(template, i + "{{ app_name }}"@.len(), parts)
    } else if placeholder_at(template, "{{ pane_title }}"@, i) {
        parts.pane_title + expanded(template, i + "{{ pane_title }}"@.len(), parts)
    } else if placeholder_at(template, "{{ cwd }}"@, i) {
        parts.cwd + expanded(template, i + "{{ cwd }}"@.len(), parts)
    } else {
        seq![template[i]] + expanded(template, i + 1, parts)
    }
}

fn is_placeholder_at(template: &Vec<char>, name: &Vec<char>, at: usize) -> (r: bool)
    requires
        at <= template@.len(),
    ensures
        r == placeholder_at(template@, name@, at as int),
{
    if name.len() == 0 || name.len() > template.len() - at {
        return false;
    }
    let piece = chars_range(template, at, at + name.len());
    same_chars(&piece, name)
}

/// `template` with each placeholder replaced by what it names.
pub fn expand_window_title_template(
    template: &str,
    title: &str,
    app_name: &str,
    pane_title: &str,
    cwd: &str,
) -> (r: String)
    ensures
        r@ == expanded(
            template@,
            0,
            (TitleParts {
                app_name: app_name@,
                cwd: cwd@,
                pane_title: pane_title@,
                title: title@,
            }),
        ),
{
    let ghost parts = TitleParts {
        app_name: app_name@,
        cwd: cwd@,
        pane_title: pane_title@,
        title: title@,
    };
    let chars = chars_of(template);
    let total: usize = chars.len();
    let title_mark = chars_of("{{ title }}");
    let app_mark = chars_of("{{ app_name }}");
    let pane_mark = chars_of("{{ pane_title }}");
    let cwd_mark = chars_of("{{ cwd }}");
    let mut out: Vec<char> = Vec::new();
    let mut i: usize = 0;
    assert(out@ + expanded(chars@, 0, parts) =~= expanded(chars@, 0, parts));
    while i < total
        invariant
            total == chars@.len(),
            chars@ == template@,
            i <= total,
            title_mark@ == "{{ title }}"@,
            app_mark@ == "{{ app_name }}"@,
            pane_mark@ == "{{ pane_title }}"@,
            cwd_mark@ == "{{ cwd }}"@,
            parts == (TitleParts {
                app_name: app_name@,
                cwd: cwd@,
                pane_title: pane_title@,
                title: title@,
            }),
            out@ + expanded(chars@, i as int, parts) == expanded(chars@, 0, parts),
        decreases total - i,
    {
        let ghost before = out@;
        let ghost from = i as int;
        if is_placeholder_at(&chars, &title_mark, i) {
            append_str(&mut out, title);
            i = i + title_mark.len();
            assert(before + (parts.title + expanded(chars@, i as int, parts)) =~= out@ + expanded(
                chars@,
                i as int,
                parts,
            ));
        } else if is_placeholder_at(&chars, &app_mark, i) {
            append_str(&mut out, app_name);
            i = i + app_mark.len();
            assert(before + (parts.app_name + expanded(chars@, i as int, parts)) =~= out@
                + expanded(chars@, i as int, parts));
        } else if is_placeholder_at(&chars, &pane_mark, i) {
            append_str(&mut out, pane_title);
            i = i + pane_mark.len();
            assert(before + (parts.pane_title + expanded(chars@, i as int, parts)) =~= out@
                + expanded(chars@, i as int, parts));
        } else if is_placeholder_at(&chars, &cwd_mark, i) {
            append_str(&mut out, cwd);
            i = i + cwd_mark.len();
            assert(before + (parts.cwd + expanded(chars@, i as int, parts)) =~= out@ + expanded(
                chars@,
                i as int,
                parts,
            ));
        } else {
            out.push(chars[i]);
            i = i + 1;
            assert(before + (seq![chars@[from]] + expanded(chars@, i as int, parts)) =~= out@
                + expanded(chars@, i as int, parts));
        }
    }
    assert(out@ + expanded(chars@, i as int, parts) =~= out@);
    string_of(&out)
}

impl AppView {
    /// The title the program in a pane has set, or nothing.
    pub open spec fn pane_title(self, pane: PaneId) -> Seq<char> {
        if self.titles.dom().contains(pane.0) {
            self.titles[pane.0]
        } else {
            Seq::empty()
        }
    }

    /// What tab `i` is called: the user's name for it, the title its program has set, the
    /// session it is attached to, or where its shell is.
    pub open spec fn tab_name(self, i: int) -> Seq<char> {
        let focus = self.tabs.all[i].focus;
        match self.tabs.names[i] {
            Some(name) => name,
            None => if self.titles.dom().contains(focus.0) {
                self.titles[focus.0]
            } else {
                match self.state(focus).pane {
                    Some(pane) => match pane.mux_session {
                        Some(name) => "mux: "@ + name + ""@,
                        None => match pane.cwd {
                            Some(cwd) => cwd,
                            None => "shell"@,
                        },
                    },
                    None => "shell"@,
                }
            },
        }
    }

    /// The window's title as `template` makes it of the shown tab, where `app_name` is
    /// the program in the foreground.
    pub open spec fn window_title(self, template: Seq<char>, app_name: Seq<char>) -> Seq<char> {
        let focus = self.tabs.tab().focus;
        expanded(
            template,
            0,
            TitleParts {
                app_name,
                cwd: match self.state(focus).pane {
                    Some(pane) => match pane.cwd {
                        Some(cwd) => cwd,
                        None => Seq::empty(),
                    },
                    None => Seq::empty(),
                },
                pane_title: self.pane_title(focus),
                title: self.tab_name(self.tabs.active as int),
            },
        )
    }

    /// What the window is called: what has the keyboard, the tab under the pointer, or
    /// what the template says.
    pub open spec fn title_now(
        self,
        template: Seq<char>,
        app_name: Seq<char>,
        hovered: Option<usize>,
    ) -> Seq<char> {
        if self.window.settings_open {
            "Winter - Settings"@
        } else if self.palette is Some {
            let palette = self.palette->0;
            "Winter - palette: > "@ + palette.query + " ["@ + (match palette.chosen() {
                Some(action) => action,
                None => Seq::empty(),
            }) + "]"@
        } else if self.shared.search.query is Some || self.shared.pending
            == PendingPrefix::SearchInput {
            "Winter - search: "@ + (if self.shared.search.reverse {
                "?"@
            } else {
                "/"@
            }) + (match self.shared.search.query {
                Some(query) => query,
                None => Seq::empty(),
            })
        } else if self.shared.quick_select is Some {
            "Winter - quick select"@
        } else if hovered is Some && hovered->0 < self.tabs.all.len() {
            "Winter - "@ + self.tab_name(hovered->0 as int) + ""@
        } else {
            self.window_title(template, app_name)
        }
    }
}

impl App {
    /// What tab `i` is called.
    pub fn tab_title(&self, i: usize) -> (r: String)
        requires
            self.wf(),
            i < self@.tabs.all.len(),
        ensures
            r@ == self@.tab_name(i as int),
    {
        assert(self@.tabs.names[i as int] == string_view(self.tabs.names@[i as int]));
        if let Some(name) = &self.tabs.names[i] {
            return name.as_str().to_owned();
        }
        let focus = self.tabs.all[i].focused();
        if let Some(title) = self.titles.get(&focus.0) {
            return title.as_str().to_owned();
        }
        match self.panes.get(&focus.0) {
            Some(state) => match &state.pane {
                Some(pane) => {
                    if let Some(name) = &pane.mux_session {
                        return phrase("mux: ", name.as_str(), "");
                    }
                    match &pane.cwd {
                        Some(cwd) => cwd.as_str().to_owned(),
                        None => "shell".to_owned(),
                    }
                },
                None => "shell".to_owned(),
            },
            None => "shell".to_owned(),
        }
    }

    /// The window's title as `template` makes it of the shown tab.
    pub fn render_window_title(&self, template: &str, app_name: &str) -> (r: String)
        requires
            self.wf(),
        ensures
            r@ == self@.window_title(template@, app_name@),
    {
        let title = self.tab_title(self.tabs.active);
        let focus = self.focused();
        let pane_title = match self.titles.get(&focus.0) {
            Some(title) => title.as_str().to_owned(),
            None => String::new(),
        };
        let cwd = match self.panes.get(&focus.0) {
            Some(state) => match &state.pane {
                Some(pane) => match &pane.cwd {
                    Some(cwd) => cwd.as_str().to_owned(),
                    None => String::new(),
                },
                None => String::new(),
            },
            None => String::new(),
        };
        expand_window_title_template(
            template,
            title.as_str(),
            app_name,
            pane_title.as_str(),
            cwd.as_str(),
        )
    }

    /// What the window is called now.
    pub fn update_window_title(
        &self,
        template: &str,
        app_name: &str,
        hovered: Option<usize>,
    ) -> (r: String)
        requires
            self.wf(),
        ensures
            r@ == self@.title_now(template@, app_name@, hovered),
    {
        if self.window.settings_open {
            return "Winter - Settings".to_owned();
        }
        if let Some(palette) = &self.palette {
            let mut out = chars_of("Winter - palette: > ");
            append_chars(&mut out, &palette.query);
            append_str(&mut out, " [");
            if let Some(action) = palette.selected_action() {
                append_str(&mut out, action.as_str());
            }
            append_str(&mut out, "]");
            assert(out@ =~= self@.title_now(template@, app_name@, hovered));
            return string_of(&out);
        }
        if self.shared.search.query.is_some() || self.shared.pending == PendingPrefix::SearchInput {
            let mut out = chars_of("Winter - search: ");
            append_str(
                &mut out,
                if self.shared.search.reverse {
                    "?"
                } else {
                    "/"
                },
            );
            if let Some(query) = &self.shared.search.query {
                append_str(&mut out, query.as_str());
            }
            assert(out@ =~= self@.title_now(template@, app_name@, hovered));
            return string_of(&out);
        }
        if self.shared.quick_select.is_some() {
            return "Winter - quick select".to_owned();
        }
        if let Some(i) = hovered {
            if i < self.tabs.all.len() {
                let name = self.tab_title(i);
                return phrase("Winter - ", name.as_str(), "");
            }
        }
        self.render_window_title(template, app_name)
    }

    /// What the window is to be called now that it is called `shown`: nothing else, where
    /// that is right.
    pub fn title_change(
        &self,
        shown: &str,
        template: &str,
        app_name: &str,
        hovered: Option<usize>,
    ) -> (r: Option<String>)
        requires
            self.wf(),
        ensures
            string_view(r) == (if self@.title_now(template@, app_name@, hovered) == shown@ {
                None
            } else {
                Some(self@.title_now(template@, app_name@, hovered))
            }),
    {
        let title = self.update_window_title(template, app_name, hovered);
        if same_text(title.as_str(), shown) {
            None
        } else {
            Some(title)
        }
    }
}

} // verus!
