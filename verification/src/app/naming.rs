//! What titles are made of.

use vstd::prelude::*;
use crate::app::titles::{expanded, placeholder_at, TitleParts};
use crate::app::AppView;

verus! {

/// One of the four names that a template may hold between double braces, and what it stands
/// for.
pub open spec fn stands_for(name: Seq<char>, parts: TitleParts, text: Seq<char>) -> bool {
    ||| name == "{{ title }}"@ && text == parts.title
    ||| name == "{{ app_name }}"@ && text == parts.app_name
    ||| name == "{{ pane_title }}"@ && text == parts.pane_title
    ||| name == "{{ cwd }}"@ && text == parts.cwd
}

proof fn lemma_shifted(a: Seq<char>, b: Seq<char>, i: int, parts: TitleParts)
    requires
        0 <= i <= b.len(),
    ensures
        expanded(a + b, a.len() + i, parts) == expanded(b, i, parts),
    decreases b.len() - i,
{
    let all = a + b;
    let at = a.len() + i;
    if i < b.len() {
        lemma_names();
        assert forall|name: Seq<char>| #[trigger] placeholder_at(all, name, at) == placeholder_at(
            b,
            name,
            i,
        ) by {
            if name.len() > 0 && i + name.len() <= b.len() {
                assert(all.subrange(at, at + name.len()) =~= b.subrange(i, i + name.len()));
            }
        }
        assert(all[at] == b[i]);
        if placeholder_at(b, "{{ title }}"@, i) {
            lemma_shifted(a, b, i + "{{ title }}"@.len(), parts);
        } else if placeholder_at(b, "{{ app_name }}"@, i) {
            lemma_shifted(a, b, i + "{{ app_name }}"@.len(), parts);
        } else if placeholder_at(b, "{{ pane_title }}"@, i) {
            lemma_shifted(a, b, i + "{{ pane_title }}"@.len(), parts);
        } else if placeholder_at(b, "{{ cwd }}"@, i) {
            lemma_shifted(a, b, i + "{{ cwd }}"@.len(), parts);
        } else {
            lemma_shifted(a, b, i + 1, parts);
        }
    }
}

proof fn lemma_names()
    ensures
        "{{ title }}"@.len() == 11,
        "{{ app_name }}"@.len() == 14,
        "{{ pane_title }}"@.len() == 16,
        "{{ cwd }}"@.len() == 9,
        "{{ title }}"@[0] == '{' && "{{ title }}"@[3] == 't',
        "{{ app_name }}"@[0] == '{' && "{{ app_name }}"@[3] == 'a',
        "{{ pane_title }}"@[0] == '{' && "{{ pane_title }}"@[3] == 'p',
        "{{ cwd }}"@[0] == '{' && "{{ cwd }}"@[3] == 'c',
{
    reveal_strlit("{{ title }}");
    reveal_strlit("{{ app_name }}");
    reveal_strlit("{{ pane_title }}");
    reveal_strlit("{{ cwd }}");
}

proof fn lemma_no_other(template: Seq<char>, name: Seq<char>, other: Seq<char>, i: int)
    requires
        placeholder_at(template, name, i),
        name.len() > 3,
        other.len() > 3,
        name[3] != other[3],
    ensures
        !placeholder_at(template, other, i),
{
    if placeholder_at(template, other, i) {
        assert(template.subrange(i, i + name.len())[3] == template[i + 3]);
        assert(template.subrange(i, i + other.len())[3] == template[i + 3]);
    }
}

/// What a template says is kept as it is but for the names between braces, each of which is
/// replaced by what it stands for; what replaces one is not looked through again.
pub proof fn law_a_name_is_replaced_by_what_it_stands_for(
    lead: Seq<char>,
    name: Seq<char>,
    rest: Seq<char>,
    parts: TitleParts,
    text: Seq<char>,
)
    requires
        forall|i: int| 0 <= i < lead.len() ==> #[trigger] lead[i] != '{',
        stands_for(name, parts, text),
    ensures
        expanded(lead + name + rest, 0, parts) == lead + text + expanded(rest, 0, parts),
        expanded(lead, 0, parts) == lead,
    decreases lead.len(),
{
    lemma_names();
    let all = lead + name + rest;
    if lead.len() > 0 {
        let less = lead.skip(1);
        assert forall|i: int| 0 <= i < less.len() implies #[trigger] less[i] != '{' by {
            assert(less[i] == lead[i + 1]);
        }
        law_a_name_is_replaced_by_what_it_stands_for(less, name, rest, parts, text);
        let one = seq![lead[0]];
        assert(all =~= one + (less + name + rest));
        lemma_shifted(one, less + name + rest, 0, parts);
        assert(lead =~= one + less);
        lemma_shifted(one, less, 0, parts);
        lemma_plain(all, parts);
        lemma_plain(lead, parts);
        assert(one + (less + text + expanded(rest, 0, parts)) =~= lead + text + expanded(
            rest,
            0,
            parts,
        ));
    } else {
        assert(all =~= name + rest);
        assert(lead + text + expanded(rest, 0, parts) =~= text + expanded(rest, 0, parts));
        assert(all.subrange(0, name.len() as int) =~= name);
        assert(placeholder_at(all, name, 0));
        lemma_shifted(name, rest, 0, parts);
        if name != "{{ title }}"@ {
            lemma_no_other(all, name, "{{ title }}"@, 0);
            if name != "{{ app_name }}"@ {
                lemma_no_other(all, name, "{{ app_name }}"@, 0);
                if name != "{{ pane_title }}"@ {
                    lemma_no_other(all, name, "{{ pane_title }}"@, 0);
                }
            }
        }
        assert(expanded(lead, 0, parts) =~= lead);
    }
}

proof fn lemma_plain(template: Seq<char>, parts: TitleParts)
    requires
        template.len() > 0,
        template[0] != '{',
    ensures
        expanded(template, 0, parts) == seq![template[0]] + expanded(template, 1, parts),
{
    lemma_names();
    assert forall|name: Seq<char>| name.len() > 0 && name[0] == '{' implies !(
    #[trigger] placeholder_at(template, name, 0)) by {
        if placeholder_at(template, name, 0) {
            assert(template.subrange(0, name.len() as int)[0] == template[0]);
        }
    }
}

/// A tab goes by the name that the user gave it; without one, by the title that its program
/// set; without one, by the session it is attached to, then by where its shell is, and last it
/// is just a shell.
pub proof fn law_a_tab_goes_by_the_best_name_it_has(app: AppView, i: int)
    requires
        0 <= i < app.tabs.all.len(),
    ensures
        ({
            let focus = app.tabs.all[i].focus;
            let pane = app.state(focus).pane;
            let given = app.tabs.names[i];
            let set = app.titles.dom().contains(focus.0);
            &&& given matches Some(name) ==> app.tab_name(i) == name
            &&& given is None && set ==> app.tab_name(i) == app.titles[focus.0]
            &&& given is None && !set ==> {
                &&& pane is None ==> app.tab_name(i) == "shell"@
                &&& pane matches Some(pane) ==> {
                    &&& pane.mux_session matches Some(name) ==> app.tab_name(i) == "mux: "@ + name
                    &&& pane.mux_session is None && pane.cwd is Some ==> app.tab_name(i)
                        == pane.cwd->0
                    &&& pane.mux_session is None && pane.cwd is None ==> app.tab_name(i)
                        == "shell"@
                }
            }
        }),
{
    reveal_strlit("");
    let focus = app.tabs.all[i].focus;
    if let Some(pane) = app.state(focus).pane {
        if let Some(name) = pane.mux_session {
            assert("mux: "@ + name + ""@ =~= "mux: "@ + name);
        }
    }
}

} // verus!
