//! What choosing a line of a list comes to.

use vstd::prelude::*;
use crate::app::commands::pane_entry;
use crate::app::palette::{session_line, session_named, swoop_entry, SessionInfo};
use crate::app::AppView;
use crate::events::{lemma_word_stop, word_stop, words_from};
use crate::input::PaneId;
use crate::queries::{is_word, law_white_space_parts_words};
use crate::requests::RequestView;
use crate::session::EffectView;
use crate::text::{decimal, is_white, law_a_number_reads_back, parsed_number};

verus! {

/// The line of a session stands for that session: choosing it asks for nothing but to attach
/// to it, or to end it, by its name.
pub proof fn law_a_line_stands_for_its_session(app: AppView, session: SessionInfo, kill: bool)
    requires
        is_word(session.name@),
        session.name@[0] != '(',
    ensures
        session_named(session_line(session)) == session.name@,
        ({
            let after = app.session_used(session_line(session), kill);
            &&& after.shared.effects.drop_last() == app.shared.effects
            &&& kill ==> after.shared.effects.last() == EffectView::Ask(
                RequestView::KillSession(session.name@),
            )
            &&& !kill ==> after.shared.effects.last() == EffectView::Ask(
                RequestView::AttachSession(session.name@),
            )
        }),
{
    reveal(AppView::session_used);
    reveal_strlit(" (");
    let name = session.name@;
    let line = session_line(session);
    assert(line[name.len() as int] == ' ');
    let rest = line.skip(name.len() as int + 1);
    assert(line =~= name + seq![' '] + rest);
    law_white_space_parts_words(name, ' ', rest);
    assert(words_from(line, 0)[0] == name);
    let after = app.session_used(line, kill);
    assert(after.shared.effects.drop_last() =~= app.shared.effects);
}

/// A line that starts with a bracket names no session, and choosing it does nothing.
pub proof fn law_a_notice_is_no_session(app: AppView, line: Seq<char>, kill: bool)
    requires
        line.len() > 0,
        line[0] == '(',
    ensures
        app.session_used(line, kill) == app,
{
    reveal(AppView::session_used);
    assert(!is_white('('));
    lemma_word_stop(line, 0);
    assert(words_from(line, 0)[0] == line.subrange(0, word_stop(line, 0)));
}

/// A line of the buffer shows its text and stands for its row.
pub proof fn law_a_line_stands_for_its_row(row: usize, text: Seq<char>)
    ensures
        parsed_number(swoop_entry(row as int, text).action) == Some(row as int),
        swoop_entry(row as int, text).label == text,
{
    law_a_number_reads_back(row);
}

/// The line of a pane shows the pane that it is the line of, under the number of its tab and
/// with the number that it has there.
pub proof fn law_a_line_shows_its_pane(
    app: AppView,
    pane: PaneId,
    tab: usize,
    title: Seq<char>,
    place: usize,
)
    requires
        pane.0 <= usize::MAX,
        tab < usize::MAX,
        place < usize::MAX,
    ensures
        ({
            let entry = pane_entry(pane, tab as int, title, place as int);
            let number = decimal((tab + 1) as nat);
            &&& app.numbered_pane_shown(entry.action) == app.pane_shown(pane)
            &&& parsed_number(entry.shortcut) == Some(place + 1)
            &&& entry.label.take(number.len() as int) == number
            &&& parsed_number(number) == Some(tab + 1)
            &&& entry.label.skip(number.len() as int + 2) == title
        }),
{
    reveal(AppView::numbered_pane_shown);
    reveal_strlit(": ");
    law_a_number_reads_back(pane.0 as usize);
    law_a_number_reads_back((place + 1) as usize);
    law_a_number_reads_back((tab + 1) as usize);
    let entry = pane_entry(pane, tab as int, title, place as int);
    let number = decimal((tab + 1) as nat);
    assert(entry.label.take(number.len() as int) =~= number);
    assert(entry.label.skip(number.len() as int + 2) =~= title);
}

/// What ends with a slash is a directory and is listed. Anything else is a file and is opened.
pub proof fn law_directories_are_listed_and_files_opened(app: AppView, path: Seq<char>)
    ensures
        app.file_used(path.push('/')).shared.effects == app.shared.effects.push(
            EffectView::Ask(RequestView::ListFilesIn(path.push('/'))),
        ),
        path.len() > 0 && path.last() != '/' ==> app.file_used(path).shared.effects
            == app.shared.effects.push(
            EffectView::Ask(RequestView::OpenPath { path, line: None }),
        ),
{
    reveal(AppView::file_used);
}

} // verus!
