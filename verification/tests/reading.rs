use winter_term::grid::{Cell, Color, Grid, Link, Row, Style};
use winter_term::input::FindChar;
use winter_term::navigation::export::{
    export_scrollback_ansi, export_scrollback_html, export_scrollback_plain, Rgb, Theme,
};
use winter_term::navigation::open::{
    enclosed_quote_span, open_candidates, parse_file_ref, resolve_open_target, span_covers,
    strip_trailing_url_punct, OpenTarget,
};
use winter_term::navigation::quick_select::{block_containing, generate_quick_labels, nth_label};
use winter_term::navigation::reading::{
    bracket_marks, emit_sentence_spans, resolve_bracket_colors, sentence_spans, BracketMark,
    PlacedChar, SentenceSpan, UNMATCHED_DEPTH,
};
use winter_term::navigation::swoop::extract_swoop_lines;
use winter_term::navigation::vim::{
    absolute_row_chars, nav_line_end, text_object_brackets, text_object_paragraph,
    text_object_quotes, text_object_sentence, text_object_word,
};
use winter_term::words::find_char;

fn row(text: &str, cols: usize) -> Row {
    styled_row(text, cols, Style::default())
}

fn styled_row(text: &str, cols: usize, style: Style) -> Row {
    let mut cells: Vec<Cell> = text.chars().map(|ch| Cell { ch, style }).collect();
    while cells.len() < cols {
        cells.push(Cell { ch: ' ', style: Style::default() });
    }
    Row { cells, indent: 0, links: Vec::new(), wraps: false }
}

fn grid(lines: &[&str], cols: usize, rows: usize, cursor: (usize, usize)) -> Grid {
    let mut all: Vec<Row> = lines.iter().map(|l| row(l, cols)).collect();
    while all.len() < rows {
        all.push(row("", cols));
    }
    Grid::from_lines(all, cols, rows, cursor).expect("a grid")
}

fn grid_from_lines(lines: &[&str]) -> Grid {
    let cols = lines.iter().map(|l| l.chars().count()).max().unwrap_or(20).max(20) + 5;
    grid(lines, cols, lines.len().max(6), (0, 0))
}

/// `text` printed over rows of `cols` cells that wrap.
fn grid_from_wrapped(text: &str, cols: usize) -> Grid {
    let chars: Vec<char> = text.chars().map(|c| if c == '\n' { ' ' } else { c }).collect();
    let chunks: Vec<String> = chars.chunks(cols).map(|c| c.iter().collect()).collect();
    let mut rows: Vec<Row> = chunks.iter().map(|c| row(c, cols)).collect();
    let last = rows.len() - 1;
    for r in rows.iter_mut().take(last) {
        r.wraps = true;
    }
    while rows.len() < 8 {
        rows.push(row("", cols));
    }
    Grid::from_lines(rows, cols, 8, (0, 0)).expect("a grid")
}

fn theme() -> Theme {
    let mut ansi = [Rgb { r: 0, g: 0, b: 0 }; 16];
    for (i, color) in ansi.iter_mut().enumerate() {
        *color = Rgb { r: i as u8, g: 2 * i as u8, b: 3 * i as u8 };
    }
    Theme { ansi, background: Rgb { r: 1, g: 2, b: 3 }, foreground: Rgb { r: 250, g: 251, b: 252 } }
}

#[test]
fn test_export_scrollback_plain_trims_whitespace_and_empty_rows() {
    let shown = grid(&["hello world   ", "line 2"], 20, 4, (1, 6));
    assert_eq!(export_scrollback_plain(&shown), "hello world\nline 2");
}

#[test]
fn test_export_scrollback_ansi_includes_colors_and_styles() {
    let style = Style { bold: true, ..Style::default() };
    let rows = vec![styled_row("bold", 20, style), row("", 20)];
    let shown = Grid::from_lines(rows, 20, 2, (0, 4)).unwrap();
    let ansi = export_scrollback_ansi(&shown);
    assert!(ansi.contains("\x1b[1m"), "contains bold escape code");
    assert!(ansi.contains("bold"), "contains text");
}

#[test]
fn test_export_scrollback_html_escapes_entities_and_wraps_in_document() {
    let shown = grid(&["<span> & 'test'"], 20, 2, (0, 15));
    let html = export_scrollback_html(&shown, &theme());
    assert!(html.contains("&lt;span&gt;"), "escapes angle brackets");
    assert!(html.contains("&amp;"), "escapes ampersand");
    assert!(html.contains("<!DOCTYPE html>"), "is complete html document");
}

#[test]
fn test_extract_swoop_lines_skips_blank_rows_and_trims_trailing_whitespace() {
    let shown = grid(&["first line   ", "", "third line"], 20, 3, (2, 10));
    let lines = extract_swoop_lines(&shown);
    assert_eq!(lines.len(), 2);
    assert_eq!(lines[0], (0, "first line".to_string()));
    assert_eq!(lines[1], (2, "third line".to_string()));
}

fn nothing() -> Vec<String> {
    Vec::new()
}

#[test]
fn test_resolves_url_under_cursor() {
    let shown = grid_from_lines(&["see https://example.com/x for more"]);
    let idx = "see ".chars().count();
    assert_eq!(
        resolve_open_target(&shown, 0, idx + 2, None, &nothing()),
        Some(OpenTarget::Url("https://example.com/x".to_string()))
    );
}

#[test]
fn test_url_resolution_trims_trailing_punct_and_covers_wrapping_quote() {
    let line = "see \"https://example.com/a,\",";
    let shown = grid_from_lines(&[line]);
    let quote_pos = line.chars().position(|c| c == '"').expect("quote");
    assert_eq!(
        resolve_open_target(&shown, 0, quote_pos, None, &nothing()),
        Some(OpenTarget::Url("https://example.com/a".to_string()))
    );
    assert_eq!(strip_trailing_url_punct("https://example.com/a?!.,"), "https://example.com/a");
}

#[test]
fn test_resolves_file_reference_with_line_col_against_cwd() {
    let existing = vec!["/tmp/work/src/foo.rs".to_string()];
    let shown = grid_from_lines(&["error at src/foo.rs:42:10 here"]);
    let idx = "error at ".chars().count();
    assert_eq!(
        resolve_open_target(&shown, 0, idx + 3, Some("/tmp/work"), &existing),
        Some(OpenTarget::File { line: Some(42), path: "/tmp/work/src/foo.rs".to_string() })
    );
    let asked = open_candidates(&shown, 0, idx + 3, Some("/tmp/work"));
    assert!(asked.contains(&"/tmp/work/src/foo.rs".to_string()));
}

#[test]
fn test_resolves_plain_relative_path_and_skips_nonexistent_tokens() {
    let existing = vec!["/tmp/work/notes.txt".to_string()];
    let shown = grid_from_lines(&["read missing.txt or notes.txt now"]);

    let missing_idx = "read ".chars().count() + 2;
    assert_eq!(
        resolve_open_target(&shown, 0, missing_idx, Some("/tmp/work"), &existing),
        None,
        "a token that resolves to nothing is not openable"
    );

    let notes_idx = "read missing.txt or ".chars().count() + 3;
    assert_eq!(
        resolve_open_target(&shown, 0, notes_idx, Some("/tmp/work"), &existing),
        Some(OpenTarget::File { line: None, path: "/tmp/work/notes.txt".to_string() })
    );
}

#[test]
fn test_resolves_quoted_path_with_spaces() {
    let existing = vec!["/tmp/work/my notes.txt".to_string()];
    let shown = grid_from_lines(&["open \"my notes.txt\" please"]);
    let idx = "open \"".chars().count() + 2;
    assert_eq!(
        resolve_open_target(&shown, 0, idx, Some("/tmp/work"), &existing),
        Some(OpenTarget::File { line: None, path: "/tmp/work/my notes.txt".to_string() })
    );
}

#[test]
fn test_plain_word_resolves_to_nothing() {
    let shown = grid_from_lines(&["just some prose here"]);
    assert_eq!(resolve_open_target(&shown, 0, 6, None, &nothing()), None);
}

#[test]
fn test_parse_file_ref_variants() {
    assert_eq!(parse_file_ref("foo.rs:42:10"), ("foo.rs".to_string(), Some(42)));
    assert_eq!(parse_file_ref("foo.rs:7"), ("foo.rs".to_string(), Some(7)));
    assert_eq!(parse_file_ref("foo.rs"), ("foo.rs".to_string(), None));
    assert_eq!(parse_file_ref("v1.2.3"), ("v1.2.3".to_string(), None));
}

#[test]
fn test_span_covers_inside_and_wrapping_delimiters_only() {
    let line: Vec<char> = "\"abc\"".chars().collect();
    assert!(span_covers(&line, 1, 3, 2), "inside the span");
    assert!(span_covers(&line, 1, 3, 1), "span start");
    let plain: Vec<char> = "zabcz".chars().collect();
    assert!(!span_covers(&plain, 1, 3, 4), "one past the end on a plain letter does not count");
    let bracketed: Vec<char> = "[ab]".chars().collect();
    assert!(span_covers(&bracketed, 1, 2, 3), "resting on the wrapping bracket counts");
    let prose: Vec<char> = "x abc y".chars().collect();
    assert!(!span_covers(&prose, 2, 3, 1), "a plain letter one out does not count");
}

#[test]
fn test_quick_select_labels_constants() {
    assert!(nth_label(0).is_some());
    assert_eq!(nth_label(0), Some('a'));
}

#[test]
fn test_block_containing_finds_the_nearest_block_not_the_first() {
    let offsets = vec![0, 10, 25, 40];
    assert_eq!(block_containing(&offsets, 5), Some(0));
    assert_eq!(block_containing(&offsets, 10), Some(10));
    assert_eq!(block_containing(&offsets, 39), Some(25));
    assert_eq!(block_containing(&offsets, 100), Some(40));
    assert_eq!(block_containing(&Vec::new(), 5), None);
}

#[test]
fn blocks_in_view_are_labelled_and_no_others() {
    let lines: Vec<String> = (0..12).map(|n: u32| n.to_string()).collect();
    let refs: Vec<&str> = lines.iter().map(String::as_str).collect();
    let shown = grid(&refs, 20, 4, (0, 0));
    let labels = generate_quick_labels(&shown, &vec![0, 8, 11]).expect("two blocks in view");
    let placed: Vec<(usize, char)> = labels.iter().map(|l| (l.row, l.label)).collect();
    assert_eq!(placed, vec![(0, 'a'), (3, 's')]);
    assert!(generate_quick_labels(&shown, &vec![0, 1]).is_none());
}

fn row_spans(spans: &[SentenceSpan], row: usize) -> Vec<(usize, usize, u8)> {
    spans.iter().filter(|s| s.row == row).map(|s| (s.col_start, s.col_end, s.tone)).collect()
}

#[test]
fn test_two_sentences_alternate_tones_on_one_row() {
    let spans = sentence_spans(&grid_from_lines(&["One sentence here. Another one!"]));
    assert_eq!(
        row_spans(&spans, 0),
        vec![(0, 18, 0), (19, 31, 1)],
        "terminator + space + capital splits, tones alternate"
    );
}

#[test]
fn test_lowercase_continuation_does_not_split() {
    let spans = sentence_spans(&grid_from_lines(&["Config e.g. this way works."]));
    assert_eq!(row_spans(&spans, 0), vec![(0, 27, 0)]);
}

#[test]
fn test_sentence_flows_across_a_soft_wrap_but_not_a_blank_line() {
    let shown = grid_from_wrapped("A long sentence that keeps flowing on.\n\nNew paragraph.", 20);
    let spans = sentence_spans(&shown);
    let row0 = row_spans(&spans, 0);
    let row1 = row_spans(&spans, 1);
    assert_eq!(row0.first().map(|s| s.2), Some(0));
    assert_eq!(
        row1.first().map(|s| s.2),
        Some(0),
        "continuation row keeps the head row's sentence and tone"
    );
    assert!(
        row1.len() <= 1 || row1[0].2 == 0,
        "the wrapped sentence's rows all share one tone"
    );
    assert!(row_spans(&spans, 2).is_empty() || shown.absolute_row_wraps(1), "blank row region");
    let last_row = spans.last().expect("the new paragraph's band");
    assert_eq!(last_row.tone, 1, "paragraph break flips the tone");
}

#[test]
fn a_blank_row_ends_a_paragraph_and_flips_the_tone() {
    let spans = sentence_spans(&grid_from_lines(&["one goes on", "", "two goes on"]));
    assert_eq!(row_spans(&spans, 0), vec![(0, 11, 0)]);
    assert_eq!(row_spans(&spans, 2), vec![(0, 11, 1)]);
}

#[test]
fn test_wrapping_quote_extends_the_boundary() {
    let spans = sentence_spans(&grid_from_lines(&["He said \"stop.\" Then left."]));
    assert_eq!(row_spans(&spans, 0), vec![(0, 15, 0), (16, 26, 1)]);
}

#[test]
fn test_digit_starts_a_new_sentence() {
    let spans = sentence_spans(&grid_from_lines(&["Version one. 2nd release here."]));
    assert_eq!(row_spans(&spans, 0), vec![(0, 12, 0), (13, 30, 1)]);
}

#[test]
fn test_bracket_marks_share_depth_within_a_pair() {
    let marks = bracket_marks(&grid_from_lines(&["f(a, g(b), [c])"]));
    let at = |col| {
        marks.iter().find(|m| m.col == col).map(|m| m.depth).expect("a mark at the column")
    };
    assert_eq!(at(1), 0, "outer ( opens at depth 0");
    assert_eq!(at(6), 1, "inner ( opens at depth 1");
    assert_eq!(at(8), 1, "its ) shares depth 1");
    assert_eq!(at(11), 1, "[ opens at depth 1");
    assert_eq!(at(13), 1, "] shares depth 1");
    assert_eq!(at(14), 0, "outer ) shares depth 0");
}

#[test]
fn test_unmatched_closer_is_marked_unmatched() {
    let marks = bracket_marks(&grid_from_lines(&["just a stray ) here"]));
    assert_eq!(marks, vec![BracketMark { row: 0, col: 13, depth: UNMATCHED_DEPTH }]);
}

#[test]
fn test_depth_carries_across_rows() {
    let marks = bracket_marks(&grid_from_lines(&["open ( then", "close ) here"]));
    assert_eq!(marks.len(), 2);
    assert_eq!(marks[0].depth, marks[1].depth);
    assert_eq!(marks[0].row, 0);
    assert_eq!(marks[1].row, 1);
}

#[test]
fn test_resolve_bracket_colors_maps_depth_to_theme_ansi_and_unmatched_to_red() {
    let theme = theme();
    let marks = vec![
        BracketMark { col: 1, depth: 0, row: 0 },
        BracketMark { col: 6, depth: 1, row: 0 },
        BracketMark { col: 13, depth: UNMATCHED_DEPTH, row: 0 },
    ];
    let colors = resolve_bracket_colors(&marks, &theme);
    assert_eq!(colors.len(), 3);
    assert_eq!(colors[0], (0, 1, (theme.ansi[3].r, theme.ansi[3].g, theme.ansi[3].b)));
    assert_eq!(colors[1], (0, 6, (theme.ansi[5].r, theme.ansi[5].g, theme.ansi[5].b)));
    assert_eq!(colors[2], (0, 13, (theme.ansi[1].r, theme.ansi[1].g, theme.ansi[1].b)));
}

fn grid_with(line: &str) -> Grid {
    let n = line.chars().count();
    grid(&[line], n + 10, 3, (0, n))
}

fn text(shown: &Grid, span: ((usize, usize), (usize, usize))) -> String {
    absolute_row_chars(shown, 0)[span.0 .1..=span.1 .1].iter().collect()
}

#[test]
fn test_a_sentence_ends_at_its_stop_and_the_quotes_that_close_after_it() {
    let shown = grid_with("One two. \"Three four.\" Five");

    let first = text_object_sentence(&shown, 0, 2, false).expect("the first sentence");
    assert_eq!(text(&shown, first), "One two.");
    let around = text_object_sentence(&shown, 0, 2, true).expect("with its blanks");
    assert_eq!(text(&shown, around), "One two. ");

    let second = text_object_sentence(&shown, 0, 12, false).expect("the second");
    assert_eq!(
        text(&shown, second),
        "\"Three four.\"",
        "the quote closing after the stop belongs to it"
    );
}

#[test]
fn test_a_stop_inside_a_word_does_not_end_a_sentence() {
    let shown = grid_with("Run cargo test v1.2.3 now");
    let span = text_object_sentence(&shown, 0, 0, false).expect("one sentence");
    assert_eq!(text(&shown, span), "Run cargo test v1.2.3 now");
}

#[test]
fn test_as_takes_the_blanks_before_when_none_follow() {
    let shown = grid_with("First. Second.");
    let span = text_object_sentence(&shown, 0, 10, true).expect("the last sentence");
    assert_eq!(text(&shown, span), " Second.");
}

#[test]
fn test_nav_line_end_extends_to_shell_cursor_for_trailing_space() {
    let shown = grid(&["cd "], 20, 3, (0, 3));
    assert_eq!(shown.visible_line_end(0), 1);
    assert_eq!(shown.cursor(), (0, 3));
    assert_eq!(nav_line_end(&shown, 0), 3);
}

#[test]
fn test_nav_line_end_reaches_shell_cursor_without_trailing_space() {
    let shown = grid(&["cd"], 20, 3, (0, 2));
    assert_eq!(shown.cursor(), (0, 2));
    assert_eq!(nav_line_end(&shown, 0), 2);
}

#[test]
fn test_nav_line_end_does_not_extend_non_prompt_rows() {
    let shown = grid(&["out "], 20, 3, (1, 0));
    assert_eq!(nav_line_end(&shown, 0), 2);
}

#[test]
fn test_find_char_forward_backward_and_till() {
    let line: Vec<char> = "abcabc".chars().collect();
    let find = |forward, till| FindChar { ch: 'c', forward, till };

    assert_eq!(find_char(&line, 0, find(true, false)), Some(2));
    assert_eq!(find_char(&line, 2, find(true, false)), Some(5));
    assert_eq!(find_char(&line, 0, find(true, true)), Some(1));
    assert_eq!(find_char(&line, 5, find(false, false)), Some(2));
    assert_eq!(find_char(&line, 5, find(false, true)), Some(3));
    let miss = FindChar { ch: 'z', forward: true, till: false };
    assert_eq!(find_char(&line, 0, miss), None);
    assert_eq!(find_char(&line, 1, find(true, true)), None);
}

fn grid_from_line(s: &str) -> Grid {
    let n = s.chars().count();
    grid(&[s], n.max(10), 1, (0, n))
}

#[test]
fn test_text_object_word_inner_and_around() {
    let shown = grid_from_line("hello   world   foo");
    assert_eq!(text_object_word(&shown, 0, 2, false, false), Some(((0, 0), (0, 4))));
    assert_eq!(text_object_word(&shown, 0, 2, false, true), Some(((0, 0), (0, 7))));
    assert_eq!(text_object_word(&shown, 0, 6, false, false), Some(((0, 5), (0, 7))));
}

#[test]
fn test_text_object_quotes_inner_and_around() {
    let shown = grid_from_line(r#"let msg = "hello world";"#);
    assert_eq!(text_object_quotes(&shown, 0, 14, '"', false), Some(((0, 11), (0, 21))));
    assert_eq!(text_object_quotes(&shown, 0, 14, '"', true), Some(((0, 10), (0, 22))));
}

#[test]
fn test_text_object_brackets_inner_and_around() {
    let shown = grid_from_line("fn foo(a, b, c) { return 42; }");
    assert_eq!(text_object_brackets(&shown, 0, 8, '(', ')', false), Some(((0, 7), (0, 13))));
    assert_eq!(text_object_brackets(&shown, 0, 8, '(', ')', true), Some(((0, 6), (0, 14))));
    assert_eq!(text_object_brackets(&shown, 0, 20, '{', '}', false), Some(((0, 17), (0, 28))));
    assert_eq!(text_object_brackets(&shown, 0, 20, '{', '}', true), Some(((0, 16), (0, 29))));
}

#[test]
fn test_text_object_unbalanced_delimiters() {
    let shown = grid_from_line("fn foo(a, b, c");
    assert_eq!(text_object_brackets(&shown, 0, 8, '(', ')', false), None);
    let open = grid_from_line("fn foo \"hello");
    assert_eq!(text_object_quotes(&open, 0, 10, '"', false), None);
}

#[test]
fn a_paragraph_object_takes_the_rows_between_blank_ones() {
    let shown = grid_from_lines(&["one", "two", "", "four"]);
    let inner = text_object_paragraph(&shown, 1, false).expect("a paragraph");
    assert_eq!((inner.0 .0, inner.1 .0), (0, 1));
}

#[test]
fn a_link_is_found_by_the_row_in_view() {
    let mut linked = row("here", 20);
    linked.links.push(Link { start_col: 0, end_col: 4, url: "https://x.example".to_string() });
    let rows = vec![row("first", 20), linked, row("", 20)];
    let mut shown = Grid::from_lines(rows, 20, 2, (0, 0)).unwrap();
    assert_eq!(shown.cell_link(0, 2).map(String::as_str), Some("https://x.example"));
    assert_eq!(shown.cell_link(0, 4), None);
    shown.scroll_up_history(1);
    assert_eq!(shown.cell_link(0, 2), None);
    assert_eq!(shown.cell_link(1, 2).map(String::as_str), Some("https://x.example"));
}

#[test]
fn a_quoted_stretch_ends_on_its_last_character() {
    let chars: Vec<char> = "\"ab\"".chars().collect();
    assert_eq!(enclosed_quote_span(&chars, 1), Some((1, 2)));
    assert_eq!(enclosed_quote_span(&chars, 2), Some((1, 2)));
    let plain: Vec<char> = "ab".chars().collect();
    assert_eq!(enclosed_quote_span(&plain, 1), None);
}

/// A text without what goes from an escape character up to an `m`.
fn without_escapes(text: &str) -> String {
    let mut out = String::new();
    let mut inside = false;
    for c in text.chars() {
        if c == '\x1b' {
            inside = true;
        } else if !inside {
            out.push(c);
        } else if c == 'm' {
            inside = false;
        }
    }
    out
}

#[test]
fn both_exports_say_the_same() {
    let bold = Style { bold: true, ..Style::default() };
    let red = Style { foreground: Color::Indexed(9), underline: true, ..Style::default() };
    let deep = Style {
        background: Color::Rgb { r: 1, g: 20, b: 255 },
        italic: true,
        reversed: true,
        ..Style::default()
    };
    let rows = vec![
        styled_row("some bold", 20, bold),
        row("", 20),
        styled_row("mmm", 20, red),
        styled_row("last", 20, deep),
        row("", 20),
    ];
    let shown = Grid::from_lines(rows, 20, 5, (0, 0)).expect("a grid");
    let ansi = export_scrollback_ansi(&shown);
    assert!(ansi.contains("\x1b[38;5;9m") && ansi.contains("\x1b[48;2;1;20;255m"));
    let bare = without_escapes(&ansi);
    let lines: Vec<&str> = bare.lines().map(|line| line.trim_end()).collect();
    assert_eq!(lines.join("\n"), export_scrollback_plain(&shown));
}

#[test]
fn a_sentence_breaks_only_where_something_parts_it() {
    let placed = |text: &str| -> Vec<PlacedChar> {
        text.chars().enumerate().map(|(col, ch)| PlacedChar { ch, row: 0, col }).collect()
    };
    let mut spans = Vec::new();
    emit_sentence_spans(&placed("Use v1.2 now."), &mut spans);
    assert_eq!(spans, [SentenceSpan { row: 0, col_start: 0, col_end: 13, tone: 0 }]);

    let mut apart = Vec::new();
    emit_sentence_spans(&placed("Use v1. 2 now."), &mut apart);
    let bands: Vec<(usize, usize, u8)> =
        apart.iter().map(|s| (s.col_start, s.col_end, s.tone)).collect();
    assert_eq!(bands, [(0, 7, 0), (8, 14, 1)]);

    let rows = sentence_spans(&grid_from_lines(&["It ends here.", "Then more."]));
    assert_eq!(rows.iter().map(|s| (s.row, s.tone)).collect::<Vec<_>>(), [(0, 0), (1, 1)]);
}

#[test]
fn a_sentence_begun_above_the_view_goes_on() {
    let lines = ["One is here. Two is", "long. Three is", "here.", "", "Four."];
    let shown = grid(&lines, 30, 3, (0, 0));
    let bands: Vec<(usize, usize, usize, u8)> = sentence_spans(&shown)
        .iter()
        .map(|s| (s.row, s.col_start, s.col_end, s.tone))
        .collect();
    assert_eq!(bands, [(0, 0, 5, 0), (2, 0, 5, 1)], "the third goes on, the fourth follows");
}

#[test]
fn a_bracket_opened_above_the_view_keeps_its_depth() {
    let lines = ["f(", "  [", "  ] ( )", ") ( ) )"];
    let shown = grid(&lines, 20, 2, (0, 0));
    let marks: Vec<(usize, usize, usize)> =
        bracket_marks(&shown).iter().map(|m| (m.row, m.col, m.depth)).collect();
    assert_eq!(
        marks,
        [
            (0, 2, 1),
            (0, 4, 1),
            (0, 6, 1),
            (1, 0, 0),
            (1, 2, 0),
            (1, 4, 0),
            (1, 6, UNMATCHED_DEPTH),
        ]
    );
}
