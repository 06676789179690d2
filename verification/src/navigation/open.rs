//! What the cursor is on that can be opened: a link, a URL, a file reference or a
//! quoted path.

use vstd::prelude::*;
use crate::grid::{link_hit, Grid};
use crate::navigation::search::string_view;
use crate::navigation::vim::{line_chars, printed_line};
use crate::patterns::{first_captures, find_matches, listed, regex_captures, regex_matches};
use crate::text::{
    append_chars, char_at_byte, char_index, chars_of, chars_range, greatest, is_white,
    max_of, minus, parse_number, parsed_number, same_text, string_of,
    string_of_range,
};

verus! {

broadcast use {Grid::lemma_bounds, Grid::lemma_scrolled};

/// What a printed URL looks like.
pub const URL_PATTERN: &'static str = r#"\bhttps?://[^\s<>"'`|(){}\[\]]+"#;

/// What a reference to a line of a file looks like.
pub const FILE_REF_PATTERN: &'static str = r"^(.+?):(\d+)(?::\d+)?$";

// ------------------------------------------------------------------------
// Targets
// ------------------------------------------------------------------------

/// What there is to open: a file, at a line counted from 1 when one was given, or a
/// URL.
#[derive(Debug, PartialEq, Eq)]
pub enum OpenTarget {
    File { line: Option<usize>, path: String },
    Url(String),
}

/// A target by its parts.
pub enum TargetView {
    File { line: Option<usize>, path: Seq<char> },
    Url(Seq<char>),
}

impl View for OpenTarget {
    type V = TargetView;

    open spec fn view(&self) -> TargetView {
        match *self {
            OpenTarget::File { line, path } => TargetView::File { line, path: path@ },
            OpenTarget::Url(url) => TargetView::Url(url@),
        }
    }
}

/// A target, if there is one, by its parts.
pub open spec fn target_view(target: Option<OpenTarget>) -> Option<TargetView> {
    match target {
        Some(t) => Some(t@),
        None => None,
    }
}

// ------------------------------------------------------------------------
// URLs
// ------------------------------------------------------------------------

/// Punctuation that ends a sentence rather than a URL.
pub open spec fn is_sentence_punct(c: char) -> bool {
    c == '.' || c == ',' || c == ';' || c == ':' || c == '!' || c == '?'
}

/// The first `n` characters of `text` without the punctuation at their end.
pub open spec fn punct_trimmed(text: Seq<char>, n: int) -> int
    decreases n,
{
    if 0 < n <= text.len() && is_sentence_punct(text[n - 1]) {
        punct_trimmed(text, n - 1)
    } else {
        n
    }
}

pub proof fn lemma_punct_trimmed(text: Seq<char>, n: int)
    requires
        0 <= n <= text.len(),
    ensures
        0 <= punct_trimmed(text, n) <= n,
    decreases n,
{
    if 0 < n && is_sentence_punct(text[n - 1]) {
        lemma_punct_trimmed(text, n - 1);
    }
}

fn sentence_punct(c: char) -> (r: bool)
    ensures
        r == is_sentence_punct(c),
{
    c == '.' || c == ',' || c == ';' || c == ':' || c == '!' || c == '?'
}

fn trimmed_length(text: &Vec<char>) -> (r: usize)
    ensures
        r == punct_trimmed(text@, text@.len() as int),
        r <= text@.len(),
{
    let mut n: usize = text.len();
    while n > 0 && sentence_punct(text[n - 1])
        invariant
            n <= text@.len(),
            punct_trimmed(text@, text@.len() as int) == punct_trimmed(text@, n as int),
        decreases n,
    {
        n = n - 1;
    }
    n
}

/// `url` without the sentence punctuation at its end.
pub open spec fn without_punct(url: Seq<char>) -> Seq<char> {
    url.take(punct_trimmed(url, url.len() as int))
}

/// A printed URL without the sentence punctuation that follows it.
pub fn strip_trailing_url_punct(url: &str) -> (r: String)
    ensures
        r@ == without_punct(url@),
{
    let chars = chars_of(url);
    let n: usize = trimmed_length(&chars);
    let r = string_of_range(&chars, 0, n);
    assert(r@ =~= without_punct(url@));
    r
}

/// A URL and where it is on a line: its first character and its length.
#[derive(Debug, PartialEq, Eq)]
pub struct UrlSpan {
    pub start: usize,
    pub len: usize,
    pub url: String,
}

/// A URL on a line.
pub struct UrlView {
    pub len: int,
    pub start: int,
    pub url: Seq<char>,
}

/// URLs by their starts, lengths and texts.
pub open spec fn url_views(urls: Seq<UrlSpan>) -> Seq<UrlView> {
    Seq::new(urls.len(), |i: int| url_view(urls[i]))
}

pub open spec fn url_view(u: UrlSpan) -> UrlView {
    UrlView { len: u.len as int, start: u.start as int, url: u.url@ }
}

/// Each length is that of the URL, and each URL ends at an index.
pub open spec fn lengths_fit(urls: Seq<UrlSpan>) -> bool {
    forall|i: int|
        0 <= i < urls.len() ==> (#[trigger] urls[i]).len == urls[i].url@.len() && urls[i].start
            + urls[i].len <= usize::MAX
}

/// Each token ends at an index.
pub open spec fn tokens_fit(files: Seq<FileSpan>) -> bool {
    forall|i: int| 0 <= i < files.len() ==> (#[trigger] files[i]).start + files[i].len <= usize::MAX
}

/// The text that the byte offsets `span` take out of `line`.
pub open spec fn slice_at(line: Seq<char>, span: (usize, usize)) -> Seq<char> {
    let from = char_at_byte(line, span.0 as int);
    line.subrange(from, greatest(from, char_at_byte(line, span.1 as int)))
}

/// The URLs of the first `n` matches. A match that is all punctuation is none.
pub open spec fn urls_of(line: Seq<char>, matches: Seq<(usize, usize)>, n: int) -> Seq<UrlView>
    decreases n,
{
    if n <= 0 {
        Seq::empty()
    } else {
        let before = urls_of(line, matches, n - 1);
        let found = slice_at(line, matches[n - 1]);
        let url = without_punct(found);
        if url.len() == 0 && found.len() > 0 {
            before
        } else {
            before.push(
                UrlView {
                    len: url.len() as int,
                    start: char_at_byte(line, matches[n - 1].0 as int),
                    url,
                },
            )
        }
    }
}

/// The characters that the byte offsets `start` and `end` take out of `line`, and
/// where they start.
fn slice_chars(line: &Vec<char>, start: usize, end: usize) -> (r: (usize, Vec<char>))
    ensures
        r.0 == char_at_byte(line@, start as int),
        r.0 + r.1@.len() <= line@.len(),
        r.1@ == slice_at(line@, (start, end)),
{
    let from: usize = char_index(line, start);
    let to: usize = max_of(from, char_index(line, end));
    (from, chars_range(line, from, to))
}

/// The URLs that the matches of the URL pattern give.
pub fn urls_from_matches(line: &Vec<char>, matches: &Vec<(usize, usize)>) -> (urls: Vec<UrlSpan>)
    ensures
        url_views(urls@) == urls_of(line@, matches@, matches@.len() as int),
        lengths_fit(urls@),
{
    let mut urls: Vec<UrlSpan> = Vec::new();
    let mut i: usize = 0;
    let total: usize = line.len();
    assert(url_views(urls@) =~= Seq::empty());
    while i < matches.len()
        invariant
            i <= matches@.len(),
            total == line@.len(),
            url_views(urls@) == urls_of(line@, matches@, i as int),
            lengths_fit(urls@),
        decreases matches@.len() - i,
    {
        let (start, end) = matches[i];
        let (from, found) = slice_chars(line, start, end);
        let n: usize = trimmed_length(&found);
        if n > 0 || found.len() == 0 {
            let url = string_of_range(&found, 0, n);
            let ghost before = urls@;
            assert(url@ =~= without_punct(found@));
            urls.push(UrlSpan { start: from, len: n, url });
            assert(url_views(urls@) =~= url_views(before).push(url_view(urls@.last())));
        }
        i = i + 1;
    }
    urls
}

/// The URLs printed on `line`.
pub open spec fn line_urls(line: Seq<char>) -> Seq<UrlView> {
    match regex_matches(URL_PATTERN@, false, line) {
        Some(matches) => urls_of(line, matches, matches.len() as int),
        None => Seq::empty(),
    }
}

/// The URLs printed on `line`, without the sentence punctuation that follows them.
pub fn find_urls(line: &Vec<char>) -> (urls: Vec<UrlSpan>)
    ensures
        url_views(urls@) == line_urls(line@),
        lengths_fit(urls@),
{
    let text = string_of(line);
    match find_matches(URL_PATTERN, false, &text) {
        Some(matches) => urls_from_matches(line, &matches),
        None => {
            let urls: Vec<UrlSpan> = Vec::new();
            assert(url_views(urls@) =~= Seq::empty());
            urls
        },
    }
}

// ------------------------------------------------------------------------
// Spans and tokens
// ------------------------------------------------------------------------

/// Quotes and brackets, which a word motion lands on.
pub open spec fn is_delimiter(c: char) -> bool {
    c == '"' || c == '\'' || c == '`' || c == '(' || c == ')' || c == '[' || c == ']' || c == '{'
        || c == '}' || c == '<' || c == '>'
}

fn delimiter(c: char) -> (r: bool)
    ensures
        r == is_delimiter(c),
{
    c == '"' || c == '\'' || c == '`' || c == '(' || c == ')' || c == '[' || c == ']' || c == '{'
        || c == '}' || c == '<' || c == '>'
}

/// Whether index `idx` counts as on the span of `len` characters from `start`:
/// inside it, or on a quote or bracket right before or after it.
pub open spec fn covers(line: Seq<char>, start: int, len: int, idx: int) -> bool {
    start <= idx < start + len || ((idx == minus(start, 1) || idx == start + len) && 0 <= idx
        < line.len() && is_delimiter(line[idx]))
}

/// Whether index `idx` counts as on the span of `len` characters from `start`.
pub fn span_covers(line: &Vec<char>, start: usize, len: usize, idx: usize) -> (r: bool)
    requires
        start + len <= usize::MAX,
    ensures
        r == covers(line@, start as int, len as int, idx as int),
{
    let end: usize = start + len;
    if idx >= start && idx < end {
        return true;
    }
    let before: usize = if start > 0 {
        start - 1
    } else {
        0
    };
    (idx == before || idx == end) && idx < line.len() && delimiter(line[idx])
}

/// What can lead a token without belonging to it.
pub open spec fn is_leading(c: char) -> bool {
    c == '"' || c == '\'' || c == '`' || c == '(' || c == '[' || c == '{' || c == '<'
}

/// What can follow a token without belonging to it.
pub open spec fn is_trailing(c: char) -> bool {
    c == '"' || c == '\'' || c == '`' || c == ')' || c == ']' || c == '}' || c == '>'
        || is_sentence_punct(c)
}

fn leading(c: char) -> (r: bool)
    ensures
        r == is_leading(c),
{
    c == '"' || c == '\'' || c == '`' || c == '(' || c == '[' || c == '{' || c == '<'
}

fn trailing(c: char) -> (r: bool)
    ensures
        r == is_trailing(c),
{
    c == '"' || c == '\'' || c == '`' || c == ')' || c == ']' || c == '}' || c == '>'
        || sentence_punct(c)
}

/// Where the run without blanks that starts at `i` ends.
pub open spec fn run_end(line: Seq<char>, i: int) -> int
    decreases line.len() - i,
{
    if 0 <= i < line.len() && !is_white(line[i]) {
        run_end(line, i + 1)
    } else {
        i
    }
}

/// Where what is left of the token from `s` up to `e` starts.
pub open spec fn token_start(line: Seq<char>, s: int, e: int) -> int
    decreases e - s,
{
    if s < e && is_leading(line[s]) {
        token_start(line, s + 1, e)
    } else {
        s
    }
}

/// Where what is left of the token from `s` up to `e` ends.
pub open spec fn token_end(line: Seq<char>, s: int, e: int) -> int
    decreases e - s,
{
    if s < e && is_trailing(line[e - 1]) {
        token_end(line, s, e - 1)
    } else {
        e
    }
}

/// The tokens from `i` on, each as where it starts and its length.
pub open spec fn tokens_from(line: Seq<char>, i: int) -> Seq<(int, int)>
    decreases line.len() - i,
{
    if i < 0 || i >= line.len() {
        Seq::empty()
    } else if is_white(line[i]) {
        tokens_from(line, i + 1)
    } else {
        proof {
            lemma_run_end(line, i);
        }
        let end = run_end(line, i);
        let s = token_start(line, i, end);
        let e = token_end(line, s, end);
        let rest = tokens_from(line, end);
        if e > s {
            seq![(s, e - s)] + rest
        } else {
            rest
        }
    }
}

pub proof fn lemma_run_end(line: Seq<char>, i: int)
    requires
        0 <= i <= line.len(),
    ensures
        i <= run_end(line, i) <= line.len(),
        i < line.len() && !is_white(line[i]) ==> i < run_end(line, i),
    decreases line.len() - i,
{
    if i < line.len() && !is_white(line[i]) {
        lemma_run_end(line, i + 1);
    }
}

/// Spans as whole numbers.
pub open spec fn span_ints(spans: Seq<(usize, usize)>) -> Seq<(int, int)> {
    Seq::new(spans.len(), |i: int| (spans[i].0 as int, spans[i].1 as int))
}

/// Each span is within a line of `n` characters.
pub open spec fn spans_within(spans: Seq<(usize, usize)>, n: int) -> bool {
    forall|i: int|
        0 <= i < spans.len() ==> (#[trigger] spans[i]).1 > 0 && spans[i].0 + spans[i].1 <= n
}

/// The runs without blanks on `line`, without the quotes, brackets and punctuation
/// around them, each as where it starts and its length.
pub fn token_spans(line: &Vec<char>) -> (spans: Vec<(usize, usize)>)
    ensures
        span_ints(spans@) == tokens_from(line@, 0),
        spans_within(spans@, line@.len() as int),
{
    let mut spans: Vec<(usize, usize)> = Vec::new();
    let mut i: usize = 0;
    assert(span_ints(spans@) + tokens_from(line@, 0) =~= tokens_from(line@, 0));
    while i < line.len()
        invariant
            i <= line@.len(),
            span_ints(spans@) + tokens_from(line@, i as int) == tokens_from(line@, 0),
            spans_within(spans@, line@.len() as int),
        decreases line@.len() - i,
    {
        if line[i].is_whitespace() {
            i = i + 1;
            continue;
        }
        let start: usize = i;
        proof {
            lemma_run_end(line@, start as int);
        }
        while i < line.len() && !line[i].is_whitespace()
            invariant
                start <= i <= line@.len(),
                run_end(line@, start as int) == run_end(line@, i as int),
            decreases line@.len() - i,
        {
            i = i + 1;
        }
        let mut s: usize = start;
        while s < i && leading(line[s])
            invariant
                start <= s <= i <= line@.len(),
                token_start(line@, start as int, i as int) == token_start(
                    line@,
                    s as int,
                    i as int,
                ),
            decreases i - s,
        {
            s = s + 1;
        }
        let mut e: usize = i;
        while e > s && trailing(line[e - 1])
            invariant
                s <= e <= i <= line@.len(),
                token_end(line@, s as int, i as int) == token_end(line@, s as int, e as int),
            decreases e,
        {
            e = e - 1;
        }
        let ghost before = spans@;
        let ghost rest = tokens_from(line@, i as int);
        if e > s {
            spans.push((s, e - s));
            assert(span_ints(spans@) =~= span_ints(before).push((s as int, e - s)));
            assert(span_ints(before) + (seq![(s as int, e - s)] + rest) =~= span_ints(spans@)
                + rest);
        }
    }
    assert(span_ints(spans@) + tokens_from(line@, i as int) =~= span_ints(spans@));
    spans
}

// ------------------------------------------------------------------------
// File references
// ------------------------------------------------------------------------

/// A path, and the line of it that was named.
pub struct FileRef {
    pub path: Seq<char>,
    pub line: Option<usize>,
}

/// What the groups of the file reference pattern make of `token`: a path and a
/// line, the first when the number does not fit, or the whole token as a path.
pub open spec fn file_ref_of(token: Seq<char>, groups: Option<Seq<Option<(usize, usize)>>>) -> FileRef {
    match groups {
        Some(g) if g.len() > 2 && g[1] is Some && g[2] is Some => FileRef {
            path: slice_at(token, g[1].unwrap()),
            line: Some(
                match parsed_number(slice_at(token, g[2].unwrap())) {
                    Some(n) => n as usize,
                    None => 1,
                },
            ),
        },
        _ => FileRef { path: token, line: None },
    }
}

/// The path and line that `token` names.
pub open spec fn file_ref(token: Seq<char>) -> FileRef {
    file_ref_of(token, regex_captures(FILE_REF_PATTERN@, token))
}

/// The path and the line that the groups captured on `token` name.
pub fn file_ref_from_groups(token: &str, groups: &Option<Vec<Option<(usize, usize)>>>) -> (r: (
    String,
    Option<usize>,
))
    ensures
        r.0@ == file_ref_of(token@, listed(*groups)).path,
        r.1 == file_ref_of(token@, listed(*groups)).line,
{
    if let Some(g) = groups {
        if g.len() > 2 {
            if let (Some((path_start, path_end)), Some((line_start, line_end))) = (g[1], g[2]) {
                let chars = chars_of(token);
                let (_, path) = slice_chars(&chars, path_start, path_end);
                let (_, digits) = slice_chars(&chars, line_start, line_end);
                let line: usize = match parse_number(&digits) {
                    Some(n) => n,
                    None => 1,
                };
                return (string_of(&path), Some(line));
            }
        }
    }
    (token.to_owned(), None)
}

/// Split a line number, and a column number after it, off `token`: the path and
/// the line.
pub fn parse_file_ref(token: &str) -> (r: (String, Option<usize>))
    ensures
        r.0@ == file_ref(token@).path,
        r.1 == file_ref(token@).line,
{
    let groups = first_captures(FILE_REF_PATTERN, token);
    file_ref_from_groups(token, &groups)
}

/// `raw` as a path: as it is when it is absolute or there is no directory to start
/// from, else below that directory.
pub open spec fn joined_path(raw: Seq<char>, cwd: Option<Seq<char>>) -> Seq<char> {
    match cwd {
        Some(dir) if !(raw.len() > 0 && raw[0] == '/') => if dir.len() == 0 || dir.last() == '/' {
            dir + raw
        } else {
            dir.push('/') + raw
        },
        _ => raw,
    }
}

/// A text that may be missing.
pub open spec fn text_of(s: Option<&str>) -> Option<Seq<char>> {
    match s {
        Some(s) => Some(s@),
        None => None,
    }
}

/// `raw` as a path below `cwd`.
fn join_path(raw: &str, cwd: Option<&str>) -> (r: String)
    ensures
        r@ == joined_path(raw@, text_of(cwd)),
{
    let chars = chars_of(raw);
    match cwd {
        Some(dir) => {
            if chars.len() > 0 && chars[0] == '/' {
                return raw.to_owned();
            }
            let mut path = chars_of(dir);
            if path.len() > 0 && path[path.len() - 1] != '/' {
                path.push('/');
            }
            append_chars(&mut path, &chars);
            string_of(&path)
        },
        None => raw.to_owned(),
    }
}

/// Whether `path` is among `existing`.
pub open spec fn exists_in(existing: Seq<String>, path: Seq<char>) -> bool {
    exists|i: int| 0 <= i < existing.len() && (#[trigger] existing[i])@ == path
}

/// Whether `path` is among `existing`.
fn known(existing: &Vec<String>, path: &str) -> (r: bool)
    ensures
        r == exists_in(existing@, path@),
{
    let mut i: usize = 0;
    while i < existing.len()
        invariant
            i <= existing@.len(),
            forall|j: int| 0 <= j < i ==> (#[trigger] existing@[j])@ != path@,
        decreases existing@.len() - i,
    {
        if same_text(existing[i].as_str(), path) {
            return true;
        }
        i = i + 1;
    }
    false
}

/// `raw` as a path, if it exists: absolute as it is, else below `cwd`. `existing`
/// are the paths known to exist.
pub fn resolve_existing_path(raw: &str, cwd: Option<&str>, existing: &Vec<String>) -> (r: Option<
    String,
>)
    ensures
        match r {
            Some(path) => path@ == joined_path(raw@, text_of(cwd)) && exists_in(existing@, path@),
            None => !exists_in(existing@, joined_path(raw@, text_of(cwd))),
        },
{
    let path = join_path(raw, cwd);
    if known(existing, &path) {
        Some(path)
    } else {
        None
    }
}

// ------------------------------------------------------------------------
// Quotes
// ------------------------------------------------------------------------

/// The last `q` before index `i`.
pub open spec fn last_before(line: Seq<char>, q: char, i: int) -> Option<int>
    decreases i,
{
    if i <= 0 {
        None
    } else if i <= line.len() && line[i - 1] == q {
        Some(i - 1)
    } else {
        last_before(line, q, i - 1)
    }
}

/// The first `q` from index `i` on.
pub open spec fn first_from(line: Seq<char>, q: char, i: int) -> Option<int>
    decreases line.len() - i,
{
    if i < 0 || i >= line.len() {
        None
    } else if line[i] == q {
        Some(i)
    } else {
        first_from(line, q, i + 1)
    }
}

/// What is between the nearest `q` on either side of `idx`: its first character and its
/// last. Nothing when `idx` is itself on one.
pub open spec fn between(line: Seq<char>, q: char, idx: int) -> Option<(int, int)> {
    if idx >= line.len() || line[idx] == q {
        None
    } else {
        match (last_before(line, q, idx), first_from(line, q, idx)) {
            (Some(a), Some(b)) => Some((a + 1, b - 1)),
            _ => None,
        }
    }
}

/// The narrower of two spans, the first when neither is.
pub open spec fn narrower(x: Option<(int, int)>, y: Option<(int, int)>) -> Option<(int, int)> {
    match (x, y) {
        (Some(a), Some(b)) => if b.1 - b.0 < a.1 - a.0 {
            y
        } else {
            x
        },
        (None, _) => y,
        (_, None) => x,
    }
}

/// The narrowest quoted text around `idx`.
pub open spec fn quoted_span(line: Seq<char>, idx: int) -> Option<(int, int)> {
    narrower(
        narrower(between(line, '"', idx), between(line, '\'', idx)),
        between(line, '`', idx),
    )
}

/// A span as whole numbers.
pub open spec fn span_int(span: Option<(usize, usize)>) -> Option<(int, int)> {
    match span {
        Some((a, b)) => Some((a as int, b as int)),
        None => None,
    }
}

proof fn lemma_first_from(line: Seq<char>, q: char, i: int)
    requires
        0 <= i,
    ensures
        first_from(line, q, i) matches Some(b) ==> i <= b < line.len(),
    decreases line.len() - i,
{
    if i < line.len() && line[i] != q {
        lemma_first_from(line, q, i + 1);
    }
}

fn find_between(line: &Vec<char>, q: char, idx: usize) -> (r: Option<(usize, usize)>)
    ensures
        span_int(r) == between(line@, q, idx as int),
        r matches Some((a, b)) ==> a <= idx <= b && b < line@.len(),
{
    if idx >= line.len() || line[idx] == q {
        return None;
    }
    let mut a: usize = idx;
    while a > 0 && line[a - 1] != q
        invariant
            a <= idx < line@.len(),
            last_before(line@, q, idx as int) == last_before(line@, q, a as int),
        decreases a,
    {
        a = a - 1;
    }
    if a == 0 {
        return None;
    }
    let mut b: usize = idx;
    while b < line.len() && line[b] != q
        invariant
            idx <= b <= line@.len(),
            idx < line@.len(),
            line@[idx as int] != q,
            first_from(line@, q, idx as int) == first_from(line@, q, b as int),
        decreases line@.len() - b,
    {
        b = b + 1;
    }
    if b == line.len() {
        return None;
    }
    Some((a, b - 1))
}

fn pick_narrower(x: Option<(usize, usize)>, y: Option<(usize, usize)>) -> (r: Option<(usize, usize)>)
    requires
        x matches Some(s) ==> s.0 <= s.1,
        y matches Some(s) ==> s.0 <= s.1,
    ensures
        r == x || r == y,
        span_int(r) == narrower(span_int(x), span_int(y)),
{
    match (x, y) {
        (Some(a), Some(b)) => if b.1 - b.0 < a.1 - a.0 {
            y
        } else {
            x
        },
        (None, _) => y,
        (_, None) => x,
    }
}

/// What stands between the nearest pair of quotes around `idx`: its first character and
/// its last; `None` when no pair of like quotes is around it.
pub fn enclosed_quote_span(line: &Vec<char>, idx: usize) -> (r: Option<(usize, usize)>)
    ensures
        span_int(r) == quoted_span(line@, idx as int),
        r matches Some((a, b)) ==> a <= idx <= b && b < line@.len(),
{
    let double = find_between(line, '"', idx);
    let single = find_between(line, '\'', idx);
    let back = find_between(line, '`', idx);
    pick_narrower(pick_narrower(double, single), back)
}

// ------------------------------------------------------------------------
// Resolution
// ------------------------------------------------------------------------

/// A token and what it names.
#[derive(Debug, PartialEq, Eq)]
pub struct FileSpan {
    pub start: usize,
    pub len: usize,
    pub path: String,
    pub line: Option<usize>,
}

/// A token and what it names, by its parts.
pub struct FileSpanView {
    pub start: int,
    pub len: int,
    pub path: Seq<char>,
    pub line: Option<usize>,
}

impl View for FileSpan {
    type V = FileSpanView;

    open spec fn view(&self) -> FileSpanView {
        FileSpanView {
            start: self.start as int,
            len: self.len as int,
            path: self.path@,
            line: self.line,
        }
    }
}

/// File spans by their views.
pub open spec fn file_views(files: Seq<FileSpan>) -> Seq<FileSpanView> {
    Seq::new(files.len(), |i: int| files[i]@)
}

/// The token at `span` and what it names.
pub open spec fn file_at(line: Seq<char>, span: (int, int)) -> FileSpanView {
    let found = file_ref(line.subrange(span.0, span.0 + span.1));
    FileSpanView { start: span.0, len: span.1, path: found.path, line: found.line }
}

/// The tokens of `line` and what each names.
pub open spec fn line_files(line: Seq<char>) -> Seq<FileSpanView> {
    Seq::new(tokens_from(line, 0).len(), |i: int| file_at(line, tokens_from(line, 0)[i]))
}

/// The tokens of `line` and what each names.
pub fn find_files(line: &Vec<char>) -> (files: Vec<FileSpan>)
    ensures
        file_views(files@) == line_files(line@),
        tokens_fit(files@),
{
    let spans = token_spans(line);
    let mut files: Vec<FileSpan> = Vec::new();
    let mut i: usize = 0;
    let ghost whole = line_files(line@);
    assert(file_views(files@) =~= whole.take(0));
    let n: usize = line.len();
    while i < spans.len()
        invariant
            i <= spans@.len(),
            n == line@.len(),
            whole == line_files(line@),
            span_ints(spans@) == tokens_from(line@, 0),
            spans_within(spans@, line@.len() as int),
            file_views(files@) == whole.take(i as int),
            tokens_fit(files@),
        decreases spans@.len() - i,
    {
        let (start, len) = spans[i];
        let ghost before = files@;
        assert(span_ints(spans@)[i as int] == (start as int, len as int));
        assert(spans@[i as int].0 + spans@[i as int].1 <= n);
        let token = string_of_range(line, start, start + len);
        let (path, number) = parse_file_ref(&token);
        files.push(FileSpan { start, len, path, line: number });
        assert(files@.last()@ == whole[i as int]);
        assert(file_views(files@) =~= file_views(before).push(files@.last()@));
        assert(whole.take(i + 1) =~= whole.take(i as int).push(whole[i as int]));
        i = i + 1;
    }
    assert(whole.take(i as int) =~= whole);
    files
}

/// The first URL from index `i` on that `idx` is on.
pub open spec fn url_under(line: Seq<char>, urls: Seq<UrlView>, i: int, idx: int) -> Option<Seq<char>>
    decreases urls.len() - i,
{
    if i < 0 || i >= urls.len() {
        None
    } else if covers(line, urls[i].start, urls[i].url.len() as int, idx) {
        Some(urls[i].url)
    } else {
        url_under(line, urls, i + 1, idx)
    }
}

/// The first token from index `i` on that `idx` is on and that names a path that
/// exists.
pub open spec fn file_under(
    line: Seq<char>,
    files: Seq<FileSpanView>,
    i: int,
    idx: int,
    cwd: Option<Seq<char>>,
    existing: Seq<String>,
) -> Option<TargetView>
    decreases files.len() - i,
{
    if i < 0 || i >= files.len() {
        None
    } else if covers(line, files[i].start, files[i].len, idx) && exists_in(
        existing,
        joined_path(files[i].path, cwd),
    ) {
        Some(TargetView::File { line: files[i].line, path: joined_path(files[i].path, cwd) })
    } else {
        file_under(line, files, i + 1, idx, cwd, existing)
    }
}

/// The quoted path around `idx`, when it exists.
pub open spec fn quoted_under(
    line: Seq<char>,
    idx: int,
    cwd: Option<Seq<char>>,
    existing: Seq<String>,
) -> Option<TargetView> {
    match quoted_span(line, idx) {
        Some((a, b)) => {
            let path = joined_path(line.subrange(a, b + 1), cwd);
            if exists_in(existing, path) {
                Some(TargetView::File { line: None, path })
            } else {
                None
            }
        },
        None => None,
    }
}

/// What index `idx` of `line` is on: a URL, else a token that names a file that
/// exists, else a quoted path that exists.
pub open spec fn target_on_line(
    line: Seq<char>,
    idx: int,
    urls: Seq<UrlView>,
    files: Seq<FileSpanView>,
    cwd: Option<Seq<char>>,
    existing: Seq<String>,
) -> Option<TargetView> {
    match url_under(line, urls, 0, idx) {
        Some(url) => Some(TargetView::Url(url)),
        None => match file_under(line, files, 0, idx, cwd, existing) {
            Some(target) => Some(target),
            None => quoted_under(line, idx, cwd, existing),
        },
    }
}

/// What index `idx` of `line` is on, given the URLs on the line and what its tokens
/// name.
pub fn pick_target(
    line: &Vec<char>,
    idx: usize,
    urls: &Vec<UrlSpan>,
    files: &Vec<FileSpan>,
    cwd: Option<&str>,
    existing: &Vec<String>,
) -> (r: Option<OpenTarget>)
    requires
        lengths_fit(urls@),
        tokens_fit(files@),
    ensures
        target_view(r) == target_on_line(
            line@,
            idx as int,
            url_views(urls@),
            file_views(files@),
            text_of(cwd),
            existing@,
        ),
{
    let mut i: usize = 0;
    while i < urls.len()
        invariant
            i <= urls@.len(),
            lengths_fit(urls@),
            url_under(line@, url_views(urls@), 0, idx as int) == url_under(
                line@,
                url_views(urls@),
                i as int,
                idx as int,
            ),
        decreases urls@.len() - i,
    {
        let u = &urls[i];
        assert(url_views(urls@)[i as int] == url_view(urls@[i as int]));
        if span_covers(line, u.start, u.len, idx) {
            return Some(OpenTarget::Url(u.url.clone()));
        }
        i = i + 1;
    }
    let mut j: usize = 0;
    while j < files.len()
        invariant
            j <= files@.len(),
            url_under(line@, url_views(urls@), 0, idx as int) is None,
            tokens_fit(files@),
            file_under(
                line@,
                file_views(files@),
                0,
                idx as int,
                text_of(cwd),
                existing@,
            ) == file_under(
                line@,
                file_views(files@),
                j as int,
                idx as int,
                text_of(cwd),
                existing@,
            ),
        decreases files@.len() - j,
    {
        let f = &files[j];
        assert(file_views(files@)[j as int] == files@[j as int]@);
        if span_covers(line, f.start, f.len, idx) {
            if let Some(path) = resolve_existing_path(&f.path, cwd, existing) {
                return Some(OpenTarget::File { line: f.line, path });
            }
        }
        j = j + 1;
    }
    if let Some((a, b)) = enclosed_quote_span(line, idx) {
        let total: usize = line.len();
        assert(b < total);
        let inner = string_of_range(line, a, b + 1);
        if let Some(path) = resolve_existing_path(&inner, cwd, existing) {
            return Some(OpenTarget::File { line: None, path });
        }
    }
    None
}

/// The printed text of rows `first` up to `end` of the view, as one line.
pub open spec fn joined_line(grid: Grid, first: int, end: int) -> Seq<char>
    decreases end - first,
{
    if end <= first {
        Seq::empty()
    } else {
        joined_line(grid, first, end - 1) + printed_line(grid, end - 1)
    }
}

/// The whole line that row `row` of the view is part of.
pub open spec fn whole_line(grid: Grid, row: int) -> Seq<char> {
    joined_line(grid, grid.wrap_start(row), grid.wrap_end(row) + 1)
}

/// Where column `col` of row `row` of the view is on its whole line.
pub open spec fn line_index(grid: Grid, row: int, col: int) -> int {
    joined_line(grid, grid.wrap_start(row), row).len() + col
}

fn join_rows(grid: &Grid, first: usize, end: usize) -> (line: Vec<char>)
    requires
        grid.wf(),
        first <= end <= grid.height(),
    ensures
        line@ == joined_line(*grid, first as int, end as int),
{
    let mut line: Vec<char> = Vec::new();
    let mut row: usize = first;
    while row < end
        invariant
            grid.wf(),
            first <= row <= end <= grid.height(),
            line@ == joined_line(*grid, first as int, row as int),
        decreases end - row,
    {
        let chars = line_chars(grid, row);
        append_chars(&mut line, &chars);
        row = row + 1;
    }
    line
}

/// The URL that the cell at row `row` and column `col` of the view carries.
pub open spec fn linked_url(grid: Grid, row: int, col: int) -> Option<Seq<char>> {
    let links = grid.links_at(grid.top() + row);
    if exists|i: int| #[trigger] link_hit(links, i, col) {
        Some(links[choose|i: int| #[trigger] link_hit(links, i, col)].url@)
    } else {
        None
    }
}

/// The URL that the cell at row `row` and column `col` of the view carries.
pub fn link_at(grid: &Grid, row: usize, col: usize) -> (r: Option<String>)
    requires
        grid.wf(),
        row < grid.height(),
    ensures
        string_view(r) == linked_url(*grid, row as int, col as int),
{
    match grid.cell_link(row, col) {
        Some(url) => {
            proof {
                lemma_one_link(grid.links_at(grid.top() + row), col as int);
            }
            Some(url.clone())
        },
        None => None,
    }
}

/// What there is to open at row `row` and column `col` of the view: the URL that
/// the cell carries, else what the line shows there.
pub open spec fn open_target(
    grid: Grid,
    row: int,
    col: int,
    cwd: Option<Seq<char>>,
    existing: Seq<String>,
) -> Option<TargetView> {
    match linked_url(grid, row, col) {
        Some(url) => Some(TargetView::Url(url)),
        None => {
            let line = whole_line(grid, row);
            target_on_line(
                line,
                line_index(grid, row, col),
                line_urls(line),
                line_files(line),
                cwd,
                existing,
            )
        },
    }
}

/// What there is to open at row `row` and column `col` of the view: the URL that
/// the cell carries, else the first URL or existing file that the line names there,
/// with a quote or bracket around it counting as part of it, else a quoted path
/// that exists. `existing` are the paths known to exist, out of those that
/// `open_candidates` lists.
pub fn resolve_open_target(
    grid: &Grid,
    row: usize,
    col: usize,
    cwd: Option<&str>,
    existing: &Vec<String>,
) -> (r: Option<OpenTarget>)
    requires
        grid.wf(),
        row < grid.height(),
        line_index(*grid, row as int, col as int) <= usize::MAX,
    ensures
        target_view(r) == open_target(*grid, row as int, col as int, text_of(cwd), existing@),
{
    if let Some(url) = link_at(grid, row, col) {
        return Some(OpenTarget::Url(url));
    }
    let (first, last) = grid.wrapped_row_span(row);
    let line = join_rows(grid, first, last + 1);
    let lead = join_rows(grid, first, row);
    let idx: usize = lead.len() + col;
    let urls = find_urls(&line);
    let files = find_files(&line);
    pick_target(&line, idx, &urls, &files, cwd, existing)
}

proof fn lemma_one_link(links: Seq<crate::grid::Link>, col: int)
    ensures
        forall|i: int, j: int| #[trigger]
            link_hit(links, i, col) && #[trigger] link_hit(links, j, col) ==> i == j,
{
}

/// The paths that decide what is opened at index `idx` of `line`: those of the first
/// `n` tokens that `idx` is on.
pub open spec fn token_candidates(
    line: Seq<char>,
    files: Seq<FileSpanView>,
    n: int,
    idx: int,
    cwd: Option<Seq<char>>,
) -> Seq<Seq<char>>
    decreases n,
{
    if n <= 0 {
        Seq::empty()
    } else {
        let before = token_candidates(line, files, n - 1, idx, cwd);
        if covers(line, files[n - 1].start, files[n - 1].len, idx) {
            before.push(joined_path(files[n - 1].path, cwd))
        } else {
            before
        }
    }
}

/// The paths that decide what is opened at index `idx` of `line`: those that the
/// tokens there name, and the quoted one.
pub open spec fn candidates(
    line: Seq<char>,
    files: Seq<FileSpanView>,
    idx: int,
    cwd: Option<Seq<char>>,
) -> Seq<Seq<char>> {
    let named = token_candidates(line, files, files.len() as int, idx, cwd);
    match quoted_span(line, idx) {
        Some((a, b)) => named.push(joined_path(line.subrange(a, b + 1), cwd)),
        None => named,
    }
}

/// Texts by their contents.
pub open spec fn texts(v: Seq<String>) -> Seq<Seq<char>> {
    Seq::new(v.len(), |i: int| v[i]@)
}

/// The paths whose existence decides what is opened at row `row` and column `col`
/// of the view.
pub fn open_candidates(grid: &Grid, row: usize, col: usize, cwd: Option<&str>) -> (paths: Vec<
    String,
>)
    requires
        grid.wf(),
        row < grid.height(),
        line_index(*grid, row as int, col as int) <= usize::MAX,
    ensures
        ({
            let line = whole_line(*grid, row as int);
            texts(paths@) == candidates(
                line,
                line_files(line),
                line_index(*grid, row as int, col as int),
                text_of(cwd),
            )
        }),
{
    let (first, last) = grid.wrapped_row_span(row);
    let line = join_rows(grid, first, last + 1);
    let lead = join_rows(grid, first, row);
    let idx: usize = lead.len() + col;
    let files = find_files(&line);
    let mut paths: Vec<String> = Vec::new();
    let mut i: usize = 0;
    assert(texts(paths@) =~= Seq::empty());
    while i < files.len()
        invariant
            i <= files@.len(),
            tokens_fit(files@),
            texts(paths@) == token_candidates(
                line@,
                file_views(files@),
                i as int,
                idx as int,
                text_of(cwd),
            ),
        decreases files@.len() - i,
    {
        let f = &files[i];
        assert(file_views(files@)[i as int] == files@[i as int]@);
        if span_covers(&line, f.start, f.len, idx) {
            let path = join_path(&f.path, cwd);
            let ghost before = paths@;
            paths.push(path);
            assert(texts(paths@) =~= texts(before).push(path@));
        }
        i = i + 1;
    }
    if let Some((a, b)) = enclosed_quote_span(&line, idx) {
        let total: usize = line.len();
        assert(b < total);
        let inner = string_of_range(&line, a, b + 1);
        let path = join_path(&inner, cwd);
        let ghost before = paths@;
        paths.push(path);
        assert(texts(paths@) =~= texts(before).push(path@));
    }
    paths
}

/// Only the candidates' existence decides what is opened: two lists of existing
/// paths that agree on the candidates give the same target.
pub proof fn law_only_candidates_decide(
    line: Seq<char>,
    idx: int,
    urls: Seq<UrlView>,
    files: Seq<FileSpanView>,
    cwd: Option<Seq<char>>,
    one: Seq<String>,
    other: Seq<String>,
)
    requires
        forall|i: int|
            0 <= i < candidates(line, files, idx, cwd).len() ==> exists_in(
                one,
                #[trigger] candidates(line, files, idx, cwd)[i],
            ) == exists_in(other, candidates(line, files, idx, cwd)[i]),
    ensures
        target_on_line(line, idx, urls, files, cwd, one) == target_on_line(
            line,
            idx,
            urls,
            files,
            cwd,
            other,
        ),
{
    let named = token_candidates(line, files, files.len() as int, idx, cwd);
    let all = candidates(line, files, idx, cwd);
    assert forall|i: int| 0 <= i < named.len() implies exists_in(one, #[trigger] named[i])
        == exists_in(other, named[i]) by {
        assert(all[i] == named[i]);
    }
    lemma_same_files(line, files, 0, idx, cwd, one, other);
    match quoted_span(line, idx) {
        Some((a, b)) => {
            assert(all.last() == joined_path(line.subrange(a, b + 1), cwd));
            assert(all[all.len() - 1] == all.last());
        },
        None => {},
    }
}

proof fn lemma_token_candidate(
    line: Seq<char>,
    files: Seq<FileSpanView>,
    n: int,
    idx: int,
    cwd: Option<Seq<char>>,
    k: int,
) -> (at: int)
    requires
        0 <= k < n <= files.len(),
        covers(line, files[k].start, files[k].len, idx),
    ensures
        0 <= at < token_candidates(line, files, n, idx, cwd).len(),
        token_candidates(line, files, n, idx, cwd)[at] == joined_path(files[k].path, cwd),
    decreases n,
{
    let before = token_candidates(line, files, n - 1, idx, cwd);
    if k == n - 1 {
        before.len() as int
    } else {
        lemma_token_candidate(line, files, n - 1, idx, cwd, k)
    }
}

proof fn lemma_same_files(
    line: Seq<char>,
    files: Seq<FileSpanView>,
    i: int,
    idx: int,
    cwd: Option<Seq<char>>,
    one: Seq<String>,
    other: Seq<String>,
)
    requires
        0 <= i,
        forall|k: int|
            0 <= k < token_candidates(line, files, files.len() as int, idx, cwd).len() ==> exists_in(
                one,
                #[trigger] token_candidates(line, files, files.len() as int, idx, cwd)[k],
            ) == exists_in(
                other,
                token_candidates(line, files, files.len() as int, idx, cwd)[k],
            ),
    ensures
        file_under(line, files, i, idx, cwd, one) == file_under(line, files, i, idx, cwd, other),
    decreases files.len() - i,
{
    if i < files.len() {
        lemma_same_files(line, files, i + 1, idx, cwd, one, other);
        if covers(line, files[i].start, files[i].len, idx) {
            let at = lemma_token_candidate(line, files, files.len() as int, idx, cwd, i);
        }
    }
}

// ------------------------------------------------------------------------
// Laws
// ------------------------------------------------------------------------

/// A path that starts at the root is what it is, whatever directory one is in, and so is any
/// path when there is no directory. Another path is looked for in the directory: the directory
/// comes first, then one slash, then the path, and the slash is the directory's own where it
/// ends in one.
pub proof fn law_a_path_from_the_root_stays(raw: Seq<char>, cwd: Option<Seq<char>>)
    ensures
        raw.len() > 0 && raw[0] == '/' ==> joined_path(raw, cwd) == raw,
        cwd is None ==> joined_path(raw, cwd) == raw,
        cwd matches Some(dir) ==> {
            let path = joined_path(raw, cwd);
            let at = path.len() - raw.len();
            raw.len() == 0 || raw[0] != '/' ==> {
                &&& at >= dir.len()
                &&& path.take(dir.len() as int) == dir
                &&& path.skip(at) == raw
                &&& dir.len() > 0 ==> path[at - 1] == '/'
                &&& dir.len() == 0 || dir.last() == '/' ==> at == dir.len()
                &&& dir.len() > 0 && dir.last() != '/' ==> at == dir.len() + 1
            }
        },
{
    if let Some(dir) = cwd {
        let path = joined_path(raw, cwd);
        let at = path.len() - raw.len();
        if raw.len() == 0 || raw[0] != '/' {
            assert(path.take(dir.len() as int) =~= dir);
            assert(path.skip(at) =~= raw);
        }
    }
}

/// Whether index `idx` is on the span of `len` characters from `start`: within it, or right
/// before or after it on a quote or a bracket.
pub open spec fn is_on(line: Seq<char>, start: int, len: int, idx: int) -> bool {
    ||| start <= idx < start + len
    ||| {
        &&& idx + 1 == start || idx == start + len
        &&& 0 <= idx < line.len()
        &&& {
            let c = line[idx];
            ||| c == '"' || c == '\'' || c == '`'
            ||| c == '(' || c == ')' || c == '[' || c == ']'
            ||| c == '{' || c == '}' || c == '<' || c == '>'
        }
    }
}

proof fn lemma_is_on(line: Seq<char>, start: int, len: int, idx: int)
    requires
        0 <= start,
        0 <= len,
        0 <= idx,
    ensures
        covers(line, start, len, idx) == is_on(line, start, len, idx),
{
}

/// Whether one of the paths known to exist is `path`.
pub open spec fn is_known(existing: Seq<String>, path: Seq<char>) -> bool {
    exists|k: int| 0 <= k < existing.len() && (#[trigger] existing[k])@ == path
}

/// Whether the first URL that `idx` is on is the one numbered `i`.
pub open spec fn first_url(line: Seq<char>, urls: Seq<UrlView>, i: int, idx: int) -> bool {
    &&& 0 <= i < urls.len()
    &&& is_on(line, urls[i].start, urls[i].url.len() as int, idx)
    &&& forall|k: int|
        0 <= k < i ==> !is_on(line, (#[trigger] urls[k]).start, urls[k].url.len() as int, idx)
}

/// Whether `idx` is on the token numbered `i`, and the path it names is known to exist.
pub open spec fn names_file(
    line: Seq<char>,
    files: Seq<FileSpanView>,
    i: int,
    idx: int,
    cwd: Option<Seq<char>>,
    existing: Seq<String>,
) -> bool {
    is_on(line, files[i].start, files[i].len, idx) && is_known(
        existing,
        joined_path(files[i].path, cwd),
    )
}

proof fn lemma_url_under(line: Seq<char>, urls: Seq<UrlView>, i: int, idx: int)
    requires
        0 <= i <= urls.len(),
        0 <= idx,
        forall|k: int| 0 <= k < urls.len() ==> 0 <= (#[trigger] urls[k]).start,
        forall|k: int|
            0 <= k < i ==> !is_on(line, (#[trigger] urls[k]).start, urls[k].url.len() as int, idx),
    ensures
        match url_under(line, urls, i, idx) {
            Some(url) => exists|n: int| #[trigger] first_url(line, urls, n, idx) && urls[n].url
                == url,
            None => forall|k: int|
                0 <= k < urls.len() ==> !is_on(
                    line,
                    (#[trigger] urls[k]).start,
                    urls[k].url.len() as int,
                    idx,
                ),
        },
    decreases urls.len() - i,
{
    if i < urls.len() {
        lemma_is_on(line, urls[i].start, urls[i].url.len() as int, idx);
        if covers(line, urls[i].start, urls[i].url.len() as int, idx) {
            assert(first_url(line, urls, i, idx));
        } else {
            lemma_url_under(line, urls, i + 1, idx);
        }
    }
}

proof fn lemma_file_under(
    line: Seq<char>,
    files: Seq<FileSpanView>,
    i: int,
    idx: int,
    cwd: Option<Seq<char>>,
    existing: Seq<String>,
)
    requires
        0 <= i <= files.len(),
        0 <= idx,
        forall|k: int|
            0 <= k < files.len() ==> 0 <= (#[trigger] files[k]).start && 0 <= files[k].len,
        forall|k: int| 0 <= k < i ==> !#[trigger] names_file(line, files, k, idx, cwd, existing),
    ensures
        match file_under(line, files, i, idx, cwd, existing) {
            Some(target) => exists|n: int|
                {
                    &&& 0 <= n < files.len()
                    &&& #[trigger] names_file(line, files, n, idx, cwd, existing)
                    &&& forall|k: int|
                        0 <= k < n ==> !#[trigger] names_file(line, files, k, idx, cwd, existing)
                    &&& target == (TargetView::File {
                        line: files[n].line,
                        path: joined_path(files[n].path, cwd),
                    })
                },
            None => forall|k: int|
                0 <= k < files.len() ==> !#[trigger] names_file(
                    line,
                    files,
                    k,
                    idx,
                    cwd,
                    existing,
                ),
        },
    decreases files.len() - i,
{
    if i < files.len() {
        lemma_is_on(line, files[i].start, files[i].len, idx);
        if covers(line, files[i].start, files[i].len, idx) && exists_in(
            existing,
            joined_path(files[i].path, cwd),
        ) {
            assert(names_file(line, files, i, idx, cwd, existing));
        } else {
            assert(!names_file(line, files, i, idx, cwd, existing));
            lemma_file_under(line, files, i + 1, idx, cwd, existing);
        }
    }
}

/// What is opened: the first URL that the place is on; without one, the first token it is on
/// whose path exists, at the line that the token names; without one, the quoted path around it
/// where that exists; and else nothing.
pub proof fn law_urls_come_first_and_files_must_exist(
    line: Seq<char>,
    idx: int,
    urls: Seq<UrlView>,
    files: Seq<FileSpanView>,
    cwd: Option<Seq<char>>,
    existing: Seq<String>,
)
    requires
        0 <= idx,
        forall|k: int| 0 <= k < urls.len() ==> 0 <= (#[trigger] urls[k]).start,
        forall|k: int|
            0 <= k < files.len() ==> 0 <= (#[trigger] files[k]).start && 0 <= files[k].len,
    ensures
        ({
            let target = target_on_line(line, idx, urls, files, cwd, existing);
            let on_url = exists|n: int| #[trigger] first_url(line, urls, n, idx);
            let on_file = exists|n: int|
                0 <= n < files.len() && #[trigger] names_file(line, files, n, idx, cwd, existing);
            &&& forall|n: int| #[trigger]
                first_url(line, urls, n, idx) ==> target == Some(TargetView::Url(urls[n].url))
            &&& !on_url && on_file ==> exists|n: int|
                {
                    &&& 0 <= n < files.len()
                    &&& #[trigger] names_file(line, files, n, idx, cwd, existing)
                    &&& forall|k: int|
                        0 <= k < n ==> !#[trigger] names_file(line, files, k, idx, cwd, existing)
                    &&& target == Some(
                        TargetView::File {
                            line: files[n].line,
                            path: joined_path(files[n].path, cwd),
                        },
                    )
                }
            &&& !on_url && !on_file ==> match quoted_span(line, idx) {
                Some((a, b)) => {
                    let path = joined_path(line.subrange(a, b + 1), cwd);
                    if is_known(existing, path) {
                        target == Some(TargetView::File { line: None, path })
                    } else {
                        target is None
                    }
                },
                None => target is None,
            }
        }),
{
    lemma_url_under(line, urls, 0, idx);
    lemma_file_under(line, files, 0, idx, cwd, existing);
    match url_under(line, urls, 0, idx) {
        Some(url) => {
            let m = choose|n: int| #[trigger] first_url(line, urls, n, idx) && urls[n].url == url;
            assert forall|n: int| #[trigger] first_url(line, urls, n, idx) implies n == m by {
                if n < m {
                    assert(!is_on(line, urls[n].start, urls[n].url.len() as int, idx));
                }
                if m < n {
                    assert(!is_on(line, urls[m].start, urls[m].url.len() as int, idx));
                }
            }
        },
        None => {
            assert forall|n: int| !(#[trigger] first_url(line, urls, n, idx)) by {
                if 0 <= n < urls.len() {
                    assert(!is_on(line, urls[n].start, urls[n].url.len() as int, idx));
                }
            }
        },
    }
    assert(forall|path: Seq<char>| #[trigger]
        is_known(existing, path) == exists_in(existing, path));
}

/// A link that the program gave a cell is opened before anything that the line shows there.
pub proof fn law_a_link_comes_before_the_text(
    grid: Grid,
    row: int,
    col: int,
    cwd: Option<Seq<char>>,
    existing: Seq<String>,
    i: int,
)
    requires
        0 <= i < grid.links_at(grid.top() + row).len(),
        grid.links_at(grid.top() + row)[i].start_col <= col,
        col < grid.links_at(grid.top() + row)[i].end_col,
        forall|j: int|
            0 <= j < i ==> !(grid.links_at(grid.top() + row)[j].start_col <= col
                < (#[trigger] grid.links_at(grid.top() + row)[j]).end_col),
    ensures
        open_target(grid, row, col, cwd, existing) == Some(
            TargetView::Url(grid.links_at(grid.top() + row)[i].url@),
        ),
{
    let links = grid.links_at(grid.top() + row);
    assert(link_hit(links, i, col));
    lemma_one_link(links, col);
}

/// Whether `line` holds `q` right before `a` and right after `b`, with none in between, and
/// `idx` is from `a` to `b`.
pub open spec fn quoted_by(line: Seq<char>, q: char, a: int, b: int, idx: int) -> bool {
    &&& 0 < a <= idx <= b
    &&& b + 1 < line.len()
    &&& line[a - 1] == q
    &&& line[b + 1] == q
    &&& forall|k: int| a <= k <= b ==> #[trigger] line[k] != q
}

proof fn lemma_last_before(line: Seq<char>, q: char, i: int)
    requires
        0 <= i <= line.len(),
    ensures
        match last_before(line, q, i) {
            Some(a) => 0 <= a < i && line[a] == q && forall|k: int|
                a < k < i ==> #[trigger] line[k] != q,
            None => forall|k: int| 0 <= k < i ==> #[trigger] line[k] != q,
        },
    decreases i,
{
    if i > 0 && line[i - 1] != q {
        lemma_last_before(line, q, i - 1);
    }
}

proof fn lemma_first_after(line: Seq<char>, q: char, i: int)
    requires
        0 <= i,
    ensures
        match first_from(line, q, i) {
            Some(b) => i <= b < line.len() && line[b] == q && forall|k: int|
                i <= k < b ==> #[trigger] line[k] != q,
            None => forall|k: int| i <= k < line.len() ==> #[trigger] line[k] != q,
        },
    decreases line.len() - i,
{
    if i < line.len() && line[i] != q {
        lemma_first_after(line, q, i + 1);
    }
}

proof fn lemma_between(line: Seq<char>, q: char, idx: int)
    requires
        0 <= idx,
    ensures
        match between(line, q, idx) {
            Some((a, b)) => quoted_by(line, q, a, b, idx) && forall|x: int, y: int| #[trigger]
                quoted_by(line, q, x, y, idx) ==> x == a && y == b,
            None => forall|x: int, y: int| !(#[trigger] quoted_by(line, q, x, y, idx)),
        },
{
    if idx < line.len() && line[idx] != q {
        lemma_last_before(line, q, idx);
        lemma_first_after(line, q, idx);
        assert forall|x: int, y: int| #[trigger] quoted_by(line, q, x, y, idx) implies between(
            line,
            q,
            idx,
        ) == Some((x, y)) by {
            assert(line[x - 1] == q);
            assert(line[y + 1] == q);
        }
    } else {
        assert forall|x: int, y: int| !(#[trigger] quoted_by(line, q, x, y, idx)) by {
            if quoted_by(line, q, x, y, idx) {
                assert(line[idx] != q);
            }
        }
    }
}

/// The quoted text around a place stands between two double quotes, two single ones or two
/// backquotes, with none of the kind in between, and no other such text around the place is
/// narrower. Only where there is none at all is nothing found.
pub proof fn law_the_narrowest_quotes_count(line: Seq<char>, idx: int)
    requires
        0 <= idx,
    ensures
        match quoted_span(line, idx) {
            Some((a, b)) => {
                &&& quoted_by(line, '"', a, b, idx) || quoted_by(line, '\'', a, b, idx)
                    || quoted_by(line, '`', a, b, idx)
                &&& forall|q: char, x: int, y: int|
                    (q == '"' || q == '\'' || q == '`') && #[trigger] quoted_by(
                        line,
                        q,
                        x,
                        y,
                        idx,
                    ) ==> b - a <= y - x
            },
            None => forall|q: char, x: int, y: int|
                q == '"' || q == '\'' || q == '`' ==> !(#[trigger] quoted_by(line, q, x, y, idx)),
        },
{
    lemma_between(line, '"', idx);
    lemma_between(line, '\'', idx);
    lemma_between(line, '`', idx);
}

/// Whether `c` is a full stop, a comma, a colon, a semicolon, an exclamation mark or a
/// question mark.
pub open spec fn ends_clause(c: char) -> bool {
    c == '.' || c == ',' || c == ':' || c == ';' || c == '!' || c == '?'
}

proof fn lemma_punct(text: Seq<char>, n: int)
    requires
        0 <= n <= text.len(),
    ensures
        0 <= punct_trimmed(text, n) <= n,
        forall|k: int| punct_trimmed(text, n) <= k < n ==> ends_clause(#[trigger] text[k]),
        punct_trimmed(text, n) > 0 ==> !ends_clause(text[punct_trimmed(text, n) - 1]),
    decreases n,
{
    if 0 < n && is_sentence_punct(text[n - 1]) {
        lemma_punct(text, n - 1);
    }
}

/// A URL loses the punctuation at its end, and nothing else.
pub proof fn law_a_url_loses_only_its_punctuation(url: Seq<char>)
    ensures
        ({
            let rest = without_punct(url);
            &&& rest.len() <= url.len()
            &&& rest == url.take(rest.len() as int)
            &&& forall|k: int| rest.len() <= k < url.len() ==> ends_clause(#[trigger] url[k])
            &&& rest.len() > 0 ==> !ends_clause(rest.last())
        }),
{
    lemma_punct(url, url.len() as int);
}

/// Whether `line` from `i` up to `e` is a run of characters that are not blank, as long as it
/// can be.
pub open spec fn is_run(line: Seq<char>, i: int, e: int) -> bool {
    &&& 0 <= i < e <= line.len()
    &&& forall|k: int| i <= k < e ==> !is_white(#[trigger] line[k])
    &&& i == 0 || is_white(line[i - 1])
    &&& e == line.len() || is_white(line[e])
}

/// Whether `c` is a quote or opens brackets.
pub open spec fn opens_quote(c: char) -> bool {
    c == '"' || c == '\'' || c == '`' || c == '(' || c == '[' || c == '{' || c == '<'
}

/// Whether `c` is a quote, closes brackets or ends a clause.
pub open spec fn ends_quote(c: char) -> bool {
    c == '"' || c == '\'' || c == '`' || c == ')' || c == ']' || c == '}' || c == '>'
        || ends_clause(c)
}

/// Whether what is left of the run from `i` up to `e`, without what opens a quote before it
/// and what ends one after it, is from `s` up to `t`.
pub open spec fn is_token(line: Seq<char>, i: int, e: int, s: int, t: int) -> bool {
    &&& is_run(line, i, e)
    &&& i <= s < t <= e
    &&& forall|k: int| i <= k < s ==> opens_quote(#[trigger] line[k])
    &&& !opens_quote(line[s])
    &&& forall|k: int| t <= k < e ==> ends_quote(#[trigger] line[k])
    &&& !ends_quote(line[t - 1])
}

proof fn lemma_run(line: Seq<char>, i: int)
    requires
        0 <= i <= line.len(),
    ensures
        i <= run_end(line, i) <= line.len(),
        forall|k: int| i <= k < run_end(line, i) ==> !is_white(#[trigger] line[k]),
        run_end(line, i) < line.len() ==> is_white(line[run_end(line, i)]),
    decreases line.len() - i,
{
    if i < line.len() && !is_white(line[i]) {
        lemma_run(line, i + 1);
    }
}

proof fn lemma_token_start(line: Seq<char>, s: int, e: int)
    requires
        0 <= s <= e <= line.len(),
    ensures
        s <= token_start(line, s, e) <= e,
        forall|k: int| s <= k < token_start(line, s, e) ==> opens_quote(#[trigger] line[k]),
        token_start(line, s, e) < e ==> !opens_quote(line[token_start(line, s, e)]),
    decreases e - s,
{
    if s < e && is_leading(line[s]) {
        lemma_token_start(line, s + 1, e);
    }
}

proof fn lemma_token_end(line: Seq<char>, s: int, e: int)
    requires
        0 <= s <= e <= line.len(),
    ensures
        s <= token_end(line, s, e) <= e,
        forall|k: int| token_end(line, s, e) <= k < e ==> ends_quote(#[trigger] line[k]),
        token_end(line, s, e) > s ==> !ends_quote(line[token_end(line, s, e) - 1]),
    decreases e - s,
{
    if s < e && is_trailing(line[e - 1]) {
        lemma_token_end(line, s, e - 1);
    }
}

/// Whether a span is what is left of a run from `i` on.
pub open spec fn is_bare_word(line: Seq<char>, i: int, span: (int, int)) -> bool {
    exists|a: int, e: int| i <= a && #[trigger] is_token(line, a, e, span.0, span.0 + span.1)
}

proof fn lemma_tokens(line: Seq<char>, i: int)
    requires
        0 <= i <= line.len(),
        i == 0 || i == line.len() || is_white(line[i]) || is_white(line[i - 1]),
    ensures
        forall|n: int|
            0 <= n < tokens_from(line, i).len() ==> is_bare_word(
                line,
                i,
                #[trigger] tokens_from(line, i)[n],
            ),
        forall|a: int, e: int, s: int, t: int|
            i <= a && #[trigger] is_token(line, a, e, s, t) ==> tokens_from(line, i).contains(
                (s, t - s),
            ),
    decreases line.len() - i,
{
    if i < line.len() {
        let all = tokens_from(line, i);
        if is_white(line[i]) {
            lemma_tokens(line, i + 1);
            assert forall|a: int, e: int, s: int, t: int|
                i <= a && #[trigger] is_token(line, a, e, s, t) implies all.contains(
                (s, t - s),
            ) by {
                assert(!is_white(line[a]));
            }
            assert forall|n: int| 0 <= n < all.len() implies is_bare_word(
                line,
                i,
                #[trigger] all[n],
            ) by {
                assert(is_bare_word(line, i + 1, tokens_from(line, i + 1)[n]));
            }
        } else {
            let end = run_end(line, i);
            lemma_run(line, i);
            assert(i < end);
            let s0 = token_start(line, i, end);
            lemma_token_start(line, i, end);
            let e0 = token_end(line, s0, end);
            lemma_token_end(line, s0, end);
            lemma_tokens(line, end);
            let rest = tokens_from(line, end);
            assert(is_run(line, i, end));
            assert forall|n: int| 0 <= n < all.len() implies is_bare_word(
                line,
                i,
                #[trigger] all[n],
            ) by {
                if e0 > s0 && n == 0 {
                    assert(all[0] == (s0, e0 - s0));
                    assert(is_token(line, i, end, all[0].0, all[0].0 + all[0].1));
                } else if e0 > s0 {
                    assert(all[n] == rest[n - 1]);
                    assert(is_bare_word(line, end, rest[n - 1]));
                } else {
                    assert(all[n] == rest[n]);
                    assert(is_bare_word(line, end, rest[n]));
                }
            }
            assert forall|a: int, e: int, s: int, t: int|
                i <= a && #[trigger] is_token(line, a, e, s, t) implies all.contains(
                (s, t - s),
            ) by {
                if a >= end {
                    assert(rest.contains((s, t - s)));
                    let n = choose|n: int| 0 <= n < rest.len() && rest[n] == (s, t - s);
                    if e0 > s0 {
                        assert(all[n + 1] == rest[n]);
                    } else {
                        assert(all[n] == rest[n]);
                    }
                } else {
                    if a > i {
                        assert(is_white(line[a - 1]));
                        assert(!is_white(line[a - 1]));
                    }
                    if e < end {
                        assert(!is_white(line[e]));
                    }
                    if end < e {
                        assert(!is_white(line[end]));
                    }
                    assert(a == i && e == end);
                    if s0 < s {
                        assert(opens_quote(line[s0]));
                    }
                    if s < s0 {
                        assert(opens_quote(line[s]));
                    }
                    if e0 < t {
                        assert(ends_quote(line[t - 1]));
                    }
                    if t < e0 {
                        assert(ends_quote(line[e0 - 1]));
                    }
                    assert(s == s0 && t == e0);
                    assert(all[0] == (s0, e0 - s0));
                }
            }
        }
    }
}

/// The tokens of a line are its runs without blanks, each without the quotes and brackets
/// that open before it and without those that close and the punctuation that follows: no
/// others, and all of them of which anything is left.
pub proof fn law_tokens_are_the_bare_words(line: Seq<char>)
    ensures
        forall|n: int|
            0 <= n < tokens_from(line, 0).len() ==> is_bare_word(
                line,
                0,
                #[trigger] tokens_from(line, 0)[n],
            ),
        forall|a: int, e: int, s: int, t: int| #[trigger]
            is_token(line, a, e, s, t) ==> tokens_from(line, 0).contains((s, t - s)),
{
    lemma_tokens(line, 0);
    assert forall|a: int, e: int, s: int, t: int| #[trigger] is_token(line, a, e, s, t) implies
        tokens_from(line, 0).contains((s, t - s)) by {
        assert(0 <= a);
    }
}

/// A column of a row is found again on the whole line, at its index.
pub proof fn law_the_whole_line_holds_each_row(grid: Grid, row: int, col: int)
    requires
        grid.wf(),
        0 <= row < grid.height(),
        grid.wrap_start(row) <= row <= grid.wrap_end(row),
        0 <= col < printed_line(grid, row).len(),
    ensures
        0 <= line_index(grid, row, col) < whole_line(grid, row).len(),
        whole_line(grid, row)[line_index(grid, row, col)] == printed_line(grid, row)[col],
{
    let first = grid.wrap_start(row);
    assert(joined_line(grid, first, row + 1) == joined_line(grid, first, row) + printed_line(
        grid,
        row,
    ));
    lemma_joined_prefix(grid, first, row + 1, grid.wrap_end(row) + 1);
    let some = joined_line(grid, first, row + 1);
    assert(whole_line(grid, row).take(some.len() as int) == some);
    assert(whole_line(grid, row)[line_index(grid, row, col)] == some[line_index(grid, row, col)]);
}

proof fn lemma_joined_prefix(grid: Grid, first: int, mid: int, end: int)
    requires
        first <= mid <= end,
    ensures
        joined_line(grid, first, mid).len() <= joined_line(grid, first, end).len(),
        joined_line(grid, first, end).take(joined_line(grid, first, mid).len() as int)
            == joined_line(grid, first, mid),
    decreases end - mid,
{
    let some = joined_line(grid, first, mid);
    if mid < end {
        lemma_joined_prefix(grid, first, mid, end - 1);
        assert(joined_line(grid, first, end).take(some.len() as int) =~= joined_line(
            grid,
            first,
            end - 1,
        ).take(some.len() as int));
    } else {
        assert(some.take(some.len() as int) =~= some);
    }
}

} // verus!
