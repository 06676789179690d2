//! Readers of what is exported, and what they find in it: the declarations of a style, the
//! text of an HTML document, and the cells behind ANSI escapes.

use vstd::prelude::*;
use crate::grid::{Cell, Color, Grid, Style};
use crate::navigation::export::{
    ansi_cells, ansi_row, ansi_rows, cell_text, color_escape, css_color, css_style, end_trimmed,
    escaped, escaped_char, hex_byte, hex_color, hex_digit, html_cell, html_cells,
    html_document, html_rows, style_after, style_escapes, Rgb, Theme,
};
use crate::text::{decimal, decimal_value, is_white, lemma_decimal_reads_back};

verus! {

broadcast use {Grid::lemma_bounds, Grid::lemma_scrolled};

/// The first place from `i` on that holds `c`, or the end.
pub open spec fn place_of(s: Seq<char>, c: char, i: int) -> int
    decreases s.len() - i,
{
    if i < 0 || i >= s.len() {
        s.len() as int
    } else if s[i] == c {
        i
    } else {
        place_of(s, c, i + 1)
    }
}

/// Whether `s` holds no `c`.
pub open spec fn lacks(s: Seq<char>, c: char) -> bool {
    forall|k: int| 0 <= k < s.len() ==> #[trigger] s[k] != c
}

proof fn lemma_place_of(s: Seq<char>, c: char, i: int, k: int)
    requires
        0 <= i <= k < s.len(),
        s[k] == c,
        forall|x: int| i <= x < k ==> #[trigger] s[x] != c,
    ensures
        place_of(s, c, i) == k,
    decreases k - i,
{
    if i < k {
        lemma_place_of(s, c, i + 1, k);
    }
}

proof fn lemma_no_place(s: Seq<char>, c: char, i: int)
    requires
        0 <= i,
        forall|x: int| i <= x < s.len() ==> #[trigger] s[x] != c,
    ensures
        place_of(s, c, i) == s.len(),
    decreases s.len() - i,
{
    if i < s.len() {
        lemma_no_place(s, c, i + 1);
    }
}

proof fn lemma_place_after(a: Seq<char>, c: char, b: Seq<char>)
    requires
        lacks(a, c),
    ensures
        place_of(a.push(c) + b, c, 0) == a.len(),
        (a.push(c) + b).take(a.len() as int) == a,
        (a.push(c) + b).skip(a.len() as int + 1) == b,
{
    let s = a.push(c) + b;
    assert forall|x: int| 0 <= x < a.len() implies #[trigger] s[x] != c by {
        assert(s[x] == a[x]);
    }
    lemma_place_of(s, c, 0, a.len() as int);
    assert(s.take(a.len() as int) =~= a);
    assert(s.skip(a.len() as int + 1) =~= b);
}

// ------------------------------------------------------------------------
// CSS
// ------------------------------------------------------------------------

/// The value that `css` declares for a property: declarations end in a semicolon, and each is
/// a property, a colon and a value. The first declaration of a property counts.
pub open spec fn declared(css: Seq<char>, property: Seq<char>) -> Option<Seq<char>>
    decreases css.len(),
{
    let end = place_of(css, ';', 0);
    if end < 0 || end >= css.len() {
        None
    } else {
        let one = css.take(end);
        let colon = place_of(one, ':', 0);
        if 0 <= colon < one.len() && one.take(colon) == property {
            Some(one.skip(colon + 1))
        } else {
            declared(css.skip(end + 1), property)
        }
    }
}

/// The value of a hexadecimal digit.
pub open spec fn hex_value(c: char) -> int {
    if '0' <= c <= '9' {
        c as int - '0' as int
    } else if 'a' <= c <= 'f' {
        c as int - 'a' as int + 10
    } else {
        -1
    }
}

/// Whether `text` names a color: a hash, then two hexadecimal digits each for its red, its
/// green and its blue.
pub open spec fn names_color(text: Seq<char>, c: Rgb) -> bool {
    &&& text.len() == 7
    &&& text[0] == '#'
    &&& forall|k: int| 1 <= k < 7 ==> 0 <= hex_value(#[trigger] text[k]) < 16
    &&& hex_value(text[1]) * 16 + hex_value(text[2]) == c.r
    &&& hex_value(text[3]) * 16 + hex_value(text[4]) == c.g
    &&& hex_value(text[5]) * 16 + hex_value(text[6]) == c.b
}

/// Whether `value` is what a color of a cell is to be drawn in: nothing for the default one.
pub open spec fn draws_color(value: Option<Seq<char>>, color: Color, theme: Theme) -> bool {
    match color {
        Color::Default => value is None,
        Color::Indexed(i) => value matches Some(text) && names_color(
            text,
            theme.ansi[i as int % 16],
        ),
        Color::Rgb { r, g, b } => value matches Some(text) && names_color(text, Rgb { r, g, b }),
    }
}

proof fn lemma_hex_byte(b: u8)
    ensures
        hex_byte(b).len() == 2,
        0 <= hex_value(hex_byte(b)[0]) < 16,
        0 <= hex_value(hex_byte(b)[1]) < 16,
        hex_value(hex_byte(b)[0]) * 16 + hex_value(hex_byte(b)[1]) == b,
{
    lemma_hex_digit(b as int / 16);
    lemma_hex_digit(b as int % 16);
}

proof fn lemma_hex_digit(d: int)
    requires
        0 <= d < 16,
    ensures
        hex_value(hex_digit(d)) == d,
{
}

/// A color is written so that its parts can be read back.
pub proof fn law_a_color_reads_back(c: Rgb)
    ensures
        names_color(hex_color(c), c),
        lacks(hex_color(c), ';'),
{
    reveal_strlit("#");
    let t = hex_color(c);
    lemma_hex_byte(c.r);
    lemma_hex_byte(c.g);
    lemma_hex_byte(c.b);
    assert(t[1] == hex_byte(c.r)[0] && t[2] == hex_byte(c.r)[1]);
    assert(t[3] == hex_byte(c.g)[0] && t[4] == hex_byte(c.g)[1]);
    assert(t[5] == hex_byte(c.b)[0] && t[6] == hex_byte(c.b)[1]);
    assert forall|k: int| 1 <= k < 7 implies 0 <= hex_value(#[trigger] t[k]) < 16 by {
        if k == 1 {
        } else if k == 2 {
        } else if k == 3 {
        } else if k == 4 {
        } else if k == 5 {
        } else {
            assert(k == 6);
        }
    }
    assert forall|k: int| 0 <= k < t.len() implies #[trigger] t[k] != ';' by {
        if k > 0 {
            assert(hex_value(t[k]) >= 0);
        }
    }
}

/// One declaration.
spec fn declaration(name: Seq<char>, value: Seq<char>) -> Seq<char> {
    (name.push(':') + value).push(';')
}

proof fn lemma_declared(name: Seq<char>, value: Seq<char>, rest: Seq<char>, property: Seq<char>)
    requires
        lacks(name, ':'),
        lacks(name, ';'),
        lacks(value, ';'),
    ensures
        declared(declaration(name, value) + rest, property) == (if name == property {
            Some(value)
        } else {
            declared(rest, property)
        }),
{
    let one = name.push(':') + value;
    assert forall|k: int| 0 <= k < one.len() implies #[trigger] one[k] != ';' by {
        if k < name.len() {
            assert(one[k] == name[k]);
        } else if k > name.len() {
            assert(one[k] == value[k - name.len() - 1]);
        }
    }
    lemma_place_after(one, ';', rest);
    lemma_place_after(name, ':', value);
}

/// The declarations of a weight, a slant or a line, as they are written.
proof fn lemma_fixed()
    ensures
        "font-weight:bold;"@ == declaration("font-weight"@, "bold"@),
        "font-style:italic;"@ == declaration("font-style"@, "italic"@),
        "text-decoration:underline;"@ == declaration("text-decoration"@, "underline"@),
        "font-weight"@.len() == 11,
        "font-style"@.len() == 10,
        "text-decoration"@.len() == 15,
        lacks("font-weight"@, ':') && lacks("font-weight"@, ';') && lacks("bold"@, ';'),
        lacks("font-style"@, ':') && lacks("font-style"@, ';') && lacks("italic"@, ';'),
        lacks("text-decoration"@, ':') && lacks("text-decoration"@, ';'),
        lacks("underline"@, ';'),
{
    reveal_strlit("font-weight:bold;");
    reveal_strlit("font-style:italic;");
    reveal_strlit("text-decoration:underline;");
    reveal_strlit("font-weight");
    reveal_strlit("font-style");
    reveal_strlit("text-decoration");
    reveal_strlit("bold");
    reveal_strlit("italic");
    reveal_strlit("underline");
    assert("font-weight:bold;"@ =~= declaration("font-weight"@, "bold"@));
    assert("font-style:italic;"@ =~= declaration("font-style"@, "italic"@));
    assert("text-decoration:underline;"@ =~= declaration("text-decoration"@, "underline"@));
}

proof fn lemma_color_names()
    ensures
        "color:"@ == "color"@.push(':'),
        "background-color:"@ == "background-color"@.push(':'),
        "color"@.len() == 5,
        "background-color"@.len() == 16,
        lacks("color"@, ':') && lacks("color"@, ';'),
        lacks("background-color"@, ':') && lacks("background-color"@, ';'),
{
    reveal_strlit("color:");
    reveal_strlit("background-color:");
    reveal_strlit("color");
    reveal_strlit("background-color");
    assert("color:"@ =~= "color"@.push(':'));
    assert("background-color:"@ =~= "background-color"@.push(':'));
}

/// The color that a cell's color is drawn in.
spec fn drawn(color: Color, theme: Theme) -> Rgb {
    match color {
        Color::Default => theme.foreground,
        Color::Indexed(i) => theme.ansi[i as int % 16],
        Color::Rgb { r, g, b } => Rgb { r, g, b },
    }
}

proof fn lemma_css_color(
    name: Seq<char>,
    color: Color,
    theme: Theme,
    rest: Seq<char>,
    property: Seq<char>,
)
    requires
        lacks(name, ':'),
        lacks(name, ';'),
    ensures
        declared(css_color(name.push(':'), color, theme) + rest, property) == (if name == property
            && color !is Default {
            Some(hex_color(drawn(color, theme)))
        } else {
            declared(rest, property)
        }),
{
    reveal_strlit(";");
    match color {
        Color::Default => {
            assert(css_color(name.push(':'), color, theme) + rest =~= rest);
        },
        _ => {
            let value = hex_color(drawn(color, theme));
            law_a_color_reads_back(drawn(color, theme));
            lemma_declared(name, value, rest, property);
            assert(css_color(name.push(':'), color, theme) =~= declaration(name, value));
        },
    }
}

proof fn lemma_when(
    on: bool,
    name: Seq<char>,
    value: Seq<char>,
    rest: Seq<char>,
    property: Seq<char>,
)
    requires
        lacks(name, ':'),
        lacks(name, ';'),
        lacks(value, ';'),
    ensures
        declared(
            crate::navigation::export::when(on, declaration(name, value)) + rest,
            property,
        ) == (if on && name == property {
            Some(value)
        } else {
            declared(rest, property)
        }),
{
    if on {
        lemma_declared(name, value, rest, property);
    } else {
        assert(crate::navigation::export::when(on, declaration(name, value)) + rest =~= rest);
    }
}

proof fn lemma_css(style: Style, theme: Theme, property: Seq<char>)
    ensures
        declared(css_style(style, theme), property) == (if style.bold && property
            == "font-weight"@ {
            Some("bold"@)
        } else if style.italic && property == "font-style"@ {
            Some("italic"@)
        } else if style.underline && property == "text-decoration"@ {
            Some("underline"@)
        } else if style.foreground !is Default && property == "color"@ {
            Some(hex_color(drawn(style.foreground, theme)))
        } else if style.background !is Default && property == "background-color"@ {
            Some(hex_color(drawn(style.background, theme)))
        } else {
            None
        }),
{
    lemma_fixed();
    lemma_color_names();
    let none = Seq::<char>::empty();
    let d5 = css_color("background-color:"@, style.background, theme) + none;
    let d4 = css_color("color:"@, style.foreground, theme) + d5;
    let d3 = crate::navigation::export::when(style.underline, "text-decoration:underline;"@) + d4;
    let d2 = crate::navigation::export::when(style.italic, "font-style:italic;"@) + d3;
    let d1 = crate::navigation::export::when(style.bold, "font-weight:bold;"@) + d2;
    assert(css_style(style, theme) =~= d1);
    lemma_when(style.bold, "font-weight"@, "bold"@, d2, property);
    lemma_when(style.italic, "font-style"@, "italic"@, d3, property);
    lemma_when(style.underline, "text-decoration"@, "underline"@, d4, property);
    lemma_css_color("color"@, style.foreground, theme, d5, property);
    lemma_css_color("background-color"@, style.background, theme, none, property);
}

/// A cell's style reads back from the declarations that draw it: `color` is its foreground and
/// `background-color` its background, each there only where the cell has one of its own, and
/// weight, slant and line are declared where the cell has them.
pub proof fn law_a_style_declares_what_the_cell_has(style: Style, theme: Theme)
    ensures
        draws_color(declared(css_style(style, theme), "color"@), style.foreground, theme),
        draws_color(
            declared(css_style(style, theme), "background-color"@),
            style.background,
            theme,
        ),
        declared(css_style(style, theme), "font-weight"@) == (if style.bold {
            Some("bold"@)
        } else {
            None
        }),
        declared(css_style(style, theme), "font-style"@) == (if style.italic {
            Some("italic"@)
        } else {
            None
        }),
        declared(css_style(style, theme), "text-decoration"@) == (if style.underline {
            Some("underline"@)
        } else {
            None
        }),
{
    lemma_fixed();
    lemma_color_names();
    lemma_css(style, theme, "color"@);
    lemma_css(style, theme, "background-color"@);
    lemma_css(style, theme, "font-weight"@);
    lemma_css(style, theme, "font-style"@);
    lemma_css(style, theme, "text-decoration"@);
    law_a_color_reads_back(drawn(style.foreground, theme));
    law_a_color_reads_back(drawn(style.background, theme));
}

// ------------------------------------------------------------------------
// HTML
// ------------------------------------------------------------------------

/// The character that a named or numbered reference stands for.
pub open spec fn referred(name: Seq<char>) -> char {
    if name == "amp"@ {
        '&'
    } else if name == "lt"@ {
        '<'
    } else if name == "gt"@ {
        '>'
    } else if name == "quot"@ {
        '"'
    } else if name == "#39"@ {
        '\''
    } else {
        '?'
    }
}

/// The text of `html`: without its tags, and with the character each reference stands for.
pub open spec fn html_text(html: Seq<char>) -> Seq<char>
    decreases html.len(),
{
    if html.len() == 0 {
        Seq::empty()
    } else if html[0] == '<' {
        let end = place_of(html, '>', 0);
        if 0 <= end < html.len() {
            html_text(html.skip(end + 1))
        } else {
            Seq::empty()
        }
    } else if html[0] == '&' {
        let end = place_of(html, ';', 0);
        if 1 <= end < html.len() {
            seq![referred(html.subrange(1, end))] + html_text(html.skip(end + 1))
        } else {
            Seq::empty()
        }
    } else {
        seq![html[0]] + html_text(html.skip(1))
    }
}

/// The style that a span at the start of `html` carries.
pub open spec fn span_style(html: Seq<char>) -> Option<Seq<char>> {
    let lead = "<span style=\""@;
    if html.len() > lead.len() && html.take(lead.len() as int) == lead {
        Some(html.subrange(lead.len() as int, place_of(html, '"', lead.len() as int)))
    } else {
        None
    }
}

proof fn lemma_reference(name: Seq<char>, rest: Seq<char>)
    requires
        lacks(name, ';'),
    ensures
        html_text(seq!['&'] + name + seq![';'] + rest) == seq![referred(name)] + html_text(rest),
{
    let html = seq!['&'] + name + seq![';'] + rest;
    let a = seq!['&'] + name;
    assert forall|k: int| 0 <= k < a.len() implies #[trigger] a[k] != ';' by {
        if k > 0 {
            assert(a[k] == name[k - 1]);
        }
    }
    lemma_place_after(a, ';', rest);
    assert(html =~= a.push(';') + rest);
    assert(html.subrange(1, a.len() as int) =~= name);
    assert(html[0] == '&');
}

proof fn lemma_tag(tag: Seq<char>, rest: Seq<char>)
    requires
        lacks(tag, '>'),
        tag.len() > 0,
        tag[0] == '<',
    ensures
        html_text(tag.push('>') + rest) == html_text(rest),
{
    lemma_place_after(tag, '>', rest);
    assert((tag.push('>') + rest)[0] == '<');
}

proof fn lemma_names_differ()
    ensures
        referred("amp"@) == '&',
        referred("lt"@) == '<',
        referred("gt"@) == '>',
        referred("quot"@) == '"',
        referred("#39"@) == '\'',
        lacks("amp"@, ';') && lacks("lt"@, ';') && lacks("gt"@, ';') && lacks("quot"@, ';')
            && lacks("#39"@, ';'),
        "&amp;"@ == seq!['&'] + "amp"@ + seq![';'],
        "&lt;"@ == seq!['&'] + "lt"@ + seq![';'],
        "&gt;"@ == seq!['&'] + "gt"@ + seq![';'],
        "&quot;"@ == seq!['&'] + "quot"@ + seq![';'],
        "&#39;"@ == seq!['&'] + "#39"@ + seq![';'],
{
    reveal_strlit("amp");
    reveal_strlit("lt");
    reveal_strlit("gt");
    reveal_strlit("quot");
    reveal_strlit("#39");
    reveal_strlit("&amp;");
    reveal_strlit("&lt;");
    reveal_strlit("&gt;");
    reveal_strlit("&quot;");
    reveal_strlit("&#39;");
    assert("&amp;"@ =~= seq!['&'] + "amp"@ + seq![';']);
    assert("&lt;"@ =~= seq!['&'] + "lt"@ + seq![';']);
    assert("&gt;"@ =~= seq!['&'] + "gt"@ + seq![';']);
    assert("&quot;"@ =~= seq!['&'] + "quot"@ + seq![';']);
    assert("&#39;"@ =~= seq!['&'] + "#39"@ + seq![';']);
    assert("amp"@[0] == 'a' && "#39"@[0] == '#');
    assert("lt"@[0] == 'l' && "gt"@[0] == 'g');
}

proof fn lemma_escaped_char(c: char, rest: Seq<char>)
    ensures
        html_text(escaped_char(c) + rest) == seq![c] + html_text(rest),
{
    lemma_names_differ();
    if c == '&' {
        lemma_reference("amp"@, rest);
    } else if c == '<' {
        lemma_reference("lt"@, rest);
    } else if c == '>' {
        lemma_reference("gt"@, rest);
    } else if c == '"' {
        lemma_reference("quot"@, rest);
    } else if c == '\'' {
        lemma_reference("#39"@, rest);
    } else {
        assert((seq![c] + rest).skip(1) =~= rest);
        assert((seq![c] + rest)[0] == c);
    }
}

/// Escaped text reads back as the text.
pub proof fn law_escaped_text_reads_back(text: Seq<char>)
    ensures
        html_text(escaped(text)) == text,
{
    lemma_escaped_text(text, Seq::empty());
    assert(escaped(text) + Seq::<char>::empty() =~= escaped(text));
    assert(text + Seq::<char>::empty() =~= text);
    assert(html_text(Seq::empty()) =~= Seq::<char>::empty());
}

proof fn lemma_escaped_text(text: Seq<char>, rest: Seq<char>)
    ensures
        html_text(escaped(text) + rest) == text + html_text(rest),
    decreases text.len(),
{
    if text.len() == 0 {
        assert(escaped(text) + rest =~= rest);
        assert(text + html_text(rest) =~= html_text(rest));
    } else {
        let more = escaped_char(text.last()) + rest;
        lemma_escaped_text(text.drop_last(), more);
        lemma_escaped_char(text.last(), rest);
        assert(escaped(text) + rest =~= escaped(text.drop_last()) + more);
        assert(text.drop_last() + (seq![text.last()] + html_text(rest)) =~= text + html_text(
            rest,
        ));
    }
}

proof fn lemma_css_lacks(style: Style, theme: Theme)
    ensures
        lacks(css_style(style, theme), '>'),
        lacks(css_style(style, theme), '"'),
{
    reveal_strlit("font-weight:bold;");
    reveal_strlit("font-style:italic;");
    reveal_strlit("text-decoration:underline;");
    reveal_strlit("color:");
    reveal_strlit("background-color:");
    reveal_strlit(";");
    let parts = seq![
        crate::navigation::export::when(style.bold, "font-weight:bold;"@),
        crate::navigation::export::when(style.italic, "font-style:italic;"@),
        crate::navigation::export::when(style.underline, "text-decoration:underline;"@),
    ];
    lemma_color_lacks("color:"@, style.foreground, theme);
    lemma_color_lacks("background-color:"@, style.background, theme);
    let a = parts[0] + parts[1];
    let b = a + parts[2];
    let c = b + css_color("color:"@, style.foreground, theme);
    assert(forall|k: int| 0 <= k < parts[0].len() ==> #[trigger] parts[0][k] != '>' && parts[0][k]
        != '"');
    assert(forall|k: int| 0 <= k < parts[1].len() ==> #[trigger] parts[1][k] != '>' && parts[1][k]
        != '"');
    assert(forall|k: int| 0 <= k < parts[2].len() ==> #[trigger] parts[2][k] != '>' && parts[2][k]
        != '"');
    lemma_both_lack(parts[0], parts[1]);
    lemma_both_lack(a, parts[2]);
    lemma_both_lack(b, css_color("color:"@, style.foreground, theme));
    lemma_both_lack(c, css_color("background-color:"@, style.background, theme));
}

proof fn lemma_both_lack(a: Seq<char>, b: Seq<char>)
    requires
        lacks(a, '>') && lacks(a, '"'),
        lacks(b, '>') && lacks(b, '"'),
    ensures
        lacks(a + b, '>') && lacks(a + b, '"'),
{
    assert forall|k: int| 0 <= k < (a + b).len() implies #[trigger] (a + b)[k] != '>' && (a + b)[k]
        != '"' by {
        if k < a.len() {
            assert((a + b)[k] == a[k]);
        } else {
            assert((a + b)[k] == b[k - a.len()]);
        }
    }
}

proof fn lemma_color_lacks(property: Seq<char>, color: Color, theme: Theme)
    requires
        lacks(property, '>') && lacks(property, '"'),
    ensures
        lacks(css_color(property, color, theme), '>'),
        lacks(css_color(property, color, theme), '"'),
{
    reveal_strlit(";");
    if color !is Default {
        let value = hex_color(drawn(color, theme));
        law_a_color_reads_back(drawn(color, theme));
        assert forall|k: int| 0 <= k < value.len() implies #[trigger] value[k] != '>' && value[k]
            != '"' by {
            if k > 0 {
                assert(hex_value(value[k]) >= 0);
            }
        }
        lemma_both_lack(property, value);
        lemma_both_lack(property + value, ";"@);
    }
}

/// What a cell is exported as carries the cell's style, and none where the cell has none, and
/// reads as the cell's character; a cell in which nothing was printed is left out.
pub proof fn law_a_cell_reads_back(cell: Cell, theme: Theme)
    ensures
        html_text(html_cell(cell, theme)) == (if cell.ch == '\0' {
            Seq::empty()
        } else {
            seq![cell.ch]
        }),
        span_style(html_cell(cell, theme)) == (if cell.ch == '\0' || css_style(
            cell.style,
            theme,
        ).len() == 0 {
            None
        } else {
            Some(css_style(cell.style, theme))
        }),
{
    let none = Seq::<char>::empty();
    lemma_cell_text(cell, theme, none);
    assert(html_cell(cell, theme) + none =~= html_cell(cell, theme));
    assert(html_text(none) =~= none);
    assert(seq![cell.ch] + none =~= seq![cell.ch]);
    let css = css_style(cell.style, theme);
    let lead = "<span style=\""@;
    reveal_strlit("<span style=\"");
    reveal_strlit("\">");
    reveal_strlit("</span>");
    reveal_strlit("&amp;");
    reveal_strlit("&lt;");
    reveal_strlit("&gt;");
    reveal_strlit("&quot;");
    reveal_strlit("&#39;");
    if cell.ch != '\0' && css.len() > 0 {
        let html = html_cell(cell, theme);
        lemma_css_lacks(cell.style, theme);
        assert(html.take(lead.len() as int) =~= lead);
        let at = (lead.len() + css.len()) as int;
        assert forall|k: int| lead.len() <= k < at implies #[trigger] html[k] != '"' by {
            assert(html[k] == css[k - lead.len()]);
        }
        assert(html[at] == "\">"@[0]);
        lemma_place_of(html, '"', lead.len() as int, at);
        assert(html.subrange(lead.len() as int, at) =~= css);
    }
}

proof fn lemma_cell_text(cell: Cell, theme: Theme, rest: Seq<char>)
    ensures
        html_text(html_cell(cell, theme) + rest) == (if cell.ch == '\0' {
            Seq::empty()
        } else {
            seq![cell.ch]
        }) + html_text(rest),
{
    let css = css_style(cell.style, theme);
    if cell.ch == '\0' {
        assert(html_cell(cell, theme) + rest =~= rest);
        assert(Seq::<char>::empty() + html_text(rest) =~= html_text(rest));
    } else if css.len() == 0 {
        lemma_escaped_char(cell.ch, rest);
    } else {
        reveal_strlit("<span style=\"");
        reveal_strlit("\">");
        reveal_strlit("</span>");
        lemma_css_lacks(cell.style, theme);
        let close = "</span"@;
        reveal_strlit("</span");
        let after = close.push('>') + rest;
        lemma_tag(close, rest);
        let more = escaped_char(cell.ch) + after;
        lemma_escaped_char(cell.ch, after);
        let tag = ("<span style=\""@ + css).push('"');
        assert forall|k: int| 0 <= k < tag.len() implies #[trigger] tag[k] != '>' by {
            let n = "<span style=\""@.len();
            if n <= k < n + css.len() {
                assert(tag[k] == css[k - n]);
            }
        }
        lemma_tag(tag, more);
        assert(html_cell(cell, theme) + rest =~= tag.push('>') + more);
    }
}

proof fn lemma_cells_text(grid: Grid, theme: Theme, row: int, n: int, rest: Seq<char>)
    requires
        0 <= n,
    ensures
        html_text(html_cells(grid, theme, row, n) + rest) == cell_text(grid, row, n) + html_text(
            rest,
        ),
    decreases n,
{
    if n == 0 {
        assert(html_cells(grid, theme, row, n) + rest =~= rest);
        assert(cell_text(grid, row, n) + html_text(rest) =~= html_text(rest));
    } else {
        let cell = grid.cell_at(row, n - 1);
        let more = html_cell(cell, theme) + rest;
        lemma_cells_text(grid, theme, row, n - 1, more);
        lemma_cell_text(cell, theme, rest);
        assert(html_cells(grid, theme, row, n) + rest =~= html_cells(grid, theme, row, n - 1)
            + more);
        if cell.ch == '\0' {
            assert(Seq::<char>::empty() + html_text(rest) =~= html_text(rest));
        } else {
            assert(cell_text(grid, row, n - 1) + (seq![cell.ch] + html_text(rest))
                =~= cell_text(grid, row, n) + html_text(rest));
        }
    }
}

/// The printed characters of the first `n` rows, each row with a line break after it.
pub open spec fn rows_text(grid: Grid, n: int) -> Seq<char>
    decreases n,
{
    if n <= 0 {
        Seq::empty()
    } else {
        (rows_text(grid, n - 1) + printed_cells(grid, n - 1)).push('\n')
    }
}

/// What was printed in the cells of a row.
pub open spec fn printed_cells(grid: Grid, row: int) -> Seq<char> {
    Seq::new(grid.width() as nat, |col: int| grid.cell_at(row, col).ch).filter(
        |c: char| c != '\0',
    )
}

proof fn lemma_cell_text_filters(grid: Grid, row: int, n: int)
    requires
        0 <= n,
    ensures
        cell_text(grid, row, n) == Seq::new(n as nat, |col: int| grid.cell_at(row, col).ch).filter(
            |c: char| c != '\0',
        ),
    decreases n,
{
    let keep = |c: char| c != '\0';
    let all = Seq::new(n as nat, |col: int| grid.cell_at(row, col).ch);
    reveal(Seq::filter);
    if n > 0 {
        lemma_cell_text_filters(grid, row, n - 1);
        assert(all.drop_last() =~= Seq::new(
            (n - 1) as nat,
            |col: int| grid.cell_at(row, col).ch,
        ));
    } else {
        assert(all.len() == 0);
    }
}

/// The body of the HTML export reads as what was printed in the cells, row after row.
pub proof fn law_the_html_reads_as_the_buffer(grid: Grid, theme: Theme, n: int)
    requires
        0 <= n,
        grid.wf(),
    ensures
        html_text(html_rows(grid, theme, n)) == rows_text(grid, n),
{
    let none = Seq::<char>::empty();
    lemma_rows_text(grid, theme, n, none);
    assert(html_rows(grid, theme, n) + none =~= html_rows(grid, theme, n));
    assert(rows_text(grid, n) + html_text(none) =~= rows_text(grid, n));
}

proof fn lemma_rows_text(grid: Grid, theme: Theme, n: int, rest: Seq<char>)
    requires
        0 <= n,
        grid.wf(),
    ensures
        html_text(html_rows(grid, theme, n) + rest) == rows_text(grid, n) + html_text(rest),
    decreases n,
{
    if n == 0 {
        assert(html_rows(grid, theme, n) + rest =~= rest);
        assert(rows_text(grid, n) + html_text(rest) =~= html_text(rest));
    } else {
        let broken = seq!['\n'] + rest;
        let more = html_cells(grid, theme, n - 1, grid.width()) + broken;
        lemma_rows_text(grid, theme, n - 1, more);
        lemma_cells_text(grid, theme, n - 1, grid.width(), broken);
        lemma_cell_text_filters(grid, n - 1, grid.width());
        assert(broken.skip(1) =~= rest);
        assert(html_text(broken) == seq!['\n'] + html_text(rest));
        assert(html_rows(grid, theme, n) + rest =~= html_rows(grid, theme, n - 1) + more);
        assert(rows_text(grid, n - 1) + (printed_cells(grid, n - 1) + (seq!['\n'] + html_text(
            rest,
        ))) =~= rows_text(grid, n) + html_text(rest));
    }
}

/// What a line is without the white space at its end: the line up to the last character that
/// is not white.
pub proof fn law_trimming_the_end(text: Seq<char>)
    ensures
        ({
            let rest = end_trimmed(text);
            &&& rest.len() <= text.len()
            &&& rest == text.take(rest.len() as int)
            &&& forall|k: int| rest.len() <= k < text.len() ==> is_white(#[trigger] text[k])
            &&& rest.len() > 0 ==> !is_white(rest.last())
        }),
    decreases text.len(),
{
    if text.len() > 0 && is_white(text.last()) {
        law_trimming_the_end(text.drop_last());
        let rest = end_trimmed(text);
        assert(rest =~= text.take(rest.len() as int));
        assert forall|k: int| rest.len() <= k < text.len() implies is_white(#[trigger] text[k]) by {
            if k < text.len() - 1 {
                assert(text.drop_last()[k] == text[k]);
            }
        }
    } else {
        assert(text.take(text.len() as int) =~= text);
    }
}

// ------------------------------------------------------------------------
// ANSI
// ------------------------------------------------------------------------

/// The numbers of an escape, which semicolons part.
pub open spec fn numbers(text: Seq<char>) -> Seq<int>
    decreases text.len(),
{
    let end = place_of(text, ';', 0);
    if 0 <= end < text.len() {
        seq![decimal_value(text.take(end))] + numbers(text.skip(end + 1))
    } else {
        seq![decimal_value(text)]
    }
}

/// The color that the numbers after 38 or 48 select.
pub open spec fn selected_color(args: Seq<int>) -> Color {
    if args.len() == 3 && args[1] == 5 {
        Color::Indexed(args[2] as u8)
    } else if args.len() == 5 && args[1] == 2 {
        Color::Rgb { r: args[2] as u8, g: args[3] as u8, b: args[4] as u8 }
    } else {
        Color::Default
    }
}

/// The style that the numbers of an escape select, from `style` on.
pub open spec fn selected(style: Style, args: Seq<int>) -> Style {
    if args[0] == 0 {
        Style {
            background: Color::Default,
            bold: false,
            foreground: Color::Default,
            italic: false,
            reversed: false,
            underline: false,
        }
    } else if args[0] == 1 {
        Style { bold: true, ..style }
    } else if args[0] == 3 {
        Style { italic: true, ..style }
    } else if args[0] == 4 {
        Style { underline: true, ..style }
    } else if args[0] == 7 {
        Style { reversed: true, ..style }
    } else if args[0] == 38 {
        Style { foreground: selected_color(args), ..style }
    } else if args[0] == 48 {
        Style { background: selected_color(args), ..style }
    } else {
        style
    }
}

/// What a terminal draws for `text`: each character in the style that the escapes before it
/// select, from `style` on.
#[verifier::opaque]
pub open spec fn drawn_cells(text: Seq<char>, style: Style) -> Seq<Cell>
    decreases text.len(),
{
    if text.len() == 0 {
        Seq::empty()
    } else if text.len() > 1 && text[0] == '\x1b' && text[1] == '[' {
        let end = place_of(text, 'm', 0);
        if 2 <= end < text.len() {
            drawn_cells(text.skip(end + 1), selected(style, numbers(text.subrange(2, end))))
        } else {
            Seq::empty()
        }
    } else {
        seq![Cell { ch: text[0], style }] + drawn_cells(text.skip(1), style)
    }
}

/// The style selected after `text`.
#[verifier::opaque]
pub open spec fn style_left(text: Seq<char>, style: Style) -> Style
    decreases text.len(),
{
    if text.len() == 0 {
        style
    } else if text.len() > 1 && text[0] == '\x1b' && text[1] == '[' {
        let end = place_of(text, 'm', 0);
        if 2 <= end < text.len() {
            style_left(text.skip(end + 1), selected(style, numbers(text.subrange(2, end))))
        } else {
            style
        }
    } else {
        style_left(text.skip(1), style)
    }
}

/// One escape.
spec fn escape(args: Seq<char>) -> Seq<char> {
    seq!['\x1b', '['] + args + seq!['m']
}

proof fn lemma_escape(args: Seq<char>, rest: Seq<char>, style: Style)
    requires
        lacks(args, 'm'),
    ensures
        drawn_cells(escape(args) + rest, style) == drawn_cells(
            rest,
            selected(style, numbers(args)),
        ),
        style_left(escape(args) + rest, style) == style_left(
            rest,
            selected(style, numbers(args)),
        ),
{
    reveal(drawn_cells);
    reveal(style_left);
    let a = seq!['\x1b', '['] + args;
    assert forall|k: int| 0 <= k < a.len() implies #[trigger] a[k] != 'm' by {
        if k >= 2 {
            assert(a[k] == args[k - 2]);
        }
    }
    lemma_place_after(a, 'm', rest);
    let text = escape(args) + rest;
    assert(text =~= a.push('m') + rest);
    assert(text.subrange(2, a.len() as int) =~= args);
    assert(text[0] == '\x1b' && text[1] == '[');
}

proof fn lemma_char_drawn(c: char, rest: Seq<char>, style: Style)
    requires
        c != '\x1b',
    ensures
        drawn_cells(seq![c] + rest, style) == seq![Cell { ch: c, style }] + drawn_cells(
            rest,
            style,
        ),
        style_left(seq![c] + rest, style) == style_left(rest, style),
        drawn_cells(seq![c], style) == seq![Cell { ch: c, style }],
        style_left(seq![c], style) == style,
{
    reveal(drawn_cells);
    reveal(style_left);
    assert((seq![c] + rest)[0] == c);
    assert((seq![c] + rest).skip(1) =~= rest);
    assert(seq![c].skip(1) =~= Seq::empty());
    assert(drawn_cells(seq![c].skip(1), style) =~= Seq::empty());
    assert(style_left(seq![c].skip(1), style) == style);
    assert(drawn_cells(seq![c], style) =~= seq![Cell { ch: c, style }]);
}

pub proof fn lemma_number(head: Seq<char>, rest: Seq<char>)
    requires
        lacks(head, ';'),
    ensures
        numbers(head.push(';') + rest) == seq![decimal_value(head)] + numbers(rest),
        numbers(head) == seq![decimal_value(head)],
{
    lemma_place_after(head, ';', rest);
    lemma_no_place(head, ';', 0);
}

pub proof fn lemma_digits(n: nat)
    ensures
        decimal_value(decimal(n)) == n,
        lacks(decimal(n), ';'),
        lacks(decimal(n), 'm'),
{
    lemma_decimal_reads_back(n);
    assert forall|k: int| 0 <= k < decimal(n).len() implies #[trigger] decimal(n)[k] != ';'
        && decimal(n)[k] != 'm' by {
        assert(crate::text::is_digit(decimal(n)[k]));
    }
}

proof fn lemma_one_digit(c: char)
    ensures
        numbers(seq![c]) == seq![c as int - '0' as int] || c == ';',
{
    if c != ';' {
        lemma_number(seq![c], Seq::empty());
        assert(seq![c].drop_last() =~= Seq::empty());
        assert(decimal_value(Seq::empty()) == 0);
    }
}

proof fn lemma_two_digits(a: char, b: char)
    ensures
        decimal_value(seq![a, b]) == (a as int - '0' as int) * 10 + (b as int - '0' as int),
{
    assert(seq![a, b].drop_last() =~= seq![a]);
    assert(seq![a].drop_last() =~= Seq::empty());
    assert(decimal_value(Seq::empty()) == 0);
    assert(decimal_value(seq![a]) == a as int - '0' as int);
}

/// The numbers of an escape that selects a color.
spec fn color_args(lead: Seq<char>, color: Color) -> Seq<char> {
    match color {
        Color::Default => Seq::empty(),
        Color::Indexed(i) => lead.push(';') + (seq!['5'].push(';') + decimal(i as nat)),
        Color::Rgb { r, g, b } => lead.push(';') + (seq!['2'].push(';') + (decimal(r as nat).push(
            ';',
        ) + (decimal(g as nat).push(';') + decimal(b as nat)))),
    }
}

proof fn lemma_color_args(lead: Seq<char>, color: Color)
    requires
        lead == seq!['3', '8'] || lead == seq!['4', '8'],
        color !is Default,
    ensures
        ({
            let args = numbers(color_args(lead, color));
            &&& args[0] == (if lead == seq!['3', '8'] {
                38int
            } else {
                48int
            })
            &&& selected_color(args) == color
        }),
        lacks(color_args(lead, color), 'm'),
{
    lemma_two_digits('3', '8');
    lemma_two_digits('4', '8');
    assert(seq!['3', '8'][0] == '3' && seq!['4', '8'][0] == '4');
    lemma_one_digit('5');
    lemma_one_digit('2');
    lemma_number(seq!['5'], Seq::empty());
    lemma_number(seq!['2'], Seq::empty());
    match color {
        Color::Indexed(i) => {
            lemma_digits(i as nat);
            let t1 = seq!['5'].push(';') + decimal(i as nat);
            lemma_number(decimal(i as nat), Seq::empty());
            lemma_number(seq!['5'], decimal(i as nat));
            lemma_number(lead, t1);
            let args = numbers(color_args(lead, color));
            assert(args =~= seq![decimal_value(lead), 5, i as int]);
            assert forall|k: int| 0 <= k < color_args(lead, color).len() implies
                #[trigger] color_args(lead, color)[k] != 'm' by {
                let all = color_args(lead, color);
                if k >= 5 {
                    assert(all[k] == decimal(i as nat)[k - 5]);
                }
            }
        },
        Color::Rgb { r, g, b } => {
            lemma_digits(r as nat);
            lemma_digits(g as nat);
            lemma_digits(b as nat);
            let (dr, dg, db) = (decimal(r as nat), decimal(g as nat), decimal(b as nat));
            let t3 = dg.push(';') + db;
            let t2 = dr.push(';') + t3;
            let t1 = seq!['2'].push(';') + t2;
            lemma_number(db, Seq::empty());
            lemma_number(dg, db);
            lemma_number(dr, t3);
            lemma_number(seq!['2'], t2);
            lemma_number(lead, t1);
            let args = numbers(color_args(lead, color));
            assert(args =~= seq![decimal_value(lead), 2, r as int, g as int, b as int]);
            lemma_join_lacks(dg, db);
            lemma_join_lacks(dr, t3);
            lemma_join_lacks(seq!['2'], t2);
            lemma_join_lacks(lead, t1);
        },
        Color::Default => {},
    }
}

proof fn lemma_join_lacks(a: Seq<char>, b: Seq<char>)
    requires
        lacks(a, 'm'),
        lacks(b, 'm'),
    ensures
        lacks(a.push(';') + b, 'm'),
{
    let all = a.push(';') + b;
    assert forall|k: int| 0 <= k < all.len() implies #[trigger] all[k] != 'm' by {
        if k < a.len() {
            assert(all[k] == a[k]);
        } else if k > a.len() {
            assert(all[k] == b[k - a.len() - 1]);
        }
    }
}

/// The escape that selects a color, written out.
proof fn lemma_color_code(front: bool, color: Color)
    requires
        color !is Default,
    ensures
        front ==> color_escape("\x1b[38"@, color) == escape(color_args(seq!['3', '8'], color)),
        !front ==> color_escape("\x1b[48"@, color) == escape(color_args(seq!['4', '8'], color)),
{
    reveal_strlit("\x1b[38");
    reveal_strlit("\x1b[48");
    reveal_strlit(";5;");
    reveal_strlit(";2;");
    reveal_strlit(";");
    reveal_strlit("m");
    if front {
        assert(color_escape("\x1b[38"@, color) =~= escape(color_args(seq!['3', '8'], color)));
    } else {
        assert(color_escape("\x1b[48"@, color) =~= escape(color_args(seq!['4', '8'], color)));
    }
}

proof fn lemma_codes()
    ensures
        "\x1b[0m"@ == seq!['\x1b', '[', '0', 'm'],
        "\x1b[1m"@ == seq!['\x1b', '[', '1', 'm'],
        "\x1b[3m"@ == seq!['\x1b', '[', '3', 'm'],
        "\x1b[4m"@ == seq!['\x1b', '[', '4', 'm'],
        "\x1b[7m"@ == seq!['\x1b', '[', '7', 'm'],
{
    reveal_strlit("\x1b[0m");
    reveal_strlit("\x1b[1m");
    reveal_strlit("\x1b[3m");
    reveal_strlit("\x1b[4m");
    reveal_strlit("\x1b[7m");
    assert("\x1b[0m"@ =~= seq!['\x1b', '[', '0', 'm']);
    assert("\x1b[1m"@ =~= seq!['\x1b', '[', '1', 'm']);
    assert("\x1b[3m"@ =~= seq!['\x1b', '[', '3', 'm']);
    assert("\x1b[4m"@ =~= seq!['\x1b', '[', '4', 'm']);
    assert("\x1b[7m"@ =~= seq!['\x1b', '[', '7', 'm']);
}

proof fn lemma_color_escape(front: bool, color: Color, rest: Seq<char>, style: Style)
    requires
        front ==> style.foreground is Default,
        !front ==> style.background is Default,
    ensures
        ({
            let code = if front {
                color_escape("\x1b[38"@, color)
            } else {
                color_escape("\x1b[48"@, color)
            };
            let then = if front {
                Style { foreground: color, ..style }
            } else {
                Style { background: color, ..style }
            };
            &&& drawn_cells(code + rest, style) == drawn_cells(rest, then)
            &&& style_left(code + rest, style) == style_left(rest, then)
        }),
{
    let lead = if front {
        seq!['3', '8']
    } else {
        seq!['4', '8']
    };
    assert(seq!['3', '8'][0] != seq!['4', '8'][0]);
    let code = if front {
        color_escape("\x1b[38"@, color)
    } else {
        color_escape("\x1b[48"@, color)
    };
    if color is Default {
        assert(code + rest =~= rest);
    } else {
        lemma_color_args(lead, color);
        lemma_escape(color_args(lead, color), rest, style);
        lemma_color_code(front, color);
    }
}

proof fn lemma_switch(on: bool, digit: char, code: Seq<char>, rest: Seq<char>, style: Style)
    requires
        code == seq!['\x1b', '[', digit, 'm'],
        '0' <= digit <= '9',
    ensures
        ({
            let then = if on {
                selected(style, seq![digit as int - '0' as int])
            } else {
                style
            };
            let some = crate::navigation::export::when(on, code);
            &&& drawn_cells(some + rest, style) == drawn_cells(rest, then)
            &&& style_left(some + rest, style) == style_left(rest, then)
        }),
{
    if on {
        lemma_one_digit(digit);
        lemma_escape(seq![digit], rest, style);
        assert(code =~= escape(seq![digit]));
    } else {
        assert(crate::navigation::export::when(on, code) + rest =~= rest);
    }
}

proof fn lemma_in_turn(a: Seq<char>, b: Seq<char>, c: Seq<char>)
    ensures
        a + b + c == a + (b + c),
{
    assert(a + b + c =~= a + (b + c));
}

/// The escapes that select a style select it, whatever was selected before.
pub proof fn law_a_style_is_selected(style: Style, before: Style, rest: Seq<char>)
    ensures
        drawn_cells(style_escapes(style) + rest, before) == drawn_cells(rest, style),
        style_left(style_escapes(style) + rest, before) == style_left(rest, style),
{
    lemma_codes();
    let p7 = color_escape("\x1b[48"@, style.background) + rest;
    let p6 = color_escape("\x1b[38"@, style.foreground) + p7;
    let p5 = crate::navigation::export::when(style.reversed, "\x1b[7m"@) + p6;
    let p4 = crate::navigation::export::when(style.underline, "\x1b[4m"@) + p5;
    let p3 = crate::navigation::export::when(style.italic, "\x1b[3m"@) + p4;
    let p2 = crate::navigation::export::when(style.bold, "\x1b[1m"@) + p3;
    let p1 = crate::navigation::export::when(true, "\x1b[0m"@) + p2;
    assert(style_escapes(style) + rest == p1) by {
        let q1 = "\x1b[0m"@ + crate::navigation::export::when(style.bold, "\x1b[1m"@);
        let q2 = q1 + crate::navigation::export::when(style.italic, "\x1b[3m"@);
        let q3 = q2 + crate::navigation::export::when(style.underline, "\x1b[4m"@);
        let q4 = q3 + crate::navigation::export::when(style.reversed, "\x1b[7m"@);
        let q5 = q4 + color_escape("\x1b[38"@, style.foreground);
        lemma_in_turn(q5, color_escape("\x1b[48"@, style.background), rest);
        lemma_in_turn(q4, color_escape("\x1b[38"@, style.foreground), p7);
        lemma_in_turn(q3, crate::navigation::export::when(style.reversed, "\x1b[7m"@), p6);
        lemma_in_turn(q2, crate::navigation::export::when(style.underline, "\x1b[4m"@), p5);
        lemma_in_turn(q1, crate::navigation::export::when(style.italic, "\x1b[3m"@), p4);
        lemma_in_turn(
            "\x1b[0m"@,
            crate::navigation::export::when(style.bold, "\x1b[1m"@),
            p3,
        );
    }
    let s0 = Style {
        background: Color::Default,
        bold: false,
        foreground: Color::Default,
        italic: false,
        reversed: false,
        underline: false,
    };
    let s1 = Style { bold: style.bold, ..s0 };
    let s2 = Style { italic: style.italic, ..s1 };
    let s3 = Style { underline: style.underline, ..s2 };
    let s4 = Style { reversed: style.reversed, ..s3 };
    let s5 = Style { foreground: style.foreground, ..s4 };
    lemma_switch(true, '0', "\x1b[0m"@, p2, before);
    lemma_switch(style.bold, '1', "\x1b[1m"@, p3, s0);
    lemma_switch(style.italic, '3', "\x1b[3m"@, p4, s1);
    lemma_switch(style.underline, '4', "\x1b[4m"@, p5, s2);
    lemma_switch(style.reversed, '7', "\x1b[7m"@, p6, s3);
    lemma_color_escape(true, style.foreground, p7, s4);
    lemma_color_escape(false, style.background, rest, s5);
}

/// The cells of a row in which something was printed, up to the one numbered `n`.
pub open spec fn filled_cells(grid: Grid, row: int, n: int) -> Seq<Cell> {
    Seq::new(n as nat, |col: int| grid.cell_at(row, col)).filter(|c: Cell| c.ch != '\0')
}

proof fn lemma_filled(grid: Grid, row: int, n: int)
    requires
        0 < n,
    ensures
        filled_cells(grid, row, n) == (if grid.cell_at(row, n - 1).ch == '\0' {
            filled_cells(grid, row, n - 1)
        } else {
            filled_cells(grid, row, n - 1).push(grid.cell_at(row, n - 1))
        }),
{
    let all = Seq::new(n as nat, |col: int| grid.cell_at(row, col));
    reveal(Seq::filter);
    assert(all.drop_last() =~= Seq::new((n - 1) as nat, |col: int| grid.cell_at(row, col)));
}

proof fn lemma_drawn_row(grid: Grid, row: int, n: int, rest: Seq<char>)
    requires
        0 <= n,
        forall|col: int| 0 <= col < n ==> (#[trigger] grid.cell_at(row, col)).ch != '\x1b',
    ensures
        drawn_cells(ansi_cells(grid, row, n) + rest, crate::grid::plain_style()) == filled_cells(
            grid,
            row,
            n,
        ) + drawn_cells(rest, style_after(grid, row, n)),
        style_left(ansi_cells(grid, row, n) + rest, crate::grid::plain_style()) == style_left(
            rest,
            style_after(grid, row, n),
        ),
    decreases n,
{
    let plain = crate::grid::plain_style();
    if n == 0 {
        assert(ansi_cells(grid, row, n) + rest =~= rest);
        reveal(Seq::filter);
        assert(filled_cells(grid, row, n) =~= Seq::empty());
        assert(filled_cells(grid, row, n) + drawn_cells(rest, plain) =~= drawn_cells(rest, plain));
    } else {
        lemma_filled(grid, row, n);
        let cell = grid.cell_at(row, n - 1);
        let before = style_after(grid, row, n - 1);
        if cell.ch == '\0' {
            lemma_drawn_row(grid, row, n - 1, rest);
        } else {
            let last = seq![cell.ch] + rest;
            let some = crate::navigation::export::when(
                cell.style != before,
                style_escapes(cell.style),
            );
            lemma_drawn_row(grid, row, n - 1, some + last);
            if cell.style != before {
                law_a_style_is_selected(cell.style, before, last);
            } else {
                assert(some + last =~= last);
            }
            lemma_char_drawn(cell.ch, rest, cell.style);
            assert(ansi_cells(grid, row, n) + rest =~= ansi_cells(grid, row, n - 1) + (some
                + last));
            assert(filled_cells(grid, row, n - 1) + (seq![cell] + drawn_cells(rest, cell.style))
                =~= filled_cells(grid, row, n) + drawn_cells(rest, cell.style));
        }
    }
}

/// A row of the export with escapes draws the row: each printed cell with its character and
/// its style, then the line break, and the style is plain again after it.
pub proof fn law_the_escapes_draw_the_row(grid: Grid, row: int)
    requires
        grid.wf(),
        forall|col: int|
            0 <= col < grid.width() ==> (#[trigger] grid.cell_at(row, col)).ch != '\x1b',
    ensures
        ({
            let plain = Style {
                background: Color::Default,
                bold: false,
                foreground: Color::Default,
                italic: false,
                reversed: false,
                underline: false,
            };
            &&& drawn_cells(ansi_row(grid, row), plain) == filled_cells(
                grid,
                row,
                grid.width(),
            ).push(Cell { ch: '\n', style: plain })
            &&& style_left(ansi_row(grid, row), plain) == plain
        }),
{
    lemma_codes();
    let plain = crate::grid::plain_style();
    let last = style_after(grid, row, grid.width());
    let some = crate::navigation::export::when(last != plain, "\x1b[0m"@);
    let nl = seq!['\n'];
    lemma_drawn_row(grid, row, grid.width(), some + nl);
    lemma_switch(last != plain, '0', "\x1b[0m"@, nl, last);
    assert(ansi_row(grid, row) =~= ansi_cells(grid, row, grid.width()) + (some + nl));
    lemma_char_drawn('\n', Seq::empty(), plain);
    assert(filled_cells(grid, row, grid.width()) + seq![Cell { ch: '\n', style: plain }]
        =~= filled_cells(grid, row, grid.width()).push(Cell { ch: '\n', style: plain }));
}

/// The cells of the first `n` rows in which something was printed, each row with a line break
/// after it.
pub open spec fn buffer_cells(grid: Grid, n: int) -> Seq<Cell>
    decreases n,
{
    if n <= 0 {
        Seq::empty()
    } else {
        (buffer_cells(grid, n - 1) + filled_cells(grid, n - 1, grid.width())).push(
            Cell { ch: '\n', style: crate::grid::plain_style() },
        )
    }
}

proof fn lemma_row_drawn(grid: Grid, row: int, rest: Seq<char>)
    requires
        grid.wf(),
        forall|col: int|
            0 <= col < grid.width() ==> (#[trigger] grid.cell_at(row, col)).ch != '\x1b',
    ensures
        drawn_cells(ansi_row(grid, row) + rest, crate::grid::plain_style()) == filled_cells(
            grid,
            row,
            grid.width(),
        ).push(Cell { ch: '\n', style: crate::grid::plain_style() }) + drawn_cells(
            rest,
            crate::grid::plain_style(),
        ),
{
    lemma_codes();
    let plain = crate::grid::plain_style();
    let last = style_after(grid, row, grid.width());
    let some = crate::navigation::export::when(last != plain, "\x1b[0m"@);
    let nl = seq!['\n'] + rest;
    lemma_drawn_row(grid, row, grid.width(), some + nl);
    lemma_switch(last != plain, '0', "\x1b[0m"@, nl, last);
    lemma_char_drawn('\n', rest, plain);
    assert(ansi_row(grid, row) + rest =~= ansi_cells(grid, row, grid.width()) + (some + nl));
    let cells = filled_cells(grid, row, grid.width());
    let end = Cell { ch: '\n', style: plain };
    assert(cells + (seq![end] + drawn_cells(rest, plain)) =~= cells.push(end) + drawn_cells(
        rest,
        plain,
    ));
}

proof fn lemma_rows_drawn(grid: Grid, n: int, rest: Seq<char>)
    requires
        grid.wf(),
        0 <= n,
        forall|row: int, col: int|
            0 <= row < n && 0 <= col < grid.width() ==> (#[trigger] grid.cell_at(row, col)).ch
                != '\x1b',
    ensures
        drawn_cells(ansi_rows(grid, n) + rest, crate::grid::plain_style()) == buffer_cells(grid, n)
            + drawn_cells(rest, crate::grid::plain_style()),
    decreases n,
{
    let plain = crate::grid::plain_style();
    if n == 0 {
        assert(ansi_rows(grid, n) + rest =~= rest);
        assert(buffer_cells(grid, n) + drawn_cells(rest, plain) =~= drawn_cells(rest, plain));
    } else {
        let more = ansi_row(grid, n - 1) + rest;
        lemma_rows_drawn(grid, n - 1, more);
        lemma_row_drawn(grid, n - 1, rest);
        assert(ansi_rows(grid, n) + rest =~= ansi_rows(grid, n - 1) + more);
        let end = Cell { ch: '\n', style: plain };
        let cells = filled_cells(grid, n - 1, grid.width());
        assert(buffer_cells(grid, n - 1) + (cells.push(end) + drawn_cells(rest, plain))
            =~= buffer_cells(grid, n) + drawn_cells(rest, plain));
    }
}

/// The export with escapes draws the buffer: row after row, each printed cell with its
/// character and its style.
pub proof fn law_the_escapes_draw_the_buffer(grid: Grid, n: int)
    requires
        grid.wf(),
        0 <= n,
        forall|row: int, col: int|
            0 <= row < n && 0 <= col < grid.width() ==> (#[trigger] grid.cell_at(row, col)).ch
                != '\x1b',
    ensures
        drawn_cells(ansi_rows(grid, n), crate::grid::plain_style()) == buffer_cells(grid, n),
{
    let none = Seq::<char>::empty();
    lemma_rows_drawn(grid, n, none);
    reveal(drawn_cells);
    assert(ansi_rows(grid, n) + none =~= ansi_rows(grid, n));
    assert(buffer_cells(grid, n) + drawn_cells(none, crate::grid::plain_style()) =~= buffer_cells(
        grid,
        n,
    ));
}

/// Whether `lead` stands in `text` at `at`, and a color after it.
pub open spec fn color_follows(text: Seq<char>, lead: Seq<char>, at: int, c: Rgb) -> bool {
    &&& 0 <= at
    &&& at + lead.len() + 7 <= text.len()
    &&& text.subrange(at, at + lead.len()) == lead
    &&& names_color(text.subrange(at + lead.len(), at + lead.len() + 7), c)
}

/// The page is drawn on the theme's background in the theme's foreground, and its text is
/// the body.
pub proof fn law_the_page_has_the_colors_of_the_theme(body: Seq<char>, theme: Theme)
    ensures
        exists|at: int| #[trigger]
            color_follows(
                html_document(body, theme),
                "\n  background-color: "@,
                at,
                theme.background,
            ),
        exists|at: int| #[trigger]
            color_follows(html_document(body, theme), "\n  color: "@, at, theme.foreground),
        exists|at: int|
            0 <= at && at + body.len() + 11 <= html_document(body, theme).len()
                && #[trigger] html_document(body, theme).subrange(at, at + body.len() + 11)
                == "<pre>"@ + body + "</pre>"@,
{
    let top = "<!DOCTYPE html>\n<html>\n<head>\n<meta charset=\"utf-8\">\n<title>Winter Terminal Scrollback Export</title>\n<style>\nbody {\n  background-color: "@;
    let rest = ";\n  font-family: monospace;\n  margin: 16px;\n  line-height: 1.2;\n}\npre {\n  margin: 0;\n  white-space: pre-wrap;\n  word-break: break-all;\n}\n</style>\n</head>\n<body>\n<pre>"@;
    let tail = "</pre>\n</body>\n</html>\n"@;
    let mid = ";\n  color: "@;
    reveal_strlit(
        "<!DOCTYPE html>\n<html>\n<head>\n<meta charset=\"utf-8\">\n<title>Winter Terminal Scrollback Export</title>\n<style>\nbody {\n  background-color: ",
    );
    reveal_strlit("\n  background-color: ");
    reveal_strlit(
        ";\n  font-family: monospace;\n  margin: 16px;\n  line-height: 1.2;\n}\npre {\n  margin: 0;\n  white-space: pre-wrap;\n  word-break: break-all;\n}\n</style>\n</head>\n<body>\n<pre>",
    );
    reveal_strlit("</pre>\n</body>\n</html>\n");
    reveal_strlit(";\n  color: ");
    reveal_strlit("\n  color: ");
    reveal_strlit("<pre>");
    reveal_strlit("</pre>");
    let back = hex_color(theme.background);
    let front = hex_color(theme.foreground);
    law_a_color_reads_back(theme.background);
    law_a_color_reads_back(theme.foreground);
    let doc = html_document(body, theme);
    let a = top.len() - 21;
    assert(doc.subrange(a, top.len() as int) =~= "\n  background-color: "@);
    assert(doc.subrange(top.len() as int, top.len() as int + 7) =~= back);
    assert(color_follows(doc, "\n  background-color: "@, a, theme.background));
    let b = top.len() as int + 7 + 1;
    assert(doc.subrange(b, b + 10) =~= "\n  color: "@);
    assert(doc.subrange(b + 10, b + 17) =~= front);
    assert(color_follows(doc, "\n  color: "@, b, theme.foreground));
    let c = top.len() + 7 + mid.len() + 7 + rest.len() - 5;
    assert(doc.subrange(c, c + body.len() + 11) =~= "<pre>"@ + body + "</pre>"@);
}

} // verus!
