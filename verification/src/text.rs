//! Characters, strings and numbers as text.

use vstd::prelude::*;

verus! {

// ------------------------------------------------------------------------
// Characters
// ------------------------------------------------------------------------

/// Whether `c` has Unicode's `White_Space` property.
pub open spec fn is_white(c: char) -> bool {
    ||| 0x9 <= c as int <= 0xd
    ||| c as int == 0x20
    ||| c as int == 0x85
    ||| c as int == 0xa0
    ||| c as int == 0x1680
    ||| 0x2000 <= c as int <= 0x200a
    ||| c as int == 0x2028
    ||| c as int == 0x2029
    ||| c as int == 0x202f
    ||| c as int == 0x205f
    ||| c as int == 0x3000
}

/// Whether `c` is in Unicode's control category, `Cc`.
pub open spec fn is_control_char(c: char) -> bool {
    c as int <= 0x1f || 0x7f <= c as int <= 0x9f
}

/// Whether `c` is one of `a` to `z`.
pub open spec fn is_ascii_lower(c: char) -> bool {
    'a' as int <= c as int <= 'z' as int
}

/// Whether `c` is one of `A` to `Z`.
pub open spec fn is_ascii_upper(c: char) -> bool {
    'A' as int <= c as int <= 'Z' as int
}

/// Whether `c` is one of `0` to `9`.
pub open spec fn is_digit(c: char) -> bool {
    '0' as int <= c as int <= '9' as int
}

/// What `char::is_alphanumeric` answers for `c`.
pub uninterp spec fn is_alphanumeric_char(c: char) -> bool;

/// `char::is_whitespace`: whether a character has the `White_Space` property.
pub assume_specification[ char::is_whitespace ](c: char) -> (b: bool)
    ensures
        b == is_white(c),
;

/// `char::is_control`: whether a character is in the `Cc` category.
pub assume_specification[ char::is_control ](c: char) -> (b: bool)
    ensures
        b == is_control_char(c),
;

/// `char::is_alphanumeric`: whether a character is alphabetic or numeric. The
/// answer is named, and stated for the ASCII characters: letters and digits are,
/// the others are not.
pub assume_specification[ char::is_alphanumeric ](c: char) -> (b: bool)
    ensures
        b == is_alphanumeric_char(c),
        (c as int) < 0x80 ==> b == (is_ascii_lower(c) || is_ascii_upper(c) || is_digit(c)),
;

/// What `char::is_uppercase` answers for `c`.
pub uninterp spec fn is_uppercase_char(c: char) -> bool;

/// `char::is_uppercase`: whether a character has the `Uppercase` property. The
/// answer is named, and stated for the ASCII characters: `A` to `Z` have it, the
/// others do not.
pub assume_specification[ char::is_uppercase ](c: char) -> (b: bool)
    ensures
        b == is_uppercase_char(c),
        (c as int) < 0x80 ==> b == is_ascii_upper(c),
;

/// The ASCII letter `c` in the other case, or `None` for anything else.
pub open spec fn other_case(c: char) -> Option<char> {
    if is_ascii_upper(c) {
        Some((c as int + 32) as char)
    } else if is_ascii_lower(c) {
        Some((c as int - 32) as char)
    } else {
        None
    }
}

/// The ASCII letter `c` in the other case, or `None` for anything else.
pub fn toggle_ascii_case(c: char) -> (r: Option<char>)
    ensures
        r == other_case(c),
{
    if 'A' <= c && c <= 'Z' {
        Some((c as u8 + 32) as char)
    } else if 'a' <= c && c <= 'z' {
        Some((c as u8 - 32) as char)
    } else {
        None
    }
}

// ------------------------------------------------------------------------
// Strings
// ------------------------------------------------------------------------

/// `String::push`: appends one character.
pub assume_specification[ String::push ](s: &mut String, ch: char)
    ensures
        final(s)@ == old(s)@.push(ch),
;

/// What `str::to_lowercase` makes of `text`.
pub uninterp spec fn lowered(text: Seq<char>) -> Seq<char>;

/// An ASCII character in lower case.
pub open spec fn ascii_lowered(c: char) -> char {
    if is_ascii_upper(c) {
        (c as int + 32) as char
    } else {
        c
    }
}

/// `str::to_lowercase`: the lower case of a string. The result is named, and
/// stated for ASCII text: each letter in lower case, all else as it was.
pub assume_specification[ str::to_lowercase ](s: &str) -> (r: String)
    ensures
        r@ == lowered(s@),
        vstd::utf8::is_ascii_chars(s@) ==> r@ == s@.map_values(|c: char| ascii_lowered(c)),
;

/// How many bytes UTF-8 takes for `c`.
pub open spec fn utf8_width(c: char) -> int {
    if (c as int) < 0x80 {
        1
    } else if (c as int) < 0x800 {
        2
    } else if (c as int) < 0x10000 {
        3
    } else {
        4
    }
}

/// How many bytes UTF-8 takes for `c`.
fn char_width(c: char) -> (r: usize)
    ensures
        r == utf8_width(c),
{
    let code: u32 = c as u32;
    if code < 0x80 {
        1
    } else if code < 0x800 {
        2
    } else if code < 0x10000 {
        3
    } else {
        4
    }
}

/// How many characters from index `i` on begin within the next `bytes` bytes.
pub open spec fn chars_within(text: Seq<char>, i: int, bytes: int) -> int
    decreases text.len() - i,
{
    if 0 <= i < text.len() && bytes > 0 {
        1 + chars_within(text, i + 1, bytes - utf8_width(text[i]))
    } else {
        0
    }
}

/// The character at byte offset `offset`, as an index.
pub open spec fn char_at_byte(text: Seq<char>, offset: int) -> int {
    chars_within(text, 0, offset)
}

proof fn lemma_chars_within(text: Seq<char>, i: int, a: int, b: int)
    requires
        0 <= i <= text.len(),
        a <= b,
    ensures
        0 <= chars_within(text, i, a) <= chars_within(text, i, b) <= text.len() - i,
    decreases text.len() - i,
{
    if i < text.len() {
        lemma_chars_within(text, i + 1, a - utf8_width(text[i]), b - utf8_width(text[i]));
    }
}

/// A later byte is in a later character, or the same, within the text.
pub proof fn lemma_char_at_byte(text: Seq<char>, a: int, b: int)
    requires
        a <= b,
    ensures
        0 <= char_at_byte(text, a) <= char_at_byte(text, b) <= text.len(),
{
    lemma_chars_within(text, 0, a, b);
}

/// The character at byte offset `offset`, as an index.
pub fn char_index(text: &Vec<char>, offset: usize) -> (r: usize)
    ensures
        r == char_at_byte(text@, offset as int),
        r <= text@.len(),
{
    let mut i: usize = 0;
    let mut left: usize = offset;
    while i < text.len() && left > 0
        invariant
            i <= text@.len(),
            left >= 0,
            char_at_byte(text@, offset as int) == i + chars_within(text@, i as int, left as int),
        decreases text@.len() - i,
    {
        let width: usize = char_width(text[i]);
        proof {
            if left < width {
                assert(chars_within(text@, i + 1, left - width) == 0);
                assert(chars_within(text@, i + 1, 0) == 0);
            }
        }
        left = left.saturating_sub(width);
        i = i + 1;
    }
    i
}

/// The characters of `s`, in order.
pub fn chars_of(s: &str) -> (v: Vec<char>)
    ensures
        v@ == s@,
{
    let mut v: Vec<char> = Vec::new();
    for c in it: s.chars()
        invariant
            it.seq() == s@,
            v@ == it.seq().take(it.index()),
    {
        v.push(c);
    }
    assert(s@.take(s@.len() as int) == s@);
    v
}

/// The string made of `chars[from..to]`.
pub fn string_of_range(chars: &Vec<char>, from: usize, to: usize) -> (s: String)
    requires
        from <= to <= chars@.len(),
    ensures
        s@ == chars@.subrange(from as int, to as int),
{
    let mut s = String::new();
    let mut i: usize = from;
    while i < to
        invariant
            from <= i <= to <= chars@.len(),
            s@ == chars@.subrange(from as int, i as int),
        decreases to - i,
    {
        s.push(chars[i]);
        i = i + 1;
    }
    s
}

/// The string made of `chars`.
pub fn string_of(chars: &Vec<char>) -> (s: String)
    ensures
        s@ == chars@,
{
    let s = string_of_range(chars, 0, chars.len());
    assert(chars@.subrange(0, chars@.len() as int) == chars@);
    s
}

/// The elements of `v[from..to]`.
pub fn chars_range(v: &Vec<char>, from: usize, to: usize) -> (r: Vec<char>)
    requires
        from <= to <= v@.len(),
    ensures
        r@ == v@.subrange(from as int, to as int),
{
    let mut r: Vec<char> = Vec::new();
    let mut i: usize = from;
    while i < to
        invariant
            from <= i <= to <= v@.len(),
            r@ == v@.subrange(from as int, i as int),
        decreases to - i,
    {
        r.push(v[i]);
        i = i + 1;
    }
    r
}

/// Append `more` to `v`.
pub fn append_chars(v: &mut Vec<char>, more: &Vec<char>)
    ensures
        final(v)@ == old(v)@ + more@,
{
    let mut i: usize = 0;
    while i < more.len()
        invariant
            i <= more@.len(),
            v@ == old(v)@ + more@.take(i as int),
        decreases more@.len() - i,
    {
        v.push(more[i]);
        i = i + 1;
    }
    assert(more@.take(more@.len() as int) == more@);
}

/// Append the characters of `s` to `v`.
pub fn append_str(v: &mut Vec<char>, s: &str)
    ensures
        final(v)@ == old(v)@ + s@,
{
    let more = chars_of(s);
    append_chars(v, &more);
}

/// Append `more` to `v`.
pub fn append_bytes(v: &mut Vec<u8>, more: &[u8])
    ensures
        final(v)@ == old(v)@ + more@,
{
    let mut i: usize = 0;
    while i < more.len()
        invariant
            i <= more@.len(),
            v@ == old(v)@ + more@.take(i as int),
        decreases more@.len() - i,
    {
        v.push(more[i]);
        i = i + 1;
    }
    assert(more@.take(more@.len() as int) == more@);
}

/// Whether `a` and `b` hold the same characters.
pub fn same_text(a: &str, b: &str) -> (r: bool)
    ensures
        r == (a@ == b@),
{
    let x = chars_of(a);
    let y = chars_of(b);
    same_chars(&x, &y)
}

/// Whether `x` and `y` hold the same characters.
pub fn same_chars(x: &Vec<char>, y: &Vec<char>) -> (r: bool)
    ensures
        r == (x@ == y@),
{
    if x.len() != y.len() {
        return false;
    }
    let mut i: usize = 0;
    while i < x.len()
        invariant
            i <= x@.len() == y@.len(),
            forall|j: int| 0 <= j < i ==> x@[j] == y@[j],
        decreases x@.len() - i,
    {
        if x[i] != y[i] {
            return false;
        }
        i = i + 1;
    }
    assert(x@ =~= y@);
    true
}

// ------------------------------------------------------------------------
// Numbers
// ------------------------------------------------------------------------

/// The smaller of two numbers.
pub open spec fn least(a: int, b: int) -> int {
    if a <= b {
        a
    } else {
        b
    }
}

/// The larger of two numbers.
pub open spec fn greatest(a: int, b: int) -> int {
    if a <= b {
        b
    } else {
        a
    }
}

/// `a - b`, and zero when that is negative.
pub open spec fn minus(a: int, b: int) -> int {
    if a <= b {
        0
    } else {
        a - b
    }
}

/// `x` kept within `low..=high`.
pub open spec fn clamped(x: int, low: int, high: int) -> int {
    if x < low {
        low
    } else if x > high {
        high
    } else {
        x
    }
}

/// The smaller of two numbers.
pub fn min_of(a: usize, b: usize) -> (r: usize)
    ensures
        r == least(a as int, b as int),
{
    if a <= b {
        a
    } else {
        b
    }
}

/// The larger of two numbers.
pub fn max_of(a: usize, b: usize) -> (r: usize)
    ensures
        r == greatest(a as int, b as int),
{
    if a <= b {
        b
    } else {
        a
    }
}

/// The decimal digit `d` as a character.
pub open spec fn digit_char(d: int) -> char {
    ('0' as int + d) as char
}

/// `n` written in decimal, with no leading zero.
pub open spec fn decimal(n: nat) -> Seq<char>
    decreases n,
{
    if n < 10 {
        seq![digit_char(n as int)]
    } else {
        decimal(n / 10).push(digit_char((n % 10) as int))
    }
}

/// `n` written in decimal.
pub fn decimal_chars(n: u64) -> (v: Vec<char>)
    ensures
        v@ == decimal(n as nat),
    decreases n,
{
    if n < 10 {
        let mut v: Vec<char> = Vec::new();
        v.push((48u8 + n as u8) as char);
        v
    } else {
        let mut v = decimal_chars(n / 10);
        v.push((48u8 + (n % 10) as u8) as char);
        v
    }
}

/// The value of a decimal digit.
pub open spec fn digit_value(c: char) -> int {
    c as int - '0' as int
}

/// The number that `digits` write in decimal.
pub open spec fn decimal_value(digits: Seq<char>) -> int
    decreases digits.len(),
{
    if digits.len() == 0 {
        0
    } else {
        decimal_value(digits.drop_last()) * 10 + digit_value(digits.last())
    }
}

/// Every character is a decimal digit.
pub open spec fn all_digits(s: Seq<char>) -> bool {
    forall|i: int| 0 <= i < s.len() ==> is_digit(#[trigger] s[i])
}

/// The number that `s` writes in decimal, when it is digits only, there is one,
/// and the number fits.
pub open spec fn parsed_number(s: Seq<char>) -> Option<int> {
    if s.len() > 0 && all_digits(s) && decimal_value(s) <= usize::MAX {
        Some(decimal_value(s))
    } else {
        None
    }
}

proof fn lemma_decimal_value_grows(s: Seq<char>, n: int)
    requires
        0 <= n <= s.len(),
        all_digits(s),
    ensures
        0 <= decimal_value(s.take(n)) <= decimal_value(s),
    decreases s.len() - n,
{
    if n < s.len() {
        lemma_decimal_value_grows(s, n + 1);
        assert(s.take(n + 1).drop_last() =~= s.take(n));
        lemma_decimal_value_nonneg(s.take(n));
    } else {
        assert(s.take(n) =~= s);
        lemma_decimal_value_nonneg(s);
    }
}

proof fn lemma_decimal_value_nonneg(s: Seq<char>)
    requires
        all_digits(s),
    ensures
        decimal_value(s) >= 0,
    decreases s.len(),
{
    if s.len() > 0 {
        lemma_decimal_value_nonneg(s.drop_last());
        assert(is_digit(s.last()));
    }
}

/// The number that `s` writes in decimal; `None` when it is not digits only, is
/// empty, or does not fit.
pub fn parse_number(s: &Vec<char>) -> (r: Option<usize>)
    ensures
        match r {
            Some(n) => parsed_number(s@) == Some(n as int),
            None => parsed_number(s@) is None,
        },
{
    if s.len() == 0 {
        return None;
    }
    let mut value: usize = 0;
    let mut i: usize = 0;
    while i < s.len()
        invariant
            i <= s@.len(),
            forall|j: int| 0 <= j < i ==> is_digit(#[trigger] s@[j]),
            value == decimal_value(s@.take(i as int)),
        decreases s@.len() - i,
    {
        let c: char = s[i];
        if c < '0' || c > '9' {
            assert(!is_digit(s@[i as int]));
            return None;
        }
        assert(s@.take(i + 1).drop_last() =~= s@.take(i as int));
        let digit: usize = (c as u32 - 48) as usize;
        let next: u128 = value as u128 * 10 + digit as u128;
        if next > usize::MAX as u128 {
            proof {
                if all_digits(s@) {
                    lemma_decimal_value_grows(s@, i + 1);
                }
            }
            return None;
        }
        value = next as usize;
        i = i + 1;
    }
    assert(s@.take(s@.len() as int) =~= s@);
    Some(value)
}

/// Where the white space that `text` starts with ends, from `i` on.
pub open spec fn text_start(text: Seq<char>, i: int) -> int
    decreases text.len() - i,
{
    if 0 <= i < text.len() && is_white(text[i]) {
        text_start(text, i + 1)
    } else {
        i
    }
}

/// Where the white space that the first `n` characters of `text` end with begins.
pub open spec fn text_stop(text: Seq<char>, n: int) -> int
    decreases n,
{
    if 0 < n <= text.len() && is_white(text[n - 1]) {
        text_stop(text, n - 1)
    } else {
        n
    }
}

/// `text` without the white space around it.
pub open spec fn trimmed(text: Seq<char>) -> Seq<char> {
    let stop = text_stop(text, text.len() as int);
    if text_start(text, 0) < stop {
        text.subrange(text_start(text, 0), stop)
    } else {
        Seq::empty()
    }
}

/// `text` without the white space around it.
pub fn trim_text(text: &str) -> (r: String)
    ensures
        r@ == trimmed(text@),
{
    let chars = chars_of(text);
    let total: usize = chars.len();
    let mut from: usize = 0;
    while from < total && chars[from].is_whitespace()
        invariant
            total == chars@.len(),
            from <= total,
            text_start(chars@, from as int) == text_start(chars@, 0),
        decreases total - from,
    {
        from = from + 1;
    }
    let mut to: usize = total;
    while to > 0 && chars[to - 1].is_whitespace()
        invariant
            total == chars@.len(),
            to <= total,
            text_stop(chars@, to as int) == text_stop(chars@, total as int),
        decreases to,
    {
        to = to - 1;
    }
    if from < to {
        string_of_range(&chars, from, to)
    } else {
        String::new()
    }
}

// ------------------------------------------------------------------------
// Laws
// ------------------------------------------------------------------------

pub proof fn lemma_decimal_reads_back(n: nat)
    ensures
        decimal_value(decimal(n)) == n,
        decimal(n).len() > 0,
        all_digits(decimal(n)),
    decreases n,
{
    if n >= 10 {
        lemma_decimal_reads_back(n / 10);
        assert(decimal(n).drop_last() =~= decimal(n / 10));
    } else {
        assert(decimal(n).drop_last() =~= Seq::empty());
        assert(decimal_value(decimal(n).drop_last()) == 0);
    }
}

/// A number that is written and read again is the same number.
pub proof fn law_a_number_reads_back(n: usize)
    ensures
        parsed_number(decimal(n as nat)) == Some(n as int),
        decimal(n as nat).len() > 1 ==> decimal(n as nat)[0] != '0',
{
    lemma_decimal_reads_back(n as nat);
    lemma_no_leading_zero(n as nat);
}

proof fn lemma_no_leading_zero(n: nat)
    ensures
        decimal(n).len() > 0,
        n > 0 ==> decimal(n)[0] != '0',
        n < 10 ==> decimal(n).len() == 1,
    decreases n,
{
    if n >= 10 {
        lemma_no_leading_zero(n / 10);
    }
}

/// A letter in the other case is the same letter of the other alphabet, and turned again it
/// is the letter. Nothing else has another case.
pub proof fn law_the_other_case(c: char)
    ensures
        match other_case(c) {
            Some(d) => {
                &&& 'a' <= c <= 'z' && 'A' <= d <= 'Z' || 'A' <= c <= 'Z' && 'a' <= d <= 'z'
                &&& 'a' <= c <= 'z' ==> d as int - 'A' as int == c as int - 'a' as int
                &&& 'A' <= c <= 'Z' ==> d as int - 'a' as int == c as int - 'A' as int
                &&& other_case(d) == Some(c)
            },
            None => !('a' <= c <= 'z') && !('A' <= c <= 'Z'),
        },
{
}

/// `text` without the white space at either end is a piece of it: what is left out is all
/// white, and the piece neither starts nor ends so.
pub proof fn law_trimming_takes_white_space_only(text: Seq<char>)
    ensures
        exists|a: int, b: int|
            {
                &&& 0 <= a <= b <= text.len()
                &&& #[trigger] text.subrange(a, b) == trimmed(text)
                &&& forall|k: int| 0 <= k < a ==> is_white(#[trigger] text[k])
                &&& a < b ==> !is_white(text[a]) && !is_white(text[b - 1])
                &&& forall|k: int| b <= k < text.len() ==> is_white(#[trigger] text[k])
            },
{
    lemma_text_start(text, 0);
    lemma_text_stop(text, text.len() as int);
    let a = text_start(text, 0);
    let b = text_stop(text, text.len() as int);
    if a < text.len() {
        if b <= a {
            assert(is_white(text[a]));
        }
        assert(text.subrange(a, b) == trimmed(text));
    } else {
        assert(text.subrange(a, a) =~= trimmed(text));
    }
}

proof fn lemma_text_start(text: Seq<char>, i: int)
    requires
        0 <= i <= text.len(),
    ensures
        i <= text_start(text, i) <= text.len(),
        forall|k: int| i <= k < text_start(text, i) ==> is_white(#[trigger] text[k]),
        text_start(text, i) < text.len() ==> !is_white(text[text_start(text, i)]),
    decreases text.len() - i,
{
    if i < text.len() && is_white(text[i]) {
        lemma_text_start(text, i + 1);
    }
}

proof fn lemma_text_stop(text: Seq<char>, n: int)
    requires
        0 <= n <= text.len(),
    ensures
        0 <= text_stop(text, n) <= n,
        forall|k: int| text_stop(text, n) <= k < n ==> is_white(#[trigger] text[k]),
        text_stop(text, n) > 0 ==> !is_white(text[text_stop(text, n) - 1]),
    decreases n,
{
    if n > 0 && is_white(text[n - 1]) {
        lemma_text_stop(text, n - 1);
    }
}

/// The character at the byte that the first `k` characters take in UTF-8 is the one numbered
/// `k`.
pub proof fn law_bytes_count_as_utf8_writes_them(text: Seq<char>, k: int)
    requires
        0 <= k <= text.len(),
    ensures
        char_at_byte(text, vstd::utf8::encode_utf8(text.take(k)).len() as int) == k,
{
    lemma_chars_in_bytes(text, 0, k);
    assert(text.subrange(0, k) =~= text.take(k));
}

proof fn lemma_utf8_width(c: char)
    ensures
        vstd::utf8::encode_scalar(c as u32).len() == utf8_width(c),
{
}

proof fn lemma_chars_in_bytes(text: Seq<char>, i: int, k: int)
    requires
        0 <= i <= k <= text.len(),
    ensures
        chars_within(
            text,
            i,
            vstd::utf8::encode_utf8(text.subrange(i, k)).len() as int,
        ) == k - i,
    decreases k - i,
{
    if i < k {
        let some = text.subrange(i, k);
        assert(some.drop_first() =~= text.subrange(i + 1, k));
        assert(vstd::utf8::encode_utf8(some) == vstd::utf8::encode_scalar(some[0] as u32)
            + vstd::utf8::encode_utf8(some.drop_first()));
        lemma_utf8_width(text[i]);
        lemma_chars_in_bytes(text, i + 1, k);
    }
}

} // verus!
