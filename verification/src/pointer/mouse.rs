//! What a program that tracks the mouse is sent.

use vstd::prelude::*;
use crate::navigation::readers::{lemma_digits, lemma_number, numbers};
use crate::text::{decimal, decimal_chars, least, min_of};

verus! {

/// The last cell that a legacy report can name: a coordinate is one byte.
pub const LEGACY_MOUSE_MAX_CELL: usize = 222;

/// What a legacy report adds to each of its bytes, to keep clear of control
/// characters.
pub const MOUSE_CB_OFFSET: u8 = 32;

/// The button of a wheel notch away from the user.
pub const WHEEL_UP: u8 = 64;

/// The button of a wheel notch toward the user.
pub const WHEEL_DOWN: u8 = 65;

/// A button of the mouse.
#[derive(Clone, Copy, Debug, PartialEq, Eq, Structural)]
pub enum MouseButton {
    Back,
    Forward,
    Left,
    Middle,
    Other,
    Right,
}

/// The code of a character that is one byte in UTF-8.
pub open spec fn ascii_byte(c: char) -> u8 {
    c as u8
}

/// Text of one byte a character, as bytes.
pub open spec fn ascii(text: Seq<char>) -> Seq<u8> {
    Seq::new(text.len(), |i: int| ascii_byte(text[i]))
}

fn byte_of(c: char) -> (r: u8)
    requires
        (c as int) < 128,
    ensures
        r == ascii_byte(c),
{
    c as u8
}

proof fn lemma_decimal_is_ascii(n: nat)
    ensures
        forall|i: int| 0 <= i < decimal(n).len() ==> (#[trigger] decimal(n)[i] as int) < 128,
    decreases n,
{
    if n >= 10 {
        lemma_decimal_is_ascii(n / 10);
        let before = decimal(n / 10);
        assert forall|i: int| 0 <= i < decimal(n).len() implies (#[trigger] decimal(n)[i] as int)
            < 128 by {
            if i < before.len() {
                assert(decimal(n)[i] == before[i]);
            }
        }
    }
}

/// Append `n` in decimal.
fn push_decimal(bytes: &mut Vec<u8>, n: u64)
    ensures
        final(bytes)@ == old(bytes)@ + ascii(decimal(n as nat)),
{
    let digits = decimal_chars(n);
    proof {
        lemma_decimal_is_ascii(n as nat);
    }
    let mut i: usize = 0;
    let ghost whole = ascii(decimal(n as nat));
    while i < digits.len()
        invariant
            i <= digits@.len(),
            digits@ == decimal(n as nat),
            whole == ascii(decimal(n as nat)),
            forall|i: int| 0 <= i < digits@.len() ==> (#[trigger] digits@[i] as int) < 128,
            bytes@ == old(bytes)@ + whole.take(i as int),
        decreases digits@.len() - i,
    {
        assert((digits@[i as int] as int) < 128);
        bytes.push(byte_of(digits[i]));
        assert(whole.take(i + 1) =~= whole.take(i as int).push(whole[i as int]));
        assert(bytes@ =~= old(bytes)@ + whole.take(i + 1));
        i = i + 1;
    }
    assert(whole.take(i as int) =~= whole);
}

/// A report in the extended protocol: the button, the column and the row from 1,
/// and whether the button went down (`M`) or came up (`m`).
pub open spec fn sgr_report(btn_code: u8, col: int, row: int, pressed: bool) -> Seq<u8> {
    seq![27u8, 91, 60] + ascii(decimal(btn_code as nat)) + seq![59u8] + ascii(
        decimal((col + 1) as nat),
    ) + seq![59u8] + ascii(decimal((row + 1) as nat)) + seq![
        if pressed {
            77u8
        } else {
            109u8
        },
    ]
}

/// A report in the extended protocol. The button's code is the same whether it goes
/// down or comes up.
pub fn sgr_mouse_bytes(btn_code: u8, col: usize, row: usize, pressed: bool) -> (r: Vec<u8>)
    requires
        col < usize::MAX,
        row < usize::MAX,
    ensures
        r@ == sgr_report(btn_code, col as int, row as int, pressed),
{
    let mut bytes: Vec<u8> = Vec::new();
    bytes.push(27);
    bytes.push(91);
    bytes.push(60);
    push_decimal(&mut bytes, btn_code as u64);
    bytes.push(59);
    push_decimal(&mut bytes, (col + 1) as u64);
    bytes.push(59);
    push_decimal(&mut bytes, (row + 1) as u64);
    bytes.push(
        if pressed {
            77
        } else {
            109
        },
    );
    assert(bytes@ =~= sgr_report(btn_code, col as int, row as int, pressed));
    bytes
}

/// How a legacy report names a cell: from 1, with the offset, and no further than
/// the last it can name.
pub open spec fn legacy_cell(cell: int) -> int {
    MOUSE_CB_OFFSET + least(cell, LEGACY_MOUSE_MAX_CELL as int) + 1
}

/// A legacy report: a byte each for the button, the column and the row.
pub open spec fn legacy_report(code: u8, col: int, row: int) -> Seq<u8> {
    seq![
        27u8,
        91,
        77,
        (MOUSE_CB_OFFSET + code) as u8,
        legacy_cell(col) as u8,
        legacy_cell(row) as u8,
    ]
}

fn legacy_byte(cell: usize) -> (r: u8)
    ensures
        r == legacy_cell(cell as int),
{
    MOUSE_CB_OFFSET + (min_of(cell, LEGACY_MOUSE_MAX_CELL) as u8) + 1
}

fn legacy_bytes(code: u8, col: usize, row: usize) -> (r: Vec<u8>)
    requires
        code < 128,
    ensures
        r@ == legacy_report(code, col as int, row as int),
{
    let mut bytes: Vec<u8> = Vec::new();
    bytes.push(27);
    bytes.push(91);
    bytes.push(77);
    bytes.push(MOUSE_CB_OFFSET + code);
    bytes.push(legacy_byte(col));
    bytes.push(legacy_byte(row));
    assert(bytes@ =~= legacy_report(code, col as int, row as int));
    bytes
}

/// The report of one wheel notch.
pub open spec fn wheel_report(sgr: bool, scroll_up: bool, col: int, row: int) -> Seq<u8> {
    let code = if scroll_up {
        WHEEL_UP
    } else {
        WHEEL_DOWN
    };
    if sgr {
        sgr_report(code, col, row, true)
    } else {
        legacy_report(code, col, row)
    }
}

/// The report of one wheel notch, whatever the notch would scroll here: the program
/// decides how far it moves its own view.
pub fn wheel_bytes(sgr: bool, scroll_up: bool, col: usize, row: usize) -> (r: Vec<u8>)
    requires
        col < usize::MAX,
        row < usize::MAX,
    ensures
        r@ == wheel_report(sgr, scroll_up, col as int, row as int),
{
    let code: u8 = if scroll_up {
        WHEEL_UP
    } else {
        WHEEL_DOWN
    };
    if sgr {
        sgr_mouse_bytes(code, col, row, true)
    } else {
        legacy_bytes(code, col, row)
    }
}

/// The code of a button that can be reported.
pub open spec fn button_code(button: MouseButton) -> Option<u8> {
    match button {
        MouseButton::Left => Some(0),
        MouseButton::Middle => Some(1),
        MouseButton::Right => Some(2),
        MouseButton::Forward => Some(4),
        MouseButton::Back => Some(5),
        MouseButton::Other => None,
    }
}

/// The report of a button: the extended one, or a legacy one, in which a button that
/// comes up is coded three higher.
pub open spec fn button_report(
    sgr: bool,
    button: MouseButton,
    pressed: bool,
    col: int,
    row: int,
) -> Option<Seq<u8>> {
    match button_code(button) {
        Some(code) => Some(
            if sgr {
                sgr_report(code, col, row, pressed)
            } else if pressed {
                legacy_report(code, col, row)
            } else {
                legacy_report((code + 3) as u8, col, row)
            },
        ),
        None => None,
    }
}

/// Bytes that may be missing.
pub open spec fn bytes_view(bytes: Option<Vec<u8>>) -> Option<Seq<u8>> {
    match bytes {
        Some(b) => Some(b@),
        None => None,
    }
}

/// The report of a button that went down or came up; `None` for one that cannot be
/// reported.
pub fn button_bytes(sgr: bool, button: MouseButton, pressed: bool, col: usize, row: usize) -> (r:
    Option<Vec<u8>>)
    requires
        col < usize::MAX,
        row < usize::MAX,
    ensures
        bytes_view(r) == button_report(sgr, button, pressed, col as int, row as int),
{
    let code: u8 = match button {
        MouseButton::Left => 0,
        MouseButton::Middle => 1,
        MouseButton::Right => 2,
        MouseButton::Forward => 4,
        MouseButton::Back => 5,
        MouseButton::Other => {
            return None;
        },
    };
    Some(
        if sgr {
            sgr_mouse_bytes(code, col, row, pressed)
        } else if pressed {
            legacy_bytes(code, col, row)
        } else {
            legacy_bytes(code + 3, col, row)
        },
    )
}

/// The report of a motion with the left button held.
pub open spec fn motion_report(sgr: bool, col: int, row: int) -> Seq<u8> {
    if sgr {
        sgr_report(32, col, row, true)
    } else {
        legacy_report(32, col, row)
    }
}

/// The report of a motion with the left button held.
pub fn motion_bytes(sgr: bool, col: usize, row: usize) -> (r: Vec<u8>)
    requires
        col < usize::MAX,
        row < usize::MAX,
    ensures
        r@ == motion_report(sgr, col as int, row as int),
{
    if sgr {
        sgr_mouse_bytes(32, col, row, true)
    } else {
        legacy_bytes(32, col, row)
    }
}

/// A coordinate of a legacy report is never a control character: it is above the
/// offset.
pub proof fn law_legacy_coordinates_clear_the_controls(cell: int)
    requires
        0 <= cell,
    ensures
        MOUSE_CB_OFFSET < legacy_cell(cell) <= u8::MAX,
        cell >= LEGACY_MOUSE_MAX_CELL ==> legacy_cell(cell) == legacy_cell(
            LEGACY_MOUSE_MAX_CELL as int,
        ),
{
}

/// Bytes of one character each, as text.
pub open spec fn as_text(bytes: Seq<u8>) -> Seq<char> {
    Seq::new(bytes.len(), |i: int| bytes[i] as char)
}

/// Whether `report` is an extended one: an escape character, a bracket and a `<`, then the
/// numbers of the button, the column and the row, parted by semicolons, and last an `M` for a
/// button that is down and an `m` for one that came up.
pub open spec fn tells(report: Seq<u8>, button: int, col: int, row: int, down: bool) -> bool {
    &&& report.len() > 4
    &&& report[0] == 0x1b && report[1] == '[' as u8 && report[2] == '<' as u8
    &&& report.last() == (if down {
        'M' as u8
    } else {
        'm' as u8
    })
    &&& numbers(as_text(report.subrange(3, report.len() - 1))) == seq![button, col, row]
}

/// Whether `report` is a legacy one: an escape character, a bracket and an `M`, then the
/// button, the column and the row, a byte each and each 32 higher.
pub open spec fn tells_legacy(report: Seq<u8>, button: int, col: int, row: int) -> bool {
    &&& report.len() == 6
    &&& report[0] == 0x1b && report[1] == '[' as u8 && report[2] == 'M' as u8
    &&& report[3] == button + 32
    &&& report[4] == col + 32
    &&& report[5] == row + 32
}

proof fn lemma_ascii_char(c: char)
    requires
        (c as int) < 128,
    ensures
        ascii_byte(c) as char == c,
{
}

proof fn lemma_ascii_digits(n: nat)
    ensures
        as_text(ascii(decimal(n))) == decimal(n),
{
    lemma_decimal_is_ascii(n);
    assert forall|i: int| 0 <= i < decimal(n).len() implies as_text(ascii(decimal(n)))[i]
        == #[trigger] decimal(n)[i] by {
        lemma_ascii_char(decimal(n)[i]);
    }
    assert(as_text(ascii(decimal(n))) =~= decimal(n));
}

proof fn lemma_sgr_report(btn_code: u8, col: int, row: int, pressed: bool)
    requires
        0 <= col,
        0 <= row,
    ensures
        tells(
            sgr_report(btn_code, col, row, pressed),
            btn_code as int,
            col + 1,
            row + 1,
            pressed,
        ),
{
    let report = sgr_report(btn_code, col, row, pressed);
    let (a, b, c) = (decimal(btn_code as nat), decimal((col + 1) as nat), decimal(
        (row + 1) as nat,
    ));
    lemma_ascii_digits(btn_code as nat);
    lemma_ascii_digits((col + 1) as nat);
    lemma_ascii_digits((row + 1) as nat);
    lemma_digits(btn_code as nat);
    lemma_digits((col + 1) as nat);
    lemma_digits((row + 1) as nat);
    crate::text::lemma_decimal_reads_back(btn_code as nat);
    let inner = as_text(report.subrange(3, report.len() - 1));
    assert(inner =~= a.push(';') + (b.push(';') + c)) by {
        assert(as_text(ascii(a)) == a);
        assert(as_text(ascii(b)) == b);
        assert(as_text(ascii(c)) == c);
        let whole = a.push(';') + (b.push(';') + c);
        assert(inner.len() == whole.len());
        assert forall|i: int| 0 <= i < inner.len() implies inner[i] == whole[i] by {
            assert(inner[i] == report[i + 3] as char);
            if i < a.len() {
                assert(report[i + 3] == ascii(a)[i]);
                assert(as_text(ascii(a))[i] == a[i]);
            } else if i == a.len() {
                assert(report[i + 3] == 59u8);
            } else if i < a.len() + 1 + b.len() {
                assert(report[i + 3] == ascii(b)[i - a.len() - 1]);
                assert(as_text(ascii(b))[i - a.len() - 1] == b[i - a.len() - 1]);
            } else if i == a.len() + 1 + b.len() {
                assert(report[i + 3] == 59u8);
            } else {
                let k = i - a.len() - b.len() - 2;
                assert(report[i + 3] == ascii(c)[k]);
                assert(as_text(ascii(c))[k] == c[k]);
            }
        }
    }
    lemma_number(c, Seq::empty());
    lemma_number(b, c);
    lemma_number(a, b.push(';') + c);
    assert(numbers(inner) =~= seq![btn_code as int, col + 1, row + 1]);
}

/// A program is told which button it was and where: the left one is 0, the middle one 1 and
/// the right one 2, forward is 4 and back is 5, and cells count from 1. A legacy report tells
/// no cell beyond the last it can name, and codes a button that comes up three higher.
pub proof fn law_a_report_tells_the_button_and_the_cell(
    button: MouseButton,
    pressed: bool,
    col: int,
    row: int,
)
    requires
        0 <= col,
        0 <= row,
    ensures
        ({
            let code: int = match button {
                MouseButton::Left => 0,
                MouseButton::Middle => 1,
                MouseButton::Right => 2,
                MouseButton::Forward => 4,
                MouseButton::Back => 5,
                MouseButton::Other => -1,
            };
            let x = if col > 222 {
                223
            } else {
                col + 1
            };
            let y = if row > 222 {
                223
            } else {
                row + 1
            };
            match (
                button_report(true, button, pressed, col, row),
                button_report(false, button, pressed, col, row),
            ) {
                (Some(sgr), Some(old)) => {
                    &&& button != MouseButton::Other
                    &&& tells(sgr, code, col + 1, row + 1, pressed)
                    &&& tells_legacy(
                        old,
                        if pressed {
                            code
                        } else {
                            code + 3
                        },
                        x,
                        y,
                    )
                },
                (None, None) => button == MouseButton::Other,
                _ => false,
            }
        }),
{
    if let Some(code) = button_code(button) {
        lemma_sgr_report(code, col, row, pressed);
    }
}

/// A notch of the wheel is told as button 64 when it scrolls up and as 65 when it scrolls
/// down, and a motion with the left button held as 32, each at its cell.
pub proof fn law_a_report_tells_the_wheel_and_the_motion(up: bool, col: int, row: int)
    requires
        0 <= col <= 222,
        0 <= row <= 222,
    ensures
        tells(
            wheel_report(true, up, col, row),
            if up {
                64
            } else {
                65
            },
            col + 1,
            row + 1,
            true,
        ),
        tells_legacy(
            wheel_report(false, up, col, row),
            if up {
                64
            } else {
                65
            },
            col + 1,
            row + 1,
        ),
        tells(motion_report(true, col, row), 32, col + 1, row + 1, true),
        tells_legacy(motion_report(false, col, row), 32, col + 1, row + 1),
{
    lemma_sgr_report(64, col, row, true);
    lemma_sgr_report(65, col, row, true);
    lemma_sgr_report(32, col, row, true);
}

} // verus!
