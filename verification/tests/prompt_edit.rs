use winter_term::input::{EditAction, Key, KeyCode};
use winter_term::prompt_edit::{
    edit_action_bytes, prompt_add_surround_bytes, prompt_change_surround_bytes,
    prompt_delete_bytes, prompt_delete_surround_bytes, prompt_replace_char_bytes,
    prompt_toggle_case_bytes, rebuild_line_bytes, word_end_after, word_start_before, PromptDelete,
    PromptLine, PromptShadow,
};

const CTRL_A: u8 = 0x01;
const CTRL_K: u8 = 0x0b;
const CTRL_U: u8 = 0x15;
const CTRL_W: u8 = 0x17;
const ALT_D: &[u8] = b"\x1bd";
const ARROW_LEFT: &[u8] = b"\x1b[D";
const ARROW_RIGHT: &[u8] = b"\x1b[C";
const KEY_DELETE: &[u8] = b"\x1b[3~";
const BRACKETED_PASTE_START: &[u8] = b"\x1b[200~";
const BRACKETED_PASTE_END: &[u8] = b"\x1b[201~";

fn ch(c: char) -> Key {
    Key { alt: false, code: KeyCode::Char(c), ctrl: false, shift: false }
}

fn typed(shadow: &mut PromptShadow, text: &str) {
    for c in text.chars() {
        let key = if c == ' ' {
            Key { code: KeyCode::Space, ..ch(' ') }
        } else {
            ch(c)
        };
        shadow.apply_insert_key(&key, true);
    }
}

fn current_text(shadow: &PromptShadow) -> String {
    shadow.current().text.clone()
}

#[test]
fn test_line_clears_without_alignment() {
    assert_eq!(prompt_delete_bytes(PromptDelete::Line, 7, 3), vec![CTRL_A, CTRL_K]);
}

#[test]
fn test_char_forward_aligns_left_then_deletes() {
    let bytes = prompt_delete_bytes(PromptDelete::CharForward, 7, 5);
    assert_eq!(bytes, [ARROW_LEFT, ARROW_LEFT, KEY_DELETE].concat());
}

#[test]
fn test_to_line_end_aligns_right_then_kills() {
    let bytes = prompt_delete_bytes(PromptDelete::ToLineEnd, 2, 4);
    assert_eq!(bytes, [ARROW_RIGHT, ARROW_RIGHT, &[CTRL_K][..]].concat());
}

#[test]
fn test_to_line_start_kills_with_ctrl_u() {
    let bytes = prompt_delete_bytes(PromptDelete::ToLineStart, 4, 4);
    assert_eq!(bytes, vec![CTRL_U]);
}

#[test]
fn test_word_back_and_forward() {
    assert_eq!(prompt_delete_bytes(PromptDelete::WordBack, 3, 3), vec![CTRL_W]);
    assert_eq!(prompt_delete_bytes(PromptDelete::WordForward, 3, 3), ALT_D.to_vec());
}

#[test]
fn test_insert_tracks_text_and_cursor() {
    let mut s = PromptShadow::default();
    typed(&mut s, "echo");
    assert_eq!(s.current().text, "echo");
    assert_eq!(s.current().cursor, 4);
}

#[test]
fn test_inserts_coalesce_into_one_undo_step() {
    let mut s = PromptShadow::default();
    typed(&mut s, "echo");
    assert!(s.step_back());
    assert_eq!(current_text(&s), "");
    assert!(!s.step_back(), "nothing left to undo");
}

#[test]
fn test_undo_then_redo_restores_text() {
    let mut s = PromptShadow::default();
    typed(&mut s, "ls");
    s.step_back();
    let target = s.redo_target().unwrap();
    assert_eq!(target.text, "ls");
    assert_eq!(current_text(&s), "ls");
    let mut expected = vec![CTRL_A, CTRL_K];
    expected.extend_from_slice(b"ls");
    assert_eq!(rebuild_line_bytes(&target, false), expected);
}

#[test]
fn test_rebuild_uses_bracketed_paste_when_available() {
    let target = PromptLine { text: String::from("echo hi"), cursor: 7 };
    let mut expected = vec![CTRL_A, CTRL_K];
    expected.extend_from_slice(BRACKETED_PASTE_START);
    expected.extend_from_slice(b"echo hi");
    expected.extend_from_slice(BRACKETED_PASTE_END);
    assert_eq!(rebuild_line_bytes(&target, true), expected);
}

#[test]
fn test_rebuild_positions_cursor_left_of_end() {
    let target = PromptLine { text: String::from("abcd"), cursor: 1 };
    let mut expected = vec![CTRL_A, CTRL_K];
    expected.extend_from_slice(b"abcd");
    for _ in 0..3 {
        expected.extend_from_slice(ARROW_LEFT);
    }
    assert_eq!(rebuild_line_bytes(&target, false), expected);
}

#[test]
fn test_backspace_is_its_own_undo_step() {
    let mut s = PromptShadow::default();
    typed(&mut s, "abc");
    let bsp = Key { code: KeyCode::Backspace, ..ch('x') };
    s.apply_insert_key(&bsp, true);
    assert_eq!(current_text(&s), "ab");
    s.step_back();
    assert_eq!(current_text(&s), "abc");
}

/// An emacs-style line editor that reads the bytes meant for one.
struct Readline {
    chars: Vec<char>,
    cursor: usize,
}

impl Readline {
    fn new(line: &PromptLine) -> Self {
        Self { chars: line.text.chars().collect(), cursor: line.cursor }
    }

    fn apply(&mut self, bytes: &[u8]) {
        let mut i = 0;
        while i < bytes.len() {
            if bytes[i..].starts_with(BRACKETED_PASTE_START) {
                i += BRACKETED_PASTE_START.len();
            } else if bytes[i..].starts_with(BRACKETED_PASTE_END) {
                i += BRACKETED_PASTE_END.len();
            } else if bytes[i..].starts_with(ARROW_LEFT) {
                self.cursor = self.cursor.saturating_sub(1);
                i += ARROW_LEFT.len();
            } else if bytes[i..].starts_with(ARROW_RIGHT) {
                self.cursor = (self.cursor + 1).min(self.chars.len());
                i += ARROW_RIGHT.len();
            } else if bytes[i] == CTRL_A {
                self.cursor = 0;
                i += 1;
            } else if bytes[i] == CTRL_K {
                self.chars.truncate(self.cursor);
                i += 1;
            } else {
                self.chars.insert(self.cursor, bytes[i] as char);
                self.cursor += 1;
                i += 1;
            }
        }
    }

    fn matches(&self, line: &PromptLine) -> bool {
        self.chars.iter().collect::<String>() == line.text && self.cursor == line.cursor
    }
}

/// Type `keys`, go back to the start, then forward again: at every step the bytes drive a
/// line editor, whatever it held, to the line that is remembered.
fn check_roundtrip(keys: &[Key]) {
    let mut shadow = PromptShadow::default();
    for k in keys {
        shadow.apply_insert_key(k, true);
    }
    while shadow.step_back() {}

    let mut steps = 0;
    while let Some(target) = shadow.redo_target() {
        let mut real = Readline::new(&PromptLine { text: String::from("ZZZ"), cursor: 1 });
        real.apply(&rebuild_line_bytes(&target, steps % 2 == 0));
        assert!(
            real.matches(shadow.current()),
            "redo step {steps} diverged: real={:?}@{} shadow={:?}@{}",
            real.chars.iter().collect::<String>(),
            real.cursor,
            shadow.current().text,
            shadow.current().cursor,
        );
        steps += 1;
    }
}

fn keys(spec: &str) -> Vec<Key> {
    spec.chars()
        .map(|c| match c {
            '<' => Key { code: KeyCode::Left, ..ch('x') },
            '>' => Key { code: KeyCode::Right, ..ch('x') },
            '_' => Key { code: KeyCode::Backspace, ..ch('x') },
            ' ' => Key { code: KeyCode::Space, ..ch(' ') },
            other => ch(other),
        })
        .collect()
}

#[test]
fn test_roundtrip_simple_typing() {
    check_roundtrip(&keys("echo hello"));
}

#[test]
fn test_roundtrip_typing_with_backspaces() {
    check_roundtrip(&keys("helo__llo"));
}

#[test]
fn test_roundtrip_typing_with_cursor_moves() {
    check_roundtrip(&keys("abc<<XY<"));
}

#[test]
fn test_roundtrip_insert_in_middle() {
    check_roundtrip(&keys("worldhello<<<<<"));
}

#[test]
fn test_ctrl_c_rearms_tracking_after_a_desync() {
    let mut s = PromptShadow::default();
    let up = Key { code: KeyCode::Up, ..ch('x') };
    s.apply_insert_key(&up, true);
    assert!(!s.step_back(), "desynced: undo is a no-op");

    let ctrl_c = Key { code: KeyCode::Char('c'), ctrl: true, ..ch('x') };
    s.apply_insert_key(&ctrl_c, true);
    typed(&mut s, "next");
    assert_eq!(current_text(&s), "next");
}

#[test]
fn test_repeated_ctrl_d_deletes_from_front() {
    let mut s = PromptShadow::default();
    typed(&mut s, "hi");
    let home = Key { code: KeyCode::Home, ..ch('x') };
    s.apply_insert_key(&home, true);

    let ctrl_d = Key { code: KeyCode::Char('d'), ctrl: true, ..ch('x') };
    s.apply_insert_key(&ctrl_d, true);
    assert_eq!(current_text(&s), "i");

    s.apply_insert_key(&ctrl_d, true);
    assert_eq!(current_text(&s), "");
}

#[test]
fn test_unmodeled_key_desyncs_and_disables_undo() {
    let mut s = PromptShadow::default();
    typed(&mut s, "hi");
    let tab = Key { code: KeyCode::Tab, ..ch('x') };
    s.apply_insert_key(&tab, true);
    assert!(!s.step_back(), "undo is a no-op after a desync");
}

#[test]
fn test_off_prompt_desyncs() {
    let mut s = PromptShadow::default();
    typed(&mut s, "hi");
    s.apply_insert_key(&ch('x'), false);
    assert!(!s.step_back());
}

#[test]
fn test_enter_rearms_from_empty() {
    let mut s = PromptShadow::default();
    typed(&mut s, "first");
    let enter = Key { code: KeyCode::Enter, ..ch('x') };
    s.apply_insert_key(&enter, true);
    assert_eq!(current_text(&s), "");
    assert!(!s.step_back(), "history reset after submit");
    typed(&mut s, "next");
    assert_eq!(current_text(&s), "next");
}

#[test]
fn test_normal_delete_word_back_is_undoable() {
    let mut s = PromptShadow::default();
    typed(&mut s, "echo hello");
    s.record_normal_delete(PromptDelete::WordBack, 10, 10);
    assert_eq!(current_text(&s), "echo ");
    s.step_back();
    assert_eq!(current_text(&s), "echo hello");
}

#[test]
fn test_edit_action_bytes_match_readline() {
    assert_eq!(edit_action_bytes(EditAction::DeleteWordBackward), vec![CTRL_W]);
    assert_eq!(edit_action_bytes(EditAction::DeleteWordForward), ALT_D.to_vec());
    assert_eq!(edit_action_bytes(EditAction::DeleteToLineStart), vec![CTRL_U]);
    assert_eq!(edit_action_bytes(EditAction::DeleteToLineEnd), vec![CTRL_K]);
}

#[test]
fn test_apply_edit_action_delete_word_backward_is_undoable() {
    let mut s = PromptShadow::default();
    typed(&mut s, "git commit");
    s.apply_edit_action(EditAction::DeleteWordBackward, true);
    assert_eq!(current_text(&s), "git ");
    s.step_back();
    assert_eq!(current_text(&s), "git commit");
}

#[test]
fn test_apply_edit_action_off_prompt_desyncs() {
    let mut s = PromptShadow::default();
    typed(&mut s, "abc");
    s.apply_edit_action(EditAction::DeleteWordBackward, false);
    assert!(!s.step_back());
}

#[test]
fn test_word_start_before_skips_trailing_space() {
    assert_eq!(word_start_before("echo hello", 10), 5);
    assert_eq!(word_start_before("echo ", 5), 0);
}

#[test]
fn test_word_end_after_includes_trailing_space() {
    assert_eq!(word_end_after("echo hello", 0), 5);
    assert_eq!(word_end_after("echo hello", 5), 10);
}

#[test]
fn test_prompt_replace_char_bytes_aligns_deletes_and_steps_back() {
    let bytes = prompt_replace_char_bytes(5, 2, 'x');
    let expected = b"\x1b[D\x1b[D\x1b[D\x1b[3~x\x1b[D";
    assert_eq!(bytes, expected);
}

#[test]
fn test_prompt_toggle_case_bytes_aligns_deletes_and_inserts() {
    let bytes = prompt_toggle_case_bytes(2, 4, 'A');
    let expected = b"\x1b[C\x1b[C\x1b[3~A";
    assert_eq!(bytes, expected);
}

#[test]
fn a_range_is_deleted_from_its_first_column() {
    let bytes = prompt_delete_bytes(PromptDelete::Range { start_col: 2, end_col: 4 }, 5, 3);
    let expected = b"\x1b[D\x1b[D\x1b[D\x1b[3~\x1b[3~\x1b[3~";
    assert_eq!(bytes, expected);
}

#[test]
fn a_character_beyond_ascii_is_sent_as_utf8() {
    let bytes = prompt_toggle_case_bytes(0, 0, '\u{e9}');
    assert_eq!(bytes, b"\x1b[3~\xc3\xa9");
}

#[test]
fn surrounds_are_taken_off_changed_and_put_on() {
    let gone = prompt_delete_surround_bytes(5, 1, 4, 2);
    let mut buffer = Readline::new(&PromptLine { text: String::from("a(bc)d"), cursor: 5 });
    apply_with_delete(&mut buffer, &gone);
    assert_eq!(buffer.chars.iter().collect::<String>(), "abcd");

    let changed = prompt_change_surround_bytes(5, 1, '[', 4, ']', 2);
    let mut buffer = Readline::new(&PromptLine { text: String::from("a(bc)d"), cursor: 5 });
    apply_with_delete(&mut buffer, &changed);
    assert_eq!(buffer.chars.iter().collect::<String>(), "a[bc]d");

    let added = prompt_add_surround_bytes(4, 1, 2, '"', '"', 1);
    let mut buffer = Readline::new(&PromptLine { text: String::from("abcd"), cursor: 4 });
    apply_with_delete(&mut buffer, &added);
    assert_eq!(buffer.chars.iter().collect::<String>(), "a\"bc\"d");
}

fn apply_with_delete(buffer: &mut Readline, bytes: &[u8]) {
    let mut i = 0;
    while i < bytes.len() {
        if bytes[i..].starts_with(KEY_DELETE) {
            if buffer.cursor < buffer.chars.len() {
                buffer.chars.remove(buffer.cursor);
            }
            i += KEY_DELETE.len();
        } else {
            let n = if bytes[i] == 0x1b { 3 } else { 1 };
            buffer.apply(&bytes[i..i + n]);
            i += n;
        }
    }
}

#[test]
fn undoing_and_redoing_returns_to_the_line() {
    let mut s = PromptShadow::default();
    typed(&mut s, "one two");
    s.apply_edit_action(EditAction::DeleteWordBackward, true);
    let line = current_text(&s);
    assert!(s.step_back());
    let target = s.redo_target().unwrap();
    assert_eq!(target.text, line);
    assert_eq!(current_text(&s), line);
}
