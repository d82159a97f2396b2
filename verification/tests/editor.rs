use dsh::editor::{Key, KeyModifiers, LineEditor, Outcome};
use dsh::lexer::LexError;

const PROMPT: &str = "me@host [0] ";

fn typed(text: &str) -> LineEditor {
    let mut editor = LineEditor::new();
    for c in text.chars() {
        editor.handle_key(Key::Char(c), PROMPT);
    }
    editor
}

#[test]
fn no_modifier_is_held_at_first() {
    let modifiers = KeyModifiers::new();
    assert!(!modifiers.alt);
    assert!(!modifiers.ctrl);
    assert!(!modifiers.shift);
    assert_eq!(LineEditor::new().modifiers(), modifiers);
}

#[test]
fn a_typed_line_comes_back_unchanged() {
    let mut editor = LineEditor::new();
    for c in "ls -la".chars() {
        let reaction = editor.handle_key(Key::Char(c), PROMPT);
        assert_eq!(reaction.outcome, Outcome::Editing);
    }
    assert_eq!(editor.text(), "ls -la".to_string());
    assert_eq!(editor.cursor(), 6);
    let reaction = editor.handle_key(Key::Char('\n'), PROMPT);
    assert_eq!(reaction.outcome, Outcome::Line("ls -la".to_string()));
    assert_eq!(reaction.output, "\n\r\x1b[2K".to_string());
    assert_eq!(editor.cursor(), 0);
    assert_eq!(editor.text(), "".to_string());
}

#[test]
fn lines_with_quotes_digits_and_symbols_pass_the_lexical_check() {
    for line in ["A=1 echo 'it is' \"x y\" 0x1g 12_3 .5 a.b", "'", "\"open", "", "   "] {
        let mut editor = typed(line);
        let reaction = editor.handle_key(Key::Char('\n'), PROMPT);
        assert_eq!(reaction.outcome, Outcome::Line(line.to_string()));
        assert_eq!(editor.text(), "".to_string());
    }
}

#[test]
fn a_line_that_fails_the_lexical_check_stays() {
    let mut editor = typed("ab");
    editor.handle_key(Key::Left, PROMPT);
    let error = LexError::NotAValidChar { line: 0, column: 3 };
    let reaction = editor.apply(Key::Char('\n'), Err(error), PROMPT);
    assert_eq!(reaction.outcome, Outcome::Failed(error));
    assert_eq!(reaction.output, "\n".to_string());
    assert_eq!(editor.text(), "ab".to_string());
    assert_eq!(editor.cursor(), 1);
}

#[test]
fn every_insertion_repaints_the_line() {
    let mut editor = LineEditor::new();
    let reaction = editor.handle_key(Key::Char('a'), PROMPT);
    assert_eq!(reaction.output, "\r\x1b[2Kme@host [0] a".to_string());
    let reaction = editor.handle_key(Key::Char('c'), PROMPT);
    assert_eq!(reaction.output, "\r\x1b[2Kme@host [0] ac".to_string());
    editor.handle_key(Key::Left, PROMPT);
    let reaction = editor.handle_key(Key::Char('b'), PROMPT);
    assert_eq!(reaction.output, "\r\x1b[2Kme@host [0] abc\x1b[1D".to_string());
    assert_eq!(editor.cursor(), 2);
    assert_eq!(editor.redraw("> "), "\r\x1b[2K> abc\x1b[1D".to_string());
}

#[test]
fn backspace_removes_the_character_before_the_cursor() {
    let mut editor = typed("abc");
    editor.handle_key(Key::Left, PROMPT);
    let reaction = editor.handle_key(Key::Backspace, PROMPT);
    assert_eq!(reaction.outcome, Outcome::Editing);
    assert_eq!(reaction.output, "\r\x1b[2Kme@host [0] ac\x1b[1D".to_string());
    assert_eq!(editor.text(), "ac".to_string());
    assert_eq!(editor.cursor(), 1);
}

#[test]
fn backspace_at_the_start_does_nothing() {
    let mut editor = typed("ab");
    editor.handle_key(Key::Home, PROMPT);
    let reaction = editor.handle_key(Key::Backspace, PROMPT);
    assert_eq!(reaction.output, "".to_string());
    assert_eq!(editor.text(), "ab".to_string());
    assert_eq!(editor.cursor(), 0);
}

#[test]
fn the_arrows_move_within_the_text() {
    let mut editor = typed("ab");
    let reaction = editor.handle_key(Key::Right, PROMPT);
    assert_eq!(reaction.output, "".to_string());
    assert_eq!(editor.cursor(), 2);
    let reaction = editor.handle_key(Key::Left, PROMPT);
    assert_eq!(reaction.output, "\x1b[1D".to_string());
    assert_eq!(editor.cursor(), 1);
    editor.handle_key(Key::Left, PROMPT);
    let reaction = editor.handle_key(Key::Left, PROMPT);
    assert_eq!(reaction.output, "".to_string());
    assert_eq!(editor.cursor(), 0);
    let reaction = editor.handle_key(Key::Right, PROMPT);
    assert_eq!(reaction.output, "\x1b[1C".to_string());
    assert_eq!(editor.cursor(), 1);
}

#[test]
fn home_and_end() {
    let mut editor = typed("abc");
    let reaction = editor.handle_key(Key::Home, PROMPT);
    assert_eq!(reaction.output, "".to_string());
    assert_eq!(editor.cursor(), 0);
    editor.handle_key(Key::End, PROMPT);
    assert_eq!(editor.cursor(), 3);
    let mut empty = LineEditor::new();
    empty.handle_key(Key::End, PROMPT);
    assert_eq!(empty.cursor(), 0);
}

#[test]
fn tab_and_other_keys_change_nothing() {
    let mut editor = typed("ab");
    for key in [Key::Char('\t'), Key::Other, Key::Ctrl('c'), Key::Ctrl('x')] {
        let reaction = editor.handle_key(key, PROMPT);
        assert_eq!(reaction.outcome, Outcome::Editing);
        assert_eq!(reaction.output, "".to_string());
    }
    assert_eq!(editor.text(), "ab".to_string());
    assert_eq!(editor.cursor(), 2);
}

#[test]
fn control_d_and_the_null_byte_quit() {
    for key in [Key::Ctrl('d'), Key::Ctrl('D'), Key::Null] {
        let mut editor = typed("ab");
        let reaction = editor.handle_key(key, PROMPT);
        assert_eq!(reaction.outcome, Outcome::Quit);
        assert_eq!(reaction.output, "".to_string());
        assert_eq!(editor.text(), "ab".to_string());
    }
}

#[test]
fn modifier_keys_are_tracked() {
    let mut editor = LineEditor::new();
    editor.handle_key(Key::ShiftDown, PROMPT);
    editor.handle_key(Key::CtrlDown, PROMPT);
    assert_eq!(editor.modifiers(), KeyModifiers { alt: false, ctrl: true, shift: true });
    editor.handle_key(Key::AltDown, PROMPT);
    editor.handle_key(Key::ShiftUp, PROMPT);
    assert_eq!(editor.modifiers(), KeyModifiers { alt: true, ctrl: true, shift: false });
    editor.handle_key(Key::AltUp, PROMPT);
    editor.handle_key(Key::CtrlUp, PROMPT);
    assert_eq!(editor.modifiers(), KeyModifiers::new());
}
