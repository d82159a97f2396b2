//! The line editor: a text buffer and a cursor, driven by one key at a time.
//!
//! The editor performs no input or output itself. Each key yields the text to
//! write to the terminal and says whether a line was completed or the session
//! is over; the caller reads the keys and writes the text.

use vstd::prelude::*;
use crate::buffer::{TextBuffer, GROWTH_STEP};
use crate::lexer::{lex, lex_outcome, LexError};
use crate::term::{clear_line_seq, left_by, push_clear_line, push_left, push_right, right_by};

verus! {

/// Which modifier keys are held.
#[derive(Debug, Clone, Copy, PartialEq, Eq, Structural)]
pub struct KeyModifiers {
    pub alt: bool,
    pub ctrl: bool,
    pub shift: bool,
}

impl KeyModifiers {
    /// No modifier held.
    pub fn new() -> (modifiers: Self)
        ensures
            modifiers == (KeyModifiers { alt: false, ctrl: false, shift: false }),
    {
        Self { alt: false, ctrl: false, shift: false }
    }
}

/// A key event, as far as the editor tells keys apart.
#[derive(Debug, Clone, Copy, PartialEq, Eq)]
pub enum Key {
    Backspace,
    Left,
    Right,
    ShiftUp,
    AltUp,
    CtrlUp,
    ShiftDown,
    AltDown,
    CtrlDown,
    Home,
    End,
    /// An ordinary character, newline and tab included.
    Char(char),
    /// A character typed with the control key.
    Ctrl(char),
    /// The null byte, which ends the input.
    Null,
    /// Any other key.
    Other,
}

/// The editor's state as a mathematical value.
pub struct EditorModel {
    pub text: Seq<char>,
    pub cursor: int,
    pub modifiers: KeyModifiers,
}

/// What a key means for the session.
pub enum OutcomeModel {
    Editing,
    Line(Seq<char>),
    Quit,
    Failed(LexError),
}

/// What the caller is to do after a key.
#[derive(Debug, PartialEq, Eq)]
pub enum Outcome {
    /// Go on reading keys.
    Editing,
    /// A line was completed; here it is.
    Line(String),
    /// The user asked to leave.
    Quit,
    /// The completed line did not pass the lexical check.
    Failed(LexError),
}

impl View for Outcome {
    type V = OutcomeModel;

    open spec fn view(&self) -> OutcomeModel {
        match self {
            Outcome::Editing => OutcomeModel::Editing,
            Outcome::Line(line) => OutcomeModel::Line(line@),
            Outcome::Quit => OutcomeModel::Quit,
            Outcome::Failed(error) => OutcomeModel::Failed(*error),
        }
    }
}

/// The text to write and the outcome of one key.
#[derive(Debug, PartialEq, Eq)]
pub struct Reaction {
    pub output: String,
    pub outcome: Outcome,
}

/// The cursor stands inside the text or just behind it.
pub open spec fn valid(m: EditorModel) -> bool {
    0 <= m.cursor <= m.text.len()
}

/// The keys that end the session: the null byte and control-D.
pub open spec fn is_quit_key(key: Key) -> bool {
    match key {
        Key::Null => true,
        Key::Ctrl(c) => c == 'd' || c == 'D',
        _ => false,
    }
}

/// The characters that are inserted when typed: all but newline and tab.
pub open spec fn is_text_char(c: char) -> bool {
    c != '\n' && c != '\t'
}

/// The state after `key`. `lexed` is the result of the lexical check on the
/// text; only the newline key looks at it.
pub open spec fn step(m: EditorModel, key: Key, lexed: Result<(), LexError>) -> EditorModel {
    match key {
        Key::Backspace => if m.cursor > 0 {
            EditorModel { text: m.text.remove(m.cursor - 1), cursor: m.cursor - 1, ..m }
        } else {
            m
        },
        Key::Left => if m.cursor > 0 {
            EditorModel { cursor: m.cursor - 1, ..m }
        } else {
            m
        },
        Key::Right => if m.cursor < m.text.len() {
            EditorModel { cursor: m.cursor + 1, ..m }
        } else {
            m
        },
        Key::ShiftUp => EditorModel { modifiers: KeyModifiers { shift: false, ..m.modifiers }, ..m },
        Key::AltUp => EditorModel { modifiers: KeyModifiers { alt: false, ..m.modifiers }, ..m },
        Key::CtrlUp => EditorModel { modifiers: KeyModifiers { ctrl: false, ..m.modifiers }, ..m },
        Key::ShiftDown => EditorModel { modifiers: KeyModifiers { shift: true, ..m.modifiers }, ..m },
        Key::AltDown => EditorModel { modifiers: KeyModifiers { alt: true, ..m.modifiers }, ..m },
        Key::CtrlDown => EditorModel { modifiers: KeyModifiers { ctrl: true, ..m.modifiers }, ..m },
        Key::Home => EditorModel { cursor: 0, ..m },
        Key::End => EditorModel { cursor: m.text.len() as int, ..m },
        Key::Char(c) => if c == '\n' {
            if lexed is Ok {
                EditorModel { text: Seq::empty(), cursor: 0, ..m }
            } else {
                m
            }
        } else if c == '\t' {
            m
        } else {
            EditorModel { text: m.text.insert(m.cursor, c), cursor: m.cursor + 1, ..m }
        },
        Key::Ctrl(_) => m,
        Key::Null => m,
        Key::Other => m,
    }
}

/// What `key` means for the session.
pub open spec fn outcome(m: EditorModel, key: Key, lexed: Result<(), LexError>) -> OutcomeModel {
    if is_quit_key(key) {
        OutcomeModel::Quit
    } else if key == Key::Char('\n') {
        match lexed {
            Ok(_) => OutcomeModel::Line(m.text),
            Err(error) => OutcomeModel::Failed(error),
        }
    } else {
        OutcomeModel::Editing
    }
}

/// The full repaint of the line: carriage return, erase the line, the
/// prompt, the text, and the way back from the end of the text to the cursor.
pub open spec fn repaint(prompt: Seq<char>, m: EditorModel) -> Seq<char> {
    seq!['\r'] + clear_line_seq() + prompt + m.text + left_by((m.text.len() - m.cursor) as nat)
}

/// The text written to the terminal for `key`.
pub open spec fn output(
    m: EditorModel,
    key: Key,
    lexed: Result<(), LexError>,
    prompt: Seq<char>,
) -> Seq<char> {
    match key {
        Key::Backspace => if m.cursor > 0 {
            repaint(prompt, step(m, key, lexed))
        } else {
            Seq::empty()
        },
        Key::Left => if m.cursor > 0 {
            left_by(1)
        } else {
            Seq::empty()
        },
        Key::Right => if m.cursor < m.text.len() {
            right_by(1)
        } else {
            Seq::empty()
        },
        Key::Char(c) => if c == '\n' {
            if lexed is Ok {
                seq!['\n', '\r'] + clear_line_seq()
            } else {
                seq!['\n']
            }
        } else if c == '\t' {
            Seq::empty()
        } else {
            repaint(prompt, step(m, key, lexed))
        },
        _ => Seq::empty(),
    }
}

/// Every key leaves the cursor inside the text or just behind it.
pub proof fn lemma_step_keeps_valid(m: EditorModel, key: Key, lexed: Result<(), LexError>)
    requires
        valid(m),
    ensures
        valid(step(m, key, lexed)),
{
}

/// The state after typing the characters of `chars` one after the other.
pub open spec fn type_text(m: EditorModel, chars: Seq<char>) -> EditorModel
    decreases chars.len(),
{
    if chars.len() == 0 {
        m
    } else {
        type_text(step(m, Key::Char(chars[0]), Ok(())), chars.drop_first())
    }
}

/// Typing text with the cursor at the end appends it and leaves the cursor
/// at the new end.
pub proof fn lemma_typing_appends(m: EditorModel, chars: Seq<char>)
    requires
        m.cursor == m.text.len(),
        forall|i: int| 0 <= i < chars.len() ==> is_text_char(#[trigger] chars[i]),
    ensures
        type_text(m, chars) == (EditorModel {
            text: m.text + chars,
            cursor: (m.text.len() + chars.len()) as int,
            ..m
        }),
    decreases chars.len(),
{
    if chars.len() == 0 {
        assert(m.text + chars == m.text);
    } else {
        let next = step(m, Key::Char(chars[0]), Ok(()));
        let rest = chars.drop_first();
        assert(is_text_char(chars[0]));
        assert(next.text == m.text.push(chars[0]));
        assert forall|i: int| 0 <= i < rest.len() implies is_text_char(#[trigger] rest[i]) by {
            assert(rest[i] == chars[i + 1]);
        }
        lemma_typing_appends(next, rest);
        assert(m.text.push(chars[0]) + rest == m.text + chars);
    }
}

/// A line typed character by character into an empty editor comes back
/// unchanged when newline is pressed and the line passes the lexical check,
/// and the editor is empty again with the cursor at 0.
pub proof fn lemma_typed_line_round_trip(modifiers: KeyModifiers, line: Seq<char>)
    requires
        forall|i: int| 0 <= i < line.len() ==> is_text_char(#[trigger] line[i]),
        lex_outcome(line) is Ok,
    ensures
        ({
            let empty = EditorModel { text: Seq::empty(), cursor: 0, modifiers };
            let typed = type_text(empty, line);
            let enter = Key::Char('\n');
            &&& typed.text == line
            &&& outcome(typed, enter, lex_outcome(typed.text)) == OutcomeModel::Line(line)
            &&& step(typed, enter, lex_outcome(typed.text)) == empty
        }),
{
    let empty = EditorModel { text: Seq::empty(), cursor: 0, modifiers };
    lemma_typing_appends(empty, line);
    assert(Seq::<char>::empty() + line == line);
}

/// A text buffer, the cursor into it, and the modifier keys held.
pub struct LineEditor {
    buffer: TextBuffer,
    cursor: usize,
    modifiers: KeyModifiers,
}

impl View for LineEditor {
    type V = EditorModel;

    closed spec fn view(&self) -> EditorModel {
        EditorModel { text: self.buffer@, cursor: self.cursor as int, modifiers: self.modifiers }
    }
}

impl LineEditor {
    /// An editor with no text, the cursor at 0 and no modifier held.
    pub fn new() -> (editor: Self)
        ensures
            editor@ == (EditorModel {
                text: Seq::empty(),
                cursor: 0,
                modifiers: KeyModifiers { alt: false, ctrl: false, shift: false },
            }),
            valid(editor@),
    {
        Self { buffer: TextBuffer::new(), cursor: 0, modifiers: KeyModifiers::new() }
    }

    /// The text typed so far.
    pub fn text(&self) -> (text: String)
        ensures
            text@ == self@.text,
    {
        self.buffer.to_string()
    }

    /// The number of characters typed so far.
    pub fn len(&self) -> (n: usize)
        ensures
            n == self@.text.len(),
    {
        self.buffer.len()
    }

    /// The position of the cursor.
    pub fn cursor(&self) -> (cursor: usize)
        ensures
            cursor == self@.cursor,
    {
        self.cursor
    }

    /// The modifier keys held.
    pub fn modifiers(&self) -> (modifiers: KeyModifiers)
        ensures
            modifiers == self@.modifiers,
    {
        self.modifiers
    }

    /// The text that repaints the line behind `prompt`.
    pub fn redraw(&self, prompt: &str) -> (out: String)
        requires
            valid(self@),
        ensures
            out@ == repaint(prompt@, self@),
    {
        let mut out = String::new();
        out.push('\r');
        push_clear_line(&mut out);
        out.append(prompt);
        let text = self.buffer.to_string();
        out.append(text.as_str());
        push_left(&mut out, self.buffer.len() - self.cursor);
        assert(out@ == repaint(prompt@, self@));
        out
    }

    /// Handles `key`, given the result `lexed` of the lexical check on the
    /// text.
    pub fn apply(&mut self, key: Key, lexed: Result<(), LexError>, prompt: &str) -> (reaction:
        Reaction)
        requires
            valid(old(self)@),
            old(self)@.text.len() + GROWTH_STEP <= usize::MAX,
        ensures
            final(self)@ == step(old(self)@, key, lexed),
            valid(final(self)@),
            reaction.outcome@ == outcome(old(self)@, key, lexed),
            reaction.output@ == output(old(self)@, key, lexed, prompt@),
    {
        match key {
            Key::Backspace => {
                if self.cursor > 0 {
                    self.buffer.remove(self.cursor - 1);
                    self.cursor -= 1;
                    Reaction { output: self.redraw(prompt), outcome: Outcome::Editing }
                } else {
                    Reaction { output: String::new(), outcome: Outcome::Editing }
                }
            },
            Key::Left => {
                let mut out = String::new();
                if self.cursor > 0 {
                    self.cursor -= 1;
                    push_left(&mut out, 1);
                    assert(out@ == left_by(1));
                }
                Reaction { output: out, outcome: Outcome::Editing }
            },
            Key::Right => {
                let mut out = String::new();
                if self.cursor < self.buffer.len() {
                    self.cursor += 1;
                    push_right(&mut out, 1);
                    assert(out@ == right_by(1));
                }
                Reaction { output: out, outcome: Outcome::Editing }
            },
            Key::ShiftUp => {
                self.modifiers.shift = false;
                Reaction { output: String::new(), outcome: Outcome::Editing }
            },
            Key::AltUp => {
                self.modifiers.alt = false;
                Reaction { output: String::new(), outcome: Outcome::Editing }
            },
            Key::CtrlUp => {
                self.modifiers.ctrl = false;
                Reaction { output: String::new(), outcome: Outcome::Editing }
            },
            Key::ShiftDown => {
                self.modifiers.shift = true;
                Reaction { output: String::new(), outcome: Outcome::Editing }
            },
            Key::AltDown => {
                self.modifiers.alt = true;
                Reaction { output: String::new(), outcome: Outcome::Editing }
            },
            Key::CtrlDown => {
                self.modifiers.ctrl = true;
                Reaction { output: String::new(), outcome: Outcome::Editing }
            },
            Key::Home => {
                self.cursor = 0;
                Reaction { output: String::new(), outcome: Outcome::Editing }
            },
            Key::End => {
                self.cursor = self.buffer.len();
                Reaction { output: String::new(), outcome: Outcome::Editing }
            },
            Key::Char(ch) => {
                if ch == '\n' {
                    let mut out = String::new();
                    out.push('\n');
                    match lexed {
                        Ok(_) => {
                            let line = self.buffer.to_string();
                            self.buffer.clear();
                            self.cursor = 0;
                            out.push('\r');
                            push_clear_line(&mut out);
                            assert(out@ == seq!['\n', '\r'] + clear_line_seq());
                            Reaction { output: out, outcome: Outcome::Line(line) }
                        },
                        Err(error) => {
                            assert(out@ == seq!['\n']);
                            Reaction { output: out, outcome: Outcome::Failed(error) }
                        },
                    }
                } else if ch == '\t' {
                    Reaction { output: String::new(), outcome: Outcome::Editing }
                } else {
                    let len = self.buffer.len();
                    assert(len <= self.buffer.spec_capacity());
                    self.buffer.insert(self.cursor, ch);
                    self.cursor += 1;
                    Reaction { output: self.redraw(prompt), outcome: Outcome::Editing }
                }
            },
            Key::Ctrl(c) => {
                if c == 'd' || c == 'D' {
                    Reaction { output: String::new(), outcome: Outcome::Quit }
                } else {
                    Reaction { output: String::new(), outcome: Outcome::Editing }
                }
            },
            Key::Null => Reaction { output: String::new(), outcome: Outcome::Quit },
            Key::Other => Reaction { output: String::new(), outcome: Outcome::Editing },
        }
    }

    /// Handles `key`. On newline the text first goes through the lexical
    /// check, and only a text that passes is handed out and cleared.
    pub fn handle_key(&mut self, key: Key, prompt: &str) -> (reaction: Reaction)
        requires
            valid(old(self)@),
            old(self)@.text.len() + GROWTH_STEP <= usize::MAX,
        ensures
            final(self)@ == step(old(self)@, key, lex_outcome(old(self)@.text)),
            valid(final(self)@),
            reaction.outcome@ == outcome(old(self)@, key, lex_outcome(old(self)@.text)),
            reaction.output@ == output(old(self)@, key, lex_outcome(old(self)@.text), prompt@),
    {
        let lexed = match key {
            Key::Char(ch) => {
                if ch == '\n' {
                    let text = self.buffer.to_string();
                    lex(text.as_str())
                } else {
                    Ok(())
                }
            },
            _ => Ok(()),
        };
        self.apply(key, lexed, prompt)
    }
}

} // verus!
