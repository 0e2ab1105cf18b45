//! Collecting a typed line one key at a time, as the terminal delivers
//! it in raw mode. The caller reads the bytes and shows what each key
//! calls for; the editor keeps the text and decides.
use vstd::prelude::*;

use crate::text::{pop_char, push_char};

verus! {

/// What a key calls for.
#[derive(Debug, PartialEq, Eq)]
pub enum KeyOutcome {
    /// Enter: the line is finished and this is its text.
    Submit(String),
    /// Ctrl-D on an empty line: there is no more input.
    EndOfInput,
    /// Backspace removed the last character; erase it from the screen.
    Erase,
    /// The character was added; show it.
    Echo(char),
    /// Nothing changes and nothing is shown.
    Ignore,
}

pub enum KeyOutcomeView {
    Submit(Seq<char>),
    EndOfInput,
    Erase,
    Echo(char),
    Ignore,
}

impl View for KeyOutcome {
    type V = KeyOutcomeView;

    open spec fn view(&self) -> KeyOutcomeView {
        match self {
            KeyOutcome::Submit(s) => KeyOutcomeView::Submit(s@),
            KeyOutcome::EndOfInput => KeyOutcomeView::EndOfInput,
            KeyOutcome::Erase => KeyOutcomeView::Erase,
            KeyOutcome::Echo(c) => KeyOutcomeView::Echo(*c),
            KeyOutcome::Ignore => KeyOutcomeView::Ignore,
        }
    }
}

/// The text typed so far on the current line.
pub struct LineEditor {
    input: String,
}

impl View for LineEditor {
    type V = Seq<char>;

    closed spec fn view(&self) -> Seq<char> {
        self.input@
    }
}

pub open spec fn is_enter(byte: u8) -> bool {
    byte == 10 || byte == 13
}

pub open spec fn is_ctrl_d(byte: u8) -> bool {
    byte == 4
}

pub open spec fn is_backspace(byte: u8) -> bool {
    byte == 8 || byte == 127
}

/// A byte that is typed into the line: every byte but Enter, Ctrl-D and
/// Backspace.
pub open spec fn is_typed(byte: u8) -> bool {
    !is_enter(byte) && !is_ctrl_d(byte) && !is_backspace(byte)
}

/// One key on the text `text`: the text after it and what it calls for.
/// A typed byte is taken as the character with the same number.
pub open spec fn key_step(text: Seq<char>, byte: u8) -> (Seq<char>, KeyOutcomeView) {
    if is_enter(byte) {
        (Seq::empty(), KeyOutcomeView::Submit(text))
    } else if is_ctrl_d(byte) {
        if text.len() == 0 {
            (text, KeyOutcomeView::EndOfInput)
        } else {
            (text, KeyOutcomeView::Ignore)
        }
    } else if is_backspace(byte) {
        if text.len() > 0 {
            (text.drop_last(), KeyOutcomeView::Erase)
        } else {
            (text, KeyOutcomeView::Ignore)
        }
    } else {
        (text.push(byte as char), KeyOutcomeView::Echo(byte as char))
    }
}

/// The text after the keys `bytes`, taken in order.
pub open spec fn type_keys(text: Seq<char>, bytes: Seq<u8>) -> Seq<char>
    decreases bytes.len(),
{
    if bytes.len() == 0 {
        text
    } else {
        type_keys(key_step(text, bytes[0]).0, bytes.skip(1))
    }
}

/// The characters that the bytes stand for, one for one.
pub open spec fn bytes_as_chars(bytes: Seq<u8>) -> Seq<char> {
    bytes.map_values(|b: u8| b as char)
}

impl LineEditor {
    /// An editor with an empty line.
    pub fn new() -> (e: LineEditor)
        ensures
            e@ == Seq::<char>::empty(),
    {
        LineEditor { input: String::new() }
    }

    /// Takes one key: Enter finishes the line, Ctrl-D on an empty line ends
    /// the input, Backspace removes the last character, and any other byte
    /// is added as the character with the same number.
    pub fn handle_byte(&mut self, byte: u8) -> (outcome: KeyOutcome)
        ensures
            (final(self)@, outcome@) == key_step(old(self)@, byte),
    {
        if byte == 10u8 || byte == 13u8 {
            // Enter finishes the line.
            let mut line = String::new();
            std::mem::swap(&mut line, &mut self.input);
            KeyOutcome::Submit(line)
        } else if byte == 4u8 {
            // Ctrl-D closes the shell only when the line is empty.
            if self.input.as_str().unicode_len() == 0 {
                KeyOutcome::EndOfInput
            } else {
                KeyOutcome::Ignore
            }
        } else if byte == 8u8 || byte == 127u8 {
            // Backspace removes the last character and erases it from the screen.
            match pop_char(&mut self.input) {
                Some(_) => KeyOutcome::Erase,
                None => KeyOutcome::Ignore,
            }
        } else {
            // Other keys are stored and shown by the shell.
            let character = byte as char;
            push_char(&mut self.input, character);
            KeyOutcome::Echo(character)
        }
    }
}

/// Backspace undoes a typed key: typing a byte and then Backspace leaves
/// the line as it was, and the Backspace calls for an erase.
pub proof fn lemma_backspace_undoes_key(text: Seq<char>, byte: u8, backspace: u8)
    requires
        is_typed(byte),
        is_backspace(backspace),
    ensures
        key_step(key_step(text, byte).0, backspace) == (text, KeyOutcomeView::Erase),
{
    assert(text.push(byte as char).drop_last() =~= text);
}

/// Typing bytes, none of them Enter, Ctrl-D or Backspace, adds their
/// characters to the line in order.
pub proof fn lemma_typing_appends(text: Seq<char>, bytes: Seq<u8>)
    requires
        forall|i: int| 0 <= i < bytes.len() ==> is_typed(#[trigger] bytes[i]),
    ensures
        type_keys(text, bytes) == text + bytes_as_chars(bytes),
    decreases bytes.len(),
{
    if bytes.len() == 0 {
        assert(text + bytes_as_chars(bytes) =~= text);
    } else {
        let rest = bytes.skip(1);
        assert(is_typed(bytes[0]));
        assert forall|i: int| 0 <= i < rest.len() implies is_typed(#[trigger] rest[i]) by {
            assert(rest[i] == bytes[i + 1]);
        }
        lemma_typing_appends(text.push(bytes[0] as char), rest);
        assert(text.push(bytes[0] as char) + bytes_as_chars(rest) =~= text + bytes_as_chars(bytes));
    }
}

/// A line typed from an empty editor and finished with Enter is submitted
/// as exactly the typed characters, and the editor is empty again.
pub proof fn lemma_enter_submits_typed_line(bytes: Seq<u8>, enter: u8)
    requires
        forall|i: int| 0 <= i < bytes.len() ==> is_typed(#[trigger] bytes[i]),
        is_enter(enter),
    ensures
        key_step(type_keys(Seq::empty(), bytes), enter) == (
            Seq::<char>::empty(),
            KeyOutcomeView::Submit(bytes_as_chars(bytes)),
        ),
{
    lemma_typing_appends(Seq::empty(), bytes);
    assert(Seq::<char>::empty() + bytes_as_chars(bytes) =~= bytes_as_chars(bytes));
}

/// Enter submits the whole line as it stands, whatever it holds, and starts
/// a new empty line.
pub proof fn lemma_enter_submits_line(text: Seq<char>, enter: u8)
    requires
        is_enter(enter),
    ensures
        key_step(text, enter).0 == Seq::<char>::empty(),
        key_step(text, enter).1 == KeyOutcomeView::Submit(text),
{
}

/// Ctrl-D never changes the line, and it ends the input exactly when the
/// line is empty; otherwise it calls for nothing.
pub proof fn lemma_ctrl_d(text: Seq<char>)
    ensures
        key_step(text, 4).0 == text,
        (key_step(text, 4).1 == KeyOutcomeView::EndOfInput) <==> text.len() == 0,
        text.len() > 0 ==> key_step(text, 4).1 == KeyOutcomeView::Ignore,
{
}

/// Backspace removes exactly the last character of a line that has one,
/// and on an empty line changes and shows nothing.
pub proof fn lemma_backspace(text: Seq<char>, backspace: u8)
    requires
        is_backspace(backspace),
    ensures
        text.len() > 0 ==> key_step(text, backspace).0.len() == text.len() - 1,
        text.len() > 0 ==> key_step(text, backspace).0 + seq![text.last()] == text,
        text.len() > 0 ==> key_step(text, backspace).1 == KeyOutcomeView::Erase,
        text.len() == 0 ==> key_step(text, backspace) == (text, KeyOutcomeView::Ignore),
{
    if text.len() > 0 {
        assert(text.drop_last() + seq![text.last()] =~= text);
    }
}

/// A typed byte adds one character, the one with the byte's number, at the
/// end of the line, and that character is shown.
pub proof fn lemma_typed_byte(text: Seq<char>, byte: u8)
    requires
        is_typed(byte),
    ensures
        key_step(text, byte).0.len() == text.len() + 1,
        key_step(text, byte).0.subrange(0, text.len() as int) == text,
        key_step(text, byte).0.last() as u32 == byte as u32,
        key_step(text, byte).1 == KeyOutcomeView::Echo(key_step(text, byte).0.last()),
{
    assert(text.push(byte as char).subrange(0, text.len() as int) =~= text);
}

} // verus!
