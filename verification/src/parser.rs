//! Turning a typed line into a command name, its arguments and its
//! output redirections.
//!
//! The line is first cut into tokens: words and the redirection operators
//! `>`, `1>`, `2>` (which replace a file's contents) and `>>`, `1>>`,
//! `2>>` (which append to it). Quotes keep words together and disappear; a backslash
//! outside quotes keeps the next character and disappears; inside double
//! quotes it disappears only before `"` and `\`. Then every word becomes
//! an argument, except a word right after an operator, which becomes the
//! file that the operator names.
use vstd::prelude::*;

use crate::text::{char_is_whitespace, chars_of, is_single_char, is_whitespace, push_char};

verus! {

/// How a redirection writes to its file: `>` replaces the contents, `>>`
/// appends to them.
#[derive(Clone, Copy, Debug, PartialEq, Eq)]
pub enum WriteMode {
    Truncate,
    Append,
}

/// Whether the tokenizer is inside quotes.
pub enum QuoteMode {
    Unquoted,
    SingleQuoted,
    DoubleQuoted,
}

/// A token as a value: a word, an operator for normal output (`>`, `1>`,
/// `>>`, `1>>`), or one for error output (`2>`, `2>>`), with its write mode.
pub enum TokenView {
    Word(Seq<char>),
    RedirectStdout(WriteMode),
    RedirectStderr(WriteMode),
}

/// The tokenizer's state as a value.
pub struct ScanState {
    /// Tokens already finished.
    pub tokens: Seq<TokenView>,
    /// The current word has no quotes or backslash escapes.
    pub word_is_plain: bool,
    /// The characters of the current word.
    pub word: Seq<char>,
    /// A word has been started (possibly empty, as in `''`).
    pub word_started: bool,
    pub mode: QuoteMode,
}

/// A redirection as a value: the file and how it is written.
pub struct RedirectionView {
    pub file_path: Seq<char>,
    pub write_mode: WriteMode,
}

/// The parsed command as a value.
pub struct RedirectionsView {
    pub stdout: Option<RedirectionView>,
    pub stderr: Option<RedirectionView>,
}

pub struct ParsedCommandView {
    pub arguments: Seq<Seq<char>>,
    pub redirections: RedirectionsView,
}

pub open spec fn initial_scan() -> ScanState {
    ScanState {
        tokens: Seq::empty(),
        word_is_plain: true,
        word: Seq::empty(),
        word_started: false,
        mode: QuoteMode::Unquoted,
    }
}

/// Closing the current word: a started word (even an empty one) becomes a
/// token; otherwise nothing changes.
pub open spec fn finish_word(st: ScanState) -> ScanState {
    if st.word_started {
        ScanState {
            tokens: st.tokens.push(TokenView::Word(st.word)),
            word: Seq::empty(),
            word_started: false,
            word_is_plain: true,
            ..st
        }
    } else {
        st
    }
}

/// The current word is a plain `1` or `2`, which belongs to a following `>`.
pub open spec fn word_is_plain_digit(st: ScanState, digit: char) -> bool {
    st.word == seq![digit] && st.word_is_plain
}

/// Meeting an operator (`>` or `>>`) outside quotes: a plain `2` before it
/// makes it send errors, a plain `1` or `2` is taken into the operator, and
/// any other word is finished.
pub open spec fn start_redirection(st: ScanState, mode: WriteMode) -> ScanState {
    let token = if word_is_plain_digit(st, '2') {
        TokenView::RedirectStderr(mode)
    } else {
        TokenView::RedirectStdout(mode)
    };
    let before = if word_is_plain_digit(st, '1') || word_is_plain_digit(st, '2') {
        ScanState { word: Seq::empty(), word_started: false, ..st }
    } else {
        finish_word(st)
    };
    ScanState { tokens: before.tokens.push(token), ..before }
}

/// Adding `c` to the current word.
pub open spec fn append_char(st: ScanState, c: char) -> ScanState {
    ScanState { word_started: true, word: st.word.push(c), ..st }
}

/// One step of the tokenizer on the character `c`, with `next` the character
/// after it, if any. The second result tells whether `next` was used up.
pub open spec fn scan_char(st: ScanState, c: char, next: Option<char>) -> (ScanState, bool) {
    match st.mode {
        QuoteMode::Unquoted => {
            if c == '\'' {
                (ScanState { mode: QuoteMode::SingleQuoted, word_started: true, word_is_plain: false, ..st }, false)
            } else if c == '"' {
                (ScanState { mode: QuoteMode::DoubleQuoted, word_started: true, word_is_plain: false, ..st }, false)
            } else if c == '\\' {
                match next {
                    Some(n) => (ScanState { word: st.word.push(n), word_started: true, word_is_plain: false, ..st }, true),
                    None => (ScanState { word_started: true, word_is_plain: false, ..st }, false),
                }
            } else if c == '>' {
                // `>>` is one operator, which appends.
                if next == Some('>') {
                    (start_redirection(st, WriteMode::Append), true)
                } else {
                    (start_redirection(st, WriteMode::Truncate), false)
                }
            } else if char_is_whitespace(c) {
                (finish_word(st), false)
            } else {
                (append_char(st, c), false)
            }
        },
        QuoteMode::DoubleQuoted => {
            if c == '\\' {
                match next {
                    Some(n) => if n != '"' && n != '\\' {
                        (ScanState { word: st.word.push(c).push(n), ..st }, true)
                    } else {
                        (ScanState { word: st.word.push(n), ..st }, true)
                    },
                    None => (st, false),
                }
            } else if c == '"' {
                (ScanState { mode: QuoteMode::Unquoted, ..st }, false)
            } else {
                (append_char(st, c), false)
            }
        },
        QuoteMode::SingleQuoted => {
            if c == '\'' {
                (ScanState { mode: QuoteMode::Unquoted, ..st }, false)
            } else {
                (append_char(st, c), false)
            }
        },
    }
}

/// The character after the first one of `s`, if any.
pub open spec fn second(s: Seq<char>) -> Option<char> {
    if s.len() > 1 { Some(s[1]) } else { None }
}

/// Running the tokenizer from state `st` over all of `s`.
pub open spec fn scan(st: ScanState, s: Seq<char>) -> ScanState
    decreases s.len(),
{
    if s.len() == 0 {
        st
    } else {
        let (after, used_next) = scan_char(st, s[0], second(s));
        scan(after, s.skip(if used_next { 2 } else { 1 }))
    }
}

/// The tokens of a line.
pub open spec fn tokenize(s: Seq<char>) -> Seq<TokenView> {
    finish_word(scan(initial_scan(), s)).tokens
}

pub open spec fn empty_command() -> ParsedCommandView {
    ParsedCommandView {
        arguments: Seq::empty(),
        redirections: RedirectionsView { stdout: None, stderr: None },
    }
}

/// The word that follows the operator at the front of `tokens`, if the next
/// token is a word.
pub open spec fn following_word(tokens: Seq<TokenView>) -> Option<Seq<char>> {
    if tokens.len() > 1 {
        match tokens[1] {
            TokenView::Word(w) => Some(w),
            _ => None,
        }
    } else {
        None
    }
}

/// Reading tokens from the front: a word is an argument; an operator takes
/// the next token with it, and names its file when that token is a word.
/// A later redirection of the same stream replaces an earlier one.
pub open spec fn build(acc: ParsedCommandView, tokens: Seq<TokenView>) -> ParsedCommandView
    decreases tokens.len(),
{
    if tokens.len() == 0 {
        acc
    } else {
        let rest = tokens.skip(if tokens.len() > 1 { 2 } else { 1 });
        match tokens[0] {
            TokenView::Word(w) => build(
                ParsedCommandView { arguments: acc.arguments.push(w), ..acc },
                tokens.skip(1),
            ),
            TokenView::RedirectStdout(mode) => match following_word(tokens) {
                Some(path) => build(
                    ParsedCommandView {
                        redirections: RedirectionsView {
                            stdout: Some(RedirectionView { file_path: path, write_mode: mode }),
                            ..acc.redirections
                        },
                        ..acc
                    },
                    rest,
                ),
                None => build(acc, rest),
            },
            TokenView::RedirectStderr(mode) => match following_word(tokens) {
                Some(path) => build(
                    ParsedCommandView {
                        redirections: RedirectionsView {
                            stderr: Some(RedirectionView { file_path: path, write_mode: mode }),
                            ..acc.redirections
                        },
                        ..acc
                    },
                    rest,
                ),
                None => build(acc, rest),
            },
        }
    }
}

/// What a line means.
pub open spec fn parse(s: Seq<char>) -> ParsedCommandView {
    build(empty_command(), tokenize(s))
}

pub open spec fn redirection_view(o: Option<Redirection>) -> Option<RedirectionView> {
    match o {
        Some(r) => Some(r@),
        None => None,
    }
}

pub open spec fn strings_view(v: Seq<String>) -> Seq<Seq<char>> {
    v.map_values(|s: String| s@)
}

enum Token {
    // A command name, argument, or filename.
    Word(String),
    // Send normal output to the next filename.
    RedirectStdout(WriteMode),
    // Send error output to the next filename.
    RedirectStderr(WriteMode),
}

impl View for Token {
    type V = TokenView;

    closed spec fn view(&self) -> TokenView {
        match self {
            Token::Word(w) => TokenView::Word(w@),
            Token::RedirectStdout(mode) => TokenView::RedirectStdout(*mode),
            Token::RedirectStderr(mode) => TokenView::RedirectStderr(*mode),
        }
    }
}

spec fn tokens_view(v: Seq<Token>) -> Seq<TokenView> {
    v.map_values(|t: Token| t@)
}

struct Tokenizer {
    // Words and operators that are already finished.
    tokens: Vec<Token>,
    // True when the current word has no quotes or backslash escapes.
    current_word_is_plain: bool,
    // The word we are building now.
    current_word: String,
    // This lets us keep an empty quoted word such as `''` or `""`.
    word_started: bool,
    // Characters follow different rules inside and outside quotes.
    quote_mode: QuoteMode,
}

impl View for Tokenizer {
    type V = ScanState;

    closed spec fn view(&self) -> ScanState {
        ScanState {
            tokens: tokens_view(self.tokens@),
            word_is_plain: self.current_word_is_plain,
            word: self.current_word@,
            word_started: self.word_started,
            mode: self.quote_mode,
        }
    }
}

/// The parsed command: the command name followed by its arguments, and
/// where its output goes.
#[derive(Debug, PartialEq, Eq)]
pub struct ParsedCommand {
    pub arguments: Vec<String>,
    pub redirections: Redirections,
}

/// Where one stream goes: the file, and whether it is replaced or added to.
#[derive(Debug, PartialEq, Eq)]
pub struct Redirection {
    pub file_path: String,
    pub write_mode: WriteMode,
}

#[derive(Debug, PartialEq, Eq)]
pub struct Redirections {
    // None means normal output stays on the terminal.
    pub stdout: Option<Redirection>,
    // None means error output stays on the terminal.
    pub stderr: Option<Redirection>,
}

impl View for Redirection {
    type V = RedirectionView;

    open spec fn view(&self) -> RedirectionView {
        RedirectionView { file_path: self.file_path@, write_mode: self.write_mode }
    }
}

impl View for Redirections {
    type V = RedirectionsView;

    open spec fn view(&self) -> RedirectionsView {
        RedirectionsView { stdout: redirection_view(self.stdout), stderr: redirection_view(self.stderr) }
    }
}

impl View for ParsedCommand {
    type V = ParsedCommandView;

    open spec fn view(&self) -> ParsedCommandView {
        ParsedCommandView { arguments: strings_view(self.arguments@), redirections: self.redirections@ }
    }
}

impl Tokenizer {
    fn new() -> (t: Self)
        ensures
            t@ == initial_scan(),
    {
        let t = Tokenizer {
            tokens: Vec::new(),
            current_word_is_plain: true,
            current_word: String::new(),
            word_started: false,
            quote_mode: QuoteMode::Unquoted,
        };
        assert(tokens_view(t.tokens@) =~= Seq::<TokenView>::empty());
        t
    }

    fn push_token(&mut self, token: Token)
        ensures
            final(self)@ == (ScanState { tokens: old(self)@.tokens.push(token@), ..old(self)@ }),
    {
        let ghost before = self.tokens@;
        self.tokens.push(token);
        assert(tokens_view(self.tokens@) =~= tokens_view(before).push(token@));
    }

    // Turn characters into word and redirection tokens.
    // Quotes keep words together, but the quote characters are removed.
    fn tokenize(self, input: &str) -> (tokens: Vec<Token>)
        requires
            self@ == initial_scan(),
        ensures
            tokens_view(tokens@) == tokenize(input@),
    {
        let mut this = self;
        let characters = chars_of(input);
        let n = characters.len();
        let mut i: usize = 0;
        assert(characters@.skip(0) =~= characters@);
        while i < n
            invariant
                n == characters@.len(),
                characters@ == input@,
                i <= n,
                scan(this@, characters@.skip(i as int)) == scan(initial_scan(), input@),
            decreases n - i,
        {
            let ghost rest = characters@.skip(i as int);
            let next_character = if i + 1 < n { Some(characters[i + 1]) } else { None };
            assert(second(rest) == next_character);
            let used_next = this.handle_character(characters[i], next_character);
            if used_next {
                assert(rest.skip(2) =~= characters@.skip(i + 2));
                i = i + 2;
            } else {
                assert(rest.skip(1) =~= characters@.skip(i + 1));
                i = i + 1;
            }
        }
        assert(characters@.skip(i as int) =~= Seq::<char>::empty());
        this.finish_word();
        this.tokens
    }

    fn handle_character(&mut self, character: char, next_character: Option<char>) -> (used_next: bool)
        ensures
            (final(self)@, used_next) == scan_char(old(self)@, character, next_character),
    {
        // The same character can mean different things inside and outside quotes.
        match self.quote_mode {
            QuoteMode::Unquoted => {
                if character == '\'' {
                    self.quote_mode = QuoteMode::SingleQuoted;
                    self.word_started = true;
                    self.current_word_is_plain = false;
                    false
                } else if character == '"' {
                    self.quote_mode = QuoteMode::DoubleQuoted;
                    self.word_started = true;
                    self.current_word_is_plain = false;
                    false
                } else if character == '\\' {
                    // Outside quotes, a backslash keeps the next character but disappears.
                    let used = match next_character {
                        Some(next) => {
                            push_char(&mut self.current_word, next);
                            true
                        },
                        None => false,
                    };
                    self.word_started = true;
                    self.current_word_is_plain = false;
                    used
                } else if character == '>' {
                    // `>>` is one operator, which appends.
                    let append = match next_character {
                        Some(next) => next == '>',
                        None => false,
                    };
                    if append {
                        self.start_redirection(WriteMode::Append);
                    } else {
                        self.start_redirection(WriteMode::Truncate);
                    }
                    append
                } else if is_whitespace(character) {
                    // Spaces finish a word only when they are outside quotes.
                    self.finish_word();
                    false
                } else {
                    self.word_started = true;
                    push_char(&mut self.current_word, character);
                    false
                }
            },
            QuoteMode::DoubleQuoted => {
                if character == '\\' {
                    // Inside double quotes, `\"` and `\\` lose the backslash.
                    // For every other character, keep the backslash.
                    match next_character {
                        Some(next) => {
                            if next != '"' && next != '\\' {
                                push_char(&mut self.current_word, character);
                            }
                            push_char(&mut self.current_word, next);
                            true
                        },
                        None => false,
                    }
                } else if character == '"' {
                    self.quote_mode = QuoteMode::Unquoted;
                    false
                } else {
                    self.word_started = true;
                    push_char(&mut self.current_word, character);
                    false
                }
            },
            QuoteMode::SingleQuoted => {
                if character == '\'' {
                    self.quote_mode = QuoteMode::Unquoted;
                    false
                } else {
                    self.word_started = true;
                    push_char(&mut self.current_word, character);
                    false
                }
            },
        }
    }

    fn start_redirection(&mut self, mode: WriteMode)
        ensures
            final(self)@ == start_redirection(old(self)@, mode),
    {
        // A plain `1` means normal output, and a plain `2` means error output.
        let is_two = is_single_char(self.current_word.as_str(), '2') && self.current_word_is_plain;
        let is_one = is_single_char(self.current_word.as_str(), '1') && self.current_word_is_plain;
        let redirection = if is_two {
            Token::RedirectStderr(mode)
        } else {
            Token::RedirectStdout(mode)
        };

        // Plain `1` and `2` belong to the operator, so do not save them as words.
        // Quoted or escaped versions are normal words and must be kept.
        if is_one || is_two {
            self.current_word = String::new();
            self.word_started = false;
        } else {
            self.finish_word();
        }

        self.push_token(redirection);
    }

    fn finish_word(&mut self)
        ensures
            final(self)@ == finish_word(old(self)@),
    {
        if self.word_started {
            // Save the finished word and leave an empty String for the next one.
            let mut word = String::new();
            std::mem::swap(&mut word, &mut self.current_word);
            self.push_token(Token::Word(word));

            self.word_started = false;
            self.current_word_is_plain = true;
        }
    }
}

/// Parses a typed line into the command name followed by its arguments,
/// and the files that its output and its errors are sent to.
pub fn parse_arguments(input: &str) -> (parsed: ParsedCommand)
    ensures
        parsed@ == parse(input@),
{
    // First find the words and operators, then work out what they mean.
    let tokens = Tokenizer::new().tokenize(input);
    build_command(tokens)
}

fn build_command(tokens: Vec<Token>) -> (parsed: ParsedCommand)
    ensures
        parsed@ == build(empty_command(), tokens_view(tokens@)),
{
    // Normal words become arguments. A word after a redirection becomes its filename.
    let mut arguments: Vec<String> = Vec::new();
    let mut redirections = Redirections { stdout: None, stderr: None };
    let n = tokens.len();
    let ghost all = tokens_view(tokens@);
    let mut i: usize = 0;
    assert(strings_view(arguments@) =~= Seq::<Seq<char>>::empty());
    assert(all.skip(0) =~= all);
    while i < n
        invariant
            n == tokens@.len(),
            all == tokens_view(tokens@),
            i <= n,
            build(
                ParsedCommandView { arguments: strings_view(arguments@), redirections: redirections@ },
                all.skip(i as int),
            ) == build(empty_command(), all),
        decreases n - i,
    {
        let ghost rest = all.skip(i as int);
        assert(rest[0] == tokens@[i as int]@);
        match &tokens[i] {
            Token::Word(arg) => {
                let ghost before = arguments@;
                arguments.push(arg.clone());
                assert(strings_view(arguments@) =~= strings_view(before).push(arg@));
                assert(rest.skip(1) =~= all.skip(i + 1));
                i = i + 1;
            },
            Token::RedirectStdout(mode) => {
                if i + 1 < n {
                    assert(rest[1] == tokens@[i + 1]@);
                    if let Token::Word(path) = &tokens[i + 1] {
                        redirections.stdout = Some(Redirection { file_path: path.clone(), write_mode: *mode });
                    }
                    assert(rest.skip(2) =~= all.skip(i + 2));
                    i = i + 2;
                } else {
                    assert(rest.skip(1) =~= all.skip(i + 1));
                    i = i + 1;
                }
            },
            Token::RedirectStderr(mode) => {
                if i + 1 < n {
                    assert(rest[1] == tokens@[i + 1]@);
                    if let Token::Word(path) = &tokens[i + 1] {
                        redirections.stderr = Some(Redirection { file_path: path.clone(), write_mode: *mode });
                    }
                    assert(rest.skip(2) =~= all.skip(i + 2));
                    i = i + 2;
                } else {
                    assert(rest.skip(1) =~= all.skip(i + 1));
                    i = i + 1;
                }
            },
        }
    }
    assert(all.skip(i as int) =~= Seq::<TokenView>::empty());
    ParsedCommand { arguments, redirections }
}

} // verus!
