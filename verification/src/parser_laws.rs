//! Properties of the command-line parser that hold for every line.
use vstd::prelude::*;

use crate::parser::{
    append_char, build, empty_command, scan_char, second, start_redirection, word_is_plain_digit, finish_word, initial_scan, parse, scan, tokenize, ParsedCommandView,
    following_word, QuoteMode, RedirectionView, RedirectionsView, ScanState, TokenView, WriteMode,
};
use crate::text::char_is_whitespace;

verus! {

/// The characters that the tokenizer treats specially outside quotes.
pub open spec fn is_special(c: char) -> bool {
    c == '\'' || c == '"' || c == '\\' || c == '>'
}

/// Splitting `s` at whitespace, continuing from the words `done` already
/// found and the word `current` being read.
pub open spec fn words_from(done: Seq<Seq<char>>, current: Seq<char>, s: Seq<char>) -> Seq<Seq<char>>
    decreases s.len(),
{
    let closed = if current.len() > 0 { done.push(current) } else { done };
    if s.len() == 0 {
        closed
    } else if char_is_whitespace(s[0]) {
        words_from(closed, Seq::empty(), s.skip(1))
    } else {
        words_from(done, current.push(s[0]), s.skip(1))
    }
}

/// The maximal runs of non-whitespace characters of `s`, in order.
pub open spec fn split_words(s: Seq<char>) -> Seq<Seq<char>> {
    words_from(Seq::empty(), Seq::empty(), s)
}

pub open spec fn no_redirections() -> RedirectionsView {
    RedirectionsView { stdout: None, stderr: None }
}

pub open spec fn word_tokens(words: Seq<Seq<char>>) -> Seq<TokenView> {
    words.map_values(|w: Seq<char>| TokenView::Word(w))
}

proof fn lemma_word_tokens_push(words: Seq<Seq<char>>, w: Seq<char>)
    ensures
        word_tokens(words.push(w)) == word_tokens(words).push(TokenView::Word(w)),
{
    assert(word_tokens(words.push(w)) =~= word_tokens(words).push(TokenView::Word(w)));
}

/// Building a command from words alone makes them all arguments, in
/// order, after those already found, and touches no redirection.
pub proof fn lemma_build_words(acc: ParsedCommandView, words: Seq<Seq<char>>)
    ensures
        build(acc, word_tokens(words)) == (ParsedCommandView { arguments: acc.arguments + words, ..acc }),
    decreases words.len(),
{
    let tokens = word_tokens(words);
    if words.len() == 0 {
        assert(acc.arguments + words =~= acc.arguments);
    } else {
        assert(tokens[0] == TokenView::Word(words[0]));
        assert(tokens.skip(1) =~= word_tokens(words.skip(1)));
        let next = ParsedCommandView { arguments: acc.arguments.push(words[0]), ..acc };
        lemma_build_words(next, words.skip(1));
        assert(next.arguments + words.skip(1) =~= acc.arguments + words);
    }
}

/// Scanning characters that are not special, outside quotes, only splits
/// them into words at whitespace.
proof fn lemma_scan_plain(st: ScanState, done: Seq<Seq<char>>, s: Seq<char>)
    requires
        st.mode == QuoteMode::Unquoted,
        st.tokens == word_tokens(done),
        st.word_started == (st.word.len() > 0),
        forall|i: int| 0 <= i < s.len() ==> !is_special(#[trigger] s[i]),
    ensures
        finish_word(scan(st, s)).tokens == word_tokens(words_from(done, st.word, s)),
    decreases s.len(),
{
    if s.len() == 0 {
        if st.word.len() > 0 {
            lemma_word_tokens_push(done, st.word);
        }
    } else {
        let c = s[0];
        assert(!is_special(c));
        let rest = s.skip(1);
        assert forall|i: int| 0 <= i < rest.len() implies !is_special(#[trigger] rest[i]) by {
            assert(rest[i] == s[i + 1]);
        }
        if char_is_whitespace(c) {
            let closed = if st.word.len() > 0 { done.push(st.word) } else { done };
            if st.word.len() > 0 {
                lemma_word_tokens_push(done, st.word);
            } else {
                assert(st.word =~= Seq::<char>::empty());
            }
            assert(scan_char(st, c, second(s)) == (finish_word(st), false));
            assert(scan(st, s) == scan(finish_word(st), rest));
            assert(words_from(done, st.word, s) == words_from(closed, Seq::empty(), rest));
            lemma_scan_plain(finish_word(st), closed, rest);
        } else {
            assert(scan_char(st, c, second(s)) == (append_char(st, c), false));
            assert(scan(st, s) == scan(append_char(st, c), rest));
            assert(words_from(done, st.word, s) == words_from(done, st.word.push(c), rest));
            lemma_scan_plain(append_char(st, c), done, rest);
        }
    }
}

/// A line without quotes, backslashes or `>` is its words split at
/// whitespace, with no redirection.
pub proof fn lemma_plain_line_splits_on_whitespace(s: Seq<char>)
    requires
        forall|i: int| 0 <= i < s.len() ==> !is_special(#[trigger] s[i]),
    ensures
        parse(s) == (ParsedCommandView { arguments: split_words(s), redirections: no_redirections() }),
{
    assert(initial_scan().tokens =~= word_tokens(Seq::empty()));
    lemma_scan_plain(initial_scan(), Seq::empty(), s);
    lemma_build_words(empty_command(), split_words(s));
    assert(empty_command().arguments + split_words(s) =~= split_words(s));
}

/// Whitespace before a line changes nothing.
pub proof fn lemma_leading_whitespace_ignored(c: char, s: Seq<char>)
    requires
        char_is_whitespace(c),
    ensures
        parse(seq![c] + s) == parse(s),
{
    let line = seq![c] + s;
    assert(line[0] == c);
    assert(line.skip(1) =~= s);
}

/// Inside single quotes every character but `'` is added to the word.
proof fn lemma_scan_single_quoted(st: ScanState, w: Seq<char>, rest: Seq<char>)
    requires
        st.mode == QuoteMode::SingleQuoted,
        st.word_started,
        forall|i: int| 0 <= i < w.len() ==> #[trigger] w[i] != '\'',
    ensures
        scan(st, w + rest) == scan(ScanState { word: st.word + w, ..st }, rest),
    decreases w.len(),
{
    if w.len() == 0 {
        assert(w + rest =~= rest);
        assert(st.word + w =~= st.word);
    } else {
        let line = w + rest;
        assert(line[0] == w[0]);
        assert(line.skip(1) =~= w.skip(1) + rest);
        let next = append_char(st, w[0]);
        lemma_scan_single_quoted(next, w.skip(1), rest);
        assert(next.word + w.skip(1) =~= st.word + w);
    }
}

/// Inside double quotes every character but `"` and `\` is added to the word.
proof fn lemma_scan_double_quoted(st: ScanState, w: Seq<char>, rest: Seq<char>)
    requires
        st.mode == QuoteMode::DoubleQuoted,
        st.word_started,
        forall|i: int| 0 <= i < w.len() ==> #[trigger] w[i] != '"' && w[i] != '\\',
    ensures
        scan(st, w + rest) == scan(ScanState { word: st.word + w, ..st }, rest),
    decreases w.len(),
{
    if w.len() == 0 {
        assert(w + rest =~= rest);
        assert(st.word + w =~= st.word);
    } else {
        let line = w + rest;
        assert(line[0] == w[0]);
        assert(line.skip(1) =~= w.skip(1) + rest);
        let next = append_char(st, w[0]);
        lemma_scan_double_quoted(next, w.skip(1), rest);
        assert(next.word + w.skip(1) =~= st.word + w);
    }
}

/// Text in single quotes, whatever it holds but `'`, is one argument, and
/// the quotes are removed. This holds of empty quotes too.
pub proof fn lemma_single_quotes_keep_text(w: Seq<char>)
    requires
        forall|i: int| 0 <= i < w.len() ==> #[trigger] w[i] != '\'',
    ensures
        parse(seq!['\''] + w + seq!['\'']) == (ParsedCommandView { arguments: seq![w], redirections: no_redirections() }),
{
    let line = seq!['\''] + w + seq!['\''];
    assert(line[0] == '\'');
    assert(line.skip(1) =~= w + seq!['\'']);
    let opened = ScanState {
        mode: QuoteMode::SingleQuoted,
        word_started: true,
        word_is_plain: false,
        ..initial_scan()
    };
    assert(scan_char(initial_scan(), '\'', second(line)) == (opened, false));
    assert(scan(initial_scan(), line) == scan(opened, w + seq!['\'']));
    lemma_scan_single_quoted(opened, w, seq!['\'']);
    let filled = ScanState { word: opened.word + w, ..opened };
    assert(opened.word + w =~= w);
    let end = seq!['\''];
    assert(end.skip(1) =~= Seq::<char>::empty());
    let closed = ScanState { mode: QuoteMode::Unquoted, ..filled };
    assert(scan_char(filled, '\'', second(end)) == (closed, false));
    assert(scan(filled, end) == scan(closed, Seq::<char>::empty()));
    assert(finish_word(closed).tokens =~= seq![TokenView::Word(w)]);
    lemma_build_words(empty_command(), seq![w]);
    assert(tokenize(line) =~= word_tokens(seq![w]));
    assert(empty_command().arguments + seq![w] =~= seq![w]);
}

/// Text in double quotes without `"` or `\` is one argument, and the quotes
/// are removed.
pub proof fn lemma_double_quotes_keep_text(w: Seq<char>)
    requires
        forall|i: int| 0 <= i < w.len() ==> #[trigger] w[i] != '"' && w[i] != '\\',
    ensures
        parse(seq!['"'] + w + seq!['"']) == (ParsedCommandView { arguments: seq![w], redirections: no_redirections() }),
{
    let line = seq!['"'] + w + seq!['"'];
    assert(line[0] == '"');
    assert(line.skip(1) =~= w + seq!['"']);
    let opened = ScanState {
        mode: QuoteMode::DoubleQuoted,
        word_started: true,
        word_is_plain: false,
        ..initial_scan()
    };
    assert(scan_char(initial_scan(), '"', second(line)) == (opened, false));
    assert(scan(initial_scan(), line) == scan(opened, w + seq!['"']));
    lemma_scan_double_quoted(opened, w, seq!['"']);
    let filled = ScanState { word: opened.word + w, ..opened };
    assert(opened.word + w =~= w);
    let end = seq!['"'];
    assert(end.skip(1) =~= Seq::<char>::empty());
    let closed = ScanState { mode: QuoteMode::Unquoted, ..filled };
    assert(scan_char(filled, '"', second(end)) == (closed, false));
    assert(scan(filled, end) == scan(closed, Seq::<char>::empty()));
    assert(finish_word(closed).tokens =~= seq![TokenView::Word(w)]);
    lemma_build_words(empty_command(), seq![w]);
    assert(tokenize(line) =~= word_tokens(seq![w]));
    assert(empty_command().arguments + seq![w] =~= seq![w]);
}

/// Outside quotes, a backslash keeps the character after it, whatever it
/// is, and disappears.
pub proof fn lemma_backslash_keeps_next(c: char)
    ensures
        parse(seq!['\\', c]) == (ParsedCommandView { arguments: seq![seq![c]], redirections: no_redirections() }),
{
    let line = seq!['\\', c];
    assert(line.skip(2) =~= Seq::<char>::empty());
    assert(Seq::<char>::empty().push(c) =~= seq![c]);
    let after = ScanState { word: seq![c], word_started: true, word_is_plain: false, ..initial_scan() };
    assert(second(line) == Some(c));
    assert(scan_char(initial_scan(), '\\', Some(c)) == (after, true));
    assert(scan(initial_scan(), line) == scan(after, Seq::<char>::empty()));
    assert(finish_word(after).tokens =~= seq![TokenView::Word(seq![c])]);
    lemma_build_words(empty_command(), seq![seq![c]]);
    assert(tokenize(line) =~= word_tokens(seq![seq![c]]));
    assert(empty_command().arguments + seq![seq![c]] =~= seq![seq![c]]);
}

/// Inside double quotes, a backslash disappears before `"` and `\` and is
/// kept before any other character.
pub proof fn lemma_backslash_in_double_quotes(c: char)
    ensures
        parse(seq!['"', '\\', c, '"']) == (ParsedCommandView {
            arguments: seq![if c == '"' || c == '\\' { seq![c] } else { seq!['\\', c] }],
            redirections: no_redirections(),
        }),
{
    let line = seq!['"', '\\', c, '"'];
    let expected = if c == '"' || c == '\\' { seq![c] } else { seq!['\\', c] };
    assert(line.skip(1) =~= seq!['\\', c, '"']);
    assert(seq!['\\', c, '"'].skip(2) =~= seq!['"']);
    assert(seq!['"'].skip(1) =~= Seq::<char>::empty());
    assert(Seq::<char>::empty().push(c) =~= seq![c]);
    assert(Seq::<char>::empty().push('\\').push(c) =~= seq!['\\', c]);
    let opened = ScanState {
        mode: QuoteMode::DoubleQuoted,
        word_started: true,
        word_is_plain: false,
        ..initial_scan()
    };
    let filled = ScanState { word: expected, ..opened };
    let closed = ScanState { mode: QuoteMode::Unquoted, ..filled };
    let tail = seq!['\\', c, '"'];
    assert(scan_char(initial_scan(), '"', second(line)) == (opened, false));
    assert(scan(initial_scan(), line) == scan(opened, tail));
    assert(second(tail) == Some(c));
    assert(scan_char(opened, '\\', Some(c)) == (filled, true));
    assert(scan(opened, tail) == scan(filled, seq!['"']));
    assert(scan_char(filled, '"', second(seq!['"'])) == (closed, false));
    assert(scan(filled, seq!['"']) == scan(closed, Seq::<char>::empty()));
    assert(finish_word(closed).tokens =~= seq![TokenView::Word(expected)]);
    lemma_build_words(empty_command(), seq![expected]);
    assert(tokenize(line) =~= word_tokens(seq![expected]));
    assert(empty_command().arguments + seq![expected] =~= seq![expected]);
}

/// The same state with no finished tokens.
spec fn without_tokens(st: ScanState) -> ScanState {
    ScanState { tokens: Seq::empty(), ..st }
}

/// `st` with the tokens `before` put in front of its finished tokens.
spec fn with_tokens_before(before: Seq<TokenView>, st: ScanState) -> ScanState {
    ScanState { tokens: before + st.tokens, ..st }
}

/// A step only adds tokens at the end: the tokens already finished play
/// no part in it.
proof fn lemma_scan_char_keeps_tokens(st: ScanState, c: char, next: Option<char>)
    ensures
        scan_char(st, c, next).1 == scan_char(without_tokens(st), c, next).1,
        scan_char(st, c, next).0 == with_tokens_before(st.tokens, scan_char(without_tokens(st), c, next).0),
{
    let base = without_tokens(st);
    assert(st.tokens + base.tokens =~= st.tokens);
    assert(st == with_tokens_before(st.tokens, base));
    let w = TokenView::Word(st.word);
    assert(st.tokens.push(w) =~= st.tokens + base.tokens.push(w));
    assert forall|t: TokenView| #[trigger] st.tokens.push(t) == st.tokens + base.tokens.push(t) by {
        assert(st.tokens.push(t) =~= st.tokens + base.tokens.push(t));
    }
    assert forall|t: TokenView| #[trigger] st.tokens.push(w).push(t) == st.tokens + base.tokens.push(w).push(t) by {
        assert(st.tokens.push(w).push(t) =~= st.tokens + base.tokens.push(w).push(t));
    }
}

/// Scanning only adds tokens at the end of those already finished.
proof fn lemma_scan_keeps_tokens(st: ScanState, s: Seq<char>)
    ensures
        scan(st, s) == with_tokens_before(st.tokens, scan(without_tokens(st), s)),
        finish_word(scan(st, s)) == with_tokens_before(st.tokens, finish_word(scan(without_tokens(st), s))),
    decreases s.len(),
{
    let base = without_tokens(st);
    if s.len() == 0 {
        assert(st.tokens + base.tokens =~= st.tokens);
    } else {
        lemma_scan_char_keeps_tokens(st, s[0], second(s));
        let (after, used) = scan_char(st, s[0], second(s));
        let (base_after, _) = scan_char(base, s[0], second(s));
        let rest = s.skip(if used { 2 } else { 1 });
        lemma_scan_keeps_tokens(after, rest);
        lemma_scan_keeps_tokens(base_after, rest);
        assert(without_tokens(after) == without_tokens(base_after));
        let r = scan(without_tokens(after), rest);
        assert(st.tokens + (base_after.tokens + r.tokens) =~= (st.tokens + base_after.tokens) + r.tokens);
        let fr = finish_word(r);
        assert(st.tokens + (base_after.tokens + fr.tokens) =~= (st.tokens + base_after.tokens) + fr.tokens);
    }
}

/// The state right after an operator: the tokenizer is back at its start,
/// with `tokens` finished.
spec fn after_operator(tokens: Seq<TokenView>) -> ScanState {
    ScanState { tokens: tokens, ..initial_scan() }
}

/// A plain `2` or `1` right before `>` belongs to the operator: `2>` sends
/// errors and `1>` sends normal output, replacing the file. Quoted or
/// escaped, the digit is a word of its own, and `>` sends normal output.
/// (When `>` is followed by another `>`, the two form `>>`.)
pub proof fn lemma_plain_digit_joins_operator(s: Seq<char>)
    requires
        s.len() == 0 || s[0] != '>',
    ensures
        tokenize(seq!['2', '>'] + s) == seq![TokenView::RedirectStderr(WriteMode::Truncate)] + tokenize(s),
        tokenize(seq!['1', '>'] + s) == seq![TokenView::RedirectStdout(WriteMode::Truncate)] + tokenize(s),
        tokenize(seq!['>'] + s) == seq![TokenView::RedirectStdout(WriteMode::Truncate)] + tokenize(s),
        tokenize(seq!['\'', '2', '\'', '>'] + s) == seq![
            TokenView::Word(seq!['2']),
            TokenView::RedirectStdout(WriteMode::Truncate),
        ] + tokenize(s),
        tokenize(seq!['\\', '2', '>'] + s) == seq![
            TokenView::Word(seq!['2']),
            TokenView::RedirectStdout(WriteMode::Truncate),
        ] + tokenize(s),
{
    let init = initial_scan();
    let mode = WriteMode::Truncate;
    let err = seq![TokenView::RedirectStderr(mode)];
    let out = seq![TokenView::RedirectStdout(mode)];
    let word_out = seq![TokenView::Word(seq!['2']), TokenView::RedirectStdout(mode)];
    assert(seq!['2'] =~= Seq::<char>::empty().push('2'));
    assert(seq!['1'] =~= Seq::<char>::empty().push('1'));
    lemma_scan_keeps_tokens(after_operator(err), s);
    lemma_scan_keeps_tokens(after_operator(out), s);
    lemma_scan_keeps_tokens(after_operator(word_out), s);
    assert(without_tokens(after_operator(err)) == init);
    // The character after `>` is not another `>`.
    let gt = seq!['>'] + s;
    assert(gt[0] == '>');
    assert(gt.skip(1) =~= s);
    assert(second(gt) != Some('>'));
    assert(seq!['2', '>'] + s =~= seq!['2'] + gt);
    assert(seq!['1', '>'] + s =~= seq!['1'] + gt);
    assert(seq!['\'', '2', '\'', '>'] + s =~= seq!['\'', '2', '\''] + gt);
    assert(seq!['\\', '2', '>'] + s =~= seq!['\\', '2'] + gt);
    assert(init.word.len() == 0);
    assert(init.tokens.push(TokenView::RedirectStdout(mode)) =~= out);

    // `2>`
    let line = seq!['2'] + gt;
    assert(line[0] == '2');
    assert(line.skip(1) =~= gt);
    let two = append_char(init, '2');
    assert(scan(init, line) == scan(two, gt));
    assert(start_redirection(two, mode) == after_operator(err));
    assert(scan(two, gt) == scan(after_operator(err), s));

    // `1>`
    let line = seq!['1'] + gt;
    assert(line[0] == '1');
    assert(line.skip(1) =~= gt);
    let one = append_char(init, '1');
    assert(scan(init, line) == scan(one, gt));
    assert(one.word[0] != seq!['2'][0]);
    assert(!word_is_plain_digit(one, '2'));
    assert(start_redirection(one, mode) == after_operator(out));
    assert(scan(one, gt) == scan(after_operator(out), s));

    // `>`
    assert(start_redirection(init, mode) == after_operator(out));
    assert(scan(init, gt) == scan(after_operator(out), s));

    // `'2'>`
    let line = seq!['\'', '2', '\''] + gt;
    assert(line[0] == '\'' && line[1] == '2' && line[2] == '\'');
    let opened = ScanState { mode: QuoteMode::SingleQuoted, word_started: true, word_is_plain: false, ..init };
    let quoted = append_char(opened, '2');
    let closed = ScanState { mode: QuoteMode::Unquoted, ..quoted };
    assert(scan(init, line) == scan(opened, line.skip(1)));
    assert(line.skip(1)[0] == '2');
    assert(scan(opened, line.skip(1)) == scan(quoted, line.skip(1).skip(1)));
    assert(line.skip(1).skip(1)[0] == '\'');
    assert(line.skip(1).skip(1).skip(1) =~= gt);
    assert(scan(quoted, line.skip(1).skip(1)) == scan(closed, gt));
    assert(!closed.word_is_plain);
    assert(closed.word =~= seq!['2']);
    assert(finish_word(closed).tokens =~= seq![TokenView::Word(seq!['2'])]);
    assert(start_redirection(closed, mode).tokens =~= word_out);
    assert(start_redirection(closed, mode) == after_operator(word_out));
    assert(scan(closed, gt) == scan(after_operator(word_out), s));

    // `\2>`
    let line = seq!['\\', '2'] + gt;
    assert(line[0] == '\\' && line[1] == '2');
    let escaped = ScanState { word: seq!['2'], word_started: true, word_is_plain: false, ..init };
    assert(second(line) == Some('2'));
    assert(scan_char(init, '\\', Some('2')) == (escaped, true));
    assert(line.skip(2) =~= gt);
    assert(scan(init, line) == scan(escaped, gt));
    assert(finish_word(escaped).tokens =~= seq![TokenView::Word(seq!['2'])]);
    assert(start_redirection(escaped, mode).tokens =~= word_out);
    assert(start_redirection(escaped, mode) == after_operator(word_out));
    assert(scan(escaped, gt) == scan(after_operator(word_out), s));
}

/// `>>` is one operator that appends to its file; a plain `1` or `2` right
/// before it is taken into it, as with `>`.
pub proof fn lemma_double_gt_appends(s: Seq<char>)
    ensures
        tokenize(seq!['>', '>'] + s) == seq![TokenView::RedirectStdout(WriteMode::Append)] + tokenize(s),
        tokenize(seq!['1', '>', '>'] + s) == seq![TokenView::RedirectStdout(WriteMode::Append)] + tokenize(s),
        tokenize(seq!['2', '>', '>'] + s) == seq![TokenView::RedirectStderr(WriteMode::Append)] + tokenize(s),
{
    let init = initial_scan();
    let mode = WriteMode::Append;
    let err = seq![TokenView::RedirectStderr(mode)];
    let out = seq![TokenView::RedirectStdout(mode)];
    assert(seq!['2'] =~= Seq::<char>::empty().push('2'));
    assert(seq!['1'] =~= Seq::<char>::empty().push('1'));
    lemma_scan_keeps_tokens(after_operator(err), s);
    lemma_scan_keeps_tokens(after_operator(out), s);
    assert(without_tokens(after_operator(err)) == init);
    let gt = seq!['>', '>'] + s;
    assert(gt[0] == '>');
    assert(second(gt) == Some('>'));
    assert(gt.skip(2) =~= s);
    assert(seq!['2', '>', '>'] + s =~= seq!['2'] + gt);
    assert(seq!['1', '>', '>'] + s =~= seq!['1'] + gt);
    assert(init.word.len() == 0);
    assert(init.tokens.push(TokenView::RedirectStdout(mode)) =~= out);

    // `>>`
    assert(start_redirection(init, mode) == after_operator(out));
    assert(scan(init, gt) == scan(after_operator(out), s));

    // `1>>`
    let line = seq!['1'] + gt;
    assert(line[0] == '1');
    assert(line.skip(1) =~= gt);
    let one = append_char(init, '1');
    assert(scan(init, line) == scan(one, gt));
    assert(one.word[0] != seq!['2'][0]);
    assert(!word_is_plain_digit(one, '2'));
    assert(start_redirection(one, mode) == after_operator(out));
    assert(scan(one, gt) == scan(after_operator(out), s));

    // `2>>`
    let line = seq!['2'] + gt;
    assert(line[0] == '2');
    assert(line.skip(1) =~= gt);
    let two = append_char(init, '2');
    assert(scan(init, line) == scan(two, gt));
    assert(start_redirection(two, mode) == after_operator(err));
    assert(scan(two, gt) == scan(after_operator(err), s));
}

/// What holds of the tokenizer's state between any two characters: a word
/// that has not started is empty and plain, and inside quotes a word has
/// started and is not plain.
pub open spec fn scan_invariant(st: ScanState) -> bool {
    &&& !st.word_started ==> st.word.len() == 0 && st.word_is_plain
    &&& st.mode != QuoteMode::Unquoted ==> st.word_started && !st.word_is_plain
}

/// The tokenizer starts in a state that meets its invariant.
pub proof fn lemma_initial_scan_invariant()
    ensures
        scan_invariant(initial_scan()),
{
}

/// Every character step keeps the tokenizer's invariant.
pub proof fn lemma_scan_char_keeps_invariant(st: ScanState, c: char, next: Option<char>)
    requires
        scan_invariant(st),
    ensures
        scan_invariant(scan_char(st, c, next).0),
{
    assert(word_is_plain_digit(st, '1') ==> st.word_is_plain);
    assert(word_is_plain_digit(st, '2') ==> st.word_is_plain);
}

/// Running the tokenizer over any text keeps its invariant, so it holds of
/// every state that tokenizing a line passes through.
pub proof fn lemma_scan_keeps_invariant(st: ScanState, s: Seq<char>)
    requires
        scan_invariant(st),
    ensures
        scan_invariant(scan(st, s)),
    decreases s.len(),
{
    if s.len() > 0 {
        lemma_scan_char_keeps_invariant(st, s[0], second(s));
        let (after, used) = scan_char(st, s[0], second(s));
        lemma_scan_keeps_invariant(after, s.skip(if used { 2 } else { 1 }));
    }
}

/// Finishing a word twice is the same as finishing it once.
pub proof fn lemma_finish_word_idempotent(st: ScanState)
    ensures
        finish_word(finish_word(st)) == finish_word(st),
{
}

/// Some token of `tokens` is an operator for error output.
pub open spec fn has_stderr_operator(tokens: Seq<TokenView>) -> bool {
    exists|i: int| 0 <= i < tokens.len() && #[trigger] tokens[i] is RedirectStderr
}

/// Some token of `tokens` is an operator for normal output.
pub open spec fn has_stdout_operator(tokens: Seq<TokenView>) -> bool {
    exists|i: int| 0 <= i < tokens.len() && #[trigger] tokens[i] is RedirectStdout
}

proof fn lemma_no_stderr_operator_in_suffix(tokens: Seq<TokenView>, k: int)
    requires
        !has_stderr_operator(tokens),
        0 <= k <= tokens.len(),
    ensures
        !has_stderr_operator(tokens.skip(k)),
{
    let rest = tokens.skip(k);
    assert forall|i: int| 0 <= i < rest.len() implies !(#[trigger] rest[i] is RedirectStderr) by {
        assert(rest[i] == tokens[i + k]);
    }
}

proof fn lemma_no_stdout_operator_in_suffix(tokens: Seq<TokenView>, k: int)
    requires
        !has_stdout_operator(tokens),
        0 <= k <= tokens.len(),
    ensures
        !has_stdout_operator(tokens.skip(k)),
{
    let rest = tokens.skip(k);
    assert forall|i: int| 0 <= i < rest.len() implies !(#[trigger] rest[i] is RedirectStdout) by {
        assert(rest[i] == tokens[i + k]);
    }
}

/// The error stream's redirection is changed only by error operators:
/// words and normal-output operators leave it as it was.
pub proof fn lemma_stderr_kept_without_its_operator(acc: ParsedCommandView, tokens: Seq<TokenView>)
    requires
        !has_stderr_operator(tokens),
    ensures
        build(acc, tokens).redirections.stderr == acc.redirections.stderr,
    decreases tokens.len(),
{
    if tokens.len() > 0 {
        let k: int = if tokens.len() > 1 { 2 } else { 1 };
        lemma_no_stderr_operator_in_suffix(tokens, 1);
        lemma_no_stderr_operator_in_suffix(tokens, k);
        assert(!(tokens[0] is RedirectStderr));
        match tokens[0] {
            TokenView::Word(w) => {
                lemma_stderr_kept_without_its_operator(
                    ParsedCommandView { arguments: acc.arguments.push(w), ..acc },
                    tokens.skip(1),
                );
            },
            TokenView::RedirectStdout(mode) => match following_word(tokens) {
                Some(path) => {
                    lemma_stderr_kept_without_its_operator(
                        ParsedCommandView {
                            redirections: RedirectionsView {
                                stdout: Some(RedirectionView { file_path: path, write_mode: mode }),
                                ..acc.redirections
                            },
                            ..acc
                        },
                        tokens.skip(k),
                    );
                },
                None => {
                    lemma_stderr_kept_without_its_operator(acc, tokens.skip(k));
                },
            },
            TokenView::RedirectStderr(_) => {},
        }
    }
}

/// The normal-output redirection is changed only by normal-output
/// operators: words and error operators leave it as it was.
pub proof fn lemma_stdout_kept_without_its_operator(acc: ParsedCommandView, tokens: Seq<TokenView>)
    requires
        !has_stdout_operator(tokens),
    ensures
        build(acc, tokens).redirections.stdout == acc.redirections.stdout,
    decreases tokens.len(),
{
    if tokens.len() > 0 {
        let k: int = if tokens.len() > 1 { 2 } else { 1 };
        lemma_no_stdout_operator_in_suffix(tokens, 1);
        lemma_no_stdout_operator_in_suffix(tokens, k);
        assert(!(tokens[0] is RedirectStdout));
        match tokens[0] {
            TokenView::Word(w) => {
                lemma_stdout_kept_without_its_operator(
                    ParsedCommandView { arguments: acc.arguments.push(w), ..acc },
                    tokens.skip(1),
                );
            },
            TokenView::RedirectStderr(mode) => match following_word(tokens) {
                Some(path) => {
                    lemma_stdout_kept_without_its_operator(
                        ParsedCommandView {
                            redirections: RedirectionsView {
                                stderr: Some(RedirectionView { file_path: path, write_mode: mode }),
                                ..acc.redirections
                            },
                            ..acc
                        },
                        tokens.skip(k),
                    );
                },
                None => {
                    lemma_stdout_kept_without_its_operator(acc, tokens.skip(k));
                },
            },
            TokenView::RedirectStdout(_) => {},
        }
    }
}

/// An error operator followed by a word sends errors to that file, with the
/// operator's mode, unless a later error operator comes; operators for
/// normal output after it do not undo it.
pub proof fn lemma_last_stderr_redirection_wins(
    acc: ParsedCommandView,
    mode: WriteMode,
    file: Seq<char>,
    tokens: Seq<TokenView>,
)
    requires
        !has_stderr_operator(tokens),
    ensures
        build(acc, seq![TokenView::RedirectStderr(mode), TokenView::Word(file)] + tokens).redirections.stderr
            == Some(RedirectionView { file_path: file, write_mode: mode }),
{
    let line = seq![TokenView::RedirectStderr(mode), TokenView::Word(file)] + tokens;
    assert(line[0] == TokenView::RedirectStderr(mode));
    assert(line[1] == TokenView::Word(file));
    assert(following_word(line) == Some(file));
    assert(line.skip(2) =~= tokens);
    let after = ParsedCommandView {
        redirections: RedirectionsView {
            stderr: Some(RedirectionView { file_path: file, write_mode: mode }),
            ..acc.redirections
        },
        ..acc
    };
    lemma_stderr_kept_without_its_operator(after, tokens);
}

/// A normal-output operator followed by a word sends output to that file,
/// with the operator's mode, unless a later normal-output operator comes;
/// error operators after it do not undo it.
pub proof fn lemma_last_stdout_redirection_wins(
    acc: ParsedCommandView,
    mode: WriteMode,
    file: Seq<char>,
    tokens: Seq<TokenView>,
)
    requires
        !has_stdout_operator(tokens),
    ensures
        build(acc, seq![TokenView::RedirectStdout(mode), TokenView::Word(file)] + tokens).redirections.stdout
            == Some(RedirectionView { file_path: file, write_mode: mode }),
{
    let line = seq![TokenView::RedirectStdout(mode), TokenView::Word(file)] + tokens;
    assert(line[0] == TokenView::RedirectStdout(mode));
    assert(line[1] == TokenView::Word(file));
    assert(following_word(line) == Some(file));
    assert(line.skip(2) =~= tokens);
    let after = ParsedCommandView {
        redirections: RedirectionsView {
            stdout: Some(RedirectionView { file_path: file, write_mode: mode }),
            ..acc.redirections
        },
        ..acc
    };
    lemma_stdout_kept_without_its_operator(after, tokens);
}

/// On a whole line: `2>` followed by a file name sends errors to that file,
/// replacing it, whatever normal-output redirections follow, as long as no
/// later error operator comes. So `2> e > o` keeps `e` for errors.
pub proof fn lemma_parse_keeps_stderr_file(s: Seq<char>)
    requires
        s.len() == 0 || s[0] != '>',
        tokenize(s).len() > 0,
        tokenize(s)[0] is Word,
        !has_stderr_operator(tokenize(s).skip(1)),
    ensures
        parse(seq!['2', '>'] + s).redirections.stderr == Some(
            RedirectionView { file_path: tokenize(s)[0]->Word_0, write_mode: WriteMode::Truncate },
        ),
{
    lemma_plain_digit_joins_operator(s);
    let t = tokenize(s);
    let file = t[0]->Word_0;
    assert(seq![TokenView::RedirectStderr(WriteMode::Truncate)] + t =~= seq![
        TokenView::RedirectStderr(WriteMode::Truncate),
        TokenView::Word(file),
    ] + t.skip(1));
    lemma_last_stderr_redirection_wins(empty_command(), WriteMode::Truncate, file, t.skip(1));
}

/// On a whole line: `>` followed by a file name sends output to that file,
/// replacing it, whatever error redirections follow, as long as no later
/// normal-output operator comes. So `> o 2> e` keeps `o` for output.
pub proof fn lemma_parse_keeps_stdout_file(s: Seq<char>)
    requires
        s.len() == 0 || s[0] != '>',
        tokenize(s).len() > 0,
        tokenize(s)[0] is Word,
        !has_stdout_operator(tokenize(s).skip(1)),
    ensures
        parse(seq!['>'] + s).redirections.stdout == Some(
            RedirectionView { file_path: tokenize(s)[0]->Word_0, write_mode: WriteMode::Truncate },
        ),
{
    lemma_plain_digit_joins_operator(s);
    let t = tokenize(s);
    let file = t[0]->Word_0;
    assert(seq![TokenView::RedirectStdout(WriteMode::Truncate)] + t =~= seq![
        TokenView::RedirectStdout(WriteMode::Truncate),
        TokenView::Word(file),
    ] + t.skip(1));
    lemma_last_stdout_redirection_wins(empty_command(), WriteMode::Truncate, file, t.skip(1));
}

/// The arguments found do not depend on the redirections already found.
pub proof fn lemma_arguments_ignore_redirections(
    acc: ParsedCommandView,
    redirections: RedirectionsView,
    tokens: Seq<TokenView>,
)
    ensures
        build(acc, tokens).arguments == build(ParsedCommandView { redirections, ..acc }, tokens).arguments,
    decreases tokens.len(),
{
    if tokens.len() > 0 {
        let k: int = if tokens.len() > 1 { 2 } else { 1 };
        let other = ParsedCommandView { redirections, ..acc };
        match tokens[0] {
            TokenView::Word(w) => {
                lemma_arguments_ignore_redirections(
                    ParsedCommandView { arguments: acc.arguments.push(w), ..acc },
                    redirections,
                    tokens.skip(1),
                );
            },
            TokenView::RedirectStdout(mode) => match following_word(tokens) {
                Some(path) => {
                    let a = ParsedCommandView {
                        redirections: RedirectionsView {
                            stdout: Some(RedirectionView { file_path: path, write_mode: mode }),
                            ..acc.redirections
                        },
                        ..acc
                    };
                    let b = ParsedCommandView {
                        redirections: RedirectionsView {
                            stdout: Some(RedirectionView { file_path: path, write_mode: mode }),
                            ..redirections
                        },
                        ..acc
                    };
                    lemma_arguments_ignore_redirections(a, b.redirections, tokens.skip(k));
                },
                None => {
                    lemma_arguments_ignore_redirections(acc, redirections, tokens.skip(k));
                },
            },
            TokenView::RedirectStderr(mode) => match following_word(tokens) {
                Some(path) => {
                    let a = ParsedCommandView {
                        redirections: RedirectionsView {
                            stderr: Some(RedirectionView { file_path: path, write_mode: mode }),
                            ..acc.redirections
                        },
                        ..acc
                    };
                    let b = ParsedCommandView {
                        redirections: RedirectionsView {
                            stderr: Some(RedirectionView { file_path: path, write_mode: mode }),
                            ..redirections
                        },
                        ..acc
                    };
                    lemma_arguments_ignore_redirections(a, b.redirections, tokens.skip(k));
                },
                None => {
                    lemma_arguments_ignore_redirections(acc, redirections, tokens.skip(k));
                },
            },
        }
    }
}

/// Arguments already found are kept: building only adds arguments after
/// them.
pub proof fn lemma_arguments_only_grow(acc: ParsedCommandView, tokens: Seq<TokenView>)
    ensures
        acc.arguments.len() <= build(acc, tokens).arguments.len(),
        build(acc, tokens).arguments.subrange(0, acc.arguments.len() as int) == acc.arguments,
    decreases tokens.len(),
{
    if tokens.len() > 0 {
        let k: int = if tokens.len() > 1 { 2 } else { 1 };
        match tokens[0] {
            TokenView::Word(w) => {
                let next = ParsedCommandView { arguments: acc.arguments.push(w), ..acc };
                lemma_arguments_only_grow(next, tokens.skip(1));
                let r = build(next, tokens.skip(1)).arguments;
                assert(r.subrange(0, acc.arguments.len() as int) =~= r.subrange(
                    0,
                    next.arguments.len() as int,
                ).subrange(0, acc.arguments.len() as int));
                assert(next.arguments.subrange(0, acc.arguments.len() as int) =~= acc.arguments);
            },
            TokenView::RedirectStdout(mode) => match following_word(tokens) {
                Some(path) => {
                    lemma_arguments_only_grow(
                        ParsedCommandView {
                            redirections: RedirectionsView {
                                stdout: Some(RedirectionView { file_path: path, write_mode: mode }),
                                ..acc.redirections
                            },
                            ..acc
                        },
                        tokens.skip(k),
                    );
                },
                None => {
                    lemma_arguments_only_grow(acc, tokens.skip(k));
                },
            },
            TokenView::RedirectStderr(mode) => match following_word(tokens) {
                Some(path) => {
                    lemma_arguments_only_grow(
                        ParsedCommandView {
                            redirections: RedirectionsView {
                                stderr: Some(RedirectionView { file_path: path, write_mode: mode }),
                                ..acc.redirections
                            },
                            ..acc
                        },
                        tokens.skip(k),
                    );
                },
                None => {
                    lemma_arguments_only_grow(acc, tokens.skip(k));
                },
            },
        }
    } else {
        assert(acc.arguments.subrange(0, acc.arguments.len() as int) =~= acc.arguments);
    }
}

/// An operator and the file it names add no argument: the arguments are
/// those of the tokens after them.
pub proof fn lemma_redirection_adds_no_argument(
    acc: ParsedCommandView,
    operator: TokenView,
    file: Seq<char>,
    tokens: Seq<TokenView>,
)
    requires
        !(operator is Word),
    ensures
        build(acc, seq![operator, TokenView::Word(file)] + tokens).arguments == build(acc, tokens).arguments,
{
    let line = seq![operator, TokenView::Word(file)] + tokens;
    assert(line[0] == operator);
    assert(line[1] == TokenView::Word(file));
    assert(following_word(line) == Some(file));
    assert(line.skip(2) =~= tokens);
    match operator {
        TokenView::RedirectStdout(mode) => {
            lemma_arguments_ignore_redirections(
                acc,
                RedirectionsView {
                    stdout: Some(RedirectionView { file_path: file, write_mode: mode }),
                    ..acc.redirections
                },
                tokens,
            );
        },
        TokenView::RedirectStderr(mode) => {
            lemma_arguments_ignore_redirections(
                acc,
                RedirectionsView {
                    stderr: Some(RedirectionView { file_path: file, write_mode: mode }),
                    ..acc.redirections
                },
                tokens,
            );
        },
        TokenView::Word(_) => {},
    }
}

/// Outside quotes, characters that are neither special nor whitespace are
/// added to the current word.
proof fn lemma_scan_word_chars(st: ScanState, w: Seq<char>, rest: Seq<char>)
    requires
        st.mode == QuoteMode::Unquoted,
        forall|i: int| 0 <= i < w.len() ==> !is_special(#[trigger] w[i]) && !char_is_whitespace(w[i]),
    ensures
        w.len() > 0 ==> scan(st, w + rest) == scan(
            ScanState { word: st.word + w, word_started: true, ..st },
            rest,
        ),
    decreases w.len(),
{
    if w.len() > 0 {
        let line = w + rest;
        assert(line[0] == w[0]);
        assert(line.skip(1) =~= w.skip(1) + rest);
        let next = append_char(st, w[0]);
        assert(scan(st, line) == scan(next, w.skip(1) + rest));
        if w.len() > 1 {
            lemma_scan_word_chars(next, w.skip(1), rest);
            assert(next.word + w.skip(1) =~= st.word + w);
        } else {
            assert(w.skip(1) + rest =~= rest);
            assert(next.word =~= st.word + w);
        }
    }
}

/// Outside quotes, a backslash after a word adds the next character,
/// whatever it is, to that word, and disappears.
pub proof fn lemma_backslash_extends_word(w: Seq<char>, c: char)
    requires
        w.len() > 0,
        forall|i: int| 0 <= i < w.len() ==> !is_special(#[trigger] w[i]) && !char_is_whitespace(w[i]),
    ensures
        parse(w + seq!['\\', c]) == (ParsedCommandView { arguments: seq![w.push(c)], redirections: no_redirections() }),
{
    let init = initial_scan();
    let tail = seq!['\\', c];
    lemma_scan_word_chars(init, w, tail);
    let typed = ScanState { word: init.word + w, word_started: true, ..init };
    assert(init.word + w =~= w);
    assert(second(tail) == Some(c));
    let escaped = ScanState { word: w.push(c), word_started: true, word_is_plain: false, ..init };
    assert(scan_char(typed, '\\', Some(c)) == (escaped, true));
    assert(tail.skip(2) =~= Seq::<char>::empty());
    assert(scan(typed, tail) == scan(escaped, Seq::<char>::empty()));
    assert(finish_word(escaped).tokens =~= word_tokens(seq![w.push(c)]));
    lemma_build_words(empty_command(), seq![w.push(c)]);
    assert(empty_command().arguments + seq![w.push(c)] =~= seq![w.push(c)]);
}

} // verus!
