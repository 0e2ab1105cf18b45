use shell::{parse_arguments, ParsedCommand, Redirection, Redirections, WriteMode};

fn words(list: &[&str]) -> Vec<String> {
    list.iter().map(|w| w.to_string()).collect()
}

fn redirection(file: Option<&str>, write_mode: WriteMode) -> Option<Redirection> {
    file.map(|f| Redirection { file_path: f.to_string(), write_mode })
}

fn expect_modes(
    input: &str,
    arguments: &[&str],
    stdout: Option<Redirection>,
    stderr: Option<Redirection>,
) {
    let expected = ParsedCommand { arguments: words(arguments), redirections: Redirections { stdout, stderr } };
    assert_eq!(parse_arguments(input), expected, "input: {:?}", input);
}

/// Expects files opened with `>` (replacing their contents).
fn expect(input: &str, arguments: &[&str], stdout_file: Option<&str>, stderr_file: Option<&str>) {
    expect_modes(
        input,
        arguments,
        redirection(stdout_file, WriteMode::Truncate),
        redirection(stderr_file, WriteMode::Truncate),
    );
}

fn append(file: &str) -> Option<Redirection> {
    redirection(Some(file), WriteMode::Append)
}

fn truncate(file: &str) -> Option<Redirection> {
    redirection(Some(file), WriteMode::Truncate)
}

#[test]
fn plain_words_split_on_spaces() {
    expect("echo hello world", &["echo", "hello", "world"], None, None);
}

#[test]
fn extra_spaces_are_ignored() {
    expect("   echo    hi   ", &["echo", "hi"], None, None);
}

#[test]
fn tabs_and_other_unicode_whitespace_split_words() {
    expect("echo\ta", &["echo", "a"], None, None);
    expect("a\u{a0}b", &["a", "b"], None, None);
}

#[test]
fn empty_line_has_no_words() {
    expect("", &[], None, None);
    expect("   ", &[], None, None);
}

#[test]
fn single_quotes_keep_spaces_and_disappear() {
    expect("echo 'hello   world'", &["echo", "hello   world"], None, None);
}

#[test]
fn double_quotes_keep_spaces_and_disappear() {
    expect("echo \"a b\" c", &["echo", "a b", "c"], None, None);
}

#[test]
fn empty_quotes_make_an_empty_word() {
    expect("echo ''", &["echo", ""], None, None);
    expect("echo \"\"", &["echo", ""], None, None);
}

#[test]
fn quotes_join_into_one_word() {
    expect("echo a\"\"b 'c'\"d\"", &["echo", "ab", "cd"], None, None);
}

#[test]
fn one_kind_of_quote_inside_the_other_is_literal() {
    expect("echo \"a'b\" 'c\"d'", &["echo", "a'b", "c\"d"], None, None);
}

#[test]
fn backslash_outside_quotes_keeps_next_character() {
    expect("echo hello\\ world", &["echo", "hello world"], None, None);
    expect("echo \\'x\\'", &["echo", "'x'"], None, None);
}

#[test]
fn backslash_in_double_quotes() {
    expect("echo \"a\\\"b\\\\c\\nd\"", &["echo", "a\"b\\c\\nd"], None, None);
}

#[test]
fn backslash_in_single_quotes_is_literal() {
    expect("echo 'a\\b'", &["echo", "a\\b"], None, None);
}

#[test]
fn backslash_at_end_of_line() {
    expect("echo trailing\\", &["echo", "trailing"], None, None);
    expect("echo \\", &["echo", ""], None, None);
    expect("echo \"open \\", &["echo", "open "], None, None);
}

#[test]
fn unterminated_quote_runs_to_end_of_line() {
    expect("echo it's here", &["echo", "its here"], None, None);
}

#[test]
fn redirect_stdout() {
    expect("echo hi > out.txt", &["echo", "hi"], Some("out.txt"), None);
    expect("echo hi 1> out.txt", &["echo", "hi"], Some("out.txt"), None);
    expect("echo hi>out.txt", &["echo", "hi"], Some("out.txt"), None);
}

#[test]
fn redirect_stderr() {
    expect("ls nope 2> err.txt", &["ls", "nope"], None, Some("err.txt"));
    expect("2>err cmd", &["cmd"], None, Some("err"));
}

#[test]
fn both_redirections() {
    expect("cmd a > out 2> err b", &["cmd", "a", "b"], Some("out"), Some("err"));
}

#[test]
fn quoted_or_escaped_digit_is_a_word() {
    expect("echo '2'>f", &["echo", "2"], Some("f"), None);
    expect("echo \\2>f", &["echo", "2"], Some("f"), None);
    expect("echo \"1\"> f", &["echo", "1"], Some("f"), None);
}

#[test]
fn digit_inside_a_word_is_kept() {
    expect("echo a2>f", &["echo", "a2"], Some("f"), None);
    expect("echo 22>f", &["echo", "22"], Some("f"), None);
}

#[test]
fn redirection_without_file() {
    expect("echo hi >", &["echo", "hi"], None, None);
}

#[test]
fn redirection_takes_the_next_token_even_an_operator() {
    expect("echo > > f", &["echo", "f"], None, None);
}

#[test]
fn later_redirection_wins() {
    expect("echo a > f1 > f2", &["echo", "a"], Some("f2"), None);
}

#[test]
fn quoted_operator_is_a_word() {
    expect("cat '>'", &["cat", ">"], None, None);
}

#[test]
fn quoted_file_name() {
    expect("echo x > 'my file'", &["echo", "x"], Some("my file"), None);
}

#[test]
fn non_ascii_text() {
    expect("echo héllo wörld 日本", &["echo", "héllo", "wörld", "日本"], None, None);
}

#[test]
fn law_plain_line_splits_on_whitespace() {
    let line = "ls  -l\t/tmp  ";
    let expected: Vec<&str> = line.split_whitespace().collect();
    expect(line, &expected, None, None);
}

#[test]
fn law_leading_whitespace_ignored() {
    for line in ["echo 'a b' > f", "x\\ y", "\"q\""] {
        let with_space = format!(" {}", line);
        assert_eq!(parse_arguments(&with_space), parse_arguments(line));
    }
}

#[test]
fn law_single_quotes_keep_text() {
    let text = "a \"b\" \\c > d";
    expect(&format!("'{}'", text), &[text], None, None);
}

#[test]
fn law_double_quotes_keep_text() {
    let text = "a 'b' > c";
    expect(&format!("\"{}\"", text), &[text], None, None);
}

#[test]
fn law_backslash_keeps_next() {
    for c in ['a', ' ', '\'', '"', '\\', '>', 'é'] {
        let line = format!("\\{}", c);
        expect(&line, &[&c.to_string()], None, None);
    }
}

#[test]
fn law_backslash_in_double_quotes() {
    expect("\"\\\"\"", &["\""], None, None);
    expect("\"\\\\\"", &["\\"], None, None);
    expect("\"\\x\"", &["\\x"], None, None);
}

/// The code points of the Unicode `White_Space` property.
fn in_white_space_list(c: char) -> bool {
    let n = c as u32;
    (0x09..=0x0d).contains(&n)
        || n == 0x20
        || n == 0x85
        || n == 0xa0
        || n == 0x1680
        || (0x2000..=0x200a).contains(&n)
        || n == 0x2028
        || n == 0x2029
        || n == 0x202f
        || n == 0x205f
        || n == 0x3000
}

#[test]
fn whitespace_splits_words_exactly_for_the_white_space_property() {
    let mut line = String::new();
    for n in 0..=0x10ffffu32 {
        let Some(c) = char::from_u32(n) else { continue };
        assert_eq!(c.is_whitespace(), in_white_space_list(c), "U+{:04X}", n);
        if matches!(c, '\'' | '"' | '\\' | '>') {
            continue;
        }
        line.clear();
        line.push('a');
        line.push(c);
        line.push('b');
        let parsed = parse_arguments(&line);
        let splits = parsed.arguments.len() == 2;
        assert_eq!(splits, in_white_space_list(c), "U+{:04X}", n);
    }
}

#[test]
fn law_finishing_a_word_twice_changes_nothing() {
    // Trailing spaces finish the last word again and again.
    assert_eq!(parse_arguments("echo a   "), parse_arguments("echo a"));
    assert_eq!(parse_arguments("echo '' "), parse_arguments("echo ''"));
}

#[test]
fn law_invariant_quoted_words_are_never_operators() {
    // Inside quotes the word has started and is not plain, so a following
    // `>` never takes a quoted digit into the operator.
    expect("echo \"2\">f '1'>g", &["echo", "2", "1"], Some("g"), None);
}

#[test]
fn double_gt_appends_to_stdout() {
    expect_modes("echo hi >> out.txt", &["echo", "hi"], append("out.txt"), None);
    expect_modes("echo hi 1>> out.txt", &["echo", "hi"], append("out.txt"), None);
    expect_modes("echo hi>>out.txt", &["echo", "hi"], append("out.txt"), None);
}

#[test]
fn double_gt_appends_to_stderr() {
    expect_modes("ls nope 2>> err.txt", &["ls", "nope"], None, append("err.txt"));
    expect_modes("2>>err cmd", &["cmd"], None, append("err"));
}

#[test]
fn append_and_truncate_together() {
    expect_modes("cmd >> out 2> err", &["cmd"], append("out"), truncate("err"));
    expect_modes("cmd > out 2>> err", &["cmd"], truncate("out"), append("err"));
}

#[test]
fn later_redirection_replaces_mode_too() {
    expect_modes("echo a >> f1 > f2", &["echo", "a"], truncate("f2"), None);
    expect_modes("echo a > f1 >> f2", &["echo", "a"], append("f2"), None);
}

#[test]
fn separated_or_quoted_gt_is_not_append() {
    expect("echo > > f", &["echo", "f"], None, None);
    expect_modes("echo '>'> f", &["echo", ">"], truncate("f"), None);
    expect_modes("echo >'>' f", &["echo", "f"], truncate(">"), None);
}

#[test]
fn three_gt_is_append_then_an_operator() {
    // `>>` takes the next token, here the third `>`, so nothing is redirected.
    expect("echo >>> f", &["echo", "f"], None, None);
}

#[test]
fn law_double_gt_appends() {
    for (prefix, to_stderr) in [(">>", false), ("1>>", false), ("2>>", true)] {
        let line = format!("{} f x", prefix);
        let (out, err) = if to_stderr { (None, append("f")) } else { (append("f"), None) };
        expect_modes(&line, &["x"], out, err);
    }
}
