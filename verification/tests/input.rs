use shell::{KeyOutcome, LineEditor};

fn feed(editor: &mut LineEditor, bytes: &[u8]) -> Vec<KeyOutcome> {
    bytes.iter().map(|b| editor.handle_byte(*b)).collect()
}

#[test]
fn typing_then_enter_submits_the_line() {
    let mut editor = LineEditor::new();
    let outcomes = feed(&mut editor, b"ls\r");
    assert_eq!(
        outcomes,
        vec![KeyOutcome::Echo('l'), KeyOutcome::Echo('s'), KeyOutcome::Submit("ls".to_string())]
    );
}

#[test]
fn line_feed_also_submits() {
    let mut editor = LineEditor::new();
    feed(&mut editor, b"echo hi");
    assert_eq!(editor.handle_byte(10), KeyOutcome::Submit("echo hi".to_string()));
    assert_eq!(editor.handle_byte(13), KeyOutcome::Submit(String::new()));
}

#[test]
fn ctrl_d_on_empty_line_ends_input() {
    let mut editor = LineEditor::new();
    assert_eq!(editor.handle_byte(4), KeyOutcome::EndOfInput);
}

#[test]
fn ctrl_d_on_typed_line_is_ignored() {
    let mut editor = LineEditor::new();
    feed(&mut editor, b"ab");
    assert_eq!(editor.handle_byte(4), KeyOutcome::Ignore);
    assert_eq!(editor.handle_byte(13), KeyOutcome::Submit("ab".to_string()));
}

#[test]
fn backspace_removes_last_character() {
    let mut editor = LineEditor::new();
    let outcomes = feed(&mut editor, b"abc\x7f\x08d\r");
    assert_eq!(outcomes[3], KeyOutcome::Erase);
    assert_eq!(outcomes[4], KeyOutcome::Erase);
    assert_eq!(outcomes[6], KeyOutcome::Submit("ad".to_string()));
}

#[test]
fn backspace_on_empty_line_is_ignored() {
    let mut editor = LineEditor::new();
    assert_eq!(editor.handle_byte(127), KeyOutcome::Ignore);
    assert_eq!(editor.handle_byte(8), KeyOutcome::Ignore);
    assert_eq!(editor.handle_byte(13), KeyOutcome::Submit(String::new()));
}

#[test]
fn byte_is_taken_as_the_character_with_the_same_number() {
    let mut editor = LineEditor::new();
    assert_eq!(editor.handle_byte(0xe9), KeyOutcome::Echo('\u{e9}'));
    assert_eq!(editor.handle_byte(9), KeyOutcome::Echo('\t'));
    assert_eq!(editor.handle_byte(13), KeyOutcome::Submit("\u{e9}\t".to_string()));
}

#[test]
fn law_backspace_undoes_key() {
    for byte in [b'a', b' ', 0u8, 0xffu8] {
        for backspace in [8u8, 127u8] {
            let mut editor = LineEditor::new();
            feed(&mut editor, b"xy");
            editor.handle_byte(byte);
            assert_eq!(editor.handle_byte(backspace), KeyOutcome::Erase);
            assert_eq!(editor.handle_byte(13), KeyOutcome::Submit("xy".to_string()));
        }
    }
}

#[test]
fn law_enter_submits_typed_line() {
    let bytes: Vec<u8> = vec![b'c', b'd', b' ', 0x80, b'~'];
    let mut editor = LineEditor::new();
    feed(&mut editor, &bytes);
    let expected: String = bytes.iter().map(|b| *b as char).collect();
    assert_eq!(editor.handle_byte(10), KeyOutcome::Submit(expected));
    assert_eq!(editor.handle_byte(4), KeyOutcome::EndOfInput);
}
