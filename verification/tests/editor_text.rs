use secure_note::editor::{
    byte_to_char, char_to_byte, chars_between, cursor_line_col, display_tab_name, line_count,
    line_number_label, splice, word_count, TAB_NAME_MAX,
};

#[test]
fn char_index_to_byte_offset() {
    let s = "aé€😀b";
    assert_eq!(char_to_byte(s, 0), 0);
    assert_eq!(char_to_byte(s, 1), 1);
    assert_eq!(char_to_byte(s, 2), 3);
    assert_eq!(char_to_byte(s, 3), 6);
    assert_eq!(char_to_byte(s, 4), 10);
    assert_eq!(char_to_byte(s, 5), 11);
    // past the end: the text's byte length
    assert_eq!(char_to_byte(s, 99), s.len());
}

#[test]
fn cursor_position_in_lines() {
    let s = "ab\ncde\n\nf";
    assert_eq!(cursor_line_col(s, 0), (0, 0));
    assert_eq!(cursor_line_col(s, 5), (1, 2));
    assert_eq!(cursor_line_col(s, 7), (2, 0));
    assert_eq!(cursor_line_col(s, 99), (3, 1));
}

#[test]
fn counting_lines_and_words() {
    assert_eq!(line_count(""), 1);
    assert_eq!(line_count("a\nb\n"), 3);
    assert_eq!(word_count(""), 0);
    assert_eq!(word_count("  two\twords\n"), 2);
    assert_eq!(word_count("one"), 1);
}

#[test]
fn selected_text() {
    assert_eq!(chars_between("héllo", 1, 3), "él");
    assert_eq!(chars_between("abc", 2, 10), "c");
    assert_eq!(chars_between("abc", 5, 9), "");
}

#[test]
fn splicing_text() {
    assert_eq!(splice("hello", 1, 4, "EY"), "hEYo");
    assert_eq!(splice("ab", 9, 9, "!"), "ab!");
    assert_eq!(splice("añb", 1, 2, ""), "ab");
    assert_eq!(splice("ab", 1, 1, "\n"), "a\nb");
}

#[test]
fn tab_names_are_shortened() {
    assert_eq!(TAB_NAME_MAX, 11);
    assert_eq!(display_tab_name("short"), "short");
    assert_eq!(display_tab_name("exactly11ch"), "exactly11ch");
    assert_eq!(display_tab_name("a much longer name"), "a much lon…");
}

#[test]
fn gutter_labels() {
    assert_eq!(line_number_label(4, 2, false), 5);
    assert_eq!(line_number_label(2, 2, true), 3);
    assert_eq!(line_number_label(5, 2, true), 3);
    assert_eq!(line_number_label(0, 2, true), 2);
}

#[test]
fn byte_offset_to_char_index() {
    let s = "aé€😀b";
    assert_eq!(byte_to_char(s, 0), 0);
    assert_eq!(byte_to_char(s, 1), 1);
    assert_eq!(byte_to_char(s, 3), 2);
    assert_eq!(byte_to_char(s, 4), 2);
    assert_eq!(byte_to_char(s, 10), 4);
    assert_eq!(byte_to_char(s, 99), 5);
}

#[test]
fn unicode_spaces_are_trimmed() {
    let s: Vec<char> = "\u{3000}\u{85} ab\u{a0}\u{2009}".chars().collect();
    assert_eq!(secure_note::text::trim_chars(&s), vec!['a', 'b']);
    let t: Vec<char> = "\u{200b}x".chars().collect();
    assert_eq!(secure_note::text::trim_chars(&t), t);
}
