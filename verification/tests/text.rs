use what_do::text::{chars_of, parse_option_texts, split_lines, trim, trimmed_lines};

#[test]
fn split_lines_cuts_at_newlines() {
    assert_eq!(split_lines(""), vec![""]);
    assert_eq!(split_lines("a"), vec!["a"]);
    assert_eq!(split_lines("a\n"), vec!["a", ""]);
    assert_eq!(split_lines("\na"), vec!["", "a"]);
    assert_eq!(split_lines("a\n\nb"), vec!["a", "", "b"]);
    assert_eq!(split_lines(" a \r\nb"), vec![" a \r", "b"]);
    assert_eq!(split_lines("é\nü"), vec!["é", "ü"]);
}

#[test]
fn trim_removes_white_space_at_both_ends() {
    assert_eq!(trim(""), "");
    assert_eq!(trim("   "), "");
    assert_eq!(trim(" a b "), "a b");
    assert_eq!(trim("\t\r\n x\u{a0}"), "x");
    assert_eq!(trim("x"), "x");
    assert_eq!(trim(" é "), "é");
}

#[test]
fn trimmed_lines_drops_empty_lines() {
    assert_eq!(trimmed_lines("a\na\n\n b \n"), vec!["a", "a", "b"]);
    assert_eq!(trimmed_lines(""), Vec::<String>::new());
    assert_eq!(trimmed_lines(" \n\t"), Vec::<String>::new());
    assert_eq!(trimmed_lines("one\r\ntwo\r\n"), vec!["one", "two"]);
}

#[test]
fn option_texts_are_listed_once() {
    assert_eq!(parse_option_texts("a\na\n\n b \n"), vec!["a", "b"]);
    assert_eq!(parse_option_texts("b\na\nb\na\nc"), vec!["b", "a", "c"]);
    assert_eq!(parse_option_texts("x\n x\nx "), vec!["x"]);
}

#[test]
fn chars_of_gives_the_characters() {
    assert_eq!(chars_of("aé\n"), vec!['a', 'é', '\n']);
    assert!(chars_of("").is_empty());
}

#[test]
fn white_space_is_what_std_takes_for_it() {
    let mut count = 0;
    for code in 0..=0x10FFFFu32 {
        if let Some(c) = char::from_u32(code) {
            assert_eq!(what_do::text::char_is_whitespace(c), c.is_whitespace());
            if c.is_whitespace() {
                count += 1;
                assert_eq!(trim(&c.to_string()), "");
            }
        }
    }
    assert_eq!(count, 25);
    assert!(what_do::text::char_is_whitespace(' '));
    assert!(what_do::text::char_is_whitespace('\n'));
    assert!(what_do::text::char_is_whitespace('\u{3000}'));
    assert!(!what_do::text::char_is_whitespace('a'));
    assert!(!what_do::text::char_is_whitespace('\u{200b}'));
}
