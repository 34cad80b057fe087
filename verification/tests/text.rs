use asdev::text::{
    chars_of, is_whitespace, split_terminator, split_whitespace, string_of, trim, CharClass,
};

fn strings(items: &[&str]) -> Vec<String> {
    items.iter().map(|s| s.to_string()).collect()
}

#[test]
fn split_terminator_drops_an_empty_last_piece() {
    assert_eq!(split_terminator("a;b;", ';'), strings(&["a", "b"]));
    assert_eq!(split_terminator("a;b", ';'), strings(&["a", "b"]));
    assert_eq!(split_terminator("a;;b", ';'), strings(&["a", "", "b"]));
    assert_eq!(split_terminator(";", ';'), strings(&[""]));
    assert_eq!(split_terminator(";;", ';'), strings(&["", ""]));
}

#[test]
fn split_terminator_of_nothing_is_nothing() {
    assert_eq!(split_terminator("", ';'), Vec::<String>::new());
}

#[test]
fn split_terminator_keeps_the_whitespace_of_each_piece() {
    assert_eq!(
        split_terminator("true ; false ; true", ';'),
        strings(&["true ", " false ", " true"])
    );
}

#[test]
fn split_terminator_agrees_with_std() {
    for text in ["", ";", "a", "a;", ";a", "a;b;c", "a;;", ";;a;;", "1.2.3", "x ; y;"] {
        let expected: Vec<String> = text.split_terminator(';').map(|s| s.to_string()).collect();
        assert_eq!(split_terminator(text, ';'), expected, "for {:?}", text);
    }
}

#[test]
fn split_whitespace_gives_the_words() {
    assert_eq!(split_whitespace("  sh  ./x.sh\n"), strings(&["sh", "./x.sh"]));
    assert_eq!(split_whitespace("cargo build"), strings(&["cargo", "build"]));
    assert_eq!(split_whitespace("one"), strings(&["one"]));
}

#[test]
fn split_whitespace_of_blank_text_is_empty() {
    assert_eq!(split_whitespace(""), Vec::<String>::new());
    assert_eq!(split_whitespace(" \t\r\n "), Vec::<String>::new());
}

#[test]
fn split_whitespace_agrees_with_std() {
    for text in ["", " ", "a", " a", "a ", "a b", "\ta\u{a0}b\u{2003}c\n", "x\u{3000}y", "a\u{200b}b"]
    {
        let expected: Vec<String> = text.split_whitespace().map(|s| s.to_string()).collect();
        assert_eq!(split_whitespace(text), expected, "for {:?}", text);
    }
}

#[test]
fn trim_removes_whitespace_at_both_ends() {
    assert_eq!(trim("  a b \n"), "a b");
    assert_eq!(trim("a"), "a");
    assert_eq!(trim(" false "), "false");
    assert_eq!(trim("\n        sh ./libs/verify-ios-environment.sh"), "sh ./libs/verify-ios-environment.sh");
}

#[test]
fn trim_of_blank_text_is_empty() {
    assert_eq!(trim(""), "");
    assert_eq!(trim(" \u{3000} "), "");
}

#[test]
fn is_whitespace_agrees_with_std_on_every_character() {
    let mut code: u32 = 0;
    while code <= 0x10ffff {
        if let Some(c) = char::from_u32(code) {
            assert_eq!(is_whitespace(c), c.is_whitespace(), "for U+{:04X}", code);
        }
        code += 1;
    }
}

#[test]
fn char_class_tests_membership() {
    assert!(CharClass::Whitespace.test(' '));
    assert!(!CharClass::Whitespace.test('x'));
    assert!(CharClass::Visible.test('x'));
    assert!(!CharClass::Visible.test('\n'));
    assert!(CharClass::Except(';').test('x'));
    assert!(!CharClass::Except(';').test(';'));
}

#[test]
fn chars_and_strings_convert_both_ways() {
    let chars = chars_of("h\u{e9}llo \u{2705}");
    assert_eq!(chars, vec!['h', '\u{e9}', 'l', 'l', 'o', ' ', '\u{2705}']);
    assert_eq!(string_of(&chars), "h\u{e9}llo \u{2705}");
    assert_eq!(string_of(&vec![]), "");
}
