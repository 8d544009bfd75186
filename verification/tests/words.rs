use rupple::words::{is_white_space_char, trim_bounds, trimmed, trimmed_equals};

fn chars(text: &str) -> Vec<char> {
    text.chars().collect()
}

#[test]
fn white_space_is_the_unicode_property() {
    let mut code: u32 = 0;
    while code <= 0x10FFFF {
        if let Some(c) = char::from_u32(code) {
            assert_eq!(is_white_space_char(c), c.is_whitespace(), "U+{:04X}", code);
        }
        code += 1;
    }
}

#[test]
fn white_space_examples() {
    assert!(is_white_space_char(' '));
    assert!(is_white_space_char('\n'));
    assert!(is_white_space_char('\t'));
    assert!(is_white_space_char('\u{3000}'));
    assert!(!is_white_space_char('a'));
    assert!(!is_white_space_char('\u{200B}'));
    assert!(!is_white_space_char('\u{8}'));
    assert!(!is_white_space_char('\u{e}'));
}

#[test]
fn trimmed_is_what_trim_gives() {
    for text in ["", " ", "a", " a", "a ", "  a b  ", "\n\tlet\r\n", "\u{a0}x\u{2003}", " \n "] {
        assert_eq!(trimmed(&chars(text)), chars(text.trim()), "{:?}", text);
    }
}

#[test]
fn trim_bounds_of_examples() {
    assert_eq!(trim_bounds(&chars("  ab ")), (2, 4));
    assert_eq!(trim_bounds(&chars("ab")), (0, 2));
    assert_eq!(trim_bounds(&chars("")), (0, 0));
    assert_eq!(trim_bounds(&chars("   ")), (3, 3));
}

#[test]
fn trimmed_equals_compares_the_trimmed_word() {
    assert!(trimmed_equals(&chars(" let\n"), &chars("let")));
    assert!(trimmed_equals(&chars("let"), &chars("let")));
    assert!(trimmed_equals(&chars("  "), &chars("")));
    assert!(!trimmed_equals(&chars("le t"), &chars("let")));
    assert!(!trimmed_equals(&chars("lets"), &chars("let")));
    assert!(!trimmed_equals(&chars("le"), &chars("let")));
    assert!(!trimmed_equals(&chars("let"), &chars(" let")));
}
