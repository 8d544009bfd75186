use rupple::parser::{parse_input, pop_until, scan_input, ParseResult, ScanState};

#[test]
fn test_parser() {
    let tests = [
        (
            ParseResult::AllGood,
            "fn main() {
                
            }",
        ),
        (
            ParseResult::AllGood,
            "fn main() {
                // if 0 == {
            }",
        ),
        (ParseResult::RequiresSemicolon, "let g = 0"),
        (ParseResult::RequiresSemicolon, "let soooo = 'no'"),
        (ParseResult::RequiresSemicolon, "let r=2"),
        (ParseResult::Incomplete, "fn main() {"),
        (ParseResult::Incomplete, "let b = 'aa"),
        (
            ParseResult::RequiresSemicolon,
            "let c = \"a
            b
            c
            // \"",
        ),
        (ParseResult::Incomplete, "fn main() {//}"),
    ];
    for (expected, code) in tests {
        let result = parse_input(code);
        if result != expected {
            panic!(
                "Parser fail! Actual result '{:?}' != '{:?}'.\nCode: {:?}",
                result, expected, code
            );
        }
    }
}

fn words(state_words: &[Vec<char>]) -> Vec<String> {
    state_words.iter().map(|word| word.iter().collect()).collect()
}

#[test]
fn empty_input_is_all_good() {
    assert_eq!(parse_input(""), ParseResult::AllGood);
}

#[test]
fn balanced_braces_are_all_good() {
    assert_eq!(parse_input("fn main() {\n\n}"), ParseResult::AllGood);
}

#[test]
fn brace_inside_comment_is_ignored() {
    assert_eq!(parse_input("fn main() {\n  // if 0 == {\n}"), ParseResult::AllGood);
}

#[test]
fn bare_let_requires_semicolon() {
    assert_eq!(parse_input("let g = 0"), ParseResult::RequiresSemicolon);
}

#[test]
fn bare_let_with_quoted_value_requires_semicolon() {
    assert_eq!(parse_input("let soooo = 'no'"), ParseResult::RequiresSemicolon);
}

#[test]
fn bare_let_without_spaces_requires_semicolon() {
    assert_eq!(parse_input("let r=2"), ParseResult::RequiresSemicolon);
    assert_eq!(parse_input("let r =2"), ParseResult::RequiresSemicolon);
    assert_eq!(parse_input("let r= 2"), ParseResult::RequiresSemicolon);
    assert_eq!(parse_input("let r='a'"), ParseResult::RequiresSemicolon);
}

#[test]
fn open_brace_is_incomplete() {
    assert_eq!(parse_input("fn main() {"), ParseResult::Incomplete);
}

#[test]
fn open_quote_is_incomplete() {
    assert_eq!(parse_input("let b = 'aa"), ParseResult::Incomplete);
    assert_eq!(parse_input("let b = \"aa"), ParseResult::Incomplete);
}

#[test]
fn comment_swallows_closing_brace() {
    assert_eq!(parse_input("fn main() {//}"), ParseResult::Incomplete);
}

#[test]
fn comment_ends_at_newline() {
    assert_eq!(parse_input("fn main() {//}\n}"), ParseResult::AllGood);
}

#[test]
fn closing_brace_without_opener_is_tolerated() {
    assert_eq!(parse_input("}"), ParseResult::AllGood);
    assert_eq!(parse_input("{}}"), ParseResult::AllGood);
    assert_eq!(scan_input("}}}").brace_depth, 0);
}

#[test]
fn closing_brace_before_opener_does_not_close_it() {
    assert_eq!(parse_input("}{"), ParseResult::Incomplete);
    assert_eq!(scan_input("}{").brace_depth, 1);
}

#[test]
fn nested_braces_are_counted() {
    assert_eq!(scan_input("{{}{").brace_depth, 2);
    assert_eq!(scan_input("{{}{}}").brace_depth, 0);
}

#[test]
fn braces_inside_quotes_are_ignored() {
    assert_eq!(parse_input("\"{\""), ParseResult::AllGood);
    assert_eq!(parse_input("'{'"), ParseResult::AllGood);
    assert_eq!(parse_input("{ \"}\""), ParseResult::Incomplete);
}

#[test]
fn other_quote_inside_quote_is_literal() {
    assert_eq!(parse_input("let a = \"it's\""), ParseResult::RequiresSemicolon);
    assert_eq!(parse_input("let a = 'say \"hi'"), ParseResult::RequiresSemicolon);
    assert_eq!(scan_input("\"it's").enclosure, Some('"'));
}

#[test]
fn multi_character_literal_is_accepted() {
    assert_eq!(parse_input("let a = 'ab'"), ParseResult::RequiresSemicolon);
}

#[test]
fn escaped_quote_does_not_close() {
    assert_eq!(parse_input("let a = \"x\\\""), ParseResult::Incomplete);
    assert_eq!(parse_input("let a = \"x\\\"y\""), ParseResult::RequiresSemicolon);
    assert_eq!(parse_input("let a = 'x\\'"), ParseResult::Incomplete);
}

#[test]
fn escaped_backslash_lets_quote_close() {
    assert_eq!(parse_input("let a = \"x\\\\\""), ParseResult::RequiresSemicolon);
}

#[test]
fn backslash_outside_quotes_drops_next_character() {
    assert_eq!(parse_input("\\{"), ParseResult::AllGood);
    assert_eq!(parse_input("\\\""), ParseResult::AllGood);
    assert_eq!(parse_input("{\\}"), ParseResult::Incomplete);
}

#[test]
fn trailing_backslash_is_harmless() {
    assert_eq!(parse_input("let a = b\\"), ParseResult::RequiresSemicolon);
    assert_eq!(parse_input("\\"), ParseResult::AllGood);
}

#[test]
fn comment_inside_quote_is_text() {
    assert_eq!(parse_input("let c = \"a // b\""), ParseResult::RequiresSemicolon);
    assert_eq!(parse_input("\"// {\" {"), ParseResult::Incomplete);
}

#[test]
fn quote_inside_comment_is_ignored() {
    assert_eq!(parse_input("// it's\n"), ParseResult::AllGood);
    assert_eq!(parse_input("let a = 1// \"open"), ParseResult::RequiresSemicolon);
}

#[test]
fn line_comment_at_end_keeps_result() {
    for code in ["", "let g = 0", "fn main() {", "fn main() {}", "a /", "a //b"] {
        for comment in ["", " note", "{", "}", "'", "\"", "\\", "// more"] {
            let mut longer = String::from(code);
            longer.push_str("//");
            longer.push_str(comment);
            assert_eq!(parse_input(&longer), parse_input(code), "{:?} and {:?}", code, comment);
        }
    }
}

#[test]
fn line_comment_after_trailing_backslash_is_not_a_comment() {
    assert_eq!(parse_input("let a = b\\"), ParseResult::RequiresSemicolon);
    assert_eq!(parse_input("let a = b\\// {"), ParseResult::Incomplete);
}

#[test]
fn single_slash_is_dropped() {
    assert_eq!(words(&scan_input("a/b").keyword_buffer), vec!["ab"]);
    assert_eq!(words(&scan_input("a / b").keyword_buffer), vec!["a", "", "b"]);
    assert_eq!(words(&scan_input("let a = b/").keyword_buffer), vec!["let", "a", "=", "b"]);
    assert_eq!(parse_input("let a = b/"), ParseResult::RequiresSemicolon);
}

#[test]
fn slash_before_quote_still_opens_quote() {
    assert_eq!(scan_input("/'a").enclosure, Some('\''));
    assert_eq!(parse_input("/{"), ParseResult::Incomplete);
}

#[test]
fn keyword_buffer_of_bare_let() {
    assert_eq!(words(&scan_input("let g = 0").keyword_buffer), vec!["let", "g", "=", "0"]);
    assert_eq!(words(&scan_input("let r=2").keyword_buffer), vec!["let", "r", "=", "2"]);
    assert_eq!(
        words(&scan_input("let soooo = 'no'").keyword_buffer),
        vec!["let", "soooo", "=", "value"]
    );
    assert_eq!(words(&scan_input("let r='a b'").keyword_buffer), vec!["let", "r", "=", "value"]);
}

#[test]
fn keyword_buffer_starts_with_one_empty_entry() {
    assert_eq!(words(&scan_input("").keyword_buffer), vec![""]);
    assert_eq!(words(&scan_input(" ").keyword_buffer), vec!["", ""]);
    assert_eq!(words(&scan_input("{}").keyword_buffer), vec![""]);
}

#[test]
fn assignment_sign_is_its_own_entry() {
    assert_eq!(words(&scan_input("a==b").keyword_buffer), vec!["a", "=", "=", "b"]);
    assert_eq!(words(&scan_input("=").keyword_buffer), vec!["="]);
    assert_eq!(words(&scan_input("a = ").keyword_buffer), vec!["a", "=", ""]);
    assert_eq!(words(&scan_input("x+=1").keyword_buffer), vec!["x+", "=", "1"]);
}

#[test]
fn quoted_span_replaces_word_being_read() {
    assert_eq!(words(&scan_input("ab'c d'").keyword_buffer), vec!["value"]);
    assert_eq!(words(&scan_input("a 'b' c").keyword_buffer), vec!["a", "value", "c"]);
    assert_eq!(words(&scan_input("'a'b").keyword_buffer), vec!["valueb"]);
}

#[test]
fn open_quote_leaves_buffer_as_it_was() {
    let state = scan_input("let b = 'aa bb");
    assert_eq!(state.enclosure, Some('\''));
    assert_eq!(state.brace_depth, 0);
    assert_eq!(words(&state.keyword_buffer), vec!["let", "b", "=", ""]);
}

#[test]
fn other_white_space_stays_in_words() {
    assert_eq!(words(&scan_input("a\nb\tc").keyword_buffer), vec!["a\nb\tc"]);
    assert_eq!(parse_input("\nlet g = 0"), ParseResult::RequiresSemicolon);
    assert_eq!(parse_input("let g = 0\n"), ParseResult::RequiresSemicolon);
    assert_eq!(parse_input("fn main() {}\nlet x = 1"), ParseResult::RequiresSemicolon);
}

#[test]
fn only_the_narrow_shape_counts() {
    assert_eq!(parse_input("let g = 0 ;"), ParseResult::AllGood);
    assert_eq!(parse_input("let  g = 0"), ParseResult::AllGood);
    assert_eq!(parse_input("let g = 0 "), ParseResult::AllGood);
    assert_eq!(parse_input("let g: u8 = 0"), ParseResult::AllGood);
    assert_eq!(parse_input("let g = 1 + 2"), ParseResult::AllGood);
    assert_eq!(parse_input("x;let g = 0"), ParseResult::AllGood);
    assert_eq!(parse_input("g = 0"), ParseResult::AllGood);
    assert_eq!(parse_input("return 1"), ParseResult::AllGood);
}

#[test]
fn value_is_not_looked_at() {
    assert_eq!(parse_input("let g = 0;"), ParseResult::RequiresSemicolon);
    assert_eq!(parse_input("let g = f(1,2)"), ParseResult::RequiresSemicolon);
}

#[test]
fn open_text_wins_over_bare_let() {
    assert_eq!(parse_input("{ let g = 0"), ParseResult::Incomplete);
    assert_eq!(parse_input("{} let g = 0"), ParseResult::RequiresSemicolon);
}

#[test]
fn verdict_of_given_states() {
    let entry = |text: &str| text.chars().collect::<Vec<char>>();
    let closed = ScanState {
        brace_depth: 0,
        enclosure: None,
        keyword_buffer: vec![entry("x"), entry(" let\n"), entry("y"), entry("\t=\t"), entry("")],
    };
    assert_eq!(closed.verdict(), ParseResult::RequiresSemicolon);
    let short = ScanState {
        brace_depth: 0,
        enclosure: None,
        keyword_buffer: vec![entry("let"), entry("="), entry("1")],
    };
    assert_eq!(short.verdict(), ParseResult::AllGood);
    let deep = ScanState {
        brace_depth: 1,
        enclosure: None,
        keyword_buffer: vec![entry("let"), entry("y"), entry("="), entry("1")],
    };
    assert_eq!(deep.verdict(), ParseResult::Incomplete);
    let quoted = ScanState {
        brace_depth: 0,
        enclosure: Some('"'),
        keyword_buffer: vec![entry("let"), entry("y"), entry("="), entry("1")],
    };
    assert_eq!(quoted.verdict(), ParseResult::Incomplete);
    let wrong = ScanState {
        brace_depth: 0,
        enclosure: None,
        keyword_buffer: vec![entry("let"), entry("y"), entry("=="), entry("1")],
    };
    assert_eq!(wrong.verdict(), ParseResult::AllGood);
}

#[test]
fn scan_is_repeatable() {
    let code = "fn main() { let a = \"{\"; // }\n";
    assert_eq!(parse_input(code), parse_input(code));
    assert_eq!(parse_input(code), ParseResult::Incomplete);
}

#[test]
fn non_ascii_text_is_scanned_by_character() {
    assert_eq!(parse_input("let é = 'ü'"), ParseResult::RequiresSemicolon);
    assert_eq!(words(&scan_input("let é = ü").keyword_buffer), vec!["let", "é", "=", "ü"]);
    assert_eq!(parse_input("\u{a0}let\u{2003} g = 0"), ParseResult::RequiresSemicolon);
}

fn reversed(text: &str) -> Vec<char> {
    text.chars().rev().collect()
}

#[test]
fn pop_until_stops_after_stop() {
    let mut chars = reversed("ab\ncd");
    assert!(pop_until(&mut chars, '\n', false));
    assert_eq!(chars, reversed("cd"));
}

#[test]
fn pop_until_empties_without_stop() {
    let mut chars = reversed("abcd");
    assert!(!pop_until(&mut chars, '\n', false));
    assert!(chars.is_empty());
    assert!(!pop_until(&mut chars, '\n', false));
}

#[test]
fn pop_until_skips_escaped_stop() {
    let mut chars = reversed("a\\'b'c");
    assert!(pop_until(&mut chars, '\'', true));
    assert_eq!(chars, reversed("c"));
    let mut plain = reversed("a\\'b'c");
    assert!(pop_until(&mut plain, '\'', false));
    assert_eq!(plain, reversed("b'c"));
}

#[test]
fn pop_until_with_trailing_backslash() {
    let mut chars = reversed("ab\\");
    assert!(!pop_until(&mut chars, '\'', true));
    assert!(chars.is_empty());
}

#[test]
fn pop_until_backslash_as_stop() {
    let mut escaped = reversed("a\\\\b");
    assert!(!pop_until(&mut escaped, '\\', true));
    let mut plain = reversed("a\\\\b");
    assert!(pop_until(&mut plain, '\\', false));
    assert_eq!(plain, reversed("\\b"));
}
