use rupple::is_incomplete::is_input_incomplete;
use rupple::parser::{parse_input, ParseResult};

#[test]
fn open_brace_is_unfinished() {
    assert!(is_input_incomplete("fn main() {"));
    assert!(is_input_incomplete("{{}"));
}

#[test]
fn open_quote_is_unfinished() {
    assert!(is_input_incomplete("let b = 'aa"));
    assert!(is_input_incomplete("let b = \"aa"));
    assert!(is_input_incomplete("\"it's"));
}

#[test]
fn closed_text_is_finished() {
    assert!(!is_input_incomplete(""));
    assert!(!is_input_incomplete("fn main() {}"));
    assert!(!is_input_incomplete("let a = 'b'"));
    assert!(!is_input_incomplete("}"));
}

#[test]
fn comments_and_quotes_hide_braces() {
    assert!(!is_input_incomplete("// {"));
    assert!(!is_input_incomplete("\"{\""));
    assert!(!is_input_incomplete("\\{"));
    assert!(is_input_incomplete("{ // }"));
    assert!(!is_input_incomplete("{ // }\n}"));
    assert!(!is_input_incomplete("{ /}\n{ }"));
    assert!(is_input_incomplete("{ /}\n{ "));
}

#[test]
fn escapes_inside_quotes() {
    assert!(is_input_incomplete("'a\\'"));
    assert!(!is_input_incomplete("'a\\''"));
    assert!(!is_input_incomplete("'a\\\\'"));
}

#[test]
fn agrees_with_the_classifier() {
    for code in [
        "",
        "fn main() {",
        "fn main() {\n}",
        "let g = 0",
        "let b = 'aa",
        "fn main() {//}",
        "}{",
        "a / b {",
        "\"\\\"",
        "'{' // '",
        "/",
        "\\",
        "{\\",
    ] {
        assert_eq!(
            is_input_incomplete(code),
            parse_input(code) == ParseResult::Incomplete,
            "{:?}",
            code
        );
    }
}
