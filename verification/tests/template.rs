use rupple::template::replace_all;

fn chars(text: &str) -> Vec<char> {
    text.chars().collect()
}

#[test]
fn input_takes_the_place_of_the_marker() {
    assert_eq!(
        rupple::template::format("fn main() {\n// user input\n}\n", "let a = 1;"),
        "fn main() {\nlet a = 1;\n}\n"
    );
}

#[test]
fn frame_without_marker_is_kept() {
    assert_eq!(rupple::template::format("fn main() {}", "let a = 1;"), "fn main() {}");
    assert_eq!(rupple::template::format("", "x"), "");
    assert_eq!(rupple::template::format("// user inpu", "x"), "// user inpu");
}

#[test]
fn every_marker_is_replaced() {
    assert_eq!(rupple::template::format("// user input;// user input", "a"), "a;a");
    assert_eq!(rupple::template::format("// user input// user input", ""), "");
}

#[test]
fn replacement_is_not_read_again() {
    assert_eq!(rupple::template::format("<// user input>", "// user input"), "<// user input>");
}

#[test]
fn format_agrees_with_str_replace() {
    let frames = [
        "fn main() {\n// user input\n}",
        "// user input",
        "/// user input",
        "// user // user input input",
        "// user input // user input",
        "no marker",
        "// user inpu",
        "é// user inputü",
    ];
    for frame in frames {
        for input in ["", "x", "let é = 1;", "// user input", "{\n}"] {
            let expected = frame.replace("// user input", input);
            assert_eq!(rupple::template::format(frame, input), expected);
        }
    }
}

#[test]
fn replace_all_reads_from_the_left() {
    assert_eq!(replace_all(&chars("aaa"), &chars("aa"), &chars("b")), chars("ba"));
    assert_eq!(replace_all(&chars("abab"), &chars("ab"), &chars("abab")), chars("abababab"));
    assert_eq!(replace_all(&chars("abc"), &chars("abcd"), &chars("x")), chars("abc"));
    assert_eq!(replace_all(&chars("abc"), &chars(""), &chars("x")), chars("abc"));
}
