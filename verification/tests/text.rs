use rupple::text::{append_chars, chars_of, has_at, reversed_chars, string_of};

#[test]
fn chars_in_order() {
    assert_eq!(chars_of("abé"), vec!['a', 'b', 'é']);
    assert_eq!(chars_of(""), Vec::<char>::new());
}

#[test]
fn chars_in_reverse() {
    assert_eq!(reversed_chars("abé"), vec!['é', 'b', 'a']);
    assert_eq!(reversed_chars(""), Vec::<char>::new());
}

#[test]
fn string_from_chars() {
    assert_eq!(string_of(&vec!['a', 'é', '\n']), "aé\n");
    assert_eq!(string_of(&vec![]), "");
    assert_eq!(string_of(&chars_of("round trip")), "round trip");
}

#[test]
fn append_adds_at_the_end() {
    let mut chars = vec!['a'];
    append_chars(&mut chars, &vec!['b', 'c']);
    assert_eq!(chars, vec!['a', 'b', 'c']);
    append_chars(&mut chars, &vec![]);
    assert_eq!(chars, vec!['a', 'b', 'c']);
}

#[test]
fn has_at_finds_words() {
    let text = chars_of("hello");
    assert!(has_at(&text, 0, &chars_of("he")));
    assert!(has_at(&text, 3, &chars_of("lo")));
    assert!(has_at(&text, 5, &chars_of("")));
    assert!(!has_at(&text, 4, &chars_of("lo")));
    assert!(!has_at(&text, 6, &chars_of("")));
    assert!(!has_at(&text, 1, &chars_of("he")));
    assert!(!has_at(&text, usize::MAX, &chars_of("h")));
}
