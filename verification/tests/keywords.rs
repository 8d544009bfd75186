use rupple::keywords::Keywords;

fn words(buffer: Keywords) -> Vec<String> {
    buffer.into_entries().iter().map(|word| word.iter().collect()).collect()
}

#[test]
fn new_buffer_has_one_empty_entry() {
    assert_eq!(words(Keywords::new()), vec![""]);
}

#[test]
fn characters_join_the_last_entry() {
    let mut buffer = Keywords::new();
    buffer.push_char('l');
    buffer.push_char('e');
    buffer.push_char('t');
    assert_eq!(words(buffer), vec!["let"]);
}

#[test]
fn space_starts_an_entry() {
    let mut buffer = Keywords::new();
    buffer.push_char('a');
    buffer.start_entry();
    buffer.start_entry();
    buffer.push_char('b');
    assert_eq!(words(buffer), vec!["a", "", "b"]);
}

#[test]
fn assignment_sign_fills_an_empty_entry() {
    let mut buffer = Keywords::new();
    buffer.push_assign();
    assert_eq!(words(buffer), vec!["="]);
}

#[test]
fn assignment_sign_ends_a_word() {
    let mut buffer = Keywords::new();
    buffer.push_char('r');
    buffer.push_assign();
    buffer.push_char('2');
    buffer.push_char('3');
    assert_eq!(words(buffer), vec!["r", "=", "23"]);
}

#[test]
fn assignment_signs_do_not_merge() {
    let mut buffer = Keywords::new();
    buffer.push_assign();
    buffer.push_assign();
    assert_eq!(words(buffer), vec!["=", "="]);
}

#[test]
fn sentinel_replaces_the_word_being_read() {
    let mut buffer = Keywords::new();
    buffer.push_char('a');
    buffer.start_entry();
    buffer.push_char('b');
    buffer.put_sentinel();
    assert_eq!(words(buffer), vec!["a", "value"]);
}

#[test]
fn sentinel_follows_an_assignment_sign() {
    let mut buffer = Keywords::new();
    buffer.push_assign();
    buffer.put_sentinel();
    buffer.push_char('x');
    assert_eq!(words(buffer), vec!["=", "valuex"]);
}
