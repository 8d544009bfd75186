use rupple::workspace::{generate_rupple_id, rupple_id_from, FIRST_LETTER, ID_LETTERS, LETTER_LIMIT};

#[test]
fn id_from_codes() {
    assert_eq!(rupple_id_from(&vec![97, 98, 99, 120, 121]), "rupple-abcxy");
    assert_eq!(rupple_id_from(&vec![]), "rupple-");
    assert_eq!(rupple_id_from(&vec![233]), "rupple-é");
}

#[test]
fn generated_id_has_the_shape() {
    for _ in 0..200 {
        let id = generate_rupple_id();
        assert_eq!(id.chars().count(), 12);
        assert!(id.starts_with("rupple-"));
        for letter in id.chars().skip(7) {
            assert!(('a'..='y').contains(&letter), "{:?}", id);
        }
    }
}

#[test]
fn letters_are_drawn_from_a_to_y() {
    assert_eq!(ID_LETTERS, 5);
    assert_eq!(FIRST_LETTER, b'a');
    assert_eq!(LETTER_LIMIT, b'z');
}

#[test]
fn generated_ids_differ() {
    let first = generate_rupple_id();
    let mut differs = false;
    for _ in 0..50 {
        if generate_rupple_id() != first {
            differs = true;
        }
    }
    assert!(differs);
}
