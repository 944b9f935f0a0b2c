use asset_parser::tags::is_tag_name;

#[test]
fn empty_string_is_not_a_tag_name() {
    assert!(!is_tag_name(""));
}

#[test]
fn single_lowercase_letter_is_a_tag_name() {
    assert!(is_tag_name("a"));
    assert!(is_tag_name("z"));
}

#[test]
fn lowercase_word_is_a_tag_name() {
    assert!(is_tag_name("zone"));
    assert!(is_tag_name("developer"));
}

#[test]
fn later_characters_may_be_alphanumeric_or_underscore() {
    assert!(is_tag_name("a_1B"));
    assert!(is_tag_name("sensor2"));
    assert!(is_tag_name("x_y_z"));
    assert!(is_tag_name("aZ"));
}

#[test]
fn first_character_must_be_ascii_lowercase() {
    assert!(!is_tag_name("Zone"));
    assert!(!is_tag_name("9a"));
    assert!(!is_tag_name("_a"));
    assert!(!is_tag_name(" a"));
}

#[test]
fn later_characters_may_not_be_punctuation_or_space() {
    assert!(!is_tag_name("z one"));
    assert!(!is_tag_name("a-b"));
    assert!(!is_tag_name("a.b"));
    assert!(!is_tag_name("ab!"));
}

#[test]
fn non_ascii_characters_are_rejected() {
    assert!(!is_tag_name("\u{e9}tage"));
    assert!(!is_tag_name("temp\u{e9}"));
}
