use bot_msg::names::{is_name_valid, valid_name_bytes};

#[test]
fn accepts_plain_names() {
    assert!(is_name_valid("Alice"));
    assert!(is_name_valid("bot_1"));
    assert!(is_name_valid("a.b-c 2"));
}

#[test]
fn rejects_leading_space() {
    assert!(!is_name_valid(" bob"));
}

#[test]
fn rejects_trailing_space() {
    assert!(!is_name_valid("bob "));
}

#[test]
fn rejects_bad_character() {
    assert!(!is_name_valid("bob!"));
    assert!(!is_name_valid("a:b"));
    assert!(!is_name_valid("tab\tname"));
}

#[test]
fn rejects_reserved_word_any_case() {
    assert!(!is_name_valid("Referee-1"));
    assert!(!is_name_valid("referee"));
    assert!(!is_name_valid("REFEREE"));
    assert!(!is_name_valid("xRefereex"));
    assert!(!is_name_valid("the referee 2"));
}

#[test]
fn accepts_near_misses_of_the_reserved_word() {
    assert!(is_name_valid("refere"));
    assert!(is_name_valid("refferee h"));
    assert!(is_name_valid("refere e"));
}

#[test]
fn empty_name_is_valid() {
    assert!(is_name_valid(""));
}

#[test]
fn rejects_non_ascii() {
    assert!(!is_name_valid("héllo"));
}

#[test]
fn byte_level_agrees_with_str_level() {
    assert!(valid_name_bytes(b"Alice"));
    assert!(!valid_name_bytes(b" bob"));
    assert!(!valid_name_bytes(b"RefereeBot"));
    assert!(valid_name_bytes(b"spaces are fine"));
}
