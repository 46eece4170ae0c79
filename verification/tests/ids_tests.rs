use regulations_db::{paragraph_key, section_key};

#[test]
fn section_key_formats_part_dot_section() {
    assert_eq!(section_key(1, 100), "1.100");
    assert_eq!(section_key(91, 205), "91.205");
    assert_eq!(section_key(0, 0), "0.0");
}

#[test]
fn section_key_formats_negative_fields() {
    assert_eq!(section_key(-5, 7), "-5.7");
    assert_eq!(section_key(5, -7), "5.-7");
    assert_eq!(section_key(i32::MIN, i32::MAX), "-2147483648.2147483647");
}

#[test]
fn paragraph_key_appends_parenthesized_marker() {
    assert_eq!(paragraph_key(1, 100, "a"), "1.100(a)");
    assert_eq!(paragraph_key(91, 205, "b2"), "91.205(b2)");
    assert_eq!(paragraph_key(1, 100, ""), "1.100()");
}

#[test]
fn section_key_distinguishes_digit_splits() {
    // "1.23" vs "12.3": same digits, different (part, section) pairs
    assert_ne!(section_key(1, 23), section_key(12, 3));
    assert_ne!(section_key(11, 1), section_key(1, 11));
    assert_ne!(section_key(-1, 1), section_key(1, 1));
}
