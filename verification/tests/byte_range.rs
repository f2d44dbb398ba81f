use otp_input::byte_range;

#[test]
fn byte_range_of_ascii_is_the_range() {
    assert_eq!(byte_range("1234", 1..3), 1..3);
    assert_eq!(byte_range("1234", 0..0), 0..0);
}

#[test]
fn byte_range_widens_to_whole_characters() {
    // "a🙂b": 'a' is one byte and one unit, the emoji four bytes and two units.
    assert_eq!(byte_range("a🙂b", 0..1), 0..1);
    assert_eq!(byte_range("a🙂b", 2..2), 1..5);
    assert_eq!(byte_range("a🙂b", 1..3), 1..5);
    assert_eq!(byte_range("a🙂b", 3..4), 5..6);
}

#[test]
fn byte_range_clamps_to_the_text() {
    assert_eq!(byte_range("a🙂b", 0..10), 0..6);
    assert_eq!(byte_range("a🙂b", 10..20), 6..6);
    assert_eq!(byte_range("", 0..5), 0..0);
}

#[test]
fn byte_range_with_end_before_start_is_empty_at_start() {
    assert_eq!(byte_range("a🙂b", 3..1), 5..5);
}

#[test]
fn byte_range_counts_multibyte_bmp_characters_as_one_unit() {
    // '３' (U+FF13) is three bytes and one UTF-16 unit.
    assert_eq!(byte_range("x３y", 1..2), 1..4);
}
