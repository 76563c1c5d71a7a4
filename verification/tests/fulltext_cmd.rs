use zot::commands::fulltext_cmd::char_slice;

#[test]
fn slices_ascii_by_position() {
    assert_eq!(char_slice("abcdef", 1, 4), "bcd");
    assert_eq!(char_slice("abcdef", 0, 6), "abcdef");
}

#[test]
fn slices_multibyte_text_by_character_not_byte() {
    // "üü" is 2 chars but 4 bytes: byte slicing would panic on [0..1] and
    // return the wrong window for any offset past a multibyte character.
    let text = "üüabc";
    assert_eq!(char_slice(text, 0, 1), "ü");
    assert_eq!(char_slice(text, 2, 5), "abc");
}

#[test]
fn out_of_range_end_is_clamped_not_panicking() {
    assert_eq!(char_slice("abc", 1, 99), "bc");
    assert_eq!(char_slice("abc", 5, 9), "");
    assert_eq!(char_slice("abc", 3, 1), "");
}
