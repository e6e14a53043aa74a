use ak1::status::{check, into_status, STATUS_IO_TIMEOUT, STATUS_SUCCESS};
use ak1::text::{
    chars_of, contains_word, parse_unsigned, push_number, push_signed, push_tenths, push_utf16, same_but_for_case,
    trimmed_chars,
};

#[test]
fn numbers_are_written_in_decimal() {
    let mut text = String::new();
    push_number(&mut text, 0);
    text.push(' ');
    push_number(&mut text, u64::MAX);
    text.push(' ');
    push_signed(&mut text, i64::MIN);
    text.push(' ');
    push_tenths(&mut text, 105);
    assert_eq!(text, "0 18446744073709551615 -9223372036854775808 10.5");
}

#[test]
fn written_numbers_read_back() {
    for n in [0, 7, 10, 99, 1_000_000, u64::MAX] {
        let mut text = String::new();
        push_number(&mut text, n);
        assert_eq!(parse_unsigned(&chars_of(&text), u64::MAX), Some(n));
    }
    assert_eq!(parse_unsigned(&chars_of("256"), 255), None);
}

#[test]
fn white_space_is_trimmed() {
    assert_eq!(trimmed_chars(&chars_of(" \u{3000}a b\r\n")), ['a', ' ', 'b']);
    assert_eq!(trimmed_chars(&chars_of(" \t")), []);
}

#[test]
fn words_are_found_whole() {
    assert!(contains_word("a TestSigning b", "TESTSIGNING"));
    assert!(!contains_word("aTESTSIGNING", "TESTSIGNING"));
    assert!(!contains_word("", "TESTSIGNING"));
    assert!(same_but_for_case("Ak1ACX", "ak1acx"));
    assert!(!same_but_for_case("\u{c4}", "\u{e4}"));
}

#[test]
fn characters_beyond_16_bits_take_two_words() {
    let mut words = Vec::new();
    push_utf16(&mut words, "a\u{10ffff}");
    assert_eq!(words, "a\u{10ffff}".encode_utf16().collect::<Vec<_>>());
}

#[test]
fn negative_statuses_are_errors() {
    assert_eq!(check(0), Ok(()));
    assert_eq!(check(0x103), Ok(()));
    assert_eq!(check(STATUS_IO_TIMEOUT), Err(0xc000_00b5_u32 as i32));
    assert_eq!(into_status(check(STATUS_IO_TIMEOUT)), STATUS_IO_TIMEOUT);
    assert_eq!(into_status(Ok(())), STATUS_SUCCESS);
}
