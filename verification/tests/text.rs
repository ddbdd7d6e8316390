//! Numbers read and written the way the command line and the overlay need.

use narvo_app::text::{append_decimal, parse_u64, parse_usize, same_text, starts_with_dash};

#[test]
fn a_number_reads_as_str_parse_reads_it() {
    for text in ["0", "7", "+5", "0042", "18446744073709551615", "", "+", "-1", "1.0", " 1", "1 ", "x", "18446744073709551616", "99999999999999999999999"] {
        assert_eq!(parse_u64(text), text.parse::<u64>().ok(), "{text:?}");
        assert_eq!(parse_usize(text), text.parse::<usize>().ok(), "{text:?}");
    }
}

#[test]
fn a_number_written_in_decimal_reads_back() {
    for n in [0_u64, 1, 9, 10, 99, 100, 12_345, u64::MAX] {
        let mut text = String::new();
        append_decimal(&mut text, n);
        assert_eq!(text, n.to_string());
        assert_eq!(parse_u64(&text), Some(n));
    }
}

#[test]
fn writing_appends_rather_than_replacing() {
    let mut text = "tick ".to_owned();
    append_decimal(&mut text, 600);
    assert_eq!(text, "tick 600");
}

#[test]
fn a_dash_starts_a_flag() {
    assert!(starts_with_dash("--hash"));
    assert!(starts_with_dash("-h"));
    assert!(!starts_with_dash("bug.rec"));
    assert!(!starts_with_dash(""));
}

#[test]
fn texts_compare_by_their_characters() {
    assert!(same_text("héro", "héro"));
    assert!(!same_text("héro", "hero"));
    assert!(!same_text("--hash", "--hashes"));
    assert!(same_text("", ""));
}
