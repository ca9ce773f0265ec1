use netman::bytes::{be_u128, be_u64, bytes_le};
use netman::text::{chars_of, contains, find, read_number, same_text, string_of, trim, white};

fn chars(s: &str) -> Vec<char> {
    s.chars().collect()
}

#[test]
fn white_space_is_that_of_std() {
    for n in 0..=0x10ffffu32 {
        if let Some(c) = char::from_u32(n) {
            assert_eq!(white(c), c.is_whitespace(), "{n:x}");
        }
    }
}

#[test]
fn trimming_is_that_of_std() {
    for s in ["", " ", "a", "  a b\t", "\u{a0}x\u{3000}", "\r\n", "x ", " x"] {
        let c = chars(s);
        assert_eq!(string_of(trim(&c)), s.trim());
    }
}

#[test]
fn numbers_are_those_of_std() {
    for s in [
        "", "+", "-", "0", "00", "+7", "++7", "-0", "255", "256", "0255", " 1", "1 ", "1_0", "12a",
        "18446744073709551615", "18446744073709551616", "٣",
    ] {
        let c = chars(s);
        assert_eq!(
            read_number(&c, false, 255),
            s.parse::<u8>().ok().map(u64::from),
            "{s}"
        );
        assert_eq!(read_number(&c, false, u64::MAX), s.parse::<u64>().ok(), "{s}");
    }
    for s in ["", "f", "F", "fF", "100", "g", "+a", "-a", "0x1", "ff", "0ff"] {
        let c = chars(s);
        assert_eq!(
            read_number(&c, true, 255),
            u8::from_str_radix(s, 16).ok().map(u64::from),
            "{s}"
        );
    }
}

#[test]
fn parts_are_found() {
    for (s, part) in [
        ("", ""),
        ("abc", ""),
        ("abc", "bc"),
        ("abc", "abc"),
        ("abc", "abcd"),
        ("aab", "ab"),
        ("abab", "bb"),
        ("é🦀", "🦀"),
    ] {
        assert_eq!(contains(s, part), s.contains(part), "{s} {part}");
    }
    assert_eq!(find(&chars("a:b:c"), ':'), 1);
    assert_eq!(find(&chars("abc"), ':'), 3);
}

#[test]
fn texts_are_compared_by_content() {
    assert!(same_text("é🦀", "é🦀"));
    assert!(!same_text("é", "e"));
    assert!(!same_text("ab", "abc"));
    assert_eq!(string_of(&chars_of("é🦀")), "é🦀");
}

#[test]
fn bytes_write_numbers() {
    assert_eq!(be_u64(&[]), 0);
    assert_eq!(be_u64(&[1, 2, 3]), 0x010203);
    assert_eq!(be_u64(&[0xff; 8]), u64::MAX);
    assert_eq!(be_u128(&[0xff; 16]), u128::MAX);
    assert_eq!(be_u128(&[1, 0]), 256);
    assert!(bytes_le(&[1, 2], &[1, 3]));
    assert!(!bytes_le(&[2, 0], &[1, 255]));
    assert!(bytes_le(&[1, 2], &[1, 2]));
}
