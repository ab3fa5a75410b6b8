use ublkera::number::{fits_size, parse_number, parse_size, power_of_two, NumberError};
use ublkera::text::{decimal_text, less, push_hex, push_signed, same, space, split_lines, split_words, trim};

#[test]
fn white_space_is_that_of_unicode() {
    for n in 0..0x11_0000u32 {
        if let Some(c) = char::from_u32(n) {
            assert_eq!(space(c), c.is_whitespace(), "U+{n:04X}");
        }
    }
}

#[test]
fn trims_both_ends() {
    for s in ["", " ", "a", " a b\t", "\u{3000}x\u{85}", "\n\n", "é "] {
        assert_eq!(trim(s), s.trim());
    }
}

#[test]
fn splits_like_the_standard_library() {
    for s in ["", "a", "a\n", "a\r\nb", "a\n\nb\n", "\n", "x\ry\n", "a\r"] {
        let want: Vec<String> = s.lines().map(|l| l.to_string()).collect();
        assert_eq!(split_lines(s), want, "{s:?}");
        let want: Vec<String> = s.split_whitespace().map(|l| l.to_string()).collect();
        assert_eq!(split_words(s), want, "{s:?}");
    }
    assert_eq!(split_words("  off=1   len=2 "), ["off=1", "len=2"]);
}

#[test]
fn orders_like_the_standard_library() {
    let all = ["", "a", "ab", "b", "é", "z", "aé"];
    for a in all {
        for b in all {
            assert_eq!(less(a, b), a < b);
            assert_eq!(same(a, b), a == b);
        }
    }
}

#[test]
fn numbers_in_words() {
    for n in [0u64, 9, 10, 12345, u64::MAX] {
        assert_eq!(decimal_text(n), n.to_string());
    }
    for n in [0i32, -1, 7, i32::MAX, i32::MIN] {
        let mut t = String::new();
        push_signed(&mut t, n);
        assert_eq!(t, n.to_string());
    }
    let mut t = String::new();
    push_hex(&mut t, 0x9f3b_2a1c, 16);
    assert_eq!(t, "000000009f3b2a1c");
}

#[test]
fn parses_numbers_like_the_standard_library() {
    for s in ["", "+", "-", "0", "+0", "007", "18446744073709551615", "18446744073709551616",
        "1x", "-1", "x", " 1", "١"]
    {
        let got = parse_number(s);
        let want = s.parse::<u64>();
        assert_eq!(got.ok(), want.clone().ok(), "{s:?}");
        if let (Err(e), Err(w)) = (got, want) {
            assert_eq!(e.text(), w.to_string(), "{s:?}");
        }
    }
    assert_eq!(parse_number(""), Err(NumberError::Empty));
    assert_eq!(parse_number("99999999999999999999x"), Err(NumberError::TooLarge));
}

#[test]
fn sizes_of_the_daemon_client() {
    assert_eq!(parse_size(" 64K "), Ok(65536));
    assert_eq!(parse_size("1g"), Ok(1 << 30));
    assert_eq!(
        parse_size("K"),
        Err("invalid size 'K': cannot parse integer from empty string".to_string())
    );
    assert_eq!(parse_size("12q"), Err("invalid size '12q': invalid digit found in string".to_string()));
    assert!(fits_size("17179869183G"));
    assert!(!fits_size("17179869184G"));
}

#[test]
fn powers_of_two() {
    for n in [0u64, 1, 2, 3, 4096, 4097, 1 << 63, u64::MAX] {
        assert_eq!(power_of_two(n), n.is_power_of_two());
    }
}
