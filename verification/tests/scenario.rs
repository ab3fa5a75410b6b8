use ublkera::number::NumberError;
use ublkera::scenario::{fits_line, parse_line, parse_size, LineError, Step};

#[test]
fn parses_the_basic_verbs() {
    assert_eq!(
        parse_line("write off=4K len=1M pattern=base fsync").unwrap(),
        Some(Step::Write {
            off: 4096,
            len: 1 << 20,
            pattern: "base".into(),
            fsync: true,
            expect_error: false,
        })
    );
    assert_eq!(
        parse_line("crash mode=drop # power loss").unwrap(),
        Some(Step::Crash { mode: "drop".into() })
    );
    assert_eq!(
        parse_line("set error_pm=1000").unwrap(),
        Some(Step::SetPolicy { pairs: vec![("error_pm".into(), 1000)] })
    );
    assert_eq!(
        parse_line("run ublkera checkpoint -n 0").unwrap(),
        Some(Step::Run { cmd: "ublkera checkpoint -n 0".into(), expect_ok: true })
    );
    assert_eq!(parse_line("  # comment only ").unwrap(), None);
    assert_eq!(parse_line("").unwrap(), None);
}

#[test]
fn rejects_bad_input() {
    assert!(parse_line("write len=1M pattern=x").is_err()); // missing off
    assert!(parse_line("frobnicate off=0").is_err());
    assert!(parse_line("set").is_err());
    assert!(parse_line("run").is_err());
}

#[test]
fn parses_the_other_verbs() {
    assert_eq!(
        parse_line("write-fails off=0 len=4k pattern=x").unwrap(),
        Some(Step::Write {
            off: 0,
            len: 4096,
            pattern: "x".into(),
            fsync: false,
            expect_error: true,
        })
    );
    assert_eq!(
        parse_line("expect pattern=zero len=1G off=2m").unwrap(),
        Some(Step::Expect { off: 2 << 20, len: 1 << 30, pattern: "zero".into() })
    );
    assert_eq!(parse_line("\tflush\t").unwrap(), Some(Step::Flush));
    assert_eq!(
        parse_line("thaw result=eio").unwrap(),
        Some(Step::Thaw { result: "eio".into() })
    );
    assert_eq!(parse_line("sleep ms=500").unwrap(), Some(Step::Sleep { ms: 500 }));
    assert_eq!(
        parse_line("fail  test -e /x # not there").unwrap(),
        Some(Step::Run { cmd: "test -e /x".into(), expect_ok: false })
    );
}

#[test]
fn pairs_are_sorted_and_the_last_value_counts() {
    assert_eq!(
        parse_line("set hang_pm=1 error_pm=2 hang_pm=3 stray").unwrap(),
        Some(Step::SetPolicy { pairs: vec![("error_pm".into(), 2), ("hang_pm".into(), 3)] })
    );
    assert_eq!(
        parse_line("crash mode=drop mode=seeded").unwrap(),
        Some(Step::Crash { mode: "seeded".into() })
    );
    assert_eq!(
        parse_line("crash mode=a=b").unwrap(),
        Some(Step::Crash { mode: "a=b".into() })
    );
}

#[test]
fn each_fault_has_its_error() {
    let why = |line: &str| parse_line(line).err().unwrap();
    assert_eq!(why("run # nothing"), LineError::MissingCommand { verb: "run".to_string() });
    assert_eq!(
        why("write off=0 pattern=x"),
        LineError::MissingArg { verb: "write".to_string(), key: "len".to_string() }
    );
    assert_eq!(
        why("expect off=4x len=1 pattern=x"),
        LineError::BadSize { text: "4x".to_string(), why: NumberError::InvalidDigit }
    );
    assert_eq!(
        why("set error_pm="),
        LineError::BadValue {
            key: "error_pm".to_string(),
            value: "".to_string(),
            why: NumberError::Empty
        }
    );
    assert_eq!(why("set fsync"), LineError::NoPairs);
    assert_eq!(why("sleep ms=1s"), LineError::BadNumber { why: NumberError::InvalidDigit });
    assert_eq!(why("Flush"), LineError::UnknownVerb { verb: "Flush".to_string() });
}

#[test]
fn errors_in_words() {
    let words = |line: &str| parse_line(line).err().unwrap().message();
    assert_eq!(words("fail"), "fail: missing command");
    assert_eq!(words("crash"), "crash: missing mode=");
    assert_eq!(
        words("write off=K len=1 pattern=x"),
        "bad size 'K': cannot parse integer from empty string"
    );
    assert_eq!(words("set a=x"), "set: a=x: invalid digit found in string");
    assert_eq!(words("set"), "set: no key=value pairs");
    assert_eq!(
        words("sleep ms=18446744073709551616"),
        "number too large to fit in target type"
    );
    assert_eq!(words("frobnicate off=0"), "unknown verb 'frobnicate'");
}

#[test]
fn sizes_take_a_suffix() {
    assert_eq!(parse_size("0").unwrap(), 0);
    assert_eq!(parse_size("+7").unwrap(), 7);
    assert_eq!(parse_size("3k").unwrap(), 3 << 10);
    assert_eq!(parse_size("3M").unwrap(), 3 << 20);
    assert_eq!(parse_size("3g").unwrap(), 3 << 30);
    assert!(parse_size("-1").is_err());
    assert!(parse_size(" 1").is_err());
    assert!(parse_size("").is_err());
}

#[test]
fn lines_whose_sizes_do_not_fit_are_told_apart() {
    assert!(fits_line("write off=4K len=1M pattern=base"));
    assert!(!fits_line("write off=18446744073709551615K len=1M pattern=base"));
    assert!(fits_line("# off=18446744073709551615K"));
    assert!(fits_line("run off=18446744073709551615K"));
}

/// Tokens of distinct keys may come in any order.
#[test]
fn the_order_of_tokens_does_not_matter() {
    let want = Some(Step::SetPolicy {
        pairs: vec![
            ("error_pm".to_string(), 5),
            ("flush_lie_pm".to_string(), 6),
            ("hang_pm".to_string(), 7),
        ],
    });
    for line in [
        "set error_pm=5 flush_lie_pm=6 hang_pm=7",
        "set hang_pm=7 error_pm=5 flush_lie_pm=6",
        "set flush_lie_pm=6 hang_pm=7 error_pm=5",
    ] {
        assert_eq!(parse_line(line).unwrap(), want);
    }
    assert_eq!(
        parse_line("write fsync pattern=x len=4k off=0").unwrap(),
        parse_line("write off=0 len=4k pattern=x fsync").unwrap()
    );
    // numbers of a policy take no suffix
    assert_eq!(
        parse_line("set hang_pm=7 error_pm=1K"),
        Err(LineError::BadValue {
            key: "error_pm".to_string(),
            value: "1K".to_string(),
            why: NumberError::InvalidDigit
        })
    );
}

/// A comment ends at the end of the line, whatever it holds.
#[test]
fn comments_may_hold_anything() {
    for line in ["flush", "flush # a", "flush # a # b", "flush#", "flush ## x=1"] {
        assert_eq!(parse_line(line).unwrap(), Some(Step::Flush));
        assert_eq!(parse_line(&format!("{line}# more")), parse_line(line));
    }
    assert_eq!(parse_line("# flush # flush").unwrap(), None);
    assert_eq!(
        parse_line("set error_pm=1#2 hang_pm=3").unwrap(),
        Some(Step::SetPolicy { pairs: vec![("error_pm".into(), 1)] })
    );
}
