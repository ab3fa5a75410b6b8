use ublkera::pattern::fill_pattern;
use ublkera::runner::{
    begin, find_difference, passed, read_line, resume, step_failed, Action, CtlRequest, Event,
    Progress, Script, StepError, Verdict,
};
use ublkera::scenario::Step;

fn pattern(name: &str, off: u64, len: usize) -> Vec<u8> {
    let mut data = vec![0u8; len];
    fill_pattern(name, off, &mut data);
    data
}

fn write(fsync: bool, expect_error: bool) -> Step {
    Step::Write { off: 4096, len: 8192, pattern: "base".to_string(), fsync, expect_error }
}

fn words(v: Verdict) -> String {
    match v {
        Verdict::Fail { error } => error.message(),
        _ => panic!("{v:?}"),
    }
}

#[test]
fn a_write_writes_its_pattern() {
    match begin(&write(false, false)) {
        Verdict::Do { action: Action::WriteAll { off, data }, pos: 0 } => {
            assert_eq!(off, 4096);
            assert_eq!(data, pattern("base", 4096, 8192));
        }
        other => panic!("{other:?}"),
    }
    let ok = || Event::Wrote { res: Ok(()) };
    let err = || Event::Wrote { res: Err("EIO".to_string()) };
    assert!(matches!(resume(&write(false, false), 0, ok()), Verdict::Done));
    assert!(matches!(
        resume(&write(true, false), 0, ok()),
        Verdict::Do { action: Action::Sync, pos: 0 }
    ));
    assert!(matches!(resume(&write(true, true), 0, err()), Verdict::Done));
    assert_eq!(words(resume(&write(false, false), 0, err())), "write: EIO");
    assert_eq!(
        words(resume(&write(false, true), 0, ok())),
        "write succeeded but was expected to fail"
    );
    let synced = Event::Synced { res: Err("EIO".to_string()) };
    assert_eq!(words(resume(&write(true, false), 0, synced)), "fsync: EIO");
}

#[test]
fn offsets_must_be_aligned() {
    let step = Step::Write {
        off: 512,
        len: 512,
        pattern: "p".to_string(),
        fsync: false,
        expect_error: false,
    };
    assert_eq!(words(begin(&step)), "off must be 4K-aligned for pattern anchoring");
    let step = Step::Expect { off: 4097, len: 512, pattern: "p".to_string() };
    assert_eq!(words(begin(&step)), "off must be 4K-aligned for pattern anchoring");
    // however large the range is
    let step = Step::Write {
        off: 1,
        len: u64::MAX,
        pattern: "p".to_string(),
        fsync: false,
        expect_error: true,
    };
    assert_eq!(words(begin(&step)), "off must be 4K-aligned for pattern anchoring");
    let step = Step::Expect { off: u64::MAX, len: u64::MAX, pattern: "p".to_string() };
    assert_eq!(words(begin(&step)), "off must be 4K-aligned for pattern anchoring");
}

/// Run an expectation against a device image.
fn expect(device: &[u8], off: u64, len: u64, name: &str) -> Verdict {
    let step = Step::Expect { off, len, pattern: name.to_string() };
    let mut verdict = begin(&step);
    loop {
        match verdict {
            Verdict::Do { action: Action::ReadExact { off, len }, pos } => {
                let from = off as usize;
                let data = device[from..from + len].to_vec();
                verdict = resume(&step, pos, Event::Read { data: Ok(data) });
            }
            other => return other,
        }
    }
}

#[test]
fn expectations_are_read_in_pieces() {
    let mut device = vec![0u8; 3 << 20];
    let data = pattern("p", 4096, (5 << 19) + 100);
    device[4096..4096 + data.len()].copy_from_slice(&data);
    assert!(matches!(expect(&device, 4096, data.len() as u64, "p"), Verdict::Done));
    assert!(matches!(expect(&device, 8192, 4096, "p"), Verdict::Done));
    assert!(matches!(expect(&device, 0, 4096, "zero"), Verdict::Done));
    assert!(matches!(expect(&device, 0, 0, "q"), Verdict::Done));
    // each piece is asked for in full, and the next starts where it ends
    let step = Step::Expect { off: 4096, len: data.len() as u64, pattern: "p".to_string() };
    let whole = Event::Read { data: Ok(data[..1 << 20].to_vec()) };
    match resume(&step, 0, whole) {
        Verdict::Do { action: Action::ReadExact { off, len }, pos } => {
            assert_eq!((off, len, pos), (4096 + (1 << 20), 1 << 20, 1 << 20))
        }
        other => panic!("{other:?}"),
    }
    let whole = Event::Read { data: Ok(data[1 << 20..2 << 20].to_vec()) };
    match resume(&step, 1 << 20, whole) {
        Verdict::Do { action: Action::ReadExact { off, len }, pos } => {
            assert_eq!((off, len, pos), (4096 + (2 << 20), (1 << 19) + 100, 2 << 20))
        }
        other => panic!("{other:?}"),
    }
    // a wrong byte in the second piece
    device[(1 << 20) + 5000] ^= 1;
    assert_eq!(
        words(expect(&device, 4096, data.len() as u64, "p")),
        format!(
            "content mismatch: expected pattern 'p', first differing byte at device offset {}",
            (1 << 20) + 5000
        )
    );
}

#[test]
fn other_steps_ask_and_judge() {
    assert!(matches!(
        begin(&Step::Flush),
        Verdict::Do { action: Action::Sync, pos: 0 }
    ));
    let synced = Event::Synced { res: Err("EIO".to_string()) };
    assert_eq!(words(resume(&Step::Flush, 0, synced)), "flush: EIO");
    assert!(matches!(
        begin(&Step::Sleep { ms: 5 }),
        Verdict::Do { action: Action::Sleep { ms: 5 }, pos: 0 }
    ));
    assert!(matches!(resume(&Step::Sleep { ms: 5 }, 0, Event::Slept), Verdict::Done));
    let pairs = vec![("error_pm".to_string(), 5)];
    match begin(&Step::SetPolicy { pairs: pairs.clone() }) {
        Verdict::Do { action: Action::Ctl { request: CtlRequest::SetPolicy { pairs: p } }, .. } => {
            assert_eq!(p, pairs)
        }
        other => panic!("{other:?}"),
    }
    let crash = Step::Crash { mode: "drop".to_string() };
    match begin(&crash) {
        Verdict::Do { action: Action::Ctl { request: CtlRequest::Crash { mode } }, .. } => {
            assert_eq!(mode, "drop")
        }
        other => panic!("{other:?}"),
    }
    let refused = Event::Replied { res: Err("ctl {}: {}".to_string()) };
    assert_eq!(words(resume(&crash, 0, refused)), "ctl {}: {}");
    match begin(&Step::Thaw { result: "eio".to_string() }) {
        Verdict::Do { action: Action::Ctl { request: CtlRequest::Thaw { result } }, .. } => {
            assert_eq!(result, "eio")
        }
        other => panic!("{other:?}"),
    }
}

#[test]
fn commands_exit_as_expected() {
    let run = Step::Run { cmd: "true".to_string(), expect_ok: true };
    let fail = Step::Run { cmd: "true".to_string(), expect_ok: false };
    let exited = |success: bool, code: Option<i32>| Event::Exited { success, code };
    assert!(matches!(resume(&run, 0, exited(true, Some(0))), Verdict::Done));
    assert!(matches!(resume(&fail, 0, exited(false, Some(1))), Verdict::Done));
    assert_eq!(
        words(resume(&run, 0, exited(false, Some(-3)))),
        "command exited -3 but was expected to succeed"
    );
    assert_eq!(
        words(resume(&run, 0, exited(false, None))),
        "command exited by signal but was expected to succeed"
    );
    assert_eq!(
        words(resume(&fail, 0, exited(true, Some(0)))),
        "command exited 0 but was expected to fail"
    );
    assert_eq!(
        words(resume(&run, 0, Event::NotSpawned { cause: "ENOENT".to_string() })),
        "spawn sh: ENOENT"
    );
}

#[test]
fn lines_of_a_report() {
    assert!(matches!(read_line("s", 3, "flush # now"), Ok(Some(Step::Flush))));
    assert!(matches!(read_line("s", 3, "# nothing"), Ok(None)));
    assert_eq!(
        read_line("s", 3, "jump").err().unwrap(),
        "s:3: unknown verb 'jump'"
    );
    assert_eq!(
        step_failed("s", 4, "  flush  ", &StepError::Flush { cause: "EIO".to_string() }),
        "s:4 `flush`: flush: EIO"
    );
    assert_eq!(passed("s", 12), "SCENARIO s: 12 steps ok");
}

#[test]
fn the_first_difference_counts() {
    assert_eq!(find_difference(&[1, 2, 3], &[1, 2, 3]), None);
    assert_eq!(find_difference(&[1, 2, 3], &[1, 9, 9]), Some(1));
}

#[test]
fn a_scenario_goes_line_by_line() {
    let mut script = Script::new("s", "# start\n\nflush\n  sleep ms=5 # nap\n\n");
    assert!(script.next_fits());
    match script.advance() {
        Progress::Run { step, lno } => assert_eq!((step, lno), (Step::Flush, 3)),
        other => panic!("{other:?}"),
    }
    assert_eq!(
        script.failed(&StepError::Flush { cause: "EIO".to_string() }),
        "s:3 `flush`: flush: EIO"
    );
    match script.advance() {
        Progress::Run { step, lno } => assert_eq!((step, lno), (Step::Sleep { ms: 5 }, 4)),
        other => panic!("{other:?}"),
    }
    match script.advance() {
        Progress::Passed { report } => assert_eq!(report, "SCENARIO s: 2 steps ok"),
        other => panic!("{other:?}"),
    }
}

#[test]
fn the_first_wrong_line_ends_a_scenario() {
    let mut script = Script::new("s", "flush\n\njump\nflush\n");
    assert!(matches!(script.advance(), Progress::Run { lno: 1, .. }));
    match script.advance() {
        Progress::Wrong { report } => assert_eq!(report, "s:3: unknown verb 'jump'"),
        other => panic!("{other:?}"),
    }
}

#[test]
fn sizes_that_do_not_fit_are_seen_in_time() {
    let mut script = Script::new("s", "flush\nwrite off=18446744073709551615G len=1 pattern=p\n");
    assert!(script.next_fits());
    assert!(matches!(script.advance(), Progress::Run { lno: 1, .. }));
    assert!(!script.next_fits());
}
