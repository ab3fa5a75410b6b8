use ublkera::client::{
    ctl_reply, daemon_reply, fault_reply, judge_ctl, show_daemon, show_fault, Shown,
};

fn printed(shown: Shown) -> (String, bool) {
    match shown {
        Shown::Print { text, ok } => (text, ok),
        Shown::Unreadable { why } => panic!("unreadable: {why}"),
    }
}

fn unreadable(shown: Shown) -> String {
    match shown {
        Shown::Unreadable { why } => why,
        Shown::Print { text, .. } => panic!("printed {text}"),
    }
}

#[test]
fn replies_are_laid_out_over_lines() {
    assert_eq!(
        printed(daemon_reply(" {\"ok\":true,\"devices\":[]}\n")),
        ("{\n  \"devices\": [],\n  \"ok\": true\n}".to_string(), true)
    );
    assert_eq!(
        printed(fault_reply("{\"ok\":true}\n")),
        ("{\n  \"ok\": true\n}".to_string(), true)
    );
}

#[test]
fn only_a_stated_failure_fails_a_daemon_request() {
    assert!(!printed(daemon_reply("{\"ok\":false,\"error\":\"x\"}")).1);
    assert!(printed(daemon_reply("{}")).1);
    assert!(printed(daemon_reply("{\"ok\":1}")).1);
}

#[test]
fn only_a_stated_success_passes_a_fault_request() {
    assert!(!printed(fault_reply("{\"ok\":false}")).1);
    assert!(!printed(fault_reply("{}")).1);
    assert!(!printed(fault_reply("[]")).1);
}

#[test]
fn broken_replies_are_reported() {
    assert_eq!(
        unreadable(daemon_reply("\n")),
        "EOF while parsing a value at line 1 column 0"
    );
    assert_eq!(
        unreadable(fault_reply("")),
        "parse response: EOF while parsing a value at line 1 column 0"
    );
}

#[test]
fn scenario_requests_must_succeed() {
    let req = "{\"cmd\":\"crash\"}";
    assert_eq!(ctl_reply(req, "{\"ok\":true}\n"), Ok(()));
    assert_eq!(
        ctl_reply(req, "{ \"ok\": false }\n"),
        Err("ctl {\"cmd\":\"crash\"}: {\"ok\":false}".to_string())
    );
    assert_eq!(
        ctl_reply(req, ""),
        Err("parse ctl response: EOF while parsing a value at line 1 column 0".to_string())
    );
}

#[test]
fn decisions_on_given_readings() {
    let text = |s: &str| Some(s.to_string());
    assert_eq!(printed(show_daemon(None, text("t"), None)), ("t".to_string(), true));
    assert_eq!(printed(show_fault(None, text("t"), None)), ("t".to_string(), false));
    assert_eq!(printed(show_fault(None, None, Some(true))), (String::new(), true));
    assert_eq!(unreadable(show_daemon(text("e"), text("t"), Some(true))), "e");
    assert_eq!(unreadable(show_fault(text("e"), None, None)), "parse response: e");
    assert_eq!(judge_ctl("r", None, Some(true), None), Ok(()));
    assert_eq!(judge_ctl("r", None, None, text("s")), Err("ctl r: s".to_string()));
}
