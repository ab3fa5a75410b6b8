//! What the clients of the two control sockets make of a reply.

use vstd::prelude::*;

use crate::json::{json_bool, json_compact, json_fault, json_pretty};
use crate::text::{trim, trimmed};

verus! {

/// What a reader of a reply does with it.
#[derive(Debug)]
pub enum Shown {
    /// print the text; the request succeeded or not
    Print { text: String, ok: bool },
    /// the reply cannot be read
    Unreadable { why: String },
}

/// What to do with a reply that was read: `why` is the fault in it, `pretty`
/// its text over lines, `ok` what it says of the request. A reply to the fault
/// device's client must say that all is well.
pub fn show_fault(why: Option<String>, pretty: Option<String>, ok: Option<bool>) -> (shown: Shown)
    ensures
        match (why, pretty) {
            (Some(e), _) => shown matches Shown::Unreadable { why: w } && w@ == "parse response: "@
                + e@,
            (None, Some(t)) => shown matches Shown::Print { text, ok: good } && text@ == t@ && good
                == (ok == Some(true)),
            (None, None) => shown matches Shown::Print { text, ok: good } && text@.len() == 0
                && good == (ok == Some(true)),
        },
{
    match why {
        Some(e) => {
            let mut t: String = "parse response: ".to_owned();
            t.append(&e);
            Shown::Unreadable { why: t }
        },
        None => {
            let good: bool = match ok {
                Some(b) => b,
                None => false,
            };
            match pretty {
                Some(text) => Shown::Print { text, ok: good },
                None => {
                    let text: String = String::new();
                    Shown::Print { text, ok: good }
                },
            }
        },
    }
}

/// What the fault device's client makes of a reply line.
pub fn fault_reply(line: &str) -> (shown: Shown)
    ensures
        match json_fault(trimmed(line@)) {
            Some(e) => shown matches Shown::Unreadable { why } && why@ == "parse response: "@ + e,
            None => shown matches Shown::Print { text, ok } && text@ == match json_pretty(
                trimmed(line@),
            ) {
                Some(t) => t,
                None => Seq::empty(),
            } && ok == (json_bool(trimmed(line@), "ok"@) == Some(true)),
        },
{
    let text: &str = trim(line);
    show_fault(
        crate::json::fault(text),
        crate::json::pretty(text),
        crate::json::bool_at(text, "ok"),
    )
}

/// What to do with a daemon's reply that was read. Only a reply that says so
/// counts as a failure.
pub fn show_daemon(why: Option<String>, pretty: Option<String>, ok: Option<bool>) -> (shown: Shown)
    ensures
        match (why, pretty) {
            (Some(e), _) => shown matches Shown::Unreadable { why: w } && w@ == e@,
            (None, Some(t)) => shown matches Shown::Print { text, ok: good } && text@ == t@ && good
                == (ok != Some(false)),
            (None, None) => shown matches Shown::Print { text, ok: good } && text@.len() == 0
                && good == (ok != Some(false)),
        },
{
    match why {
        Some(e) => Shown::Unreadable { why: e },
        None => {
            let good: bool = match ok {
                Some(b) => b,
                None => true,
            };
            match pretty {
                Some(text) => Shown::Print { text, ok: good },
                None => {
                    let text: String = String::new();
                    Shown::Print { text, ok: good }
                },
            }
        },
    }
}

/// What the daemon's client makes of a reply line.
pub fn daemon_reply(line: &str) -> (shown: Shown)
    ensures
        match json_fault(trimmed(line@)) {
            Some(e) => shown matches Shown::Unreadable { why } && why@ == e,
            None => shown matches Shown::Print { text, ok } && text@ == match json_pretty(
                trimmed(line@),
            ) {
                Some(t) => t,
                None => Seq::empty(),
            } && ok == (json_bool(trimmed(line@), "ok"@) != Some(false)),
        },
{
    let text: &str = trim(line);
    show_daemon(
        crate::json::fault(text),
        crate::json::pretty(text),
        crate::json::bool_at(text, "ok"),
    )
}

/// Whether a scenario's control request went well: `why` is the fault in the
/// reply, `ok` what it says, `shown` its text.
pub fn judge_ctl(
    req: &str,
    why: Option<String>,
    ok: Option<bool>,
    shown: Option<String>,
) -> (res: Result<(), String>)
    ensures
        match (why, ok) {
            (Some(e), _) => res matches Err(t) && t@ == "parse ctl response: "@ + e@,
            (None, Some(true)) => res is Ok,
            (None, _) => res matches Err(t) && t@ == "ctl "@ + req@ + ": "@ + match shown {
                Some(s) => s@,
                None => Seq::empty(),
            },
        },
{
    match why {
        Some(e) => {
            let mut t: String = "parse ctl response: ".to_owned();
            t.append(&e);
            Err(t)
        },
        None => {
            if let Some(b) = ok {
                if b {
                    return Ok(());
                }
            }
            let mut t: String = "ctl ".to_owned();
            t.append(req);
            t.append(": ");
            if let Some(s) = shown {
                t.append(&s);
            } else {
                proof {
                    assert(t@ =~= "ctl "@ + req@ + ": "@ + Seq::empty());
                }
            }
            Err(t)
        },
    }
}

/// Whether a scenario's control request went well, by its reply line.
pub fn ctl_reply(req: &str, line: &str) -> (res: Result<(), String>)
    ensures
        match (json_fault(trimmed(line@)), json_bool(trimmed(line@), "ok"@)) {
            (Some(e), _) => res matches Err(t) && t@ == "parse ctl response: "@ + e,
            (None, Some(true)) => res is Ok,
            (None, _) => res matches Err(t) && t@ == "ctl "@ + req@ + ": "@ + match json_compact(
                trimmed(line@),
            ) {
                Some(s) => s,
                None => Seq::empty(),
            },
        },
{
    let text: &str = trim(line);
    judge_ctl(
        req,
        crate::json::fault(text),
        crate::json::bool_at(text, "ok"),
        crate::json::compact(text),
    )
}

} // verus!
