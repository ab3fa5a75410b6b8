//! What a scenario file means: which step stands on a line, what it has done
//! on the device, and when it counts as passed.

use vstd::prelude::*;

use crate::number::{number, size_value, NumberError};
use crate::pattern::pattern_byte;
use crate::runner::{
    begins, holds_pattern, pattern_bytes, resumes, step_complaint, Action, CtlRequest, Event,
    Progress, ScriptView, StepError, Verdict,
};
use crate::scenario::{
    args_of, content, get, is_arg, key_of, line_complaint, pair_views, parsed, rest_of, settings,
    value_of, verb_of, LineError, StepView,
};
use crate::text::{
    char_index, decimal, is_space, lemma_char_index_bound, lemma_space_index_bound, signed_decimal,
    space_index, trimmed, trimming_cuts_white_space, trimming_finds_the_text, words,
};

verus! {

/// A line is a verb and what follows it; white space around and between them
/// does not count.
pub proof fn a_line_is_a_verb_and_the_rest(
    lead: Seq<char>,
    verb: Seq<char>,
    c: char,
    rest: Seq<char>,
)
    requires
        forall|i: int| 0 <= i < lead.len() ==> is_space(#[trigger] lead[i]),
        verb.len() > 0,
        forall|i: int| 0 <= i < verb.len() ==> !is_space(#[trigger] verb[i]) && verb[i] != '#',
        is_space(c),
        forall|i: int| 0 <= i < rest.len() ==> (#[trigger] rest[i]) != '#',
    ensures
        ({
            let text = content(lead + verb + seq![c] + rest);
            &&& text.len() > 0
            &&& verb_of(text) == verb
            &&& rest_of(text) == trimmed(rest)
        }),
{
    let line = lead + verb + seq![c] + rest;
    lemma_char_index_bound(line, '#');
    let at = char_index(line, '#') as int;
    if at < line.len() {
        assert(line[at] == '#');
        if at < lead.len() {
            assert(line[at] == lead[at]);
            assert(is_space(lead[at]));
        } else if at < lead.len() + verb.len() {
            assert(line[at] == verb[at - lead.len()]);
        } else if at == lead.len() + verb.len() {
            assert(line[at] == c);
        } else {
            assert(line[at] == rest[at - lead.len() - verb.len() - 1]);
        }
    }
    assert(line.take(at) =~= line);
    let (from, to) = trimming_cuts_white_space(rest);
    let none = Seq::<char>::empty();
    if from < to {
        let body = verb + seq![c] + rest.take(to);
        let tail = rest.skip(to);
        assert(line =~= lead + body + tail);
        assert(body[0] == verb[0]);
        assert(body.last() == rest[to - 1]);
        assert forall|i: int| 0 <= i < tail.len() implies is_space(#[trigger] tail[i]) by {
            assert(tail[i] == rest[to + i]);
        }
        trimming_finds_the_text(lead, body, tail);
        lemma_first_space(verb, c, rest.take(to));
        assert(body.take(verb.len() as int) =~= verb);
        assert(body.skip(verb.len() as int + 1) =~= rest.take(to));
        let core = rest.subrange(from, to);
        assert(rest.take(to) =~= rest.take(from) + core + none);
        assert(core[0] == rest[from]);
        assert(core.last() == rest[to - 1]);
        trimming_finds_the_text(rest.take(from), core, none);
    } else {
        let tail = seq![c] + rest;
        assert(line =~= lead + verb + tail);
        assert forall|i: int| 0 <= i < tail.len() implies is_space(#[trigger] tail[i]) by {
            if i > 0 {
                assert(tail[i] == rest[i - 1]);
            }
        }
        trimming_finds_the_text(lead, verb, tail);
        lemma_space_index_bound(verb);
        assert(space_index(verb) == verb.len());
        assert(verb.take(verb.len() as int) =~= verb);
        assert(rest.subrange(from, to) =~= none);
    }
}

proof fn lemma_first_space(verb: Seq<char>, c: char, rest: Seq<char>)
    requires
        forall|i: int| 0 <= i < verb.len() ==> !is_space(#[trigger] verb[i]),
        is_space(c),
    ensures
        space_index(verb + seq![c] + rest) == verb.len(),
{
    let s = verb + seq![c] + rest;
    lemma_space_index_bound(s);
    let n = space_index(s) as int;
    assert(s[verb.len() as int] == c);
    if n < verb.len() {
        assert(s[n] == verb[n]);
    }
}

/// An argument is a key, the first `=`, and a value.
pub proof fn an_argument_is_a_key_and_a_value(key: Seq<char>, value: Seq<char>)
    requires
        !key.contains('='),
    ensures
        is_arg(key + seq!['='] + value),
        key_of(key + seq!['='] + value) == key,
        value_of(key + seq!['='] + value) == value,
        !is_arg(key),
{
    let token = key + seq!['='] + value;
    lemma_char_index_bound(token, '=');
    lemma_char_index_bound(key, '=');
    let n = char_index(token, '=') as int;
    assert(token[key.len() as int] == '=');
    if n < key.len() {
        assert(token[n] == key[n]);
        assert(key.contains(key[n]));
    }
    if char_index(key, '=') < key.len() {
        assert(key.contains(key[char_index(key, '=') as int]));
    }
    assert(token.take(n) =~= key);
    assert(token.skip(n + 1) =~= value);
}

proof fn lemma_verbs_differ()
    ensures
        "run"@ != "fail"@,
        "write"@ != "run"@ && "write"@ != "fail"@,
        "write-fails"@ != "run"@ && "write-fails"@ != "fail"@ && "write-fails"@ != "write"@,
        "expect"@ != "run"@ && "expect"@ != "fail"@ && "expect"@ != "write"@ && "expect"@
            != "write-fails"@,
        "flush"@ != "run"@ && "flush"@ != "fail"@ && "flush"@ != "write"@ && "flush"@
            != "write-fails"@ && "flush"@ != "expect"@,
        "crash"@ != "run"@ && "crash"@ != "fail"@ && "crash"@ != "write"@ && "crash"@
            != "write-fails"@ && "crash"@ != "expect"@ && "crash"@ != "flush"@,
        "set"@ != "run"@ && "set"@ != "fail"@ && "set"@ != "write"@ && "set"@ != "write-fails"@
            && "set"@ != "expect"@ && "set"@ != "flush"@ && "set"@ != "crash"@,
        "thaw"@ != "run"@ && "thaw"@ != "fail"@ && "thaw"@ != "write"@ && "thaw"@ != "write-fails"@
            && "thaw"@ != "expect"@ && "thaw"@ != "flush"@ && "thaw"@ != "crash"@ && "thaw"@
            != "set"@,
        "sleep"@ != "run"@ && "sleep"@ != "fail"@ && "sleep"@ != "write"@ && "sleep"@
            != "write-fails"@ && "sleep"@ != "expect"@ && "sleep"@ != "flush"@ && "sleep"@
            != "crash"@ && "sleep"@ != "set"@ && "sleep"@ != "thaw"@,
{
    reveal_strlit("run");
    reveal_strlit("fail");
    reveal_strlit("write");
    reveal_strlit("write-fails");
    reveal_strlit("expect");
    reveal_strlit("flush");
    reveal_strlit("crash");
    reveal_strlit("set");
    reveal_strlit("thaw");
    reveal_strlit("sleep");
    assert("run"@.len() == 3 && "fail"@.len() == 4 && "write"@.len() == 5 && "write-fails"@.len()
        == 11 && "expect"@.len() == 6 && "flush"@.len() == 5 && "crash"@.len() == 5 && "set"@.len()
        == 3 && "thaw"@.len() == 4 && "sleep"@.len() == 5);
    assert("write"@[0] == 'w' && "flush"@[0] == 'f' && "crash"@[0] == 'c' && "sleep"@[0] == 's'
        && "thaw"@[0] == 't' && "fail"@[0] == 'f' && "run"@[0] == 'r' && "set"@[0] == 's');
}

/// A `write` line says where to write, how much, and which pattern; `fsync`
/// among its words asks for one, and `write-fails` expects an error. Without
/// one of the three, or with a size that is none, it is refused.
pub proof fn a_write_line_says_where_and_what(line: Seq<char>)
    requires
        content(line).len() > 0,
        verb_of(content(line)) == "write"@ || verb_of(content(line)) == "write-fails"@,
        crate::scenario::line_fits(line),
    ensures
        ({
            let tokens = words(rest_of(content(line)));
            let args = args_of(tokens);
            let off = get(args, "off"@);
            let len = get(args, "len"@);
            let name = get(args, "pattern"@);
            &&& parsed(line) is Ok <==> {
                &&& off is Some && size_value(off->0) is Ok
                &&& len is Some && size_value(len->0) is Ok
                &&& name is Some
            }
            &&& parsed(line) matches Ok(step) ==> (step matches Some(
                StepView::Write { off: o, len: n, pattern, fsync, expect_error },
            ) && {
                &&& size_value(off->0) == Ok::<nat, NumberError>(o as nat)
                &&& size_value(len->0) == Ok::<nat, NumberError>(n as nat)
                &&& pattern == name->0
                &&& fsync <==> tokens.contains("fsync"@)
                &&& expect_error <==> verb_of(content(line)) == "write-fails"@
            })
        }),
{
    lemma_verbs_differ();
}

/// An `expect` line says where to look, how much, and for which pattern.
pub proof fn an_expect_line_says_where_and_what(line: Seq<char>)
    requires
        content(line).len() > 0,
        verb_of(content(line)) == "expect"@,
        crate::scenario::line_fits(line),
    ensures
        ({
            let args = args_of(words(rest_of(content(line))));
            let off = get(args, "off"@);
            let len = get(args, "len"@);
            let name = get(args, "pattern"@);
            &&& parsed(line) is Ok <==> {
                &&& off is Some && size_value(off->0) is Ok
                &&& len is Some && size_value(len->0) is Ok
                &&& name is Some
            }
            &&& parsed(line) matches Ok(step) ==> (step matches Some(
                StepView::Expect { off: o, len: n, pattern },
            ) && {
                &&& size_value(off->0) == Ok::<nat, NumberError>(o as nat)
                &&& size_value(len->0) == Ok::<nat, NumberError>(n as nat)
                &&& pattern == name->0
            })
        }),
{
    lemma_verbs_differ();
}

/// The other lines: a flush, a crash of some mode, a thaw with some result, a
/// pause in milliseconds, and a command that is to succeed or to fail.
pub proof fn other_lines_say_what_to_do(line: Seq<char>)
    requires
        content(line).len() > 0,
    ensures
        ({
            let verb = verb_of(content(line));
            let rest = rest_of(content(line));
            let args = args_of(words(rest));
            &&& verb == "flush"@ ==> parsed(line) == Ok::<Option<StepView>, LineError<Seq<char>>>(
                Some(StepView::Flush),
            )
            &&& verb == "crash"@ && get(args, "mode"@) is Some ==> parsed(line) == Ok::<
                Option<StepView>,
                LineError<Seq<char>>,
            >(Some(StepView::Crash { mode: get(args, "mode"@)->0 }))
            &&& verb == "crash"@ && get(args, "mode"@) is None ==> parsed(line) is Err
            &&& verb == "thaw"@ && get(args, "result"@) is Some ==> parsed(line) == Ok::<
                Option<StepView>,
                LineError<Seq<char>>,
            >(Some(StepView::Thaw { result: get(args, "result"@)->0 }))
            &&& verb == "thaw"@ && get(args, "result"@) is None ==> parsed(line) is Err
            &&& verb == "sleep"@ ==> match get(args, "ms"@) {
                Some(text) => match number(text) {
                    Ok(ms) => parsed(line) == Ok::<Option<StepView>, LineError<Seq<char>>>(
                        Some(StepView::Sleep { ms: ms as u64 }),
                    ),
                    Err(_) => parsed(line) is Err,
                },
                None => parsed(line) is Err,
            }
            &&& verb == "run"@ || verb == "fail"@ ==> if rest.len() == 0 {
                parsed(line) is Err
            } else {
                parsed(line) == Ok::<Option<StepView>, LineError<Seq<char>>>(
                    Some(StepView::Run { cmd: rest, expect_ok: verb == "run"@ }),
                )
            }
        }),
{
    lemma_verbs_differ();
}

/// No other verb means anything.
pub proof fn unknown_verbs_are_refused(line: Seq<char>)
    requires
        content(line).len() > 0,
        ({
            let verb = verb_of(content(line));
            &&& verb != "run"@ && verb != "fail"@ && verb != "write"@ && verb != "write-fails"@
            &&& verb != "expect"@ && verb != "flush"@ && verb != "crash"@ && verb != "set"@
            &&& verb != "thaw"@ && verb != "sleep"@
        }),
    ensures
        parsed(line) == Err::<Option<StepView>, LineError<Seq<char>>>(
            LineError::UnknownVerb { verb: verb_of(content(line)) },
        ),
{
}

/// A line that is refused says what is wrong with it.
pub proof fn wrong_lines_say_why(e: LineError<Seq<char>>)
    ensures
        e matches LineError::MissingArg { verb, key } ==> line_complaint(e) == verb
            + ": missing "@ + key + "="@,
        e matches LineError::MissingCommand { verb } ==> line_complaint(e) == verb
            + ": missing command"@,
        e matches LineError::UnknownVerb { verb } ==> line_complaint(e) == "unknown verb '"@ + verb
            + "'"@,
        e matches LineError::BadValue { key, value, why } ==> line_complaint(e) == "set: "@ + key
            + "="@ + value + ": "@ + why.words(),
        e matches LineError::BadSize { text, why } ==> line_complaint(e) == "bad size '"@ + text
            + "': "@ + why.words(),
{
}

/// A scenario goes from line to line: it runs the first step that it has not
/// run, says so with its line, and passes only when no line is left that holds
/// a step or is wrong.
pub proof fn a_scenario_runs_every_step(
    script: ScriptView,
    after: ScriptView,
    progress: Progress,
    k: int,
)
    requires
        script.wf(),
        script.goes_on(after, progress),
        script.at <= k < script.lines.len(),
    ensures
        after.name == script.name && after.lines == script.lines,
        script.at <= after.at <= script.lines.len(),
        progress is Passed ==> parsed(script.lines[k]) == Ok::<
            Option<StepView>,
            LineError<Seq<char>>,
        >(None) && after.steps == script.steps,
        progress matches Progress::Run { step, lno } ==> {
            &&& after.at == lno
            &&& after.steps == script.steps + 1
            &&& k == lno - 1 ==> parsed(script.lines[k]) == Ok::<
                Option<StepView>,
                LineError<Seq<char>>,
            >(Some(step@))
            &&& k < lno - 1 ==> parsed(script.lines[k]) == Ok::<
                Option<StepView>,
                LineError<Seq<char>>,
            >(None)
        },
        progress is Wrong ==> {
            &&& k == after.at - 1 ==> parsed(script.lines[k]) is Err
            &&& k < after.at - 1 ==> parsed(script.lines[k]) == Ok::<
                Option<StepView>,
                LineError<Seq<char>>,
            >(None)
            &&& after.steps == script.steps
        },
{
}

/// A write puts its pattern where it says: each byte is that of the pattern at
/// its place on the device. One that is not aligned writes nothing.
pub proof fn a_write_writes_its_pattern(
    off: u64,
    len: u64,
    name: Seq<char>,
    fsync: bool,
    expect_error: bool,
    verdict: Verdict,
    i: int,
)
    requires
        begins(StepView::Write { off, len, pattern: name, fsync, expect_error }, verdict),
        off + len <= u64::MAX,
        0 <= i < len,
    ensures
        off % 4096 == 0 ==> (verdict matches Verdict::Do {
            action: Action::WriteAll { off: at, data },
            ..
        } && at == off && data@.len() == len && data@[i] == pattern_byte(name, off + i)),
        off % 4096 != 0 ==> (verdict matches Verdict::Fail { error: StepError::Unaligned }),
{
    if off % 4096 == 0 {
        assert((off + i) / 4096 == off as int / 4096 + i / 4096);
        assert((off + i) % 4096 == i % 4096);
    }
}

/// What a write put on the device is what an expectation of the same pattern
/// looks for, over the same range or any part of it.
pub proof fn what_was_written_is_expected(
    device: Seq<u8>,
    off: u64,
    len: u64,
    name: Seq<char>,
    data: Seq<u8>,
    from: u64,
    n: int,
)
    requires
        off % 4096 == 0,
        off + len <= u64::MAX,
        off + len <= device.len(),
        data == pattern_bytes(name, off, len as nat),
        device.subrange(off as int, off + len) == data,
        off <= from,
        0 <= n,
        from + n <= off + len,
    ensures
        holds_pattern(device, name, from, n),
{
    assert forall|x: int| from <= x < from + n implies (#[trigger] device[x]) == pattern_byte(
        name,
        x,
    ) by {
        let i = x - off;
        assert((off + i) / 4096 == off as int / 4096 + i / 4096);
        assert((off + i) % 4096 == i % 4096);
        assert(device.subrange(off as int, off + len)[i] == device[x]);
    }
}

/// A write step passes if it fails when it is expected to, and succeeds, with
/// its sync if it asks for one, when it is not.
pub proof fn a_write_must_end_as_expected(
    off: u64,
    len: u64,
    name: Seq<char>,
    fsync: bool,
    expect_error: bool,
    res: Result<(), String>,
    verdict: Verdict,
)
    requires
        resumes(
            StepView::Write { off, len, pattern: name, fsync, expect_error },
            0,
            Event::Wrote { res },
            verdict,
        ),
    ensures
        verdict is Fail <==> (res is Err) != expect_error,
        verdict is Done <==> expect_error && res is Err || !expect_error && res is Ok && !fsync,
        verdict is Do ==> (verdict matches Verdict::Do { action: Action::Sync, .. }),
{
}

/// A step whose request, sync or flush failed does not pass, and one whose
/// request went well does.
pub proof fn failed_requests_fail_the_step(step: StepView, res: Result<(), String>, verdict: Verdict)
    ensures
        resumes(step, 0, Event::Replied { res }, verdict) && (step is Crash || step is SetPolicy
            || step is Thaw) ==> (verdict is Done <==> res is Ok) && (verdict is Fail <==> res is
            Err),
        resumes(step, 0, Event::Synced { res }, verdict) && (step is Flush || step is Write) ==> (
        verdict is Done <==> res is Ok) && (verdict is Fail <==> res is Err),
{
}

/// A command passes if it exits as expected; one that could not be run never
/// does.
pub proof fn a_command_must_exit_as_expected(
    cmd: Seq<char>,
    expect_ok: bool,
    success: bool,
    code: Option<i32>,
    cause: String,
    verdict: Verdict,
)
    ensures
        resumes(
            StepView::Run { cmd, expect_ok },
            0,
            Event::Exited { success, code },
            verdict,
        ) ==> (verdict is Done <==> success == expect_ok) && (verdict is Fail <==> success
            != expect_ok),
        resumes(
            StepView::Run { cmd, expect_ok },
            0,
            Event::NotSpawned { cause },
            verdict,
        ) ==> verdict is Fail,
{
}

/// A read that failed fails an expectation.
pub proof fn a_failed_read_fails_the_step(
    off: u64,
    len: u64,
    name: Seq<char>,
    pos: usize,
    cause: String,
    verdict: Verdict,
)
    requires
        resumes(
            StepView::Expect { off, len, pattern: name },
            pos,
            Event::Read { data: Err(cause) },
            verdict,
        ),
    ensures
        verdict matches Verdict::Fail { error: StepError::Read { cause: c } } && c@ == cause@,
{
}

/// What a step that touches no data asks for is what its line said.
pub proof fn steps_ask_for_what_they_say(step: StepView, verdict: Verdict)
    requires
        begins(step, verdict),
    ensures
        step is Flush ==> (verdict matches Verdict::Do { action: Action::Sync, .. }),
        step matches StepView::Sleep { ms } ==> (verdict matches Verdict::Do {
            action: Action::Sleep { ms: m },
            ..
        } && m == ms),
        step matches StepView::Run { cmd, .. } ==> (verdict matches Verdict::Do {
            action: Action::Shell { cmd: c },
            ..
        } && c@ == cmd),
        step matches StepView::Crash { mode } ==> (verdict matches Verdict::Do {
            action: Action::Ctl { request: CtlRequest::Crash { mode: m } },
            ..
        } && m@ == mode),
        step matches StepView::Thaw { result } ==> (verdict matches Verdict::Do {
            action: Action::Ctl { request: CtlRequest::Thaw { result: r } },
            ..
        } && r@ == result),
        step matches StepView::SetPolicy { pairs } ==> (verdict matches Verdict::Do {
            action: Action::Ctl { request: CtlRequest::SetPolicy { pairs: p } },
            ..
        } && pair_views(p@) == pairs),
        step matches StepView::Expect { off, len, .. } ==> {
            &&& off % 4096 != 0 <==> verdict is Fail
            &&& off % 4096 == 0 && len == 0 ==> verdict is Done
            &&& off % 4096 == 0 && len > 0 ==> (verdict matches Verdict::Do {
                action: Action::ReadExact { off: at, len: n },
                pos,
            } && at == off && pos == 0 && 0 < n <= len && (n == len || n == 1024 * 1024))
        },
{
}

/// The words for a step that did not pass quote the cause, the pattern and the
/// byte, or how the command ended.
pub proof fn failed_steps_say_why(e: StepError)
    ensures
        e matches StepError::Mismatch { pattern, at } ==> step_complaint(e)
            == "content mismatch: expected pattern '"@ + pattern@
            + "', first differing byte at device offset "@ + decimal(at as nat),
        e matches StepError::Write { cause } ==> step_complaint(e) == "write: "@ + cause@,
        e matches StepError::Fsync { cause } ==> step_complaint(e) == "fsync: "@ + cause@,
        e matches StepError::Flush { cause } ==> step_complaint(e) == "flush: "@ + cause@,
        e matches StepError::Read { cause } ==> step_complaint(e) == "read: "@ + cause@,
        e matches StepError::Ctl { cause } ==> step_complaint(e) == cause@,
        e matches StepError::Spawn { cause } ==> step_complaint(e) == "spawn sh: "@ + cause@,
        e matches StepError::Exit { code, expect_ok } ==> step_complaint(e) == "command exited "@ + (
        if code is Some {
            signed_decimal(code->0 as int)
        } else {
            "by signal"@
        }) + " but was expected to "@ + (if expect_ok {
            "succeed"@
        } else {
            "fail"@
        }),
{
}

/// A `write` or `expect` line that is refused names the first thing that is
/// wrong with it: where, how much, which pattern.
pub proof fn refused_extents_name_the_fault(line: Seq<char>)
    requires
        content(line).len() > 0,
        verb_of(content(line)) == "write"@ || verb_of(content(line)) == "write-fails"@ || verb_of(
            content(line),
        ) == "expect"@,
    ensures
        ({
            let verb = verb_of(content(line));
            let args = args_of(words(rest_of(content(line))));
            let off = get(args, "off"@);
            let len = get(args, "len"@);
            let name = get(args, "pattern"@);
            &&& off is None ==> parsed(line) == Err::<Option<StepView>, LineError<Seq<char>>>(
                LineError::MissingArg { verb, key: "off"@ },
            )
            &&& off matches Some(text) ==> (size_value(text) matches Err(why) ==> parsed(line)
                == Err::<Option<StepView>, LineError<Seq<char>>>(LineError::BadSize { text, why }))
            &&& off is Some && size_value(off->0) is Ok ==> {
                &&& len is None ==> parsed(line) == Err::<Option<StepView>, LineError<Seq<char>>>(
                    LineError::MissingArg { verb, key: "len"@ },
                )
                &&& len matches Some(text) ==> (size_value(text) matches Err(why) ==> parsed(line)
                    == Err::<Option<StepView>, LineError<Seq<char>>>(
                    LineError::BadSize { text, why },
                ))
                &&& len is Some && size_value(len->0) is Ok && name is None ==> parsed(line)
                    == Err::<Option<StepView>, LineError<Seq<char>>>(
                    LineError::MissingArg { verb, key: "pattern"@ },
                )
            }
        }),
{
    lemma_verbs_differ();
}

/// The other lines that are refused name what they lack, or the number that is
/// none.
pub proof fn other_refusals_name_the_fault(line: Seq<char>)
    requires
        content(line).len() > 0,
    ensures
        ({
            let verb = verb_of(content(line));
            let rest = rest_of(content(line));
            let args = args_of(words(rest));
            &&& verb == "crash"@ && get(args, "mode"@) is None ==> parsed(line) == Err::<
                Option<StepView>,
                LineError<Seq<char>>,
            >(LineError::MissingArg { verb, key: "mode"@ })
            &&& verb == "thaw"@ && get(args, "result"@) is None ==> parsed(line) == Err::<
                Option<StepView>,
                LineError<Seq<char>>,
            >(LineError::MissingArg { verb, key: "result"@ })
            &&& verb == "sleep"@ && get(args, "ms"@) is None ==> parsed(line) == Err::<
                Option<StepView>,
                LineError<Seq<char>>,
            >(LineError::MissingArg { verb, key: "ms"@ })
            &&& verb == "sleep"@ ==> (get(args, "ms"@) matches Some(text) ==> (number(
                text,
            ) matches Err(why) ==> parsed(line) == Err::<Option<StepView>, LineError<Seq<char>>>(
                LineError::BadNumber { why },
            )))
            &&& (verb == "run"@ || verb == "fail"@) && rest.len() == 0 ==> parsed(line) == Err::<
                Option<StepView>,
                LineError<Seq<char>>,
            >(LineError::MissingCommand { verb })
            &&& verb == "set"@ && args.len() == 0 ==> parsed(line) == Err::<
                Option<StepView>,
                LineError<Seq<char>>,
            >(LineError::NoPairs)
        }),
{
    lemma_verbs_differ();
    let args = args_of(words(rest_of(content(line))));
    assert(args.len() == 0 ==> settings(args, args.len()) == Ok::<
        Seq<(Seq<char>, u64)>,
        LineError<Seq<char>>,
    >(Seq::empty()));
}

/// A scenario that passes says how many steps it ran; one that holds a wrong
/// line says which line that is, counted from one, and what is wrong with it.
pub proof fn a_scenario_says_how_it_ended(
    script: ScriptView,
    after: ScriptView,
    progress: Progress,
)
    requires
        script.wf(),
        script.goes_on(after, progress),
    ensures
        progress matches Progress::Passed { report } ==> {
            &&& report@ == "SCENARIO "@ + script.name + ": "@ + decimal(script.steps as nat)
                + " steps ok"@
            &&& after.at == script.lines.len()
        },
        progress matches Progress::Wrong { report } ==> {
            &&& script.at < after.at <= script.lines.len()
            &&& parsed(script.lines[after.at - 1]) matches Err(e) && report@ == script.name + ":"@
                + decimal(after.at as nat) + ": "@ + line_complaint(e)
        },
{
}

} // verus!
