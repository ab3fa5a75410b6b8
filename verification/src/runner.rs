//! Running a scenario. The decisions are here: what a step does first, and
//! what follows from the outcome of each action. The caller performs the
//! actions on the device, the control socket and the shell.

use vstd::prelude::*;

use crate::pattern::{block_byte, fill_pattern, pattern_byte};
use crate::scenario::{
    fits_line, line_complaint, line_fits, pair_views, parse_line, parsed, LineError, Step, StepView,
};
use crate::text::{
    decimal, lines, push_decimal, push_signed, signed_decimal, split_lines, trim, trimmed, views,
};

verus! {

/// An expectation is checked in pieces of this many bytes.
pub const PIECE: usize = 0x10_0000;

/// A request to the fault device.
#[derive(Debug)]
pub enum CtlRequest {
    Crash { mode: String },
    SetPolicy { pairs: Vec<(String, u64)> },
    Thaw { result: String },
}

/// What the caller is to do.
#[derive(Debug)]
pub enum Action {
    /// write all of `data` to the device at `off`
    WriteAll { off: u64, data: Vec<u8> },
    /// read exactly `len` bytes of the device at `off`
    ReadExact { off: u64, len: usize },
    /// fsync the device
    Sync,
    /// send a request to the fault device; a reply that is not ok is an error
    Ctl { request: CtlRequest },
    Sleep { ms: u64 },
    /// run a shell command
    Shell { cmd: String },
}

/// What came of an action. A text says what went wrong.
#[derive(Debug)]
pub enum Event {
    Wrote { res: Result<(), String> },
    Synced { res: Result<(), String> },
    Read { data: Result<Vec<u8>, String> },
    Replied { res: Result<(), String> },
    Slept,
    /// `code` is absent when a signal ended the command
    Exited { success: bool, code: Option<i32> },
    NotSpawned { cause: String },
}

/// Why a step failed.
#[derive(Debug)]
pub enum StepError {
    Unaligned,
    Write { cause: String },
    WriteSucceeded,
    Fsync { cause: String },
    Flush { cause: String },
    Read { cause: String },
    Mismatch { pattern: String, at: u64 },
    Ctl { cause: String },
    Spawn { cause: String },
    Exit { code: Option<i32>, expect_ok: bool },
}

/// What follows: an action with the progress to remember, or the end.
#[derive(Debug)]
pub enum Verdict {
    Do { action: Action, pos: usize },
    Done,
    Fail { error: StepError },
}

/// The content of a pattern for `len` bytes at the 4K-aligned `off`.
pub open spec fn pattern_bytes(name: Seq<char>, off: u64, len: nat) -> Seq<u8> {
    Seq::new(len, |i: int| block_byte(name, (off as int / 4096 + i / 4096) as u64, i % 4096))
}

/// Byte X of the device holds the same value for a given pattern name, no
/// matter how the writes and reads are split.
pub proof fn splits_do_not_matter(name: Seq<char>, off: u64, a: nat, b: nat)
    requires
        off % 4096 == 0,
        a % 4096 == 0,
        off + a + b <= u64::MAX,
    ensures
        pattern_bytes(name, off, a + b) == pattern_bytes(name, off, a) + pattern_bytes(
            name,
            (off + a) as u64,
            b,
        ),
{
    let whole = pattern_bytes(name, off, a + b);
    let parts = pattern_bytes(name, off, a) + pattern_bytes(name, (off + a) as u64, b);
    assert forall|i: int| 0 <= i < a + b implies whole[i] == parts[i] by {
        if i >= a {
            let at = (off + a) as u64;
            assert(at as int / 4096 + (i - a) / 4096 == off as int / 4096 + i / 4096);
            assert((i - a) % 4096 == i % 4096);
        }
    }
    assert(whole =~= parts);
}

/// A step within the limits of the machine; one that is not aligned asks for
/// nothing.
pub open spec fn step_fits(step: StepView) -> bool {
    match step {
        StepView::Write { off, len, .. } => off % 4096 == 0 ==> len + 4096 <= usize::MAX,
        StepView::Expect { off, len, .. } => off % 4096 == 0 ==> off + len <= u64::MAX && len
            <= usize::MAX,
        _ => true,
    }
}

/// How much of an expectation is read at once.
pub open spec fn piece_len(len: u64, pos: int) -> int {
    if len - pos < PIECE {
        len - pos
    } else {
        PIECE as int
    }
}

/// The read of the next piece of an expectation.
pub open spec fn next_read(off: u64, len: u64, pos: int, verdict: Verdict) -> bool {
    if pos < len {
        verdict matches Verdict::Do { action: Action::ReadExact { off: at, len: n }, pos: p } && at
            == off + pos && p == pos && n == piece_len(len, pos)
    } else {
        verdict is Done
    }
}

/// How a step begins.
pub open spec fn begins(step: StepView, verdict: Verdict) -> bool {
    match step {
        StepView::Write { off, len, pattern, .. } => if off % 4096 != 0 {
            verdict matches Verdict::Fail { error: StepError::Unaligned }
        } else {
            verdict matches Verdict::Do { action: Action::WriteAll { off: at, data }, pos } && at
                == off && data@ == pattern_bytes(pattern, off, len as nat) && pos == 0
        },
        StepView::Expect { off, len, .. } => if off % 4096 != 0 {
            verdict matches Verdict::Fail { error: StepError::Unaligned }
        } else {
            next_read(off, len, 0, verdict)
        },
        StepView::Flush => verdict matches Verdict::Do { action: Action::Sync, pos: 0 },
        StepView::Crash { mode } => verdict matches Verdict::Do {
            action: Action::Ctl { request: CtlRequest::Crash { mode: m } },
            pos: 0,
        } && m@ == mode,
        StepView::SetPolicy { pairs } => verdict matches Verdict::Do {
            action: Action::Ctl { request: CtlRequest::SetPolicy { pairs: p } },
            pos: 0,
        } && pair_views(p@) == pairs,
        StepView::Thaw { result } => verdict matches Verdict::Do {
            action: Action::Ctl { request: CtlRequest::Thaw { result: r } },
            pos: 0,
        } && r@ == result,
        StepView::Sleep { ms } => verdict matches Verdict::Do {
            action: Action::Sleep { ms: m },
            pos: 0,
        } && m == ms,
        StepView::Run { cmd, .. } => verdict matches Verdict::Do {
            action: Action::Shell { cmd: c },
            pos: 0,
        } && c@ == cmd,
    }
}

/// The event is one that the step can come to.
pub open spec fn can_come(step: StepView, pos: usize, event: Event) -> bool {
    match step {
        StepView::Write { .. } => event is Wrote || event is Synced,
        StepView::Expect { off, len, .. } => off % 4096 == 0 && (event matches Event::Read {
            data: res,
        } && (res matches Ok(data) ==> pos < len && data@.len() == piece_len(len, pos as int))),
        StepView::Flush => event is Synced,
        StepView::Crash { .. } => event is Replied,
        StepView::SetPolicy { .. } => event is Replied,
        StepView::Thaw { .. } => event is Replied,
        StepView::Sleep { .. } => event is Slept,
        StepView::Run { .. } => event is Exited || event is NotSpawned,
    }
}

/// The first index at which `got` is not `want`.
pub open spec fn first_difference(got: Seq<u8>, want: Seq<u8>, at: int) -> bool {
    &&& 0 <= at < got.len()
    &&& got[at] != want[at]
    &&& forall|i: int| 0 <= i < at ==> got[i] == want[i]
}

/// What follows from an event.
pub open spec fn resumes(step: StepView, pos: usize, event: Event, verdict: Verdict) -> bool {
    match (step, event) {
        (StepView::Write { fsync, expect_error, .. }, Event::Wrote { res }) => match res {
            Ok(_) => if expect_error {
                verdict matches Verdict::Fail { error: StepError::WriteSucceeded }
            } else if fsync {
                verdict matches Verdict::Do { action: Action::Sync, pos: 0 }
            } else {
                verdict is Done
            },
            Err(e) => if expect_error {
                verdict is Done
            } else {
                verdict matches Verdict::Fail { error: StepError::Write { cause } } && cause@ == e@
            },
        },
        (StepView::Write { .. }, Event::Synced { res }) => match res {
            Ok(_) => verdict is Done,
            Err(e) => verdict matches Verdict::Fail { error: StepError::Fsync { cause } } && cause@
                == e@,
        },
        (StepView::Expect { off, len, pattern }, Event::Read { data: res }) => match res {
            Err(e) => verdict matches Verdict::Fail { error: StepError::Read { cause } } && cause@
                == e@,
            Ok(data) => {
                let want = pattern_bytes(pattern, (off + pos) as u64, data@.len());
                if data@ == want {
                    next_read(off, len, pos + data@.len(), verdict)
                } else {
                    verdict matches Verdict::Fail {
                        error: StepError::Mismatch { pattern: name, at },
                    } && name@ == pattern && first_difference(data@, want, at - off - pos)
                }
            },
        },
        (StepView::Flush, Event::Synced { res }) => match res {
            Ok(_) => verdict is Done,
            Err(e) => verdict matches Verdict::Fail { error: StepError::Flush { cause } } && cause@
                == e@,
        },
        (_, Event::Replied { res }) => match res {
            Ok(_) => verdict is Done,
            Err(e) => verdict matches Verdict::Fail { error: StepError::Ctl { cause } } && cause@
                == e@,
        },
        (StepView::Sleep { .. }, Event::Slept) => verdict is Done,
        (StepView::Run { expect_ok, .. }, Event::Exited { success, code }) => if success
            == expect_ok {
            verdict is Done
        } else {
            verdict matches Verdict::Fail { error: StepError::Exit { code: c, expect_ok: e } } && c
                == code && e == expect_ok
        },
        (StepView::Run { .. }, Event::NotSpawned { cause }) => verdict matches Verdict::Fail {
            error: StepError::Spawn { cause: c },
        } && c@ == cause@,
        _ => false,
    }
}

/// The bytes of a pattern.
fn make_pattern(name: &str, off: u64, len: usize) -> (data: Vec<u8>)
    ensures
        data@ == pattern_bytes(name@, off, len as nat),
{
    let mut data: Vec<u8> = vec![0u8; len];
    fill_pattern(name, off, data.as_mut_slice());
    proof {
        assert(data@ =~= pattern_bytes(name@, off, len as nat));
    }
    data
}

/// The read of the next piece of an expectation.
fn read_next(off: u64, len: u64, pos: usize) -> (verdict: Verdict)
    requires
        off + len <= u64::MAX,
        len <= usize::MAX,
        pos <= len,
    ensures
        next_read(off, len, pos as int, verdict),
{
    let total: usize = len as usize;
    if pos < total {
        let left: usize = total - pos;
        let n: usize = if left < PIECE {
            left
        } else {
            PIECE
        };
        Verdict::Do { action: Action::ReadExact { off: off + pos as u64, len: n }, pos }
    } else {
        Verdict::Done
    }
}

/// A copy of the pairs of a `set` step.
fn copy_pairs(pairs: &Vec<(String, u64)>) -> (copy: Vec<(String, u64)>)
    ensures
        pair_views(copy@) == pair_views(pairs@),
{
    let mut copy: Vec<(String, u64)> = Vec::new();
    let n: usize = pairs.len();
    let mut i: usize = 0;
    while i < n
        invariant
            i <= n == pairs@.len(),
            copy@.len() == i,
            forall|k: int|
                0 <= k < i ==> (#[trigger] copy@[k]).0@ == pairs@[k].0@ && copy@[k].1
                    == pairs@[k].1,
        decreases n - i,
    {
        copy.push((pairs[i].0.clone(), pairs[i].1));
        i = i + 1;
    }
    proof {
        assert(pair_views(copy@) =~= pair_views(pairs@));
    }
    copy
}

/// How a step begins.
pub fn begin(step: &Step) -> (verdict: Verdict)
    requires
        step_fits(step@),
    ensures
        begins(step@, verdict),
{
    match step {
        Step::Write { off, len, pattern, fsync: _, expect_error: _ } => {
            if *off % 4096 != 0 {
                return Verdict::Fail { error: StepError::Unaligned };
            }
            let data: Vec<u8> = make_pattern(pattern, *off, *len as usize);
            Verdict::Do { action: Action::WriteAll { off: *off, data }, pos: 0 }
        },
        Step::Expect { off, len, pattern: _ } => {
            if *off % 4096 != 0 {
                return Verdict::Fail { error: StepError::Unaligned };
            }
            read_next(*off, *len, 0)
        },
        Step::Flush => Verdict::Do { action: Action::Sync, pos: 0 },
        Step::Crash { mode } => Verdict::Do {
            action: Action::Ctl { request: CtlRequest::Crash { mode: mode.clone() } },
            pos: 0,
        },
        Step::SetPolicy { pairs } => Verdict::Do {
            action: Action::Ctl { request: CtlRequest::SetPolicy { pairs: copy_pairs(pairs) } },
            pos: 0,
        },
        Step::Thaw { result } => Verdict::Do {
            action: Action::Ctl { request: CtlRequest::Thaw { result: result.clone() } },
            pos: 0,
        },
        Step::Sleep { ms } => Verdict::Do { action: Action::Sleep { ms: *ms }, pos: 0 },
        Step::Run { cmd, expect_ok: _ } => Verdict::Do {
            action: Action::Shell { cmd: cmd.clone() },
            pos: 0,
        },
    }
}

/// The first index at which two buffers differ.
pub fn find_difference(got: &[u8], want: &[u8]) -> (at: Option<usize>)
    requires
        got@.len() == want@.len(),
    ensures
        match at {
            Some(i) => first_difference(got@, want@, i as int),
            None => got@ == want@,
        },
{
    let n: usize = got.len();
    let mut i: usize = 0;
    while i < n
        invariant
            i <= n == got@.len() == want@.len(),
            forall|k: int| 0 <= k < i ==> got@[k] == want@[k],
        decreases n - i,
    {
        if got[i] != want[i] {
            return Some(i);
        }
        i = i + 1;
    }
    proof {
        assert(got@ =~= want@);
    }
    None
}

/// What follows from the outcome of an action that a step asked for.
pub fn resume(step: &Step, pos: usize, event: Event) -> (verdict: Verdict)
    requires
        step_fits(step@),
        can_come(step@, pos, event),
    ensures
        resumes(step@, pos, event, verdict),
{
    match (step, event) {
        (
            Step::Write { off: _, len: _, pattern: _, fsync, expect_error },
            Event::Wrote { res },
        ) => match res {
            Ok(_) => if *expect_error {
                Verdict::Fail { error: StepError::WriteSucceeded }
            } else if *fsync {
                Verdict::Do { action: Action::Sync, pos: 0 }
            } else {
                Verdict::Done
            },
            Err(cause) => if *expect_error {
                Verdict::Done
            } else {
                Verdict::Fail { error: StepError::Write { cause } }
            },
        },
        (
            Step::Write { off: _, len: _, pattern: _, fsync: _, expect_error: _ },
            Event::Synced { res },
        ) => match res {
            Ok(_) => Verdict::Done,
            Err(cause) => Verdict::Fail { error: StepError::Fsync { cause } },
        },
        (Step::Expect { off, len, pattern }, Event::Read { data: res }) => match res {
            Err(cause) => Verdict::Fail { error: StepError::Read { cause } },
            Ok(data) => {
                let n: usize = data.len();
                let want: Vec<u8> = make_pattern(pattern, *off + pos as u64, n);
                match find_difference(&data, &want) {
                    Some(i) => {
                        proof {
                            assert(data@[i as int] != want@[i as int]);
                        }
                        Verdict::Fail {
                            error: StepError::Mismatch {
                                pattern: pattern.clone(),
                                at: *off + (pos + i) as u64,
                            },
                        }
                    },
                    None => read_next(*off, *len, pos + n),
                }
            },
        },
        (Step::Flush, Event::Synced { res }) => match res {
            Ok(_) => Verdict::Done,
            Err(cause) => Verdict::Fail { error: StepError::Flush { cause } },
        },
        (_, Event::Replied { res }) => match res {
            Ok(_) => Verdict::Done,
            Err(cause) => Verdict::Fail { error: StepError::Ctl { cause } },
        },
        (Step::Run { cmd: _, expect_ok }, Event::Exited { success, code }) => if success
            == *expect_ok {
            Verdict::Done
        } else {
            Verdict::Fail { error: StepError::Exit { code, expect_ok: *expect_ok } }
        },
        (Step::Run { cmd: _, expect_ok: _ }, Event::NotSpawned { cause }) => Verdict::Fail {
            error: StepError::Spawn { cause },
        },
        _ => Verdict::Done,
    }
}

/// Up to `n` bytes from `off` the device holds the pattern.
pub open spec fn holds_pattern(device: Seq<u8>, name: Seq<char>, off: u64, n: int) -> bool {
    forall|x: int| off <= x < off + n ==> (#[trigger] device[x]) == pattern_byte(name, x)
}

/// An expectation passes exactly when the device holds the pattern, and a
/// mismatch names the first byte that differs. Let everything before `pos` be
/// right and `data` be what the device holds there: the step ends only when
/// everything is right, goes on only with everything right so far and at the
/// start of the next piece, and fails only at the first wrong byte.
pub proof fn expectation_is_exact(
    device: Seq<u8>,
    off: u64,
    len: u64,
    name: Seq<char>,
    pos: usize,
    data: Vec<u8>,
    verdict: Verdict,
)
    requires
        off % 4096 == 0,
        pos % PIECE == 0,
        off + len <= device.len() <= u64::MAX,
        pos < len,
        data@.len() == piece_len(len, pos as int),
        holds_pattern(device, name, off, pos as int),
        data@ == device.subrange(off + pos, off + pos + data@.len()),
        resumes(
            StepView::Expect { off, len, pattern: name },
            pos,
            Event::Read { data: Ok(data) },
            verdict,
        ),
    ensures
        verdict is Done ==> holds_pattern(device, name, off, len as int),
        verdict matches Verdict::Do { pos: p, .. } ==> {
            &&& p == pos + data@.len()
            &&& p % PIECE == 0
            &&& p < len
            &&& next_read(off, len, p as int, verdict)
            &&& holds_pattern(device, name, off, p as int)
        },
        verdict matches Verdict::Fail { error: StepError::Mismatch { at, .. } } ==> {
            &&& off <= at < off + len
            &&& device[at as int] != pattern_byte(name, at as int)
            &&& holds_pattern(device, name, off, at - off)
        },
{
    let start = (off + pos) as u64;
    let n = data@.len() as int;
    let want = pattern_bytes(name, start, data@.len());
    assert forall|i: int| 0 <= i < n implies #[trigger] want[i] == pattern_byte(
        name,
        off + pos + i,
    ) by {
        assert(start % 4096 == 0);
        assert((start + i) / 4096 == start as int / 4096 + i / 4096);
        assert((start + i) % 4096 == i % 4096);
    }
    if data@ == want {
        assert(holds_pattern(device, name, off, pos + n)) by {
            assert forall|x: int| off <= x < off + (pos + n) implies (#[trigger] device[x])
                == pattern_byte(name, x) by {
                if x >= start {
                    assert(data@[x - start] == device[x]);
                    assert(want[x - start] == pattern_byte(name, x));
                }
            }
        }
    } else {
        let at = verdict->error->Mismatch_at as int;
        let i = at - off - pos;
        assert(data@[i] == device[at]);
        assert(want[i] == pattern_byte(name, at));
        assert forall|x: int| off <= x < off + (at - off) implies (#[trigger] device[x])
            == pattern_byte(name, x) by {
            if x >= start {
                assert(data@[x - start] == want[x - start]);
                assert(data@[x - start] == device[x]);
                assert(want[x - start] == pattern_byte(name, x));
            }
        }
    }
}

/// A run of an expectation on a device: `reads` are what the device holds
/// where each verdict asks for it, and `verdicts` what follows from them.
pub open spec fn is_run(
    device: Seq<u8>,
    off: u64,
    len: u64,
    name: Seq<char>,
    reads: Seq<Vec<u8>>,
    verdicts: Seq<Verdict>,
) -> bool {
    let step = StepView::Expect { off, len, pattern: name };
    &&& verdicts.len() == reads.len() + 1
    &&& begins(step, verdicts[0])
    &&& forall|k: int|
        0 <= k < reads.len() ==> (#[trigger] verdicts[k] matches Verdict::Do {
            action: Action::ReadExact { off: at, len: n },
            pos,
        } && reads[k]@ == device.subrange(at as int, at + n) && resumes(
            step,
            pos,
            Event::Read { data: Ok(reads[k]) },
            verdicts[k + 1],
        ))
}

/// Where a run stands after `k` reads.
proof fn lemma_run(
    device: Seq<u8>,
    off: u64,
    len: u64,
    name: Seq<char>,
    reads: Seq<Vec<u8>>,
    verdicts: Seq<Verdict>,
    k: int,
)
    requires
        off % 4096 == 0,
        off + len <= device.len() <= u64::MAX,
        is_run(device, off, len, name, reads, verdicts),
        0 <= k <= reads.len(),
    ensures
        match verdicts[k] {
            Verdict::Done => holds_pattern(device, name, off, len as int),
            Verdict::Do { pos, .. } => {
                &&& pos % PIECE == 0
                &&& pos < len
                &&& next_read(off, len, pos as int, verdicts[k])
                &&& holds_pattern(device, name, off, pos as int)
            },
            Verdict::Fail { error } => error matches StepError::Mismatch { pattern, at } && {
                &&& pattern@ == name
                &&& off <= at < off + len
                &&& device[at as int] != pattern_byte(name, at as int)
                &&& holds_pattern(device, name, off, at - off)
            },
        },
    decreases k,
{
    if k > 0 {
        lemma_run(device, off, len, name, reads, verdicts, k - 1);
        let pos = verdicts[k - 1]->pos;
        let data = reads[k - 1];
        expectation_is_exact(device, off, len, name, pos, data, verdicts[k]);
    }
}

/// Read piece by piece to its end, an expectation passes exactly when the
/// device holds the pattern in the whole range; otherwise it names the first
/// byte that differs.
pub proof fn an_expectation_judges_the_whole_range(
    device: Seq<u8>,
    off: u64,
    len: u64,
    name: Seq<char>,
    reads: Seq<Vec<u8>>,
    verdicts: Seq<Verdict>,
)
    requires
        off % 4096 == 0,
        off + len <= device.len() <= u64::MAX,
        is_run(device, off, len, name, reads, verdicts),
        !(verdicts.last() is Do),
    ensures
        verdicts.last() is Done <==> holds_pattern(device, name, off, len as int),
        verdicts.last() matches Verdict::Fail { error } ==> (error matches StepError::Mismatch {
            pattern,
            at,
        } && {
            &&& pattern@ == name
            &&& off <= at < off + len
            &&& device[at as int] != pattern_byte(name, at as int)
            &&& holds_pattern(device, name, off, at - off)
        }),
{
    lemma_run(device, off, len, name, reads, verdicts, reads.len() as int);
}

/// The words for why a step failed.
pub open spec fn step_complaint(e: StepError) -> Seq<char> {
    match e {
        StepError::Unaligned => "off must be 4K-aligned for pattern anchoring"@,
        StepError::Write { cause } => "write: "@ + cause@,
        StepError::WriteSucceeded => "write succeeded but was expected to fail"@,
        StepError::Fsync { cause } => "fsync: "@ + cause@,
        StepError::Flush { cause } => "flush: "@ + cause@,
        StepError::Read { cause } => "read: "@ + cause@,
        StepError::Mismatch { pattern, at } => "content mismatch: expected pattern '"@ + pattern@
            + "', first differing byte at device offset "@ + decimal(at as nat),
        StepError::Ctl { cause } => cause@,
        StepError::Spawn { cause } => "spawn sh: "@ + cause@,
        StepError::Exit { code, expect_ok } => "command exited "@ + match code {
            Some(c) => signed_decimal(c as int),
            None => "by signal"@,
        } + " but was expected to "@ + if expect_ok {
            "succeed"@
        } else {
            "fail"@
        },
    }
}

impl StepError {
    pub fn message(&self) -> (t: String)
        ensures
            t@ == step_complaint(*self),
    {
        match self {
            StepError::Unaligned => "off must be 4K-aligned for pattern anchoring".to_owned(),
            StepError::Write { cause } => {
                let mut t: String = "write: ".to_owned();
                t.append(cause);
                t
            },
            StepError::WriteSucceeded => "write succeeded but was expected to fail".to_owned(),
            StepError::Fsync { cause } => {
                let mut t: String = "fsync: ".to_owned();
                t.append(cause);
                t
            },
            StepError::Flush { cause } => {
                let mut t: String = "flush: ".to_owned();
                t.append(cause);
                t
            },
            StepError::Read { cause } => {
                let mut t: String = "read: ".to_owned();
                t.append(cause);
                t
            },
            StepError::Mismatch { pattern, at } => {
                let mut t: String = "content mismatch: expected pattern '".to_owned();
                t.append(pattern);
                t.append("', first differing byte at device offset ");
                push_decimal(&mut t, *at);
                t
            },
            StepError::Ctl { cause } => cause.clone(),
            StepError::Spawn { cause } => {
                let mut t: String = "spawn sh: ".to_owned();
                t.append(cause);
                t
            },
            StepError::Exit { code, expect_ok } => {
                let mut t: String = "command exited ".to_owned();
                match code {
                    Some(c) => push_signed(&mut t, *c),
                    None => t.append("by signal"),
                }
                t.append(" but was expected to ");
                if *expect_ok {
                    t.append("succeed");
                } else {
                    t.append("fail");
                }
                t
            },
        }
    }
}

/// The step on line number `lno` of the scenario `name`, if there is one; the
/// error says where the scenario is wrong.
pub fn read_line(name: &str, lno: u64, line: &str) -> (res: Result<Option<Step>, String>)
    requires
        line_fits(line@),
    ensures
        match (res, parsed(line@)) {
            (Ok(Some(step)), Ok(Some(w))) => step@ == w,
            (Ok(None), Ok(None)) => true,
            (Err(t), Err(e)) => t@ == name@ + ":"@ + decimal(lno as nat) + ": "@ + line_complaint(
                e,
            ),
            _ => false,
        },
{
    match parse_line(line) {
        Ok(step) => Ok(step),
        Err(e) => {
            let mut t: String = name.to_owned();
            t.append(":");
            push_decimal(&mut t, lno);
            t.append(": ");
            let why: String = e.message();
            t.append(&why);
            Err(t)
        },
    }
}

/// The words for a step that failed on line number `lno`.
pub fn step_failed(name: &str, lno: u64, line: &str, error: &StepError) -> (t: String)
    ensures
        t@ == name@ + ":"@ + decimal(lno as nat) + " `"@ + trimmed(line@) + "`: "@
            + step_complaint(*error),
{
    let mut t: String = name.to_owned();
    t.append(":");
    push_decimal(&mut t, lno);
    t.append(" `");
    t.append(trim(line));
    t.append("`: ");
    let why: String = error.message();
    t.append(&why);
    t
}

/// The words for a scenario that passed.
pub fn passed(name: &str, steps: u64) -> (t: String)
    ensures
        t@ == "SCENARIO "@ + name@ + ": "@ + decimal(steps as nat) + " steps ok"@,
{
    let mut t: String = "SCENARIO ".to_owned();
    t.append(name);
    t.append(": ");
    push_decimal(&mut t, steps);
    t.append(" steps ok");
    t
}

/// A scenario file on its way: which line comes next, and how many steps were
/// begun.
pub struct Script {
    pub name: String,
    pub lines: Vec<String>,
    pub at: usize,
    pub steps: u64,
}

/// What a scenario is about.
#[verifier::ext_equal]
pub struct ScriptView {
    pub name: Seq<char>,
    pub lines: Seq<Seq<char>>,
    pub at: int,
    pub steps: u64,
}

impl View for Script {
    type V = ScriptView;

    open spec fn view(&self) -> ScriptView {
        ScriptView {
            name: self.name@,
            lines: views(self.lines@),
            at: self.at as int,
            steps: self.steps,
        }
    }
}

/// What comes next in a scenario.
#[derive(Debug)]
pub enum Progress {
    /// this step, which stands on line number `lno`
    Run { step: Step, lno: u64 },
    /// nothing: all steps went well
    Passed { report: String },
    /// a line is wrong
    Wrong { report: String },
}

impl ScriptView {
    pub open spec fn wf(self) -> bool {
        self.steps <= self.at <= self.lines.len()
    }

    /// The lines from the next one up to `to` hold no step.
    pub open spec fn idle_until(self, to: int) -> bool {
        forall|k: int|
            self.at <= k < to ==> parsed(#[trigger] self.lines[k]) == Ok::<
                Option<StepView>,
                LineError<Seq<char>>,
            >(None)
    }

    /// The sizes on the lines that are read next fit 64 bits.
    pub open spec fn next_fits(self) -> bool {
        forall|k: int|
            self.at <= k < self.lines.len() && self.idle_until(k) ==> line_fits(
                #[trigger] self.lines[k],
            )
    }

    /// What comes next, and what the scenario is then.
    pub open spec fn goes_on(self, after: ScriptView, progress: Progress) -> bool {
        match progress {
            Progress::Run { step, lno } => {
                &&& self.at < lno <= self.lines.len()
                &&& self.idle_until(lno - 1)
                &&& parsed(self.lines[lno - 1]) == Ok::<Option<StepView>, LineError<Seq<char>>>(
                    Some(step@),
                )
                &&& after == (ScriptView {
                    at: lno as int,
                    steps: (self.steps + 1) as u64,
                    ..self
                })
            },
            Progress::Passed { report } => {
                &&& self.idle_until(self.lines.len() as int)
                &&& report@ == "SCENARIO "@ + self.name + ": "@ + decimal(self.steps as nat)
                    + " steps ok"@
                &&& after == (ScriptView { at: self.lines.len() as int, ..self })
            },
            Progress::Wrong { report } => {
                &&& self.at < after.at <= self.lines.len()
                &&& self.idle_until(after.at - 1)
                &&& parsed(self.lines[after.at - 1]) matches Err(e) && report@ == self.name + ":"@
                    + decimal(after.at as nat) + ": "@ + line_complaint(e)
                &&& after == (ScriptView { at: after.at, ..self })
            },
        }
    }
}

impl Script {
    /// The scenario `name` with the given text, at its start.
    pub fn new(name: &str, text: &str) -> (script: Script)
        ensures
            script@ == (ScriptView { name: name@, lines: lines(text@), at: 0, steps: 0 }),
            script@.wf(),
    {
        Script { name: name.to_owned(), lines: split_lines(text), at: 0, steps: 0 }
    }

    /// Whether the sizes on the lines that are read next fit 64 bits.
    pub fn next_fits(&self) -> (r: bool)
        requires
            self@.wf(),
        ensures
            r == self@.next_fits(),
    {
        let n: usize = self.lines.len();
        let mut i: usize = self.at;
        while i < n
            invariant
                self.at <= i <= n == self.lines@.len(),
                self@.idle_until(i as int),
                forall|k: int| self.at <= k < i ==> line_fits(#[trigger] self@.lines[k]),
            decreases n - i,
        {
            assert(self@.lines[i as int] == self.lines@[i as int]@);
            if !fits_line(&self.lines[i]) {
                return false;
            }
            match parse_line(&self.lines[i]) {
                Ok(None) => {},
                _ => {
                    proof {
                        assert forall|k: int|
                            self.at <= k < n && self@.idle_until(k) implies line_fits(
                            #[trigger] self@.lines[k],
                        ) by {
                            if k > i {
                                assert(parsed(self@.lines[i as int]) is Err || parsed(
                                    self@.lines[i as int],
                                )->Ok_0 is Some);
                            }
                        }
                    }
                    return true;
                },
            }
            i = i + 1;
        }
        true
    }

    /// Go on to the next step. Lines without one are passed over; the first
    /// line that is wrong ends the scenario.
    pub fn advance(&mut self) -> (progress: Progress)
        requires
            old(self)@.wf(),
            old(self)@.next_fits(),
        ensures
            final(self)@.wf(),
            old(self)@.goes_on(final(self)@, progress),
    {
        let (at, found) = self.look_ahead();
        self.at = at;
        match found {
            Err(report) => Progress::Wrong { report },
            Ok(Some(step)) => {
                self.steps = self.steps + 1;
                Progress::Run { step, lno: at as u64 }
            },
            Ok(None) => Progress::Passed { report: passed(&self.name, self.steps) },
        }
    }

    /// The first line from here on that holds a step or is wrong, by how many
    /// lines are read with it, and what it holds; the end if there is none.
    fn look_ahead(&self) -> (ahead: (usize, Result<Option<Step>, String>))
        requires
            self@.wf(),
            self@.next_fits(),
        ensures
            self@.at <= ahead.0 <= self@.lines.len(),
            match ahead.1 {
                Ok(None) => ahead.0 == self@.lines.len() && self@.idle_until(ahead.0 as int),
                Ok(Some(step)) => {
                    &&& self@.at < ahead.0
                    &&& self@.idle_until(ahead.0 - 1)
                    &&& parsed(self@.lines[ahead.0 - 1]) == Ok::<
                        Option<StepView>,
                        LineError<Seq<char>>,
                    >(Some(step@))
                },
                Err(report) => {
                    &&& self@.at < ahead.0
                    &&& self@.idle_until(ahead.0 - 1)
                    &&& parsed(self@.lines[ahead.0 - 1]) matches Err(e)
                    &&& report@ == self@.name + ":"@ + decimal(ahead.0 as nat) + ": "@
                        + line_complaint(e)
                },
            },
    {
        let n: usize = self.lines.len();
        let mut i: usize = self.at;
        while i < n
            invariant
                self.at <= i <= n == self.lines@.len(),
                self@.next_fits(),
                self@.idle_until(i as int),
            decreases n - i,
        {
            assert(self@.lines[i as int] == self.lines@[i as int]@);
            match read_line(&self.name, i as u64 + 1, &self.lines[i]) {
                Ok(None) => {},
                found => {
                    return (i + 1, found);
                },
            }
            i = i + 1;
        }
        (n, Ok(None))
    }

    /// The words for the failure of the step that was begun last.
    pub fn failed(&self, error: &StepError) -> (report: String)
        requires
            self@.wf(),
            self@.at > 0,
        ensures
            report@ == self@.name + ":"@ + decimal(self@.at as nat) + " `"@ + trimmed(
                self@.lines[self@.at - 1],
            ) + "`: "@ + step_complaint(*error),
    {
        let i: usize = self.at - 1;
        step_failed(&self.name, self.at as u64, &self.lines[i], error)
    }
}

/// The first difference is a difference, and nothing before it is.
pub proof fn the_first_difference_is_first(got: Seq<u8>, want: Seq<u8>, at: int, other: int)
    requires
        got.len() == want.len(),
        first_difference(got, want, at),
        0 <= other < got.len(),
        got[other] != want[other],
    ensures
        0 <= at <= other,
        got[at] != want[at],
        got.take(at) == want.take(at),
        got != want,
{
    assert(got.take(at) =~= want.take(at));
}

/// A script stands for the lines of its file.
pub proof fn a_script_is_its_lines(s: Script)
    ensures
        s@.name == s.name@,
        s@.lines == views(s.lines@),
        s@.at == s.at,
        s@.steps == s.steps,
{
}

} // verus!
