//! The scenario language: a scenario file is a list of steps executed against
//! a block device plus the fault-device control socket. The same file runs
//! against a fault device directly (does the model honor the contract?) and
//! against a system stacked on top of one (does it forward the contract?).
//!
//! Format: one step per line, `#` comments and blank lines ignored.
//!
//!   write       off=0 len=1M pattern=base [fsync]
//!   write-fails off=0 len=4K pattern=x        # the write must error
//!   expect      off=0 len=1M pattern=base     # pattern "zero" = all zeros
//!   flush                                     # fsync the device fd
//!   crash       mode=drop|seeded              # fault ctl: power loss
//!   set         error_pm=1000 flush_lie_pm=0  # fault ctl: policy
//!   thaw        result=ok|eio                 # fault ctl: release hangs
//!   sleep       ms=500
//!   run         <shell command>               # must exit 0
//!   fail        <shell command>               # must exit non-zero

use vstd::prelude::*;

use crate::number::{
    exact_size, fits_size, number, parse_number, size_fits, size_value, NumberError,
};
use crate::text::{
    before, char_index, find_char, find_space, less, same, space_index, split_words, text_less,
    trim, trimmed, views, words,
};

verus! {

/// One step of a scenario.
#[derive(Debug, PartialEq)]
pub enum Step {
    Write { off: u64, len: u64, pattern: String, fsync: bool, expect_error: bool },
    Expect { off: u64, len: u64, pattern: String },
    Flush,
    Crash { mode: String },
    SetPolicy { pairs: Vec<(String, u64)> },
    Thaw { result: String },
    Sleep { ms: u64 },
    Run { cmd: String, expect_ok: bool },
}

/// What is wrong with a line; `T` is the type of its texts.
#[derive(Debug, PartialEq)]
pub enum LineError<T> {
    MissingCommand { verb: T },
    MissingArg { verb: T, key: T },
    BadSize { text: T, why: NumberError },
    BadValue { key: T, value: T, why: NumberError },
    NoPairs,
    BadNumber { why: NumberError },
    UnknownVerb { verb: T },
}

/// What a step means.
pub enum StepView {
    Write { off: u64, len: u64, pattern: Seq<char>, fsync: bool, expect_error: bool },
    Expect { off: u64, len: u64, pattern: Seq<char> },
    Flush,
    Crash { mode: Seq<char> },
    SetPolicy { pairs: Seq<(Seq<char>, u64)> },
    Thaw { result: Seq<char> },
    Sleep { ms: u64 },
    Run { cmd: Seq<char>, expect_ok: bool },
}

/// The views of the pairs of a `set` step.
pub open spec fn pair_views(pairs: Seq<(String, u64)>) -> Seq<(Seq<char>, u64)> {
    pairs.map_values(|p: (String, u64)| (p.0@, p.1))
}

impl View for Step {
    type V = StepView;

    open spec fn view(&self) -> StepView {
        match *self {
            Step::Write { off, len, pattern, fsync, expect_error } => StepView::Write {
                off,
                len,
                pattern: pattern@,
                fsync,
                expect_error,
            },
            Step::Expect { off, len, pattern } => StepView::Expect { off, len, pattern: pattern@ },
            Step::Flush => StepView::Flush,
            Step::Crash { mode } => StepView::Crash { mode: mode@ },
            Step::SetPolicy { pairs } => StepView::SetPolicy { pairs: pair_views(pairs@) },
            Step::Thaw { result } => StepView::Thaw { result: result@ },
            Step::Sleep { ms } => StepView::Sleep { ms },
            Step::Run { cmd, expect_ok } => StepView::Run { cmd: cmd@, expect_ok },
        }
    }
}

impl View for LineError<String> {
    type V = LineError<Seq<char>>;

    open spec fn view(&self) -> LineError<Seq<char>> {
        match *self {
            LineError::MissingCommand { verb } => LineError::MissingCommand { verb: verb@ },
            LineError::MissingArg { verb, key } => LineError::MissingArg { verb: verb@, key: key@ },
            LineError::BadSize { text, why } => LineError::BadSize { text: text@, why },
            LineError::BadValue { key, value, why } => LineError::BadValue {
                key: key@,
                value: value@,
                why,
            },
            LineError::NoPairs => LineError::NoPairs,
            LineError::BadNumber { why } => LineError::BadNumber { why },
            LineError::UnknownVerb { verb } => LineError::UnknownVerb { verb: verb@ },
        }
    }
}

/// Arguments of a step: keys in string order, each with its value.
pub type Args = Seq<(Seq<char>, Seq<char>)>;

/// `args` with `key` set to `value`.
pub open spec fn put(args: Args, key: Seq<char>, value: Seq<char>) -> Args
    decreases args.len(),
{
    if args.len() == 0 {
        seq![(key, value)]
    } else if args[0].0 == key {
        seq![(key, value)] + args.skip(1)
    } else if text_less(key, args[0].0) {
        seq![(key, value)] + args
    } else {
        seq![args[0]] + put(args.skip(1), key, value)
    }
}

/// The value of `key`.
pub open spec fn get(args: Args, key: Seq<char>) -> Option<Seq<char>>
    decreases args.len(),
{
    if args.len() == 0 {
        None
    } else if args[0].0 == key {
        Some(args[0].1)
    } else {
        get(args.skip(1), key)
    }
}

/// The arguments among `tokens`, those with a `=`; the last of a key counts.
pub open spec fn args_of(tokens: Seq<Seq<char>>) -> Args
    decreases tokens.len(),
{
    if tokens.len() == 0 {
        Seq::empty()
    } else {
        let before = args_of(tokens.drop_last());
        let token = tokens.last();
        let at = char_index(token, '=') as int;
        if at < token.len() {
            put(before, token.take(at), token.skip(at + 1))
        } else {
            before
        }
    }
}

/// A line without its comment and the white space around.
pub open spec fn content(line: Seq<char>) -> Seq<char> {
    trimmed(line.take(char_index(line, '#') as int))
}

/// The first word of a line's content.
pub open spec fn verb_of(text: Seq<char>) -> Seq<char> {
    text.take(space_index(text) as int)
}

/// What follows the first word.
pub open spec fn rest_of(text: Seq<char>) -> Seq<char> {
    let at = space_index(text) as int;
    if at < text.len() {
        trimmed(text.skip(at + 1))
    } else {
        Seq::empty()
    }
}

pub open spec fn need(args: Args, verb: Seq<char>, key: Seq<char>) -> Result<
    Seq<char>,
    LineError<Seq<char>>,
> {
    match get(args, key) {
        Some(value) => Ok(value),
        None => Err(LineError::MissingArg { verb, key }),
    }
}

/// The size that an argument stands for.
pub open spec fn need_size(args: Args, verb: Seq<char>, key: Seq<char>) -> Result<
    u64,
    LineError<Seq<char>>,
> {
    match need(args, verb, key) {
        Err(e) => Err(e),
        Ok(text) => match size_value(text) {
            Ok(v) => Ok(v as u64),
            Err(why) => Err(LineError::BadSize { text, why }),
        },
    }
}

/// Where a `write` or `expect` goes, how long it is, and its pattern.
pub open spec fn extent(args: Args, verb: Seq<char>) -> Result<
    (u64, u64, Seq<char>),
    LineError<Seq<char>>,
> {
    match need_size(args, verb, "off"@) {
        Err(e) => Err(e),
        Ok(off) => match need_size(args, verb, "len"@) {
            Err(e) => Err(e),
            Ok(len) => match need(args, verb, "pattern"@) {
                Err(e) => Err(e),
                Ok(pattern) => Ok((off, len, pattern)),
            },
        },
    }
}

/// The first `n` arguments of a `set` step with their values as numbers.
pub open spec fn settings(args: Args, n: nat) -> Result<
    Seq<(Seq<char>, u64)>,
    LineError<Seq<char>>,
>
    decreases n,
{
    if n == 0 {
        Ok(Seq::empty())
    } else {
        match settings(args, (n - 1) as nat) {
            Err(e) => Err(e),
            Ok(pairs) => {
                let (key, value) = args[n - 1];
                match number(value) {
                    Ok(v) => Ok(pairs.push((key, v as u64))),
                    Err(why) => Err(LineError::BadValue { key, value, why }),
                }
            },
        }
    }
}

/// The step with the given verb and rest of the line.
pub open spec fn step_of(verb: Seq<char>, rest: Seq<char>) -> Result<
    StepView,
    LineError<Seq<char>>,
> {
    let tokens = words(rest);
    let args = args_of(tokens);
    if verb == "run"@ || verb == "fail"@ {
        if rest.len() == 0 {
            Err(LineError::MissingCommand { verb })
        } else {
            Ok(StepView::Run { cmd: rest, expect_ok: verb == "run"@ })
        }
    } else if verb == "write"@ || verb == "write-fails"@ {
        match extent(args, verb) {
            Err(e) => Err(e),
            Ok((off, len, pattern)) => Ok(
                StepView::Write {
                    off,
                    len,
                    pattern,
                    fsync: tokens.contains("fsync"@),
                    expect_error: verb == "write-fails"@,
                },
            ),
        }
    } else if verb == "expect"@ {
        match extent(args, verb) {
            Err(e) => Err(e),
            Ok((off, len, pattern)) => Ok(StepView::Expect { off, len, pattern }),
        }
    } else if verb == "flush"@ {
        Ok(StepView::Flush)
    } else if verb == "crash"@ {
        match need(args, verb, "mode"@) {
            Err(e) => Err(e),
            Ok(mode) => Ok(StepView::Crash { mode }),
        }
    } else if verb == "set"@ {
        match settings(args, args.len()) {
            Err(e) => Err(e),
            Ok(pairs) => if pairs.len() == 0 {
                Err(LineError::NoPairs)
            } else {
                Ok(StepView::SetPolicy { pairs })
            },
        }
    } else if verb == "thaw"@ {
        match need(args, verb, "result"@) {
            Err(e) => Err(e),
            Ok(result) => Ok(StepView::Thaw { result }),
        }
    } else if verb == "sleep"@ {
        match need(args, verb, "ms"@) {
            Err(e) => Err(e),
            Ok(text) => match number(text) {
                Ok(ms) => Ok(StepView::Sleep { ms: ms as u64 }),
                Err(why) => Err(LineError::BadNumber { why }),
            },
        }
    } else {
        Err(LineError::UnknownVerb { verb })
    }
}

/// The step on a line, if there is one.
pub open spec fn parsed(line: Seq<char>) -> Result<Option<StepView>, LineError<Seq<char>>> {
    let text = content(line);
    if text.len() == 0 {
        Ok(None)
    } else {
        match step_of(verb_of(text), rest_of(text)) {
            Ok(step) => Ok(Some(step)),
            Err(e) => Err(e),
        }
    }
}

/// An argument that is a size, if present, fits 64 bits.
pub open spec fn arg_fits(args: Args, key: Seq<char>) -> bool {
    get(args, key) matches Some(text) ==> size_fits(text)
}

/// The sizes that reading the line comes across fit 64 bits.
pub open spec fn line_fits(line: Seq<char>) -> bool {
    let text = content(line);
    let verb = verb_of(text);
    let args = args_of(words(rest_of(text)));
    (verb == "write"@ || verb == "write-fails"@ || verb == "expect"@) ==> {
        &&& arg_fits(args, "off"@)
        &&& need_size(args, verb, "off"@) is Ok ==> arg_fits(args, "len"@)
    }
}

/// The views of a list of arguments.
pub open spec fn arg_views(args: Seq<(String, String)>) -> Args {
    args.map_values(|a: (String, String)| (a.0@, a.1@))
}

/// Where `put` puts a key: after those that come before it.
proof fn lemma_put_at(args: Args, key: Seq<char>, value: Seq<char>, i: int)
    requires
        0 <= i <= args.len(),
        forall|j: int|
            0 <= j < i ==> (#[trigger] args[j]).0 != key && !text_less(key, args[j].0),
        i < args.len() ==> args[i].0 == key || text_less(key, args[i].0),
    ensures
        put(args, key, value) == if i < args.len() && args[i].0 == key {
            args.update(i, (key, value))
        } else {
            args.insert(i, (key, value))
        },
    decreases i,
{
    let result = put(args, key, value);
    if i == 0 {
        if args.len() > 0 && args[0].0 == key {
            assert(result =~= args.update(0, (key, value)));
        } else {
            assert(result =~= args.insert(0, (key, value)));
        }
    } else {
        let rest = args.skip(1);
        assert(args[0].0 != key && !text_less(key, args[0].0));
        assert forall|j: int| 0 <= j < i - 1 implies (#[trigger] rest[j]).0 != key && !text_less(
            key,
            rest[j].0,
        ) by {
            assert(rest[j] == args[j + 1]);
        }
        lemma_put_at(rest, key, value, i - 1);
        if i < args.len() && args[i].0 == key {
            assert(result =~= args.update(i, (key, value)));
        } else {
            assert(result =~= args.insert(i, (key, value)));
        }
    }
}

/// Set `key` to `value`.
fn put_arg(args: &mut Vec<(String, String)>, key: String, value: String)
    ensures
        arg_views(final(args)@) == put(arg_views(old(args)@), key@, value@),
{
    let ghost before = arg_views(args@);
    let n: usize = args.len();
    let mut i: usize = 0;
    while i < n && !same(&args[i].0, &key) && !less(&key, &args[i].0)
        invariant
            i <= n == args@.len(),
            before == arg_views(args@),
            forall|j: int|
                0 <= j < i ==> (#[trigger] before[j]).0 != key@ && !text_less(key@, before[j].0),
        decreases n - i,
    {
        proof {
            assert(before[i as int] == (args@[i as int].0@, args@[i as int].1@));
        }
        i = i + 1;
    }
    proof {
        if i < n {
            assert(before[i as int] == (args@[i as int].0@, args@[i as int].1@));
        }
        lemma_put_at(before, key@, value@, i as int);
    }
    let ghost pair = (key@, value@);
    if i < n && same(&args[i].0, &key) {
        args.set(i, (key, value));
        proof {
            assert(arg_views(args@) =~= before.update(i as int, pair));
        }
    } else {
        args.insert(i, (key, value));
        proof {
            assert(arg_views(args@) =~= before.insert(i as int, pair));
        }
    }
}

/// The value of `key`.
fn get_arg<'a>(args: &'a Vec<(String, String)>, key: &str) -> (value: Option<&'a str>)
    ensures
        match (value, get(arg_views(args@), key@)) {
            (Some(v), Some(w)) => v@ == w,
            (None, None) => true,
            _ => false,
        },
{
    let ghost all = arg_views(args@);
    let n: usize = args.len();
    let mut i: usize = 0;
    proof {
        assert(all.skip(0) =~= all);
    }
    while i < n
        invariant
            i <= n == args@.len(),
            all == arg_views(args@),
            get(all, key@) == get(all.skip(i as int), key@),
        decreases n - i,
    {
        proof {
            assert(all.skip(i as int)[0] == (args@[i as int].0@, args@[i as int].1@));
            assert(all.skip(i as int).skip(1) =~= all.skip(i + 1));
        }
        if same(&args[i].0, key) {
            return Some(args[i].1.as_str());
        }
        i = i + 1;
    }
    None
}

/// The arguments among `tokens`.
fn collect_args(tokens: &Vec<String>) -> (args: Vec<(String, String)>)
    ensures
        arg_views(args@) == args_of(views(tokens@)),
{
    let ghost all = views(tokens@);
    let n: usize = tokens.len();
    let mut args: Vec<(String, String)> = Vec::new();
    let mut i: usize = 0;
    proof {
        assert(all.take(0) =~= Seq::empty());
        assert(arg_views(args@) =~= Seq::empty());
    }
    while i < n
        invariant
            i <= n == tokens@.len(),
            all == views(tokens@),
            arg_views(args@) == args_of(all.take(i as int)),
        decreases n - i,
    {
        let token: &str = tokens[i].as_str();
        let at: usize = find_char(token, '=');
        let len: usize = token.unicode_len();
        proof {
            assert(all.take(i + 1).drop_last() =~= all.take(i as int));
            assert(all.take(i + 1).last() == token@);
            crate::text::lemma_char_index_bound(token@, '=');
            if at < len {
                assert(token@.subrange(0, at as int) =~= token@.take(at as int));
                assert(token@.subrange(at + 1, len as int) =~= token@.skip(at + 1));
            }
        }
        if at < len {
            let key: String = token.substring_char(0, at).to_owned();
            let value: String = token.substring_char(at + 1, len).to_owned();
            put_arg(&mut args, key, value);
        }
        i = i + 1;
    }
    proof {
        assert(all.take(n as int) =~= all);
    }
    args
}

/// Whether one of the tokens is `word`.
fn has_token(tokens: &Vec<String>, word: &str) -> (r: bool)
    ensures
        r == views(tokens@).contains(word@),
{
    let ghost all = views(tokens@);
    let n: usize = tokens.len();
    let mut i: usize = 0;
    while i < n
        invariant
            i <= n == tokens@.len(),
            all == views(tokens@),
            forall|j: int| 0 <= j < i ==> all[j] != word@,
        decreases n - i,
    {
        if same(&tokens[i], word) {
            proof {
                assert(all[i as int] == word@);
            }
            return true;
        }
        i = i + 1;
    }
    false
}

/// The value of a required argument.
fn need_arg(args: &Vec<(String, String)>, verb: &str, key: &str) -> (res: Result<
    String,
    LineError<String>,
>)
    ensures
        match (res, need(arg_views(args@), verb@, key@)) {
            (Ok(v), Ok(w)) => v@ == w,
            (Err(e), Err(w)) => e@ == w,
            _ => false,
        },
{
    match get_arg(args, key) {
        Some(value) => Ok(value.to_owned()),
        None => Err(LineError::MissingArg { verb: verb.to_owned(), key: key.to_owned() }),
    }
}

/// The number of bytes that a size stands for.
pub fn parse_size(s: &str) -> (res: Result<u64, LineError<String>>)
    requires
        size_fits(s@),
    ensures
        match (res, size_value(s@)) {
            (Ok(v), Ok(w)) => v == w,
            (Err(e), Err(why)) => e@ == (LineError::BadSize::<Seq<char>> { text: s@, why }),
            _ => false,
        },
{
    match exact_size(s) {
        Ok(v) => Ok(v),
        Err(why) => Err(LineError::BadSize { text: s.to_owned(), why }),
    }
}

/// The size that a required argument stands for.
fn need_size_arg(args: &Vec<(String, String)>, verb: &str, key: &str) -> (res: Result<
    u64,
    LineError<String>,
>)
    requires
        arg_fits(arg_views(args@), key@),
    ensures
        match (res, need_size(arg_views(args@), verb@, key@)) {
            (Ok(v), Ok(w)) => v == w,
            (Err(e), Err(w)) => e@ == w,
            _ => false,
        },
{
    match need_arg(args, verb, key) {
        Err(e) => Err(e),
        Ok(text) => parse_size(&text),
    }
}

/// Where a `write` or `expect` goes, how long it is, and its pattern.
fn parse_extent(args: &Vec<(String, String)>, verb: &str) -> (res: Result<
    (u64, u64, String),
    LineError<String>,
>)
    requires
        arg_fits(arg_views(args@), "off"@),
        need_size(arg_views(args@), verb@, "off"@) is Ok ==> arg_fits(arg_views(args@), "len"@),
    ensures
        match (res, extent(arg_views(args@), verb@)) {
            (Ok((off, len, pattern)), Ok((o, l, p))) => off == o && len == l && pattern@ == p,
            (Err(e), Err(w)) => e@ == w,
            _ => false,
        },
{
    let off: u64 = match need_size_arg(args, verb, "off") {
        Err(e) => return Err(e),
        Ok(off) => off,
    };
    let len: u64 = match need_size_arg(args, verb, "len") {
        Err(e) => return Err(e),
        Ok(len) => len,
    };
    match need_arg(args, verb, "pattern") {
        Err(e) => Err(e),
        Ok(pattern) => Ok((off, len, pattern)),
    }
}

proof fn lemma_settings_error_stays(args: Args, n: nat, m: nat)
    requires
        settings(args, n) is Err,
        n <= m,
    ensures
        settings(args, m) == settings(args, n),
    decreases m,
{
    if n < m {
        lemma_settings_error_stays(args, n, (m - 1) as nat);
    }
}

/// The arguments of a `set` step with their values as numbers.
fn parse_settings(args: &Vec<(String, String)>) -> (res: Result<
    Vec<(String, u64)>,
    LineError<String>,
>)
    ensures
        match (res, settings(arg_views(args@), args@.len())) {
            (Ok(v), Ok(w)) => pair_views(v@) == w,
            (Err(e), Err(w)) => e@ == w,
            _ => false,
        },
{
    let ghost all = arg_views(args@);
    let n: usize = args.len();
    let mut pairs: Vec<(String, u64)> = Vec::new();
    let mut i: usize = 0;
    proof {
        assert(pair_views(pairs@) =~= Seq::empty());
    }
    while i < n
        invariant
            i <= n == args@.len(),
            all == arg_views(args@),
            settings(all, i as nat) == Ok::<Seq<(Seq<char>, u64)>, LineError<Seq<char>>>(
                pair_views(pairs@),
            ),
        decreases n - i,
    {
        let ghost done = pair_views(pairs@);
        proof {
            assert(all[i as int] == (args@[i as int].0@, args@[i as int].1@));
        }
        match parse_number(&args[i].1) {
            Ok(v) => {
                pairs.push((args[i].0.clone(), v));
                proof {
                    assert(pair_views(pairs@) =~= done.push((all[i as int].0, v)));
                }
            },
            Err(why) => {
                proof {
                    lemma_settings_error_stays(all, (i + 1) as nat, n as nat);
                }
                return Err(
                    LineError::BadValue { key: args[i].0.clone(), value: args[i].1.clone(), why },
                );
            },
        }
        i = i + 1;
    }
    Ok(pairs)
}

/// A line without its comment and the white space around.
fn content_of<'a>(line: &'a str) -> (text: &'a str)
    ensures
        text@ == content(line@),
{
    trim(before(line, '#'))
}

/// The first word of a line's content, and what follows it.
fn split_verb<'a>(text: &'a str) -> (parts: (&'a str, &'a str))
    ensures
        parts.0@ == verb_of(text@),
        parts.1@ == rest_of(text@),
{
    let at: usize = find_space(text);
    let len: usize = text.unicode_len();
    proof {
        crate::text::lemma_space_index_bound(text@);
        assert(text@.subrange(0, at as int) =~= text@.take(at as int));
    }
    let verb: &str = text.substring_char(0, at);
    if at < len {
        proof {
            assert(text@.subrange(at + 1, len as int) =~= text@.skip(at + 1));
        }
        (verb, trim(text.substring_char(at + 1, len)))
    } else {
        proof {
            assert(text@.subrange(len as int, len as int) =~= Seq::empty());
        }
        (verb, text.substring_char(len, len))
    }
}

/// Whether the sizes that reading the line comes across fit 64 bits.
pub fn fits_line(line: &str) -> (r: bool)
    ensures
        r == line_fits(line@),
{
    let text: &str = content_of(line);
    let (verb, rest) = split_verb(text);
    if !(same(verb, "write") || same(verb, "write-fails") || same(verb, "expect")) {
        return true;
    }
    let tokens = split_words(rest);
    let args = collect_args(&tokens);
    let off_fits: bool = match get_arg(&args, "off") {
        Some(off) => fits_size(off),
        None => true,
    };
    if !off_fits {
        return false;
    }
    match need_size_arg(&args, verb, "off") {
        Err(_) => true,
        Ok(_) => match get_arg(&args, "len") {
            Some(len) => fits_size(len),
            None => true,
        },
    }
}

/// The step with the given verb and rest of the line.
fn parse_step(verb: &str, rest: &str) -> (res: Result<Step, LineError<String>>)
    requires
        (verb@ == "write"@ || verb@ == "write-fails"@ || verb@ == "expect"@) ==> {
            let args = args_of(words(rest@));
            &&& arg_fits(args, "off"@)
            &&& need_size(args, verb@, "off"@) is Ok ==> arg_fits(args, "len"@)
        },
    ensures
        match (res, step_of(verb@, rest@)) {
            (Ok(s), Ok(w)) => s@ == w,
            (Err(e), Err(w)) => e@ == w,
            _ => false,
        },
{
    // run/fail take the rest of the line as a shell command
    if same(verb, "run") || same(verb, "fail") {
        if rest.unicode_len() == 0 {
            return Err(LineError::MissingCommand { verb: verb.to_owned() });
        }
        return Ok(Step::Run { cmd: rest.to_owned(), expect_ok: same(verb, "run") });
    }
    let tokens = split_words(rest);
    let args = collect_args(&tokens);
    proof {
        assert(arg_views(args@).len() == args@.len());
    }
    if same(verb, "write") || same(verb, "write-fails") {
        match parse_extent(&args, verb) {
            Err(e) => Err(e),
            Ok((off, len, pattern)) => Ok(
                Step::Write {
                    off,
                    len,
                    pattern,
                    fsync: has_token(&tokens, "fsync"),
                    expect_error: same(verb, "write-fails"),
                },
            ),
        }
    } else if same(verb, "expect") {
        match parse_extent(&args, verb) {
            Err(e) => Err(e),
            Ok((off, len, pattern)) => Ok(Step::Expect { off, len, pattern }),
        }
    } else if same(verb, "flush") {
        Ok(Step::Flush)
    } else if same(verb, "crash") {
        match need_arg(&args, verb, "mode") {
            Err(e) => Err(e),
            Ok(mode) => Ok(Step::Crash { mode }),
        }
    } else if same(verb, "set") {
        match parse_settings(&args) {
            Err(e) => Err(e),
            Ok(pairs) => if pairs.len() == 0 {
                Err(LineError::NoPairs)
            } else {
                Ok(Step::SetPolicy { pairs })
            },
        }
    } else if same(verb, "thaw") {
        match need_arg(&args, verb, "result") {
            Err(e) => Err(e),
            Ok(result) => Ok(Step::Thaw { result }),
        }
    } else if same(verb, "sleep") {
        match need_arg(&args, verb, "ms") {
            Err(e) => Err(e),
            Ok(text) => match parse_number(&text) {
                Ok(ms) => Ok(Step::Sleep { ms }),
                Err(why) => Err(LineError::BadNumber { why }),
            },
        }
    } else {
        Err(LineError::UnknownVerb { verb: verb.to_owned() })
    }
}

/// The step on a line, if there is one.
pub fn parse_line(line: &str) -> (res: Result<Option<Step>, LineError<String>>)
    requires
        line_fits(line@),
    ensures
        match (res, parsed(line@)) {
            (Ok(Some(step)), Ok(Some(w))) => step@ == w,
            (Ok(None), Ok(None)) => true,
            (Err(e), Err(w)) => e@ == w,
            _ => false,
        },
{
    let text: &str = content_of(line);
    if text.unicode_len() == 0 {
        return Ok(None);
    }
    let (verb, rest) = split_verb(text);
    match parse_step(verb, rest) {
        Ok(step) => Ok(Some(step)),
        Err(e) => Err(e),
    }
}

/// The words for what is wrong with a line.
pub open spec fn line_complaint(e: LineError<Seq<char>>) -> Seq<char> {
    match e {
        LineError::MissingCommand { verb } => verb + ": missing command"@,
        LineError::MissingArg { verb, key } => verb + ": missing "@ + key + "="@,
        LineError::BadSize { text, why } => "bad size '"@ + text + "': "@ + why.words(),
        LineError::BadValue { key, value, why } => "set: "@ + key + "="@ + value + ": "@
            + why.words(),
        LineError::NoPairs => "set: no key=value pairs"@,
        LineError::BadNumber { why } => why.words(),
        LineError::UnknownVerb { verb } => "unknown verb '"@ + verb + "'"@,
    }
}

impl LineError<String> {
    pub fn message(&self) -> (t: String)
        ensures
            t@ == line_complaint(self@),
    {
        match self {
            LineError::MissingCommand { verb } => {
                let mut t: String = verb.clone();
                t.append(": missing command");
                t
            },
            LineError::MissingArg { verb, key } => {
                let mut t: String = verb.clone();
                t.append(": missing ");
                t.append(key);
                t.append("=");
                t
            },
            LineError::BadSize { text, why } => {
                let mut t: String = "bad size '".to_owned();
                t.append(text);
                t.append("': ");
                t.append(why.text());
                t
            },
            LineError::BadValue { key, value, why } => {
                let mut t: String = "set: ".to_owned();
                t.append(key);
                t.append("=");
                t.append(value);
                t.append(": ");
                t.append(why.text());
                t
            },
            LineError::NoPairs => "set: no key=value pairs".to_owned(),
            LineError::BadNumber { why } => why.text().to_owned(),
            LineError::UnknownVerb { verb } => {
                let mut t: String = "unknown verb '".to_owned();
                t.append(verb);
                t.append("'");
                t
            },
        }
    }
}

/// What follows a `#` does not count.
pub proof fn comments_are_ignored(line: Seq<char>, comment: Seq<char>)
    ensures
        parsed(line + seq!['#'] + comment) == parsed(line),
{
    let long = line + seq!['#'] + comment;
    crate::text::lemma_char_index_bound(line, '#');
    crate::text::lemma_char_index_bound(long, '#');
    let i = char_index(line, '#') as int;
    let j = char_index(long, '#') as int;
    assert(long[i] == '#');
    if j < i {
        assert(long[j] == line[j]);
    }
    assert(long.take(j) =~= line.take(i));
}

/// A line of white space holds no step.
pub proof fn blank_lines_are_ignored(line: Seq<char>)
    requires
        forall|i: int| 0 <= i < line.len() ==> crate::text::is_space(#[trigger] line[i]),
    ensures
        parsed(line) == Ok::<Option<StepView>, LineError<Seq<char>>>(None),
{
    let at = char_index(line, '#') as int;
    crate::text::lemma_char_index_bound(line, '#');
    lemma_all_space_trims(line.take(at));
}

proof fn lemma_all_space_trims(s: Seq<char>)
    requires
        forall|i: int| 0 <= i < s.len() ==> crate::text::is_space(#[trigger] s[i]),
    ensures
        trimmed(s).len() == 0,
    decreases s.len(),
{
    if s.len() > 0 {
        assert(crate::text::is_space(s[0]));
        assert forall|i: int| 0 <= i < s.skip(1).len() implies crate::text::is_space(
            #[trigger] s.skip(1)[i],
        ) by {
            assert(s.skip(1)[i] == s[i + 1]);
        }
        lemma_all_space_trims(s.skip(1));
    }
}

/// The last value given for a key counts; other keys keep theirs.
pub proof fn last_value_counts(args: Args, key: Seq<char>, value: Seq<char>, other: Seq<char>)
    ensures
        get(put(args, key, value), key) == Some(value),
        other != key ==> get(put(args, key, value), other) == get(args, other),
    decreases args.len(),
{
    let after = put(args, key, value);
    if args.len() == 0 {
        assert(after.skip(1) =~= Seq::empty());
        reveal_with_fuel(get, 2);
    } else if args[0].0 == key {
        assert(after.skip(1) =~= args.skip(1));
    } else if text_less(key, args[0].0) {
        assert(after.skip(1) =~= args);
    } else {
        last_value_counts(args.skip(1), key, value, other);
        assert(after.skip(1) =~= put(args.skip(1), key, value));
    }
}

proof fn lemma_text_less_total(a: Seq<char>, b: Seq<char>)
    ensures
        a != b ==> text_less(a, b) || text_less(b, a),
    decreases a.len(),
{
    if a.len() > 0 && b.len() > 0 && a[0] == b[0] {
        lemma_text_less_total(a.skip(1), b.skip(1));
        if a.skip(1) == b.skip(1) {
            assert forall|i: int| 0 <= i < a.len() implies a[i] == b[i] by {
                if i > 0 {
                    assert(a.skip(1)[i - 1] == b.skip(1)[i - 1]);
                }
            }
            assert(a.len() == a.skip(1).len() + 1 && b.len() == b.skip(1).len() + 1);
            assert(a =~= b);
        }
    } else if a.len() == 0 && b.len() == 0 {
        assert(a =~= b);
    }
}

proof fn lemma_text_less_transitive(a: Seq<char>, b: Seq<char>, c: Seq<char>)
    requires
        text_less(a, b),
        text_less(b, c),
    ensures
        text_less(a, c),
    decreases a.len(),
{
    if a.len() > 0 && a[0] == b[0] && b[0] == c[0] {
        lemma_text_less_transitive(a.skip(1), b.skip(1), c.skip(1));
    }
}

/// The keys are in string order, each once.
pub open spec fn in_order(args: Args) -> bool {
    forall|i: int, j: int|
        0 <= i < j < args.len() ==> text_less((#[trigger] args[i]).0, (#[trigger] args[j]).0)
}

/// Setting a key keeps the order.
proof fn lemma_put_keeps_order(args: Args, key: Seq<char>, value: Seq<char>)
    requires
        in_order(args),
    ensures
        in_order(put(args, key, value)),
        forall|i: int|
            0 <= i < put(args, key, value).len() ==> (#[trigger] put(args, key, value)[i]).0 == key
                || exists|k: int|
                0 <= k < args.len() && (#[trigger] args[k]).0 == put(args, key, value)[i].0,
    decreases args.len(),
{
    let after = put(args, key, value);
    if args.len() == 0 {
    } else if args[0].0 == key {
        assert forall|i: int, j: int| 0 <= i < j < after.len() implies text_less(
            (#[trigger] after[i]).0,
            (#[trigger] after[j]).0,
        ) by {
            assert(after[i].0 == args[i].0 && after[j].0 == args[j].0);
        }
        assert forall|i: int| 0 <= i < after.len() implies (#[trigger] after[i]).0 == key
            || exists|k: int| 0 <= k < args.len() && (#[trigger] args[k]).0 == after[i].0 by {
            assert(args[i].0 == after[i].0);
        }
    } else if text_less(key, args[0].0) {
        assert forall|i: int, j: int| 0 <= i < j < after.len() implies text_less(
            (#[trigger] after[i]).0,
            (#[trigger] after[j]).0,
        ) by {
            assert(after[j] == args[j - 1]);
            if i == 0 {
                if j > 1 {
                    assert(text_less(args[0].0, args[j - 1].0));
                    lemma_text_less_transitive(key, args[0].0, args[j - 1].0);
                }
            } else {
                assert(after[i] == args[i - 1]);
            }
        }
        assert forall|i: int| 0 <= i < after.len() implies (#[trigger] after[i]).0 == key
            || exists|k: int| 0 <= k < args.len() && (#[trigger] args[k]).0 == after[i].0 by {
            if i > 0 {
                assert(args[i - 1].0 == after[i].0);
            }
        }
    } else {
        let rest = args.skip(1);
        assert forall|i: int, j: int| 0 <= i < j < rest.len() implies text_less(
            (#[trigger] rest[i]).0,
            (#[trigger] rest[j]).0,
        ) by {
            assert(rest[i] == args[i + 1] && rest[j] == args[j + 1]);
        }
        lemma_put_keeps_order(rest, key, value);
        lemma_text_less_total(args[0].0, key);
        let tail = put(rest, key, value);
        assert forall|i: int, j: int| 0 <= i < j < after.len() implies text_less(
            (#[trigger] after[i]).0,
            (#[trigger] after[j]).0,
        ) by {
            assert(after[j] == tail[j - 1]);
            if i == 0 {
                if tail[j - 1].0 != key {
                    let k = choose|k: int|
                        0 <= k < rest.len() && (#[trigger] rest[k]).0 == tail[j - 1].0;
                    assert(rest[k] == args[k + 1]);
                    assert(text_less(args[0].0, args[k + 1].0));
                }
            } else {
                assert(after[i] == tail[i - 1]);
            }
        }
        assert forall|i: int| 0 <= i < after.len() implies (#[trigger] after[i]).0 == key
            || exists|k: int| 0 <= k < args.len() && (#[trigger] args[k]).0 == after[i].0 by {
            if i == 0 {
                assert(args[0].0 == after[0].0);
            } else {
                assert(after[i] == tail[i - 1]);
                if tail[i - 1].0 != key {
                    let k = choose|k: int|
                        0 <= k < rest.len() && (#[trigger] rest[k]).0 == tail[i - 1].0;
                    assert(args[k + 1] == rest[k]);
                }
            }
        }
    }
}

/// The arguments of a line come in string order of their keys, each once.
pub proof fn arguments_are_in_order(tokens: Seq<Seq<char>>)
    ensures
        in_order(args_of(tokens)),
    decreases tokens.len(),
{
    if tokens.len() > 0 {
        arguments_are_in_order(tokens.drop_last());
        let token = tokens.last();
        let at = char_index(token, '=') as int;
        lemma_put_keeps_order(args_of(tokens.drop_last()), token.take(at), token.skip(at + 1));
    }
}

/// A token with a `=` is an argument.
pub open spec fn is_arg(token: Seq<char>) -> bool {
    char_index(token, '=') < token.len()
}

/// The key of an argument.
pub open spec fn key_of(token: Seq<char>) -> Seq<char> {
    token.take(char_index(token, '=') as int)
}

/// The value of an argument.
pub open spec fn value_of(token: Seq<char>) -> Seq<char> {
    token.skip(char_index(token, '=') as int + 1)
}

/// The last token with a key gives its value; a key without a token has none.
pub proof fn last_token_counts(tokens: Seq<Seq<char>>, key: Seq<char>)
    ensures
        match get(args_of(tokens), key) {
            Some(value) => exists|i: int|
                {
                    &&& 0 <= i < tokens.len()
                    &&& is_arg(#[trigger] tokens[i])
                    &&& key_of(tokens[i]) == key
                    &&& value_of(tokens[i]) == value
                    &&& forall|j: int|
                        i < j < tokens.len() && is_arg(#[trigger] tokens[j]) ==> key_of(tokens[j])
                            != key
                },
            None => forall|i: int|
                0 <= i < tokens.len() && is_arg(#[trigger] tokens[i]) ==> key_of(tokens[i]) != key,
        },
    decreases tokens.len(),
{
    if tokens.len() > 0 {
        let front = tokens.drop_last();
        let token = tokens.last();
        let n = tokens.len() - 1;
        last_token_counts(front, key);
        assert(tokens[n] == token);
        assert forall|i: int| 0 <= i < n implies front[i] == #[trigger] tokens[i] by {}
        if is_arg(token) {
            last_value_counts(args_of(front), key_of(token), value_of(token), key);
        }
        if !(is_arg(token) && key_of(token) == key) {
            if let Some(value) = get(args_of(front), key) {
                let i = choose|i: int|
                    {
                        &&& 0 <= i < front.len()
                        &&& is_arg(#[trigger] front[i])
                        &&& key_of(front[i]) == key
                        &&& value_of(front[i]) == value
                        &&& forall|j: int|
                            i < j < front.len() && is_arg(#[trigger] front[j]) ==> key_of(front[j])
                                != key
                    };
                assert(is_arg(tokens[i]));
            }
        }
    }
}

/// No two arguments have the same key.
pub open spec fn distinct_keys(tokens: Seq<Seq<char>>) -> bool {
    forall|i: int, j: int|
        0 <= i < j < tokens.len() && is_arg(#[trigger] tokens[i]) && is_arg(#[trigger] tokens[j])
            ==> key_of(tokens[i]) != key_of(tokens[j])
}

/// The same tokens, in any order.
pub open spec fn same_tokens(a: Seq<Seq<char>>, b: Seq<Seq<char>>) -> bool {
    forall|t: Seq<char>| #[trigger] a.contains(t) <==> b.contains(t)
}

proof fn lemma_text_less_irreflexive(a: Seq<char>)
    ensures
        !text_less(a, a),
    decreases a.len(),
{
    if a.len() > 0 {
        lemma_text_less_irreflexive(a.skip(1));
    }
}

proof fn lemma_get_finds(args: Args, key: Seq<char>) -> (i: int)
    requires
        get(args, key) is Some,
    ensures
        0 <= i < args.len(),
        args[i].0 == key,
    decreases args.len(),
{
    if args[0].0 == key {
        0
    } else {
        let i = lemma_get_finds(args.skip(1), key);
        i + 1
    }
}

/// The head of an ordered list comes first among the keys that it holds.
proof fn lemma_head_is_least(args: Args, key: Seq<char>)
    requires
        in_order(args),
        get(args, key) is Some,
    ensures
        args.len() > 0,
        key == args[0].0 || text_less(args[0].0, key),
{
    let i = lemma_get_finds(args, key);
    if i > 0 {
        assert(text_less(args[0].0, args[i].0));
    }
}

/// Ordered arguments are determined by the values of their keys.
proof fn lemma_in_order_unique(a: Args, b: Args)
    requires
        in_order(a),
        in_order(b),
        forall|key: Seq<char>| #[trigger] get(a, key) == get(b, key),
    ensures
        a == b,
    decreases a.len(),
{
    if a.len() == 0 {
        if b.len() > 0 {
            assert(get(a, b[0].0) == get(b, b[0].0));
        }
        assert(a =~= b);
    } else {
        let ka = a[0].0;
        assert(get(a, ka) == get(b, ka));
        lemma_head_is_least(b, ka);
        let kb = b[0].0;
        assert(get(a, kb) == get(b, kb));
        lemma_head_is_least(a, kb);
        if ka != kb {
            lemma_text_less_transitive(ka, kb, ka);
            lemma_text_less_irreflexive(ka);
        }
        let ta = a.skip(1);
        let tb = b.skip(1);
        lemma_tail_in_order(a);
        lemma_tail_in_order(b);
        assert forall|key: Seq<char>| #[trigger] get(ta, key) == get(tb, key) by {
            assert(get(a, key) == get(b, key));
            if key == ka {
                lemma_head_not_in_tail(a);
                lemma_head_not_in_tail(b);
            }
        }
        lemma_in_order_unique(ta, tb);
        assert(a =~= seq![a[0]] + ta);
        assert(b =~= seq![b[0]] + tb);
    }
}

proof fn lemma_tail_in_order(args: Args)
    requires
        in_order(args),
        args.len() > 0,
    ensures
        in_order(args.skip(1)),
{
    let tail = args.skip(1);
    assert forall|i: int, j: int| 0 <= i < j < tail.len() implies text_less(
        (#[trigger] tail[i]).0,
        (#[trigger] tail[j]).0,
    ) by {
        assert(tail[i] == args[i + 1] && tail[j] == args[j + 1]);
    }
}

proof fn lemma_head_not_in_tail(args: Args)
    requires
        in_order(args),
        args.len() > 0,
    ensures
        get(args.skip(1), args[0].0) is None,
{
    if get(args.skip(1), args[0].0) is Some {
        let i = lemma_get_finds(args.skip(1), args[0].0);
        assert(args.skip(1)[i] == args[i + 1]);
        assert(text_less(args[0].0, args[i + 1].0));
        lemma_text_less_irreflexive(args[0].0);
    }
}

/// With distinct keys, a token gives its key its value wherever it stands.
proof fn lemma_token_gives_value(tokens: Seq<Seq<char>>, token: Seq<char>)
    requires
        distinct_keys(tokens),
        tokens.contains(token),
        is_arg(token),
    ensures
        get(args_of(tokens), key_of(token)) == Some(value_of(token)),
{
    let key = key_of(token);
    last_token_counts(tokens, key);
    let at = choose|at: int| 0 <= at < tokens.len() && tokens[at] == token;
    assert(is_arg(tokens[at]));
    let value = get(args_of(tokens), key)->0;
    let i = choose|i: int|
        {
            &&& 0 <= i < tokens.len()
            &&& is_arg(#[trigger] tokens[i])
            &&& key_of(tokens[i]) == key
            &&& value_of(tokens[i]) == value
        };
    if i < at {
        assert(key_of(tokens[i]) != key_of(tokens[at]));
    } else if at < i {
        assert(key_of(tokens[at]) != key_of(tokens[i]));
    }
}

/// Arguments with distinct keys may come in any order.
pub proof fn order_of_tokens_does_not_matter(a: Seq<Seq<char>>, b: Seq<Seq<char>>)
    requires
        same_tokens(a, b),
        distinct_keys(a),
        distinct_keys(b),
    ensures
        args_of(a) == args_of(b),
{
    arguments_are_in_order(a);
    arguments_are_in_order(b);
    assert forall|key: Seq<char>| #[trigger] get(args_of(a), key) == get(args_of(b), key) by {
        last_token_counts(a, key);
        last_token_counts(b, key);
        if get(args_of(a), key) is Some {
            let i = choose|i: int|
                0 <= i < a.len() && is_arg(#[trigger] a[i]) && key_of(a[i]) == key;
            assert(a.contains(a[i]));
            assert(b.contains(a[i]));
            lemma_token_gives_value(a, a[i]);
            lemma_token_gives_value(b, a[i]);
        } else if get(args_of(b), key) is Some {
            let i = choose|i: int|
                0 <= i < b.len() && is_arg(#[trigger] b[i]) && key_of(b[i]) == key;
            assert(b.contains(b[i]));
            assert(a.contains(b[i]));
            lemma_token_gives_value(a, b[i]);
        }
    }
    lemma_in_order_unique(args_of(a), args_of(b));
}

/// Two lines with the same verb, other than those that take a shell command,
/// and the same tokens of distinct keys, in any order, mean the same step.
pub proof fn order_on_a_line_does_not_matter(a: Seq<char>, b: Seq<char>)
    requires
        content(a).len() > 0,
        content(b).len() > 0,
        verb_of(content(a)) == verb_of(content(b)),
        verb_of(content(a)) != "run"@,
        verb_of(content(a)) != "fail"@,
        same_tokens(words(rest_of(content(a))), words(rest_of(content(b)))),
        distinct_keys(words(rest_of(content(a)))),
        distinct_keys(words(rest_of(content(b)))),
    ensures
        parsed(a) == parsed(b),
{
    let x = words(rest_of(content(a)));
    let y = words(rest_of(content(b)));
    order_of_tokens_does_not_matter(x, y);
    assert(x.contains("fsync"@) <==> y.contains("fsync"@));
}

/// A `set` line with at least one argument gives a pair for each key, in
/// ascending order, with the number that the key's last token holds; it is
/// refused exactly where one of these is no number.
pub proof fn set_lines_give_a_pair_per_key(line: Seq<char>)
    requires
        content(line).len() > 0,
        verb_of(content(line)) == "set"@,
        exists|i: int|
            0 <= i < words(rest_of(content(line))).len() && is_arg(
                #[trigger] words(rest_of(content(line)))[i],
            ),
    ensures
        ({
            let args = args_of(words(rest_of(content(line))));
            match parsed(line) {
                Ok(step) => {
                    &&& step matches Some(StepView::SetPolicy { pairs })
                    &&& forall|i: int, j: int|
                        0 <= i < j < pairs.len() ==> text_less(
                            (#[trigger] pairs[i]).0,
                            (#[trigger] pairs[j]).0,
                        )
                    &&& forall|i: int|
                        0 <= i < pairs.len() ==> (get(args, (#[trigger] pairs[i]).0) matches Some(
                            value,
                        ) && number(value) == Ok::<nat, NumberError>(pairs[i].1 as nat))
                    &&& forall|key: Seq<char>|
                        (#[trigger] get(args, key)) is Some ==> exists|i: int|
                            0 <= i < pairs.len() && (#[trigger] pairs[i]).0 == key
                },
                Err(_) => exists|key: Seq<char>|
                    (#[trigger] get(args, key)) matches Some(value) && number(value) is Err,
            }
        }),
{
    reveal_strlit("set");
    reveal_strlit("write");
    reveal_strlit("write-fails");
    reveal_strlit("expect");
    reveal_strlit("flush");
    reveal_strlit("crash");
    reveal_strlit("run");
    reveal_strlit("fail");
    assert("set"@[0] == 's' && "run"@[0] == 'r');
    let tokens = words(rest_of(content(line)));
    let args = args_of(tokens);
    assert(parsed(line) == match settings(args, args.len()) {
        Err(e) => Err(e),
        Ok(pairs) => if pairs.len() == 0 {
            Err(LineError::NoPairs)
        } else {
            Ok(Some(StepView::SetPolicy { pairs }))
        },
    });
    arguments_are_in_order(tokens);
    lemma_settings(args, args.len());
    assert forall|i: int| 0 <= i < args.len() implies get(args, (#[trigger] args[i]).0) == Some(
        args[i].1,
    ) by {
        lemma_get_at(args, i);
    }
    let t = choose|t: int| 0 <= t < tokens.len() && is_arg(#[trigger] tokens[t]);
    last_token_counts(tokens, key_of(tokens[t]));
    assert(get(args, key_of(tokens[t])) is Some);
    match settings(args, args.len()) {
        Ok(pairs) => {
            assert(parsed(line) == Ok::<Option<StepView>, LineError<Seq<char>>>(
                Some(StepView::SetPolicy { pairs }),
            ));
            assert forall|i: int, j: int| 0 <= i < j < pairs.len() implies text_less(
                (#[trigger] pairs[i]).0,
                (#[trigger] pairs[j]).0,
            ) by {
                assert(text_less(args[i].0, args[j].0));
            }
            assert forall|key: Seq<char>| (#[trigger] get(args, key)) is Some implies exists|i: int|
                0 <= i < pairs.len() && (#[trigger] pairs[i]).0 == key by {
                let i = lemma_get_finds(args, key);
                assert(pairs[i].0 == key);
            }
        },
        Err(_) => {
            let i = choose|i: int| 0 <= i < args.len() && number((#[trigger] args[i]).1) is Err;
            assert(get(args, args[i].0) == Some(args[i].1));
        },
    }
}

/// Each argument of an ordered list is found by its key.
proof fn lemma_get_at(args: Args, i: int)
    requires
        in_order(args),
        0 <= i < args.len(),
    ensures
        get(args, args[i].0) == Some(args[i].1),
    decreases i,
{
    if i > 0 {
        assert(text_less(args[0].0, args[i].0));
        if args[0].0 == args[i].0 {
            lemma_text_less_irreflexive(args[0].0);
        }
        lemma_tail_in_order(args);
        lemma_get_at(args.skip(1), i - 1);
        assert(args.skip(1)[i - 1] == args[i]);
    }
}

proof fn lemma_settings(args: Args, n: nat)
    requires
        n <= args.len(),
    ensures
        match settings(args, n) {
            Ok(pairs) => {
                &&& pairs.len() == n
                &&& forall|i: int|
                    0 <= i < n ==> (#[trigger] pairs[i]).0 == args[i].0 && number(args[i].1) == Ok::<
                        nat,
                        NumberError,
                    >(pairs[i].1 as nat)
            },
            Err(_) => exists|i: int| 0 <= i < n && number((#[trigger] args[i]).1) is Err,
        },
    decreases n,
{
    if n > 0 {
        lemma_settings(args, (n - 1) as nat);
        assert(args[n - 1] == args[n - 1]);
    }
}

/// A step stands for what its fields hold.
pub proof fn a_step_is_what_it_holds(step: Step, pairs: Seq<(String, u64)>, i: int)
    requires
        0 <= i < pairs.len(),
    ensures
        step matches Step::Write { off, len, pattern, fsync, expect_error } ==> step@
            == (StepView::Write { off, len, pattern: pattern@, fsync, expect_error }),
        step matches Step::Expect { off, len, pattern } ==> step@ == (StepView::Expect {
            off,
            len,
            pattern: pattern@,
        }),
        step is Flush <==> step@ is Flush,
        step matches Step::Crash { mode } ==> step@ == (StepView::Crash { mode: mode@ }),
        step matches Step::SetPolicy { pairs: p } ==> step@ == (StepView::SetPolicy {
            pairs: pair_views(p@),
        }),
        step matches Step::Thaw { result } ==> step@ == (StepView::Thaw { result: result@ }),
        step matches Step::Sleep { ms } ==> step@ == (StepView::Sleep { ms }),
        step matches Step::Run { cmd, expect_ok } ==> step@ == (StepView::Run {
            cmd: cmd@,
            expect_ok,
        }),
        pair_views(pairs).len() == pairs.len(),
        pair_views(pairs)[i] == (pairs[i].0@, pairs[i].1),
{
}

/// An error stands for what its fields hold.
pub proof fn an_error_is_what_it_holds(e: LineError<String>)
    ensures
        e matches LineError::MissingCommand { verb } ==> e@ == (LineError::MissingCommand {
            verb: verb@,
        }),
        e matches LineError::MissingArg { verb, key } ==> e@ == (LineError::MissingArg {
            verb: verb@,
            key: key@,
        }),
        e matches LineError::BadSize { text, why } ==> e@ == (LineError::BadSize {
            text: text@,
            why,
        }),
        e matches LineError::BadValue { key, value, why } ==> e@ == (LineError::BadValue {
            key: key@,
            value: value@,
            why,
        }),
        e matches LineError::BadNumber { why } ==> (e@ matches LineError::BadNumber { why: w } && w
            == why),
        e matches LineError::UnknownVerb { verb } ==> e@ == (LineError::UnknownVerb { verb: verb@ }),
        e is NoPairs ==> e@ is NoPairs,
{
}

/// A `set` line with a value that is no number names the first such pair, in
/// the order of the keys.
pub proof fn the_first_bad_value_is_named(line: Seq<char>, i: int, why: NumberError)
    requires
        content(line).len() > 0,
        verb_of(content(line)) == "set"@,
        0 <= i < args_of(words(rest_of(content(line)))).len(),
        number(args_of(words(rest_of(content(line))))[i].1) == Err::<nat, NumberError>(why),
        forall|j: int|
            0 <= j < i ==> number((#[trigger] args_of(words(rest_of(content(line))))[j]).1) is Ok,
    ensures
        parsed(line) == Err::<Option<StepView>, LineError<Seq<char>>>(
            LineError::BadValue {
                key: args_of(words(rest_of(content(line))))[i].0,
                value: args_of(words(rest_of(content(line))))[i].1,
                why,
            },
        ),
{
    let args = args_of(words(rest_of(content(line))));
    lemma_settings(args, i as nat);
    lemma_settings_error_stays(args, (i + 1) as nat, args.len());
    reveal_strlit("set");
    reveal_strlit("write");
    reveal_strlit("write-fails");
    reveal_strlit("expect");
    reveal_strlit("flush");
    reveal_strlit("crash");
    reveal_strlit("run");
    reveal_strlit("fail");
    assert("set"@[0] == 's' && "run"@[0] == 'r');
}

} // verus!
