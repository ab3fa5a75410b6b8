//! Text: white space, searching, and numbers as decimal digits.

use vstd::prelude::*;

verus! {

/// The characters with the Unicode property `White_Space`.
pub open spec fn is_space(c: char) -> bool {
    let u = c as u32;
    ||| 0x9 <= u <= 0xD
    ||| u == 0x20
    ||| u == 0x85
    ||| u == 0xA0
    ||| u == 0x1680
    ||| 0x2000 <= u <= 0x200A
    ||| u == 0x2028
    ||| u == 0x2029
    ||| u == 0x202F
    ||| u == 0x205F
    ||| u == 0x3000
}

/// Whether `c` is white space.
pub fn space(c: char) -> (r: bool)
    ensures
        r == is_space(c),
{
    let u: u32 = c as u32;
    (0x9 <= u && u <= 0xD) || u == 0x20 || u == 0x85 || u == 0xA0 || u == 0x1680 || (0x2000 <= u
        && u <= 0x200A) || u == 0x2028 || u == 0x2029 || u == 0x202F || u == 0x205F || u == 0x3000
}

/// `s` without the white space at its start.
pub open spec fn trim_start(s: Seq<char>) -> Seq<char>
    decreases s.len(),
{
    if s.len() > 0 && is_space(s[0]) {
        trim_start(s.skip(1))
    } else {
        s
    }
}

/// `s` without the white space at its end.
pub open spec fn trim_end(s: Seq<char>) -> Seq<char>
    decreases s.len(),
{
    if s.len() > 0 && is_space(s.last()) {
        trim_end(s.drop_last())
    } else {
        s
    }
}

/// `s` without the white space around it.
pub open spec fn trimmed(s: Seq<char>) -> Seq<char> {
    trim_end(trim_start(s))
}

/// The index of the first white space, or the length.
pub open spec fn space_index(s: Seq<char>) -> nat
    decreases s.len(),
{
    if s.len() == 0 || is_space(s[0]) {
        0
    } else {
        1 + space_index(s.skip(1))
    }
}

/// The index of the first `c`, or the length.
pub open spec fn char_index(s: Seq<char>, c: char) -> nat
    decreases s.len(),
{
    if s.len() == 0 || s[0] == c {
        0
    } else {
        1 + char_index(s.skip(1), c)
    }
}

/// The words of `s`: the longest runs without white space.
pub open spec fn words(s: Seq<char>) -> Seq<Seq<char>>
    decreases s.len(),
{
    if s.len() == 0 {
        Seq::empty()
    } else if is_space(s[0]) {
        words(s.skip(1))
    } else {
        let n = space_index(s);
        proof {
            lemma_space_index_bound(s);
        }
        seq![s.take(n as int)] + words(s.skip(n as int))
    }
}

/// `a` comes before `b` in the order of strings.
pub open spec fn text_less(a: Seq<char>, b: Seq<char>) -> bool
    decreases a.len(),
{
    if b.len() == 0 {
        false
    } else if a.len() == 0 {
        true
    } else if a[0] == b[0] {
        text_less(a.skip(1), b.skip(1))
    } else {
        a[0] < b[0]
    }
}

/// The decimal digit for `d`.
pub open spec fn digit_char(d: nat) -> char {
    (48 + d) as char
}

/// `n` in decimal.
pub open spec fn decimal(n: nat) -> Seq<char>
    decreases n,
{
    if n < 10 {
        seq![digit_char(n)]
    } else {
        decimal(n / 10).push(digit_char(n % 10))
    }
}

/// The hexadecimal digit for `d`.
pub open spec fn hex_char(d: nat) -> char {
    if d < 10 {
        (48 + d) as char
    } else {
        (87 + d) as char
    }
}

/// The `width` low hexadecimal digits of `n`.
pub open spec fn hex_digits(n: nat, width: nat) -> Seq<char>
    decreases width,
{
    if width == 0 {
        Seq::empty()
    } else {
        hex_digits(n / 16, (width - 1) as nat).push(hex_char(n % 16))
    }
}

pub proof fn lemma_space_index_bound(s: Seq<char>)
    ensures
        space_index(s) <= s.len(),
        forall|i: int| 0 <= i < space_index(s) ==> !is_space(#[trigger] s[i]),
        space_index(s) < s.len() ==> is_space(s[space_index(s) as int]),
    decreases s.len(),
{
    if s.len() > 0 && !is_space(s[0]) {
        let rest = s.skip(1);
        lemma_space_index_bound(rest);
        assert forall|i: int| 0 <= i < space_index(s) implies !is_space(#[trigger] s[i]) by {
            if i > 0 {
                assert(rest[i - 1] == s[i]);
            }
        }
    }
}

pub proof fn lemma_char_index_bound(s: Seq<char>, c: char)
    ensures
        char_index(s, c) <= s.len(),
        forall|i: int| 0 <= i < char_index(s, c) ==> (#[trigger] s[i]) != c,
        char_index(s, c) < s.len() ==> s[char_index(s, c) as int] == c,
    decreases s.len(),
{
    if s.len() > 0 && s[0] != c {
        let rest = s.skip(1);
        lemma_char_index_bound(rest, c);
        assert forall|i: int| 0 <= i < char_index(s, c) implies (#[trigger] s[i]) != c by {
            if i > 0 {
                assert(rest[i - 1] == s[i]);
            }
        }
    }
}

/// The characters of `s`.
pub fn chars_of(s: &str) -> (chars: Vec<char>)
    ensures
        chars@ == s@,
{
    let n: usize = s.unicode_len();
    let mut chars: Vec<char> = Vec::new();
    let mut i: usize = 0;
    while i < n
        invariant
            i <= n == s@.len(),
            chars@ == s@.take(i as int),
        decreases n - i,
    {
        chars.push(s.get_char(i));
        proof {
            assert(s@.take(i + 1) =~= s@.take(i as int).push(s@[i as int]));
        }
        i = i + 1;
    }
    proof {
        assert(s@.take(n as int) =~= s@);
    }
    chars
}

/// Whether two texts are the same.
pub fn same(a: &str, b: &str) -> (r: bool)
    ensures
        r == (a@ == b@),
{
    let x: String = a.to_owned();
    let y: String = b.to_owned();
    x == y
}

proof fn lemma_trim_start_skips(s: Seq<char>, i: int)
    requires
        0 <= i <= s.len(),
        forall|k: int| 0 <= k < i ==> is_space(#[trigger] s[k]),
    ensures
        trim_start(s) == trim_start(s.skip(i)),
    decreases i,
{
    if i > 0 {
        assert(is_space(s[0]));
        let rest = s.skip(1);
        assert forall|k: int| 0 <= k < i - 1 implies is_space(#[trigger] rest[k]) by {
            assert(rest[k] == s[k + 1]);
        }
        lemma_trim_start_skips(rest, i - 1);
        assert(rest.skip(i - 1) =~= s.skip(i));
    } else {
        assert(s.skip(0) =~= s);
    }
}

proof fn lemma_trim_end_drops(s: Seq<char>, n: int)
    requires
        0 <= n <= s.len(),
        forall|k: int| n <= k < s.len() ==> is_space(#[trigger] s[k]),
    ensures
        trim_end(s) == trim_end(s.take(n)),
    decreases s.len() - n,
{
    if n < s.len() {
        assert(is_space(s.last()));
        lemma_trim_end_drops(s.drop_last(), n);
        assert(s.drop_last().take(n) =~= s.take(n));
    } else {
        assert(s.take(n) =~= s);
    }
}

/// `s` without the white space around it.
pub fn trim<'a>(s: &'a str) -> (r: &'a str)
    ensures
        r@ == trimmed(s@),
{
    let chars = chars_of(s);
    let n: usize = chars.len();
    let mut from: usize = 0;
    while from < n && space(chars[from])
        invariant
            from <= n == chars@.len(),
            forall|k: int| 0 <= k < from ==> is_space(#[trigger] chars@[k]),
        decreases n - from,
    {
        from = from + 1;
    }
    let mut to: usize = n;
    while to > from && space(chars[to - 1])
        invariant
            from <= to <= n == chars@.len(),
            forall|k: int| to <= k < n ==> is_space(#[trigger] chars@[k]),
        decreases to,
    {
        to = to - 1;
    }
    proof {
        lemma_trim_start_skips(chars@, from as int);
        let mid = chars@.skip(from as int);
        assert(trim_start(chars@) == mid);
        assert forall|k: int| to - from <= k < mid.len() implies is_space(#[trigger] mid[k]) by {
            assert(mid[k] == chars@[k + from]);
        }
        lemma_trim_end_drops(mid, to - from);
        assert(mid.take(to - from) =~= chars@.subrange(from as int, to as int));
        if to > from {
            assert(mid.take(to - from).last() == chars@[to - 1]);
        }
    }
    s.substring_char(from, to)
}

/// The text before the first `c`.
pub fn before<'a>(s: &'a str, c: char) -> (r: &'a str)
    ensures
        r@ == s@.take(char_index(s@, c) as int),
{
    let at: usize = find_char(s, c);
    proof {
        lemma_char_index_bound(s@, c);
        assert(s@.subrange(0, at as int) =~= s@.take(at as int));
    }
    s.substring_char(0, at)
}

/// The index of the first `c`, or the length.
pub fn find_char(s: &str, c: char) -> (at: usize)
    ensures
        at == char_index(s@, c),
{
    let chars = chars_of(s);
    let n: usize = chars.len();
    let mut i: usize = 0;
    proof {
        assert(s@.skip(0) =~= s@);
    }
    while i < n && chars[i] != c
        invariant
            i <= n == chars@.len(),
            chars@ == s@,
            char_index(s@, c) == i + char_index(s@.skip(i as int), c),
        decreases n - i,
    {
        proof {
            assert(s@.skip(i as int).skip(1) =~= s@.skip(i + 1));
        }
        i = i + 1;
    }
    i
}

/// The index of the first white space, or the length.
pub fn find_space(s: &str) -> (at: usize)
    ensures
        at == space_index(s@),
{
    let chars = chars_of(s);
    let n: usize = chars.len();
    let mut i: usize = 0;
    proof {
        assert(s@.skip(0) =~= s@);
    }
    while i < n && !space(chars[i])
        invariant
            i <= n == chars@.len(),
            chars@ == s@,
            space_index(s@) == i + space_index(s@.skip(i as int)),
        decreases n - i,
    {
        proof {
            assert(s@.skip(i as int).skip(1) =~= s@.skip(i + 1));
        }
        i = i + 1;
    }
    i
}

/// The views of a list of strings.
pub open spec fn views(list: Seq<String>) -> Seq<Seq<char>> {
    list.map_values(|s: String| s@)
}

/// The words of `s`.
pub fn split_words(s: &str) -> (list: Vec<String>)
    ensures
        views(list@) == words(s@),
{
    let chars = chars_of(s);
    let n: usize = chars.len();
    let mut list: Vec<String> = Vec::new();
    let mut i: usize = 0;
    proof {
        assert(s@.skip(0) =~= s@);
        assert(views(list@) + words(s@.skip(0)) =~= words(s@));
    }
    while i < n
        invariant
            i <= n == chars@.len(),
            chars@ == s@,
            views(list@) + words(s@.skip(i as int)) == words(s@),
        decreases n - i,
    {
        let ghost rest = s@.skip(i as int);
        if space(chars[i]) {
            proof {
                assert(rest.skip(1) =~= s@.skip(i + 1));
            }
            i = i + 1;
        } else {
            let start: usize = i;
            proof {
                assert(rest.skip(0) =~= rest);
            }
            while i < n && !space(chars[i])
                invariant
                    start <= i <= n == chars@.len(),
                    chars@ == s@,
                    rest == s@.skip(start as int),
                    space_index(rest) == i - start + space_index(rest.skip(i - start)),
                decreases n - i,
            {
                proof {
                    assert(rest.skip(i - start).skip(1) =~= rest.skip(i + 1 - start));
                }
                i = i + 1;
            }
            let ghost so_far = views(list@);
            let word: &str = s.substring_char(start, i);
            let owned: String = word.to_owned();
            list.push(owned);
            proof {
                let len = i - start;
                assert(space_index(rest) == len);
                assert(rest.take(len) =~= s@.subrange(start as int, i as int));
                assert(rest.skip(len) =~= s@.skip(i as int));
                assert(views(list@) =~= so_far.push(rest.take(len)));
                assert(so_far + (seq![rest.take(len)] + words(rest.skip(len))) =~= so_far.push(
                    rest.take(len),
                ) + words(rest.skip(len)));
                assert(!is_space(rest[0]));
            }
        }
    }
    proof {
        assert(s@.skip(n as int) =~= Seq::empty());
        assert(views(list@) + Seq::<Seq<char>>::empty() =~= views(list@));
    }
    list
}

/// Whether `a` comes before `b` in the order of strings.
pub fn less(a: &str, b: &str) -> (r: bool)
    ensures
        r == text_less(a@, b@),
{
    let x = chars_of(a);
    let y = chars_of(b);
    let mut i: usize = 0;
    proof {
        assert(x@.skip(0) =~= x@);
        assert(y@.skip(0) =~= y@);
    }
    while i < x.len() && i < y.len() && x[i] == y[i]
        invariant
            i <= x@.len(),
            i <= y@.len(),
            text_less(x@, y@) == text_less(x@.skip(i as int), y@.skip(i as int)),
        decreases x.len() - i,
    {
        proof {
            assert(x@.skip(i as int).skip(1) =~= x@.skip(i + 1));
            assert(y@.skip(i as int).skip(1) =~= y@.skip(i + 1));
        }
        i = i + 1;
    }
    if i >= y.len() {
        false
    } else if i >= x.len() {
        true
    } else {
        x[i] < y[i]
    }
}

/// The decimal digit for `d`.
fn digit_text(d: u64) -> (t: &'static str)
    requires
        d < 10,
    ensures
        t@ == seq![digit_char(d as nat)],
{
    proof {
        reveal_strlit("0");
        reveal_strlit("1");
        reveal_strlit("2");
        reveal_strlit("3");
        reveal_strlit("4");
        reveal_strlit("5");
        reveal_strlit("6");
        reveal_strlit("7");
        reveal_strlit("8");
        reveal_strlit("9");
    }
    let t: &'static str = match d {
        0 => "0",
        1 => "1",
        2 => "2",
        3 => "3",
        4 => "4",
        5 => "5",
        6 => "6",
        7 => "7",
        8 => "8",
        _ => "9",
    };
    proof {
        assert(t@ =~= seq![digit_char(d as nat)]);
    }
    t
}

/// The hexadecimal digit for `d`.
fn hex_text(d: u64) -> (t: &'static str)
    requires
        d < 16,
    ensures
        t@ == seq![hex_char(d as nat)],
{
    if d < 10 {
        return digit_text(d);
    }
    proof {
        reveal_strlit("a");
        reveal_strlit("b");
        reveal_strlit("c");
        reveal_strlit("d");
        reveal_strlit("e");
        reveal_strlit("f");
    }
    let t: &'static str = match d {
        10 => "a",
        11 => "b",
        12 => "c",
        13 => "d",
        14 => "e",
        _ => "f",
    };
    proof {
        assert(t@ =~= seq![hex_char(d as nat)]);
    }
    t
}

/// Append `n` in decimal.
pub fn push_decimal(out: &mut String, n: u64)
    ensures
        final(out)@ == old(out)@ + decimal(n as nat),
    decreases n,
{
    if n >= 10 {
        push_decimal(out, n / 10);
    }
    out.append(digit_text(n % 10));
    proof {
        assert(out@ =~= old(out)@ + decimal(n as nat));
    }
}

/// Append the `width` low hexadecimal digits of `n`.
pub fn push_hex(out: &mut String, n: u64, width: usize)
    ensures
        final(out)@ == old(out)@ + hex_digits(n as nat, width as nat),
    decreases width,
{
    if width > 0 {
        push_hex(out, n / 16, width - 1);
        out.append(hex_text(n % 16));
        proof {
            assert(out@ =~= old(out)@ + hex_digits(n as nat, width as nat));
        }
    } else {
        proof {
            assert(out@ =~= old(out)@ + hex_digits(n as nat, 0));
        }
    }
}

/// `n` in decimal.
pub fn decimal_text(n: u64) -> (t: String)
    ensures
        t@ == decimal(n as nat),
{
    let mut t: String = String::new();
    push_decimal(&mut t, n);
    proof {
        assert(Seq::<char>::empty() + decimal(n as nat) =~= decimal(n as nat));
    }
    t
}

/// Append `n` in decimal, with its sign.
pub fn push_signed(out: &mut String, n: i32)
    ensures
        final(out)@ == old(out)@ + signed_decimal(n as int),
{
    if n < 0 {
        out.append("-");
        push_decimal(out, (-(n as i64)) as u64);
        proof {
            reveal_strlit("-");
            assert(out@ =~= old(out)@ + signed_decimal(n as int));
        }
    } else {
        push_decimal(out, n as u64);
    }
}

/// `n` in decimal, with its sign.
pub open spec fn signed_decimal(n: int) -> Seq<char> {
    if n < 0 {
        "-"@ + decimal((-n) as nat)
    } else {
        decimal(n as nat)
    }
}

/// A terminated line without the carriage return before its line feed.
pub open spec fn line_text(s: Seq<char>) -> Seq<char> {
    if s.len() > 0 && s.last() == '\r' {
        s.drop_last()
    } else {
        s
    }
}

/// The lines of `s`; the last one need not be terminated.
pub open spec fn lines(s: Seq<char>) -> Seq<Seq<char>>
    decreases s.len(),
{
    if s.len() == 0 {
        Seq::empty()
    } else {
        let n = char_index(s, '\n') as int;
        proof {
            lemma_char_index_bound(s, '\n');
        }
        if n < s.len() {
            seq![line_text(s.take(n))] + lines(s.skip(n + 1))
        } else {
            seq![s]
        }
    }
}

/// The lines of `s`.
pub fn split_lines(s: &str) -> (list: Vec<String>)
    ensures
        views(list@) == lines(s@),
{
    let mut list: Vec<String> = Vec::new();
    let total: usize = s.unicode_len();
    let mut from: usize = 0;
    proof {
        assert(s@.skip(0) =~= s@);
        assert(views(list@) + lines(s@.skip(0)) =~= lines(s@));
    }
    while from < total
        invariant
            from <= total == s@.len(),
            views(list@) + lines(s@.skip(from as int)) == lines(s@),
        decreases total - from,
    {
        let rest: &str = s.substring_char(from, total);
        let ghost so_far = views(list@);
        proof {
            assert(rest@ =~= s@.skip(from as int));
            lemma_char_index_bound(rest@, '\n');
        }
        let n: usize = find_char(rest, '\n');
        if n < total - from {
            let cr: bool = n > 0 && rest.get_char(n - 1) == '\r';
            let to: usize = if cr {
                n - 1
            } else {
                n
            };
            let line: String = rest.substring_char(0, to).to_owned();
            proof {
                if n > 0 {
                    assert(rest@.take(n as int).drop_last() =~= rest@.subrange(0, n - 1));
                }
                assert(rest@.take(n as int) =~= rest@.subrange(0, n as int));
                assert(line@ == line_text(rest@.take(n as int)));
            }
            list.push(line);
            from = from + n + 1;
            proof {
                assert(rest@.skip(n + 1) =~= s@.skip(from as int));
                let piece = line_text(rest@.take(n as int));
                assert(views(list@) =~= so_far.push(piece));
                assert(so_far + (seq![piece] + lines(rest@.skip(n + 1))) =~= so_far.push(piece)
                    + lines(rest@.skip(n + 1)));
            }
        } else {
            list.push(rest.to_owned());
            from = total;
            proof {
                assert(s@.skip(total as int) =~= Seq::empty());
                assert(views(list@) =~= so_far.push(rest@));
                assert(so_far + seq![rest@] =~= so_far.push(rest@) + Seq::<Seq<char>>::empty());
            }
        }
    }
    proof {
        assert(s@.skip(total as int) =~= Seq::empty());
        assert(views(list@) + Seq::<Seq<char>>::empty() =~= views(list@));
    }
    list
}

/// Among the ASCII characters, white space is the space, the tab and the
/// characters that end a line or a page.
pub proof fn ascii_white_space(c: char)
    requires
        (c as u32) < 0x80,
    ensures
        is_space(c) <==> c == ' ' || c == '\t' || c == '\n' || c == '\r' || c as u32 == 0xB || c as u32
            == 0xC,
{
}

proof fn lemma_trim_start_at(s: Seq<char>) -> (from: int)
    ensures
        0 <= from <= s.len(),
        trim_start(s) == s.skip(from),
        forall|i: int| 0 <= i < from ==> is_space(#[trigger] s[i]),
        from < s.len() ==> !is_space(s[from]),
    decreases s.len(),
{
    if s.len() > 0 && is_space(s[0]) {
        let from = lemma_trim_start_at(s.skip(1));
        assert(s.skip(1).skip(from) =~= s.skip(from + 1));
        assert forall|i: int| 0 <= i < from + 1 implies is_space(#[trigger] s[i]) by {
            if i > 0 {
                assert(s.skip(1)[i - 1] == s[i]);
            }
        }
        from + 1
    } else {
        assert(s.skip(0) =~= s);
        0
    }
}

proof fn lemma_trim_end_at(s: Seq<char>) -> (to: int)
    ensures
        0 <= to <= s.len(),
        trim_end(s) == s.take(to),
        forall|i: int| to <= i < s.len() ==> is_space(#[trigger] s[i]),
        0 < to ==> !is_space(s[to - 1]),
    decreases s.len(),
{
    if s.len() > 0 && is_space(s.last()) {
        let to = lemma_trim_end_at(s.drop_last());
        assert(s.drop_last().take(to) =~= s.take(to));
        assert forall|i: int| to <= i < s.len() implies is_space(#[trigger] s[i]) by {
            if i < s.len() - 1 {
                assert(s.drop_last()[i] == s[i]);
            }
        }
        to
    } else {
        assert(s.take(s.len() as int) =~= s);
        s.len() as int
    }
}

/// Trimming cuts the white space around a text, all of it and nothing more:
/// what is left is `[from, to)` of it.
pub proof fn trimming_cuts_white_space(s: Seq<char>) -> (cut: (int, int))
    ensures
        0 <= cut.0 <= cut.1 <= s.len(),
        trimmed(s) == s.subrange(cut.0, cut.1),
        forall|i: int| 0 <= i < cut.0 ==> is_space(#[trigger] s[i]),
        forall|i: int| cut.1 <= i < s.len() ==> is_space(#[trigger] s[i]),
        cut.0 < cut.1 ==> !is_space(s[cut.0]) && !is_space(s[cut.1 - 1]),
{
    let from = lemma_trim_start_at(s);
    let mid = s.skip(from);
    let to = lemma_trim_end_at(mid);
    assert(mid.take(to) =~= s.subrange(from, from + to));
    assert forall|i: int| from + to <= i < s.len() implies is_space(#[trigger] s[i]) by {
        assert(mid[i - from] == s[i]);
    }
    if to > 0 {
        assert(mid[to - 1] == s[from + to - 1]);
    }
    (from, from + to)
}

/// A text that neither begins nor ends with white space comes out of a
/// trimming as it is, whatever white space stood around it.
pub proof fn trimming_finds_the_text(a: Seq<char>, s: Seq<char>, b: Seq<char>)
    requires
        forall|i: int| 0 <= i < a.len() ==> is_space(#[trigger] a[i]),
        forall|i: int| 0 <= i < b.len() ==> is_space(#[trigger] b[i]),
        s.len() > 0,
        !is_space(s[0]),
        !is_space(s.last()),
    ensures
        trimmed(a + s + b) == s,
{
    let whole = a + s + b;
    let (from, to) = trimming_cuts_white_space(whole);
    assert(whole[a.len() as int] == s[0]);
    assert(whole[a.len() + s.len() - 1] == s.last());
    if from < a.len() {
        assert(whole[from] == a[from]);
    }
    if to > a.len() + s.len() {
        assert(whole[to - 1] == b[to - 1 - a.len() - s.len()]);
    }
    assert(whole.subrange(from, to) =~= s);
}

/// A line that holds a number reads as that number.
pub proof fn lemma_line_trims(n: nat)
    ensures
        trimmed(decimal(n) + seq!['\n']) == decimal(n),
{
    decimals_are_digits(n);
    let none = Seq::<char>::empty();
    assert(none + decimal(n) + seq!['\n'] =~= decimal(n) + seq!['\n']);
    trimming_finds_the_text(none, decimal(n), seq!['\n']);
}

/// A number in decimal is made of digits, without a zero in front.
pub proof fn decimals_are_digits(n: nat)
    ensures
        decimal(n).len() > 0,
        forall|i: int| 0 <= i < decimal(n).len() ==> '0' <= #[trigger] decimal(n)[i] <= '9',
        n > 0 ==> decimal(n)[0] != '0',
        decimal(n).last() as nat == 48 + n % 10,
        n >= 10 ==> decimal(n).drop_last() == decimal(n / 10),
        n < 10 ==> decimal(n).len() == 1,
    decreases n,
{
    if n >= 10 {
        decimals_are_digits(n / 10);
        assert(decimal(n).drop_last() =~= decimal(n / 10));
    }
}

/// Words that stand side by side with white space between them are the words
/// of the whole.
pub proof fn words_are_separated_by_white_space(a: Seq<char>, c: char, b: Seq<char>)
    requires
        is_space(c),
    ensures
        words(a + seq![c] + b) == words(a) + words(b),
    decreases a.len(),
{
    let whole = a + seq![c] + b;
    if a.len() == 0 {
        assert(whole.skip(1) =~= b);
        assert(whole[0] == c);
    } else if is_space(a[0]) {
        assert(whole.skip(1) =~= a.skip(1) + seq![c] + b);
        words_are_separated_by_white_space(a.skip(1), c, b);
    } else {
        let n = space_index(a) as int;
        let m = space_index(whole) as int;
        lemma_space_index_bound(a);
        lemma_space_index_bound(whole);
        assert(whole[a.len() as int] == c);
        if n < a.len() {
            assert(whole[n] == a[n]);
        }
        if m < n {
            assert(whole[m] == a[m]);
        }
        assert(m == n);
        assert(whole.take(m) =~= a.take(n));
        assert(n > 0);
        if n < a.len() {
            assert(whole.skip(m) =~= a.skip(n) + seq![c] + b);
            words_are_separated_by_white_space(a.skip(n), c, b);
            assert(words(whole) =~= words(a) + words(b));
        } else {
            assert(whole.skip(m) =~= seq![c] + b);
            assert((seq![c] + b).skip(1) =~= b);
            assert(words(seq![c] + b) == words(b));
            assert(a.skip(n) =~= Seq::empty());
            assert(words(a.skip(n)).len() == 0);
            assert(words(whole) =~= words(a) + words(b));
        }
    }
}

/// A text without white space is one word; one without characters is none.
pub proof fn a_text_without_white_space_is_a_word(s: Seq<char>)
    requires
        forall|i: int| 0 <= i < s.len() ==> !is_space(#[trigger] s[i]),
    ensures
        words(s) == if s.len() == 0 {
            Seq::<Seq<char>>::empty()
        } else {
            seq![s]
        },
{
    if s.len() > 0 {
        lemma_space_index_bound(s);
        let n = space_index(s) as int;
        assert(n == s.len());
        assert(s.take(n) =~= s);
        assert(s.skip(n) =~= Seq::empty());
        assert(words(s.skip(n)).len() == 0);
        assert(words(s) =~= seq![s]);
    }
}

/// The first line ends at the first line feed, and what follows are the other
/// lines.
pub proof fn lines_end_at_line_feeds(a: Seq<char>, b: Seq<char>)
    requires
        !a.contains('\n'),
    ensures
        a.len() == 0 || a.last() != '\r' ==> lines(a + seq!['\n'] + b) == seq![a] + lines(b),
        lines(a.push('\r') + seq!['\n'] + b) == seq![a] + lines(b),
        a.len() > 0 ==> lines(a) == seq![a],
        lines(Seq::empty()).len() == 0,
{
    lemma_first_line(a, b);
    let long = a.push('\r');
    assert(!long.contains('\n')) by {
        if long.contains('\n') {
            let i = choose|i: int| 0 <= i < long.len() && long[i] == '\n';
            assert(i < a.len() && a[i] == '\n');
        }
    }
    lemma_first_line(long, b);
    assert(long.drop_last() =~= a);
    if a.len() > 0 {
        lemma_char_index_bound(a, '\n');
        let n = char_index(a, '\n') as int;
        if n < a.len() {
            assert(a.contains(a[n]));
        }
    }
}

proof fn lemma_first_line(a: Seq<char>, b: Seq<char>)
    requires
        !a.contains('\n'),
    ensures
        lines(a + seq!['\n'] + b) == seq![line_text(a)] + lines(b),
{
    let whole = a + seq!['\n'] + b;
    lemma_char_index_bound(whole, '\n');
    let n = char_index(whole, '\n') as int;
    assert(whole[a.len() as int] == '\n');
    if n < a.len() {
        assert(whole[n] == a[n]);
        assert(a.contains(a[n]));
    }
    assert(whole.take(n) =~= a);
    assert(whole.skip(n + 1) =~= b);
}

/// Texts are ordered by the first character in which they differ; one that
/// ends before comes first.
pub proof fn the_first_difference_orders(p: Seq<char>, a: Seq<char>, b: Seq<char>)
    ensures
        text_less(p + a, p + b) == text_less(a, b),
        a.len() > 0 && b.len() > 0 && a[0] != b[0] ==> text_less(a, b) == (a[0] < b[0]),
        a.len() == 0 ==> text_less(a, b) == (b.len() > 0),
        b.len() == 0 ==> !text_less(a, b),
    decreases p.len(),
{
    if p.len() > 0 {
        the_first_difference_orders(p.skip(1), a, b);
        assert((p + a).skip(1) =~= p.skip(1) + a);
        assert((p + b).skip(1) =~= p.skip(1) + b);
    } else {
        assert(p + a =~= a);
        assert(p + b =~= b);
    }
}

/// Hexadecimal digits are lower case, one for each four bits, the lowest last.
pub proof fn hexadecimal_digits(n: nat, width: nat)
    ensures
        hex_digits(n, width).len() == width,
        width > 0 ==> {
            let last = hex_digits(n, width).last();
            &&& n % 16 < 10 ==> last as nat == 48 + n % 16
            &&& n % 16 >= 10 ==> last as nat == 97 + n % 16 - 10
            &&& hex_digits(n, width).drop_last() == hex_digits(n / 16, (width - 1) as nat)
        },
    decreases width,
{
    if width > 0 {
        hexadecimal_digits(n / 16, (width - 1) as nat);
        assert(hex_digits(n, width).drop_last() =~= hex_digits(n / 16, (width - 1) as nat));
    }
}

/// A negative number is written with a minus before its absolute value.
pub proof fn signs_are_written(n: nat)
    requires
        n > 0,
    ensures
        signed_decimal(n as int) == decimal(n),
        signed_decimal(-(n as int)) == seq!['-'] + decimal(n),
        signed_decimal(0) == seq!['0'],
{
    reveal_strlit("-");
    assert("-"@ =~= seq!['-']);
    assert(decimal(0) =~= seq!['0']);
}

/// A list of texts stands for their characters, one by one.
pub proof fn texts_are_kept_in_order(list: Seq<String>, i: int)
    requires
        0 <= i < list.len(),
    ensures
        views(list).len() == list.len(),
        views(list)[i] == list[i]@,
{
}

} // verus!
