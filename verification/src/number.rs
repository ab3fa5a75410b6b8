//! Numbers as users write them: decimal, with K, M and G for sizes.

use vstd::arithmetic::power2::is_pow2;
use vstd::prelude::*;

use crate::text::{chars_of, decimal, trim, trimmed};

verus! {

/// Why a text is not a number that fits 64 bits.
#[derive(Clone, Copy, Debug, PartialEq, Eq, Structural)]
pub enum NumberError {
    Empty,
    InvalidDigit,
    TooLarge,
}

impl NumberError {
    /// The words for the error.
    pub open spec fn words(self) -> Seq<char> {
        match self {
            NumberError::Empty => "cannot parse integer from empty string"@,
            NumberError::InvalidDigit => "invalid digit found in string"@,
            NumberError::TooLarge => "number too large to fit in target type"@,
        }
    }

    pub fn text(&self) -> (t: &'static str)
        ensures
            t@ == self.words(),
    {
        match self {
            NumberError::Empty => "cannot parse integer from empty string",
            NumberError::InvalidDigit => "invalid digit found in string",
            NumberError::TooLarge => "number too large to fit in target type",
        }
    }
}

pub open spec fn is_digit(c: char) -> bool {
    '0' <= c <= '9'
}

/// The number that the first `n` characters of `s` write, read from left to
/// right: the first character that is no digit or no longer fits is the error.
pub open spec fn scanned(s: Seq<char>, n: nat) -> Result<nat, NumberError>
    decreases n,
{
    if n == 0 {
        Ok(0)
    } else {
        match scanned(s, (n - 1) as nat) {
            Err(e) => Err(e),
            Ok(v) => {
                let c = s[n - 1];
                if !is_digit(c) {
                    Err(NumberError::InvalidDigit)
                } else {
                    let next = 10 * v + (c as nat - 48) as nat;
                    if next > u64::MAX {
                        Err(NumberError::TooLarge)
                    } else {
                        Ok(next)
                    }
                }
            },
        }
    }
}

/// `s` as a number: decimal digits, with a `+` before them or not.
pub open spec fn number(s: Seq<char>) -> Result<nat, NumberError> {
    if s.len() == 0 {
        Err(NumberError::Empty)
    } else if s[0] == '+' {
        if s.len() == 1 {
            Err(NumberError::InvalidDigit)
        } else {
            scanned(s.skip(1), (s.len() - 1) as nat)
        }
    } else {
        scanned(s, s.len())
    }
}

/// An error stays an error, however much follows.
proof fn lemma_scan_error_stays(s: Seq<char>, n: nat, m: nat)
    requires
        scanned(s, n) is Err,
        n <= m,
    ensures
        scanned(s, m) == scanned(s, n),
    decreases m,
{
    if n < m {
        lemma_scan_error_stays(s, n, (m - 1) as nat);
    }
}

/// `chars[from..to]` as a number.
pub fn parse_chars(chars: &[char], from: usize, to: usize) -> (res: Result<u64, NumberError>)
    requires
        from <= to <= chars@.len(),
    ensures
        match (res, number(chars@.subrange(from as int, to as int))) {
            (Ok(v), Ok(w)) => v == w,
            (Err(e), Err(w)) => e == w,
            _ => false,
        },
{
    let ghost s = chars@.subrange(from as int, to as int);
    if from == to {
        return Err(NumberError::Empty);
    }
    let mut at: usize = from;
    if chars[from] == '+' {
        at = from + 1;
        if at == to {
            return Err(NumberError::InvalidDigit);
        }
    }
    let ghost digits = chars@.subrange(at as int, to as int);
    let ghost total = (to - at) as nat;
    proof {
        if at == from {
            assert(digits =~= s);
        } else {
            assert(digits =~= s.skip(1));
        }
        assert(number(s) == scanned(digits, total));
    }
    let start: usize = at;
    let mut v: u64 = 0;
    while at < to
        invariant
            start <= at <= to <= chars@.len(),
            digits == chars@.subrange(start as int, to as int),
            total == to - start,
            scanned(digits, (at - start) as nat) == Ok::<nat, NumberError>(v as nat),
            number(s) == scanned(digits, total),
            s == chars@.subrange(from as int, to as int),
        decreases to - at,
    {
        let c: char = chars[at];
        let ghost n = (at - start) as nat;
        proof {
            assert(digits[n as int] == c);
        }
        if !('0' <= c && c <= '9') {
            proof {
                lemma_scan_error_stays(digits, n + 1, total);
            }
            return Err(NumberError::InvalidDigit);
        }
        let d: u64 = c as u64 - 48;
        if v > (u64::MAX - d) / 10 {
            proof {
                lemma_scan_error_stays(digits, n + 1, total);
            }
            return Err(NumberError::TooLarge);
        }
        v = 10 * v + d;
        at = at + 1;
    }
    Ok(v)
}

/// `s` as a number.
pub fn parse_number(s: &str) -> (res: Result<u64, NumberError>)
    ensures
        match (res, number(s@)) {
            (Ok(v), Ok(w)) => v == w,
            (Err(e), Err(w)) => e == w,
            _ => false,
        },
{
    let chars = chars_of(s);
    let n: usize = chars.len();
    proof {
        assert(chars@.subrange(0, n as int) =~= s@);
    }
    parse_chars(&chars, 0, n)
}

/// What a size suffix multiplies by; 1 without one.
pub open spec fn suffix_factor(s: Seq<char>) -> nat {
    if s.len() == 0 {
        1
    } else if s.last() == 'K' || s.last() == 'k' {
        0x400
    } else if s.last() == 'M' || s.last() == 'm' {
        0x10_0000
    } else if s.last() == 'G' || s.last() == 'g' {
        0x4000_0000
    } else {
        1
    }
}

/// The number of bytes that `s` stands for.
pub open spec fn size_value(s: Seq<char>) -> Result<nat, NumberError> {
    let factor = suffix_factor(s);
    let digits = if factor == 1 {
        s
    } else {
        s.drop_last()
    };
    match number(digits) {
        Ok(n) => Ok(n * factor),
        Err(e) => Err(e),
    }
}

/// The number of bytes, if `s` stands for one, fits 64 bits.
pub open spec fn size_fits(s: Seq<char>) -> bool {
    size_value(s) matches Ok(v) ==> v <= u64::MAX
}

/// The number in `s` and what its suffix multiplies by.
fn split_size(s: &str) -> (res: Result<(u64, u64), NumberError>)
    ensures
        match res {
            Ok((n, factor)) => {
                &&& factor == suffix_factor(s@)
                &&& size_value(s@) == Ok::<nat, NumberError>(n as nat * factor as nat)
            },
            Err(e) => size_value(s@) == Err::<nat, NumberError>(e),
        },
{
    let chars = chars_of(s);
    let n: usize = chars.len();
    let mut factor: u64 = 1;
    if n > 0 {
        let c: char = chars[n - 1];
        if c == 'K' || c == 'k' {
            factor = 0x400;
        } else if c == 'M' || c == 'm' {
            factor = 0x10_0000;
        } else if c == 'G' || c == 'g' {
            factor = 0x4000_0000;
        }
    }
    let to: usize = if factor == 1 {
        n
    } else {
        n - 1
    };
    proof {
        if factor == 1 {
            assert(chars@.subrange(0, to as int) =~= s@);
        } else {
            assert(chars@.subrange(0, to as int) =~= s@.drop_last());
        }
    }
    match parse_chars(&chars, 0, to) {
        Ok(v) => Ok((v, factor)),
        Err(e) => Err(e),
    }
}

/// Whether the number of bytes, if `s` stands for one, fits 64 bits.
pub fn fits_size(s: &str) -> (r: bool)
    ensures
        r == size_fits(s@),
{
    match split_size(s) {
        Ok((n, factor)) => {
            proof {
                assert(0 < factor ==> (n as nat * factor as nat <= u64::MAX <==> n <= u64::MAX
                    as nat / factor as nat)) by (nonlinear_arith);
            }
            n <= u64::MAX / factor
        },
        Err(_) => true,
    }
}

/// The number of bytes that `s` stands for, as it stands.
pub fn exact_size(s: &str) -> (res: Result<u64, NumberError>)
    requires
        size_fits(s@),
    ensures
        match (res, size_value(s@)) {
            (Ok(v), Ok(w)) => v == w,
            (Err(e), Err(w)) => e == w,
            _ => false,
        },
{
    match split_size(s) {
        Ok((n, factor)) => Ok(n * factor),
        Err(e) => Err(e),
    }
}

/// The words for a size that is no number.
pub open spec fn size_complaint(lead: Seq<char>, s: Seq<char>, e: NumberError) -> Seq<char> {
    lead + " size '"@ + s + "': "@ + e.words()
}

/// The words for a size that is no number.
pub fn complain(lead: &str, s: &str, e: NumberError) -> (t: String)
    ensures
        t@ == size_complaint(lead@, s@, e),
{
    let mut t: String = lead.to_owned();
    t.append(" size '");
    t.append(s);
    t.append("': ");
    t.append(e.text());
    t
}

/// The number of bytes that a command line argument stands for, white space
/// around it aside, or the words for what is wrong with it.
pub fn parse_size(s: &str) -> (res: Result<u64, String>)
    requires
        size_fits(trimmed(s@)),
    ensures
        match (res, size_value(trimmed(s@))) {
            (Ok(v), Ok(w)) => v == w,
            (Err(t), Err(e)) => t@ == size_complaint("invalid"@, trimmed(s@), e),
            _ => false,
        },
{
    let s = trim(s);
    match exact_size(s) {
        Ok(v) => Ok(v),
        Err(e) => Err(complain("invalid", s, e)),
    }
}

/// Whether `n` is a power of two.
pub fn power_of_two(n: u64) -> (r: bool)
    ensures
        r == is_pow2(n as int),
{
    if n == 0 {
        proof {
            reveal(is_pow2);
        }
        return false;
    }
    let mut g: u64 = n;
    while g % 2 == 0
        invariant
            g > 0,
            is_pow2(g as int) == is_pow2(n as int),
        decreases g,
    {
        proof {
            reveal(is_pow2);
        }
        g = g / 2;
    }
    proof {
        reveal(is_pow2);
    }
    g == 1
}

proof fn lemma_scan_prefix(s: Seq<char>, t: Seq<char>, n: nat)
    requires
        n <= s.len(),
        n <= t.len(),
        forall|i: int| 0 <= i < n ==> s[i] == t[i],
    ensures
        scanned(s, n) == scanned(t, n),
    decreases n,
{
    if n > 0 {
        lemma_scan_prefix(s, t, (n - 1) as nat);
    }
}

/// A number in decimal is read as that number, unless 64 bits cannot hold it.
pub proof fn written_numbers_are_read(n: nat)
    ensures
        number(decimal(n)) == if n <= u64::MAX {
            Ok::<nat, NumberError>(n)
        } else {
            Err(NumberError::TooLarge)
        },
    decreases n,
{
    crate::text::decimals_are_digits(n);
    let s = decimal(n);
    assert(s[0] != '+');
    if n >= 10 {
        written_numbers_are_read(n / 10);
        crate::text::decimals_are_digits(n / 10);
        let t = decimal(n / 10);
        assert(t[0] != '+');
        lemma_scan_prefix(s, t, t.len());
        assert(s[s.len() - 1] == s.last());
    } else {
        reveal_with_fuel(scanned, 2);
        assert(s.len() == 1);
        assert(s[0] == s.last());
    }
}

/// What one more character does to a number: a digit appends to it as far as
/// 64 bits hold the result, and anything else is no digit.
pub proof fn one_more_digit(s: Seq<char>, c: char, v: nat)
    requires
        number(s) == Ok::<nat, NumberError>(v),
    ensures
        v <= u64::MAX,
        s.len() > 0,
        number(s.push(c)) == if !('0' <= c <= '9') {
            Err::<nat, NumberError>(NumberError::InvalidDigit)
        } else if 10 * v + (c as nat - 48) > u64::MAX {
            Err(NumberError::TooLarge)
        } else {
            Ok((10 * v + (c as nat - 48)) as nat)
        },
{
    let t = s.push(c);
    lemma_scan_bound(s, s.len());
    if s[0] == '+' {
        lemma_scan_bound(s.skip(1), (s.len() - 1) as nat);
        lemma_scan_prefix(s.skip(1), t.skip(1), (s.len() - 1) as nat);
        assert(t.skip(1)[s.len() - 1] == c);
    } else {
        lemma_scan_prefix(s, t, s.len());
    }
}

proof fn lemma_scan_bound(s: Seq<char>, n: nat)
    ensures
        scanned(s, n) matches Ok(v) ==> v <= u64::MAX,
    decreases n,
{
    if n > 0 {
        lemma_scan_bound(s, (n - 1) as nat);
    }
}

/// What is wrong with a text stays wrong, whatever follows; only an empty one
/// and a lone sign can still become a number.
pub proof fn errors_stay(s: Seq<char>, c: char)
    requires
        number(s) is Err,
        s.len() > 1 || s.len() == 1 && s[0] != '+',
    ensures
        number(s.push(c)) == number(s),
{
    let t = s.push(c);
    if s[0] == '+' {
        lemma_scan_prefix(s.skip(1), t.skip(1), (s.len() - 1) as nat);
    } else {
        lemma_scan_prefix(s, t, s.len());
    }
}

/// Texts of at most one character: a digit is its number.
pub proof fn single_characters(c: char)
    ensures
        number(Seq::empty()) == Err::<nat, NumberError>(NumberError::Empty),
        number(seq![c]) == if '0' <= c <= '9' {
            Ok::<nat, NumberError>((c as nat - 48) as nat)
        } else {
            Err(NumberError::InvalidDigit)
        },
{
    reveal_with_fuel(scanned, 2);
}

/// A plus in front changes nothing.
pub proof fn a_plus_changes_nothing(s: Seq<char>)
    requires
        s.len() > 0,
        s[0] != '+',
    ensures
        number(seq!['+'] + s) == number(s),
{
    assert((seq!['+'] + s).skip(1) =~= s);
}

/// A suffix multiplies by the power of 1024 that it stands for, in either
/// case; without one a size is a plain number.
pub proof fn suffixes_multiply(s: Seq<char>, c: char)
    ensures
        (c == 'K' || c == 'k') ==> size_value(s.push(c)) == match number(s) {
            Ok(n) => Ok::<nat, NumberError>(n * 1024),
            Err(e) => Err(e),
        },
        (c == 'M' || c == 'm') ==> size_value(s.push(c)) == match number(s) {
            Ok(n) => Ok::<nat, NumberError>(n * (1024 * 1024)),
            Err(e) => Err(e),
        },
        (c == 'G' || c == 'g') ==> size_value(s.push(c)) == match number(s) {
            Ok(n) => Ok::<nat, NumberError>(n * (1024 * 1024 * 1024)),
            Err(e) => Err(e),
        },
        c != 'K' && c != 'k' && c != 'M' && c != 'm' && c != 'G' && c != 'g' ==> size_value(
            s.push(c),
        ) == number(s.push(c)),
        size_value(Seq::empty()) == Err::<nat, NumberError>(NumberError::Empty),
{
    assert(s.push(c).drop_last() =~= s);
    assert(s.push(c).last() == c);
    match number(s.push(c)) {
        Ok(n) => {
            assert(n * 1 == n);
        },
        Err(_) => {},
    }
}

/// A size fits exactly when the number of bytes that it stands for does.
pub proof fn sizes_fit_in_64_bits(s: Seq<char>)
    ensures
        size_fits(s) <==> (size_value(s) matches Ok(v) ==> v < 0x1_0000_0000_0000_0000),
{
}

/// The words for a number that is none.
pub proof fn number_errors_in_words(lead: Seq<char>, s: Seq<char>, e: NumberError)
    ensures
        NumberError::Empty.words() == "cannot parse integer from empty string"@,
        NumberError::InvalidDigit.words() == "invalid digit found in string"@,
        NumberError::TooLarge.words() == "number too large to fit in target type"@,
        size_complaint(lead, s, e) == lead + " size '"@ + s + "': "@ + e.words(),
{
}

} // verus!
