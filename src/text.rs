//! Character-level helpers: whitespace trimming and decimal integers.
use vstd::prelude::*;
use vstd::string::*;

verus! {

/// The characters with the Unicode `White_Space` property.
pub open spec fn is_space(c: char) -> bool {
    c == '\t' || c == '\n' || c == '\x0B' || c == '\x0C' || c == '\r' || c == ' ' || c
        == '\u{85}' || c == '\u{A0}' || c == '\u{1680}' || ('\u{2000}' <= c && c <= '\u{200A}')
        || c == '\u{2028}' || c == '\u{2029}' || c == '\u{202F}' || c == '\u{205F}' || c
        == '\u{3000}'
}

/// Number of leading whitespace characters.
pub open spec fn lead_len(s: Seq<char>) -> nat
    decreases s.len(),
{
    if s.len() > 0 && is_space(s[0]) {
        1 + lead_len(s.drop_first())
    } else {
        0
    }
}

/// Number of trailing whitespace characters.
pub open spec fn trail_len(s: Seq<char>) -> nat
    decreases s.len(),
{
    if s.len() > 0 && is_space(s.last()) {
        1 + trail_len(s.drop_last())
    } else {
        0
    }
}

/// `s` without its leading and trailing whitespace.
pub open spec fn trim(s: Seq<char>) -> Seq<char> {
    let t = s.subrange(lead_len(s) as int, s.len() as int);
    t.subrange(0, t.len() - trail_len(t))
}

/// Why a text is not a valid unsigned integer.
#[derive(Clone, Copy, Debug, PartialEq, Eq)]
pub enum IntError {
    /// The text is empty.
    Empty,
    /// A character is not a decimal digit.
    InvalidDigit,
    /// The value does not fit in `usize`.
    Overflow,
}

pub open spec fn is_digit(c: char) -> bool {
    '0' <= c && c <= '9'
}

pub open spec fn digit_value(c: char) -> nat {
    (c as u32 - '0' as u32) as nat
}

/// Reads the digits of `s` from the left, starting from the value `acc`.
pub open spec fn digits_from(s: Seq<char>, acc: nat) -> Result<nat, IntError>
    decreases s.len(),
{
    if s.len() == 0 {
        Ok(acc)
    } else if !is_digit(s[0]) {
        Err(IntError::InvalidDigit)
    } else if acc * 10 + digit_value(s[0]) > usize::MAX {
        Err(IntError::Overflow)
    } else {
        digits_from(s.drop_first(), acc * 10 + digit_value(s[0]))
    }
}

/// An unsigned decimal integer with an optional leading `+`, read left to right:
/// the first fault met decides the error.
pub open spec fn parse_nat(s: Seq<char>) -> Result<nat, IntError> {
    if s.len() == 0 {
        Err(IntError::Empty)
    } else if s.len() == 1 && (s[0] == '+' || s[0] == '-') {
        Err(IntError::InvalidDigit)
    } else if s[0] == '+' {
        digits_from(s.drop_first(), 0)
    } else {
        digits_from(s, 0)
    }
}

/// The characters of a string slice.
pub fn chars_of(s: &str) -> (r: Vec<char>)
    ensures
        r@ == s@,
{
    let n = s.unicode_len();
    let mut r: Vec<char> = Vec::new();
    let mut i: usize = 0;
    while i < n
        invariant
            n == s@.len(),
            i <= n,
            r@ == s@.subrange(0, i as int),
        decreases n - i,
    {
        r.push(s.get_char(i));
        i += 1;
    }
    r
}

pub fn is_space_char(c: char) -> (r: bool)
    ensures
        r == is_space(c),
{
    c == '\t' || c == '\n' || c == '\x0B' || c == '\x0C' || c == '\r' || c == ' ' || c == '\u{85}'
        || c == '\u{A0}' || c == '\u{1680}' || ('\u{2000}' <= c && c <= '\u{200A}') || c
        == '\u{2028}' || c == '\u{2029}' || c == '\u{202F}' || c == '\u{205F}' || c == '\u{3000}'
}

proof fn lemma_lead_len(s: Seq<char>, i: int)
    requires
        0 <= i <= s.len(),
        forall|j: int| 0 <= j < i ==> is_space(#[trigger] s[j]),
        i == s.len() || !is_space(s[i]),
    ensures
        lead_len(s) == i,
    decreases i,
{
    if i > 0 {
        lemma_lead_len(s.drop_first(), i - 1);
    }
}

proof fn lemma_trail_len(s: Seq<char>, i: int)
    requires
        0 <= i <= s.len(),
        forall|j: int| s.len() - i <= j < s.len() ==> is_space(#[trigger] s[j]),
        i == s.len() || !is_space(s[s.len() - 1 - i]),
    ensures
        trail_len(s) == i,
    decreases i,
{
    if i > 0 {
        let t = s.drop_last();
        assert forall|j: int| t.len() - (i - 1) <= j < t.len() implies is_space(#[trigger] t[j]) by {
            assert(t[j] == s[j]);
        }
        if i - 1 < t.len() {
            assert(t[t.len() - 1 - (i - 1)] == s[s.len() - 1 - i]);
        }
        lemma_trail_len(t, i - 1);
    }
}

/// Where the text of `s` lies once its leading and trailing whitespace is taken off.
pub fn trim_range(s: &[char]) -> (r: (usize, usize))
    ensures
        r.0 <= r.1 <= s@.len(),
        s@.subrange(r.0 as int, r.1 as int) == trim(s@),
{
    let n = s.len();
    let mut a: usize = 0;
    while a < n && is_space_char(s[a])
        invariant
            a <= n,
            n == s@.len(),
            forall|j: int| 0 <= j < a ==> is_space(#[trigger] s@[j]),
        decreases n - a,
    {
        a += 1;
    }
    proof {
        lemma_lead_len(s@, a as int);
    }
    let ghost t = s@.subrange(a as int, n as int);
    let mut b: usize = n;
    while b > a && is_space_char(s[b - 1])
        invariant
            a <= b <= n,
            n == s@.len(),
            t == s@.subrange(a as int, n as int),
            forall|j: int| b <= j < n ==> is_space(#[trigger] s@[j]),
        decreases b,
    {
        b -= 1;
    }
    proof {
        let k = (n - b) as int;
        assert forall|j: int| t.len() - k <= j < t.len() implies is_space(#[trigger] t[j]) by {
            assert(t[j] == s@[a + j]);
        }
        if k < t.len() {
            assert(t[t.len() - 1 - k] == s@[b - 1]);
        }
        lemma_trail_len(t, k);
        assert(s@.subrange(a as int, b as int) =~= trim(s@));
    }
    (a, b)
}

/// The characters of `s` from `a` up to `b`.
pub fn slice_chars(s: &[char], a: usize, b: usize) -> (r: Vec<char>)
    requires
        a <= b <= s@.len(),
    ensures
        r@ == s@.subrange(a as int, b as int),
{
    let mut r: Vec<char> = Vec::new();
    let mut i: usize = a;
    while i < b
        invariant
            a <= i <= b,
            b <= s@.len(),
            r@ == s@.subrange(a as int, i as int),
        decreases b - i,
    {
        r.push(s[i]);
        i += 1;
    }
    r
}

/// `s` without its leading and trailing whitespace.
pub fn trim_chars(s: &[char]) -> (r: Vec<char>)
    ensures
        r@ == trim(s@),
{
    let (a, b) = trim_range(s);
    slice_chars(s, a, b)
}

/// Reads an unsigned decimal integer, as `str::parse::<usize>` does.
pub fn parse_usize(s: &[char]) -> (r: Result<usize, IntError>)
    ensures
        match (r, parse_nat(s@)) {
            (Ok(v), Ok(n)) => v as nat == n,
            (Err(e), Err(f)) => e == f,
            _ => false,
        },
{
    let n = s.len();
    if n == 0 {
        return Err(IntError::Empty);
    }
    if n == 1 && (s[0] == '+' || s[0] == '-') {
        return Err(IntError::InvalidDigit);
    }
    let mut i: usize = if s[0] == '+' { 1 } else { 0 };
    let ghost body = s@.subrange(i as int, n as int);
    assert(parse_nat(s@) == digits_from(body, 0)) by {
        if s@[0] == '+' {
            assert(body =~= s@.drop_first());
        } else {
            assert(body =~= s@);
        }
    }
    let mut acc: usize = 0;
    while i < n
        invariant
            i <= n,
            n == s@.len(),
            parse_nat(s@) == digits_from(body, 0),
            digits_from(body, 0) == digits_from(s@.subrange(i as int, n as int), acc as nat),
        decreases n - i,
    {
        let c = s[i];
        let ghost rest = s@.subrange(i as int, n as int);
        assert(rest.len() > 0 && rest[0] == c);
        if !('0' <= c && c <= '9') {
            assert(digits_from(rest, acc as nat) == Err::<nat, IntError>(IntError::InvalidDigit));
            return Err(IntError::InvalidDigit);
        }
        let d = (c as u32 - '0' as u32) as usize;
        assert(d as nat == digit_value(c));
        if acc > (usize::MAX - d) / 10 {
            assert(acc * 10 + d > usize::MAX) by (nonlinear_arith)
                requires
                    acc > (usize::MAX - d) / 10,
                    d <= 9,
            ;
            assert(digits_from(rest, acc as nat) == Err::<nat, IntError>(IntError::Overflow));
            return Err(IntError::Overflow);
        }
        assert(acc * 10 + d <= usize::MAX) by (nonlinear_arith)
            requires
                acc <= (usize::MAX - d) / 10,
                d <= 9,
        ;
        assert(rest.drop_first() =~= s@.subrange(i + 1, n as int));
        acc = acc * 10 + d;
        i += 1;
    }
    Ok(acc)
}

} // verus!
