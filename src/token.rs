//! The grammar of a round argument: `N`, `A..B`, `A..`, `..B`, `..`,
//! and chains such as `A..B..C`, whose neighbouring bounds and whose first
//! and last bounds must each be in order.
use vstd::prelude::*;

use crate::error::{InvalidArg, InvalidArgV};
use crate::round::Round;
use crate::text::{digit_value, digits_from, is_digit, is_space, lead_len, parse_nat, parse_usize, trail_len, trim, trim_chars, IntError};

verus! {

/// Whether `s` holds `..` at index `i`.
pub open spec fn dots_at(s: Seq<char>, i: int) -> bool {
    0 <= i && i + 1 < s.len() && s[i] == '.' && s[i + 1] == '.'
}

pub open spec fn has_two_dots(s: Seq<char>) -> bool {
    exists|i: int| dots_at(s, i)
}

/// Splitting from index `i` on, with the piece `cur` begun and `done` finished.
pub open spec fn split_from(s: Seq<char>, i: int, cur: Seq<char>, done: Seq<Seq<char>>) -> Seq<Seq<char>>
    decreases s.len() - i,
{
    if i >= s.len() {
        done.push(cur)
    } else if dots_at(s, i) {
        split_from(s, i + 2, Seq::empty(), done.push(cur))
    } else {
        split_from(s, i + 1, cur.push(s[i]), done)
    }
}

/// The pieces of `s` between occurrences of `..`, taken from the left
/// without overlap; an empty last piece is left out.
pub open spec fn pieces(s: Seq<char>) -> Seq<Seq<char>> {
    let all = split_from(s, 0, Seq::empty(), Seq::empty());
    if all.last().len() == 0 {
        all.drop_last()
    } else {
        all
    }
}

/// A one-based round number as a zero-based index.
pub open spec fn index_of(n: Result<nat, crate::text::IntError>) -> Result<usize, InvalidArgV> {
    match n {
        Err(e) => Err(InvalidArgV::CannotParseInteger(e)),
        Ok(n) => if n == 0 {
            Err(InvalidArgV::RoundZero)
        } else {
            Ok((n - 1) as usize)
        },
    }
}

/// One bound of a range: absent where the piece is blank.
pub open spec fn bound_of(p: Seq<char>) -> Result<Option<usize>, InvalidArgV> {
    if trim(p).len() == 0 {
        Ok(None)
    } else {
        match index_of(parse_nat(trim(p))) {
            Err(e) => Err(e),
            Ok(i) => Ok(Some(i)),
        }
    }
}

/// The bounds from piece `i` on, each checked against the one before it
/// (`prev`); the last one is the result.
pub open spec fn chain(ps: Seq<Seq<char>>, i: int, prev: Option<usize>) -> Result<Option<usize>, InvalidArgV>
    decreases ps.len() - i,
{
    if i >= ps.len() || i < 0 {
        Ok(prev)
    } else {
        match bound_of(ps[i]) {
            Err(e) => Err(e),
            Ok(b) => if prev is Some && b is Some && prev->0 > b->0 {
                Err(InvalidArgV::NotInOrder((prev->0 + 1) as usize, (b->0 + 1) as usize))
            } else {
                chain(ps, i + 1, b)
            },
        }
    }
}

/// What a round argument means.
pub open spec fn round_of(t: Seq<char>) -> Result<Round, InvalidArgV> {
    if has_two_dots(t) {
        let ps = pieces(t);
        match bound_of(ps[0]) {
            Err(e) => Err(e),
            Ok(start) => if ps.len() == 1 {
                Ok(Round::Range { start, end: None })
            } else {
                match chain(ps, 1, start) {
                    Err(e) => Err(e),
                    Ok(end) => if start is Some && end is Some && start->0 > end->0 {
                        Err(InvalidArgV::NotInOrder((start->0 + 1) as usize, (end->0 + 1) as usize))
                    } else {
                        Ok(Round::Range { start, end })
                    },
                }
            },
        }
    } else if t.contains('.') {
        Err(InvalidArgV::UseTwoDots)
    } else {
        match index_of(parse_nat(trim(t))) {
            Err(e) => Err(e),
            Ok(i) => Ok(Round::One(i)),
        }
    }
}

proof fn lemma_split_len(s: Seq<char>, i: int, cur: Seq<char>, done: Seq<Seq<char>>)
    requires
        0 <= i,
    ensures
        split_from(s, i, cur, done).len() >= done.len() + 1,
        (exists|j: int| j >= i && dots_at(s, j)) ==> split_from(s, i, cur, done).len() >= done.len() + 2,
    decreases s.len() - i,
{
    if i >= s.len() {
    } else if dots_at(s, i) {
        lemma_split_len(s, i + 2, Seq::empty(), done.push(cur));
    } else {
        lemma_split_len(s, i + 1, cur.push(s[i]), done);
        if exists|j: int| j >= i && dots_at(s, j) {
            let j = choose|j: int| j >= i && dots_at(s, j);
            assert(j >= i + 1 && dots_at(s, j));
        }
    }
}

fn has_two_dots_exec(s: &[char]) -> (r: bool)
    ensures
        r == has_two_dots(s@),
{
    let n = s.len();
    let mut i: usize = 0;
    while i < n
        invariant
            n == s@.len(),
            i <= n,
            forall|j: int| 0 <= j < i ==> !dots_at(s@, j),
        decreases n - i,
    {
        if i + 1 < n && s[i] == '.' && s[i + 1] == '.' {
            assert(dots_at(s@, i as int));
            return true;
        }
        i += 1;
    }
    assert forall|j: int| !dots_at(s@, j) by {
        if 0 <= j < i {
        }
    }
    false
}

fn has_dot(s: &[char]) -> (r: bool)
    ensures
        r == s@.contains('.'),
{
    let mut i: usize = 0;
    while i < s.len()
        invariant
            i <= s@.len(),
            forall|j: int| 0 <= j < i ==> s@[j] != '.',
        decreases s@.len() - i,
    {
        if s[i] == '.' {
            assert(s@[i as int] == '.');
            return true;
        }
        i += 1;
    }
    false
}

pub open spec fn views(v: Seq<Vec<char>>) -> Seq<Seq<char>> {
    v.map_values(|p: Vec<char>| p@)
}

fn split_pieces(s: &[char]) -> (r: Vec<Vec<char>>)
    ensures
        views(r@) == pieces(s@),
{
    let n = s.len();
    let mut done: Vec<Vec<char>> = Vec::new();
    let mut cur: Vec<char> = Vec::new();
    let mut i: usize = 0;
    assert(views(done@) =~= Seq::<Seq<char>>::empty());
    while i < n
        invariant
            n == s@.len(),
            i <= n + 1,
            split_from(s@, i as int, cur@, views(done@)) == split_from(s@, 0, Seq::empty(), Seq::empty()),
        decreases n + 1 - i,
    {
        if i + 1 < n && s[i] == '.' && s[i + 1] == '.' {
            assert(dots_at(s@, i as int));
            let finished = cur;
            cur = Vec::new();
            proof {
                assert(views(done@.push(finished)) =~= views(done@).push(finished@));
            }
            done.push(finished);
            i += 2;
        } else {
            assert(!dots_at(s@, i as int));
            cur.push(s[i]);
            i += 1;
        }
    }
    proof {
        assert(views(done@.push(cur)) =~= views(done@).push(cur@));
    }
    done.push(cur);
    let ghost all = views(done@);
    assert(all == split_from(s@, 0, Seq::empty(), Seq::empty()));
    proof {
        lemma_split_len(s@, 0, Seq::empty(), Seq::empty());
    }
    let last = done.len() - 1;
    if done[last].len() == 0 {
        assert(all[last as int].len() == 0);
        done.pop();
        assert(views(done@) =~= all.drop_last());
    }
    done
}

fn index_of_exec(p: &[char]) -> (r: Result<usize, InvalidArg>)
    ensures
        match (r, index_of(parse_nat(p@))) {
            (Ok(a), Ok(b)) => a == b,
            (Err(a), Err(b)) => a@ == b,
            _ => false,
        },
        r is Ok ==> r->Ok_0 < usize::MAX,
{
    match parse_usize(p) {
        Err(error) => Err(InvalidArg::CannotParseInteger { error }),
        Ok(n) => if n == 0 {
            Err(InvalidArg::RoundZero)
        } else {
            Ok(n - 1)
        },
    }
}

fn bound_of_exec(p: &[char]) -> (r: Result<Option<usize>, InvalidArg>)
    ensures
        match (r, bound_of(p@)) {
            (Ok(a), Ok(b)) => a == b,
            (Err(a), Err(b)) => a@ == b,
            _ => false,
        },
        r is Ok && r->Ok_0 is Some ==> r->Ok_0->0 < usize::MAX,
{
    let t = trim_chars(p);
    if t.len() == 0 {
        Ok(None)
    } else {
        match index_of_exec(t.as_slice()) {
            Err(e) => Err(e),
            Ok(i) => Ok(Some(i)),
        }
    }
}

/// Reads a round argument (already trimmed by the caller, or not).
pub fn parse_round_chars(t: &[char]) -> (r: Result<Round, InvalidArg>)
    ensures
        match (r, round_of(t@)) {
            (Ok(a), Ok(b)) => a == b,
            (Err(a), Err(b)) => a@ == b,
            _ => false,
        },
        r is Ok ==> r->Ok_0.wf(),
{
    if has_two_dots_exec(t) {
        let ps = split_pieces(t);
        proof {
            let j = choose|j: int| dots_at(t@, j);
            lemma_split_len(t@, 0, Seq::empty(), Seq::empty());
            assert(j >= 0 && dots_at(t@, j));
        }
        assert(ps@.len() >= 1);
        assert(views(ps@)[0] == ps@[0]@);
        let start = match bound_of_exec(ps[0].as_slice()) {
            Err(e) => return Err(e),
            Ok(s) => s,
        };
        if ps.len() == 1 {
            return Ok(Round::Range { start, end: None });
        }
        let ghost vs = views(ps@);
        assert(round_of(t@) == match chain(vs, 1, start) {
            Err(e) => Err(e),
            Ok(end) => if start is Some && end is Some && start->0 > end->0 {
                Err(InvalidArgV::NotInOrder((start->0 + 1) as usize, (end->0 + 1) as usize))
            } else {
                Ok(Round::Range { start, end })
            },
        });
        let mut prev = start;
        let mut i: usize = 1;
        while i < ps.len()
            invariant
                vs == views(ps@),
                1 <= i <= ps@.len(),
                chain(vs, 1, start) == chain(vs, i as int, prev),
                round_of(t@) == match chain(vs, 1, start) {
                    Err(e) => Err(e),
                    Ok(end) => if start is Some && end is Some && start->0 > end->0 {
                        Err(InvalidArgV::NotInOrder((start->0 + 1) as usize, (end->0 + 1) as usize))
                    } else {
                        Ok(Round::Range { start, end })
                    },
                },
                start is Some ==> start->0 < usize::MAX,
                prev is Some ==> prev->0 < usize::MAX,
            decreases ps@.len() - i,
        {
            assert(vs[i as int] == ps@[i as int]@);
            let b = match bound_of_exec(ps[i].as_slice()) {
                Err(e) => {
                    assert(chain(vs, i as int, prev) == Err::<Option<usize>, InvalidArgV>(e@));
                    return Err(e);
                },
                Ok(b) => b,
            };
            if let (Some(p), Some(q)) = (prev, b) {
                if p > q {
                    assert(chain(vs, i as int, prev) == Err::<Option<usize>, InvalidArgV>(
                        InvalidArgV::NotInOrder((p + 1) as usize, (q + 1) as usize),
                    ));
                    return Err(InvalidArg::NotInOrder { start: p + 1, end: q + 1 });
                }
            }
            prev = b;
            i += 1;
        }
        if let (Some(a), Some(b)) = (start, prev) {
            if a > b {
                return Err(InvalidArg::NotInOrder { start: a + 1, end: b + 1 });
            }
        }
        Ok(Round::Range { start, end: prev })
    } else if has_dot(t) {
        Err(InvalidArg::UseTwoDots)
    } else {
        let s = trim_chars(t);
        match index_of_exec(s.as_slice()) {
            Err(e) => Err(e),
            Ok(i) => Ok(Round::One(i)),
        }
    }
}

/// Reads a round argument.
pub fn parse_round(arg: &str) -> (r: Result<Round, InvalidArg>)
    ensures
        match (r, round_of(arg@)) {
            (Ok(a), Ok(b)) => a == b,
            (Err(a), Err(b)) => a@ == b,
            _ => false,
        },
        r is Ok ==> r->Ok_0.wf(),
{
    let chars = crate::text::chars_of(arg);
    parse_round_chars(chars.as_slice())
}

/// The decimal digit for `d < 10`.
pub open spec fn digit_char(d: nat) -> char {
    if d == 0 {
        '0'
    } else if d == 1 {
        '1'
    } else if d == 2 {
        '2'
    } else if d == 3 {
        '3'
    } else if d == 4 {
        '4'
    } else if d == 5 {
        '5'
    } else if d == 6 {
        '6'
    } else if d == 7 {
        '7'
    } else if d == 8 {
        '8'
    } else {
        '9'
    }
}

/// `n` written in decimal, without leading zeros.
pub open spec fn decimal(n: nat) -> Seq<char>
    decreases n,
{
    if n < 10 {
        seq![digit_char(n)]
    } else {
        decimal(n / 10).push(digit_char(n % 10))
    }
}

proof fn lemma_digit_char(d: nat)
    requires
        d < 10,
    ensures
        is_digit(digit_char(d)),
        digit_value(digit_char(d)) == d,
        !is_space(digit_char(d)),
{
}

proof fn lemma_digits_push(s: Seq<char>, acc: nat, c: char)
    requires
        digits_from(s, acc) is Ok,
        is_digit(c),
    ensures
        ({
            let v = digits_from(s, acc)->Ok_0 * 10 + digit_value(c);
            digits_from(s.push(c), acc) == if v > usize::MAX {
                Err::<nat, IntError>(IntError::Overflow)
            } else {
                Ok::<nat, IntError>(v)
            }
        }),
    decreases s.len(),
{
    if s.len() == 0 {
        assert(s.push(c).drop_first() =~= Seq::<char>::empty());
        assert(s.push(c)[0] == c);
        assert(digits_from(s, acc) == Ok::<nat, IntError>(acc));
        let v = acc * 10 + digit_value(c);
        assert(digits_from(Seq::<char>::empty(), v) == Ok::<nat, IntError>(v));
    } else {
        assert(s.push(c).drop_first() =~= s.drop_first().push(c));
        assert(s.push(c)[0] == s[0]);
        assert(digits_from(s, acc) == digits_from(s.drop_first(), acc * 10 + digit_value(s[0])));
        lemma_digits_push(s.drop_first(), acc * 10 + digit_value(s[0]), c);
    }
}

proof fn lemma_decimal(n: nat)
    requires
        n <= usize::MAX,
    ensures
        digits_from(decimal(n), 0) == Ok::<nat, IntError>(n),
        decimal(n).len() >= 1,
        forall|j: int| 0 <= j < decimal(n).len() ==> is_digit(#[trigger] decimal(n)[j]) && !is_space(decimal(n)[j]),
    decreases n,
{
    if n < 10 {
        lemma_digit_char(n);
        assert(decimal(n).drop_first() =~= Seq::<char>::empty());
        assert(digits_from(Seq::<char>::empty(), n) == Ok::<nat, IntError>(n));
        assert(decimal(n)[0] == digit_char(n));
    } else {
        let q = n / 10;
        let d = n % 10;
        assert(q * 10 + d == n && q < n && d < 10) by (nonlinear_arith)
            requires
                q == n / 10,
                d == n % 10,
                n >= 10,
        ;
        lemma_decimal(q);
        lemma_digit_char(d);
        lemma_digits_push(decimal(q), 0, digit_char(d));
        assert(decimal(n) == decimal(q).push(digit_char(d)));
        assert forall|j: int| 0 <= j < decimal(n).len() implies is_digit(#[trigger] decimal(n)[j]) && !is_space(decimal(n)[j]) by {
            if j < decimal(q).len() {
                assert(decimal(n)[j] == decimal(q)[j]);
            }
        }
    }
}

proof fn lemma_decimal_parse(n: nat)
    requires
        n <= usize::MAX,
    ensures
        trim(decimal(n)) == decimal(n),
        parse_nat(decimal(n)) == Ok::<nat, IntError>(n),
        !decimal(n).contains('.'),
        !has_two_dots(decimal(n)),
{
    let s = decimal(n);
    lemma_decimal(n);
    assert(lead_len(s) == 0);
    assert(trail_len(s) == 0);
    assert(s.subrange(0, s.len() as int) =~= s);
    assert(trim(s) =~= s);
    assert(s[0] != '+' && s[0] != '-');
    assert(!s.contains('.')) by {
        if s.contains('.') {
            let j = choose|j: int| 0 <= j < s.len() && s[j] == '.';
            assert(is_digit(s[j]));
        }
    }
    assert(!has_two_dots(s)) by {
        if has_two_dots(s) {
            let j = choose|j: int| dots_at(s, j);
            assert(is_digit(s[j]));
        }
    }
}

proof fn lemma_split_plain(s: Seq<char>, i: int, cur: Seq<char>, done: Seq<Seq<char>>)
    requires
        0 <= i <= s.len(),
        forall|j: int| i <= j < s.len() ==> s[j] != '.',
    ensures
        split_from(s, i, cur, done) == done.push(cur + s.subrange(i, s.len() as int)),
    decreases s.len() - i,
{
    if i >= s.len() {
        assert(cur + s.subrange(i, s.len() as int) =~= cur);
    } else {
        assert(!dots_at(s, i));
        lemma_split_plain(s, i + 1, cur.push(s[i]), done);
        assert(cur.push(s[i]) + s.subrange(i + 1, s.len() as int) =~= cur + s.subrange(i, s.len() as int));
    }
}

proof fn lemma_split_prefix(s: Seq<char>, i: int, k: int, cur: Seq<char>, done: Seq<Seq<char>>)
    requires
        0 <= i <= k,
        dots_at(s, k),
        forall|j: int| i <= j < k ==> s[j] != '.',
    ensures
        split_from(s, i, cur, done) == split_from(s, k + 2, Seq::empty(), done.push(cur + s.subrange(i, k))),
    decreases k - i,
{
    if i == k {
        assert(cur + s.subrange(i, k) =~= cur);
    } else {
        assert(!dots_at(s, i));
        lemma_split_prefix(s, i + 1, k, cur.push(s[i]), done);
        assert(cur.push(s[i]) + s.subrange(i + 1, k) =~= cur + s.subrange(i, k));
    }
}

/// A round number: `N` reads as the zero-based round `N - 1`, and `0` is
/// refused as round zero.
pub proof fn law_single_round(n: nat)
    requires
        n <= usize::MAX,
    ensures
        n >= 1 ==> round_of(decimal(n)) == Ok::<Round, InvalidArgV>(Round::One((n - 1) as usize)),
        n == 0 ==> round_of(decimal(n)) == Err::<Round, InvalidArgV>(InvalidArgV::RoundZero),
{
    lemma_decimal_parse(n);
}

/// Text without a dot that is not a number is refused with the reason it
/// is not one.
pub proof fn law_not_a_number(t: Seq<char>)
    requires
        !t.contains('.'),
        parse_nat(trim(t)) is Err,
    ensures
        round_of(t) == Err::<Round, InvalidArgV>(InvalidArgV::CannotParseInteger(parse_nat(trim(t))->Err_0)),
{
    assert(!has_two_dots(t)) by {
        if has_two_dots(t) {
            let j = choose|j: int| dots_at(t, j);
            assert(t.contains('.')) by {
                assert(0 <= j < t.len() && t[j] == '.');
            }
        }
    }
}

/// A range `A..B` of round numbers reads as the zero-based range from
/// `A - 1` to `B - 1` where `A <= B`, and is refused as out of order,
/// with both numbers as written, where `A > B`.
pub proof fn law_range(a: nat, b: nat)
    requires
        1 <= a <= usize::MAX,
        1 <= b <= usize::MAX,
    ensures
        a <= b ==> round_of(decimal(a) + seq!['.', '.'] + decimal(b)) == Ok::<Round, InvalidArgV>(
            Round::Range { start: Some((a - 1) as usize), end: Some((b - 1) as usize) },
        ),
        a > b ==> round_of(decimal(a) + seq!['.', '.'] + decimal(b)) == Err::<Round, InvalidArgV>(
            InvalidArgV::NotInOrder(a as usize, b as usize),
        ),
{
    let da = decimal(a);
    let db = decimal(b);
    let t = da + seq!['.', '.'] + db;
    lemma_decimal_parse(a);
    lemma_decimal_parse(b);
    lemma_decimal(a);
    lemma_decimal(b);
    let k = da.len() as int;
    assert(dots_at(t, k));
    assert(has_two_dots(t));
    assert forall|j: int| 0 <= j < k implies t[j] != '.' by {
        assert(t[j] == da[j]);
        assert(is_digit(da[j]));
    }
    assert forall|j: int| k + 2 <= j < t.len() implies t[j] != '.' by {
        assert(t[j] == db[j - k - 2]);
        assert(is_digit(db[j - k - 2]));
    }
    lemma_split_prefix(t, 0, k, Seq::empty(), Seq::empty());
    lemma_split_plain(t, k + 2, Seq::empty(), seq![Seq::<char>::empty() + t.subrange(0, k)]);
    assert(Seq::<char>::empty() + t.subrange(0, k) =~= da);
    assert(Seq::<char>::empty() + t.subrange(k + 2, t.len() as int) =~= db);
    let all = split_from(t, 0, Seq::empty(), Seq::empty());
    assert(all =~= seq![da, db]);
    assert(pieces(t) =~= seq![da, db]);
    let ps = pieces(t);
    assert(bound_of(ps[0]) == Ok::<Option<usize>, InvalidArgV>(Some((a - 1) as usize)));
    assert(bound_of(ps[1]) == Ok::<Option<usize>, InvalidArgV>(Some((b - 1) as usize)));
    if a <= b {
        assert(chain(ps, 2, Some((b - 1) as usize)) == Ok::<Option<usize>, InvalidArgV>(Some((b - 1) as usize)));
    }
}

} // verus!
