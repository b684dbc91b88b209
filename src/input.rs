//! Reading the two kinds of answer a player types: who moves first, and a
//! `row,col` position.

use vstd::prelude::*;
use vstd::string::*;

use crate::board::Move;

verus! {

/// A whitespace character: the Unicode `White_Space` property, which is what
/// `char::is_whitespace` tests.
pub open spec fn is_space_char(c: char) -> bool {
    let u = c as u32;
    ||| 0x9 <= u <= 0xd
    ||| u == 0x20
    ||| u == 0x85
    ||| u == 0xa0
    ||| u == 0x1680
    ||| 0x2000 <= u <= 0x200a
    ||| u == 0x2028
    ||| u == 0x2029
    ||| u == 0x202f
    ||| u == 0x205f
    ||| u == 0x3000
}

/// `s` without its leading whitespace.
pub open spec fn trim_start(s: Seq<char>) -> Seq<char>
    decreases s.len(),
{
    if s.len() > 0 && is_space_char(s[0]) {
        trim_start(s.drop_first())
    } else {
        s
    }
}

/// `s` without its trailing whitespace.
pub open spec fn trim_end(s: Seq<char>) -> Seq<char>
    decreases s.len(),
{
    if s.len() > 0 && is_space_char(s.last()) {
        trim_end(s.drop_last())
    } else {
        s
    }
}

/// `s` without leading and trailing whitespace.
pub open spec fn trimmed(s: Seq<char>) -> Seq<char> {
    trim_end(trim_start(s))
}

fn is_space(c: char) -> (r: bool)
    ensures
        r == is_space_char(c),
{
    let u = c as u32;
    (0x9 <= u && u <= 0xd) || u == 0x20 || u == 0x85 || u == 0xa0 || u == 0x1680 || (0x2000 <= u
        && u <= 0x200a) || u == 0x2028 || u == 0x2029 || u == 0x202f || u == 0x205f || u == 0x3000
}

/// Bounds `(a, b)` of the trimmed part of the characters of `s` from `p` to
/// `q`.
fn trim_bounds(s: &str, p: usize, q: usize) -> (r: (usize, usize))
    requires
        p <= q <= s@.len(),
    ensures
        p <= r.0 <= r.1 <= q,
        s@.subrange(r.0 as int, r.1 as int) == trimmed(s@.subrange(p as int, q as int)),
{
    let mut a: usize = p;
    while a < q && is_space(s.get_char(a))
        invariant
            p <= a <= q <= s@.len(),
            trim_start(s@.subrange(p as int, q as int)) == trim_start(
                s@.subrange(a as int, q as int),
            ),
        decreases q - a,
    {
        assert(s@.subrange(a as int, q as int).drop_first() =~= s@.subrange(a + 1, q as int));
        a = a + 1;
    }
    let mut b: usize = q;
    while b > a && is_space(s.get_char(b - 1))
        invariant
            p <= a <= b <= q <= s@.len(),
            trim_start(s@.subrange(p as int, q as int)) == s@.subrange(a as int, q as int),
            trimmed(s@.subrange(p as int, q as int)) == trim_end(s@.subrange(a as int, b as int)),
        decreases b - a,
    {
        assert(s@.subrange(a as int, b as int).drop_last() =~= s@.subrange(a as int, b - 1));
        b = b - 1;
    }
    (a, b)
}

/// Answer to a malformed choice of who moves first.
pub const BAD_PARTICIPANT: &'static str = "please enter correct participant!";

/// The side that a trimmed answer names: `p` or `P` for the player, `c` or
/// `C` for the computer.
pub open spec fn participant_of(t: Seq<char>) -> Option<Move> {
    if t.len() == 1 && (t[0] == 'p' || t[0] == 'P') {
        Some(Move::Player)
    } else if t.len() == 1 && (t[0] == 'c' || t[0] == 'C') {
        Some(Move::Computer)
    } else {
        None
    }
}

/// Reads who moves first from a line of input, whitespace around it ignored.
pub fn parse_first_move(s: &str) -> (r: Result<Move, &'static str>)
    ensures
        participant_of(trimmed(s@)) matches Some(m) ==> r == Ok::<Move, &'static str>(m),
        participant_of(trimmed(s@)) is None ==> r == Err::<Move, &'static str>(BAD_PARTICIPANT),
{
    let n = s.unicode_len();
    let (a, b) = trim_bounds(s, 0, n);
    assert(s@.subrange(0, n as int) =~= s@);
    if b - a == 1 {
        let c = s.get_char(a);
        if c == 'p' || c == 'P' {
            return Ok(Move::Player);
        } else if c == 'c' || c == 'C' {
            return Ok(Move::Computer);
        }
    }
    Err(BAD_PARTICIPANT)
}

/// Value of a string of decimal digits.
pub open spec fn digits_value(d: Seq<char>) -> int
    decreases d.len(),
{
    if d.len() == 0 {
        0
    } else {
        10 * digits_value(d.drop_last()) + (d.last() as u32 - 48)
    }
}

/// Every character is an ASCII decimal digit.
pub open spec fn all_digits(d: Seq<char>) -> bool {
    forall|i: int| 0 <= i < d.len() ==> 48 <= #[trigger] d[i] as u32 <= 57
}

/// What `usize`'s `from_str` reads: an optional `+`, then one or more
/// decimal digits whose value fits in `usize`.
pub open spec fn usize_of(t: Seq<char>) -> Option<usize> {
    let d = if t.len() > 0 && t[0] == '+' {
        t.drop_first()
    } else {
        t
    };
    if d.len() > 0 && all_digits(d) && digits_value(d) <= usize::MAX {
        Some(digits_value(d) as usize)
    } else {
        None
    }
}

proof fn lemma_digits_prefix(d: Seq<char>, j: int)
    requires
        all_digits(d),
        0 <= j <= d.len(),
    ensures
        0 <= digits_value(d.subrange(0, j)) <= digits_value(d),
    decreases d.len(),
{
    if d.len() > 0 {
        let e = d.drop_last();
        assert(all_digits(e));
        if j < d.len() {
            lemma_digits_prefix(e, j);
            assert(e.subrange(0, j) =~= d.subrange(0, j));
        } else {
            assert(d.subrange(0, j) =~= d);
            lemma_digits_prefix(e, j - 1);
            assert(e.subrange(0, j - 1) =~= e);
        }
    }
}

/// Reads the characters of `s` from `a` to `b` as a `usize`.
fn parse_number(s: &str, a: usize, b: usize) -> (r: Option<usize>)
    requires
        a <= b <= s@.len(),
    ensures
        r == usize_of(s@.subrange(a as int, b as int)),
{
    let ghost t = s@.subrange(a as int, b as int);
    let mut i: usize = a;
    if a < b && s.get_char(a) == '+' {
        i = a + 1;
    }
    let start = i;
    let ghost d = s@.subrange(start as int, b as int);
    assert(d =~= (if t.len() > 0 && t[0] == '+' {
        t.drop_first()
    } else {
        t
    }));
    if start == b {
        return None;
    }
    let mut value: usize = 0;
    while i < b
        invariant
            a <= start <= i <= b <= s@.len(),
            start < b,
            t == s@.subrange(a as int, b as int),
            d == s@.subrange(start as int, b as int),
            d == (if t.len() > 0 && t[0] == '+' {
                t.drop_first()
            } else {
                t
            }),
            all_digits(s@.subrange(start as int, i as int)),
            value == digits_value(s@.subrange(start as int, i as int)),
        decreases b - i,
    {
        let c = s.get_char(i);
        let ghost prev = s@.subrange(start as int, i as int);
        let ghost next = s@.subrange(start as int, i + 1);
        assert(next.drop_last() =~= prev);
        assert(d[i - start] == c);
        let u = c as u32;
        if !(48 <= u && u <= 57) {
            assert(!all_digits(d));
            return None;
        }
        let digit = (u - 48) as usize;
        let tens = value.checked_mul(10);
        let sum = match tens {
            Some(x) => x.checked_add(digit),
            None => None,
        };
        proof {
            assert(all_digits(next));
            assert(next =~= d.subrange(0, i + 1 - start));
            if all_digits(d) {
                lemma_digits_prefix(d, i + 1 - start);
            }
        }
        match sum {
            Some(v) => {
                value = v;
            },
            None => {
                return None;
            },
        }
        i = i + 1;
    }
    assert(s@.subrange(start as int, i as int) =~= d);
    Some(value)
}

/// Index of the first `,` in `s` at or after `from`, or the length of `s`.
pub open spec fn comma_from(s: Seq<char>, from: int) -> int
    decreases s.len() - from,
{
    if from >= s.len() {
        s.len() as int
    } else if s[from] == ',' {
        from
    } else {
        comma_from(s, from + 1)
    }
}

/// The position that a line `row,col` names: the text up to the first comma
/// and the text from there to the next comma (or the end), each trimmed and
/// read as a `usize`.
pub open spec fn position_of(s: Seq<char>) -> Option<(usize, usize)> {
    let i1 = comma_from(s, 0);
    if i1 >= s.len() {
        None
    } else {
        let i2 = comma_from(s, i1 + 1);
        match (usize_of(trimmed(s.subrange(0, i1))), usize_of(trimmed(s.subrange(i1 + 1, i2)))) {
            (Some(row), Some(col)) => Some((row, col)),
            _ => None,
        }
    }
}

/// Index of the first `,` of `s` at or after `from`, or its length.
fn find_comma(s: &str, n: usize, from: usize) -> (r: usize)
    requires
        n == s@.len(),
        from <= n,
    ensures
        r == comma_from(s@, from as int),
        from <= r <= n,
{
    let mut i: usize = from;
    while i < n && s.get_char(i) != ','
        invariant
            from <= i <= n == s@.len(),
            comma_from(s@, from as int) == comma_from(s@, i as int),
        decreases n - i,
    {
        i = i + 1;
    }
    i
}

/// Reads a `row,col` position from a line of input.
pub fn parse_pos(s: &str) -> (r: Option<(usize, usize)>)
    ensures
        r == position_of(s@),
{
    let n = s.unicode_len();
    let i1 = find_comma(s, n, 0);
    if i1 >= n {
        return None;
    }
    let i2 = find_comma(s, n, i1 + 1);
    let (a, b) = trim_bounds(s, 0, i1);
    let row = match parse_number(s, a, b) {
        Some(v) => v,
        None => return None,
    };
    let (c, d) = trim_bounds(s, i1 + 1, i2);
    let col = match parse_number(s, c, d) {
        Some(v) => v,
        None => return None,
    };
    Some((row, col))
}

} // verus!
