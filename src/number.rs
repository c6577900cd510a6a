//! Strict whole-text numeric syntax: unsigned and signed decimal integers,
//! and the decimal floating-point syntax that `f64`'s `FromStr` accepts.
use vstd::prelude::*;
use crate::text::slice_chars;

verus! {

/// Whether `c` is one of the digits `0` to `9`.
pub open spec fn is_digit(c: char) -> bool {
    0x30 <= (c as u32) <= 0x39
}

/// Whether every character of `s` is a digit.
pub open spec fn all_digits(s: Seq<char>) -> bool {
    forall|i: int| 0 <= i < s.len() ==> is_digit(#[trigger] s[i])
}

/// The value of a run of decimal digits.
pub open spec fn digits_value(s: Seq<char>) -> nat
    decreases s.len(),
{
    if s.len() == 0 {
        0
    } else {
        digits_value(s.drop_last()) * 10 + ((s.last() as u32) - 0x30) as nat
    }
}

/// The value of an unsigned decimal: an optional `+`, then one digit or more.
pub open spec fn unsigned_text(s: Seq<char>) -> Option<nat> {
    let body = if s.len() > 0 && s[0] == '+' {
        s.drop_first()
    } else {
        s
    };
    if body.len() > 0 && all_digits(body) {
        Some(digits_value(body))
    } else {
        None
    }
}

/// The value of a signed decimal: an optional `+` or `-`, then one digit or
/// more.
pub open spec fn signed_text(s: Seq<char>) -> Option<int> {
    if s.len() > 0 && s[0] == '-' {
        let body = s.drop_first();
        if body.len() > 0 && all_digits(body) {
            Some(-digits_value(body))
        } else {
            None
        }
    } else {
        match unsigned_text(s) {
            Some(v) => Some(v as int),
            None => None,
        }
    }
}

/// Whether `c` is the lower-case letter `l` in either case.
pub open spec fn letter_matches(c: char, l: char) -> bool {
    (c as u32) == (l as u32) || ((c as u32) + 32 == (l as u32) && 0x41 <= (c as u32) <= 0x5a)
}

/// Whether `s` spells the lower-case word `w`, ignoring ASCII case.
pub open spec fn word_matches(s: Seq<char>, w: Seq<char>) -> bool {
    s.len() == w.len() && forall|i: int| 0 <= i < s.len() ==> letter_matches(#[trigger] s[i], w[i])
}

/// The first position at or after `i` holding `a` or `b`, or the length of
/// `s` when there is none.
pub open spec fn first_of_from(s: Seq<char>, a: char, b: char, i: int) -> int
    decreases s.len() - i,
{
    if i < 0 || i >= s.len() {
        s.len() as int
    } else if s[i] == a || s[i] == b {
        i
    } else {
        first_of_from(s, a, b, i + 1)
    }
}

/// `s` without one leading sign.
pub open spec fn unsigned_part(s: Seq<char>) -> Seq<char> {
    if s.len() > 0 && (s[0] == '+' || s[0] == '-') {
        s.drop_first()
    } else {
        s
    }
}

/// Digits with at most one `.`, and a digit on at least one side of it.
pub open spec fn mantissa_text(m: Seq<char>) -> bool {
    let d = first_of_from(m, '.', '.', 0);
    if d == m.len() {
        m.len() > 0 && all_digits(m)
    } else {
        all_digits(m.take(d)) && all_digits(m.skip(d + 1)) && (d > 0 || m.len() > d + 1)
    }
}

/// An optional sign, then one digit or more.
pub open spec fn exponent_text(x: Seq<char>) -> bool {
    unsigned_part(x).len() > 0 && all_digits(unsigned_part(x))
}

/// A mantissa, then optionally `e` and an exponent.
pub open spec fn number_text(b: Seq<char>) -> bool {
    let e = first_of_from(b, 'e', 'E', 0);
    mantissa_text(b.take(e)) && (e == b.len() || exponent_text(b.skip(e + 1)))
}

/// Whether `s` is, ignoring ASCII case, an optional sign followed by `inf`,
/// `infinity`, `nan` or a decimal number with an optional exponent: the
/// texts that `f64`'s `FromStr` accepts.
pub open spec fn float_text(s: Seq<char>) -> bool {
    let b = unsigned_part(s);
    ||| word_matches(b, seq!['i', 'n', 'f'])
    ||| word_matches(b, seq!['i', 'n', 'f', 'i', 'n', 'i', 't', 'y'])
    ||| word_matches(b, seq!['n', 'a', 'n'])
    ||| number_text(b)
}

/// A longer run of digits is worth at least as much as its prefixes.
pub proof fn lemma_digits_prefix(s: Seq<char>, k: int)
    requires
        0 <= k <= s.len(),
    ensures
        digits_value(s.take(k)) <= digits_value(s),
    decreases s.len(),
{
    if k < s.len() {
        assert(s.drop_last().take(k) =~= s.take(k));
        lemma_digits_prefix(s.drop_last(), k);
    } else {
        assert(s.take(k) =~= s);
    }
}

/// The value of the digits of `s` from `from` to the end, when they are one
/// digit or more and the value fits in a `usize`.
pub fn parse_digits(s: &Vec<char>, from: usize) -> (r: Option<usize>)
    requires
        from <= s.len(),
    ensures
        ({
            let body = s@.skip(from as int);
            match r {
                Some(v) => body.len() > 0 && all_digits(body) && digits_value(body) == v,
                None => !(body.len() > 0 && all_digits(body)) || digits_value(body) > usize::MAX,
            }
        }),
{
    let ghost body = s@.skip(from as int);
    if from == s.len() {
        return None;
    }
    let mut acc: usize = 0;
    let mut i: usize = from;
    while i < s.len()
        invariant
            from <= i <= s.len(),
            body == s@.skip(from as int),
            all_digits(s@.subrange(from as int, i as int)),
            acc == digits_value(s@.subrange(from as int, i as int)),
        decreases s.len() - i,
    {
        let c = s[i];
        let u = c as u32;
        if u < 0x30 || u > 0x39 {
            assert(body[i - from] == c);
            return None;
        }
        let d = (u - 0x30) as usize;
        assert(s@.subrange(from as int, i + 1).drop_last() =~= s@.subrange(from as int, i as int));
        assert(all_digits(s@.subrange(from as int, i + 1)));
        match acc.checked_mul(10) {
            Some(m) => match m.checked_add(d) {
                Some(n) => {
                    acc = n;
                },
                None => {
                    proof {
                        if all_digits(body) {
                            assert(s@.subrange(from as int, i + 1) =~= body.take(i + 1 - from));
                            lemma_digits_prefix(body, i + 1 - from);
                        }
                    }
                    return None;
                },
            },
            None => {
                proof {
                    if all_digits(body) {
                        assert(s@.subrange(from as int, i + 1) =~= body.take(i + 1 - from));
                        lemma_digits_prefix(body, i + 1 - from);
                    }
                }
                return None;
            },
        }
        i += 1;
    }
    assert(s@.subrange(from as int, s.len() as int) =~= body);
    Some(acc)
}

/// The `usize` that the whole of `s` spells as an unsigned decimal, as
/// `str::parse::<usize>` reads it: `None` when the text is not one, or when
/// the value does not fit.
pub fn parse_usize(s: &Vec<char>) -> (r: Option<usize>)
    ensures
        match r {
            Some(v) => unsigned_text(s@) == Some(v as nat),
            None => unsigned_text(s@) is None || unsigned_text(s@)->0 > usize::MAX,
        },
{
    let from: usize = if s.len() > 0 && s[0] == '+' {
        1
    } else {
        0
    };
    proof {
        if from == 1 {
            assert(s@.skip(1) =~= s@.drop_first());
        } else {
            assert(s@.skip(0) =~= s@);
        }
    }
    parse_digits(s, from)
}

/// The `isize` that the whole of `s` spells as a signed decimal, as
/// `str::parse::<isize>` reads it: `None` when the text is not one, or when
/// the value does not fit.
pub fn parse_isize(s: &Vec<char>) -> (r: Option<isize>)
    ensures
        match r {
            Some(v) => signed_text(s@) == Some(v as int),
            None => signed_text(s@) is None || !(isize::MIN <= signed_text(s@)->0 <= isize::MAX),
        },
{
    if s.len() > 0 && s[0] == '-' {
        assert(s@.skip(1) =~= s@.drop_first());
        match parse_digits(s, 1) {
            Some(m) => {
                let top: usize = isize::MAX as usize;
                if m <= top {
                    let v = m as isize;
                    Some(-v)
                } else if m - top == 1 {
                    Some(isize::MIN)
                } else {
                    None
                }
            },
            None => None,
        }
    } else {
        match parse_usize(s) {
            Some(u) => {
                if u <= isize::MAX as usize {
                    Some(u as isize)
                } else {
                    None
                }
            },
            None => None,
        }
    }
}

/// The first position at or after `i` holding `a` or `b`, or the length.
pub fn first_of(s: &Vec<char>, a: char, b: char, i: usize) -> (r: usize)
    requires
        i <= s.len(),
    ensures
        r as int == first_of_from(s@, a, b, i as int),
        i <= r <= s.len(),
{
    let mut k = i;
    while k < s.len()
        invariant
            i <= k <= s.len(),
            first_of_from(s@, a, b, i as int) == first_of_from(s@, a, b, k as int),
        decreases s.len() - k,
    {
        if s[k] == a || s[k] == b {
            return k;
        }
        k += 1;
    }
    k
}

/// Whether every character of `s` from `lo` to `hi` is a digit.
pub fn digits_between(s: &Vec<char>, lo: usize, hi: usize) -> (r: bool)
    requires
        lo <= hi <= s.len(),
    ensures
        r == all_digits(s@.subrange(lo as int, hi as int)),
{
    let mut k = lo;
    while k < hi
        invariant
            lo <= k <= hi <= s.len(),
            all_digits(s@.subrange(lo as int, k as int)),
        decreases hi - k,
    {
        let u = s[k] as u32;
        if u < 0x30 || u > 0x39 {
            assert(s@.subrange(lo as int, hi as int)[k - lo] == s@[k as int]);
            return false;
        }
        assert(all_digits(s@.subrange(lo as int, k + 1)));
        k += 1;
    }
    true
}

/// Whether `s` spells the lower-case word `w`, ignoring ASCII case.
pub fn word_matches_exec(s: &Vec<char>, w: &Vec<char>) -> (r: bool)
    ensures
        r == word_matches(s@, w@),
{
    if s.len() != w.len() {
        return false;
    }
    let mut k: usize = 0;
    while k < s.len()
        invariant
            k <= s.len() == w.len(),
            forall|j: int| 0 <= j < k ==> letter_matches(#[trigger] s@[j], w@[j]),
        decreases s.len() - k,
    {
        let c = s[k] as u32;
        let l = w[k] as u32;
        if !(c == l || (0x41 <= c && c <= 0x5a && c + 32 == l)) {
            assert(!letter_matches(s@[k as int], w@[k as int]));
            return false;
        }
        assert(letter_matches(s@[k as int], w@[k as int]));
        k += 1;
    }
    true
}

/// Whether `m` is a mantissa: digits with at most one `.`, and a digit on at
/// least one side of it.
fn mantissa_ok(m: &Vec<char>) -> (r: bool)
    ensures
        r == mantissa_text(m@),
{
    let d = first_of(m, '.', '.', 0);
    if d == m.len() {
        assert(m@.subrange(0, m.len() as int) =~= m@);
        m.len() > 0 && digits_between(m, 0, m.len())
    } else {
        assert(m@.subrange(0, d as int) =~= m@.take(d as int));
        assert(m@.subrange(d + 1, m.len() as int) =~= m@.skip(d + 1));
        digits_between(m, 0, d) && digits_between(m, d + 1, m.len()) && (d > 0 || m.len() > d + 1)
    }
}

/// Whether `x` is an exponent: an optional sign, then one digit or more.
fn exponent_ok(x: &Vec<char>) -> (r: bool)
    ensures
        r == exponent_text(x@),
{
    let from: usize = if x.len() > 0 && (x[0] == '+' || x[0] == '-') {
        1
    } else {
        0
    };
    assert(x@.subrange(from as int, x.len() as int) =~= unsigned_part(x@));
    x.len() > from && digits_between(x, from, x.len())
}

/// Whether `s` is a floating-point text in the syntax that `f64`'s `FromStr`
/// accepts.
pub fn is_float_text(s: &Vec<char>) -> (r: bool)
    ensures
        r == float_text(s@),
{
    let from: usize = if s.len() > 0 && (s[0] == '+' || s[0] == '-') {
        1
    } else {
        0
    };
    let b = slice_chars(s, from, s.len());
    assert(b@ =~= unsigned_part(s@));
    if word_matches_exec(&b, &vec!['i', 'n', 'f']) || word_matches_exec(
        &b,
        &vec!['i', 'n', 'f', 'i', 'n', 'i', 't', 'y'],
    ) || word_matches_exec(&b, &vec!['n', 'a', 'n']) {
        return true;
    }
    let e = first_of(&b, 'e', 'E', 0);
    let m = slice_chars(&b, 0, e);
    assert(m@ =~= b@.take(e as int));
    if !mantissa_ok(&m) {
        return false;
    }
    if e == b.len() {
        return true;
    }
    let x = slice_chars(&b, e + 1, b.len());
    assert(x@ =~= b@.skip(e + 1));
    exponent_ok(&x)
}

} // verus!
