//! Percent-encoding of text: every character outside the unreserved set is
//! written as `%` and two upper-case hexadecimal digits of its low byte.
use vstd::prelude::*;
use vstd::string::StringExecFns;
use crate::text::{chars_of, push_char};

verus! {

/// The characters written as they are: letters, digits, `-`, `_`, `.`, `~`.
pub open spec fn is_unreserved(c: char) -> bool {
    let u = c as u32;
    ||| (0x41 <= u <= 0x5a)
    ||| (0x61 <= u <= 0x7a)
    ||| (0x30 <= u <= 0x39)
    ||| c == '-'
    ||| c == '_'
    ||| c == '.'
    ||| c == '~'
}

/// The upper-case hexadecimal digit of `n`, for `n` below 16.
pub open spec fn hex_digit(n: int) -> char {
    seq!['0', '1', '2', '3', '4', '5', '6', '7', '8', '9', 'A', 'B', 'C', 'D', 'E', 'F'][n]
}

/// The encoding of one character.
pub open spec fn encode_char(c: char) -> Seq<char> {
    if is_unreserved(c) {
        seq![c]
    } else {
        let b = (c as u32) % 256;
        seq!['%', hex_digit(b as int / 16), hex_digit(b as int % 16)]
    }
}

/// The encoding of a text.
pub open spec fn encode(s: Seq<char>) -> Seq<char>
    decreases s.len(),
{
    if s.len() == 0 {
        Seq::empty()
    } else {
        encode_char(s[0]) + encode(s.drop_first())
    }
}

/// Whether `c` is a hexadecimal digit, in either case.
pub open spec fn is_hex(c: char) -> bool {
    let u = c as u32;
    (0x30 <= u <= 0x39) || (0x41 <= u <= 0x46) || (0x61 <= u <= 0x66)
}

/// The value of a hexadecimal digit.
pub open spec fn hex_value(c: char) -> int {
    let u = c as u32;
    if 0x30 <= u <= 0x39 {
        u - 0x30
    } else if 0x41 <= u <= 0x46 {
        u - 0x41 + 10
    } else {
        u - 0x61 + 10
    }
}

/// The number of bytes of the UTF-8 encoding of `c`.
pub open spec fn utf8_len(c: char) -> int {
    let u = c as u32;
    if u < 0x80 {
        1
    } else if u < 0x800 {
        2
    } else if u < 0x10000 {
        3
    } else {
        4
    }
}

/// The number of bytes of the UTF-8 encoding of `t`, for at most two
/// characters.
pub open spec fn utf8_len2(t: Seq<char>) -> int {
    if t.len() == 0 {
        0
    } else if t.len() == 1 {
        utf8_len(t[0])
    } else {
        utf8_len(t[0]) + utf8_len(t[1])
    }
}

/// Whether two characters are a byte in base 16 as `u8::from_str_radix`
/// reads it: two hexadecimal digits, or `+` and one.
pub open spec fn hex_pair_ok(t: Seq<char>) -> bool {
    t.len() == 2 && is_hex(t[1]) && (is_hex(t[0]) || t[0] == '+')
}

/// The byte that two such characters stand for.
pub open spec fn hex_pair_value(t: Seq<char>) -> int {
    if t[0] == '+' {
        hex_value(t[1])
    } else {
        hex_value(t[0]) * 16 + hex_value(t[1])
    }
}

/// The message for a `%` followed by a malformed byte.
pub open spec fn invalid_message() -> Seq<char> {
    "Invalid percent-encoded sequence"@
}

/// The message for a `%` not followed by two bytes' worth of text.
pub open spec fn incomplete_message() -> Seq<char> {
    "Incomplete percent-encoded sequence"@
}

/// `r` with `p` put in front of its text, when it is one.
pub open spec fn prefixed(p: Seq<char>, r: Result<Seq<char>, Seq<char>>) -> Result<
    Seq<char>,
    Seq<char>,
> {
    match r {
        Ok(x) => Ok(p + x),
        Err(e) => Err(e),
    }
}

/// The decoding of a text. After a `%`, the next two characters (or fewer at
/// the end) are taken; unless they make two bytes of UTF-8 the sequence is
/// incomplete, and unless they are a byte in base 16 it is invalid. The byte
/// decodes to the character with that code.
pub open spec fn decode(s: Seq<char>) -> Result<Seq<char>, Seq<char>>
    decreases s.len(),
{
    if s.len() == 0 {
        Ok(Seq::empty())
    } else if s[0] != '%' {
        prefixed(seq![s[0]], decode(s.drop_first()))
    } else {
        let t = s.subrange(1, if s.len() >= 3 {
            3
        } else {
            s.len() as int
        });
        if utf8_len2(t) != 2 {
            Err(incomplete_message())
        } else if hex_pair_ok(t) {
            prefixed(seq![(hex_pair_value(t) as u8) as char], decode(s.skip(3)))
        } else {
            Err(invalid_message())
        }
    }
}

/// Whether every character of `s` has a code below 256.
pub open spec fn all_byte_chars(s: Seq<char>) -> bool {
    forall|i: int| 0 <= i < s.len() ==> (#[trigger] s[i] as u32) < 256
}

/// Characters with the same code are the same.
proof fn lemma_same_code(c: char, d: char)
    requires
        c as u32 == d as u32,
    ensures
        c == d,
{
}

/// A digit written by the encoder reads back as its value.
proof fn lemma_hex_digit(n: int)
    requires
        0 <= n < 16,
    ensures
        is_hex(hex_digit(n)),
        hex_value(hex_digit(n)) == n,
        hex_digit(n) != '+',
        (hex_digit(n) as u32) < 0x80,
{
    let d = seq!['0', '1', '2', '3', '4', '5', '6', '7', '8', '9', 'A', 'B', 'C', 'D', 'E', 'F'];
    assert(d[0] == '0' && d[1] == '1' && d[2] == '2' && d[3] == '3' && d[4] == '4' && d[5] == '5');
    assert(d[6] == '6' && d[7] == '7' && d[8] == '8' && d[9] == '9' && d[10] == 'A');
    assert(d[11] == 'B' && d[12] == 'C' && d[13] == 'D' && d[14] == 'E' && d[15] == 'F');
}

/// Decoding the encoding of a text whose characters all have codes below
/// 256 gives the text back.
pub proof fn lemma_url_round_trip(s: Seq<char>)
    requires
        all_byte_chars(s),
    ensures
        decode(encode(s)) == Ok::<Seq<char>, Seq<char>>(s),
    decreases s.len(),
{
    if s.len() == 0 {
        assert(encode(s) =~= Seq::<char>::empty());
        assert(s =~= Seq::<char>::empty());
    } else {
        let c = s[0];
        let rest = s.drop_first();
        assert(all_byte_chars(rest)) by {
            assert forall|i: int| 0 <= i < rest.len() implies (#[trigger] rest[i] as u32) < 256 by {
                assert(rest[i] == s[i + 1]);
            };
        };
        lemma_url_round_trip(rest);
        let e = encode(s);
        assert(e == encode_char(c) + encode(rest));
        if is_unreserved(c) {
            assert(e[0] == c);
            assert(e.drop_first() =~= encode(rest));
            assert(c != '%');
            assert(decode(e) == prefixed(seq![c], decode(encode(rest))));
            assert(seq![c] + rest =~= s);
        } else {
            let b = (c as u32) % 256;
            assert(b == c as u32);
            let hi = b as int / 16;
            let lo = b as int % 16;
            lemma_hex_digit(hi);
            lemma_hex_digit(lo);
            let t = e.subrange(1, 3);
            assert(t =~= seq![hex_digit(hi), hex_digit(lo)]);
            assert(utf8_len2(t) == 2);
            assert(hex_pair_ok(t));
            assert(hex_pair_value(t) == b);
            let d = (hex_pair_value(t) as u8) as char;
            assert(d as u32 == c as u32);
            lemma_same_code(d, c);
            assert(e[0] == '%');
            assert(e.len() >= 3);
            assert(e.subrange(1, if e.len() >= 3 { 3 } else { e.len() as int }) == t);
            assert(e.skip(3) =~= encode(rest));
            assert(decode(e) == prefixed(seq![d], decode(encode(rest))));
            assert(seq![c] + rest =~= s);
        }
    }
}

/// Percent-encoding and decoding.
pub struct UrlEncoding;

/// The upper-case hexadecimal digit of `n`.
fn hex_char(n: u32) -> (r: char)
    requires
        n < 16,
    ensures
        r == hex_digit(n as int),
{
    let digits = vec!['0', '1', '2', '3', '4', '5', '6', '7', '8', '9', 'A', 'B', 'C', 'D', 'E', 'F'];
    assert(digits@ =~= seq![
        '0', '1', '2', '3', '4', '5', '6', '7', '8', '9', 'A', 'B', 'C', 'D', 'E', 'F',
    ]);
    digits[n as usize]
}

/// The value of a hexadecimal digit, if `c` is one.
fn hex_of(c: char) -> (r: Option<u32>)
    ensures
        r matches Some(v) ==> is_hex(c) && v == hex_value(c),
        r is None ==> !is_hex(c),
{
    let u = c as u32;
    if 0x30 <= u && u <= 0x39 {
        Some(u - 0x30)
    } else if 0x41 <= u && u <= 0x46 {
        Some(u - 0x41 + 10)
    } else if 0x61 <= u && u <= 0x66 {
        Some(u - 0x61 + 10)
    } else {
        None
    }
}

/// The number of bytes of the UTF-8 encoding of `c`.
fn utf8_len_of(c: char) -> (r: usize)
    ensures
        r == utf8_len(c),
{
    let u = c as u32;
    if u < 0x80 {
        1
    } else if u < 0x800 {
        2
    } else if u < 0x10000 {
        3
    } else {
        4
    }
}

impl UrlEncoding {
    /// `input` with every character outside the unreserved set written as
    /// `%` and the two upper-case hexadecimal digits of its low byte.
    pub fn url_encode(input: String) -> (r: String)
        ensures
            r@ == encode(input@),
    {
        let chars = chars_of(input.as_str());
        let mut encoded = String::new();
        let mut pieces: Vec<char> = Vec::new();
        let mut k: usize = 0;
        assert(input@.skip(0) =~= input@);
        assert(pieces@ + encode(input@) =~= encode(input@));
        while k < chars.len()
            invariant
                k <= chars.len(),
                encode(input@) == pieces@ + encode(input@.skip(k as int)),
                chars@ == input@,
            decreases chars.len() - k,
        {
            let ch = chars[k];
            assert(input@.skip(k as int).drop_first() =~= input@.skip(k + 1));
            assert(input@.skip(k as int)[0] == ch);
            let ghost before = pieces@;
            let u = ch as u32;
            if (0x41 <= u && u <= 0x5a) || (0x61 <= u && u <= 0x7a) || (0x30 <= u && u <= 0x39)
                || ch == '-' || ch == '_' || ch == '.' || ch == '~' {
                pieces.push(ch);
            } else {
                let b = u % 256;
                pieces.push('%');
                pieces.push(hex_char(b / 16));
                pieces.push(hex_char(b % 16));
            }
            assert(pieces@ =~= before + encode_char(ch));
            k += 1;
        }
        assert(input@.skip(chars.len() as int) =~= Seq::<char>::empty());
        assert(pieces@ =~= encode(input@));
        let mut j: usize = 0;
        while j < pieces.len()
            invariant
                j <= pieces.len(),
                encoded@ == pieces@.take(j as int),
            decreases pieces.len() - j,
        {
            push_char(&mut encoded, pieces[j]);
            assert(pieces@.take(j + 1) =~= pieces@.take(j as int).push(pieces@[j as int]));
            j += 1;
        }
        assert(pieces@.take(pieces.len() as int) =~= pieces@);
        encoded
    }

    /// `input` with each `%` sequence replaced by the character whose code
    /// is its byte; an error when a sequence is incomplete or malformed.
    pub fn url_decode(input: String) -> (r: Result<String, String>)
        ensures
            match decode(input@) {
                Ok(x) => r matches Ok(y) && y@ == x,
                Err(e) => r matches Err(y) && y@ == e,
            },
    {
        let chars = chars_of(input.as_str());
        let mut decoded = String::new();
        let mut i: usize = 0;
        assert(input@.skip(0) =~= input@);
        proof {
            match decode(input@) {
                Ok(x) => {
                    assert(decoded@ + x =~= x);
                },
                Err(_) => {},
            }
        }
        while i < chars.len()
            invariant
                i <= chars.len(),
                chars@ == input@,
                decode(input@) == prefixed(decoded@, decode(input@.skip(i as int))),
            decreases chars.len() - i,
        {
            let ghost rest = input@.skip(i as int);
            let ch = chars[i];
            assert(rest[0] == ch);
            if ch != '%' {
                assert(rest.drop_first() =~= input@.skip(i + 1));
                let ghost before = decoded@;
                push_char(&mut decoded, ch);
                assert(before + seq![ch] =~= decoded@);
                proof {
                    match decode(input@.skip(i + 1)) {
                        Ok(x) => {
                            assert(before + (seq![ch] + x) =~= decoded@ + x);
                        },
                        Err(_) => {},
                    }
                }
                i += 1;
            } else {
                let end: usize = if chars.len() - i >= 3 {
                    i + 3
                } else {
                    chars.len()
                };
                let ghost t = rest.subrange(1, end - i);
                assert(t =~= chars@.subrange(i + 1, end as int));
                let bytes: usize = if end == i + 1 {
                    0
                } else if end == i + 2 {
                    utf8_len_of(chars[i + 1])
                } else {
                    utf8_len_of(chars[i + 1]) + utf8_len_of(chars[i + 2])
                };
                if bytes != 2 {
                    return Err(String::from_str("Incomplete percent-encoded sequence"));
                }
                if end - i != 3 {
                    return Err(String::from_str("Invalid percent-encoded sequence"));
                }
                let low = match hex_of(chars[i + 2]) {
                    Some(v) => v,
                    None => {
                        return Err(String::from_str("Invalid percent-encoded sequence"));
                    },
                };
                let value: u32 = if chars[i + 1] == '+' {
                    low
                } else {
                    match hex_of(chars[i + 1]) {
                        Some(high) => high * 16 + low,
                        None => {
                            return Err(String::from_str("Invalid percent-encoded sequence"));
                        },
                    }
                };
                assert(value == hex_pair_value(t));
                let byte = value as u8;
                assert(rest.skip(3) =~= input@.skip(i + 3));
                let ghost before = decoded@;
                let c = byte as char;
                push_char(&mut decoded, c);
                proof {
                    match decode(input@.skip(i + 3)) {
                        Ok(x) => {
                            assert(before + (seq![c] + x) =~= decoded@ + x);
                        },
                        Err(_) => {},
                    }
                }
                i += 3;
            }
        }
        assert(input@.skip(chars.len() as int) =~= Seq::<char>::empty());
        assert(decoded@ + Seq::<char>::empty() =~= decoded@);
        Ok(decoded)
    }
}

} // verus!
