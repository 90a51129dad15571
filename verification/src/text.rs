//! Character-level text utilities: conversion between `str` and `Vec<char>`,
//! substring search, ASCII lower-casing, and decimal formatting and parsing.

use vstd::prelude::*;
use vstd::string::StrSliceExecFns;

verus! {

/// Relies on `String::push`: appends exactly one character to the string.
#[verifier::external_body]
pub fn push_char(s: &mut String, c: char)
    ensures
        final(s)@ == old(s)@.push(c),
{
    s.push(c);
}

/// Collect the characters of a string slice into a vector.
pub fn str_to_chars(s: &str) -> (r: Vec<char>)
    ensures
        r@ == s@,
{
    let n: usize = s.unicode_len();
    let mut r: Vec<char> = Vec::new();
    let mut i: usize = 0;
    while i < n
        invariant
            i <= n,
            n == s@.len(),
            r@ == s@.subrange(0, i as int),
        decreases n - i,
    {
        r.push(s.get_char(i));
        i = i + 1;
        proof {
            assert(r@ =~= s@.subrange(0, i as int));
        }
    }
    proof {
        assert(r@ =~= s@);
    }
    r
}

/// Build a `String` from a vector of characters.
pub fn chars_to_string(v: &Vec<char>) -> (r: String)
    ensures
        r@ == v@,
{
    let mut r = String::new();
    let mut i: usize = 0;
    while i < v.len()
        invariant
            i <= v@.len(),
            r@ == v@.subrange(0, i as int),
        decreases v@.len() - i,
    {
        push_char(&mut r, v[i]);
        i = i + 1;
        proof {
            assert(r@ =~= v@.subrange(0, i as int));
        }
    }
    proof {
        assert(r@ =~= v@);
    }
    r
}

/// The pattern `p` occurs in `s` at position `i`.
pub open spec fn matches_at(s: Seq<char>, p: Seq<char>, i: int) -> bool {
    0 <= i && i + p.len() <= s.len() && s.subrange(i, i + p.len() as int) == p
}

/// The pattern `p` occurs somewhere in `s`.
pub open spec fn has_substring(s: Seq<char>, p: Seq<char>) -> bool {
    exists|i: int| matches_at(s, p, i)
}

/// Whether the characters of `p` occur contiguously in `s`.
pub fn contains_chars(s: &Vec<char>, p: &Vec<char>) -> (r: bool)
    ensures
        r == has_substring(s@, p@),
{
    let n: usize = s.len();
    let m: usize = p.len();
    if m > n {
        proof {
            assert(forall|i: int| !matches_at(s@, p@, i));
        }
        return false;
    }
    let mut i: usize = 0;
    while i <= n - m
        invariant
            m <= n,
            n == s@.len(),
            m == p@.len(),
            i <= n - m + 1,
            forall|k: int| 0 <= k < i ==> !matches_at(s@, p@, k),
        decreases n - m + 1 - i,
    {
        let mut j: usize = 0;
        let mut all_eq: bool = true;
        while j < m
            invariant
                i + m <= n,
                n == s@.len(),
                m == p@.len(),
                j <= m,
                all_eq == (s@.subrange(i as int, i + j as int) =~= p@.subrange(0, j as int)),
            decreases m - j,
        {
            let se: char = s[i + j];
            let pe: char = p[j];
            proof {
                assert(s@.subrange(i as int, i + j + 1 as int).drop_last()
                    =~= s@.subrange(i as int, i + j as int));
                assert(p@.subrange(0, j + 1 as int).drop_last() =~= p@.subrange(0, j as int));
            }
            if se != pe {
                proof {
                    assert(s@.subrange(i as int, i + j + 1 as int).last() == se);
                    assert(p@.subrange(0, j + 1 as int).last() == pe);
                }
                all_eq = false;
            } else {
                proof {
                    if all_eq {
                        assert(s@.subrange(i as int, i + j + 1 as int)
                            =~= p@.subrange(0, j + 1 as int));
                    } else {
                        assert(s@.subrange(i as int, i + j as int) != p@.subrange(0, j as int));
                        assert(s@.subrange(i as int, i + j + 1 as int).drop_last()
                            != p@.subrange(0, j + 1 as int).drop_last());
                    }
                }
            }
            j = j + 1;
        }
        if all_eq {
            proof {
                assert(p@.subrange(0, m as int) =~= p@);
                assert(matches_at(s@, p@, i as int));
            }
            return true;
        }
        proof {
            assert(p@.subrange(0, m as int) =~= p@);
            assert(!matches_at(s@, p@, i as int));
        }
        i = i + 1;
    }
    proof {
        assert(forall|k: int| matches_at(s@, p@, k) ==> 0 <= k <= n - m);
        assert(forall|k: int| 0 <= k < i ==> !matches_at(s@, p@, k));
    }
    false
}

/// ASCII lower-casing of one character; other characters are unchanged.
pub open spec fn lower_char(c: char) -> char {
    if 'A' <= c && c <= 'Z' {
        ((c as u8) + 0x20) as char
    } else {
        c
    }
}

/// ASCII lower-casing of a character sequence.
pub open spec fn lower_chars(s: Seq<char>) -> Seq<char> {
    s.map_values(|c: char| lower_char(c))
}

/// Lower-case the ASCII letters of `s`.
pub fn to_ascii_lower(s: &Vec<char>) -> (r: Vec<char>)
    ensures
        r@ == lower_chars(s@),
{
    let mut r: Vec<char> = Vec::new();
    let mut i: usize = 0;
    while i < s.len()
        invariant
            i <= s@.len(),
            r@ == lower_chars(s@.subrange(0, i as int)),
        decreases s@.len() - i,
    {
        let c: char = s[i];
        if 'A' <= c && c <= 'Z' {
            let b: u8 = c as u8;
            r.push((b + 0x20) as char);
        } else {
            r.push(c);
        }
        i = i + 1;
        proof {
            assert(lower_chars(s@.subrange(0, i as int))
                =~= lower_chars(s@.subrange(0, i - 1)).push(lower_char(s@[i - 1])));
        }
    }
    proof {
        assert(s@.subrange(0, s@.len() as int) =~= s@);
    }
    r
}

/// An ASCII decimal digit.
pub open spec fn is_digit(c: char) -> bool {
    '0' <= c && c <= '9'
}

/// Numeric value of an ASCII decimal digit.
pub open spec fn digit_val(c: char) -> int {
    c as int - '0' as int
}

/// The digit character for a value below ten.
pub open spec fn digit_char(d: int) -> char {
    (d + '0' as int) as char
}

/// Decimal digit sequence of a natural number, most significant first.
pub open spec fn dec_digits(n: nat) -> Seq<char>
    decreases n,
{
    if n < 10 {
        seq![digit_char(n as int)]
    } else {
        dec_digits(n / 10).push(digit_char((n % 10) as int))
    }
}

/// Format `n` in decimal.
pub fn u32_to_chars(n: u32) -> (r: Vec<char>)
    ensures
        r@ == dec_digits(n as nat),
    decreases n,
{
    if n < 10 {
        let mut r: Vec<char> = Vec::new();
        let d: u8 = (n as u8) + 0x30;
        r.push(d as char);
        proof {
            assert(r@ =~= dec_digits(n as nat));
        }
        r
    } else {
        let mut r = u32_to_chars(n / 10);
        let d: u8 = ((n % 10) as u8) + 0x30;
        r.push(d as char);
        proof {
            assert(r@ =~= dec_digits((n / 10) as nat).push(digit_char((n % 10) as int)));
        }
        r
    }
}

/// Decimal digit sequence of an integer, with a leading minus sign when negative.
pub open spec fn dec_digits_signed(n: int) -> Seq<char> {
    if n < 0 {
        seq!['-'] + dec_digits((-n) as nat)
    } else {
        dec_digits(n as nat)
    }
}

/// Format `n` in decimal, with a minus sign when negative.
pub fn i32_to_chars(n: i32) -> (r: Vec<char>)
    ensures
        r@ == dec_digits_signed(n as int),
{
    if n >= 0 {
        let r = u32_to_chars(n as u32);
        proof {
            assert(r@ =~= dec_digits_signed(n as int));
        }
        r
    } else {
        let mag: u32 = if n == i32::MIN {
            0x8000_0000u32
        } else {
            (-n) as u32
        };
        let digits = u32_to_chars(mag);
        let mut r: Vec<char> = Vec::new();
        r.push('-');
        let mut i: usize = 0;
        while i < digits.len()
            invariant
                i <= digits@.len(),
                r@ == seq!['-'] + digits@.subrange(0, i as int),
            decreases digits@.len() - i,
        {
            r.push(digits[i]);
            i = i + 1;
            proof {
                assert(r@ =~= seq!['-'] + digits@.subrange(0, i as int));
            }
        }
        proof {
            assert(digits@.subrange(0, digits@.len() as int) =~= digits@);
            assert(r@ =~= dec_digits_signed(n as int));
        }
        r
    }
}

/// Value of a digit sequence read in decimal.
pub open spec fn dec_value(s: Seq<char>) -> int
    decreases s.len(),
{
    if s.len() == 0 {
        0
    } else {
        dec_value(s.drop_last()) * 10 + digit_val(s.last())
    }
}

/// All characters are ASCII decimal digits.
pub open spec fn all_digits(s: Seq<char>) -> bool {
    forall|i: int| 0 <= i < s.len() ==> is_digit(#[trigger] s[i])
}

/// What `u32::from_str` accepts: an optional leading `+`, then one or more
/// decimal digits, whose value fits the type.
pub open spec fn parse_u32_spec(s: Seq<char>) -> Option<u32> {
    let body = if s.len() > 0 && s[0] == '+' {
        s.drop_first()
    } else {
        s
    };
    if body.len() > 0 && all_digits(body) && dec_value(body) <= u32::MAX as int {
        Some(dec_value(body) as u32)
    } else {
        None
    }
}

/// What `i32::from_str` accepts: an optional leading sign, then one or more
/// decimal digits, whose signed value fits the type.
pub open spec fn parse_i32_spec(s: Seq<char>) -> Option<i32> {
    let neg = s.len() > 0 && s[0] == '-';
    let body = if s.len() > 0 && (s[0] == '+' || s[0] == '-') {
        s.drop_first()
    } else {
        s
    };
    if body.len() > 0 && all_digits(body) {
        let v = if neg {
            -dec_value(body)
        } else {
            dec_value(body)
        };
        if i32::MIN as int <= v <= i32::MAX as int {
            Some(v as i32)
        } else {
            None
        }
    } else {
        None
    }
}

/// Value of a nonempty all-digit sequence, or `None` when a character is not a
/// digit or the value does not fit in `u64`.
fn parse_digits_u64(s: &Vec<char>, from: usize) -> (r: Option<u64>)
    requires
        from <= s@.len(),
    ensures
        match r {
            Some(v) => {
                &&& s@.len() - from > 0
                &&& all_digits(s@.skip(from as int))
                &&& v as int == dec_value(s@.skip(from as int))
            },
            None => {
                let body = s@.skip(from as int);
                body.len() == 0 || !all_digits(body) || dec_value(body) > u64::MAX as int
            },
        },
{
    if from >= s.len() {
        proof {
            assert(s@.skip(from as int).len() == 0);
        }
        return None;
    }
    let mut acc: u64 = 0;
    let mut i: usize = from;
    while i < s.len()
        invariant
            from <= i <= s@.len(),
            all_digits(s@.subrange(from as int, i as int)),
            acc as int == dec_value(s@.subrange(from as int, i as int)),
        decreases s@.len() - i,
    {
        let c: char = s[i];
        if !('0' <= c && c <= '9') {
            proof {
                lemma_not_all_digits(s@.skip(from as int), i - from);
            }
            return None;
        }
        let d: u64 = (c as u64) - 0x30;
        if acc > (u64::MAX - d) / 10 {
            proof {
                assert(acc * 10 + d > u64::MAX) by (nonlinear_arith)
                    requires
                        acc > (u64::MAX - d) / 10,
                        d < 10,
                ;
                let body = s@.skip(from as int);
                if all_digits(body) {
                    lemma_dec_value_prefix_overflow(body, i - from);
                    assert(body.subrange(0, i - from + 1)
                        =~= s@.subrange(from as int, i + 1));
                    assert(s@.subrange(from as int, i + 1).drop_last()
                        =~= s@.subrange(from as int, i as int));
                    assert(s@.subrange(from as int, i + 1).last() == c);
                    assert(digit_val(c) == d);
                    assert(dec_value(s@.subrange(from as int, i + 1)) == acc * 10 + d);
                }
            }
            return None;
        }
        proof {
            assert(acc * 10 + d <= u64::MAX) by (nonlinear_arith)
                requires
                    acc <= (u64::MAX - d) / 10,
                    d < 10,
            ;
        }
        acc = acc * 10 + d;
        i = i + 1;
        proof {
            assert(s@.subrange(from as int, i as int).drop_last()
                =~= s@.subrange(from as int, i - 1));
            assert(s@.subrange(from as int, i as int).last() == s@[i - 1]);
        }
    }
    proof {
        assert(s@.subrange(from as int, s@.len() as int) =~= s@.skip(from as int));
    }
    Some(acc)
}

/// A sequence with a non-digit at some position is not all digits.
proof fn lemma_not_all_digits(s: Seq<char>, k: int)
    requires
        0 <= k < s.len(),
        !is_digit(s[k]),
    ensures
        !all_digits(s),
{
}

/// Appending digits never decreases a decimal value: the whole sequence is
/// worth at least any of its prefixes.
proof fn lemma_dec_value_prefix_overflow(s: Seq<char>, k: int)
    requires
        0 <= k < s.len(),
        all_digits(s),
    ensures
        dec_value(s) >= dec_value(s.subrange(0, k + 1)),
    decreases s.len() - k,
{
    if k + 1 == s.len() {
        assert(s.subrange(0, k + 1) =~= s);
    } else {
        lemma_dec_value_prefix_overflow(s, k + 1);
        assert(s.subrange(0, k + 2).drop_last() =~= s.subrange(0, k + 1));
        assert(dec_value(s.subrange(0, k + 2))
            == dec_value(s.subrange(0, k + 1)) * 10 + digit_val(s[k + 1]));
        assert(dec_value(s.subrange(0, k + 1)) >= 0) by {
            lemma_dec_value_nonneg(s.subrange(0, k + 1));
        }
        assert(dec_value(s.subrange(0, k + 1)) * 10
            >= dec_value(s.subrange(0, k + 1))) by (nonlinear_arith)
            requires
                dec_value(s.subrange(0, k + 1)) >= 0,
        ;
        assert(digit_val(s[k + 1]) >= 0);
    }
}

/// The decimal value of an all-digit sequence is never negative.
proof fn lemma_dec_value_nonneg(s: Seq<char>)
    requires
        all_digits(s),
    ensures
        dec_value(s) >= 0,
    decreases s.len(),
{
    if s.len() > 0 {
        lemma_dec_value_nonneg(s.drop_last());
        assert(dec_value(s.drop_last()) * 10 >= 0) by (nonlinear_arith)
            requires
                dec_value(s.drop_last()) >= 0,
        ;
    }
}

/// Parse `s` as `u32::from_str` does.
pub fn parse_u32(s: &Vec<char>) -> (r: Option<u32>)
    ensures
        r == parse_u32_spec(s@),
{
    let from: usize = if s.len() > 0 && s[0] == '+' {
        1
    } else {
        0
    };
    proof {
        if from == 1 {
            assert(s@.skip(1) =~= s@.drop_first());
        } else {
            assert(s@.skip(0) =~= s@);
        }
    }
    match parse_digits_u64(s, from) {
        Some(v) => {
            if v <= 0xFFFF_FFFFu64 {
                Some(v as u32)
            } else {
                None
            }
        },
        None => {
            proof {
                let body = if s@.len() > 0 && s@[0] == '+' {
                    s@.drop_first()
                } else {
                    s@
                };
                if body.len() > 0 && all_digits(body) {
                    lemma_dec_value_nonneg(body);
                }
            }
            None
        },
    }
}

/// Parse `s` as `i32::from_str` does.
pub fn parse_i32(s: &Vec<char>) -> (r: Option<i32>)
    ensures
        r == parse_i32_spec(s@),
{
    let neg: bool = s.len() > 0 && s[0] == '-';
    let from: usize = if s.len() > 0 && (s[0] == '+' || s[0] == '-') {
        1
    } else {
        0
    };
    proof {
        if from == 1 {
            assert(s@.skip(1) =~= s@.drop_first());
        } else {
            assert(s@.skip(0) =~= s@);
        }
    }
    match parse_digits_u64(s, from) {
        Some(v) => {
            if neg {
                if v <= 0x8000_0000u64 {
                    proof {
                        assert(-(v as int) >= i32::MIN as int);
                    }
                    if v == 0x8000_0000u64 {
                        Some(i32::MIN)
                    } else {
                        Some(-(v as i32))
                    }
                } else {
                    None
                }
            } else {
                if v <= 0x7FFF_FFFFu64 {
                    Some(v as i32)
                } else {
                    None
                }
            }
        },
        None => {
            proof {
                let body = if s@.len() > 0 && (s@[0] == '+' || s@[0] == '-') {
                    s@.drop_first()
                } else {
                    s@
                };
                if body.len() > 0 && all_digits(body) {
                    lemma_dec_value_nonneg(body);
                }
            }
            None
        },
    }
}

} // verus!
