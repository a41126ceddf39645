//! Small verified text parsers used by configuration assembly: decimal
//! numbers with an explicit bound, the two boolean literals, and
//! case-insensitive ASCII comparison.

use vstd::prelude::*;
use vstd::string::StrSliceExecFns;
use vstd::string::StringExecFns;

verus! {

/// Whether `c` is a decimal digit.
pub open spec fn is_dec_digit(c: char) -> bool {
    '0' <= c && c <= '9'
}

/// The value of a decimal digit.
pub open spec fn digit_val(c: char) -> nat {
    (c as int - '0' as int) as nat
}

/// Whether every character of `s` is a decimal digit.
pub open spec fn all_digits(s: Seq<char>) -> bool {
    forall|i: int| 0 <= i < s.len() ==> is_dec_digit(#[trigger] s[i])
}

/// The value of a sequence of decimal digits, most significant first.
pub open spec fn dec_val(s: Seq<char>) -> nat
    decreases s.len(),
{
    if s.len() == 0 {
        0
    } else {
        dec_val(s.drop_last()) * 10 + digit_val(s.last())
    }
}

/// The characters of `s`, in order.
pub fn str_chars(s: &str) -> (v: Vec<char>)
    ensures
        v@ == s@,
{
    let n = s.unicode_len();
    let mut v: Vec<char> = Vec::new();
    let mut i: usize = 0;
    while i < n
        invariant
            i <= n,
            n == s@.len(),
            v@ == s@.take(i as int),
        decreases n - i,
    {
        v.push(s.get_char(i));
        proof {
            assert(s@.take(i + 1) =~= s@.take(i as int).push(s@[i as int]));
        }
        i += 1;
    }
    proof {
        assert(s@.take(n as int) =~= s@);
    }
    v
}

/// Parses `v[from..to]` as an unbounded decimal number, refusing an empty
/// range, a non-digit, or a value above `cap`.
pub fn parse_dec_bounded(v: &Vec<char>, from: usize, to: usize, cap: u64) -> (r: Option<u64>)
    requires
        from <= to <= v@.len(),
        cap <= 1_000_000_000_000_000_000,
    ensures
        r is Some <==> from < to && all_digits(v@.subrange(from as int, to as int)) && dec_val(
            v@.subrange(from as int, to as int),
        ) <= cap,
        r matches Some(x) ==> x == dec_val(v@.subrange(from as int, to as int)),
{
    if from == to {
        proof {
            assert(!(from < to));
        }
        return None;
    }
    let ghost s = v@.subrange(from as int, to as int);
    let mut acc: u64 = 0;
    let mut over: bool = false;
    let mut i: usize = from;
    while i < to
        invariant
            from <= i <= to <= v@.len(),
            s == v@.subrange(from as int, to as int),
            cap <= 1_000_000_000_000_000_000,
            all_digits(s.take(i - from)),
            over ==> dec_val(s.take(i - from)) > cap,
            !over ==> acc == dec_val(s.take(i - from)) && acc <= cap,
        decreases to - i,
    {
        let c = v[i];
        proof {
            assert(s[i - from] == v@[i as int]);
            assert(s.take(i - from + 1).drop_last() =~= s.take(i - from));
            assert(s.take(i - from + 1).last() == s[i - from]);
        }
        if c < '0' || c > '9' {
            proof {
                assert(!is_dec_digit(s[i - from]));
                assert(s.take(s.len() as int) =~= s);
            }
            return None;
        }
        let d: u64 = (c as u32 - '0' as u32) as u64;
        if !over {
            let w: u64 = acc * 10 + d;
            if w > cap {
                over = true;
                proof {
                    assert(dec_val(s.take(i - from + 1)) == acc * 10 + digit_val(s[i - from]));
                }
            } else {
                acc = w;
            }
        }
        i += 1;
    }
    proof {
        assert(s.take(s.len() as int) =~= s);
    }
    if over {
        None
    } else {
        Some(acc)
    }
}

/// The value of `s` read as the textual form of an unsigned 16-bit
/// integer: an optional leading `+`, then at least one decimal digit,
/// with a value of at most 65535.
pub open spec fn u16_str_val(s: Seq<char>) -> Option<u16> {
    let body = if s.len() > 0 && s[0] == '+' {
        s.drop_first()
    } else {
        s
    };
    if body.len() > 0 && all_digits(body) && dec_val(body) <= 65535 {
        Some(dec_val(body) as u16)
    } else {
        None
    }
}

/// Parses `s` as an unsigned 16-bit integer.
pub fn parse_u16_str(s: &str) -> (r: Option<u16>)
    ensures
        r == u16_str_val(s@),
{
    let v = str_chars(s);
    let from: usize = if v.len() > 0 && v[0] == '+' {
        1
    } else {
        0
    };
    proof {
        if s@.len() > 0 && s@[0] == '+' {
            assert(s@.drop_first() =~= s@.subrange(1, s@.len() as int));
        } else {
            assert(s@ =~= s@.subrange(0, s@.len() as int));
        }
    }
    match parse_dec_bounded(&v, from, v.len(), 65535) {
        Some(x) => Some(x as u16),
        None => None,
    }
}

/// Whether two string slices hold the same characters.
pub fn str_eq(a: &str, b: &str) -> (r: bool)
    ensures
        r == (a@ == b@),
{
    let sa = String::from_str(a);
    let sb = String::from_str(b);
    sa.eq(&sb)
}

/// The value of `s` read as a boolean literal: exactly `true` or `false`.
pub open spec fn bool_str_val(s: Seq<char>) -> Option<bool> {
    if s == "true"@ {
        Some(true)
    } else if s == "false"@ {
        Some(false)
    } else {
        None
    }
}

/// Parses `s` as a boolean literal.
pub fn parse_bool_str(s: &str) -> (r: Option<bool>)
    ensures
        r == bool_str_val(s@),
{
    if str_eq(s, "true") {
        Some(true)
    } else if str_eq(s, "false") {
        Some(false)
    } else {
        None
    }
}

/// ASCII lowercasing of one character.
pub open spec fn lower_char(c: char) -> char {
    if 'A' <= c && c <= 'Z' {
        ((c as u8) + 32) as char
    } else {
        c
    }
}

/// ASCII lowercasing of a sequence of characters.
pub open spec fn lower_seq(s: Seq<char>) -> Seq<char> {
    s.map_values(|c: char| lower_char(c))
}

/// Whether `v` equals the string `lit` up to ASCII case.
pub fn eq_ignore_ascii_case_chars(v: &Vec<char>, lit: &str) -> (r: bool)
    ensures
        r == (lower_seq(v@) == lower_seq(lit@)),
{
    let n = lit.unicode_len();
    if v.len() != n {
        proof {
            assert(lower_seq(v@).len() == v@.len());
            assert(lower_seq(lit@).len() == lit@.len());
        }
        return false;
    }
    let mut i: usize = 0;
    while i < n
        invariant
            i <= n,
            n == lit@.len() == v@.len(),
            forall|j: int| 0 <= j < i ==> lower_char(#[trigger] v@[j]) == lower_char(lit@[j]),
        decreases n - i,
    {
        let a = lower_char_exec(v[i]);
        let b = lower_char_exec(lit.get_char(i));
        if a != b {
            proof {
                assert(lower_seq(v@)[i as int] == lower_char(v@[i as int]));
                assert(lower_seq(lit@)[i as int] == lower_char(lit@[i as int]));
            }
            return false;
        }
        i += 1;
    }
    proof {
        assert(lower_seq(v@) =~= lower_seq(lit@));
    }
    true
}

/// ASCII lowercasing of one character.
pub fn lower_char_exec(c: char) -> (r: char)
    ensures
        r == lower_char(c),
{
    if 'A' <= c && c <= 'Z' {
        ((c as u8) + 32) as char
    } else {
        c
    }
}

} // verus!
