//! Decimal numbers: writing them out and reading them from text.
use crate::text::{chars_of, push_char};
use vstd::prelude::*;

verus! {

/// The character of a decimal digit.
pub open spec fn digit_char(d: int) -> char {
    seq!['0', '1', '2', '3', '4', '5', '6', '7', '8', '9'][d]
}

/// The decimal representation of a natural number, without leading zeros.
pub open spec fn decimal(n: nat) -> Seq<char>
    decreases n,
{
    if n < 10 {
        seq![digit_char(n as int)]
    } else {
        decimal(n / 10).push(digit_char((n % 10) as int))
    }
}

/// Whether `c` is an ASCII decimal digit.
pub open spec fn is_digit(c: char) -> bool {
    '0' <= c <= '9'
}

/// The value of a digit character.
pub open spec fn digit_value(c: char) -> int {
    c as int - '0' as int
}

/// Whether every character is a decimal digit.
pub open spec fn all_digits(s: Seq<char>) -> bool {
    forall|i: int| 0 <= i < s.len() ==> is_digit(#[trigger] s[i])
}

/// The value of a sequence of decimal digits, most significant first.
pub open spec fn digits_value(s: Seq<char>) -> int
    decreases s.len(),
{
    if s.len() == 0 {
        0
    } else {
        digits_value(s.drop_last()) * 10 + digit_value(s.last())
    }
}

/// The digits of a number written with an optional sign: what follows a leading `+` (or,
/// when `allow_minus`, a leading `-`).
pub open spec fn unsigned_part(s: Seq<char>, allow_minus: bool) -> Seq<char> {
    if s.len() > 0 && (s[0] == '+' || (allow_minus && s[0] == '-')) {
        s.subrange(1, s.len() as int)
    } else {
        s
    }
}

/// The `usize` that `s` stands for, as the standard library reads it: an optional `+`
/// followed by at least one decimal digit, with a value that fits.
pub open spec fn usize_text_value(s: Seq<char>) -> Option<usize> {
    let d = unsigned_part(s, false);
    if d.len() > 0 && all_digits(d) && digits_value(d) <= usize::MAX {
        Some(digits_value(d) as usize)
    } else {
        None
    }
}

/// The `i32` that `s` stands for, as the standard library reads it: an optional `+` or
/// `-` followed by at least one decimal digit, with a value in range.
pub open spec fn i32_text_value(s: Seq<char>) -> Option<i32> {
    let d = unsigned_part(s, true);
    let negative = s.len() > 0 && s[0] == '-';
    let v = if negative {
        -digits_value(d)
    } else {
        digits_value(d)
    };
    if d.len() > 0 && all_digits(d) && i32::MIN <= v <= i32::MAX {
        Some(v as i32)
    } else {
        None
    }
}

proof fn lemma_digits_value_nonnegative(s: Seq<char>)
    requires
        all_digits(s),
    ensures
        digits_value(s) >= 0,
    decreases s.len(),
{
    if s.len() > 0 {
        assert(all_digits(s.drop_last()));
        lemma_digits_value_nonnegative(s.drop_last());
    }
}

fn digit_to_char(d: usize) -> (c: char)
    requires
        d < 10,
    ensures
        c == digit_char(d as int),
{
    let table: [char; 10] = ['0', '1', '2', '3', '4', '5', '6', '7', '8', '9'];
    proof {
        assert(table@ =~= seq!['0', '1', '2', '3', '4', '5', '6', '7', '8', '9']);
    }
    table[d]
}

/// The decimal representation of `n`.
pub fn usize_to_string(n: usize) -> (s: String)
    ensures
        s@ == decimal(n as nat),
    decreases n,
{
    if n < 10 {
        let mut s = String::new();
        push_char(&mut s, digit_to_char(n));
        proof {
            assert(s@ =~= seq![digit_char(n as int)]);
        }
        s
    } else {
        let mut s = usize_to_string(n / 10);
        push_char(&mut s, digit_to_char(n % 10));
        s
    }
}

/// The decimal representation of `n`.
pub fn u32_to_string(n: u32) -> (s: String)
    ensures
        s@ == decimal(n as nat),
{
    usize_to_string(n as usize)
}

/// Reads the digits of `chars` from `start` on as a number no larger than `limit`.
fn parse_digits(chars: &Vec<char>, start: usize, limit: u128) -> (value: Option<u128>)
    requires
        start <= chars@.len(),
        limit < 0x1_0000_0000_0000_0000,
    ensures
        ({
            let d = chars@.subrange(start as int, chars@.len() as int);
            match value {
                Some(v) => d.len() > 0 && all_digits(d) && digits_value(d) <= limit && v
                    == digits_value(d),
                None => !(d.len() > 0 && all_digits(d) && digits_value(d) <= limit),
            }
        }),
{
    let ghost all = chars@;
    let len = chars.len();
    let mut acc: u128 = 0;
    let mut too_big = false;
    let mut i = start;
    while i < len
        invariant
            len == all.len(),
            all == chars@,
            start <= i <= len,
            limit < 0x1_0000_0000_0000_0000,
            all_digits(all.subrange(start as int, i as int)),
            !too_big ==> acc == digits_value(all.subrange(start as int, i as int)) && acc <= limit,
            too_big ==> digits_value(all.subrange(start as int, i as int)) > limit,
        decreases len - i,
    {
        let c = chars[i];
        let ghost prefix = all.subrange(start as int, i as int);
        let ghost next = all.subrange(start as int, i + 1);
        proof {
            assert(next.drop_last() =~= prefix);
            assert(next.last() == c);
        }
        if !('0' <= c && c <= '9') {
            proof {
                let d = all.subrange(start as int, len as int);
                assert(d[i - start] == c);
            }
            return None;
        }
        proof {
            assert(all_digits(next)) by {
                assert forall|k: int| 0 <= k < next.len() implies is_digit(#[trigger] next[k]) by {
                    if k < prefix.len() {
                        assert(next[k] == prefix[k]);
                    }
                }
            }
            lemma_digits_value_nonnegative(prefix);
        }
        let d = (c as u32 - '0' as u32) as u128;
        if !too_big {
            assert(acc * 10 + d < 0x1_0000_0000_0000_0000_0 * 10) by (nonlinear_arith)
                requires
                    acc <= limit,
                    limit < 0x1_0000_0000_0000_0000,
                    d < 10,
            ;
            let candidate = acc * 10 + d;
            if candidate > limit {
                too_big = true;
            } else {
                acc = candidate;
            }
        } else {
            proof {
                let p = digits_value(prefix);
                assert(p * 10 + digit_value(c) > limit) by (nonlinear_arith)
                    requires
                        p > limit,
                        limit >= 0,
                        digit_value(c) >= 0,
                ;
            }
        }
        i = i + 1;
    }
    if i == start || too_big {
        return None;
    }
    Some(acc)
}

/// Reads `text` as a `usize`, as `str::parse::<usize>` does.
pub fn parse_usize(text: &str) -> (value: Option<usize>)
    ensures
        value == usize_text_value(text@),
{
    let chars = chars_of(text);
    let start: usize = if chars.len() > 0 && chars[0] == '+' {
        1
    } else {
        0
    };
    proof {
        assert(unsigned_part(text@, false) =~= chars@.subrange(start as int, chars@.len() as int));
    }
    match parse_digits(&chars, start, usize::MAX as u128) {
        Some(v) => Some(v as usize),
        None => None,
    }
}

/// Reads `text` as an `i32`, as `str::parse::<i32>` does.
pub fn parse_i32(text: &str) -> (value: Option<i32>)
    ensures
        value == i32_text_value(text@),
{
    let chars = chars_of(text);
    let negative = chars.len() > 0 && chars[0] == '-';
    let start: usize = if chars.len() > 0 && (chars[0] == '+' || chars[0] == '-') {
        1
    } else {
        0
    };
    proof {
        assert(unsigned_part(text@, true) =~= chars@.subrange(start as int, chars@.len() as int));
    }
    let limit: u128 = if negative {
        2147483648
    } else {
        2147483647
    };
    match parse_digits(&chars, start, limit) {
        Some(v) => {
            if negative {
                let magnitude = v as i64;
                Some((0 - magnitude) as i32)
            } else {
                Some(v as i32)
            }
        },
        None => None,
    }
}

} // verus!
