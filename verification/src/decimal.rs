//! Decimal integers: reading them as `str::parse` does and writing them as
//! `Display` does.
use vstd::prelude::*;
use crate::text::{all_ascii_digits, ascii_digit, chars_of, is_ascii_digit, string_of};

verus! {

/// The ASCII digit for `d < 10`.
pub open spec fn digit_char(d: nat) -> char {
    (d + 48) as char
}

/// The value of an ASCII digit.
pub open spec fn digit_value(c: char) -> nat {
    (c as u32 - 48) as nat
}

/// The value of a string of ASCII digits, most significant first.
pub open spec fn digits_value(s: Seq<char>) -> nat
    decreases s.len(),
{
    if s.len() == 0 {
        0
    } else {
        digits_value(s.drop_last()) * 10 + digit_value(s.last())
    }
}

/// What `str::parse` reads from `s` for an integer type, before its range is
/// checked: an optional `+` (or `-` where `signed`) followed by one or more
/// ASCII digits.
pub open spec fn parse_int(s: Seq<char>, signed: bool) -> Option<int> {
    if s.len() == 0 {
        None
    } else {
        let neg = signed && s[0] == '-';
        let digits = if s[0] == '+' || neg {
            s.drop_first()
        } else {
            s
        };
        if digits.len() > 0 && all_ascii_digits(digits) {
            Some(
                if neg {
                    -digits_value(digits)
                } else {
                    digits_value(digits) as int
                },
            )
        } else {
            None
        }
    }
}

/// `parse_int` restricted to the range `lo..=hi` of the target type.
pub open spec fn parse_in_range(s: Seq<char>, signed: bool, lo: int, hi: int) -> Option<int> {
    match parse_int(s, signed) {
        Some(v) => if lo <= v <= hi {
            Some(v)
        } else {
            None
        },
        None => None,
    }
}

/// `s.parse::<i32>().ok()`.
pub open spec fn parse_i32(s: Seq<char>) -> Option<i32> {
    match parse_in_range(s, true, i32::MIN as int, i32::MAX as int) {
        Some(v) => Some(v as i32),
        None => None,
    }
}

/// `s.parse::<i64>().ok()`.
pub open spec fn parse_i64(s: Seq<char>) -> Option<i64> {
    match parse_in_range(s, true, i64::MIN as int, i64::MAX as int) {
        Some(v) => Some(v as i64),
        None => None,
    }
}

/// `s.parse::<usize>().ok()`.
pub open spec fn parse_usize(s: Seq<char>) -> Option<usize> {
    match parse_in_range(s, false, 0, usize::MAX as int) {
        Some(v) => Some(v as usize),
        None => None,
    }
}

/// The decimal digits of `n`, without leading zeros.
pub open spec fn decimal(n: nat) -> Seq<char>
    decreases n,
{
    if n < 10 {
        seq![digit_char(n)]
    } else {
        decimal(n / 10).push(digit_char(n % 10))
    }
}

/// `v` as `Display` writes an integer.
pub open spec fn signed_decimal(v: int) -> Seq<char> {
    if v < 0 {
        seq!['-'] + decimal((-v) as nat)
    } else {
        decimal(v as nat)
    }
}

/// `v` as `{:02}` writes an integer: zeros after the sign up to two
/// characters.
pub open spec fn zero_padded2(v: int) -> Seq<char> {
    let s = signed_decimal(v);
    if s.len() < 2 {
        seq!['0'] + s
    } else {
        s
    }
}

/// `a / b` as Rust divides integers: rounding toward zero.
pub open spec fn trunc_div(a: int, b: int) -> int {
    if a >= 0 {
        a / b
    } else {
        -((-a) / b)
    }
}

/// `a % b` as Rust takes remainders: with the sign of `a`.
pub open spec fn trunc_rem(a: int, b: int) -> int {
    a - b * trunc_div(a, b)
}

pub proof fn lemma_digit_char(d: nat)
    requires
        d < 10,
    ensures
        is_ascii_digit(digit_char(d)),
        digit_value(digit_char(d)) == d,
{
}

/// `decimal(n)` is a non-empty string of digits whose value is `n`.
pub proof fn lemma_decimal(n: nat)
    ensures
        decimal(n).len() > 0,
        all_ascii_digits(decimal(n)),
        digits_value(decimal(n)) == n,
        n < 10 <==> decimal(n).len() == 1,
    decreases n,
{
    vstd::arithmetic::div_mod::lemma_fundamental_div_mod(n as int, 10);
    if n < 10 {
        lemma_digit_char(n);
        assert(seq![digit_char(n)].drop_last() =~= Seq::<char>::empty());
        assert(digits_value(Seq::<char>::empty()) == 0);
        assert(digits_value(decimal(n)) == n);
    } else {
        lemma_decimal(n / 10);
        lemma_digit_char(n % 10);
        let s = decimal(n / 10).push(digit_char(n % 10));
        assert(s.drop_last() =~= decimal(n / 10));
        assert(decimal(n) == s);
        assert(digits_value(s) == digits_value(decimal(n / 10)) * 10 + (n % 10));
        assert(all_ascii_digits(s)) by {
            assert forall|i: int| 0 <= i < s.len() implies is_ascii_digit(#[trigger] s[i]) by {
                if i < s.len() - 1 {
                    assert(s[i] == decimal(n / 10)[i]);
                }
            }
        }
    }
}

/// Reading back what `Display` writes gives the number that was written.
pub proof fn lemma_parse_signed_decimal(v: int)
    ensures
        parse_int(signed_decimal(v), true) == Some(v),
        v >= 0 ==> parse_int(signed_decimal(v), false) == Some(v),
{
    if v < 0 {
        let d = decimal((-v) as nat);
        lemma_decimal((-v) as nat);
        let s = seq!['-'] + d;
        assert(s.drop_first() =~= d);
        assert(s[0] == '-');
    } else {
        lemma_decimal(v as nat);
        let d = decimal(v as nat);
        assert(is_ascii_digit(d[0]));
    }
}

/// A digit string extended by one digit.
proof fn lemma_digits_push(s: Seq<char>, i: int)
    requires
        0 <= i < s.len(),
    ensures
        digits_value(s.take(i + 1)) == digits_value(s.take(i)) * 10 + digit_value(s[i]),
{
    assert(s.take(i + 1).drop_last() =~= s.take(i));
}

/// Reads an integer from `s` as `str::parse` does for a type whose range is
/// `lo..=hi`.
pub fn parse_decimal(s: &Vec<char>, signed: bool, lo: i128, hi: i128) -> (r: Option<i128>)
    requires
        -0x1_0000_0000_0000_0000 <= lo <= 0 <= hi <= 0x1_0000_0000_0000_0000,
    ensures
        match r {
            Some(v) => parse_in_range(s@, signed, lo as int, hi as int) == Some(v as int),
            None => parse_in_range(s@, signed, lo as int, hi as int) is None,
        },
{
    let n = s.len();
    if n == 0 {
        return None;
    }
    let neg = signed && s[0] == '-';
    let start: usize = if s[0] == '+' || neg {
        1
    } else {
        0
    };
    let ghost digits = if s@[0] == '+' || neg {
        s@.drop_first()
    } else {
        s@
    };
    assert(digits =~= s@.subrange(start as int, n as int));
    if start == n {
        return None;
    }
    let bound: u128 = if neg {
        (0 - lo) as u128
    } else {
        hi as u128
    };
    let mut acc: u128 = 0;
    let mut i: usize = start;
    while i < n
        invariant
            start <= i <= n == s.len(),
            n > 0,
            neg == (signed && s@[0] == '-'),
            digits == (if s@[0] == '+' || neg {
                s@.drop_first()
            } else {
                s@
            }),
            digits == s@.subrange(start as int, n as int),
            bound as int == (if neg {
                -lo
            } else {
                hi as int
            }),
            bound <= 0x1_0000_0000_0000_0000,
            forall|k: int| 0 <= k < i - start ==> is_ascii_digit(#[trigger] digits[k]),
            acc <= bound + 1,
            acc <= bound ==> acc == digits_value(digits.take(i - start)),
            acc > bound ==> digits_value(digits.take(i - start)) > bound,
        decreases n - i,
    {
        let c = s[i];
        if !ascii_digit(c) {
            assert(digits[i - start] == c);
            return None;
        }
        let d = (c as u32 - 48) as u128;
        proof {
            lemma_digits_push(digits, i - start);
            assert(digits[i - start] == c);
        }
        if acc <= bound {
            let t = acc * 10 + d;
            acc = if t > bound {
                bound + 1
            } else {
                t
            };
        }
        i += 1;
    }
    assert(digits.take(n - start) =~= digits);
    if acc > bound {
        return None;
    }
    if neg {
        Some(0 - (acc as i128))
    } else {
        Some(acc as i128)
    }
}

/// Appends the decimal digits of `n` to `out`.
pub fn push_decimal(n: u128, out: &mut Vec<char>)
    ensures
        final(out)@ == old(out)@ + decimal(n as nat),
    decreases n,
{
    if n < 10 {
        out.push(((n as u8) + 48) as char);
        assert(old(out)@.push(digit_char(n as nat)) =~= old(out)@ + seq![digit_char(n as nat)]);
    } else {
        push_decimal(n / 10, out);
        out.push((((n % 10) as u8) + 48) as char);
        assert(old(out)@ + decimal((n / 10) as nat) + seq![digit_char((n % 10) as nat)]
            =~= old(out)@ + decimal(n as nat));
    }
}

/// Appends `v` to `out` as `Display` writes it.
pub fn push_signed(v: i128, out: &mut Vec<char>)
    requires
        -0x1_0000_0000_0000_0000 <= v <= 0x1_0000_0000_0000_0000,
    ensures
        final(out)@ == old(out)@ + signed_decimal(v as int),
{
    if v < 0 {
        out.push('-');
        push_decimal((0 - v) as u128, out);
        assert(old(out)@.push('-') + decimal((-v) as nat) =~= old(out)@ + (seq!['-'] + decimal(
            (-v) as nat,
        )));
    } else {
        push_decimal(v as u128, out);
    }
}

/// Appends `v` to `out` as `{:02}` writes it.
pub fn push_padded2(v: i128, out: &mut Vec<char>)
    requires
        -0x1_0000_0000_0000_0000 <= v <= 0x1_0000_0000_0000_0000,
    ensures
        final(out)@ == old(out)@ + zero_padded2(v as int),
{
    proof {
        if v >= 0 {
            lemma_decimal(v as nat);
        }
    }
    if 0 <= v && v < 10 {
        out.push('0');
        push_signed(v, out);
        assert(old(out)@.push('0') + signed_decimal(v as int) =~= old(out)@ + (seq!['0']
            + signed_decimal(v as int)));
    } else {
        proof {
            if v < 0 {
                lemma_decimal((-v) as nat);
            }
        }
        push_signed(v, out);
    }
}

/// `v.to_string()` for an `i32`.
pub fn i32_to_string(v: i32) -> (s: String)
    ensures
        s@ == signed_decimal(v as int),
{
    let mut out: Vec<char> = Vec::new();
    push_signed(v as i128, &mut out);
    string_of(&out)
}

/// `v.to_string()` for an `i64`.
pub fn i64_to_string(v: i64) -> (s: String)
    ensures
        s@ == signed_decimal(v as int),
{
    let mut out: Vec<char> = Vec::new();
    push_signed(v as i128, &mut out);
    string_of(&out)
}

/// `s.parse::<i32>().ok()`.
pub fn str_to_i32(s: &str) -> (r: Option<i32>)
    ensures
        r == parse_i32(s@),
{
    let v = chars_of(s);
    match parse_decimal(&v, true, i32::MIN as i128, i32::MAX as i128) {
        Some(x) => Some(x as i32),
        None => None,
    }
}

/// `s.parse::<i64>().ok()`.
pub fn str_to_i64(s: &str) -> (r: Option<i64>)
    ensures
        r == parse_i64(s@),
{
    let v = chars_of(s);
    match parse_decimal(&v, true, i64::MIN as i128, i64::MAX as i128) {
        Some(x) => Some(x as i64),
        None => None,
    }
}

/// `s.parse::<usize>().ok()`, for a string given as characters.
pub fn chars_to_usize(s: &Vec<char>) -> (r: Option<usize>)
    ensures
        r == parse_usize(s@),
{
    match parse_decimal(s, false, 0, usize::MAX as i128) {
        Some(x) => Some(x as usize),
        None => None,
    }
}

} // verus!
