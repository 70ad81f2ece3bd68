//! Decimal rendering and parsing of integers, used for the ownership
//! metadata stamped into task records and for numeric wire-protocol fields.

use vstd::prelude::*;

verus! {

/// Character for one decimal digit value below ten.
pub open spec fn spec_digit_char(d: nat) -> char {
    if d == 0 {
        '0'
    } else if d == 1 {
        '1'
    } else if d == 2 {
        '2'
    } else if d == 3 {
        '3'
    } else if d == 4 {
        '4'
    } else if d == 5 {
        '5'
    } else if d == 6 {
        '6'
    } else if d == 7 {
        '7'
    } else if d == 8 {
        '8'
    } else {
        '9'
    }
}

/// Numeric value of a digit character; ten marks a non-digit.
pub open spec fn spec_digit_val(c: char) -> nat {
    if c == '0' {
        0
    } else if c == '1' {
        1
    } else if c == '2' {
        2
    } else if c == '3' {
        3
    } else if c == '4' {
        4
    } else if c == '5' {
        5
    } else if c == '6' {
        6
    } else if c == '7' {
        7
    } else if c == '8' {
        8
    } else if c == '9' {
        9
    } else {
        10
    }
}

pub open spec fn is_digit(c: char) -> bool {
    spec_digit_val(c) < 10
}

pub open spec fn all_digits(s: Seq<char>) -> bool {
    forall|i: int| 0 <= i < s.len() ==> is_digit(#[trigger] s[i])
}

/// Decimal digits of `n`, most significant first, with no leading zero
/// (a single zero digit for zero itself).
pub open spec fn spec_u64_digits(n: nat) -> Seq<char>
    decreases n,
{
    if n < 10 {
        seq![spec_digit_char(n)]
    } else {
        spec_u64_digits(n / 10).push(spec_digit_char(n % 10))
    }
}

/// Signed decimal rendering: a leading minus sign for negative values.
pub open spec fn spec_i32_digits(n: int) -> Seq<char> {
    if n >= 0 {
        spec_u64_digits(n as nat)
    } else {
        seq!['-'] + spec_u64_digits((-n) as nat)
    }
}

/// Value of a digit string, most significant digit first.
pub open spec fn spec_digits_val(s: Seq<char>) -> nat
    decreases s.len(),
{
    if s.len() == 0 {
        0
    } else {
        spec_digits_val(s.drop_last()) * 10 + spec_digit_val(s.last())
    }
}

/// The rendering of `n` is made of digits, starts with a zero only for zero
/// itself, and evaluates back to `n`.
pub proof fn lemma_u64_digits_val(n: nat)
    ensures
        spec_u64_digits(n).len() >= 1,
        all_digits(spec_u64_digits(n)),
        spec_digits_val(spec_u64_digits(n)) == n,
        n > 0 ==> spec_u64_digits(n)[0] != '0',
        n >= 10 ==> spec_u64_digits(n).len() >= 2,
    decreases n,
{
    if n < 10 {
        let s = spec_u64_digits(n);
        assert(s =~= seq![spec_digit_char(n)]);
        assert(s.drop_last() =~= Seq::<char>::empty());
        assert(spec_digits_val(Seq::<char>::empty()) == 0);
        assert(spec_digits_val(s.drop_last()) == 0);
        assert(s.last() == spec_digit_char(n));
        assert(spec_digits_val(s) == spec_digit_val(spec_digit_char(n)));
        assert(spec_digit_val(spec_digit_char(n)) == n);
    } else {
        lemma_u64_digits_val(n / 10);
        let prefix = spec_u64_digits(n / 10);
        let whole = spec_u64_digits(n);
        assert(whole.drop_last() =~= prefix);
        assert(whole.last() == spec_digit_char(n % 10));
        assert(spec_digits_val(whole) == (n / 10) * 10 + n % 10);
        assert((n / 10) * 10 + n % 10 == n) by (nonlinear_arith);
        assert(whole[0] == prefix[0]);
    }
}

/// A digit string's value only grows as digits are appended.
pub proof fn lemma_digits_val_prefix_le(s: Seq<char>, i: int)
    requires
        0 <= i <= s.len(),
    ensures
        spec_digits_val(s.take(i)) <= spec_digits_val(s),
    decreases s.len() - i,
{
    if i < s.len() {
        let t = s.take(i + 1);
        assert(t.drop_last() =~= s.take(i));
        assert(spec_digits_val(t) == spec_digits_val(s.take(i)) * 10 + spec_digit_val(t.last()));
        assert(spec_digits_val(s.take(i)) * 10 >= spec_digits_val(s.take(i))) by (nonlinear_arith);
        lemma_digits_val_prefix_le(s, i + 1);
        assert(s.take(s.len() as int) =~= s);
    } else {
        assert(s.take(i) =~= s);
    }
}

fn digit_str(d: u64) -> (s: &'static str)
    requires
        d < 10,
    ensures
        s@ =~= seq![spec_digit_char(d as nat)],
{
    proof {
        reveal_strlit("0");
        reveal_strlit("1");
        reveal_strlit("2");
        reveal_strlit("3");
        reveal_strlit("4");
        reveal_strlit("5");
        reveal_strlit("6");
        reveal_strlit("7");
        reveal_strlit("8");
        reveal_strlit("9");
    }
    if d == 0 {
        "0"
    } else if d == 1 {
        "1"
    } else if d == 2 {
        "2"
    } else if d == 3 {
        "3"
    } else if d == 4 {
        "4"
    } else if d == 5 {
        "5"
    } else if d == 6 {
        "6"
    } else if d == 7 {
        "7"
    } else if d == 8 {
        "8"
    } else {
        "9"
    }
}

/// Render `n` in decimal, most significant digit first.
pub fn u64_to_string(n: u64) -> (s: String)
    ensures
        s@ == spec_u64_digits(n as nat),
    decreases n,
{
    if n < 10 {
        let s = String::from_str(digit_str(n));
        proof {
            assert(s@ =~= spec_u64_digits(n as nat));
        }
        s
    } else {
        let prefix = u64_to_string(n / 10);
        let s = prefix.concat(digit_str(n % 10));
        proof {
            assert(s@ =~= spec_u64_digits(n as nat));
        }
        s
    }
}

/// Render `n` in decimal with a minus sign when negative.
pub fn i32_to_string(n: i32) -> (s: String)
    ensures
        s@ == spec_i32_digits(n as int),
{
    if n >= 0 {
        let s = u64_to_string(n as u64);
        s
    } else {
        let mag: u64 = (-(n as i64)) as u64;
        let digits = u64_to_string(mag);
        let s = String::from_str("-").concat(digits.as_str());
        proof {
            reveal_strlit("-");
            assert(s@ =~= spec_i32_digits(n as int));
        }
        s
    }
}

/// What `parse_i32_str` accepts: an optional minus sign, then one or more
/// decimal digits, denoting a value that fits in an `i32`.
pub open spec fn spec_parse_i32(s: Seq<char>) -> Option<i32> {
    if s.len() > 0 && s[0] == '-' {
        let digits = s.subrange(1, s.len() as int);
        if digits.len() > 0 && all_digits(digits) && spec_digits_val(digits) <= 0x8000_0000 {
            Some((0 - spec_digits_val(digits) as int) as i32)
        } else {
            None
        }
    } else {
        if s.len() > 0 && all_digits(s) && spec_digits_val(s) <= 0x7FFF_FFFF {
            Some(spec_digits_val(s) as i32)
        } else {
            None
        }
    }
}

/// Parse a decimal integer, rejecting anything but an optional minus sign
/// followed by digits, and any value out of `i32` range.
pub fn parse_i32_str(s: &str) -> (r: Option<i32>)
    ensures
        r == spec_parse_i32(s@),
{
    let n = s.unicode_len();
    if n == 0 {
        return None;
    }
    let neg = s.get_char(0) == '-';
    let start: usize = if neg { 1 } else { 0 };
    let ghost digits = s@.subrange(start as int, s@.len() as int);
    if n == start {
        return None;
    }
    let mut i: usize = start;
    let mut acc: u64 = 0;
    while i < n
        invariant
            start <= i <= n,
            n == s@.len(),
            start == if neg { 1int } else { 0int },
            neg ==> s@[0] == '-',
            !neg ==> !(s@.len() > 0 && s@[0] == '-'),
            digits == s@.subrange(start as int, s@.len() as int),
            all_digits(s@.subrange(start as int, i as int)),
            acc == spec_digits_val(s@.subrange(start as int, i as int)),
            acc <= 0x8000_0000,
        decreases n - i,
    {
        let c = s.get_char(i);
        let d = digit_char_val(c);
        if d >= 10 {
            proof {
                assert(digits[i - start] == s@[i as int]);
                assert(!is_digit(digits[i - start]));
                assert(!all_digits(digits));
                if !neg {
                    assert(digits =~= s@);
                }
            }
            return None;
        }
        proof {
            let t = s@.subrange(start as int, i + 1);
            assert(t.drop_last() =~= s@.subrange(start as int, i as int));
            assert(t.last() == s@[i as int]);
        }
        acc = acc * 10 + d;
        i = i + 1;
        if acc > 0x8000_0000 {
            // Any further digits only grow the value, so it cannot fit.
            let ghost acc_now = acc;
            let ghost i_now = i as int;
            let mut j = i;
            while j < n
                invariant
                    i_now <= j <= n,
                    n == s@.len(),
                    start <= i_now,
                    start == if neg { 1int } else { 0int },
                    neg ==> s@.len() > 0 && s@[0] == '-',
                    !neg ==> !(s@.len() > 0 && s@[0] == '-'),
                    digits == s@.subrange(start as int, s@.len() as int),
                    acc_now == spec_digits_val(s@.subrange(start as int, i_now)),
                    acc_now > 0x8000_0000,
                    all_digits(s@.subrange(start as int, j as int)),
                decreases n - j,
            {
                let c2 = s.get_char(j);
                if digit_char_val(c2) >= 10 {
                    proof {
                        assert(digits[j - start] == s@[j as int]);
                        assert(!all_digits(digits));
                    }
                    return None;
                }
                proof {
                    let t = s@.subrange(start as int, j + 1);
                    assert(t =~= s@.subrange(start as int, j as int).push(s@[j as int]));
                    assert(forall|k: int| 0 <= k < t.len() ==> is_digit(#[trigger] t[k]));
                }
                j = j + 1;
            }
            proof {
                assert(s@.subrange(start as int, n as int) =~= digits);
                lemma_digits_val_prefix_le(digits, i_now - start);
                assert(digits.take(i_now - start) =~= s@.subrange(start as int, i_now));
                assert(spec_digits_val(digits) >= acc_now);
                if !neg {
                    assert(digits =~= s@);
                }
            }
            return None;
        }
    }
    proof {
        assert(s@.subrange(start as int, i as int) =~= digits);
        if !neg {
            assert(digits =~= s@);
        }
    }
    if neg {
        Some((-(acc as i64)) as i32)
    } else {
        if acc <= 0x7FFF_FFFF {
            Some(acc as i32)
        } else {
            None
        }
    }
}

fn digit_char_val(c: char) -> (d: u64)
    ensures
        d == spec_digit_val(c),
{
    if c == '0' {
        0
    } else if c == '1' {
        1
    } else if c == '2' {
        2
    } else if c == '3' {
        3
    } else if c == '4' {
        4
    } else if c == '5' {
        5
    } else if c == '6' {
        6
    } else if c == '7' {
        7
    } else if c == '8' {
        8
    } else if c == '9' {
        9
    } else {
        10
    }
}

/// Rendering an `i32` in decimal and parsing the result gives back the same
/// value.
pub proof fn lemma_i32_round_trip(n: i32)
    ensures
        spec_parse_i32(spec_i32_digits(n as int)) == Some(n),
{
    if n >= 0 {
        lemma_u64_digits_val(n as nat);
        let s = spec_u64_digits(n as nat);
        assert(is_digit(s[0]));
        assert(s[0] != '-');
    } else {
        let mag = (-(n as int)) as nat;
        lemma_u64_digits_val(mag);
        let s = spec_i32_digits(n as int);
        assert(s[0] == '-');
        assert(s.subrange(1, s.len() as int) =~= spec_u64_digits(mag));
    }
}

} // verus!
