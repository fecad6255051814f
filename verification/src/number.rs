//! Numbers as the command line gives them: an optional `+`, then digits.

use vstd::prelude::*;
use crate::text::chars_of;

verus! {

/// The value of the digit `c` in base `radix`, where it is one.
pub open spec fn digit(c: char, radix: nat) -> Option<nat> {
    let d = (c as int) - ('0' as int);
    if 0 <= d <= 9 && d < radix {
        Some(d as nat)
    } else {
        None
    }
}

/// The value of a run of digits in base `radix`, the first digit weighing
/// most. The empty run is worth 0; a run that holds anything but digits has
/// no value.
pub open spec fn digits_value(s: Seq<char>, radix: nat) -> Option<nat>
    decreases s.len(),
{
    if s.len() == 0 {
        Some(0)
    } else {
        match (digits_value(s.drop_last(), radix), digit(s.last(), radix)) {
            (Some(v), Some(d)) => Some(v * radix + d),
            _ => None,
        }
    }
}

/// What follows the sign, where `s` begins with one.
pub open spec fn unsigned_part(s: Seq<char>) -> Seq<char> {
    if s.len() > 0 && s[0] == '+' {
        s.drop_first()
    } else {
        s
    }
}

/// The number that `s` writes in base `radix`: an optional `+`, then at least
/// one digit, and nothing else. A number beyond the range of `u32` is none.
pub open spec fn number(s: Seq<char>, radix: nat) -> Option<u32> {
    let body = unsigned_part(s);
    if body.len() == 0 {
        None
    } else {
        match digits_value(body, radix) {
            Some(v) => if v <= u32::MAX {
                Some(v as u32)
            } else {
                None
            },
            None => None,
        }
    }
}

/// A run of digits is worth at least as much as each run it begins with, and
/// has no value where one of those has none.
proof fn lemma_digits_grow(s: Seq<char>, radix: nat, n: int)
    requires
        0 <= n <= s.len(),
        radix >= 1,
    ensures
        digits_value(s.take(n), radix) is None ==> digits_value(s, radix) is None,
        digits_value(s, radix) is Some ==> digits_value(s.take(n), radix)->0 <= digits_value(
            s,
            radix,
        )->0,
    decreases s.len() - n,
{
    if n == s.len() {
        assert(s.take(n) =~= s);
    } else {
        lemma_digits_grow(s, radix, n + 1);
        let longer = s.take(n + 1);
        assert(longer.drop_last() =~= s.take(n));
        if digits_value(longer, radix) is Some {
            let v = digits_value(s.take(n), radix)->0;
            assert(v * radix >= v) by (nonlinear_arith)
                requires
                    radix >= 1,
                    v >= 0,
            ;
        }
    }
}

/// Reads `s` as a number in base `radix`.
fn parse(s: &str, radix: u32) -> (r: Option<u32>)
    requires
        2 <= radix <= 10,
    ensures
        r == number(s@, radix as nat),
{
    let chars = chars_of(s);
    let n: usize = chars.len();
    let from: usize = if n > 0 && chars[0] == '+' {
        1
    } else {
        0
    };
    let ghost body = s@.skip(from as int);
    assert(body =~= unsigned_part(s@));
    if from == n {
        return None;
    }
    let mut value: u64 = 0;
    let mut i: usize = from;
    assert(body.take(0) =~= Seq::<char>::empty());
    while i < n
        invariant
            chars@ == s@,
            n == s@.len(),
            from <= i <= n,
            from < n,
            body == s@.skip(from as int),
            body == unsigned_part(s@),
            2 <= radix <= 10,
            value <= u32::MAX,
            digits_value(body.take(i - from), radix as nat) == Some(value as nat),
        decreases n - i,
    {
        let c = chars[i];
        let ghost longer = body.take(i - from + 1);
        proof {
            assert(longer.drop_last() =~= body.take(i - from));
            assert(longer.last() == c);
            lemma_digits_grow(body, radix as nat, i - from + 1);
        }
        if c < '0' || c > '9' {
            return None;
        }
        let d: u32 = c as u32 - '0' as u32;
        if d >= radix {
            return None;
        }
        assert(value * radix + d <= u32::MAX * 10 + 9) by (nonlinear_arith)
            requires
                value <= u32::MAX,
                radix <= 10,
                d <= 9,
        ;
        let next: u64 = value * (radix as u64) + (d as u64);
        if next > u32::MAX as u64 {
            return None;
        }
        value = next;
        i += 1;
    }
    assert(body.take(n - from) =~= body);
    Some(value as u32)
}

/// Reads `s` as a number in base ten.
pub fn parse_decimal(s: &str) -> (r: Option<u32>)
    ensures
        r == number(s@, 10),
{
    parse(s, 10)
}

/// Reads `s` as a number in base eight.
pub fn parse_octal(s: &str) -> (r: Option<u32>)
    ensures
        r == number(s@, 8),
{
    parse(s, 8)
}

/// The digit that is worth `d`.
pub open spec fn digit_text(d: nat) -> Seq<char> {
    if d == 0 {
        "0"@
    } else if d == 1 {
        "1"@
    } else if d == 2 {
        "2"@
    } else if d == 3 {
        "3"@
    } else if d == 4 {
        "4"@
    } else if d == 5 {
        "5"@
    } else if d == 6 {
        "6"@
    } else if d == 7 {
        "7"@
    } else if d == 8 {
        "8"@
    } else {
        "9"@
    }
}

/// `n` written in base ten, without a sign and without leading zeros.
pub open spec fn decimal(n: nat) -> Seq<char>
    decreases n,
{
    if n < 10 {
        digit_text(n)
    } else {
        decimal(n / 10) + digit_text(n % 10)
    }
}

/// `n` written in base ten, with a `-` before it where it is negative.
pub open spec fn signed_decimal(n: int) -> Seq<char> {
    if n < 0 {
        "-"@ + decimal((-n) as nat)
    } else {
        decimal(n as nat)
    }
}

/// The digit that is worth `d`.
fn digit_str(d: u64) -> (r: &'static str)
    requires
        d < 10,
    ensures
        r@ == digit_text(d as nat),
{
    if d == 0 {
        "0"
    } else if d == 1 {
        "1"
    } else if d == 2 {
        "2"
    } else if d == 3 {
        "3"
    } else if d == 4 {
        "4"
    } else if d == 5 {
        "5"
    } else if d == 6 {
        "6"
    } else if d == 7 {
        "7"
    } else if d == 8 {
        "8"
    } else {
        "9"
    }
}

/// Writes `n` in base ten.
pub fn decimal_text(n: u64) -> (r: String)
    ensures
        r@ == decimal(n as nat),
    decreases n,
{
    if n < 10 {
        String::from_str(digit_str(n))
    } else {
        decimal_text(n / 10).concat(digit_str(n % 10))
    }
}

/// Writes `n` in base ten, with its sign where it is negative.
pub fn signed_decimal_text(n: i32) -> (r: String)
    ensures
        r@ == signed_decimal(n as int),
{
    if n < 0 {
        let m: i64 = -(n as i64);
        String::from_str("-").concat(decimal_text(m as u64).as_str())
    } else {
        decimal_text(n as u64)
    }
}

} // verus!
