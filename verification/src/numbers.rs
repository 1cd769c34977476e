//! Numbers as text: decimal and hexadecimal.

use crate::text::{chars_of, join2};
use vstd::prelude::*;

verus! {

/// The decimal digit of a number below ten.
pub open spec fn decimal_digit(d: nat) -> char {
    (('0' as u32) + d) as char
}

/// `n` in decimal, without leading zeros.
pub open spec fn decimal(n: nat) -> Seq<char>
    decreases n,
{
    if n < 10 {
        seq![decimal_digit(n)]
    } else {
        decimal(n / 10).push(decimal_digit(n % 10))
    }
}

fn digit_char(d: u64) -> (c: char)
    requires
        d < 10,
    ensures
        c == decimal_digit(d as nat),
{
    if d == 0 {
        '0'
    } else if d == 1 {
        '1'
    } else if d == 2 {
        '2'
    } else if d == 3 {
        '3'
    } else if d == 4 {
        '4'
    } else if d == 5 {
        '5'
    } else if d == 6 {
        '6'
    } else if d == 7 {
        '7'
    } else if d == 8 {
        '8'
    } else {
        '9'
    }
}

/// `n` in decimal.
pub fn decimal_text(n: u64) -> (s: String)
    ensures
        s@ == decimal(n as nat),
    decreases n,
{
    let mut s = if n < 10 {
        String::new()
    } else {
        decimal_text(n / 10)
    };
    s.push(digit_char(n % 10));
    proof {
        if n < 10 {
            assert(s@ =~= seq![decimal_digit(n as nat)]);
        }
    }
    s
}

/// An integer in decimal, with a sign where it is negative.
pub open spec fn signed_decimal(n: int) -> Seq<char> {
    if n < 0 {
        "-"@ + decimal((-n) as nat)
    } else {
        decimal(n as nat)
    }
}

/// `n` in decimal.
pub fn signed_text(n: i64) -> (s: String)
    ensures
        s@ == signed_decimal(n as int),
{
    if n < 0 {
        let size: u64 = (-(n as i128)) as u64;
        join2("-", decimal_text(size).as_str())
    } else {
        decimal_text(n as u64)
    }
}

/// Whether `c` is one of the ten decimal digits.
pub open spec fn is_decimal_digit(c: char) -> bool {
    '0' <= c <= '9'
}

/// The number that a row of decimal digits stands for.
pub open spec fn decimal_value(s: Seq<char>) -> nat
    decreases s.len(),
{
    if s.len() == 0 {
        0
    } else {
        decimal_value(s.drop_last()) * 10 + (s.last() as u32 - '0' as u32) as nat
    }
}

/// The number that one or more decimal digits stand for; nothing for any other text.
pub open spec fn unsigned_of(s: Seq<char>) -> Option<nat> {
    if s.len() > 0 && forall|i: int| 0 <= i < s.len() ==> is_decimal_digit(#[trigger] s[i]) {
        Some(decimal_value(s))
    } else {
        None
    }
}

/// The integer that an optional sign and decimal digits stand for.
pub open spec fn integer_of(s: Seq<char>) -> Option<int> {
    if s.len() > 0 && s[0] == '-' {
        match unsigned_of(s.drop_first()) {
            Some(n) => Some(-(n as int)),
            None => None,
        }
    } else {
        let digits = if s.len() > 0 && s[0] == '+' {
            s.drop_first()
        } else {
            s
        };
        match unsigned_of(digits) {
            Some(n) => Some(n as int),
            None => None,
        }
    }
}

/// The 64-bit integer that `s` stands for, if it stands for one.
pub open spec fn i64_of(s: Seq<char>) -> Option<i64> {
    match integer_of(s) {
        Some(n) => if i64::MIN <= n <= i64::MAX {
            Some(n as i64)
        } else {
            None
        },
        None => None,
    }
}

/// Reads the 64-bit integer that `s` stands for.
#[verifier::loop_isolation(false)]
pub fn parse_i64(s: &str) -> (n: Option<i64>)
    ensures
        n == i64_of(s@),
{
    let chars = chars_of(s);
    let len: usize = chars.len();
    let negative = len > 0 && chars[0] == '-';
    let from: usize = if len > 0 && (chars[0] == '-' || chars[0] == '+') {
        1
    } else {
        0
    };
    let ghost digits = s@.skip(from as int);
    proof {
        assert(s@.skip(0) =~= s@);
        assert(s@.len() > 0 ==> s@.drop_first() =~= s@.skip(1));
    }
    if from == len {
        return None;
    }
    let limit: u128 = 9223372036854775808;
    let mut value: u128 = 0;
    let mut i: usize = from;
    assert(digits.take(0) =~= Seq::<char>::empty());
    while i < len
        invariant
            from <= i <= len,
            len == chars@.len(),
            chars@ == s@,
            digits == s@.skip(from as int),
            limit == 9223372036854775808,
            forall|j: int| 0 <= j < i - from ==> is_decimal_digit(#[trigger] digits[j]),
            value <= limit ==> value == decimal_value(digits.take(i - from)),
            value > limit ==> decimal_value(digits.take(i - from)) > limit,
            value <= 10 * limit + 9,
        decreases len - i,
    {
        let c = chars[i];
        assert(digits[i - from] == c);
        if c < '0' || c > '9' {
            return None;
        }
        let d: u32 = c as u32 - '0' as u32;
        assert(digits.take(i - from + 1).drop_last() =~= digits.take(i - from));
        if value <= limit {
            value = value * 10 + d as u128;
        }
        i = i + 1;
    }
    assert(digits.take(len - from) =~= digits);
    if value > limit || (value == limit && !negative) {
        return None;
    }
    if value == limit {
        Some(i64::MIN)
    } else if negative {
        Some(-(value as i64))
    } else {
        Some(value as i64)
    }
}

/// The lower-case hexadecimal digit of a number below sixteen.
pub open spec fn hex_digit(d: int) -> char {
    if d < 10 {
        (('0' as u32) + d) as char
    } else {
        (('a' as u32) + d - 10) as char
    }
}

/// Two lower-case hexadecimal digits for each byte.
pub open spec fn hex(bytes: Seq<u8>) -> Seq<char>
    decreases bytes.len(),
{
    if bytes.len() == 0 {
        Seq::empty()
    } else {
        hex(bytes.drop_last()).push(hex_digit(bytes.last() as int / 16)).push(
            hex_digit(bytes.last() as int % 16),
        )
    }
}

fn hex_char(d: u8) -> (c: char)
    requires
        d < 16,
    ensures
        c == hex_digit(d as int),
{
    if d < 10 {
        digit_char(d as u64)
    } else if d == 10 {
        'a'
    } else if d == 11 {
        'b'
    } else if d == 12 {
        'c'
    } else if d == 13 {
        'd'
    } else if d == 14 {
        'e'
    } else {
        'f'
    }
}

/// The first `count` bytes in lower-case hexadecimal.
pub fn hex_text(bytes: &Vec<u8>, count: usize) -> (s: String)
    requires
        count <= bytes@.len(),
    ensures
        s@ == hex(bytes@.take(count as int)),
{
    let mut s = String::new();
    let mut i: usize = 0;
    assert(s@ =~= hex(bytes@.take(0)));
    while i < count
        invariant
            i <= count <= bytes@.len(),
            s@ == hex(bytes@.take(i as int)),
        decreases count - i,
    {
        assert(bytes@.take(i + 1).drop_last() =~= bytes@.take(i as int));
        s.push(hex_char(bytes[i] / 16));
        s.push(hex_char(bytes[i] % 16));
        i = i + 1;
    }
    s
}

/// Hexadecimal text is twice as long as what it writes down.
pub proof fn hex_length(bytes: Seq<u8>)
    ensures
        hex(bytes).len() == 2 * bytes.len(),
    decreases bytes.len(),
{
    if bytes.len() > 0 {
        hex_length(bytes.drop_last());
    }
}

/// The `count` lowest bytes of a number, the lowest first.
pub open spec fn low_bytes(n: nat, count: nat) -> Seq<u8>
    decreases count,
{
    if count == 0 {
        Seq::empty()
    } else {
        seq![(n % 256) as u8] + low_bytes(n / 256, (count - 1) as nat)
    }
}

/// The eight bytes of a number, the lowest first.
pub fn le_bytes(n: u64) -> (bytes: Vec<u8>)
    ensures
        bytes@ == low_bytes(n as nat, 8),
{
    let mut bytes: Vec<u8> = Vec::new();
    let mut rest: u64 = n;
    let mut left: usize = 8;
    assert(bytes@ + low_bytes(n as nat, 8) =~= low_bytes(n as nat, 8));
    while left > 0
        invariant
            left <= 8,
            bytes@ + low_bytes(rest as nat, left as nat) == low_bytes(n as nat, 8),
        decreases left,
    {
        let ghost before = bytes@;
        bytes.push((rest % 256) as u8);
        assert(bytes@ + low_bytes(rest as nat / 256, (left - 1) as nat) =~= before + low_bytes(
            rest as nat,
            left as nat,
        ));
        rest = rest / 256;
        left = left - 1;
    }
    assert(bytes@ + low_bytes(rest as nat, 0) =~= bytes@);
    bytes
}

} // verus!
