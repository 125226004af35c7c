//! Numbers as text: decimal and hexadecimal digits, written and read.
use crate::text::chars::chars_of;
use vstd::prelude::*;

verus! {

/// The digit that stands for `d` in decimal and, from ten on, in lower-case hexadecimal.
pub open spec fn digit(d: nat) -> char {
    if d < 10 {
        (d + '0' as nat) as char
    } else {
        (d - 10 + 'a' as nat) as char
    }
}

/// The decimal digits of `n`, without leading zeros.
pub open spec fn decimal(n: nat) -> Seq<char>
    decreases n,
{
    if n < 10 {
        seq![digit(n)]
    } else {
        decimal(n / 10).push(digit(n % 10))
    }
}

/// `n` in decimal, behind a minus sign if it is negative.
pub open spec fn signed_decimal(n: int) -> Seq<char> {
    if n < 0 {
        seq!['-'] + decimal((-n) as nat)
    } else {
        decimal(n as nat)
    }
}

/// The lower-case hexadecimal digits of `n`, without leading zeros.
pub open spec fn hexadecimal(n: nat) -> Seq<char>
    decreases n,
{
    if n < 16 {
        seq![digit(n)]
    } else {
        hexadecimal(n / 16).push(digit(n % 16))
    }
}

/// What a hexadecimal digit stands for, in either case.
pub open spec fn hex_digit_value(c: char) -> Option<nat> {
    if '0' <= c <= '9' {
        Some((c as nat - '0' as nat) as nat)
    } else if 'a' <= c <= 'f' {
        Some((c as nat - 'a' as nat + 10) as nat)
    } else if 'A' <= c <= 'F' {
        Some((c as nat - 'A' as nat + 10) as nat)
    } else {
        None
    }
}

/// What a run of decimal digits stands for; `None` if anything else stands in it.
pub open spec fn decimal_digits_value(s: Seq<char>) -> Option<nat>
    decreases s.len(),
{
    if s.len() == 0 {
        Some(0)
    } else {
        match decimal_digits_value(s.drop_last()) {
            Some(v) => if '0' <= s.last() <= '9' {
                Some((10 * v + (s.last() as nat - '0' as nat)) as nat)
            } else {
                None
            },
            None => None,
        }
    }
}

/// What a run of hexadecimal digits stands for; `None` if anything else stands in it.
pub open spec fn hex_digits_value(s: Seq<char>) -> Option<nat>
    decreases s.len(),
{
    if s.len() == 0 {
        Some(0)
    } else {
        match (hex_digits_value(s.drop_last()), hex_digit_value(s.last())) {
            (Some(v), Some(d)) => Some(16 * v + d),
            _ => None,
        }
    }
}

/// `s` without one plus sign at its front, if it has one.
pub open spec fn unsigned_part(s: Seq<char>) -> Seq<char> {
    if s.len() > 0 && s[0] == '+' {
        s.skip(1)
    } else {
        s
    }
}

/// The number that `s` spells in decimal: an optional plus sign and at least one digit.
pub open spec fn decimal_value(s: Seq<char>) -> Option<nat> {
    if unsigned_part(s).len() == 0 {
        None
    } else {
        decimal_digits_value(unsigned_part(s))
    }
}

/// The number that `s` spells in hexadecimal: an optional plus sign and at least one digit.
pub open spec fn hex_value(s: Seq<char>) -> Option<nat> {
    if unsigned_part(s).len() == 0 {
        None
    } else {
        hex_digits_value(unsigned_part(s))
    }
}

/// The decimal number that `s` spells, if it is at most `max`.
pub open spec fn decimal_up_to(s: Seq<char>, max: nat) -> Option<nat> {
    match decimal_value(s) {
        Some(v) => if v <= max {
            Some(v)
        } else {
            None
        },
        None => None,
    }
}

/// Reading the decimal digits of a number gives the number back.
pub proof fn decimal_reads_back(n: nat)
    ensures
        decimal_value(decimal(n)) == Some(n),
        decimal_digits_value(decimal(n)) == Some(n),
        decimal(n).len() > 0,
        forall|i: int| 0 <= i < decimal(n).len() ==> '0' <= #[trigger] decimal(n)[i] <= '9',
    decreases n,
{
    let s = decimal(n);
    if n < 10 {
        assert(s.drop_last() =~= Seq::<char>::empty());
        reveal_with_fuel(decimal_digits_value, 2);
    } else {
        decimal_reads_back(n / 10);
        assert(s.drop_last() =~= decimal(n / 10));
        assert forall|i: int| 0 <= i < s.len() implies '0' <= #[trigger] s[i] <= '9' by {
            if i < s.len() - 1 {
                assert(s[i] == decimal(n / 10)[i]);
            }
        }
    }
    assert(s[0] != '+') by {
        assert('0' <= s[0]);
    }
}

/// Reading the hexadecimal digits of a number gives the number back.
pub proof fn hexadecimal_reads_back(n: nat)
    ensures
        hex_value(hexadecimal(n)) == Some(n),
        hex_digits_value(hexadecimal(n)) == Some(n),
        hexadecimal(n).len() > 0,
        forall|i: int|
            0 <= i < hexadecimal(n).len() ==> hex_digit_value(#[trigger] hexadecimal(n)[i]) is Some,
    decreases n,
{
    let s = hexadecimal(n);
    if n < 16 {
        assert(s.drop_last() =~= Seq::<char>::empty());
        reveal_with_fuel(hex_digits_value, 2);
    } else {
        hexadecimal_reads_back(n / 16);
        assert(s.drop_last() =~= hexadecimal(n / 16));
        assert forall|i: int| 0 <= i < s.len() implies hex_digit_value(#[trigger] s[i]) is Some by {
            if i < s.len() - 1 {
                assert(s[i] == hexadecimal(n / 16)[i]);
            }
        }
    }
    assert(s[0] != '+') by {
        assert(hex_digit_value(s[0]) is Some);
    }
}

/// The digit that stands for `d`.
fn digit_char(d: u8) -> (c: char)
    requires
        d < 16,
    ensures
        c == digit(d as nat),
{
    if d < 10 {
        (d + 48u8) as char
    } else {
        (d - 10 + 97u8) as char
    }
}

/// `n` in decimal.
pub fn to_decimal(n: u64) -> (r: String)
    ensures
        r@ == decimal(n as nat),
    decreases n,
{
    if n < 10 {
        let mut s = String::new();
        s.push(digit_char(n as u8));
        s
    } else {
        let mut s = to_decimal(n / 10);
        s.push(digit_char((n % 10) as u8));
        s
    }
}

/// `n` in decimal, behind a minus sign if it is negative.
pub fn to_signed_decimal(n: i32) -> (r: String)
    ensures
        r@ == signed_decimal(n as int),
{
    if n < 0 {
        let mut s = String::new();
        s.push('-');
        s.append(to_decimal((-(n as i64)) as u64).as_str());
        s
    } else {
        to_decimal(n as u64)
    }
}

/// `n` in lower-case hexadecimal.
pub fn to_hexadecimal(n: u64) -> (r: String)
    ensures
        r@ == hexadecimal(n as nat),
    decreases n,
{
    if n < 16 {
        let mut s = String::new();
        s.push(digit_char(n as u8));
        s
    } else {
        let mut s = to_hexadecimal(n / 16);
        s.push(digit_char((n % 16) as u8));
        s
    }
}

/// What follows a run of decimal digits spoils it or adds to what it stands for.
proof fn lemma_decimal_grows(s: Seq<char>, n: int)
    requires
        0 <= n <= s.len(),
    ensures
        match (decimal_digits_value(s.take(n)), decimal_digits_value(s)) {
            (Some(v), Some(w)) => v <= w,
            (None, Some(_)) => false,
            _ => true,
        },
    decreases s.len(),
{
    if n < s.len() {
        lemma_decimal_grows(s.drop_last(), n);
        assert(s.drop_last().take(n) =~= s.take(n));
    } else {
        assert(s.take(n) =~= s);
    }
}

/// What follows a run of hexadecimal digits spoils it or adds to what it stands for.
proof fn lemma_hexadecimal_grows(s: Seq<char>, n: int)
    requires
        0 <= n <= s.len(),
    ensures
        match (hex_digits_value(s.take(n)), hex_digits_value(s)) {
            (Some(v), Some(w)) => v <= w,
            (None, Some(_)) => false,
            _ => true,
        },
    decreases s.len(),
{
    if n < s.len() {
        lemma_hexadecimal_grows(s.drop_last(), n);
        assert(s.drop_last().take(n) =~= s.take(n));
    } else {
        assert(s.take(n) =~= s);
    }
}

/// Where the digits of a number begin: behind a plus sign, if it has one.
fn digits_start(chars: &[char]) -> (r: usize)
    ensures
        r <= chars@.len(),
        chars@.skip(r as int) == unsigned_part(chars@),
{
    assert(chars@.skip(0) =~= chars@);
    if chars.len() > 0 && chars[0] == '+' {
        1
    } else {
        0
    }
}

/// The decimal number that `s` spells, if it fits into 32 bits.
pub fn parse_u32(s: &str) -> (r: Option<u32>)
    ensures
        match r {
            Some(v) => decimal_up_to(s@, u32::MAX as nat) == Some(v as nat),
            None => decimal_up_to(s@, u32::MAX as nat) is None,
        },
{
    let chars = chars_of(s);
    let start = digits_start(chars.as_slice());
    let n = chars.len();
    if start == n {
        return None;
    }
    let ghost digits = unsigned_part(s@);
    let mut value: u64 = 0;
    let mut i: usize = start;
    assert(digits.take(0) =~= Seq::<char>::empty());
    while i < n
        invariant
            n == chars@.len(),
            chars@ == s@,
            start <= i <= n,
            start < n,
            digits == unsigned_part(s@),
            digits == chars@.skip(start as int),
            value <= u32::MAX,
            decimal_digits_value(digits.take(i - start)) == Some(value as nat),
        decreases n - i,
    {
        let c = chars[i];
        proof {
            assert(digits.take(i + 1 - start).drop_last() =~= digits.take(i - start));
            assert(digits.take(i + 1 - start).last() == c);
            lemma_decimal_grows(digits, i + 1 - start);
        }
        if !('0' <= c && c <= '9') {
            return None;
        }
        value = value * 10 + (c as u64 - 48);
        if value > u32::MAX as u64 {
            return None;
        }
        i += 1;
    }
    assert(digits.take(digits.len() as int) =~= digits);
    Some(value as u32)
}

/// What a hexadecimal digit stands for, in either case.
fn hex_digit(c: char) -> (r: Option<u32>)
    ensures
        match r {
            Some(d) => hex_digit_value(c) == Some(d as nat) && d < 16,
            None => hex_digit_value(c) is None,
        },
{
    if '0' <= c && c <= '9' {
        Some(c as u32 - 48)
    } else if 'a' <= c && c <= 'f' {
        Some(c as u32 - 97 + 10)
    } else if 'A' <= c && c <= 'F' {
        Some(c as u32 - 65 + 10)
    } else {
        None
    }
}

/// The hexadecimal number that `s` spells, if it fits.
pub fn parse_hex_usize(s: &str) -> (r: Option<usize>)
    ensures
        match r {
            Some(v) => hex_value(s@) == Some(v as nat),
            None => hex_value(s@) is None || hex_value(s@)->0 > usize::MAX,
        },
{
    let chars = chars_of(s);
    let start = digits_start(chars.as_slice());
    let n = chars.len();
    if start == n {
        return None;
    }
    let ghost digits = unsigned_part(s@);
    let mut value: u128 = 0;
    let mut i: usize = start;
    assert(digits.take(0) =~= Seq::<char>::empty());
    while i < n
        invariant
            n == chars@.len(),
            chars@ == s@,
            start <= i <= n,
            start < n,
            digits == unsigned_part(s@),
            digits == chars@.skip(start as int),
            value <= usize::MAX,
            hex_digits_value(digits.take(i - start)) == Some(value as nat),
        decreases n - i,
    {
        let c = chars[i];
        proof {
            assert(digits.take(i + 1 - start).drop_last() =~= digits.take(i - start));
            assert(digits.take(i + 1 - start).last() == c);
            lemma_hexadecimal_grows(digits, i + 1 - start);
        }
        let d = match hex_digit(c) {
            Some(d) => d,
            None => {
                return None;
            },
        };
        value = value * 16 + d as u128;
        if value > usize::MAX as u128 {
            return None;
        }
        i += 1;
    }
    assert(digits.take(digits.len() as int) =~= digits);
    Some(value as usize)
}

} // verus!
