//! The decimal notation of integers.

use crate::error::IntegerError;
use crate::text::{chars_of, trimmed, trimmed_end, trimmed_start};
use vstd::prelude::*;

verus! {

/// The digit for a number below ten.
pub open spec fn digit(d: int) -> char {
    ('0' as int + d) as char
}

/// Whether `c` is one of the ten ASCII digits.
pub open spec fn is_digit(c: char) -> bool {
    '0' <= c <= '9'
}

/// The decimal notation of `n`.
pub open spec fn decimal(n: nat) -> Seq<char>
    decreases n,
{
    if n < 10 {
        seq![digit(n as int)]
    } else {
        decimal(n / 10).push(digit((n % 10) as int))
    }
}

/// The decimal notation of `n`, with a minus sign where it is negative.
pub open spec fn signed_decimal(n: int) -> Seq<char> {
    if n < 0 {
        seq!['-'] + decimal((-n) as nat)
    } else {
        decimal(n as nat)
    }
}

/// `s` with as many zeros in front as `width` asks for.
pub open spec fn zero_padded(s: Seq<char>, width: nat) -> Seq<char> {
    if s.len() < width {
        Seq::new((width - s.len()) as nat, |i: int| '0') + s
    } else {
        s
    }
}

/// The number that `digits` continue `sofar` to, read from left to right: the first
/// character that is no digit, or takes the number over `max`, ends it.
pub open spec fn digits_value(digits: Seq<char>, sofar: nat, max: nat) -> Result<nat, IntegerError>
    decreases digits.len(),
{
    if digits.len() == 0 {
        Ok(sofar)
    } else if !is_digit(digits[0]) {
        Err(IntegerError::InvalidDigit)
    } else {
        let next = (sofar * 10 + (digits[0] as int - '0' as int)) as nat;
        if next > max {
            Err(IntegerError::TooLarge)
        } else {
            digits_value(digits.drop_first(), next, max)
        }
    }
}

/// The number up to `max` that a text denotes: digits, a plus sign allowed in front.
pub open spec fn integer_value(s: Seq<char>, max: nat) -> Result<nat, IntegerError> {
    if s.len() == 0 {
        Err(IntegerError::Empty)
    } else if s[0] == '+' && s.len() > 1 {
        digits_value(s.drop_first(), 0, max)
    } else {
        digits_value(s, 0, max)
    }
}

/// The decimal notation of `n`.
pub fn to_decimal(n: u64) -> (r: String)
    ensures
        r@ == decimal(n as nat),
    decreases n,
{
    let d: u8 = (n % 10) as u8;
    let mut s = if n < 10 {
        String::new()
    } else {
        to_decimal(n / 10)
    };
    s.push((48u8 + d) as char);
    assert(n < 10 ==> s@ == decimal(n as nat));
    s
}

/// The decimal notation of `n`, with a minus sign where it is negative.
pub fn to_signed_decimal(n: i32) -> (r: String)
    ensures
        r@ == signed_decimal(n as int),
{
    if n < 0 {
        let size: u64 = (-(n as i64)) as u64;
        let mut s = String::new();
        s.push('-');
        s.append(to_decimal(size).as_str());
        s
    } else {
        to_decimal(n as u64)
    }
}

/// The decimal notation of `n`, with zeros in front up to `width` digits.
pub fn to_padded_decimal(n: u64, width: usize) -> (r: String)
    ensures
        r@ == zero_padded(decimal(n as nat), width as nat),
{
    let digits = to_decimal(n);
    let len = digits.as_str().unicode_len();
    let mut s = String::new();
    let mut i: usize = len;
    while i < width
        invariant
            len == digits@.len(),
            len <= i,
            i <= width || i == len,
            s@ == Seq::new((i - len) as nat, |j: int| '0'),
        decreases width - i,
    {
        s.push('0');
        i += 1;
    }
    s.append(digits.as_str());
    assert(len >= width ==> s@ == digits@);
    s
}

/// The number up to `max` that a text denotes.
pub fn parse_integer(s: &str, max: u64) -> (r: Result<u64, IntegerError>)
    ensures
        match r {
            Ok(n) => integer_value(s@, max as nat) == Ok::<nat, IntegerError>(n as nat) && n <= max,
            Err(e) => integer_value(s@, max as nat) == Err::<nat, IntegerError>(e),
        },
{
    let chars = chars_of(s);
    if chars.len() == 0 {
        return Err(IntegerError::Empty);
    }
    let mut at: usize = if chars[0] == '+' && chars.len() > 1 {
        1
    } else {
        0
    };
    let mut value: u64 = 0;
    assert(s@.skip(0) == s@);
    assert(s@.skip(1) == s@.drop_first());
    while at < chars.len()
        invariant
            chars@ == s@,
            at <= chars.len(),
            value <= max,
            integer_value(s@, max as nat) == digits_value(
                s@.skip(at as int),
                value as nat,
                max as nat,
            ),
        decreases chars.len() - at,
    {
        let c = chars[at];
        let ghost rest = s@.skip(at as int);
        assert(rest.drop_first() == s@.skip(at + 1));
        if c < '0' || c > '9' {
            return Err(IntegerError::InvalidDigit);
        }
        let d: u64 = (c as u32 - 48) as u64;
        let next: u128 = value as u128 * 10 + d as u128;
        if next > max as u128 {
            return Err(IntegerError::TooLarge);
        }
        value = next as u64;
        at += 1;
    }
    Ok(value)
}

/// A decimal notation is made of digits, at least one.
pub proof fn lemma_decimal_digits(n: nat)
    ensures
        decimal(n).len() > 0,
        forall|i: int| 0 <= i < decimal(n).len() ==> is_digit(#[trigger] decimal(n)[i]),
    decreases n,
{
    if n >= 10 {
        lemma_decimal_digits(n / 10);
    }
}

proof fn lemma_digits_value_push(s: Seq<char>, sofar: nat, max: nat, c: char)
    requires
        is_digit(c),
        digits_value(s, sofar, max) is Ok,
        digits_value(s, sofar, max)->Ok_0 * 10 + (c as int - '0' as int) <= max,
    ensures
        digits_value(s.push(c), sofar, max) == Ok::<nat, IntegerError>(
            (digits_value(s, sofar, max)->Ok_0 * 10 + (c as int - '0' as int)) as nat,
        ),
    decreases s.len(),
{
    reveal_with_fuel(digits_value, 2);
    if s.len() == 0 {
        assert(s.push(c).drop_first() == Seq::<char>::empty());
    } else {
        let next = (sofar * 10 + (s[0] as int - '0' as int)) as nat;
        assert(s.push(c).drop_first() == s.drop_first().push(c));
        lemma_digits_value_push(s.drop_first(), next, max, c);
    }
}

proof fn lemma_decimal_value(n: nat, max: nat)
    requires
        n <= max,
    ensures
        digits_value(decimal(n), 0, max) == Ok::<nat, IntegerError>(n),
    decreases n,
{
    if n < 10 {
        lemma_digits_value_push(Seq::empty(), 0, max, digit(n as int));
        assert(Seq::<char>::empty().push(digit(n as int)) == decimal(n));
    } else {
        lemma_decimal_value(n / 10, max);
        lemma_digits_value_push(decimal(n / 10), 0, max, digit((n % 10) as int));
    }
}

/// A number in decimal notation, read again with the white space around it left out,
/// is that number.
pub proof fn law_decimal_reads_back(n: nat, max: nat)
    requires
        n <= max,
    ensures
        integer_value(trimmed(decimal(n)), max) == Ok::<nat, IntegerError>(n),
{
    let s = decimal(n);
    lemma_decimal_digits(n);
    assert(is_digit(s[0]));
    assert(is_digit(s.last()));
    assert(trimmed_start(s) == s);
    assert(trimmed_end(s) == s);
    lemma_decimal_value(n, max);
}

/// Two numbers with the same decimal notation are the same.
pub proof fn law_decimal_tells_apart(a: nat, b: nat)
    requires
        decimal(a) == decimal(b),
    ensures
        a == b,
{
    let max = if a < b {
        b
    } else {
        a
    };
    lemma_decimal_value(a, max);
    lemma_decimal_value(b, max);
}

proof fn lemma_leading_zeros(zeros: nat, s: Seq<char>, max: nat)
    ensures
        digits_value(Seq::new(zeros, |i: int| '0') + s, 0, max) == digits_value(s, 0, max),
    decreases zeros,
{
    let front = Seq::new(zeros, |i: int| '0');
    if zeros == 0 {
        assert(front + s == s);
    } else {
        let fewer = Seq::new((zeros - 1) as nat, |i: int| '0');
        assert((front + s).drop_first() == fewer + s);
        lemma_leading_zeros((zeros - 1) as nat, s, max);
    }
}

/// Zeros in front do not change the number that a decimal notation denotes.
pub proof fn lemma_padded_value(n: nat, width: nat, max: nat)
    requires
        n <= max,
    ensures
        digits_value(zero_padded(decimal(n), width), 0, max) == Ok::<nat, IntegerError>(n),
{
    lemma_decimal_value(n, max);
    if decimal(n).len() < width {
        lemma_leading_zeros((width - decimal(n).len()) as nat, decimal(n), max);
    }
}

/// A number that was read is no larger than allowed.
pub proof fn lemma_value_within(s: Seq<char>, max: nat)
    ensures
        integer_value(s, max) matches Ok(n) ==> n <= max,
{
    lemma_digits_value_within(s, 0, max);
    if s.len() > 0 {
        lemma_digits_value_within(s.drop_first(), 0, max);
    }
}

proof fn lemma_digits_value_within(s: Seq<char>, sofar: nat, max: nat)
    requires
        sofar <= max,
    ensures
        digits_value(s, sofar, max) matches Ok(n) ==> n <= max,
    decreases s.len(),
{
    if s.len() > 0 && is_digit(s[0]) {
        let next = (sofar * 10 + (s[0] as int - '0' as int)) as nat;
        if next <= max {
            lemma_digits_value_within(s.drop_first(), next, max);
        }
    }
}

/// The decimal notation ends in the last digit of the number, behind the notation of the rest.
pub proof fn law_decimal_has_the_digits(n: nat)
    ensures
        n < 10 ==> decimal(n).len() == 1,
        decimal(n).len() > 0,
        decimal(n).last() as int == '0' as int + n % 10,
        n >= 10 ==> decimal(n).drop_last() == decimal(n / 10),
        signed_decimal(n as int) == decimal(n),
        n > 0 ==> signed_decimal(-(n as int)) == seq!['-'] + decimal(n),
{
    if n >= 10 {
        assert(decimal(n).drop_last() == decimal(n / 10));
    }
}

/// Padding puts zeros in front, as many as are missing, and keeps the text behind them.
pub proof fn law_padding_puts_zeros_in_front(s: Seq<char>, width: nat)
    ensures
        zero_padded(s, width).len() == (if s.len() < width {
            width
        } else {
            s.len()
        }),
        zero_padded(s, width).skip(zero_padded(s, width).len() - s.len()) == s,
        forall|i: int|
            0 <= i < zero_padded(s, width).len() - s.len() ==> #[trigger] zero_padded(s, width)[i]
                == '0',
{
    assert(zero_padded(s, width).skip(zero_padded(s, width).len() - s.len()) =~= s);
}

proof fn lemma_refused_stays_refused(s: Seq<char>, sofar: nat, max: nat, c: char)
    requires
        digits_value(s, sofar, max) is Err,
    ensures
        digits_value(s.push(c), sofar, max) == digits_value(s, sofar, max),
    decreases s.len(),
{
    if s.len() > 0 {
        assert(s.push(c).drop_first() == s.drop_first().push(c));
        assert(s.push(c)[0] == s[0]);
        if is_digit(s[0]) {
            let next = (sofar * 10 + (s[0] as int - '0' as int)) as nat;
            if next <= max {
                lemma_refused_stays_refused(s.drop_first(), next, max, c);
            }
        }
    }
}

proof fn lemma_last_digit_too_large(s: Seq<char>, sofar: nat, max: nat, c: char)
    requires
        is_digit(c),
        digits_value(s, sofar, max) is Ok,
        digits_value(s, sofar, max)->Ok_0 * 10 + (c as int - '0' as int) > max,
    ensures
        digits_value(s.push(c), sofar, max) == Err::<nat, IntegerError>(IntegerError::TooLarge),
    decreases s.len(),
{
    reveal_with_fuel(digits_value, 2);
    if s.len() == 0 {
        assert(s.push(c)[0] == c);
    } else {
        let next = (sofar * 10 + (s[0] as int - '0' as int)) as nat;
        assert(s.push(c).drop_first() == s.drop_first().push(c));
        assert(s.push(c)[0] == s[0]);
        lemma_last_digit_too_large(s.drop_first(), next, max, c);
    }
}

proof fn lemma_decimal_too_large(n: nat, max: nat)
    requires
        n > max,
    ensures
        digits_value(decimal(n), 0, max) == Err::<nat, IntegerError>(IntegerError::TooLarge),
    decreases n,
{
    if n < 10 {
        let c = digit(n as int);
        lemma_last_digit_too_large(Seq::empty(), 0, max, c);
        assert(Seq::<char>::empty().push(c) == decimal(n));
    } else if n / 10 > max {
        lemma_decimal_too_large(n / 10, max);
        lemma_refused_stays_refused(decimal(n / 10), 0, max, digit((n % 10) as int));
    } else {
        lemma_decimal_value(n / 10, max);
        lemma_last_digit_too_large(decimal(n / 10), 0, max, digit((n % 10) as int));
    }
}

/// A number in decimal notation, with or without a plus sign, is read as that number, unless it is
/// too large. Nothing is no number, and neither is what starts with another character.
pub proof fn law_decimal_is_read(n: nat, max: nat)
    ensures
        n <= max ==> integer_value(decimal(n), max) == Ok::<nat, IntegerError>(n),
        n <= max ==> integer_value(seq!['+'] + decimal(n), max) == Ok::<nat, IntegerError>(n),
        n > max ==> integer_value(decimal(n), max) == Err::<nat, IntegerError>(
            IntegerError::TooLarge,
        ),
        integer_value(Seq::empty(), max) == Err::<nat, IntegerError>(IntegerError::Empty),
        forall|s: Seq<char>|
            s.len() > 0 && !('0' <= s[0] <= '9') && (s[0] != '+' || s.len() == 1) ==> #[trigger]
                integer_value(s, max) == Err::<nat, IntegerError>(IntegerError::InvalidDigit),
{
    let s = decimal(n);
    lemma_decimal_digits(n);
    assert(is_digit(s[0]));
    assert((seq!['+'] + s).drop_first() == s);
    if n <= max {
        lemma_decimal_value(n, max);
    } else {
        lemma_decimal_too_large(n, max);
    }
}

} // verus!
