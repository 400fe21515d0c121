//! Decimal numbers in text: what they mean and how they are read.

use vstd::prelude::*;
use vstd::string::StringSliceAdditionalSpecFns;
use crate::price::{MAX_PRICE_UNITS, Price, UNITS_PER_WHOLE};

verus! {

/// Whether `c` is one of the ten decimal digits.
pub open spec fn is_digit(c: char) -> bool {
    '0' <= c && c <= '9'
}

/// The number that the digit `c` stands for.
pub open spec fn digit_value(c: char) -> nat {
    (c as int - '0' as int) as nat
}

/// Whether `text` holds digits only.
pub open spec fn all_digits(text: Seq<char>) -> bool {
    forall|i: int| 0 <= i < text.len() ==> is_digit(#[trigger] text[i])
}

/// The number that a run of digits reads as, its first digit counting
/// most.
pub open spec fn digits_value(digits: Seq<char>) -> nat
    decreases digits.len(),
{
    if digits.len() == 0 {
        0
    } else {
        10 * digits_value(digits.drop_last()) + digit_value(digits.last())
    }
}

/// `text` without a plus sign in front.
pub open spec fn unsigned_digits(text: Seq<char>) -> Seq<char> {
    if text.len() > 0 && text[0] == '+' {
        text.skip(1)
    } else {
        text
    }
}

/// The natural number that `text` denotes: an optional plus sign followed
/// by one digit or more and nothing else. `None` for any other text.
pub open spec fn unsigned_decimal(text: Seq<char>) -> Option<nat> {
    let digits = unsigned_digits(text);
    if digits.len() > 0 && all_digits(digits) {
        Some(digits_value(digits))
    } else {
        None
    }
}

/// The number that `text` denotes, where it denotes one that is at most
/// `max`.
pub open spec fn unsigned_decimal_up_to(text: Seq<char>, max: int) -> Option<nat> {
    match unsigned_decimal(text) {
        Some(value) => if value <= max {
            Some(value)
        } else {
            None
        },
        None => None,
    }
}

/// A run of digits reads as no less than any of its beginnings.
pub proof fn lemma_digits_value_grows(digits: Seq<char>, k: int)
    requires
        0 <= k <= digits.len(),
    ensures
        digits_value(digits.take(k)) <= digits_value(digits),
    decreases digits.len() - k,
{
    if k == digits.len() {
        assert(digits.take(k) =~= digits);
    } else {
        assert(digits.drop_last().take(k) =~= digits.take(k));
        lemma_digits_value_grows(digits.drop_last(), k);
    }
}

/// A text that denotes a number holds no character beyond the ASCII range.
pub proof fn lemma_digits_are_ascii(text: Seq<char>)
    requires
        unsigned_decimal(text) is Some,
    ensures
        vstd::utf8::is_ascii_chars(text),
{
    let digits = unsigned_digits(text);
    assert forall|i: int| 0 <= i < text.len() implies '\0' <= #[trigger] text[i] <= '\u{7f}' by {
        if digits.len() < text.len() {
            if i > 0 {
                assert(is_digit(digits[i - 1]));
            }
        } else {
            assert(is_digit(digits[i]));
        }
    }
}

/// A byte of ASCII text that is a digit.
fn is_digit_byte(b: u8) -> (digit: bool)
    ensures
        digit == (48 <= b <= 57),
{
    48 <= b && b <= 57
}

/// Whether `bytes` and `chars` hold the same ASCII text.
spec fn same_ascii(bytes: Seq<u8>, chars: Seq<char>) -> bool {
    &&& bytes.len() == chars.len()
    &&& forall|i: int|
        0 <= i < chars.len() ==> (#[trigger] chars[i]) as int == bytes[i] as int && bytes[i] < 128
}

/// Reads digits from `bytes[from]` on, as far as they go. Gives the place
/// where they end and the number they read as, or `None` where that number
/// is beyond `limit`.
fn read_digits(
    bytes: &[u8],
    Ghost(chars): Ghost<Seq<char>>,
    from: usize,
    limit: u64,
) -> (r: Option<(usize, u64)>)
    requires
        same_ascii(bytes@, chars),
        from <= bytes@.len(),
    ensures
        match r {
            Some((end, value)) => {
                &&& from <= end <= bytes@.len()
                &&& all_digits(chars.subrange(from as int, end as int))
                &&& end < bytes@.len() ==> !is_digit(chars[end as int])
                &&& value == digits_value(chars.subrange(from as int, end as int))
                &&& value <= limit
            },
            None => exists|end: int|
                from <= end <= bytes@.len() && all_digits(
                    #[trigger] chars.subrange(from as int, end),
                ) && digits_value(chars.subrange(from as int, end)) > limit,
        },
{
    let mut acc: u128 = 0;
    let mut i: usize = from;
    proof {
        assert(chars.subrange(from as int, from as int) =~= Seq::<char>::empty());
    }
    while i < bytes.len() && is_digit_byte(bytes[i])
        invariant
            same_ascii(bytes@, chars),
            from <= i <= bytes@.len(),
            all_digits(chars.subrange(from as int, i as int)),
            acc == digits_value(chars.subrange(from as int, i as int)),
            acc <= limit,
        decreases bytes@.len() - i,
    {
        let d: u128 = (bytes[i] - 48) as u128;
        proof {
            let c = chars[i as int];
            let next = chars.subrange(from as int, i + 1);
            assert(c as int == bytes@[i as int] as int);
            assert('0' as int == 48 && '9' as int == 57);
            assert(is_digit(c));
            assert(next.drop_last() =~= chars.subrange(from as int, i as int));
            assert(next.last() == c);
            assert forall|j: int| 0 <= j < next.len() implies is_digit(#[trigger] next[j]) by {
                if j < i - from {
                    assert(next[j] == chars.subrange(from as int, i as int)[j]);
                }
            }
            assert(digits_value(next) == 10 * acc + d);
        }
        acc = acc * 10 + d;
        i = i + 1;
        if acc > limit as u128 {
            return None;
        }
    }
    proof {
        if i < bytes@.len() {
            let c = chars[i as int];
            assert(c as int == bytes@[i as int] as int);
            assert('0' as int == 48 && '9' as int == 57);
        }
    }
    Some((i, acc as u64))
}

/// Reads an unsigned decimal number that fits 64 bits.
pub fn parse_unsigned(text: &str) -> (value: Option<u64>)
    ensures
        match value {
            Some(v) => unsigned_decimal_up_to(text@, u64::MAX as int) == Some(v as nat),
            None => unsigned_decimal_up_to(text@, u64::MAX as int) is None,
        },
{
    if !text.is_ascii() {
        proof {
            if unsigned_decimal(text@) is Some {
                lemma_digits_are_ascii(text@);
            }
        }
        return None;
    }
    let bytes: &[u8] = text.as_bytes();
    let n: usize = bytes.len();
    let ghost chars = text@;
    proof {
        vstd::string::is_ascii_spec_bytes(text);
        assert(same_ascii(bytes@, chars));
        assert('+' as int == 43);
    }
    let start: usize = if n > 0 && bytes[0] == 43 {
        1
    } else {
        0
    };
    let ghost digits = unsigned_digits(chars);
    proof {
        if n > 0 {
            assert(chars[0] as int == bytes@[0] as int);
        }
        assert(digits =~= chars.subrange(start as int, n as int));
    }
    match read_digits(bytes, Ghost(chars), start, u64::MAX) {
        Some((end, value)) => {
            if start < end && end == n {
                Some(value)
            } else {
                proof {
                    if end < n {
                        assert(digits[end - start] == chars[end as int]);
                    }
                }
                None
            }
        },
        None => {
            proof {
                let end = choose|end: int|
                    start <= end <= n && all_digits(#[trigger] chars.subrange(start as int, end))
                        && digits_value(chars.subrange(start as int, end)) > u64::MAX;
                assert(digits.take(end - start) =~= chars.subrange(start as int, end));
                lemma_digits_value_grows(digits, end - start);
            }
            None
        },
    }
}

/// Why a text gives no price.
#[derive(Clone, Copy, Debug, PartialEq, Eq, Structural)]
pub enum PriceTextError {
    /// The text spells "not a number".
    NotANumber,
    /// The text is no decimal number, or one beyond the range of prices.
    Invalid,
}

/// Whether `text` starts with a sign.
pub open spec fn has_sign(text: Seq<char>) -> bool {
    text.len() > 0 && (text[0] == '+' || text[0] == '-')
}

/// `text` without its sign.
pub open spec fn unsigned_part(text: Seq<char>) -> Seq<char> {
    if has_sign(text) {
        text.skip(1)
    } else {
        text
    }
}

/// Whether `text` spells "not a number": the letters of `nan` in either
/// case, after a sign or without one.
pub open spec fn is_nan_text(text: Seq<char>) -> bool {
    let body = unsigned_part(text);
    &&& body.len() == 3
    &&& (body[0] == 'n' || body[0] == 'N')
    &&& (body[1] == 'a' || body[1] == 'A')
    &&& (body[2] == 'n' || body[2] == 'N')
}

/// Where the first point of `body` stands; the length of `body` where it
/// has none.
pub open spec fn point_position(body: Seq<char>) -> int
    decreases body.len(),
{
    if body.len() == 0 {
        0
    } else if body[0] == '.' {
        0
    } else {
        1 + point_position(body.drop_first())
    }
}

/// What stands before the first point.
pub open spec fn whole_part(body: Seq<char>) -> Seq<char> {
    body.take(point_position(body))
}

/// What stands behind the first point.
pub open spec fn fraction_part(body: Seq<char>) -> Seq<char> {
    if point_position(body) < body.len() {
        body.skip(point_position(body) + 1)
    } else {
        Seq::empty()
    }
}

/// Whether `body` is an unsigned decimal number: digits, with at most one
/// point before, between or behind them, and at least one digit.
pub open spec fn is_decimal(body: Seq<char>) -> bool {
    &&& all_digits(whole_part(body))
    &&& all_digits(fraction_part(body))
    &&& whole_part(body).len() + fraction_part(body).len() > 0
}

/// `10` to the power of `n`.
pub open spec fn pow10(n: nat) -> nat
    decreases n,
{
    if n == 0 {
        1
    } else {
        10 * pow10((n - 1) as nat)
    }
}

/// The units that the digits behind the point stand for. Eight digits
/// make a unit each; beyond them the ninth digit decides whether the amount
/// is rounded up, and what follows it changes nothing.
pub open spec fn fraction_units(fraction: Seq<char>) -> nat {
    if fraction.len() <= 8 {
        digits_value(fraction) * pow10((8 - fraction.len()) as nat)
    } else if fraction[8] >= '5' {
        digits_value(fraction.take(8)) + 1
    } else {
        digits_value(fraction.take(8))
    }
}

/// The units that the decimal number `body` stands for.
pub open spec fn decimal_units(body: Seq<char>) -> nat {
    digits_value(whole_part(body)) * (UNITS_PER_WHOLE as nat) + fraction_units(
        fraction_part(body),
    )
}

/// The price that `text` denotes: a decimal number with an optional sign,
/// read to eight decimal places, a tie going away from zero.
pub open spec fn price_of_text(text: Seq<char>) -> Result<Price, PriceTextError> {
    let body = unsigned_part(text);
    if is_nan_text(text) {
        Err(PriceTextError::NotANumber)
    } else if is_decimal(body) && decimal_units(body) <= MAX_PRICE_UNITS {
        if text[0] == '-' {
            Ok(Price::of_units(-(decimal_units(body) as int)))
        } else {
            Ok(Price::of_units(decimal_units(body) as int))
        }
    } else {
        Err(PriceTextError::Invalid)
    }
}

/// The first point of `body` stands at `at` where no point stands before
/// `at` and one stands there, or `body` ends there.
proof fn lemma_point_position(body: Seq<char>, at: int)
    requires
        0 <= at <= body.len(),
        forall|i: int| 0 <= i < at ==> body[i] != '.',
        at < body.len() ==> body[at] == '.',
    ensures
        point_position(body) == at,
    decreases body.len(),
{
    if at > 0 {
        let rest = body.drop_first();
        assert forall|i: int| 0 <= i < at - 1 implies rest[i] != '.' by {
            assert(rest[i] == body[i + 1]);
        }
        if at < body.len() {
            assert(rest[at - 1] == body[at]);
        }
        lemma_point_position(rest, at - 1);
    }
}

/// The first point stands within the text or at its end; before it stands
/// no point.
proof fn lemma_point_position_bounds(body: Seq<char>)
    ensures
        0 <= point_position(body) <= body.len(),
        forall|i: int| 0 <= i < point_position(body) ==> body[i] != '.',
        point_position(body) < body.len() ==> body[point_position(body)] == '.',
    decreases body.len(),
{
    if body.len() > 0 && body[0] != '.' {
        let rest = body.drop_first();
        lemma_point_position_bounds(rest);
        assert forall|i: int| 0 <= i < point_position(body) implies body[i] != '.' by {
            if i > 0 {
                assert(rest[i - 1] == body[i]);
            }
        }
    }
}

/// A run of `n` digits reads as less than `10` to the power of `n`.
proof fn lemma_digits_value_bound(digits: Seq<char>)
    requires
        all_digits(digits),
    ensures
        digits_value(digits) < pow10(digits.len()),
    decreases digits.len(),
{
    if digits.len() > 0 {
        let front = digits.drop_last();
        assert forall|i: int| 0 <= i < front.len() implies is_digit(#[trigger] front[i]) by {
            assert(front[i] == digits[i]);
        }
        lemma_digits_value_bound(front);
        assert(is_digit(digits[digits.len() - 1]));
        assert('0' as int == 48 && '9' as int == 57);
    }
}

/// Powers of ten grow with the exponent.
proof fn lemma_pow10_grows(a: nat, b: nat)
    requires
        a <= b,
    ensures
        0 < pow10(a) <= pow10(b),
    decreases b,
{
    if a < b {
        lemma_pow10_grows(a, (b - 1) as nat);
    } else if a > 0 {
        lemma_pow10_grows((a - 1) as nat, (a - 1) as nat);
    }
}

/// Reads the unsigned decimal number that stands in `bytes` from `start`
/// on: its units, or `None` where there is no such number or it is beyond
/// the range of prices.
fn read_decimal(bytes: &[u8], Ghost(chars): Ghost<Seq<char>>, start: usize) -> (units: Option<u64>)
    requires
        same_ascii(bytes@, chars),
        start <= bytes@.len(),
    ensures
        match units {
            Some(u) => is_decimal(chars.skip(start as int)) && decimal_units(
                chars.skip(start as int),
            ) == u && u <= MAX_PRICE_UNITS,
            None => !(is_decimal(chars.skip(start as int)) && decimal_units(
                chars.skip(start as int),
            ) <= MAX_PRICE_UNITS),
        },
{
    let n: usize = bytes.len();
    let ghost body = chars.skip(start as int);
    proof {
        lemma_point_position_bounds(body);
        assert(pow10(8) == 100_000_000) by {
            reveal_with_fuel(pow10, 9);
        }
    }
    let (dot, whole): (usize, u64) = match read_digits(
        bytes,
        Ghost(chars),
        start,
        10_000_000_000,
    ) {
        Some(found) => found,
        None => {
            proof {
                let end = choose|end: int|
                    start <= end <= n && all_digits(#[trigger] chars.subrange(start as int, end))
                        && digits_value(chars.subrange(start as int, end)) > 10_000_000_000;
                let run = chars.subrange(start as int, end);
                let p = point_position(body);
                if p < end - start {
                    assert(run[p] == body[p]);
                    assert(is_digit(run[p]));
                }
                assert(whole_part(body).take(end - start) =~= run);
                lemma_digits_value_grows(whole_part(body), end - start);
                assert(digits_value(whole_part(body)) * 100_000_000 > 1_000_000_000_000_000_000)
                    by (nonlinear_arith)
                    requires
                        digits_value(whole_part(body)) > 10_000_000_000,
                ;
            }
            return None;
        },
    };
    let ghost whole_run = chars.subrange(start as int, dot as int);
    if dot < n && bytes[dot] != 46 {
        proof {
            let p = point_position(body);
            assert(chars[dot as int] as int == bytes@[dot as int] as int);
            assert('.' as int == 46);
            assert(body[dot - start] == chars[dot as int]);
            if p < dot - start {
                assert(whole_run[p] == body[p]);
                assert(is_digit(whole_run[p]));
            }
            assert(p > dot - start);
            assert(whole_part(body)[dot - start] == body[dot - start]);
        }
        return None;
    }
    proof {
        assert forall|i: int| 0 <= i < dot - start implies body[i] != '.' by {
            assert(whole_run[i] == body[i]);
            assert(is_digit(whole_run[i]));
        }
        if dot < n {
            assert(chars[dot as int] as int == bytes@[dot as int] as int);
            assert('.' as int == 46);
            assert(body[dot - start] == chars[dot as int]);
        }
        lemma_point_position(body, dot - start);
        assert(whole_part(body) =~= whole_run);
    }
    let first: usize = if dot < n {
        dot + 1
    } else {
        n
    };
    let ghost fraction = chars.subrange(first as int, n as int);
    proof {
        assert(fraction_part(body) =~= fraction);
    }
    let mut frac: u64 = 0;
    let mut k: usize = 0;
    proof {
        assert(fraction.take(0) =~= Seq::<char>::empty());
    }
    while k < 8 && first + k < n && is_digit_byte(bytes[first + k])
        invariant
            same_ascii(bytes@, chars),
            n == bytes@.len(),
            first <= n,
            fraction == chars.subrange(first as int, n as int),
            k <= 8,
            first + k <= n,
            all_digits(fraction.take(k as int)),
            frac == digits_value(fraction.take(k as int)),
            frac < pow10(k as nat),
            pow10(8) == 100_000_000,
        decreases 8 - k,
    {
        let d: u64 = (bytes[first + k] - 48) as u64;
        proof {
            let c = chars[first + k];
            let next = fraction.take(k + 1);
            assert(c as int == bytes@[first + k] as int);
            assert('0' as int == 48 && '9' as int == 57);
            assert(is_digit(c));
            assert(next.drop_last() =~= fraction.take(k as int));
            assert(next.last() == c);
            assert forall|j: int| 0 <= j < next.len() implies is_digit(#[trigger] next[j]) by {
                if j < k {
                    assert(next[j] == fraction.take(k as int)[j]);
                }
            }
            assert(digits_value(next) == 10 * frac + d);
            lemma_digits_value_bound(next);
            lemma_pow10_grows((k + 1) as nat, 8);
        }
        frac = frac * 10 + d;
        k = k + 1;
    }
    let mut carry: u64 = 0;
    if first + k < n {
        if !is_digit_byte(bytes[first + k]) {
            proof {
                let c = chars[first + k];
                assert(c as int == bytes@[first + k] as int);
                assert('0' as int == 48 && '9' as int == 57);
                assert(fraction[k as int] == c);
            }
            return None;
        }
        if bytes[first + k] >= 53 {
            carry = 1;
        }
        let mut t: usize = first + k;
        while t < n
            invariant
                same_ascii(bytes@, chars),
                n == bytes@.len(),
                first + k <= t <= n,
                fraction == chars.subrange(first as int, n as int),
                fraction_part(chars.skip(start as int)) == fraction,
                all_digits(fraction.take(t - first)),
            decreases n - t,
        {
            proof {
                let c = chars[t as int];
                let next = fraction.take(t - first + 1);
                assert(c as int == bytes@[t as int] as int);
                assert('0' as int == 48 && '9' as int == 57);
                assert(fraction[t - first] == c);
                assert forall|j: int|
                    is_digit(c) && 0 <= j < next.len() implies is_digit(#[trigger] next[j]) by {
                    if j < t - first {
                        assert(next[j] == fraction.take(t - first)[j]);
                    }
                }
            }
            if !is_digit_byte(bytes[t]) {
                return None;
            }
            t = t + 1;
        }
        proof {
            assert(fraction.take(n - first) =~= fraction);
            assert(k == 8);
            assert(chars[first + 8] as int == bytes@[first + 8] as int);
            assert('5' as int == 53);
            assert(fraction[8] == chars[first + 8]);
            assert(fraction_units(fraction) == frac + carry);
        }
    } else {
        proof {
            assert(fraction.take(k as int) =~= fraction);
            assert(pow10(0) == 1);
            assert(digits_value(fraction) * 1 == digits_value(fraction));
        }
        let mut m: usize = k;
        while m < 8
            invariant
                k <= m <= 8,
                frac == digits_value(fraction) * pow10((m - k) as nat),
                frac < pow10(m as nat),
                pow10(8) == 100_000_000,
            decreases 8 - m,
        {
            proof {
                lemma_pow10_grows((m + 1) as nat, 8);
                assert(digits_value(fraction) * pow10((m - k) as nat) * 10 == digits_value(fraction)
                    * (10 * pow10((m - k) as nat))) by (nonlinear_arith);
            }
            frac = frac * 10;
            m = m + 1;
        }
        proof {
            assert(fraction.len() == k);
            assert(fraction_units(fraction) == frac);
        }
    }
    if dot - start + (n - first) == 0 {
        return None;
    }
    proof {
        assert(whole * 100_000_000 <= 1_000_000_000_000_000_000) by (nonlinear_arith)
            requires
                whole <= 10_000_000_000,
        ;
    }
    let units: u64 = whole * 100_000_000 + frac + carry;
    if units > 1_000_000_000_000_000_000 {
        return None;
    }
    Some(units)
}

/// Every character of a text that denotes a price or spells "not a
/// number" is an ASCII character.
proof fn lemma_price_text_is_ascii(text: Seq<char>)
    requires
        !(price_of_text(text) == Err::<Price, PriceTextError>(PriceTextError::Invalid)),
    ensures
        vstd::utf8::is_ascii_chars(text),
{
    let body = unsigned_part(text);
    lemma_point_position_bounds(body);
    let p = point_position(body);
    assert forall|i: int| 0 <= i < text.len() implies '\0' <= #[trigger] text[i] <= '\u{7f}' by {
        if has_sign(text) && i == 0 {
        } else {
            let at = if has_sign(text) {
                i - 1
            } else {
                i
            };
            assert(body[at] == text[i]);
            if is_nan_text(text) {
            } else if at < p {
                assert(whole_part(body)[at] == body[at]);
                assert(is_digit(whole_part(body)[at]));
            } else if at > p {
                assert(fraction_part(body)[at - p - 1] == body[at]);
                assert(is_digit(fraction_part(body)[at - p - 1]));
            }
        }
    }
}

impl Price {
    /// Reads a price from decimal text.
    ///
    /// The text is an optional sign, then digits with at most one point
    /// before, between or behind them. It is read to eight decimal places;
    /// of further digits the first decides whether the amount is rounded
    /// away from zero. The letters of `nan`, in either case, give
    /// `NotANumber`. No exponent is read, and infinity is no price.
    pub fn parse(text: &str) -> (price: Result<Price, PriceTextError>)
        ensures
            price == price_of_text(text@),
    {
        if !text.is_ascii() {
            proof {
                if !(price_of_text(text@) == Err::<Price, PriceTextError>(
                    PriceTextError::Invalid,
                )) {
                    lemma_price_text_is_ascii(text@);
                }
            }
            return Err(PriceTextError::Invalid);
        }
        let bytes: &[u8] = text.as_bytes();
        let n: usize = bytes.len();
        let ghost chars = text@;
        proof {
            vstd::string::is_ascii_spec_bytes(text);
            assert(same_ascii(bytes@, chars));
            assert('+' as int == 43 && '-' as int == 45);
            assert('n' as int == 110 && 'N' as int == 78 && 'a' as int == 97 && 'A' as int == 65);
        }
        let negative: bool = n > 0 && bytes[0] == 45;
        let start: usize = if n > 0 && (bytes[0] == 43 || bytes[0] == 45) {
            1
        } else {
            0
        };
        proof {
            if n > 0 {
                assert(chars[0] as int == bytes@[0] as int);
            }
            assert(unsigned_part(chars) =~= chars.skip(start as int));
        }
        if n - start == 3 {
            let b0: u8 = bytes[start];
            let b1: u8 = bytes[start + 1];
            let b2: u8 = bytes[start + 2];
            proof {
                let body = chars.skip(start as int);
                assert(body[0] as int == b0 as int);
                assert(body[1] as int == b1 as int);
                assert(body[2] as int == b2 as int);
            }
            if (b0 == 110 || b0 == 78) && (b1 == 97 || b1 == 65) && (b2 == 110 || b2 == 78) {
                return Err(PriceTextError::NotANumber);
            }
        }
        match read_decimal(bytes, Ghost(chars), start) {
            Some(units) => {
                let amount: i64 = if negative {
                    -(units as i64)
                } else {
                    units as i64
                };
                Ok(Price::from_units(amount).unwrap())
            },
            None => Err(PriceTextError::Invalid),
        }
    }
}

} // verus!
