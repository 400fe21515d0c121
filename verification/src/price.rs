//! Fixed-point prices and the rounding rule they are served with.

use vstd::prelude::*;
use vstd::arithmetic::div_mod::lemma_fundamental_div_mod;
use vstd::arithmetic::div_mod::lemma_mod_bound;

verus! {

/// Number of price units in one whole unit of the quote currency.
pub const UNITS_PER_WHOLE: i64 = 100_000_000;

/// Served averages are multiples of this many units: four decimal places.
pub const ROUNDING_STEP: i64 = 10_000;

/// Largest magnitude of a price, in units. A multiple of `ROUNDING_STEP`.
pub const MAX_PRICE_UNITS: i64 = 1_000_000_000_000_000_000;

/// Whether `units` is the amount of some price.
pub open spec fn in_price_range(units: int) -> bool {
    -MAX_PRICE_UNITS <= units <= MAX_PRICE_UNITS
}

/// The integer nearest to `num / den`, a tie going away from zero.
/// Meant for `den > 0`.
pub open spec fn div_round(num: int, den: int) -> int {
    if num >= 0 {
        (2 * num + den) / (2 * den)
    } else {
        -((2 * (-num) + den) / (2 * den))
    }
}

/// `|v|`.
pub open spec fn magnitude(v: int) -> int {
    if v >= 0 {
        v
    } else {
        -v
    }
}

/// `div_round` yields a nearest integer: the quotient times `den` is at most
/// half of `den` away from `num`. Where it is exactly half away, it lies
/// farther from zero than `num` does.
pub proof fn lemma_div_round_is_nearest(num: int, den: int)
    requires
        den > 0,
    ensures
        2 * magnitude(div_round(num, den) * den - num) <= den,
        2 * magnitude(div_round(num, den) * den - num) == den ==> magnitude(
            div_round(num, den) * den,
        ) > magnitude(num),
        num >= 0 ==> div_round(num, den) >= 0,
        num <= 0 ==> div_round(num, den) <= 0,
{
    let m = magnitude(num);
    let q = (2 * m + den) / (2 * den);
    lemma_fundamental_div_mod(2 * m + den, 2 * den);
    lemma_mod_bound(2 * m + den, 2 * den);
    let r = (2 * m + den) % (2 * den);
    assert(2 * m + den == (2 * den) * q + r);
    assert((2 * den) * q == 2 * (q * den)) by (nonlinear_arith);
    assert(q >= 0) by (nonlinear_arith)
        requires
            2 * m + den == 2 * (q * den) + r,
            r < 2 * den,
            m >= 0,
            den > 0,
    ;
    if num == 0 {
        vstd::arithmetic::div_mod::lemma_basic_div(den, 2 * den);
    }
    if num >= 0 {
        assert(div_round(num, den) == q);
    } else {
        assert(div_round(num, den) == -q);
        assert((-q) * den == -(q * den)) by (nonlinear_arith);
    }
}

/// An exact multiple is its own rounding: `div_round(k * den, den) == k`.
pub proof fn lemma_div_round_exact(k: int, den: int)
    requires
        den > 0,
    ensures
        div_round(k * den, den) == k,
{
    let m = magnitude(k);
    assert(m * den >= 0) by (nonlinear_arith)
        requires
            m >= 0,
            den > 0,
    ;
    assert(2 * (m * den) + den == m * (2 * den) + den) by (nonlinear_arith);
    vstd::arithmetic::div_mod::lemma_fundamental_div_mod_converse_div(
        2 * (m * den) + den,
        2 * den,
        m,
        den,
    );
    assert((2 * (m * den) + den) / (2 * den) == m);
    assert((-k) * den == -(k * den)) by (nonlinear_arith);
    if k >= 0 {
        assert(k * den >= 0);
    } else {
        assert(k * den < 0) by (nonlinear_arith)
            requires
                k < 0,
                den > 0,
        ;
    }
}

/// An amount of money per unit of the traded asset, in fixed point:
/// `UNITS_PER_WHOLE` units make one whole. Every value lies within
/// `MAX_PRICE_UNITS` of zero.
#[derive(Clone, Copy, Debug, PartialEq, Eq, Structural)]
pub struct Price {
    units: i64,
}

impl View for Price {
    type V = int;

    /// The amount in units.
    closed spec fn view(&self) -> int {
        self.units as int
    }
}

impl Price {
    #[verifier::type_invariant]
    spec fn bounded(self) -> bool {
        in_price_range(self.units as int)
    }

    /// The price whose amount is `units`, for `units` in range.
    pub closed spec fn of_units(units: int) -> Price {
        Price { units: units as i64 }
    }

    /// `of_units` and the view are inverse to each other on amounts in
    /// range.
    pub proof fn lemma_of_units(units: int)
        requires
            in_price_range(units),
        ensures
            Price::of_units(units)@ == units,
    {
    }

    /// A price is determined by its amount.
    pub proof fn lemma_of_view(p: Price)
        ensures
            Price::of_units(p@) == p,
    {
    }

    /// The price of `units` units, if that is in range.
    pub fn from_units(units: i64) -> (r: Option<Price>)
        ensures
            r == if in_price_range(units as int) {
                Some(Price::of_units(units as int))
            } else {
                None
            },
    {
        if -MAX_PRICE_UNITS <= units && units <= MAX_PRICE_UNITS {
            Some(Price { units })
        } else {
            None
        }
    }

    /// The amount in units.
    pub fn units(&self) -> (u: i64)
        ensures
            u == self@,
            in_price_range(u as int),
    {
        proof {
            use_type_invariant(self);
        }
        self.units
    }

    /// The price halfway between the best bid and the best ask, rounded to
    /// a whole unit, a tie going away from zero.
    pub fn mid_price(bid: Price, ask: Price) -> (mid: Price)
        ensures
            mid == Price::of_units(div_round(bid@ + ask@, 2)),
    {
        let total: i128 = bid.units() as i128 + ask.units() as i128;
        proof {
            lemma_div_round_bounded(total as int, 2, 2 * MAX_PRICE_UNITS as int);
        }
        let half: i128 = round_quotient(total, 2);
        Price { units: half as i64 }
    }
}

/// A rounded quotient is no farther from zero than the bound `limit / den`
/// of what was divided, when `den` divides `limit`.
pub proof fn lemma_div_round_bounded(num: int, den: int, limit: int)
    requires
        den > 0,
        limit >= 0,
        limit % den == 0,
        -limit <= num <= limit,
    ensures
        -(limit / den) <= div_round(num, den) <= limit / den,
{
    let k = limit / den;
    let m = magnitude(num);
    lemma_fundamental_div_mod(limit, den);
    assert(limit == den * k);
    assert(2 * m + den <= (2 * den) * k + den) by (nonlinear_arith)
        requires
            m <= den * k,
    ;
    assert(0 <= 2 * m + den);
    vstd::arithmetic::div_mod::lemma_div_is_ordered(2 * m + den, (2 * den) * k + den, 2 * den);
    vstd::arithmetic::div_mod::lemma_fundamental_div_mod_converse_div(
        (2 * den) * k + den,
        2 * den,
        k,
        den,
    );
    vstd::arithmetic::div_mod::lemma_div_pos_is_pos(2 * m + den, 2 * den);
}

/// `div_round` on machine integers.
pub(crate) fn round_quotient(num: i128, den: u128) -> (q: i128)
    requires
        0 < den <= 0x10_0000_0000_0000_0000_0000_0000,
        -0x2000_0000_0000_0000_0000_0000_0000_0000 <= num <= 0x2000_0000_0000_0000_0000_0000_0000_0000,
    ensures
        q == div_round(num as int, den as int),
{
    let positive: bool = num >= 0;
    let mag: u128 = if positive {
        num as u128
    } else {
        (-num) as u128
    };
    let twice: u128 = 2 * den;
    let scaled: u128 = 2 * mag + den;
    let quotient: u128 = scaled / twice;
    proof {
        vstd::arithmetic::div_mod::lemma_div_is_ordered_by_denominator(
            scaled as int,
            1,
            twice as int,
        );
        vstd::arithmetic::div_mod::lemma_div_basics_3(scaled as int);
        vstd::arithmetic::div_mod::lemma_div_pos_is_pos(scaled as int, twice as int);
    }
    if positive {
        quotient as i128
    } else {
        -(quotient as i128)
    }
}

} // verus!
