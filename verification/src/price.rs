//! Exact decimal prices.
//!
//! A price is a non-negative decimal number of currency units per token, kept
//! as a whole number of units of 10^-12. Text is accepted when it is a plain
//! decimal literal (digits, at most one point, at least one digit), is below
//! ten thousand, and has no non-zero digit after the twelfth decimal place.

use vstd::prelude::*;
use crate::text::{chars_of, find_char, first_index_of};

verus! {

/// How many price units make one currency unit.
pub const UNITS_PER_CURRENCY: u64 = 1_000_000_000_000;

/// Number of decimal places that a price keeps.
pub const PRICE_DECIMALS: usize = 12;

/// Prices are strictly below this many currency units per token.
pub const WHOLE_LIMIT: u64 = 10_000;

/// Prices are strictly below this many units.
pub const PRICE_LIMIT: u64 = 10_000_000_000_000_000;

/// A price per token, in units of 10^-12 of the currency.
#[derive(Clone, Copy, Debug, PartialEq, Eq, Structural)]
pub struct Price {
    pub units: u64,
}

impl Price {
    /// Every parsed price is within the representable range.
    pub open spec fn wf(&self) -> bool {
        self.units < PRICE_LIMIT
    }
}

pub open spec fn is_digit(c: char) -> bool {
    '0' <= c && c <= '9'
}

pub open spec fn digit_value(c: char) -> nat {
    if is_digit(c) {
        (c as u32 - '0' as u32) as nat
    } else {
        0
    }
}

pub open spec fn all_digits(s: Seq<char>) -> bool {
    forall|i: int| 0 <= i < s.len() ==> is_digit(#[trigger] s[i])
}

/// The number that a sequence of decimal digits writes.
pub open spec fn decimal_value(s: Seq<char>) -> nat
    decreases s.len(),
{
    if s.len() == 0 {
        0
    } else {
        decimal_value(s.drop_last()) * 10 + digit_value(s.last())
    }
}

/// Index of the first decimal point in `s`, or `s.len()` if it has none.
pub open spec fn point_position(s: Seq<char>) -> int {
    first_index_of(s, '.')
}

/// The digits before the decimal point.
pub open spec fn whole_part(s: Seq<char>) -> Seq<char> {
    s.take(point_position(s))
}

/// The digits after the decimal point (empty without a point).
pub open spec fn fraction_part(s: Seq<char>) -> Seq<char> {
    if point_position(s) < s.len() {
        s.skip(point_position(s) + 1)
    } else {
        Seq::empty()
    }
}

/// The first twelve decimal places of a fraction, filled up with zeros.
pub open spec fn padded_fraction(frac: Seq<char>) -> Seq<char> {
    Seq::new(
        PRICE_DECIMALS as nat,
        |k: int|
            if k < frac.len() {
                frac[k]
            } else {
                '0'
            },
    )
}

/// No digit after the twelfth decimal place is other than zero.
pub open spec fn fits_precision(frac: Seq<char>) -> bool {
    forall|k: int| PRICE_DECIMALS <= k < frac.len() ==> #[trigger] frac[k] == '0'
}

/// Whether `s` is a price literal in range.
pub open spec fn is_price_text(s: Seq<char>) -> bool {
    &&& all_digits(whole_part(s))
    &&& all_digits(fraction_part(s))
    &&& whole_part(s).len() + fraction_part(s).len() > 0
    &&& fits_precision(fraction_part(s))
    &&& decimal_value(whole_part(s)) < WHOLE_LIMIT
}

/// The price that `s` writes, in units, where `s` is a price literal.
pub open spec fn price_text_units(s: Seq<char>) -> nat {
    decimal_value(whole_part(s)) * (UNITS_PER_CURRENCY as nat) + decimal_value(
        padded_fraction(fraction_part(s)),
    )
}

/// What parsing `s` gives: its units, or `None` where `s` is no price.
pub open spec fn price_of_text(s: Seq<char>) -> Option<nat> {
    if is_price_text(s) {
        Some(price_text_units(s))
    } else {
        None
    }
}

/// The price used for ordering: text that is no price counts as zero.
pub open spec fn price_or_zero(s: Seq<char>) -> nat {
    match price_of_text(s) {
        Some(u) => u,
        None => 0,
    }
}

pub open spec fn pow10(n: nat) -> nat
    decreases n,
{
    if n == 0 {
        1
    } else {
        10 * pow10((n - 1) as nat)
    }
}

/// Dropping trailing digits never makes the number larger.
pub proof fn lemma_decimal_value_prefix(s: Seq<char>, k: int)
    requires
        0 <= k <= s.len(),
    ensures
        decimal_value(s.take(k)) <= decimal_value(s),
    decreases s.len(),
{
    if k < s.len() {
        lemma_decimal_value_prefix(s.drop_last(), k);
        assert(s.drop_last().take(k) =~= s.take(k));
    } else {
        assert(s.take(k) =~= s);
    }
}

fn digit_of(c: char) -> (d: u64)
    requires
        is_digit(c),
    ensures
        d == digit_value(c),
        d <= 9,
{
    (c as u32 - '0' as u32) as u64
}

/// Reads a price from text.
pub fn parse_price(text: &str) -> (r: Option<Price>)
    ensures
        match r {
            Some(p) => price_of_text(text@) == Some(p.units as nat) && p.wf(),
            None => price_of_text(text@).is_none(),
        },
{
    let chars = chars_of(text);
    let n: usize = chars.len();
    let point: usize = find_char(&chars, '.');
    let ghost whole = whole_part(text@);
    let ghost frac = fraction_part(text@);
    // The whole part.
    let mut w: u64 = 0;
    let mut i: usize = 0;
    while i < point
        invariant
            i <= point <= n,
            n == text@.len(),
            chars@ == text@,
            whole == whole_part(text@),
            whole == text@.take(point as int),
            all_digits(whole.take(i as int)),
            w == decimal_value(whole.take(i as int)),
            w < WHOLE_LIMIT,
        decreases point - i,
    {
        let c: char = chars[i];
        assert(whole[i as int] == c);
        if !(c >= '0' && c <= '9') {
            assert(!all_digits(whole));
            return None;
        }
        let d = digit_of(c);
        let next: u64 = w * 10 + d;
        proof {
            assert(whole.take(i + 1).drop_last() =~= whole.take(i as int));
            assert(whole.take(i + 1).last() == c);
            assert(next == decimal_value(whole.take(i + 1)));
            assert forall|j: int| 0 <= j < i + 1 implies is_digit(
                #[trigger] whole.take(i + 1)[j],
            ) by {
                if j < i {
                    assert(whole.take(i as int)[j] == whole.take(i + 1)[j]);
                }
            }
        }
        if next >= WHOLE_LIMIT {
            proof {
                lemma_decimal_value_prefix(whole, i + 1);
            }
            return None;
        }
        w = next;
        i += 1;
    }
    assert(whole.take(point as int) =~= whole);
    // The fraction.
    let start: usize = if point < n {
        point + 1
    } else {
        n
    };
    let frac_len: usize = n - start;
    assert(frac =~= text@.skip(start as int));
    let mut f: u64 = 0;
    let mut k: usize = 0;
    while k < frac_len || k < PRICE_DECIMALS
        invariant
            start + frac_len == n,
            n == text@.len(),
            chars@ == text@,
            frac == fraction_part(text@),
            frac == text@.skip(start as int),
            frac.len() == frac_len,
            all_digits(frac.take(if k <= frac_len { k as int } else { frac_len as int })),
            forall|j: int| PRICE_DECIMALS <= j < k && j < frac_len ==> #[trigger] frac[j] == '0',
            k <= PRICE_DECIMALS ==> f == decimal_value(padded_fraction(frac).take(k as int)),
            k <= PRICE_DECIMALS ==> f < pow10(k as nat),
            k >= PRICE_DECIMALS ==> f == decimal_value(padded_fraction(frac)),
            f < UNITS_PER_CURRENCY,
            k > PRICE_DECIMALS ==> k <= frac_len,
        decreases (if frac_len > PRICE_DECIMALS { frac_len } else { PRICE_DECIMALS }) - k,
    {
        let ghost seen = frac.take(if k <= frac_len { k as int } else { frac_len as int });
        let mut d: u64 = 0;
        if k < frac_len {
            let c: char = chars[start + k];
            assert(frac[k as int] == c);
            if !(c >= '0' && c <= '9') {
                assert(!all_digits(frac));
                return None;
            }
            d = digit_of(c);
            proof {
                let wider = frac.take(k + 1);
                assert forall|j: int| 0 <= j < wider.len() implies is_digit(#[trigger] wider[j]) by {
                    if j < k {
                        assert(seen[j] == wider[j]);
                    }
                }
            }
            if k >= PRICE_DECIMALS && d != 0 {
                assert(!fits_precision(frac));
                return None;
            }
        }
        if k < PRICE_DECIMALS {
            proof {
                let p = padded_fraction(frac);
                assert(p.take(k + 1).drop_last() =~= p.take(k as int));
                assert(digit_value(p.take(k + 1).last()) == d);
                assert(pow10((k + 1) as nat) == 10 * pow10(k as nat));
                lemma_pow10_twelve();
                lemma_pow10_monotone((k + 1) as nat, 12);
                if k + 1 == PRICE_DECIMALS {
                    assert(p.take(k + 1) =~= p);
                }
            }
            f = f * 10 + d;
        }
        k += 1;
    }
    assert(frac.take(frac_len as int) =~= frac);
    if point + frac_len == 0 {
        return None;
    }
    assert(is_price_text(text@));
    assert(w * UNITS_PER_CURRENCY + f < PRICE_LIMIT) by (nonlinear_arith)
        requires
            w < 10_000,
            f < 1_000_000_000_000,
            UNITS_PER_CURRENCY == 1_000_000_000_000,
            PRICE_LIMIT == 10_000_000_000_000_000,
    ;
    Some(Price { units: w * UNITS_PER_CURRENCY + f })
}

pub proof fn lemma_pow10_twelve()
    ensures
        pow10(12) == 1_000_000_000_000,
{
    reveal_with_fuel(pow10, 13);
}

pub proof fn lemma_pow10_monotone(a: nat, b: nat)
    requires
        a <= b,
    ensures
        pow10(a) <= pow10(b),
    decreases b,
{
    if a < b {
        lemma_pow10_monotone(a, (b - 1) as nat);
    }
}

} // verus!
