//! Decimal text of prices and amounts.
//!
//! Prices are shown per million tokens with two decimal places, amounts with
//! a currency sign and six decimal places. Both are rounded to the nearest
//! value that can be shown, a tie going to the even one.

use vstd::prelude::*;
use vstd::string::*;
use crate::cost::CostRow;
use crate::model::Model;
use crate::price::{parse_price, price_of_text};

verus! {

/// The character that writes the digit `d`.
pub open spec fn digit_char(d: nat) -> char {
    ('0' as nat + d) as char
}

/// The decimal digits of `n`, without leading zeros.
pub open spec fn decimal_text(n: nat) -> Seq<char>
    decreases n,
{
    if n < 10 {
        seq![digit_char(n)]
    } else {
        decimal_text(n / 10).push(digit_char(n % 10))
    }
}

/// The last `width` decimal digits of `n`, with leading zeros.
pub open spec fn fixed_digits(n: nat, width: nat) -> Seq<char>
    decreases width,
{
    if width == 0 {
        Seq::empty()
    } else {
        fixed_digits(n / 10, (width - 1) as nat).push(digit_char(n % 10))
    }
}

/// `n / d` rounded to the nearest whole number, a tie going to the even one.
pub open spec fn rounded_quotient(n: nat, d: nat) -> nat {
    let q = n / d;
    let r = n % d;
    if 2 * r > d || (2 * r == d && q % 2 == 1) {
        q + 1
    } else {
        q
    }
}

/// `n` hundredths (or, with `places` 6, millionths) as decimal text with a
/// point before the last `places` digits.
pub open spec fn point_text(n: nat, scale: nat, places: nat) -> Seq<char> {
    decimal_text(n / scale) + seq!['.'] + fixed_digits(n % scale, places)
}

/// The text of a price of `units` per token, per million tokens.
pub open spec fn per_million_text(units: nat) -> Seq<char> {
    point_text(rounded_quotient(units, 10_000), 100, 2)
}

/// The text shown for a price that is absent or cannot be read.
pub open spec fn not_available() -> Seq<char> {
    "N/A"@
}

/// The text of an amount, in currency units.
pub open spec fn amount_text(amount: nat) -> Seq<char> {
    seq!['$'] + point_text(rounded_quotient(amount, 100_000_000), 1_000_000, 6)
}

fn push_digit(out: &mut String, d: u128)
    requires
        d < 10,
    ensures
        final(out)@ == old(out)@.push(digit_char(d as nat)),
{
    let digits: &str = "0123456789";
    proof {
        reveal_strlit("0123456789");
    }
    let at: usize = d as usize;
    let one: &str = digits.substring_char(at, at + 1);
    assert(one@ =~= seq![digit_char(d as nat)]);
    out.append(one);
    assert(out@ =~= old(out)@.push(digit_char(d as nat)));
}

fn push_decimal(out: &mut String, n: u128)
    ensures
        final(out)@ == old(out)@ + decimal_text(n as nat),
    decreases n,
{
    if n >= 10 {
        push_decimal(out, n / 10);
    }
    push_digit(out, n % 10);
    assert(out@ =~= old(out)@ + decimal_text(n as nat));
}

fn push_fixed(out: &mut String, n: u128, width: usize)
    ensures
        final(out)@ == old(out)@ + fixed_digits(n as nat, width as nat),
    decreases width,
{
    if width > 0 {
        push_fixed(out, n / 10, width - 1);
        push_digit(out, n % 10);
    }
    assert(out@ =~= old(out)@ + fixed_digits(n as nat, width as nat));
}

fn round_quotient(n: u128, d: u128) -> (r: u128)
    requires
        0 < d <= 100_000_000,
    ensures
        r == rounded_quotient(n as nat, d as nat),
{
    let q: u128 = n / d;
    let r: u128 = n % d;
    if 2 * r > d || (2 * r == d && q % 2 == 1) {
        assert(q < u128::MAX) by (nonlinear_arith)
            requires
                q == n / d,
                n % d > 0,
                d > 1,
                n <= u128::MAX,
        ;
        q + 1
    } else {
        q
    }
}

fn push_point_text(out: &mut String, n: u128, scale: u128, places: usize)
    requires
        scale > 0,
    ensures
        final(out)@ == old(out)@ + point_text(n as nat, scale as nat, places as nat),
{
    push_decimal(out, n / scale);
    out.append(".");
    proof {
        reveal_strlit(".");
        assert("."@ =~= seq!['.']);
    }
    push_fixed(out, n % scale, places);
    assert(out@ =~= old(out)@ + point_text(n as nat, scale as nat, places as nat));
}

/// The price per million tokens, with two decimal places, of a price per
/// token given as text; `N/A` where the text is no price.
pub fn format_price_per_million(price_str: &str) -> (r: String)
    ensures
        r@ == price_text(price_str@),
{
    match parse_price(price_str) {
        Some(price) => {
            let mut out = String::new();
            let hundredths: u128 = round_quotient(price.units as u128, 10_000);
            push_point_text(&mut out, hundredths, 100, 2);
            assert(out@ =~= per_million_text(price.units as nat));
            out
        },
        None => String::from_str("N/A"),
    }
}

/// The same for a price that a model may lack: `N/A` where there is none.
pub fn format_optional_price(price: &Option<String>) -> (r: String)
    ensures
        r@ == optional_price_text(*price),
{
    match price {
        Some(text) => format_price_per_million(text.as_str()),
        None => String::from_str("N/A"),
    }
}

/// An amount in currency units, with a currency sign and six decimal places.
pub fn format_cost(amount: u128) -> (r: String)
    ensures
        r@ == amount_text(amount as nat),
{
    let mut out = String::from_str("$");
    proof {
        reveal_strlit("$");
        assert("$"@ =~= seq!['$']);
    }
    let millionths: u128 = round_quotient(amount, 100_000_000);
    push_point_text(&mut out, millionths, 1_000_000, 6);
    out
}

/// What the price list shows of one model.
#[derive(Debug)]
pub struct PriceRow {
    pub model: String,
    pub input: String,
    pub output: String,
    pub cache_read: String,
    pub cache_write: String,
}

/// The text of a price that a model may lack.
pub open spec fn optional_price_text(price: Option<String>) -> Seq<char> {
    match price {
        Some(text) => price_text(text@),
        None => not_available(),
    }
}

/// The text of a price given as text.
pub open spec fn price_text(text: Seq<char>) -> Seq<char> {
    match price_of_text(text) {
        Some(units) => per_million_text(units),
        None => not_available(),
    }
}

/// The line of the price list for `model`: its id and its four prices per
/// million tokens.
pub fn price_row(model: &Model) -> (r: PriceRow)
    ensures
        r.model@ == model.id@,
        r.input@ == price_text(model.pricing.prompt@),
        r.output@ == price_text(model.pricing.completion@),
        r.cache_read@ == optional_price_text(model.pricing.input_cache_read),
        r.cache_write@ == optional_price_text(model.pricing.input_cache_write),
{
    PriceRow {
        model: model.id.clone(),
        input: format_price_per_million(model.pricing.prompt.as_str()),
        output: format_price_per_million(model.pricing.completion.as_str()),
        cache_read: format_optional_price(&model.pricing.input_cache_read),
        cache_write: format_optional_price(&model.pricing.input_cache_write),
    }
}

/// What the cost table shows of one model.
#[derive(Debug)]
pub struct CostCells {
    pub model: String,
    pub input: String,
    pub output: String,
    pub cache_read: String,
    pub cache_write: String,
    pub total: String,
}

/// The line of the cost table for `row`: the model's id and the five amounts.
pub fn cost_cells(row: &CostRow) -> (r: CostCells)
    ensures
        r.model@ == row.model.id@,
        r.input@ == amount_text(row.costs.input_cost as nat),
        r.output@ == amount_text(row.costs.output_cost as nat),
        r.cache_read@ == amount_text(row.costs.cache_read_cost as nat),
        r.cache_write@ == amount_text(row.costs.cache_write_cost as nat),
        r.total@ == amount_text(row.costs.total_cost as nat),
{
    CostCells {
        model: row.model.id.clone(),
        input: format_cost(row.costs.input_cost),
        output: format_cost(row.costs.output_cost),
        cache_read: format_cost(row.costs.cache_read_cost),
        cache_write: format_cost(row.costs.cache_write_cost),
        total: format_cost(row.costs.total_cost),
    }
}

} // verus!
