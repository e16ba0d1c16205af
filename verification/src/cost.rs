//! The cost calculator: what a request of given size costs on a model.
//!
//! Amounts are whole numbers of units of 10^-14 of the currency (a hundredth
//! of a price unit), so that the cache-write multipliers 1.25 and 2 are exact.

use vstd::prelude::*;
use crate::model::{Model, Pricing};
use crate::order::{is_stable_sort, ranks_of, sort_by_keys, OrderKey, Rank};
use crate::price::{parse_price, price_of_text, Price};

verus! {

/// How many amount units make one currency unit.
pub const AMOUNT_UNITS_PER_CURRENCY: u128 = 100_000_000_000_000;

/// Amount units per token for each price unit, at the plain price.
pub const PLAIN_FACTOR: u128 = 100;

/// Amount units per token for each price unit when writing to a cache that
/// lives five minutes (1.25 times the plain price).
pub const WRITE_FACTOR_5_MINUTES: u128 = 125;

/// The same for a cache that lives sixty minutes (twice the plain price).
pub const WRITE_FACTOR_60_MINUTES: u128 = 200;

/// The request whose cost is asked for.
#[derive(Clone, Copy, Debug, PartialEq, Eq, Structural)]
pub struct UsageScenario {
    pub input_tokens: u64,
    pub output_tokens: u64,
    /// Tokens read from the cache; `None` where caching was not requested,
    /// which differs from a request for zero cached tokens.
    pub cached_tokens: Option<u64>,
    pub ttl_minutes: u64,
}

/// The itemized cost of one request on one model, in amount units.
#[derive(Clone, Copy, Debug, PartialEq, Eq, Structural)]
pub struct CostBreakdown {
    pub input_cost: u128,
    pub output_cost: u128,
    pub cache_read_cost: u128,
    pub cache_write_cost: u128,
    pub total_cost: u128,
}

#[derive(Clone, Copy, Debug, PartialEq, Eq, Structural)]
pub enum CalcError {
    /// A price that the computation needs is no price.
    InvalidPrice,
    /// The cache lifetime is neither 5 nor 60 minutes.
    UnsupportedTTL,
    /// No model is left to compute a cost for.
    EmptyResult,
}

impl CalcError {
    /// What to tell the user.
    pub fn message(&self) -> (r: &'static str)
        ensures
            r@ == match *self {
                CalcError::InvalidPrice => "Invalid price format"@,
                CalcError::UnsupportedTTL => "TTL must be exactly 5 or 60 minutes"@,
                CalcError::EmptyResult => "No models found matching the filter"@,
            },
    {
        match self {
            CalcError::InvalidPrice => "Invalid price format",
            CalcError::UnsupportedTTL => "TTL must be exactly 5 or 60 minutes",
            CalcError::EmptyResult => "No models found matching the filter",
        }
    }
}

impl CostBreakdown {
    /// The total is the sum of the four items, and new input tokens are billed
    /// either as plain input or as cache writes, never as both.
    pub open spec fn wf(&self) -> bool {
        &&& self.total_cost == self.input_cost + self.output_cost + self.cache_read_cost
            + self.cache_write_cost
        &&& (self.input_cost == 0 || self.cache_write_cost == 0)
    }
}

impl UsageScenario {
    pub open spec fn ttl_supported(&self) -> bool {
        self.ttl_minutes == 5 || self.ttl_minutes == 60
    }

    pub open spec fn caching_requested(&self) -> bool {
        self.cached_tokens.is_some()
    }

    /// The cached tokens asked for; zero without caching.
    pub open spec fn cached(&self) -> nat {
        match self.cached_tokens {
            Some(c) => c as nat,
            None => 0,
        }
    }

    /// Input tokens that are not read from the cache, never below zero.
    pub open spec fn new_tokens(&self) -> nat {
        if self.input_tokens as nat >= self.cached() {
            (self.input_tokens as nat - self.cached()) as nat
        } else {
            0
        }
    }

    /// Amount units per price unit at which cache writes are billed.
    pub open spec fn write_factor(&self) -> nat {
        if self.ttl_minutes == 5 {
            125
        } else {
            200
        }
    }

    /// Whether the cache lifetime is one that can be priced.
    pub fn validate(&self) -> (r: Result<(), CalcError>)
        ensures
            r.is_ok() <==> self.ttl_supported(),
            r.is_err() ==> r == Err::<(), CalcError>(CalcError::UnsupportedTTL),
    {
        if self.ttl_minutes == 5 || self.ttl_minutes == 60 {
            Ok(())
        } else {
            Err(CalcError::UnsupportedTTL)
        }
    }

    /// Whether caching was requested, which decides the layout of the result
    /// table even where no token is cached.
    pub fn uses_caching(&self) -> (r: bool)
        ensures
            r == self.caching_requested(),
    {
        self.cached_tokens.is_some()
    }
}

/// Whether new input tokens of this request are billed as cache writes on a
/// model with these prices.
pub open spec fn writes_to_cache(pricing: Pricing, scenario: UsageScenario) -> bool {
    scenario.caching_requested() && pricing.input_cache_write.is_some()
}

/// The text of the price at which cached tokens are read.
pub open spec fn read_price_text(pricing: Pricing) -> Seq<char> {
    match pricing.input_cache_read {
        Some(t) => t@,
        None => pricing.prompt@,
    }
}

/// Whether every price that the request needs can be read.
pub open spec fn prices_valid(pricing: Pricing, scenario: UsageScenario) -> bool {
    &&& price_of_text(pricing.prompt@).is_some()
    &&& price_of_text(pricing.completion@).is_some()
    &&& (scenario.cached() > 0 ==> price_of_text(read_price_text(pricing)).is_some())
}

pub open spec fn units_of(text: Seq<char>) -> nat {
    price_of_text(text).unwrap()
}

pub open spec fn output_cost_of(pricing: Pricing, scenario: UsageScenario) -> nat {
    scenario.output_tokens as nat * units_of(pricing.completion@) * 100
}

pub open spec fn cache_read_cost_of(pricing: Pricing, scenario: UsageScenario) -> nat {
    if scenario.cached() > 0 {
        scenario.cached() * units_of(read_price_text(pricing)) * 100
    } else {
        0
    }
}

pub open spec fn input_cost_of(pricing: Pricing, scenario: UsageScenario) -> nat {
    if writes_to_cache(pricing, scenario) {
        0
    } else {
        scenario.new_tokens() * units_of(pricing.prompt@) * 100
    }
}

pub open spec fn cache_write_cost_of(pricing: Pricing, scenario: UsageScenario) -> nat {
    if writes_to_cache(pricing, scenario) {
        scenario.new_tokens() * units_of(pricing.prompt@) * scenario.write_factor()
    } else {
        0
    }
}

pub open spec fn total_cost_of(pricing: Pricing, scenario: UsageScenario) -> nat {
    input_cost_of(pricing, scenario) + output_cost_of(pricing, scenario) + cache_read_cost_of(
        pricing,
        scenario,
    ) + cache_write_cost_of(pricing, scenario)
}

/// Whether `b` is the cost of `scenario` at `pricing`.
pub open spec fn is_breakdown_of(
    b: CostBreakdown,
    pricing: Pricing,
    scenario: UsageScenario,
) -> bool {
    &&& b.input_cost == input_cost_of(pricing, scenario)
    &&& b.output_cost == output_cost_of(pricing, scenario)
    &&& b.cache_read_cost == cache_read_cost_of(pricing, scenario)
    &&& b.cache_write_cost == cache_write_cost_of(pricing, scenario)
    &&& b.total_cost == total_cost_of(pricing, scenario)
}

/// The outcome that the calculator owes for a model and a request.
pub open spec fn expected_outcome(
    r: Result<CostBreakdown, CalcError>,
    pricing: Pricing,
    scenario: UsageScenario,
) -> bool {
    match r {
        Ok(b) => scenario.ttl_supported() && prices_valid(pricing, scenario) && is_breakdown_of(
            b,
            pricing,
            scenario,
        ),
        Err(CalcError::UnsupportedTTL) => !scenario.ttl_supported(),
        Err(CalcError::InvalidPrice) => scenario.ttl_supported() && !prices_valid(
            pricing,
            scenario,
        ),
        Err(CalcError::EmptyResult) => false,
    }
}

/// The cost of `tokens` tokens at `price`, `factor` amount units per price unit.
fn charge(tokens: u64, price: Price, factor: u128) -> (r: u128)
    requires
        price.wf(),
        factor <= 200,
    ensures
        r == tokens as nat * price.units as nat * factor as nat,
        r <= 18_446_744_073_709_551_615 * 10_000_000_000_000_000 * 200,
{
    assert(tokens as nat * price.units as nat <= 18_446_744_073_709_551_615
        * 10_000_000_000_000_000) by (nonlinear_arith)
        requires
            tokens <= 18_446_744_073_709_551_615,
            price.units < 10_000_000_000_000_000,
    ;
    assert(tokens as nat * price.units as nat * factor as nat <= 18_446_744_073_709_551_615
        * 10_000_000_000_000_000 * 200) by (nonlinear_arith)
        requires
            tokens as nat * price.units as nat <= 18_446_744_073_709_551_615
                * 10_000_000_000_000_000,
            factor <= 200,
    ;
    (tokens as u128) * (price.units as u128) * factor
}

/// Computes the itemized cost of `scenario` on `model`.
///
/// Fails with `UnsupportedTTL` exactly when the cache lifetime is neither 5
/// nor 60 minutes, and otherwise with `InvalidPrice` exactly when the prompt
/// price, the completion price or, with cached tokens to read, the stated
/// cache-read price is no price.
pub fn compute(model: &Model, scenario: &UsageScenario) -> (r: Result<CostBreakdown, CalcError>)
    ensures
        expected_outcome(r, model.pricing, *scenario),
        r matches Ok(b) ==> b.wf(),
{
    if scenario.ttl_minutes != 5 && scenario.ttl_minutes != 60 {
        return Err(CalcError::UnsupportedTTL);
    }
    let prompt = match parse_price(model.pricing.prompt.as_str()) {
        Some(p) => p,
        None => { return Err(CalcError::InvalidPrice); },
    };
    let completion = match parse_price(model.pricing.completion.as_str()) {
        Some(p) => p,
        None => { return Err(CalcError::InvalidPrice); },
    };
    let cached: u64 = match scenario.cached_tokens {
        Some(c) => c,
        None => 0,
    };
    let new_tokens: u64 = scenario.input_tokens.saturating_sub(cached);
    let output_cost: u128 = charge(scenario.output_tokens, completion, PLAIN_FACTOR);
    let mut cache_read_cost: u128 = 0;
    if cached > 0 {
        let read_price = match &model.pricing.input_cache_read {
            Some(text) => match parse_price(text.as_str()) {
                Some(p) => p,
                None => { return Err(CalcError::InvalidPrice); },
            },
            None => prompt,
        };
        cache_read_cost = charge(cached, read_price, PLAIN_FACTOR);
    }
    let mut input_cost: u128 = 0;
    let mut cache_write_cost: u128 = 0;
    if scenario.cached_tokens.is_some() && model.pricing.input_cache_write.is_some() {
        let factor: u128 = if scenario.ttl_minutes == 5 {
            WRITE_FACTOR_5_MINUTES
        } else {
            WRITE_FACTOR_60_MINUTES
        };
        cache_write_cost = charge(new_tokens, prompt, factor);
    } else {
        input_cost = charge(new_tokens, prompt, PLAIN_FACTOR);
    }
    let total_cost: u128 = input_cost + output_cost + cache_read_cost + cache_write_cost;
    Ok(CostBreakdown { input_cost, output_cost, cache_read_cost, cache_write_cost, total_cost })
}

/// One line of the cost table: a model and what the request costs on it.
#[derive(Debug)]
pub struct CostRow {
    pub model: Model,
    pub costs: CostBreakdown,
}

/// Whether `row` is the line that `model` owes for `scenario`.
pub open spec fn is_row_of(row: CostRow, model: Model, scenario: UsageScenario) -> bool {
    &&& row.model == model
    &&& prices_valid(model.pricing, scenario)
    &&& is_breakdown_of(row.costs, model.pricing, scenario)
    &&& row.costs.wf()
}

/// Whether `rows` holds, line by line, what the models of `models` owe.
pub open spec fn are_rows_of(rows: Seq<CostRow>, models: Seq<Model>, scenario: UsageScenario) -> bool {
    &&& rows.len() == models.len()
    &&& forall|i: int| 0 <= i < rows.len() ==> is_row_of(#[trigger] rows[i], models[i], scenario)
}

/// Whether `models` holds a model of which a needed price is no price.
pub open spec fn some_price_invalid(models: Seq<Model>, scenario: UsageScenario) -> bool {
    exists|i: int| 0 <= i < models.len() && !prices_valid((#[trigger] models[i]).pricing, scenario)
}

/// Computes the cost of `scenario` on every model, in the order of `models`.
///
/// The cache lifetime is checked first, whatever `models` holds: an
/// unsupported one fails the whole computation with `UnsupportedTTL`. After
/// that, one model with a needed price that is no price fails it with
/// `InvalidPrice`; no partial table is returned.
pub fn compute_all(models: Vec<Model>, scenario: &UsageScenario) -> (r: Result<
    Vec<CostRow>,
    CalcError,
>)
    ensures
        !scenario.ttl_supported() ==> r == Err::<Vec<CostRow>, CalcError>(
            CalcError::UnsupportedTTL,
        ),
        match r {
            Ok(rows) => scenario.ttl_supported() && are_rows_of(rows@, models@, *scenario),
            Err(CalcError::UnsupportedTTL) => !scenario.ttl_supported(),
            Err(CalcError::InvalidPrice) => scenario.ttl_supported() && some_price_invalid(
                models@,
                *scenario,
            ),
            Err(CalcError::EmptyResult) => false,
        },
{
    if scenario.validate().is_err() {
        return Err(CalcError::UnsupportedTTL);
    }
    let ghost models0 = models@;
    let mut rows: Vec<CostRow> = Vec::new();
    for model in it: models.into_iter()
        invariant
            it.seq() == models0,
            scenario.ttl_supported(),
            rows.len() == it.index(),
            forall|i: int|
                0 <= i < rows.len() ==> is_row_of(#[trigger] rows@[i], models0[i], *scenario),
    {
        match compute(&model, scenario) {
            Ok(costs) => {
                rows.push(CostRow { model, costs });
            },
            Err(_) => {
                assert(!prices_valid(models0[it.index()].pricing, *scenario));
                return Err(CalcError::InvalidPrice);
            },
        }
    }
    Ok(rows)
}

/// The ranks of the lines of a cost table: their total costs.
pub open spec fn total_ranks(rows: Seq<CostRow>) -> Seq<Rank> {
    rows.map_values(|row: CostRow| (row.costs.total_cost as nat, Seq::<char>::empty()))
}

/// Orders the cost table by total cost, ascending or (where the flag is set)
/// descending; lines of equal total keep their order.
pub fn sort_rows_by_total(rows: Vec<CostRow>, descending: bool) -> (r: Vec<CostRow>)
    ensures
        is_stable_sort(r@, rows@, total_ranks(rows@), descending),
{
    let mut keys: Vec<OrderKey> = Vec::new();
    let mut i: usize = 0;
    while i < rows.len()
        invariant
            i <= rows.len(),
            keys.len() == i,
            forall|k: int|
                0 <= k < i ==> (#[trigger] keys@[k])@ == (
                    rows@[k].costs.total_cost as nat,
                    Seq::<char>::empty(),
                ),
        decreases rows.len() - i,
    {
        keys.push(OrderKey { number: rows[i].costs.total_cost, text: Vec::new() });
        i += 1;
    }
    assert(ranks_of(keys@) =~= total_ranks(rows@));
    sort_by_keys(rows, keys, descending)
}

/// Without a price for cache writes, a request for zero cached tokens costs
/// what the same request costs without caching, item by item, and the same
/// prices are needed.
pub proof fn lemma_zero_cached_equals_no_cache(
    pricing: Pricing,
    plain: UsageScenario,
    cached_zero: UsageScenario,
)
    requires
        pricing.input_cache_write.is_none(),
        plain.cached_tokens.is_none(),
        cached_zero.cached_tokens == Some(0u64),
        plain.input_tokens == cached_zero.input_tokens,
        plain.output_tokens == cached_zero.output_tokens,
        plain.ttl_minutes == cached_zero.ttl_minutes,
    ensures
        prices_valid(pricing, plain) == prices_valid(pricing, cached_zero),
        input_cost_of(pricing, plain) == input_cost_of(pricing, cached_zero),
        output_cost_of(pricing, plain) == output_cost_of(pricing, cached_zero),
        cache_read_cost_of(pricing, plain) == cache_read_cost_of(pricing, cached_zero),
        cache_write_cost_of(pricing, plain) == cache_write_cost_of(pricing, cached_zero),
        total_cost_of(pricing, plain) == total_cost_of(pricing, cached_zero),
        forall|a: Result<CostBreakdown, CalcError>, b: Result<CostBreakdown, CalcError>|
            expected_outcome(a, pricing, plain) && expected_outcome(b, pricing, cached_zero)
                ==> a == b,
{
}

/// The total of a computed breakdown is the sum of its four items.
pub proof fn lemma_costs_add_up(b: CostBreakdown, pricing: Pricing, scenario: UsageScenario)
    requires
        is_breakdown_of(b, pricing, scenario),
    ensures
        b.total_cost == b.input_cost + b.output_cost + b.cache_read_cost + b.cache_write_cost,
        b.wf(),
{
}

/// When more tokens are cached than the request has input tokens, no new
/// token is billed: the input and cache-write costs are zero, and all
/// cached tokens are still billed as read.
pub proof fn lemma_all_input_cached(pricing: Pricing, scenario: UsageScenario)
    requires
        scenario.cached() >= scenario.input_tokens,
    ensures
        scenario.new_tokens() == 0,
        input_cost_of(pricing, scenario) == 0,
        cache_write_cost_of(pricing, scenario) == 0,
        scenario.cached() > 0 ==> cache_read_cost_of(pricing, scenario) == scenario.cached()
            * units_of(read_price_text(pricing)) * 100,
{
    assert(0 * units_of(pricing.prompt@) * 100 == 0) by (nonlinear_arith);
    assert(0 * units_of(pricing.prompt@) * scenario.write_factor() == 0) by (nonlinear_arith);
}

} // verus!
