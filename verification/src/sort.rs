//! The sort engine: sort keys, how they are written, and the stable ordering
//! of the catalog by one of them.

use vstd::prelude::*;
use vstd::string::*;
use crate::model::{provider_key, provider_of, Model};
use crate::order::{
    is_stable_sort, lemma_reverse_and_back, lemma_sort_of_ordered, lemma_sort_twice,
    lemma_stable_sort_unique, ranks_of, sort_by_keys, OrderKey, Rank,
};
use crate::price::{parse_price, price_or_zero};
use crate::text::{ascii_lower, chars_of, eq_ignoring_ascii_case, same_ignoring_ascii_case};

verus! {

/// What the catalog can be ordered by.
#[derive(Clone, Copy, Debug, PartialEq, Eq, Structural)]
pub enum SortBy {
    /// The model id.
    Name,
    /// The price of input tokens; text that is no price counts as zero.
    Input,
    /// The price of output tokens; text that is no price counts as zero.
    Output,
    /// The provider key.
    Provider,
    /// The total cost of a request; only where costs are computed.
    Total,
}

#[derive(Debug)]
pub enum ConfigError {
    /// The sort key is none of the known ones; holds the key as written,
    /// without the reverse suffix.
    InvalidSortKey(String),
    /// Ordering by total cost was asked for where no cost is computed.
    SortScopeViolation,
}

/// The text before the refused key in the message for an unknown sort key.
pub open spec fn invalid_key_prefix() -> Seq<char> {
    "Invalid sort option: '"@
}

/// The text after the refused key, which lists the keys there are.
pub open spec fn invalid_key_suffix() -> Seq<char> {
    "'. Valid options are: name, input, output, provider, total (suffix with '-' for reverse)"@
}

pub open spec fn scope_violation_text() -> Seq<char> {
    "--sort total can only be used with the calc command"@
}

impl ConfigError {
    /// What to tell the user.
    pub fn message(&self) -> (r: String)
        ensures
            r@ == match *self {
                ConfigError::InvalidSortKey(token) => invalid_key_prefix() + token@
                    + invalid_key_suffix(),
                ConfigError::SortScopeViolation => scope_violation_text(),
            },
    {
        match self {
            ConfigError::InvalidSortKey(token) => {
                let mut text = String::from_str("Invalid sort option: '");
                text.append(token.as_str());
                text.append(
                    "'. Valid options are: name, input, output, provider, total (suffix with '-' for reverse)",
                );
                text
            },
            ConfigError::SortScopeViolation => String::from_str(
                "--sort total can only be used with the calc command",
            ),
        }
    }
}

/// Whether a sort option ends in the reverse marker `-`.
pub open spec fn has_reverse_suffix(s: Seq<char>) -> bool {
    s.len() > 0 && s.last() == '-'
}

/// A sort option without its reverse marker.
pub open spec fn sort_token(s: Seq<char>) -> Seq<char> {
    if has_reverse_suffix(s) {
        s.drop_last()
    } else {
        s
    }
}

/// The sort key that a token names, whatever the case of its ASCII letters.
pub open spec fn sort_by_of_token(t: Seq<char>) -> Option<SortBy> {
    if eq_ignoring_ascii_case(t, "name"@) {
        Some(SortBy::Name)
    } else if eq_ignoring_ascii_case(t, "input"@) {
        Some(SortBy::Input)
    } else if eq_ignoring_ascii_case(t, "output"@) {
        Some(SortBy::Output)
    } else if eq_ignoring_ascii_case(t, "provider"@) {
        Some(SortBy::Provider)
    } else if eq_ignoring_ascii_case(t, "total"@) {
        Some(SortBy::Total)
    } else {
        None
    }
}

/// The token that names a sort key.
pub open spec fn token_of(by: SortBy) -> Seq<char> {
    match by {
        SortBy::Name => "name"@,
        SortBy::Input => "input"@,
        SortBy::Output => "output"@,
        SortBy::Provider => "provider"@,
        SortBy::Total => "total"@,
    }
}

impl SortBy {
    /// The token that names this sort key.
    pub fn token(&self) -> (r: &'static str)
        ensures
            r@ == token_of(*self),
            sort_by_of_token(r@) == Some(*self),
    {
        proof {
            reveal_strlit("name");
            reveal_strlit("input");
            reveal_strlit("output");
            reveal_strlit("provider");
            reveal_strlit("total");
            assert(ascii_lower("total"@[0]) != ascii_lower("input"@[0]));
        }
        match self {
            SortBy::Name => "name",
            SortBy::Input => "input",
            SortBy::Output => "output",
            SortBy::Provider => "provider",
            SortBy::Total => "total",
        }
    }
}

fn sort_by_from_token(token: &str) -> (r: Option<SortBy>)
    ensures
        r == sort_by_of_token(token@),
{
    if same_ignoring_ascii_case(token, "name") {
        Some(SortBy::Name)
    } else if same_ignoring_ascii_case(token, "input") {
        Some(SortBy::Input)
    } else if same_ignoring_ascii_case(token, "output") {
        Some(SortBy::Output)
    } else if same_ignoring_ascii_case(token, "provider") {
        Some(SortBy::Provider)
    } else if same_ignoring_ascii_case(token, "total") {
        Some(SortBy::Total)
    } else {
        None
    }
}

/// Reads a sort option: a sort key, with `-` behind it for the reverse order.
pub fn parse_sort_option(sort_str: Option<String>) -> (r: Result<
    Option<(SortBy, bool)>,
    ConfigError,
>)
    ensures
        match sort_str {
            None => r == Ok::<Option<(SortBy, bool)>, ConfigError>(None),
            Some(s) => match sort_by_of_token(sort_token(s@)) {
                Some(by) => r == Ok::<Option<(SortBy, bool)>, ConfigError>(
                    Some((by, has_reverse_suffix(s@))),
                ),
                None => r matches Err(ConfigError::InvalidSortKey(t)) && t@ == sort_token(s@),
            },
        },
{
    match sort_str {
        None => Ok(None),
        Some(s) => {
            let text: &str = s.as_str();
            let n: usize = text.unicode_len();
            let reverse: bool = n > 0 && text.get_char(n - 1) == '-';
            let token: &str = if reverse {
                text.substring_char(0, n - 1)
            } else {
                text
            };
            assert(token@ =~= sort_token(s@));
            match sort_by_from_token(token) {
                Some(by) => Ok(Some((by, reverse))),
                None => Err(ConfigError::InvalidSortKey(String::from_str(token))),
            }
        },
    }
}

/// What becomes of a sort option once the reverse flag and the flow are known.
pub open spec fn resolved_sort(
    sort: Option<(SortBy, bool)>,
    reverse_flag: bool,
    computing_costs: bool,
) -> Result<Option<(SortBy, bool)>, ConfigError> {
    match sort {
        None => Ok(None),
        Some((by, suffix)) => if by == SortBy::Total && !computing_costs {
            Err(ConfigError::SortScopeViolation)
        } else {
            Ok(Some((by, suffix || reverse_flag)))
        },
    }
}

/// Combines a parsed sort option with the reverse flag, either of which
/// reverses the order, and refuses ordering by total cost where no cost is
/// computed.
pub fn resolve_sort(sort: Option<(SortBy, bool)>, reverse_flag: bool, computing_costs: bool) -> (r:
    Result<Option<(SortBy, bool)>, ConfigError>)
    ensures
        r == resolved_sort(sort, reverse_flag, computing_costs),
{
    match sort {
        None => Ok(None),
        Some((by, suffix)) => {
            if !computing_costs {
                if let SortBy::Total = by {
                    return Err(ConfigError::SortScopeViolation);
                }
            }
            Ok(Some((by, suffix || reverse_flag)))
        },
    }
}

/// The rank of a model under a sort key. Under `Total` all models rank alike.
pub open spec fn model_rank(m: Model, by: SortBy) -> Rank {
    match by {
        SortBy::Name => (0, m.id@),
        SortBy::Input => (price_or_zero(m.pricing.prompt@), Seq::empty()),
        SortBy::Output => (price_or_zero(m.pricing.completion@), Seq::empty()),
        SortBy::Provider => (0, provider_of(m.id@)),
        SortBy::Total => (0, Seq::empty()),
    }
}

pub open spec fn model_ranks(models: Seq<Model>, by: SortBy) -> Seq<Rank> {
    models.map_values(|m: Model| model_rank(m, by))
}

fn price_number(text: &str) -> (r: u128)
    ensures
        r == price_or_zero(text@),
{
    match parse_price(text) {
        Some(p) => p.units as u128,
        None => 0,
    }
}

/// Computes the rank of a model under a sort key.
pub fn model_key(m: &Model, by: SortBy) -> (r: OrderKey)
    ensures
        r@ == model_rank(*m, by),
{
    match by {
        SortBy::Name => OrderKey { number: 0, text: chars_of(m.id.as_str()) },
        SortBy::Input => OrderKey {
            number: price_number(m.pricing.prompt.as_str()),
            text: Vec::new(),
        },
        SortBy::Output => OrderKey {
            number: price_number(m.pricing.completion.as_str()),
            text: Vec::new(),
        },
        SortBy::Provider => {
            let provider = provider_key(m.id.as_str());
            OrderKey { number: 0, text: chars_of(provider.as_str()) }
        },
        SortBy::Total => OrderKey { number: 0, text: Vec::new() },
    }
}

/// Whether `out` is `input` in the order that `sort_option` asks for: as it
/// came without one, else stably sorted by the key in the direction.
pub open spec fn is_ordering_of(
    out: Seq<Model>,
    input: Seq<Model>,
    sort_option: Option<(SortBy, bool)>,
) -> bool {
    match sort_option {
        None => out == input,
        Some((by, descending)) => is_stable_sort(out, input, model_ranks(input, by), descending),
    }
}

/// Orders the catalog by a sort key, ascending or (where the flag is set)
/// descending; models that rank alike keep their order. Without a sort
/// option the catalog is returned as it came.
pub fn sort_models(models: Vec<Model>, sort_option: Option<(SortBy, bool)>) -> (r: Vec<Model>)
    ensures
        is_ordering_of(r@, models@, sort_option),
        sort_option matches Some((SortBy::Total, _)) ==> r@ == models@,
{
    match sort_option {
        None => models,
        Some((by, descending)) => {
            let mut keys: Vec<OrderKey> = Vec::new();
            let mut i: usize = 0;
            while i < models.len()
                invariant
                    i <= models.len(),
                    keys.len() == i,
                    forall|k: int| 0 <= k < i ==> (#[trigger] keys@[k])@ == model_rank(models@[k], by),
                decreases models.len() - i,
            {
                keys.push(model_key(&models[i], by));
                i += 1;
            }
            assert(ranks_of(keys@) =~= model_ranks(models@, by));
            let ghost input = models@;
            let sorted = sort_by_keys(models, keys, descending);
            proof {
                if by == SortBy::Total {
                    lemma_sort_of_ordered(sorted@, input, model_ranks(input, by), descending);
                }
            }
            sorted
        },
    }
}

/// Ordering the catalog twice by the same key in the same direction gives
/// what ordering it once gives.
pub proof fn lemma_sort_models_twice(
    models: Seq<Model>,
    once: Seq<Model>,
    twice: Seq<Model>,
    by: SortBy,
    descending: bool,
)
    requires
        is_ordering_of(once, models, Some((by, descending))),
        is_ordering_of(twice, once, Some((by, descending))),
    ensures
        twice == once,
{
    let rank_of = |m: Model| model_rank(m, by);
    assert(models.map_values(rank_of) =~= model_ranks(models, by));
    assert(once.map_values(rank_of) =~= model_ranks(once, by));
    lemma_sort_twice(models, once, twice, rank_of, descending);
}

/// Ordering the catalog, then in the reverse direction, then in the first
/// direction again restores the order that the first ordering gave.
pub proof fn lemma_sort_models_reverse_and_back(
    models: Seq<Model>,
    sorted: Seq<Model>,
    reversed: Seq<Model>,
    back: Seq<Model>,
    by: SortBy,
    descending: bool,
)
    requires
        is_ordering_of(sorted, models, Some((by, descending))),
        is_ordering_of(reversed, sorted, Some((by, !descending))),
        is_ordering_of(back, reversed, Some((by, descending))),
    ensures
        back == sorted,
{
    let rank_of = |m: Model| model_rank(m, by);
    assert(models.map_values(rank_of) =~= model_ranks(models, by));
    assert(sorted.map_values(rank_of) =~= model_ranks(sorted, by));
    assert(reversed.map_values(rank_of) =~= model_ranks(reversed, by));
    lemma_reverse_and_back(models, sorted, reversed, back, rank_of, descending);
}

/// Ordering is determined: two orderings of the same catalog by the same
/// option are the same sequence.
pub proof fn lemma_sort_models_determined(
    models: Seq<Model>,
    first: Seq<Model>,
    second: Seq<Model>,
    sort_option: Option<(SortBy, bool)>,
)
    requires
        is_ordering_of(first, models, sort_option),
        is_ordering_of(second, models, sort_option),
    ensures
        first == second,
{
    if let Some((by, descending)) = sort_option {
        lemma_stable_sort_unique(first, second, models, model_ranks(models, by), descending);
    }
}

} // verus!
