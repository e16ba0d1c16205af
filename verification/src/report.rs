//! The two flows from the catalog to what is shown: the price list, grouped
//! by provider, and the cost table of a request.

use vstd::prelude::*;
use crate::cost::{
    are_rows_of, compute_all, some_price_invalid, sort_rows_by_total, total_ranks, CalcError,
    CostRow, UsageScenario,
};
use crate::filter::{filter_models, kept_models};
use crate::group::{group_models_by_provider, is_grouping_of, ProviderGroup};
use crate::model::Model;
use crate::order::is_stable_sort;
use crate::sort::{is_ordering_of, sort_models, SortBy};

verus! {

/// Whether `groups` is the price list of `models`: the models that the
/// needles keep, in the order asked for, grouped by provider.
pub open spec fn is_listing_of(
    groups: Seq<ProviderGroup>,
    models: Seq<Model>,
    needles: Seq<String>,
    sort: Option<(SortBy, bool)>,
) -> bool {
    exists|ordered: Seq<Model>| #[trigger]
        is_ordering_of(ordered, kept_models(models, needles), sort) && is_grouping_of(
            groups,
            ordered,
        )
}

/// The models of all groups, group after group.
pub open spec fn flattened(groups: Seq<ProviderGroup>) -> Seq<Model>
    decreases groups.len(),
{
    if groups.len() == 0 {
        Seq::empty()
    } else {
        flattened(groups.drop_last()) + groups.last().models@
    }
}

/// Whether `rows` is the cost table of the price list `listing`: one line for
/// each model, group after group, and, where the total cost is the sort key,
/// the lines stably sorted by it.
pub open spec fn is_cost_table_of(
    rows: Seq<CostRow>,
    listing: Seq<ProviderGroup>,
    sort: Option<(SortBy, bool)>,
    scenario: UsageScenario,
) -> bool {
    exists|plain: Seq<CostRow>| #[trigger]
        are_rows_of(plain, flattened(listing), scenario) && match sort {
            Some((SortBy::Total, descending)) => is_stable_sort(
                rows,
                plain,
                total_ranks(plain),
                descending,
            ),
            _ => rows == plain,
        }
}

/// Filters, orders and groups the catalog.
pub fn list_models(models: Vec<Model>, filters: Vec<String>, sort: Option<(SortBy, bool)>) -> (r:
    Vec<ProviderGroup>)
    ensures
        is_listing_of(r@, models@, filters@, sort),
{
    let kept = filter_models(models, filters);
    let ordered = sort_models(kept, sort);
    let groups = group_models_by_provider(ordered);
    assert(is_ordering_of(ordered@, kept_models(models@, filters@), sort));
    groups
}

/// Puts the models of all groups in one sequence, group after group.
pub fn flatten_groups(groups: Vec<ProviderGroup>) -> (r: Vec<Model>)
    ensures
        r@ == flattened(groups@),
{
    let ghost groups0 = groups@;
    let mut out: Vec<Model> = Vec::new();
    for group in it: groups.into_iter()
        invariant
            it.seq() == groups0,
            out@ == flattened(groups0.take(it.index())),
    {
        assert(groups0.take(it.index() + 1).drop_last() =~= groups0.take(it.index()));
        let mut members = group.models;
        out.append(&mut members);
    }
    assert(groups0.take(groups0.len() as int) =~= groups0);
    out
}

/// Computes the cost table of a request on the models that the needles keep.
///
/// The cache lifetime is checked before anything else. After that the
/// computation fails with `EmptyResult` exactly when the needles keep no
/// model, and with `InvalidPrice` exactly when a price that is needed of a
/// kept model is no price.
pub fn cost_table(
    models: Vec<Model>,
    filters: Vec<String>,
    sort: Option<(SortBy, bool)>,
    scenario: &UsageScenario,
) -> (r: Result<Vec<CostRow>, CalcError>)
    ensures
        !scenario.ttl_supported() ==> r == Err::<Vec<CostRow>, CalcError>(
            CalcError::UnsupportedTTL,
        ),
        match r {
            Err(CalcError::UnsupportedTTL) => !scenario.ttl_supported(),
            Err(CalcError::EmptyResult) => scenario.ttl_supported() && kept_models(
                models@,
                filters@,
            ).len() == 0,
            Err(CalcError::InvalidPrice) => {
                &&& scenario.ttl_supported()
                &&& kept_models(models@, filters@).len() > 0
                &&& exists|listing: Seq<ProviderGroup>| #[trigger]
                    is_listing_of(listing, models@, filters@, sort) && some_price_invalid(
                        flattened(listing),
                        *scenario,
                    )
            },
            Ok(rows) => {
                &&& scenario.ttl_supported()
                &&& kept_models(models@, filters@).len() > 0
                &&& exists|listing: Seq<ProviderGroup>| #[trigger]
                    is_listing_of(listing, models@, filters@, sort) && is_cost_table_of(
                        rows@,
                        listing,
                        sort,
                        *scenario,
                    )
            },
        },
{
    if scenario.validate().is_err() {
        return Err(CalcError::UnsupportedTTL);
    }
    let kept = filter_models(models, filters);
    if kept.len() == 0 {
        return Err(CalcError::EmptyResult);
    }
    let ordered = sort_models(kept, sort);
    let groups = group_models_by_provider(ordered);
    let ghost listing = groups@;
    assert(is_ordering_of(ordered@, kept_models(models@, filters@), sort));
    assert(is_listing_of(listing, models@, filters@, sort));
    let flat = flatten_groups(groups);
    match compute_all(flat, scenario) {
        Err(_) => Err(CalcError::InvalidPrice),
        Ok(rows) => {
            let ghost plain = rows@;
            match sort {
                Some((SortBy::Total, descending)) => {
                    let sorted = sort_rows_by_total(rows, descending);
                    assert(is_cost_table_of(sorted@, listing, sort, *scenario)) by {
                        assert(are_rows_of(plain, flattened(listing), *scenario));
                    }
                    Ok(sorted)
                },
                _ => {
                    assert(is_cost_table_of(rows@, listing, sort, *scenario)) by {
                        assert(are_rows_of(plain, flattened(listing), *scenario));
                    }
                    Ok(rows)
                },
            }
        },
    }
}

} // verus!
