//! The filter engine: keeps the models whose id or name holds one of the
//! needles, whatever the case of the letters.

use vstd::prelude::*;
use vstd::seq_lib::to_multiset_build;
use vstd::string::*;
use crate::model::Model;
use crate::text::{contains, lowercase_of, occurs_in, to_lowercase};

verus! {

/// Whether `needle` occurs in `text` when both are taken in lower case.
pub open spec fn occurs_ignoring_case(needle: Seq<char>, text: Seq<char>) -> bool {
    occurs_in(lowercase_of(needle), lowercase_of(text))
}

/// Whether the id of `m`, or its name if it has one, holds `needle`.
pub open spec fn needle_matches(m: Model, needle: Seq<char>) -> bool {
    occurs_ignoring_case(needle, m.id@) || match m.name {
        Some(name) => occurs_ignoring_case(needle, name@),
        None => false,
    }
}

/// Whether `m` matches at least one of the needles.
pub open spec fn model_matches(m: Model, needles: Seq<String>) -> bool {
    exists|k: int| 0 <= k < needles.len() && needle_matches(m, #[trigger] needles[k]@)
}

/// Whether `m` is kept: always without needles, else when it matches one.
pub open spec fn is_kept(m: Model, needles: Seq<String>) -> bool {
    needles.len() == 0 || model_matches(m, needles)
}

/// The models that are kept, in the order in which they came.
pub open spec fn kept_models(models: Seq<Model>, needles: Seq<String>) -> Seq<Model> {
    models.filter(|m: Model| is_kept(m, needles))
}

/// Whether `needle` occurs in `id`, or in `name` where there is one, letter
/// for letter.
pub open spec fn occurs_in_id_or_name(needle: Seq<char>, id: Seq<char>, name: Option<String>) -> bool {
    occurs_in(needle, id) || match name {
        Some(n) => occurs_in(needle, n@),
        None => false,
    }
}

/// Whether one of `needles` occurs in `id` or, where there is one, in `name`,
/// letter for letter. The filter calls this on texts already in lower case.
pub fn any_needle_occurs(id: &str, name: &Option<String>, needles: &Vec<String>) -> (r: bool)
    ensures
        r == exists|k: int|
            0 <= k < needles.len() && occurs_in_id_or_name((#[trigger] needles@[k])@, id@, *name),
{
    let mut k: usize = 0;
    while k < needles.len()
        invariant
            k <= needles.len(),
            forall|j: int|
                0 <= j < k ==> !occurs_in_id_or_name((#[trigger] needles@[j])@, id@, *name),
        decreases needles.len() - k,
    {
        let needle: &str = needles[k].as_str();
        let hit: bool = contains(id, needle) || match name {
            Some(n) => contains(n.as_str(), needle),
            None => false,
        };
        if hit {
            return true;
        }
        k += 1;
    }
    false
}

/// Decides whether one model matches one of the needles, given in lower case.
fn matches_any(m: &Model, lowered: &Vec<String>, Ghost(needles): Ghost<Seq<String>>) -> (r: bool)
    requires
        lowered.len() == needles.len(),
        forall|k: int| 0 <= k < needles.len() ==> (#[trigger] lowered@[k])@ == lowercase_of(needles[k]@),
    ensures
        r == model_matches(*m, needles),
{
    let id = to_lowercase(m.id.as_str());
    let name: Option<String> = match &m.name {
        Some(n) => Some(to_lowercase(n.as_str())),
        None => None,
    };
    let r = any_needle_occurs(id.as_str(), &name, lowered);
    proof {
        if r {
            let k = choose|k: int|
                0 <= k < lowered.len() && occurs_in_id_or_name((#[trigger] lowered@[k])@, id@, name);
            assert(needle_matches(*m, needles[k]@));
        }
        if model_matches(*m, needles) {
            let k = choose|k: int| 0 <= k < needles.len() && needle_matches(*m, #[trigger] needles[k]@);
            assert(occurs_in_id_or_name(lowered@[k]@, id@, name));
        }
    }
    r
}

/// The id of the routing entry of the catalog, which is no model with prices
/// of its own.
pub open spec fn routing_entry_id() -> Seq<char> {
    "openrouter/auto"@
}

/// The catalog without its routing entry.
pub open spec fn priced_models(models: Seq<Model>) -> Seq<Model> {
    models.filter(|m: Model| m.id@ != routing_entry_id())
}

/// Removes the routing entry from the catalog as it was fetched; the other
/// models keep their order.
pub fn drop_routing_entry(models: Vec<Model>) -> (r: Vec<Model>)
    ensures
        r@ == priced_models(models@),
{
    let ghost models0 = models@;
    let routing = String::from_str("openrouter/auto");
    let mut kept: Vec<Model> = Vec::new();
    assert(models0.take(0) =~= Seq::<Model>::empty());
    for model in it: models.into_iter()
        invariant
            it.seq() == models0,
            routing@ == routing_entry_id(),
            kept@ == priced_models(models0.take(it.index())),
    {
        proof {
            let wider = models0.take(it.index() + 1);
            assert(wider.drop_last() =~= models0.take(it.index()));
            assert(wider.last() == model);
            reveal(Seq::filter);
        }
        if model.id != routing {
            kept.push(model);
        }
    }
    assert(models0.take(models0.len() as int) =~= models0);
    kept
}

/// Keeps the models that match at least one of `filters`; all of them where
/// `filters` is empty. The models that stay keep their order.
pub fn filter_models(models: Vec<Model>, filters: Vec<String>) -> (r: Vec<Model>)
    ensures
        r@ == kept_models(models@, filters@),
        filters.len() == 0 ==> r@ == models@,
{
    let ghost models0 = models@;
    if filters.len() == 0 {
        proof {
            lemma_keep_all(models0, filters@);
        }
        return models;
    }
    let mut lowered: Vec<String> = Vec::new();
    let mut k: usize = 0;
    while k < filters.len()
        invariant
            k <= filters.len(),
            lowered.len() == k,
            forall|j: int| 0 <= j < k ==> (#[trigger] lowered@[j])@ == lowercase_of(filters@[j]@),
        decreases filters.len() - k,
    {
        lowered.push(to_lowercase(filters[k].as_str()));
        k += 1;
    }
    let mut kept: Vec<Model> = Vec::new();
    for model in it: models.into_iter()
        invariant
            it.seq() == models0,
            filters.len() > 0,
            lowered.len() == filters.len(),
            forall|j: int|
                0 <= j < filters.len() ==> (#[trigger] lowered@[j])@ == lowercase_of(filters@[j]@),
            kept@ == kept_models(models0.take(it.index()), filters@),
    {
        proof {
            let wider = models0.take(it.index() + 1);
            assert(wider.drop_last() =~= models0.take(it.index()));
            assert(wider.last() == model);
            reveal(Seq::filter);
        }
        if matches_any(&model, &lowered, Ghost(filters@)) {
            kept.push(model);
        }
    }
    assert(models0.take(models0.len() as int) =~= models0);
    kept
}

/// Without needles every model is kept.
pub proof fn lemma_keep_all(models: Seq<Model>, needles: Seq<String>)
    requires
        needles.len() == 0,
    ensures
        kept_models(models, needles) == models,
    decreases models.len(),
{
    reveal(Seq::filter);
    if models.len() > 0 {
        lemma_keep_all(models.drop_last(), needles);
        assert(models.drop_last().push(models.last()) =~= models);
    }
}

/// Every model that is returned is kept by the rule: with needles, its id
/// or its name holds one of them, whatever the case of the letters.
pub proof fn lemma_kept_models_match(models: Seq<Model>, needles: Seq<String>, i: int)
    requires
        0 <= i < kept_models(models, needles).len(),
    ensures
        is_kept(kept_models(models, needles)[i], needles),
        needles.len() > 0 ==> model_matches(kept_models(models, needles)[i], needles),
{
    models.lemma_filter_pred(|m: Model| is_kept(m, needles), i);
}

/// Filtering keeps every occurrence of what the predicate holds of and
/// nothing else.
pub proof fn lemma_filter_count<T>(items: Seq<T>, pred: spec_fn(T) -> bool, x: T)
    ensures
        items.filter(pred).to_multiset().count(x) == if pred(x) {
            items.to_multiset().count(x)
        } else {
            0
        },
    decreases items.len(),
{
    reveal(Seq::filter);
    if items.len() == 0 {
        assert(items.filter(pred) =~= Seq::<T>::empty());
        assert(items =~= Seq::<T>::empty());
        Seq::<T>::empty().to_multiset_ensures();
        assert(!Seq::<T>::empty().contains(x));
    } else {
        let rest = items.drop_last();
        let last = items.last();
        lemma_filter_count(rest, pred, x);
        assert(items =~= rest.push(last));
        to_multiset_build(rest, last);
        if pred(last) {
            to_multiset_build(rest.filter(pred), last);
        }
    }
}

/// The rule alone decides how often a model is returned: as often as it came
/// if it is kept, and not at all if it is not. Nothing is added, doubled or
/// dropped otherwise.
pub proof fn lemma_kept_models_count(models: Seq<Model>, needles: Seq<String>, m: Model)
    ensures
        kept_models(models, needles).to_multiset().count(m) == if is_kept(m, needles) {
            models.to_multiset().count(m)
        } else {
            0
        },
{
    lemma_filter_count(models, |m: Model| is_kept(m, needles), m);
}

} // verus!
