//! Grouping of the catalog by provider.

use vstd::prelude::*;
use crate::filter::lemma_filter_count;
use crate::model::{provider_key, provider_of, Model};

verus! {

/// The models of one provider, in the order in which they came.
#[derive(Debug)]
pub struct ProviderGroup {
    pub provider: String,
    pub models: Vec<Model>,
}

/// The models of `models` whose provider is `provider`, in their order.
pub open spec fn models_of_provider(models: Seq<Model>, provider: Seq<char>) -> Seq<Model> {
    models.filter(|m: Model| provider_of(m.id@) == provider)
}

/// Whether a model of provider `first` comes in `models` before every model
/// of provider `second`.
pub open spec fn appears_before(models: Seq<Model>, first: Seq<char>, second: Seq<char>) -> bool {
    exists|i: int|
        0 <= i < models.len() && provider_of((#[trigger] models[i]).id@) == first && forall|j: int|
            0 <= j <= i ==> provider_of((#[trigger] models[j]).id@) != second
}

/// Whether `groups` partitions `models` by provider: no provider twice, every
/// model's provider present, each group holding exactly the models of its
/// provider, of which there is at least one, and the groups standing in the
/// order in which their providers first appear.
pub open spec fn is_grouping_of(groups: Seq<ProviderGroup>, models: Seq<Model>) -> bool {
    &&& forall|a: int, b: int|
        0 <= a < b < groups.len() ==> appears_before(
            models,
            (#[trigger] groups[a]).provider@,
            (#[trigger] groups[b]).provider@,
        )
    &&& forall|a: int, b: int|
        0 <= a < b < groups.len() ==> (#[trigger] groups[a]).provider@ != (
        #[trigger] groups[b]).provider@
    &&& forall|g: int|
        0 <= g < groups.len() ==> (#[trigger] groups[g]).models@ == models_of_provider(
            models,
            groups[g].provider@,
        )
    &&& forall|g: int| 0 <= g < groups.len() ==> (#[trigger] groups[g]).models@.len() > 0
    &&& forall|i: int|
        0 <= i < models.len() ==> has_group(groups, provider_of((#[trigger] models[i]).id@))
}

/// Whether one of `groups` is that of `provider`.
pub open spec fn has_group(groups: Seq<ProviderGroup>, provider: Seq<char>) -> bool {
    exists|g: int| 0 <= g < groups.len() && (#[trigger] groups[g]).provider@ == provider
}

/// What one more model does to the models of a provider.
pub proof fn lemma_models_of_provider_push(models: Seq<Model>, m: Model, provider: Seq<char>)
    ensures
        models_of_provider(models.push(m), provider) == if provider_of(m.id@) == provider {
            models_of_provider(models, provider).push(m)
        } else {
            models_of_provider(models, provider)
        },
{
    reveal(Seq::filter);
    assert(models.push(m).drop_last() =~= models);
}

/// A provider with models has a model.
pub proof fn lemma_provider_has_model(models: Seq<Model>, provider: Seq<char>)
    requires
        models_of_provider(models, provider).len() > 0,
    ensures
        exists|i: int|
            0 <= i < models.len() && provider_of((#[trigger] models[i]).id@) == provider,
{
    let kept = models_of_provider(models, provider);
    let pred = |m: Model| provider_of(m.id@) == provider;
    models.lemma_filter_pred(pred, 0);
    assert(kept.contains(kept[0]));
    models.lemma_filter_contains_rev(pred, kept[0]);
    let i = choose|i: int| 0 <= i < models.len() && models[i] == kept[0];
    assert(provider_of(models[i].id@) == provider);
}

/// Finds the group of `provider`; the number of groups if there is none.
fn find_group(groups: &Vec<ProviderGroup>, provider: &String) -> (at: usize)
    ensures
        at <= groups.len(),
        at < groups.len() ==> groups@[at as int].provider@ == provider@,
        forall|g: int| 0 <= g < at ==> (#[trigger] groups@[g]).provider@ != provider@,
{
    let mut at: usize = 0;
    while at < groups.len()
        invariant
            at <= groups.len(),
            forall|g: int| 0 <= g < at ==> (#[trigger] groups@[g]).provider@ != provider@,
        decreases groups.len() - at,
    {
        if groups[at].provider == *provider {
            return at;
        }
        at += 1;
    }
    at
}

/// Partitions the catalog by provider. Within a group the models keep the
/// order in which they came.
pub fn group_models_by_provider(models: Vec<Model>) -> (r: Vec<ProviderGroup>)
    ensures
        is_grouping_of(r@, models@),
{
    let ghost models0 = models@;
    let mut groups: Vec<ProviderGroup> = Vec::new();
    assert(models0.take(0) =~= Seq::<Model>::empty());
    for model in it: models.into_iter()
        invariant
            it.seq() == models0,
            is_grouping_of(groups@, models0.take(it.index())),
    {
        let ghost seen = models0.take(it.index());
        let ghost wider = models0.take(it.index() + 1);
        let ghost old_groups = groups@;
        let provider = provider_key(model.id.as_str());
        let at: usize = find_group(&groups, &provider);
        proof {
            assert(wider =~= seen.push(model));
            assert forall|g: int| 0 <= g < old_groups.len() implies models_of_provider(
                wider,
                (#[trigger] old_groups[g]).provider@,
            ) == if g == at {
                old_groups[g].models@.push(model)
            } else {
                old_groups[g].models@
            } by {
                lemma_models_of_provider_push(seen, model, old_groups[g].provider@);
            }
        }
        if at < groups.len() {
            let mut group = groups.remove(at);
            group.models.push(model);
            groups.insert(at, group);
            proof {
                assert forall|g: int| 0 <= g < groups@.len() implies (#[trigger] groups@[g]).provider@
                    == old_groups[g].provider@ && groups@[g].models@ == if g == at {
                    old_groups[g].models@.push(model)
                } else {
                    old_groups[g].models@
                } by {}
            }
        } else {
            proof {
                lemma_no_model_of_provider(seen, old_groups, provider@);
                lemma_models_of_provider_push(seen, model, provider@);
            }
            let mut members: Vec<Model> = Vec::new();
            members.push(model);
            groups.push(ProviderGroup { provider, models: members });
            assert(groups@[at as int].models@ =~= models_of_provider(wider, provider@));
        }
        proof {
            assert forall|a: int, b: int| 0 <= a < b < groups@.len() implies appears_before(
                wider,
                (#[trigger] groups@[a]).provider@,
                (#[trigger] groups@[b]).provider@,
            ) by {
                if b < old_groups.len() {
                    assert(appears_before(seen, old_groups[a].provider@, old_groups[b].provider@));
                    let i = choose|i: int|
                        0 <= i < seen.len() && provider_of((#[trigger] seen[i]).id@)
                            == old_groups[a].provider@ && forall|j: int|
                            0 <= j <= i ==> provider_of((#[trigger] seen[j]).id@)
                                != old_groups[b].provider@;
                    assert(wider[i] == seen[i]);
                    assert forall|j: int| 0 <= j <= i implies provider_of(
                        (#[trigger] wider[j]).id@,
                    ) != groups@[b].provider@ by {
                        assert(wider[j] == seen[j]);
                    }
                } else {
                    lemma_provider_has_model(seen, old_groups[a].provider@);
                    let i = choose|i: int|
                        0 <= i < seen.len() && provider_of((#[trigger] seen[i]).id@)
                            == old_groups[a].provider@;
                    assert(wider[i] == seen[i]);
                    assert forall|j: int| 0 <= j <= i implies provider_of(
                        (#[trigger] wider[j]).id@,
                    ) != groups@[b].provider@ by {
                        assert(wider[j] == seen[j]);
                        assert(has_group(old_groups, provider_of(seen[j].id@)));
                    }
                }
            }
            assert forall|i: int| 0 <= i < wider.len() implies has_group(
                groups@,
                provider_of((#[trigger] wider[i]).id@),
            ) by {
                if i < seen.len() {
                    assert(seen[i] == wider[i]);
                    let g = choose|g: int|
                        0 <= g < old_groups.len() && (#[trigger] old_groups[g]).provider@
                            == provider_of(seen[i].id@);
                    assert(groups@[g].provider@ == provider_of(wider[i].id@));
                } else {
                    assert(groups@[at as int].provider@ == provider_of(wider[i].id@));
                }
            }
        }
    }
    assert(models0.take(models0.len() as int) =~= models0);
    groups
}

/// Where no group is that of `provider`, no model seen so far has it.
proof fn lemma_no_model_of_provider(
    models: Seq<Model>,
    groups: Seq<ProviderGroup>,
    provider: Seq<char>,
)
    requires
        is_grouping_of(groups, models),
        !has_group(groups, provider),
    ensures
        models_of_provider(models, provider) == Seq::<Model>::empty(),
{
    let kept = models_of_provider(models, provider);
    if kept.len() > 0 {
        let pred = |m: Model| provider_of(m.id@) == provider;
        models.lemma_filter_pred(pred, 0);
        assert(kept.contains(kept[0]));
        models.lemma_filter_contains_rev(pred, kept[0]);
        let i = choose|i: int| 0 <= i < models.len() && models[i] == kept[0];
        assert(has_group(groups, provider_of(models[i].id@)));
    }
    assert(kept =~= Seq::<Model>::empty());
}

/// Grouping neither doubles nor drops a model: the group of a model's
/// provider holds it as often as the catalog does, and no other group holds it.
pub proof fn lemma_grouping_keeps_each_model(
    groups: Seq<ProviderGroup>,
    models: Seq<Model>,
    m: Model,
    g: int,
)
    requires
        is_grouping_of(groups, models),
        0 <= g < groups.len(),
    ensures
        groups[g].models@.to_multiset().count(m) == if provider_of(m.id@) == groups[g].provider@ {
            models.to_multiset().count(m)
        } else {
            0
        },
        models.contains(m) ==> has_group(groups, provider_of(m.id@)),
{
    let provider = groups[g].provider@;
    lemma_filter_count(models, |x: Model| provider_of(x.id@) == provider, m);
    if models.contains(m) {
        let i = choose|i: int| 0 <= i < models.len() && models[i] == m;
        assert(has_group(groups, provider_of(models[i].id@)));
    }
}

/// Two providers cannot each appear before the other.
proof fn lemma_appears_before_asymmetric(models: Seq<Model>, x: Seq<char>, y: Seq<char>)
    requires
        appears_before(models, x, y),
    ensures
        !appears_before(models, y, x),
{
    if appears_before(models, y, x) {
        let i = choose|i: int|
            0 <= i < models.len() && provider_of((#[trigger] models[i]).id@) == x && forall|j: int|
                0 <= j <= i ==> provider_of((#[trigger] models[j]).id@) != y;
        let k = choose|k: int|
            0 <= k < models.len() && provider_of((#[trigger] models[k]).id@) == y && forall|j: int|
                0 <= j <= k ==> provider_of((#[trigger] models[j]).id@) != x;
        if i <= k {
            assert(provider_of(models[i].id@) != x);
        } else {
            assert(provider_of(models[k].id@) != y);
        }
    }
}

/// Two groupings of the same models name the same providers at their first
/// `k` places.
proof fn lemma_groupings_agree(
    first: Seq<ProviderGroup>,
    second: Seq<ProviderGroup>,
    models: Seq<Model>,
    k: int,
)
    requires
        is_grouping_of(first, models),
        is_grouping_of(second, models),
        0 <= k <= first.len(),
    ensures
        k <= second.len(),
        forall|g: int| 0 <= g < k ==> (#[trigger] first[g]).provider@ == second[g].provider@,
    decreases k,
{
    if k > 0 {
        lemma_groupings_agree(first, second, models, k - 1);
        let at = k - 1;
        let x = first[at].provider@;
        // The provider at `at` has a model, so the other grouping has its group.
        lemma_provider_has_model(models, x);
        let i = choose|i: int| 0 <= i < models.len() && provider_of((#[trigger] models[i]).id@) == x;
        assert(has_group(second, provider_of(models[i].id@)));
        let m = choose|m: int| 0 <= m < second.len() && (#[trigger] second[m]).provider@ == x;
        if m < at {
            assert(first[m].provider@ == second[m].provider@);
            assert(first[m].provider@ != first[at].provider@);
        }
        if m > at {
            let y = second[at].provider@;
            lemma_provider_has_model(models, y);
            let j = choose|j: int|
                0 <= j < models.len() && provider_of((#[trigger] models[j]).id@) == y;
            assert(has_group(first, provider_of(models[j].id@)));
            let w = choose|w: int| 0 <= w < first.len() && (#[trigger] first[w]).provider@ == y;
            if w < at {
                assert(first[w].provider@ == second[w].provider@);
                assert(second[w].provider@ != second[at].provider@);
            }
            assert(w != at);
            assert(appears_before(models, second[at].provider@, second[m].provider@));
            assert(appears_before(models, first[at].provider@, first[w].provider@));
            lemma_appears_before_asymmetric(models, x, y);
        }
    }
}

/// Grouping is determined: two groupings of the same models have the same
/// providers in the same order, each with the same models.
pub proof fn lemma_grouping_determined(
    first: Seq<ProviderGroup>,
    second: Seq<ProviderGroup>,
    models: Seq<Model>,
)
    requires
        is_grouping_of(first, models),
        is_grouping_of(second, models),
    ensures
        first.len() == second.len(),
        forall|g: int|
            0 <= g < first.len() ==> (#[trigger] first[g]).provider@ == second[g].provider@
                && first[g].models@ == second[g].models@,
{
    lemma_groupings_agree(first, second, models, first.len() as int);
    lemma_groupings_agree(second, first, models, second.len() as int);
}

} // verus!
