//! What holds of the choice of a model and of its effort.
use vstd::prelude::*;
use crate::assoc::{lookup, lookup_after_stored};
use crate::event::Effort;
use crate::models::{
    clamped, configured_names, effort_for, efforts_after, efforts_of, initial_model, model_names, names_of,
    percent_of, window_in, window_of, Provider,
};
use crate::order::{sorted_positions, sorted_positions_in_order};
use crate::text::text_less;
use crate::text_laws::texts_split_at_the_first;

verus! {

/// The efforts and the context window of a model are those of the provider that its name
/// begins with; of several models with one id the first counts.
pub proof fn models_belong_to_their_provider(
    registry: Seq<(Seq<char>, Provider)>,
    name: Seq<char>,
    provider: Provider,
    id: Seq<char>,
    i: int,
)
    requires
        !name.contains('/'),
        lookup(registry, name) == Some(provider),
        0 <= i < provider.models.len(),
        provider.models[i].0 == id,
        forall|j: int| 0 <= j < i ==> (#[trigger] provider.models[j]).0 != id,
    ensures
        window_of(registry, name + seq!['/'] + id) == provider.models[i].1,
        provider.supports_reasoning_effort ==> efforts_of(registry, name + seq!['/'] + id) == seq![
            Effort::Off,
            Effort::Minimal,
            Effort::Low,
            Effort::Medium,
            Effort::High,
        ],
        !provider.supports_reasoning_effort ==> efforts_of(registry, name + seq!['/'] + id) == seq![Effort::Off],
{
    texts_split_at_the_first(name, '/', id);
    lemma_window(provider.models, id, i);
}

proof fn lemma_window(models: Seq<(Seq<char>, Option<u64>)>, id: Seq<char>, i: int)
    requires
        0 <= i < models.len(),
        models[i].0 == id,
        forall|j: int| 0 <= j < i ==> (#[trigger] models[j]).0 != id,
    ensures
        window_in(models, id) == models[i].1,
    decreases models.len(),
{
    if i > 0 {
        assert(models[0].0 != id);
        let rest = models.drop_first();
        assert forall|j: int| 0 <= j < i - 1 implies (#[trigger] rest[j]).0 != id by {
            assert(rest[j] == models[j + 1]);
        }
        lemma_window(rest, id, i - 1);
    }
}

/// A model of a provider that is not known has no window and no efforts.
pub proof fn models_of_unknown_providers_have_nothing(
    registry: Seq<(Seq<char>, Provider)>,
    name: Seq<char>,
    id: Seq<char>,
)
    requires
        !name.contains('/'),
        lookup(registry, name) is None,
    ensures
        window_of(registry, name + seq!['/'] + id) is None,
        efforts_of(registry, name + seq!['/'] + id).len() == 0,
        window_of(registry, name) is None,
        efforts_of(registry, name).len() == 0,
{
    texts_split_at_the_first(name, '/', id);
}

/// The share of a window is the hundredfold of what is used, divided by the window, and
/// never above one hundred.
pub proof fn shares_are_hundredths(used: u64, window: u64)
    requires
        window > 0,
        used * 100 <= u64::MAX,
    ensures
        0 <= percent_of(used, window) <= 100,
        used < window ==> percent_of(used, window) * window <= used * 100 < (percent_of(used, window) + 1) * window,
        used >= window ==> percent_of(used, window) == 100,
        percent_of(used, 0) == 0,
{
    let p = used * 100 / window as int;
    assert(p * window <= used * 100 < (p + 1) * window && p >= 0) by (nonlinear_arith)
        requires
            p == used * 100 / window as int,
            window > 0,
            used >= 0,
    ;
    if used >= window {
        assert(p >= 100) by (nonlinear_arith)
            requires
                p == used * 100 / window as int,
                used >= window,
                window > 0,
        ;
    } else {
        assert(p <= 100) by (nonlinear_arith)
            requires
                p == used * 100 / window as int,
                used < window,
                window > 0,
        ;
    }
}

proof fn lemma_configured(registry: Seq<(Seq<char>, Provider)>, p: int, m: int)
    requires
        0 <= p < registry.len(),
        0 <= m < registry[p].1.models.len(),
    ensures
        configured_names(registry).contains(registry[p].0 + "/"@ + registry[p].1.models[m].0),
    decreases registry.len(),
{
    let n = registry.len() - 1;
    let before = configured_names(registry.drop_last());
    let names = names_of(registry[n].0, registry[n].1.models);
    let name = registry[p].0 + "/"@ + registry[p].1.models[m].0;
    if p == n {
        assert(names[m] == name);
        assert(configured_names(registry)[before.len() + m] == name);
    } else {
        lemma_configured(registry.drop_last(), p, m);
        let k = choose|k: int| 0 <= k < before.len() && before[k] == name;
        assert(configured_names(registry)[k] == name);
    }
}

proof fn lemma_only_configured(registry: Seq<(Seq<char>, Provider)>, k: int)
    requires
        0 <= k < configured_names(registry).len(),
    ensures
        exists|p: int, m: int|
            0 <= p < registry.len() && 0 <= m < registry[p].1.models.len() && configured_names(registry)[k]
                == registry[p].0 + "/"@ + (#[trigger] registry[p].1.models[m]).0,
    decreases registry.len(),
{
    let n = registry.len() - 1;
    let before = configured_names(registry.drop_last());
    let names = names_of(registry[n].0, registry[n].1.models);
    if k < before.len() {
        lemma_only_configured(registry.drop_last(), k);
        let (p, m) = choose|p: int, m: int|
            0 <= p < registry.drop_last().len() && 0 <= m < registry.drop_last()[p].1.models.len() && before[k]
                == registry.drop_last()[p].0 + "/"@ + (#[trigger] registry.drop_last()[p].1.models[m]).0;
        assert(registry[p].1.models[m] == registry.drop_last()[p].1.models[m]);
    } else {
        let m = k - before.len();
        assert(names[m] == registry[n].0 + "/"@ + registry[n].1.models[m].0);
        assert(registry[n].1.models[m] == registry[n].1.models[m]);
    }
}

/// Every configured model can be chosen, under its provider's name and its id, and no
/// other; the names are listed in their order.
pub proof fn configured_models_are_available(registry: Seq<(Seq<char>, Provider)>, p: int, m: int, i: int, j: int)
    ensures
        0 <= p < registry.len() && 0 <= m < registry[p].1.models.len() ==> model_names(registry).contains(
            registry[p].0 + "/"@ + registry[p].1.models[m].0,
        ),
        0 <= i < model_names(registry).len() ==> exists|q: int, k: int|
            0 <= q < registry.len() && 0 <= k < registry[q].1.models.len() && model_names(registry)[i] == registry[q].0
                + "/"@ + (#[trigger] registry[q].1.models[k]).0,
        0 <= i < j < model_names(registry).len() ==> !text_less(model_names(registry)[j], model_names(registry)[i]),
        model_names(registry).len() == configured_names(registry).len(),
{
    let names = configured_names(registry);
    let at = sorted_positions(names);
    sorted_positions_in_order(names);
    if 0 <= p < registry.len() && 0 <= m < registry[p].1.models.len() {
        let name = registry[p].0 + "/"@ + registry[p].1.models[m].0;
        lemma_configured(registry, p, m);
        let k = choose|k: int| 0 <= k < names.len() && names[k] == name;
        assert(at.contains(k));
        let x = choose|x: int| 0 <= x < at.len() && at[x] == k;
        assert(model_names(registry)[x] == name);
    }
    if 0 <= i < model_names(registry).len() {
        assert(model_names(registry)[i] == names[at[i]]);
        lemma_only_configured(registry, at[i]);
    }
    if 0 <= i < j < model_names(registry).len() {
        assert(model_names(registry)[i] == names[at[i]]);
        assert(model_names(registry)[j] == names[at[j]]);
        if text_less(names[at[j]], names[at[i]]) {
            if text_less(names[at[i]], names[at[j]]) {
                crate::order::text_less_transitive(names[at[i]], names[at[j]], names[at[i]]);
            }
            crate::order::text_less_irreflexive(names[at[i]]);
        }
    }
}

/// The model to begin with is an available one. That of the settings comes before the one
/// that was selected last, which comes before the first.
pub proof fn the_first_model_is_available(
    available: Seq<Seq<char>>,
    default_model: Option<Seq<char>>,
    last_model: Option<Seq<char>>,
)
    ensures
        available.len() > 0 ==> available.contains(initial_model(available, default_model, last_model)),
        available.len() == 0 ==> initial_model(available, default_model, last_model).len() == 0,
        default_model matches Some(m) ==> available.contains(m) ==> initial_model(available, default_model, last_model)
            == m,
        (default_model matches Some(m) ==> !available.contains(m)) && (last_model matches Some(m)
            && available.contains(m)) ==> Some(initial_model(available, default_model, last_model)) == last_model,
        available.len() > 0 && (default_model matches Some(m) ==> !available.contains(m)) && (last_model matches Some(m)
            ==> !available.contains(m)) ==> initial_model(available, default_model, last_model) == available[0],
{
    if available.len() > 0 {
        assert(available.contains(available[0]));
    }
}

/// The effort of a model is the one of the settings, else the one that is remembered,
/// else the one in the middle, as far as the model allows it.
pub proof fn efforts_are_those_of_the_settings_first(
    default_efforts: Seq<(Seq<char>, Effort)>,
    last_efforts: Seq<(Seq<char>, Effort)>,
    registry: Seq<(Seq<char>, Provider)>,
    model: Seq<char>,
)
    ensures
        ({
            let allowed = efforts_of(registry, model);
            let effort = effort_for(default_efforts, last_efforts, registry, model);
            &&& allowed.len() > 0 ==> allowed.contains(effort)
            &&& allowed.len() == 0 ==> effort == Effort::Off
            &&& lookup(default_efforts, model) matches Some(e) ==> allowed.contains(e) ==> effort == e
            &&& lookup(default_efforts, model) is None && (lookup(last_efforts, model) matches Some(e)
                && allowed.contains(e)) ==> Some(effort) == lookup(last_efforts, model)
            &&& lookup(default_efforts, model) is None && lookup(last_efforts, model) is None && allowed.len() == 5
                ==> effort == allowed[2]
        }),
{
    let allowed = efforts_of(registry, model);
    if allowed.len() > 0 {
        crate::models::clamped_is_allowed(Effort::Off, allowed);
        assert(allowed.contains(allowed[0]));
        assert(allowed.contains(allowed[allowed.len() as int / 2]));
    }
}

/// An effort that is not allowed is none, where none is allowed.
pub proof fn efforts_that_are_not_allowed_are_off(requested: Effort, allowed: Seq<Effort>)
    ensures
        allowed.contains(requested) ==> clamped(requested, allowed) == requested,
        !allowed.contains(requested) && allowed.contains(Effort::Off) ==> clamped(requested, allowed) == Effort::Off,
        allowed.len() == 0 ==> clamped(requested, allowed) == Effort::Off,
{
}

/// The effort that is chosen is remembered for its model and for no other.
pub proof fn efforts_are_remembered_for_their_model(
    last_efforts: Seq<(Seq<char>, Effort)>,
    model: Seq<char>,
    effort: Effort,
    other: Seq<char>,
)
    ensures
        model.len() > 0 ==> lookup(efforts_after(last_efforts, model, effort), model) == Some(effort),
        other != model ==> lookup(efforts_after(last_efforts, model, effort), other) == lookup(last_efforts, other),
        model.len() == 0 ==> efforts_after(last_efforts, model, effort) == last_efforts,
{
    lookup_after_stored(last_efforts, model, effort, model);
    lookup_after_stored(last_efforts, model, effort, other);
}

} // verus!
