//! The models that providers offer, and how hard they think.
use vstd::prelude::*;
use vstd::string::*;
use crate::assoc::{
    entries_view, keys_differ, lemma_found, lemma_lookup_push, lemma_missing, lookup, lookup_after_stored, stored,
    stored_keys_differ, TextMap,
};
use crate::event::Effort;
use crate::json::{
    as_str, at, json_at, json_field, json_parsed, json_pretty, json_string, lemma_object_view, option_ref, parse_json,
    plain, pretty_text, reordered, reordered_values_are_found, Json, JsonValue,
};
use crate::order::{positions, sort_positions, sorted_positions};
use crate::session::option_text;
use crate::text::{holds_text, same, split_at_first, split_once, texts};

verus! {

// ---------------------------------------------------------------------------
// The registry
// ---------------------------------------------------------------------------

/// One model of a provider.
#[derive(Clone, Debug, PartialEq, Eq)]
pub struct ModelEntry {
    pub id: String,
    /// The number of tokens that the model can read.
    pub context_window: Option<u64>,
}

/// What is configured of a provider.
#[derive(Clone, Debug, PartialEq, Eq)]
pub struct ProviderConfig {
    pub supports_reasoning_effort: bool,
    pub models: Vec<ModelEntry>,
}

/// The configured providers by name.
#[derive(Clone)]
pub struct ModelRegistry {
    pub providers: TextMap<ProviderConfig>,
}

/// What a `ProviderConfig` holds.
pub struct Provider {
    pub supports_reasoning_effort: bool,
    pub models: Seq<(Seq<char>, Option<u64>)>,
}

impl View for ProviderConfig {
    type V = Provider;

    open spec fn view(&self) -> Provider {
        Provider {
            supports_reasoning_effort: self.supports_reasoning_effort,
            models: self.models@.map_values(|m: ModelEntry| (m.id@, m.context_window)),
        }
    }
}

impl ModelRegistry {
    pub open spec fn view(&self) -> Seq<(Seq<char>, Provider)> {
        self.providers@
    }
}

/// The provider that a model's full name names.
pub open spec fn provider_of(registry: Seq<(Seq<char>, Provider)>, model: Seq<char>) -> Option<Provider> {
    match split_at_first(model, '/') {
        Some((provider, _)) => lookup(registry, provider),
        None => None,
    }
}

/// The efforts that a model with reasoning offers.
pub open spec fn all_efforts() -> Seq<Effort> {
    seq![Effort::Off, Effort::Minimal, Effort::Low, Effort::Medium, Effort::High]
}

/// The efforts that a model offers: none where it is unknown, `Off` alone where
/// its provider does not support reasoning.
pub open spec fn efforts_of(registry: Seq<(Seq<char>, Provider)>, model: Seq<char>) -> Seq<Effort> {
    match provider_of(registry, model) {
        Some(provider) => if provider.supports_reasoning_effort {
            all_efforts()
        } else {
            seq![Effort::Off]
        },
        None => Seq::empty(),
    }
}

/// The efforts that a model offers.
pub fn efforts_for_model(registry: &ModelRegistry, model: &str) -> (r: Vec<Effort>)
    ensures
        r@ == efforts_of(registry@, model@),
{
    let mut levels: Vec<Effort> = Vec::new();
    match split_once(model, '/') {
        Some(parts) => {
            match registry.providers.get(parts.0.as_str()) {
                Some(provider) => {
                    levels.push(Effort::Off);
                    if provider.supports_reasoning_effort {
                        levels.push(Effort::Minimal);
                        levels.push(Effort::Low);
                        levels.push(Effort::Medium);
                        levels.push(Effort::High);
                    }
                },
                None => {},
            }
        },
        None => {},
    }
    assert(levels@ =~= efforts_of(registry@, model@));
    levels
}

/// The context window of the model named `id`.
pub open spec fn window_in(models: Seq<(Seq<char>, Option<u64>)>, id: Seq<char>) -> Option<u64>
    decreases models.len(),
{
    if models.len() == 0 {
        None
    } else if models[0].0 == id {
        models[0].1
    } else {
        window_in(models.drop_first(), id)
    }
}

/// The context window of a model by its full name.
pub open spec fn window_of(registry: Seq<(Seq<char>, Provider)>, model: Seq<char>) -> Option<u64> {
    match split_at_first(model, '/') {
        Some((provider, id)) => match lookup(registry, provider) {
            Some(p) => window_in(p.models, id),
            None => None,
        },
        None => None,
    }
}

/// The context window of a model by its full name.
pub fn model_context_window(registry: &ModelRegistry, model: &str) -> (r: Option<u64>)
    ensures
        r == window_of(registry@, model@),
{
    match split_once(model, '/') {
        Some(parts) => match registry.providers.get(parts.0.as_str()) {
            Some(provider) => {
                let ghost all = provider@.models;
                let mut i: usize = 0;
                assert(all.skip(0) =~= all);
                while i < provider.models.len()
                    invariant
                        i <= provider.models.len(),
                        all == provider@.models,
                        window_of(registry@, model@) == window_in(all, parts.1@),
                        window_in(all, parts.1@) == window_in(all.skip(i as int), parts.1@),
                    decreases provider.models.len() - i,
                {
                    assert(all.skip(i as int).drop_first() =~= all.skip(i + 1));
                    assert(all.skip(i as int)[0] == (provider.models@[i as int].id@, provider.models@[i as int].context_window));
                    if same(provider.models[i].id.as_str(), parts.1.as_str()) {
                        return provider.models[i].context_window;
                    }
                    i += 1;
                }
                None
            },
            None => None,
        },
        None => None,
    }
}

/// The share of a context window that is used, in whole percent up to a hundred.
pub open spec fn percent_of(input_tokens: u64, context_window: u64) -> int {
    if context_window == 0 {
        0
    } else {
        let scaled = if input_tokens * 100 > u64::MAX {
            u64::MAX as int
        } else {
            input_tokens * 100
        };
        let percent = scaled / context_window as int;
        if percent > 100 {
            100
        } else {
            percent
        }
    }
}

/// The share of a context window that is used, in percent.
pub fn context_percent_used(input_tokens: u64, context_window: u64) -> (r: u8)
    ensures
        r == percent_of(input_tokens, context_window),
        r <= 100,
{
    if context_window == 0 {
        return 0;
    }
    let scaled: u64 = if input_tokens > 184467440737095516u64 {
        u64::MAX
    } else {
        input_tokens * 100
    };
    let percent: u64 = scaled / context_window;
    if percent > 100 {
        100
    } else {
        percent as u8
    }
}

/// The full names of the models of one provider.
pub open spec fn names_of(provider: Seq<char>, models: Seq<(Seq<char>, Option<u64>)>) -> Seq<Seq<char>> {
    models.map_values(|m: (Seq<char>, Option<u64>)| provider + "/"@ + m.0)
}

/// The full names of all models, in the order in which they are configured.
pub open spec fn configured_names(registry: Seq<(Seq<char>, Provider)>) -> Seq<Seq<char>>
    decreases registry.len(),
{
    if registry.len() == 0 {
        Seq::empty()
    } else {
        configured_names(registry.drop_last()) + names_of(registry.last().0, registry.last().1.models)
    }
}

/// The elements of `list` at the given positions.
pub open spec fn picked(list: Seq<Seq<char>>, at: Seq<int>) -> Seq<Seq<char>> {
    at.map_values(|i: int| list[i])
}

/// The full names of all models, sorted.
pub open spec fn model_names(registry: Seq<(Seq<char>, Provider)>) -> Seq<Seq<char>> {
    picked(configured_names(registry), sorted_positions(configured_names(registry)))
}

/// Lists the full names of all models, sorted.
pub fn available_models(registry: &ModelRegistry) -> (r: Vec<String>)
    ensures
        texts(r@) == model_names(registry@),
{
    let providers = &registry.providers.entries;
    let mut names: Vec<String> = Vec::new();
    let mut p: usize = 0;
    assert(texts(names@) =~= configured_names(registry@.take(0)));
    while p < providers.len()
        invariant
            p <= providers.len(),
            providers@ == registry.providers.entries@,
            texts(names@) == configured_names(registry@.take(p as int)),
        decreases providers.len() - p,
    {
        let models = &providers[p].1.models;
        let ghost before = texts(names@);
        let ghost here = names_of(registry@[p as int].0, registry@[p as int].1.models);
        proof {
            assert(registry@[p as int] == (providers@[p as int].0@, providers@[p as int].1@));
            assert(registry@.take(p + 1).drop_last() =~= registry@.take(p as int));
            assert(before + here.take(0) =~= before);
        }
        let mut m: usize = 0;
        while m < models.len()
            invariant
                m <= models.len(),
                p < providers.len(),
                providers@ == registry.providers.entries@,
                models@ == providers@[p as int].1.models@,
                registry@[p as int] == (providers@[p as int].0@, providers@[p as int].1@),
                here == names_of(registry@[p as int].0, registry@[p as int].1.models),
                here.len() == models.len(),
                texts(names@) == before + here.take(m as int),
            decreases models.len() - m,
        {
            let mut name = providers[p].0.clone();
            name.append("/");
            name.append(models[m].id.as_str());
            let ghost now = texts(names@);
            names.push(name);
            assert(texts(names@) =~= now.push(name@));
            assert(here[m as int] == name@);
            m += 1;
            assert(before + here.take(m as int) =~= now.push(here[m - 1]));
        }
        assert(here.take(models.len() as int) =~= here);
        p += 1;
    }
    assert(registry@.take(providers.len() as int) =~= registry@);
    let order = sort_positions(&names);
    let mut sorted: Vec<String> = Vec::new();
    let mut i: usize = 0;
    while i < order.len()
        invariant
            i <= order.len(),
            forall|k: int| 0 <= k < order.len() ==> (#[trigger] order@[k]) < names.len(),
            sorted.len() == i,
            forall|k: int| 0 <= k < i ==> (#[trigger] sorted@[k])@ == names@[order@[k] as int]@,
        decreases order.len() - i,
    {
        sorted.push(names[order[i]].clone());
        i += 1;
    }
    proof {
        let all = configured_names(registry@);
        assert forall|k: int| 0 <= k < sorted.len() implies texts(sorted@)[k] == model_names(registry@)[k] by {
            assert(positions(order@)[k] == sorted_positions(all)[k]);
            assert(texts(names@)[order@[k] as int] == names@[order@[k] as int]@);
        }
        assert(texts(sorted@) =~= model_names(registry@));
    }
    sorted
}

/// The model to start with: the configured default, else the last one used, as
/// far as they are available; else the first available; else none.
pub open spec fn initial_model(available: Seq<Seq<char>>, default_model: Option<Seq<char>>, last_model: Option<Seq<char>>) -> Seq<char> {
    if default_model is Some && available.contains(default_model->0) {
        default_model->0
    } else if last_model is Some && available.contains(last_model->0) {
        last_model->0
    } else if available.len() > 0 {
        available[0]
    } else {
        Seq::empty()
    }
}

/// Picks the model to start with.
pub fn select_initial_model(available: &Vec<String>, default_model: &Option<String>, last_model: &Option<String>) -> (r: String)
    ensures
        r@ == initial_model(texts(available@), option_text(*default_model), option_text(*last_model)),
{
    match default_model {
        Some(model) => {
            if holds_text(available, model.as_str()) {
                return model.clone();
            }
        },
        None => {},
    }
    match last_model {
        Some(model) => {
            if holds_text(available, model.as_str()) {
                return model.clone();
            }
        },
        None => {},
    }
    if available.len() > 0 {
        assert(texts(available@)[0] == available@[0]@);
        available[0].clone()
    } else {
        String::new()
    }
}

// ---------------------------------------------------------------------------
// Efforts
// ---------------------------------------------------------------------------

/// The effort that stands in for `requested`: itself where it is allowed, else
/// `Off` where that is, else the first allowed one, else `Off`.
pub open spec fn clamped(requested: Effort, allowed: Seq<Effort>) -> Effort {
    if allowed.contains(requested) {
        requested
    } else if allowed.contains(Effort::Off) || allowed.len() == 0 {
        Effort::Off
    } else {
        allowed[0]
    }
}

fn has_effort(allowed: &Vec<Effort>, level: Effort) -> (r: bool)
    ensures
        r == allowed@.contains(level),
{
    let mut i: usize = 0;
    while i < allowed.len()
        invariant
            i <= allowed.len(),
            forall|k: int| 0 <= k < i ==> allowed@[k] != level,
        decreases allowed.len() - i,
    {
        if allowed[i] == level {
            assert(allowed@[i as int] == level);
            return true;
        }
        i += 1;
    }
    false
}

/// Brings an effort into what is allowed.
pub fn clamp_effort(requested: Effort, allowed: &Vec<Effort>) -> (r: Effort)
    ensures
        r == clamped(requested, allowed@),
{
    if has_effort(allowed, requested) {
        requested
    } else if has_effort(allowed, Effort::Off) || allowed.len() == 0 {
        Effort::Off
    } else {
        allowed[0]
    }
}

/// What stands in for an effort is allowed, wherever anything is.
pub proof fn clamped_is_allowed(requested: Effort, allowed: Seq<Effort>)
    requires
        allowed.len() > 0,
    ensures
        allowed.contains(clamped(requested, allowed)),
        clamped(clamped(requested, allowed), allowed) == clamped(requested, allowed),
{
    assert(allowed[0] == allowed[0]);
}

/// The effort in the middle of what is allowed.
pub open spec fn middle_of(allowed: Seq<Effort>) -> Effort {
    if allowed.len() == 0 {
        Effort::Off
    } else {
        allowed[allowed.len() as int / 2]
    }
}

/// The effort in the middle of what is allowed.
pub fn middle_effort(allowed: &Vec<Effort>) -> (r: Effort)
    ensures
        r == middle_of(allowed@),
{
    if allowed.len() == 0 {
        Effort::Off
    } else {
        allowed[allowed.len() / 2]
    }
}

/// The name of an effort.
pub open spec fn effort_name(effort: Effort) -> Seq<char> {
    match effort {
        Effort::Off => "off"@,
        Effort::Minimal => "minimal"@,
        Effort::Low => "low"@,
        Effort::Medium => "medium"@,
        Effort::High => "high"@,
        Effort::XHigh => "xhigh"@,
    }
}

impl Effort {
    /// The name of the effort.
    pub fn as_str(self) -> (r: &'static str)
        ensures
            r@ == effort_name(self),
    {
        match self {
            Effort::Off => "off",
            Effort::Minimal => "minimal",
            Effort::Low => "low",
            Effort::Medium => "medium",
            Effort::High => "high",
            Effort::XHigh => "xhigh",
        }
    }
}

impl View for Effort {
    type V = Effort;

    open spec fn view(&self) -> Effort {
        *self
    }
}

/// The effort with this name.
pub open spec fn effort_named(name: Seq<char>) -> Option<Effort> {
    if name == "off"@ {
        Some(Effort::Off)
    } else if name == "minimal"@ {
        Some(Effort::Minimal)
    } else if name == "low"@ {
        Some(Effort::Low)
    } else if name == "medium"@ {
        Some(Effort::Medium)
    } else if name == "high"@ {
        Some(Effort::High)
    } else if name == "xhigh"@ {
        Some(Effort::XHigh)
    } else {
        None
    }
}

/// Reads the name of an effort.
pub fn parse_effort(value: &str) -> (r: Option<Effort>)
    ensures
        r == effort_named(value@),
{
    if same(value, "off") {
        Some(Effort::Off)
    } else if same(value, "minimal") {
        Some(Effort::Minimal)
    } else if same(value, "low") {
        Some(Effort::Low)
    } else if same(value, "medium") {
        Some(Effort::Medium)
    } else if same(value, "high") {
        Some(Effort::High)
    } else if same(value, "xhigh") {
        Some(Effort::XHigh)
    } else {
        None
    }
}

/// Every effort is read back from its name.
pub proof fn effort_names_read_back(effort: Effort)
    ensures
        effort_named(effort_name(effort)) == Some(effort),
{
    reveal_strlit("off");
    reveal_strlit("minimal");
    reveal_strlit("low");
    reveal_strlit("medium");
    reveal_strlit("high");
    reveal_strlit("xhigh");
    assert("off"@.len() == 3);
    assert("minimal"@.len() == 7);
    assert("low"@.len() == 3);
    assert("medium"@.len() == 6);
    assert("high"@.len() == 4);
    assert("xhigh"@.len() == 5);
    assert("off"@[0] == 'o');
    assert("low"@[0] == 'l');
}

/// The effort for a model: the configured one, else the last one used, else the
/// middle one, brought into what the model offers.
pub open spec fn effort_for(
    default_efforts: Seq<(Seq<char>, Effort)>,
    last_efforts: Seq<(Seq<char>, Effort)>,
    registry: Seq<(Seq<char>, Provider)>,
    model: Seq<char>,
) -> Effort {
    let allowed = efforts_of(registry, model);
    let requested = match lookup(default_efforts, model) {
        Some(effort) => effort,
        None => match lookup(last_efforts, model) {
            Some(effort) => effort,
            None => middle_of(allowed),
        },
    };
    clamped(requested, allowed)
}

/// Picks the effort for a model.
pub fn selected_effort_for_model(
    default_efforts: &TextMap<Effort>,
    last_efforts: &TextMap<Effort>,
    registry: &ModelRegistry,
    model: &str,
) -> (r: Effort)
    ensures
        r == effort_for(default_efforts@, last_efforts@, registry@, model@),
{
    let allowed = efforts_for_model(registry, model);
    let requested = match default_efforts.get(model) {
        Some(effort) => *effort,
        None => match last_efforts.get(model) {
            Some(effort) => *effort,
            None => middle_effort(&allowed),
        },
    };
    clamp_effort(requested, &allowed)
}

// ---------------------------------------------------------------------------
// What is remembered between runs
// ---------------------------------------------------------------------------

/// The efforts among the first `n` entries; an entry that names no effort is
/// left out.
pub open spec fn efforts_in(entries: Seq<(Seq<char>, Json)>, n: nat) -> Seq<(Seq<char>, Effort)>
    decreases n,
{
    if n == 0 || n > entries.len() {
        Seq::empty()
    } else {
        let before = efforts_in(entries, (n - 1) as nat);
        match entries[n - 1].1 {
            Json::Text(name) => match effort_named(name) {
                Some(effort) => stored(before, entries[n - 1].0, effort),
                None => before,
            },
            _ => before,
        }
    }
}

/// The last effort of each model, as the remembered state holds it.
pub open spec fn remembered_efforts(state: Option<Json>) -> Seq<(Seq<char>, Effort)> {
    match json_at(state, "last_efforts"@) {
        Some(Json::Object(entries)) => efforts_in(entries, entries.len()),
        _ => Seq::empty(),
    }
}

/// The last effort of each model, out of the remembered state.
pub fn efforts_in_state(state: Option<&JsonValue>) -> (r: TextMap<Effort>)
    ensures
        r@ == remembered_efforts(option_ref(state)),
{
    let mut levels: TextMap<Effort> = TextMap::new();
    match at(state, "last_efforts") {
        Some(value) => {
            match value {
                JsonValue::Object(entries) => {
                    proof {
                        lemma_object_view(*value);
                    }
                    let ghost all = entries_view(entries@);
                    let mut i: usize = 0;
                    while i < entries.len()
                        invariant
                            i <= entries.len(),
                            all == entries_view(entries@),
                            levels@ == efforts_in(all, i as nat),
                        decreases entries.len() - i,
                    {
                        assert(all[i as int] == (entries@[i as int].0@, entries@[i as int].1@));
                        match &entries[i].1 {
                            JsonValue::Text(name) => {
                                match parse_effort(name.as_str()) {
                                    Some(effort) => {
                                        levels.insert(entries[i].0.clone(), effort);
                                    },
                                    None => {},
                                }
                            },
                            _ => {
                                assert(!(all[i as int].1 is Text));
                            },
                        }
                        i += 1;
                    }
                },
                _ => {},
            }
        },
        None => {},
    }
    levels
}

/// Reads the last effort of each model out of the text of the remembered state.
pub fn load_last_efforts(text: &str) -> (r: TextMap<Effort>)
    ensures
        r@ == remembered_efforts(json_parsed(text@)),
{
    match parse_json(text) {
        Some(state) => efforts_in_state(Some(&state)),
        None => efforts_in_state(None),
    }
}

/// The model that was selected last, out of the remembered state.
pub fn model_in_state(state: Option<&JsonValue>) -> (r: Option<String>)
    ensures
        option_text(r) == json_string(json_at(option_ref(state), "last_selected_model"@)),
{
    match as_str(at(state, "last_selected_model")) {
        Some(s) => Some(s.to_owned()),
        None => None,
    }
}

/// Reads the model that was selected last out of the text of the remembered
/// state.
pub fn load_last_selected_model(text: &str) -> (r: Option<String>)
    ensures
        option_text(r) == json_string(json_at(json_parsed(text@), "last_selected_model"@)),
{
    match parse_json(text) {
        Some(state) => model_in_state(Some(&state)),
        None => None,
    }
}

/// The efforts as JSON.
pub open spec fn efforts_json(efforts: Seq<(Seq<char>, Effort)>) -> Seq<(Seq<char>, Json)> {
    efforts.map_values(|e: (Seq<char>, Effort)| (e.0, Json::Text(effort_name(e.1))))
}

/// The efforts to remember: those of before, and this one where a model is
/// selected.
pub open spec fn efforts_after(last_efforts: Seq<(Seq<char>, Effort)>, model: Seq<char>, effort: Effort) -> Seq<
    (Seq<char>, Effort),
> {
    if model.len() > 0 {
        stored(last_efforts, model, effort)
    } else {
        last_efforts
    }
}

/// The state to remember.
pub open spec fn state_json(model: Seq<char>, efforts: Seq<(Seq<char>, Effort)>) -> Json {
    Json::Object(
        seq![
            ("last_selected_model"@, Json::Text(model)),
            ("last_efforts"@, Json::Object(efforts_json(efforts))),
        ],
    )
}

/// The state to remember, as JSON.
pub fn harness_state(model: &str, efforts: &TextMap<Effort>) -> (r: JsonValue)
    ensures
        r@ == state_json(model@, efforts@),
{
    let mut levels: Vec<(String, JsonValue)> = Vec::new();
    let mut i: usize = 0;
    while i < efforts.entries.len()
        invariant
            i <= efforts.entries.len(),
            levels.len() == i,
            forall|k: int|
                0 <= k < i ==> (#[trigger] levels@[k]).0@ == efforts@[k].0 && levels@[k].1@ == Json::Text(
                    effort_name(efforts@[k].1),
                ),
        decreases efforts.entries.len() - i,
    {
        assert(efforts@[i as int] == (efforts.entries@[i as int].0@, efforts.entries@[i as int].1));
        let name = efforts.entries[i].1.as_str().to_owned();
        levels.push((efforts.entries[i].0.clone(), JsonValue::Text(name)));
        i += 1;
    }
    assert(entries_view(levels@) =~= efforts_json(efforts@));
    let inner = JsonValue::Object(levels);
    proof {
        lemma_object_view(inner);
    }
    let mut entries: Vec<(String, JsonValue)> = Vec::new();
    entries.push(("last_selected_model".to_owned(), JsonValue::Text(model.to_owned())));
    entries.push(("last_efforts".to_owned(), inner));
    assert(entries_view(entries@) =~= state_json(model@, efforts@)->Object_0);
    let r = JsonValue::Object(entries);
    proof {
        lemma_object_view(r);
    }
    r
}

/// The text to remember after `model` was selected with `effort`. What is read from
/// it later is what is remembered now.
pub fn save_harness_state(last_efforts: &mut TextMap<Effort>, model: &str, effort: Effort) -> (r: String)
    ensures
        final(last_efforts)@ == efforts_after(old(last_efforts)@, model@, effort),
        r@ == json_pretty(state_json(model@, final(last_efforts)@)),
        keys_differ(old(last_efforts)@) ==> json_string(json_at(json_parsed(r@), "last_selected_model"@)) == Some(
            model@,
        ),
        keys_differ(old(last_efforts)@) ==> forall|other: Seq<char>|
            lookup(remembered_efforts(json_parsed(r@)), other) == #[trigger] lookup(final(last_efforts)@, other),
{
    let ghost before = last_efforts@;
    if !model.is_empty() {
        last_efforts.insert(model.to_owned(), effort);
    }
    let state = harness_state(model, &*last_efforts);
    let r = pretty_text(&state);
    proof {
        if keys_differ(before) {
            stored_keys_differ(before, model@, effort);
            lemma_state_is_plain(model@, last_efforts@);
            let again = json_parsed(r@)->Some_0;
            saved_state_reads_back(model@, last_efforts@, again, model@);
            assert forall|other: Seq<char>|
                lookup(remembered_efforts(json_parsed(r@)), other) == #[trigger] lookup(last_efforts@, other) by {
                saved_state_reads_back(model@, last_efforts@, again, other);
            }
        }
    }
    r
}

proof fn lemma_efforts_found(entries: Seq<(Seq<char>, Json)>, n: nat, model: Seq<char>)
    requires
        n <= entries.len(),
        keys_differ(entries),
    ensures
        lookup(efforts_in(entries, n), model) == (match lookup(entries.take(n as int), model) {
            Some(Json::Text(name)) => effort_named(name),
            _ => None,
        }),
    decreases n,
{
    let seen = entries.take(n as int);
    if n == 0 {
        lemma_missing(seen, model, Json::Null);
        lemma_missing(Seq::<(Seq<char>, Effort)>::empty(), model, Effort::Off);
    } else {
        let before = entries.take(n - 1);
        let last = entries[n - 1];
        lemma_efforts_found(entries, (n - 1) as nat, model);
        assert(seen =~= before.push(last));
        lemma_lookup_push(before, last, model);
        if last.0 == model {
            assert forall|k: int| 0 <= k < before.len() implies (#[trigger] before[k]).0 != model by {
                assert(entries[k].0 != entries[n - 1].0);
            }
            lemma_missing(before, model, Json::Null);
        }
        if let Json::Text(name) = last.1 {
            if let Some(effort) = effort_named(name) {
                lookup_after_stored(efforts_in(entries, (n - 1) as nat), last.0, effort, model);
            }
        }
    }
}

proof fn lemma_written_efforts(efforts: Seq<(Seq<char>, Effort)>, model: Seq<char>)
    ensures
        lookup(efforts_json(efforts), model) == (match lookup(efforts, model) {
            Some(effort) => Some(Json::Text(effort_name(effort))),
            None => None,
        }),
    decreases efforts.len(),
{
    reveal_with_fuel(lookup, 2);
    if efforts.len() > 0 {
        lemma_written_efforts(efforts.drop_first(), model);
        assert(efforts_json(efforts).drop_first() =~= efforts_json(efforts.drop_first()));
    }
}

proof fn lemma_state_is_plain(model: Seq<char>, efforts: Seq<(Seq<char>, Effort)>)
    requires
        keys_differ(efforts),
    ensures
        plain(state_json(model, efforts), 100),
        keys_differ(state_json(model, efforts)->Object_0),
        keys_differ(efforts_json(efforts)),
        json_field(state_json(model, efforts), "last_selected_model"@) == Some(Json::Text(model)),
        json_field(state_json(model, efforts), "last_efforts"@) == Some(Json::Object(efforts_json(efforts))),
{
    reveal_with_fuel(plain, 4);
    reveal_strlit("last_selected_model");
    reveal_strlit("last_efforts");
    assert("last_selected_model"@.len() == 19);
    assert("last_efforts"@.len() == 12);
    let state = state_json(model, efforts)->Object_0;
    let levels = efforts_json(efforts);
    assert forall|i: int, j: int| 0 <= i < j < levels.len() implies (#[trigger] levels[i]).0 != (#[trigger] levels[j]).0 by {
        assert(efforts[i].0 != efforts[j].0);
    }
    lemma_found(state, "last_selected_model"@, Json::Null, 0);
    lemma_found(state, "last_efforts"@, Json::Null, 1);
}

/// What is remembered of the model and the efforts is what was saved, in whatever
/// order the keys were written.
pub proof fn saved_state_reads_back(model: Seq<char>, efforts: Seq<(Seq<char>, Effort)>, again: Json, other: Seq<char>)
    requires
        keys_differ(efforts),
        reordered(state_json(model, efforts), again),
    ensures
        json_string(json_at(Some(again), "last_selected_model"@)) == Some(model),
        lookup(remembered_efforts(Some(again)), other) == lookup(efforts, other),
{
    let state = state_json(model, efforts);
    lemma_state_is_plain(model, efforts);
    reordered_values_are_found(state, again, "last_selected_model"@);
    reordered_values_are_found(state, again, "last_efforts"@);
    let levels = json_field(again, "last_efforts"@)->Some_0;
    reordered_values_are_found(Json::Object(efforts_json(efforts)), levels, other);
    let entries = levels->Object_0;
    lemma_efforts_found(entries, entries.len(), other);
    assert(entries.take(entries.len() as int) =~= entries);
    lemma_written_efforts(efforts, other);
    if let Some(effort) = lookup(efforts, other) {
        effort_names_read_back(effort);
    }
}

} // verus!
