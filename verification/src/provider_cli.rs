//! The commands that set providers up: adding and removing them, listing them, and
//! logging in.
use vstd::prelude::*;
use vstd::string::*;
use crate::assoc::{
    entries_view, lemma_lookup_stands, lookup, lookup_after_removed, lookup_after_stored, removed, stored, TextMap,
};
use crate::json::{
    comes_back, json5_parsed, json_field, json_pretty, json_views, list_value, object_value, parse_json5, parse_view,
    plain, pretty_text, put, reordered, reordered_values_are_found, json5_readable, Json, JsonValue,
};
use crate::minting::{hex_digits, hex_suffix};
use crate::order::{text_less_total, text_less_transitive};
use crate::paths::{absolute, file_name, is_absolute, join_path, name_of, parent_of, parent_path, path_join};
use crate::session::option_text;
use crate::text::{less, same, text_less, texts};

verus! {

// ---------------------------------------------------------------------------
// Commands
// ---------------------------------------------------------------------------

/// What is shown where help is asked for.
pub const HELP_TEXT: &'static str =
    "Usage: tau provider <subcommand>\n\nSubcommands:\n  add                 Add a new provider (interactive wizard)\n  remove [name]       Remove a provider from models.json5 and auth.json\n  list                List configured providers\n  login [name]        Log in / refresh OAuth token for a provider\n  list-models [name]  List models available from a provider";

/// What the user asks for.
#[derive(Debug, PartialEq, Eq)]
pub enum Subcommand {
    Add,
    Remove(Option<String>),
    List,
    Login(Option<String>),
    ListModels(Option<String>),
    Help,
    Unknown(String),
}

/// The argument behind the command.
pub open spec fn second(args: Seq<String>) -> Option<Seq<char>> {
    if args.len() > 1 {
        Some(args[1]@)
    } else {
        None
    }
}

/// What the arguments ask for.
pub open spec fn asks_for(args: Seq<String>, command: Subcommand) -> bool {
    if args.len() == 0 {
        command is Help
    } else {
        let word = args[0]@;
        if word == "add"@ {
            command is Add
        } else if word == "remove"@ {
            command matches Subcommand::Remove(name) && option_text(name) == second(args)
        } else if word == "list"@ {
            command is List
        } else if word == "login"@ {
            command matches Subcommand::Login(name) && option_text(name) == second(args)
        } else if word == "list-models"@ {
            command matches Subcommand::ListModels(name) && option_text(name) == second(args)
        } else if word == "help"@ || word == "--help"@ || word == "-h"@ {
            command is Help
        } else {
            command matches Subcommand::Unknown(other) && other@ == word
        }
    }
}

/// Reads what the arguments ask for.
pub fn parse_subcommand(args: &Vec<String>) -> (r: Subcommand)
    ensures
        asks_for(args@, r),
{
    if args.len() == 0 {
        return Subcommand::Help;
    }
    let name = if args.len() > 1 {
        Some(args[1].clone())
    } else {
        None
    };
    let word = args[0].as_str();
    if same(word, "add") {
        Subcommand::Add
    } else if same(word, "remove") {
        Subcommand::Remove(name)
    } else if same(word, "list") {
        Subcommand::List
    } else if same(word, "login") {
        Subcommand::Login(name)
    } else if same(word, "list-models") {
        Subcommand::ListModels(name)
    } else if same(word, "help") || same(word, "--help") || same(word, "-h") {
        Subcommand::Help
    } else {
        Subcommand::Unknown(args[0].clone())
    }
}

/// What is said of a command that is not known.
pub fn unknown_subcommand(word: &str) -> (r: String)
    ensures
        r@ == "unknown subcommand: "@ + word@,
{
    let mut r = "unknown subcommand: ".to_owned();
    r.append(word);
    r
}

// ---------------------------------------------------------------------------
// Kinds of providers
// ---------------------------------------------------------------------------

/// A kind of provider.
#[derive(Clone, Copy, Debug, PartialEq, Eq, Structural)]
pub enum ProviderKind {
    Ollama,
    Openai,
    OpenaiCodex,
    Anthropic,
    GithubCopilot,
}

/// What has to be asked of the user for a kind of provider.
#[derive(Clone, Copy, Debug, PartialEq, Eq, Structural)]
pub enum ProviderSetup {
    /// Where the provider runs.
    BaseUrl,
    /// A key.
    ApiKey,
    /// A login with OpenAI.
    OpenaiLogin,
    /// A login with GitHub.
    GithubLogin,
}

impl ProviderKind {
    /// All kinds, in the order in which they are offered.
    pub fn all() -> (r: Vec<ProviderKind>)
        ensures
            r@ == seq![
                ProviderKind::Ollama,
                ProviderKind::Openai,
                ProviderKind::OpenaiCodex,
                ProviderKind::Anthropic,
                ProviderKind::GithubCopilot,
            ],
            forall|kind: ProviderKind| #[trigger] r@.contains(kind),
    {
        let mut r: Vec<ProviderKind> = Vec::new();
        r.push(ProviderKind::Ollama);
        r.push(ProviderKind::Openai);
        r.push(ProviderKind::OpenaiCodex);
        r.push(ProviderKind::Anthropic);
        r.push(ProviderKind::GithubCopilot);
        assert(r@ =~= seq![
            ProviderKind::Ollama,
            ProviderKind::Openai,
            ProviderKind::OpenaiCodex,
            ProviderKind::Anthropic,
            ProviderKind::GithubCopilot,
        ]);
        assert forall|kind: ProviderKind| #[trigger] r@.contains(kind) by {
            match kind {
                ProviderKind::Ollama => {
                    assert(r@[0] == kind);
                },
                ProviderKind::Openai => {
                    assert(r@[1] == kind);
                },
                ProviderKind::OpenaiCodex => {
                    assert(r@[2] == kind);
                },
                ProviderKind::Anthropic => {
                    assert(r@[3] == kind);
                },
                ProviderKind::GithubCopilot => {
                    assert(r@[4] == kind);
                },
            }
        }
        r
    }

    /// The name that is proposed for a provider of the kind.
    pub fn default_name(self) -> (r: &'static str)
        ensures
            r@ == (match self {
                ProviderKind::Ollama => "local"@,
                ProviderKind::Openai => "openai"@,
                ProviderKind::OpenaiCodex => "openai-codex"@,
                ProviderKind::Anthropic => "anthropic"@,
                ProviderKind::GithubCopilot => "github-copilot"@,
            }),
    {
        match self {
            ProviderKind::Ollama => "local",
            ProviderKind::Openai => "openai",
            ProviderKind::OpenaiCodex => "openai-codex",
            ProviderKind::Anthropic => "anthropic",
            ProviderKind::GithubCopilot => "github-copilot",
        }
    }

    /// What has to be asked of the user.
    pub fn setup(self) -> (r: ProviderSetup)
        ensures
            r == (match self {
                ProviderKind::Ollama => ProviderSetup::BaseUrl,
                ProviderKind::Openai => ProviderSetup::ApiKey,
                ProviderKind::OpenaiCodex => ProviderSetup::OpenaiLogin,
                ProviderKind::Anthropic => ProviderSetup::ApiKey,
                ProviderKind::GithubCopilot => ProviderSetup::GithubLogin,
            }),
    {
        match self {
            ProviderKind::Ollama => ProviderSetup::BaseUrl,
            ProviderKind::Openai => ProviderSetup::ApiKey,
            ProviderKind::OpenaiCodex => ProviderSetup::OpenaiLogin,
            ProviderKind::Anthropic => ProviderSetup::ApiKey,
            ProviderKind::GithubCopilot => ProviderSetup::GithubLogin,
        }
    }
}

/// Whether a way of authentication is a login.
pub open spec fn is_login(auth: Seq<char>) -> bool {
    auth == "openai-codex"@ || auth == "github-copilot"@
}

/// Whether a way of authentication is a login.
pub fn is_oauth_auth(auth: Option<&str>) -> (r: bool)
    ensures
        r == match auth {
            Some(a) => is_login(a@),
            None => false,
        },
{
    match auth {
        Some(a) => same(a, "openai-codex") || same(a, "github-copilot"),
        None => false,
    }
}

/// The kind of provider that a way of authentication belongs to.
pub open spec fn kind_of_auth(auth: Seq<char>) -> Option<ProviderKind> {
    if auth == "none"@ {
        Some(ProviderKind::Ollama)
    } else if auth == "api-key"@ {
        Some(ProviderKind::Openai)
    } else if auth == "openai-codex"@ {
        Some(ProviderKind::OpenaiCodex)
    } else if auth == "github-copilot"@ {
        Some(ProviderKind::GithubCopilot)
    } else {
        None
    }
}

/// The kind of provider that a way of authentication belongs to.
pub fn auth_to_provider_kind(auth: &str) -> (r: Result<ProviderKind, String>)
    ensures
        match kind_of_auth(auth@) {
            Some(kind) => r == Ok::<ProviderKind, String>(kind),
            None => r matches Err(message) && message@ == "unknown auth type: "@ + auth@,
        },
{
    if same(auth, "none") {
        Ok(ProviderKind::Ollama)
    } else if same(auth, "api-key") {
        Ok(ProviderKind::Openai)
    } else if same(auth, "openai-codex") {
        Ok(ProviderKind::OpenaiCodex)
    } else if same(auth, "github-copilot") {
        Ok(ProviderKind::GithubCopilot)
    } else {
        let mut message = "unknown auth type: ".to_owned();
        message.append(auth);
        Err(message)
    }
}

/// A model with its context window.
pub open spec fn model_json(id: Seq<char>, window: int) -> Json {
    Json::Object(seq![("id"@, Json::Text(id)), ("contextWindow"@, Json::Integer(window))])
}

/// Models with the window that all of them have.
pub open spec fn models_json(ids: Seq<Seq<char>>) -> Seq<Json> {
    Seq::new(ids.len(), |i: int| model_json(ids[i], 200000))
}

/// The entry of a new provider, where `anthropic` are the models of Anthropic that
/// it is offered with.
pub open spec fn entry_json(kind: ProviderKind, anthropic: Seq<Seq<char>>) -> Json {
    match kind {
        ProviderKind::Ollama => Json::Object(
            seq![
                ("baseUrl"@, Json::Text("http://localhost:11434/v1"@)),
                ("auth"@, Json::Text("none"@)),
                ("api"@, Json::Text("openai-completions"@)),
                ("compat"@, Json::Object(seq![("supportsLlamaCppCache"@, Json::Bool(true))])),
                ("models"@, Json::Array(seq![model_json("llama3:70b"@, 8192)])),
            ],
        ),
        ProviderKind::Openai => Json::Object(
            seq![
                ("auth"@, Json::Text("api-key"@)),
                ("api"@, Json::Text("openai-chat"@)),
                (
                    "models"@,
                    Json::Array(
                        seq![
                            model_json("gpt-5.5"@, 200000),
                            model_json("gpt-5.5-mini"@, 200000),
                            model_json("o3-mini"@, 200000),
                        ],
                    ),
                ),
            ],
        ),
        ProviderKind::OpenaiCodex => Json::Object(
            seq![
                ("auth"@, Json::Text("openai-codex"@)),
                ("api"@, Json::Text("openai-chat"@)),
                (
                    "models"@,
                    Json::Array(
                        seq![
                            model_json("gpt-5.5"@, 200000),
                            model_json("gpt-5.5-mini"@, 200000),
                            model_json("o3-mini"@, 200000),
                        ],
                    ),
                ),
            ],
        ),
        ProviderKind::Anthropic => Json::Object(
            seq![
                ("baseUrl"@, Json::Text("https://api.anthropic.com/v1"@)),
                ("auth"@, Json::Text("api-key"@)),
                ("api"@, Json::Text("anthropic"@)),
                ("models"@, Json::Array(models_json(anthropic))),
            ],
        ),
        ProviderKind::GithubCopilot => Json::Object(
            seq![
                ("auth"@, Json::Text("github-copilot"@)),
                ("api"@, Json::Text("openai-chat"@)),
                (
                    "models"@,
                    Json::Array(
                        models_json(anthropic) + seq![
                            model_json("gpt-5.5"@, 200000),
                            model_json("gemini-3-pro"@, 1000000),
                        ],
                    ),
                ),
            ],
        ),
    }
}

fn model_entry(id: &str, window: i128) -> (r: JsonValue)
    ensures
        r@ == model_json(id@, window as int),
{
    let mut entries: Vec<(String, JsonValue)> = Vec::new();
    put(&mut entries, "id", JsonValue::Text(id.to_owned()));
    put(&mut entries, "contextWindow", JsonValue::Integer(window));
    assert(entries_view(entries@) =~= model_json(id@, window as int)->Object_0);
    object_value(entries)
}

fn models_list(first: JsonValue, second: Option<JsonValue>, third: Option<JsonValue>) -> (r: JsonValue)
    requires
        third is Some ==> second is Some,
    ensures
        r@ == Json::Array(
            match (second, third) {
                (Some(b), Some(c)) => seq![first@, b@, c@],
                (Some(b), None) => seq![first@, b@],
                _ => seq![first@],
            },
        ),
{
    let mut items: Vec<JsonValue> = Vec::new();
    let ghost a = first@;
    items.push(first);
    match second {
        Some(b) => items.push(b),
        None => {},
    }
    match third {
        Some(c) => items.push(c),
        None => {},
    }
    let r = list_value(items);
    assert(r@->Array_0 =~= match (second, third) {
        (Some(b), Some(c)) => seq![a, b@, c@],
        (Some(b), None) => seq![a, b@],
        _ => seq![a],
    });
    r
}

fn openai_models() -> (r: JsonValue)
    ensures
        r@ == Json::Array(
            seq![
                model_json("gpt-5.5"@, 200000),
                model_json("gpt-5.5-mini"@, 200000),
                model_json("o3-mini"@, 200000),
            ],
        ),
{
    models_list(
        model_entry("gpt-5.5", 200000),
        Some(model_entry("gpt-5.5-mini", 200000)),
        Some(model_entry("o3-mini", 200000)),
    )
}

fn model_entries(ids: &Vec<String>) -> (items: Vec<JsonValue>)
    ensures
        json_views(items@) == models_json(texts(ids@)),
{
    let mut items: Vec<JsonValue> = Vec::new();
    let mut i: usize = 0;
    while i < ids.len()
        invariant
            i <= ids.len(),
            json_views(items@) =~= models_json(texts(ids@).take(i as int)),
        decreases ids.len() - i,
    {
        let entry = model_entry(ids[i].as_str(), 200000);
        proof {
            let before = models_json(texts(ids@).take(i as int));
            assert(models_json(texts(ids@).take(i + 1)) =~= before.push(entry@));
            assert(json_views(items@.push(entry)) =~= json_views(items@).push(entry@));
        }
        items.push(entry);
        i += 1;
    }
    assert(texts(ids@).take(i as int) =~= texts(ids@));
    items
}

/// Makes the entry of a new provider, which is offered with these models of
/// Anthropic where it offers any. Which models these are is left to the caller.
pub fn build_provider_entry(kind: ProviderKind, anthropic: &Vec<String>) -> (r: JsonValue)
    ensures
        r@ == entry_json(kind, texts(anthropic@)),
{
    let mut entries: Vec<(String, JsonValue)> = Vec::new();
    match kind {
        ProviderKind::Ollama => {
            let mut compat: Vec<(String, JsonValue)> = Vec::new();
            put(&mut compat, "supportsLlamaCppCache", JsonValue::Bool(true));
            assert(entries_view(compat@) =~= seq![("supportsLlamaCppCache"@, Json::Bool(true))]);
            put(&mut entries, "baseUrl", JsonValue::Text("http://localhost:11434/v1".to_owned()));
            put(&mut entries, "auth", JsonValue::Text("none".to_owned()));
            put(&mut entries, "api", JsonValue::Text("openai-completions".to_owned()));
            put(&mut entries, "compat", object_value(compat));
            put(&mut entries, "models", models_list(model_entry("llama3:70b", 8192), None, None));
        },
        ProviderKind::Openai => {
            put(&mut entries, "auth", JsonValue::Text("api-key".to_owned()));
            put(&mut entries, "api", JsonValue::Text("openai-chat".to_owned()));
            put(&mut entries, "models", openai_models());
        },
        ProviderKind::OpenaiCodex => {
            put(&mut entries, "auth", JsonValue::Text("openai-codex".to_owned()));
            put(&mut entries, "api", JsonValue::Text("openai-chat".to_owned()));
            put(&mut entries, "models", openai_models());
        },
        ProviderKind::Anthropic => {
            put(&mut entries, "baseUrl", JsonValue::Text("https://api.anthropic.com/v1".to_owned()));
            put(&mut entries, "auth", JsonValue::Text("api-key".to_owned()));
            put(&mut entries, "api", JsonValue::Text("anthropic".to_owned()));
            let models = list_value(model_entries(anthropic));
            put(&mut entries, "models", models);
        },
        ProviderKind::GithubCopilot => {
            put(&mut entries, "auth", JsonValue::Text("github-copilot".to_owned()));
            put(&mut entries, "api", JsonValue::Text("openai-chat".to_owned()));
            let mut items = model_entries(anthropic);
            items.push(model_entry("gpt-5.5", 200000));
            items.push(model_entry("gemini-3-pro", 1000000));
            assert(json_views(items@) =~= models_json(texts(anthropic@)) + seq![
                model_json("gpt-5.5"@, 200000),
                model_json("gemini-3-pro"@, 1000000),
            ]);
            put(&mut entries, "models", list_value(items));
        },
    }
    assert(entries_view(entries@) =~= entry_json(kind, texts(anthropic@))->Object_0);
    object_value(entries)
}

/// The entry of a provider as the user can paste it.
pub fn provider_entry_text(name: &str, entry: &JsonValue) -> (r: String)
    ensures
        r@ == "\""@ + name@ + "\": "@ + json_pretty(entry@),
{
    let mut r = "\"".to_owned();
    r.append(name);
    r.append("\": ");
    let inner = pretty_text(entry);
    r.append(inner.as_str());
    r
}

// ---------------------------------------------------------------------------
// Settings and credentials
// ---------------------------------------------------------------------------

/// What is configured for a provider.
#[derive(Debug, PartialEq, Eq)]
pub struct ProviderSettings {
    pub auth: Option<String>,
    pub api_key: Option<String>,
    pub api: Option<String>,
    /// The names of its models.
    pub models: Vec<String>,
}

/// What a `ProviderSettings` holds.
pub struct Settings {
    pub auth: Option<Seq<char>>,
    pub api_key: Option<Seq<char>>,
    pub api: Option<Seq<char>>,
    pub models: Seq<Seq<char>>,
}

impl View for ProviderSettings {
    type V = Settings;

    open spec fn view(&self) -> Settings {
        Settings {
            auth: option_text(self.auth),
            api_key: option_text(self.api_key),
            api: option_text(self.api),
            models: texts(self.models@),
        }
    }
}

/// What is kept to reach a provider.
#[derive(Debug, PartialEq, Eq)]
pub enum Credentials {
    /// No key is needed.
    Unkeyed { provider_kind: ProviderKind, base_url: Option<String> },
    ApiKey { provider_kind: ProviderKind, api_key: String },
    Oauth {
        provider_kind: ProviderKind,
        access_token: String,
        refresh_token: String,
        expires_at_ms: u64,
        account_id: Option<String>,
    },
}

/// What `Credentials` are read for: until when a login holds.
pub enum Kept {
    Plain,
    LoggedInUntil(u64),
}

impl View for Credentials {
    type V = Kept;

    open spec fn view(&self) -> Kept {
        match self {
            Credentials::Unkeyed { provider_kind: _, base_url: _ } => Kept::Plain,
            Credentials::ApiKey { provider_kind: _, api_key: _ } => Kept::Plain,
            Credentials::Oauth { provider_kind: _, access_token: _, refresh_token: _, expires_at_ms, account_id: _ } =>
            Kept::LoggedInUntil(*expires_at_ms),
        }
    }
}

/// Whether texts stand in their order, each once.
pub open spec fn in_text_order(names: Seq<Seq<char>>) -> bool {
    forall|i: int, j: int| 0 <= i < j < names.len() ==> text_less(#[trigger] names[i], #[trigger] names[j])
}

/// Adds a name to a sorted list, unless it is there.
fn insert_name(names: &mut Vec<String>, name: &str)
    requires
        in_text_order(texts(old(names)@)),
    ensures
        in_text_order(texts(final(names)@)),
        forall|t: Seq<char>|
            #[trigger] texts(final(names)@).contains(t) <==> (texts(old(names)@).contains(t) || t == name@),
{
    let ghost before = texts(names@);
    let mut i: usize = 0;
    while i < names.len() && less(names[i].as_str(), name)
        invariant
            i <= names.len(),
            before == texts(names@),
            forall|k: int| 0 <= k < i ==> text_less(#[trigger] before[k], name@),
        decreases names.len() - i,
    {
        assert(before[i as int] == names@[i as int]@);
        i += 1;
    }
    if i < names.len() && same(names[i].as_str(), name) {
        assert(before[i as int] == name@);
        return;
    }
    proof {
        if i < names.len() {
            assert(before[i as int] == names@[i as int]@);
            text_less_total(before[i as int], name@);
        }
        assert forall|k: int| i <= k < before.len() implies text_less(name@, #[trigger] before[k]) by {
            if k > i {
                text_less_transitive(name@, before[i as int], before[k]);
            }
        }
    }
    names.insert(i, name.to_owned());
    proof {
        let after = texts(names@);
        assert(after =~= before.insert(i as int, name@));
        assert forall|a: int, b: int| 0 <= a < b < after.len() implies text_less(
            #[trigger] after[a],
            #[trigger] after[b],
        ) by {
            if a < i && b > i {
                text_less_transitive(before[a], name@, before[b - 1]);
            }
        }
        assert forall|t: Seq<char>| #[trigger] after.contains(t) <==> (before.contains(t) || t == name@) by {
            if before.contains(t) {
                let k = choose|k: int| 0 <= k < before.len() && before[k] == t;
                if k < i {
                    assert(after[k] == t);
                } else {
                    assert(after[k + 1] == t);
                }
            }
            assert(after[i as int] == name@);
            if after.contains(t) && t != name@ {
                let k = choose|k: int| 0 <= k < after.len() && after[k] == t;
                if k < i {
                    assert(before[k] == t);
                } else {
                    assert(before[k - 1] == t);
                }
            }
        }
    }
}

/// Whether a list of entries has one under a key.
pub open spec fn has_key<V>(list: Seq<(Seq<char>, V)>, key: Seq<char>) -> bool {
    exists|i: int| 0 <= i < list.len() && (#[trigger] list[i]).0 == key
}

/// The names of all providers, in order.
pub fn provider_names(models: &TextMap<ProviderSettings>, store: &TextMap<Credentials>) -> (r: Vec<String>)
    ensures
        in_text_order(texts(r@)),
        forall|t: Seq<char>| #[trigger] texts(r@).contains(t) <==> (has_key(models@, t) || has_key(store@, t)),
{
    let mut names: Vec<String> = Vec::new();
    assert(texts(names@) =~= Seq::empty());
    let mut i: usize = 0;
    while i < models.entries.len()
        invariant
            i <= models.entries.len(),
            in_text_order(texts(names@)),
            forall|t: Seq<char>| #[trigger] texts(names@).contains(t) <==> has_key(models@.take(i as int), t),
        decreases models.entries.len() - i,
    {
        let ghost before = texts(names@);
        insert_name(&mut names, models.entries[i].0.as_str());
        proof {
            lemma_one_more_key(models@, i as int);
            assert(models@[i as int].0 == models.entries@[i as int].0@);
            assert forall|t: Seq<char>| #[trigger] texts(names@).contains(t) <==> has_key(models@.take(i + 1), t) by {
                assert(before.contains(t) <==> has_key(models@.take(i as int), t));
            }
        }
        i += 1;
    }
    assert(models@.take(models@.len() as int) =~= models@);
    let mut j: usize = 0;
    assert(store@.take(0) =~= Seq::empty());
    while j < store.entries.len()
        invariant
            j <= store.entries.len(),
            in_text_order(texts(names@)),
            forall|t: Seq<char>|
                #[trigger] texts(names@).contains(t) <==> (has_key(models@, t) || has_key(store@.take(j as int), t)),
        decreases store.entries.len() - j,
    {
        let ghost before = texts(names@);
        insert_name(&mut names, store.entries[j].0.as_str());
        proof {
            lemma_one_more_key(store@, j as int);
            assert(store@[j as int].0 == store.entries@[j as int].0@);
            assert forall|t: Seq<char>|
                #[trigger] texts(names@).contains(t) <==> (has_key(models@, t) || has_key(store@.take(j + 1), t)) by {
                assert(before.contains(t) <==> (has_key(models@, t) || has_key(store@.take(j as int), t)));
            }
        }
        j += 1;
    }
    assert(store@.take(store@.len() as int) =~= store@);
    names
}

proof fn lemma_one_more_key<V>(list: Seq<(Seq<char>, V)>, i: int)
    requires
        0 <= i < list.len(),
    ensures
        forall|t: Seq<char>|
            #[trigger] has_key(list.take(i + 1), t) <==> (has_key(list.take(i), t) || t == list[i].0),
{
    let more = list.take(i + 1);
    let fewer = list.take(i);
    assert forall|t: Seq<char>| #[trigger] has_key(more, t) <==> (has_key(fewer, t) || t == list[i].0) by {
        if has_key(more, t) {
            let k = choose|k: int| 0 <= k < more.len() && (#[trigger] more[k]).0 == t;
            if k < i {
                assert(fewer[k].0 == t);
            }
        }
        if has_key(fewer, t) {
            let k = choose|k: int| 0 <= k < fewer.len() && (#[trigger] fewer[k]).0 == t;
            assert(more[k].0 == t);
        }
        assert(more[i].0 == list[i].0);
    }
}

// ---------------------------------------------------------------------------
// Listing
// ---------------------------------------------------------------------------

/// One line of the list of providers.
#[derive(Debug, PartialEq, Eq)]
pub struct ProviderRow {
    pub name: String,
    pub api: String,
    pub auth_status: String,
    pub model_count: usize,
}

/// The names of the providers in a list.
pub open spec fn row_names(rows: Seq<ProviderRow>) -> Seq<Seq<char>> {
    Seq::new(rows.len(), |i: int| rows[i].name@)
}

/// How a provider is authenticated with.
pub open spec fn auth_of(settings: Option<Settings>) -> Seq<char> {
    match settings {
        Some(p) => match p.auth {
            Some(auth) => auth,
            None => if p.api_key is Some {
                "api-key"@
            } else {
                "none"@
            },
        },
        None => "none"@,
    }
}

/// How the authentication stands.
pub open spec fn auth_state(auth: Seq<char>, kept: Option<Kept>, now_ms: u64) -> Seq<char> {
    match kept {
        Some(Kept::LoggedInUntil(expires_at_ms)) => if now_ms < expires_at_ms {
            "logged in"@
        } else {
            "expired"@
        },
        _ => if is_login(auth) {
            if kept is Some {
                "logged in"@
            } else {
                "not logged in"@
            }
        } else {
            auth
        },
    }
}

/// Whether a row shows a provider.
pub open spec fn shows(
    row: ProviderRow,
    name: Seq<char>,
    settings: Option<Settings>,
    kept: Option<Kept>,
    now_ms: u64,
) -> bool {
    &&& row.name@ == name
    &&& row.api@ == match settings {
        Some(p) => match p.api {
            Some(api) => api,
            None => "-"@,
        },
        None => "-"@,
    }
    &&& row.auth_status@ == auth_state(auth_of(settings), kept, now_ms)
    &&& row.model_count == match settings {
        Some(p) => p.models.len(),
        None => 0,
    }
}

fn auth_status_text(auth: &str, creds: Option<&Credentials>, now_ms: u64) -> (r: String)
    ensures
        r@ == auth_state(
            auth@,
            match creds {
                Some(c) => Some(c@),
                None => None,
            },
            now_ms,
        ),
{
    match creds {
        Some(
            Credentials::Oauth { provider_kind: _, access_token: _, refresh_token: _, expires_at_ms, account_id: _ },
        ) => {
            if now_ms < *expires_at_ms {
                "logged in".to_owned()
            } else {
                "expired".to_owned()
            }
        },
        _ => {
            if is_oauth_auth(Some(auth)) {
                if creds.is_some() {
                    "logged in".to_owned()
                } else {
                    "not logged in".to_owned()
                }
            } else {
                auth.to_owned()
            }
        },
    }
}

fn provider_row(name: &str, models: &TextMap<ProviderSettings>, store: &TextMap<Credentials>, now_ms: u64) -> (r:
    ProviderRow)
    ensures
        shows(r, name@, lookup(models@, name@), lookup(store@, name@), now_ms),
{
    let settings = models.get(name);
    let creds = store.get(name);
    let (auth, api, model_count) = match settings {
        Some(p) => {
            let auth = match &p.auth {
                Some(auth) => auth.clone(),
                None => {
                    if p.api_key.is_some() {
                        "api-key".to_owned()
                    } else {
                        "none".to_owned()
                    }
                },
            };
            let api = match &p.api {
                Some(api) => api.clone(),
                None => "-".to_owned(),
            };
            (auth, api, p.models.len())
        },
        None => ("none".to_owned(), "-".to_owned(), 0),
    };
    ProviderRow { name: name.to_owned(), api, auth_status: auth_status_text(auth.as_str(), creds, now_ms), model_count }
}

/// Lists the providers, in the order of their names; none where there are none.
pub fn list_providers(models: &TextMap<ProviderSettings>, store: &TextMap<Credentials>, now_ms: u64) -> (r: Option<
    Vec<ProviderRow>,
>)
    ensures
        match r {
            None => models@.len() == 0 && store@.len() == 0,
            Some(rows) => {
                &&& models@.len() > 0 || store@.len() > 0
                &&& in_text_order(row_names(rows@))
                &&& forall|t: Seq<char>|
                    #[trigger] row_names(rows@).contains(t) <==> (has_key(models@, t) || has_key(store@, t))
                &&& forall|i: int|
                    0 <= i < rows@.len() ==> shows(
                        #[trigger] rows@[i],
                        rows@[i].name@,
                        lookup(models@, rows@[i].name@),
                        lookup(store@, rows@[i].name@),
                        now_ms,
                    )
            },
        },
{
    if models.entries.len() == 0 && store.entries.len() == 0 {
        return None;
    }
    let names = provider_names(models, store);
    let mut rows: Vec<ProviderRow> = Vec::new();
    let mut i: usize = 0;
    while i < names.len()
        invariant
            i <= names.len(),
            rows.len() == i,
            forall|k: int|
                0 <= k < i ==> (#[trigger] rows@[k]).name@ == names@[k]@ && shows(
                    rows@[k],
                    rows@[k].name@,
                    lookup(models@, rows@[k].name@),
                    lookup(store@, rows@[k].name@),
                    now_ms,
                ),
        decreases names.len() - i,
    {
        rows.push(provider_row(names[i].as_str(), models, store, now_ms));
        i += 1;
    }
    assert(row_names(rows@) =~= texts(names@));
    Some(rows)
}

/// The names of the models of a provider, one a line.
pub fn list_models(models: &TextMap<ProviderSettings>, name: &str) -> (r: Result<Vec<String>, String>)
    ensures
        match lookup(models@, name@) {
            Some(settings) => r matches Ok(ids) && texts(ids@) == settings.models,
            None => r matches Err(message) && message@ == "provider '"@ + name@ + "' not found in models.json5"@,
        },
{
    match models.get(name) {
        Some(settings) => {
            let ids = crate::text::copy_texts(&settings.models);
            Ok(ids)
        },
        None => Err(not_configured(name)),
    }
}

fn not_configured(name: &str) -> (r: String)
    ensures
        r@ == "provider '"@ + name@ + "' not found in models.json5"@,
{
    let mut r = "provider '".to_owned();
    r.append(name);
    r.append("' not found in models.json5");
    r
}

// ---------------------------------------------------------------------------
// Logging in
// ---------------------------------------------------------------------------

/// Whether a provider is logged in to.
pub open spec fn logs_in(settings: Settings) -> bool {
    match settings.auth {
        Some(auth) => is_login(auth),
        None => false,
    }
}

/// The names of the providers that are logged in to, in order.
pub fn oauth_names(models: &TextMap<ProviderSettings>) -> (r: Vec<String>)
    ensures
        in_text_order(texts(r@)),
        forall|t: Seq<char>|
            #[trigger] texts(r@).contains(t) <==> exists|i: int|
                0 <= i < models@.len() && (#[trigger] models@[i]).0 == t && logs_in(models@[i].1),
{
    let mut names: Vec<String> = Vec::new();
    assert(texts(names@) =~= Seq::empty());
    let mut i: usize = 0;
    while i < models.entries.len()
        invariant
            i <= models.entries.len(),
            in_text_order(texts(names@)),
            forall|t: Seq<char>|
                #[trigger] texts(names@).contains(t) <==> exists|k: int|
                    0 <= k < i && (#[trigger] models@[k]).0 == t && logs_in(models@[k].1),
        decreases models.entries.len() - i,
    {
        let ghost before = texts(names@);
        let settings = &models.entries[i].1;
        let auth = match &settings.auth {
            Some(auth) => is_oauth_auth(Some(auth.as_str())),
            None => false,
        };
        assert(models@[i as int].0 == models.entries@[i as int].0@);
        assert(models@[i as int].1 == models.entries@[i as int].1@);
        assert(auth == logs_in(models@[i as int].1));
        if auth {
            insert_name(&mut names, models.entries[i].0.as_str());
        }
        proof {
            assert forall|t: Seq<char>|
                #[trigger] texts(names@).contains(t) <==> exists|k: int|
                    0 <= k < i + 1 && (#[trigger] models@[k]).0 == t && logs_in(models@[k].1) by {
                assert(before.contains(t) <==> exists|k: int|
                    0 <= k < i && (#[trigger] models@[k]).0 == t && logs_in(models@[k].1));
                if texts(names@).contains(t) {
                    if before.contains(t) {
                        let k = choose|k: int| 0 <= k < i && (#[trigger] models@[k]).0 == t && logs_in(models@[k].1);
                        assert(models@[k].0 == t);
                    } else {
                        assert(models@[i as int].0 == t);
                    }
                }
                if exists|k: int| 0 <= k < i + 1 && (#[trigger] models@[k]).0 == t && logs_in(models@[k].1) {
                    let k = choose|k: int| 0 <= k < i + 1 && (#[trigger] models@[k]).0 == t && logs_in(models@[k].1);
                    if k < i {
                        assert(before.contains(t));
                    }
                }
            }
        }
        i += 1;
    }
    names
}

/// What a request to log in comes to.
#[derive(Debug, PartialEq, Eq)]
pub enum LoginPlan {
    /// A login of this kind.
    Login(ProviderKind),
    /// The provider is not logged in to; what is said of that.
    NotOauth(String),
}

/// What a request to log in to a provider comes to, or why it fails.
pub open spec fn login_comes_to(settings: Option<Settings>, name: Seq<char>, r: Result<LoginPlan, String>) -> bool {
    match settings {
        None => r matches Err(message) && message@ == "provider '"@ + name + "' not found in models.json5"@,
        Some(p) => {
            let auth = match p.auth {
                Some(auth) => auth,
                None => "api-key"@,
            };
            match kind_of_auth(auth) {
                None => r matches Err(message) && message@ == "unknown auth type: "@ + auth,
                Some(kind) => if is_login(auth) {
                    r == Ok::<LoginPlan, String>(LoginPlan::Login(kind))
                } else {
                    r matches Ok(LoginPlan::NotOauth(message)) && message@ == "Provider '"@ + name + "' (auth="@ + auth
                        + ") does not use OAuth login."@
                },
            }
        },
    }
}

/// Decides what a request to log in to a provider comes to.
pub fn plan_login(models: &TextMap<ProviderSettings>, name: &str) -> (r: Result<LoginPlan, String>)
    ensures
        login_comes_to(lookup(models@, name@), name@, r),
{
    let settings = match models.get(name) {
        Some(settings) => settings,
        None => {
            return Err(not_configured(name));
        },
    };
    let auth = match &settings.auth {
        Some(auth) => auth.clone(),
        None => "api-key".to_owned(),
    };
    proof {
        reveal_strlit("none");
        reveal_strlit("api-key");
        reveal_strlit("openai-codex");
        reveal_strlit("github-copilot");
    }
    match auth_to_provider_kind(auth.as_str()) {
        Err(message) => Err(message),
        Ok(kind) => {
            if is_oauth_auth(Some(auth.as_str())) {
                Ok(LoginPlan::Login(kind))
            } else {
                let mut message = "Provider '".to_owned();
                message.append(name);
                message.append("' (auth=");
                message.append(auth.as_str());
                message.append(") does not use OAuth login.");
                Ok(LoginPlan::NotOauth(message))
            }
        },
    }
}

/// Whether the answer to a login belongs to it.
pub fn check_login_state(state: &str, expected_state: &str) -> (r: Result<(), String>)
    ensures
        state@ == expected_state@ <==> r is Ok,
        r matches Err(message) ==> message@ == "state mismatch — possible CSRF attack or stale URL"@,
{
    if same(state, expected_state) {
        Ok(())
    } else {
        Err("state mismatch — possible CSRF attack or stale URL".to_owned())
    }
}

/// What the user, or a login, came up with for a new provider.
#[derive(Debug, PartialEq, Eq)]
pub enum SetupAnswer {
    /// Where the provider runs.
    BaseUrl(String),
    /// A key.
    ApiKey(String),
    /// The tokens of a login.
    Tokens { access_token: String, refresh_token: String, expires_at_ms: u64, account_id: Option<String> },
}

/// The credentials of a new provider.
pub open spec fn credentials_for(kind: ProviderKind, answer: SetupAnswer) -> Credentials {
    match answer {
        SetupAnswer::BaseUrl(url) => Credentials::Unkeyed { provider_kind: kind, base_url: Some(url) },
        SetupAnswer::ApiKey(api_key) => Credentials::ApiKey { provider_kind: kind, api_key },
        SetupAnswer::Tokens { access_token, refresh_token, expires_at_ms, account_id } => Credentials::Oauth {
            provider_kind: kind,
            access_token,
            refresh_token,
            expires_at_ms,
            account_id,
        },
    }
}

/// Makes the credentials of a new provider.
pub fn credentials_of(kind: ProviderKind, answer: SetupAnswer) -> (r: Credentials)
    ensures
        r == credentials_for(kind, answer),
{
    match answer {
        SetupAnswer::BaseUrl(url) => Credentials::Unkeyed { provider_kind: kind, base_url: Some(url) },
        SetupAnswer::ApiKey(api_key) => Credentials::ApiKey { provider_kind: kind, api_key },
        SetupAnswer::Tokens { access_token, refresh_token, expires_at_ms, account_id } => Credentials::Oauth {
            provider_kind: kind,
            access_token,
            refresh_token,
            expires_at_ms,
            account_id,
        },
    }
}

/// What is said after a removal.
pub open spec fn removal_report(name: Seq<char>, from_store: bool, from_models: bool) -> Seq<Seq<char>> {
    let store = "Removed credentials for '"@ + name + "' from auth.json."@;
    let models = "Removed '"@ + name + "' from models.json5."@;
    if from_store && from_models {
        seq![store, models]
    } else if from_store {
        seq![store]
    } else if from_models {
        seq![models]
    } else {
        seq!["Provider '"@ + name + "' not found."@]
    }
}

/// Says from where a provider was removed.
pub fn removal_lines(name: &str, from_store: bool, from_models: bool) -> (r: Vec<String>)
    ensures
        texts(r@) == removal_report(name@, from_store, from_models),
{
    let mut lines: Vec<String> = Vec::new();
    if from_store {
        let mut line = "Removed credentials for '".to_owned();
        line.append(name);
        line.append("' from auth.json.");
        lines.push(line);
    }
    if from_models {
        let mut line = "Removed '".to_owned();
        line.append(name);
        line.append("' from models.json5.");
        lines.push(line);
    }
    if !from_store && !from_models {
        let mut line = "Provider '".to_owned();
        line.append(name);
        line.append("' not found.");
        lines.push(line);
    }
    assert(texts(lines@) =~= removal_report(name@, from_store, from_models));
    lines
}

// ---------------------------------------------------------------------------
// The file of models
// ---------------------------------------------------------------------------

/// The entry of a provider in the file of models.
pub open spec fn provider_in(root: Json, name: Seq<char>) -> Option<Json> {
    match json_field(root, "providers"@) {
        Some(providers) => json_field(providers, name),
        None => None,
    }
}

/// The file of models with one more provider, or why it cannot have one.
pub open spec fn with_provider(root: Json, name: Seq<char>, entry: Json) -> Result<Json, Seq<char>> {
    match root {
        Json::Object(entries) => {
            let providers = match lookup(entries, "providers"@) {
                Some(providers) => providers,
                None => Json::Object(Seq::empty()),
            };
            match providers {
                Json::Object(list) => Ok(
                    Json::Object(stored(entries, "providers"@, Json::Object(stored(list, name, entry)))),
                ),
                _ => Err("providers is not an object"@),
            }
        },
        _ => Err("models.json5 root is not an object"@),
    }
}

/// The file of models without a provider; none where it is not there.
pub open spec fn without_provider(root: Json, name: Seq<char>) -> Option<Json> {
    match root {
        Json::Object(entries) => match lookup(entries, "providers"@) {
            Some(Json::Object(list)) => if lookup(list, name) is Some {
                Some(Json::Object(stored(entries, "providers"@, Json::Object(removed(list, name)))))
            } else {
                None
            },
            _ => None,
        },
        _ => None,
    }
}

/// Adds a provider to the file of models.
pub fn insert_provider(root: JsonValue, name: &str, entry: JsonValue) -> (r: Result<JsonValue, String>)
    ensures
        parse_view(r) == with_provider(root@, name@, entry@),
{
    match root {
        JsonValue::Object(list) => {
            let mut entries = TextMap { entries: list };
            proof {
                crate::json::lemma_object_view(root);
            }
            let providers = match entries.get("providers") {
                Some(providers) => providers.clone(),
                None => {
                    let empty = object_value(Vec::new());
                    assert(empty@->Object_0 =~= Seq::empty());
                    empty
                },
            };
            match providers {
                JsonValue::Object(inner) => {
                    proof {
                        crate::json::lemma_object_view(providers);
                    }
                    let mut table = TextMap { entries: inner };
                    table.insert(name.to_owned(), entry);
                    entries.insert("providers".to_owned(), object_value(table.entries));
                    Ok(object_value(entries.entries))
                },
                _ => Err("providers is not an object".to_owned()),
            }
        },
        _ => Err("models.json5 root is not an object".to_owned()),
    }
}

/// Takes a provider out of the file of models.
pub fn delete_provider(root: JsonValue, name: &str) -> (r: Option<JsonValue>)
    ensures
        crate::json::option_json(r) == without_provider(root@, name@),
{
    match root {
        JsonValue::Object(list) => {
            let mut entries = TextMap { entries: list };
            proof {
                crate::json::lemma_object_view(root);
            }
            let providers = match entries.get("providers") {
                Some(providers) => providers.clone(),
                None => {
                    return None;
                },
            };
            match providers {
                JsonValue::Object(inner) => {
                    proof {
                        crate::json::lemma_object_view(providers);
                    }
                    let mut table = TextMap { entries: inner };
                    match table.remove(name) {
                        Some(_) => {
                            entries.insert("providers".to_owned(), object_value(table.entries));
                            Some(object_value(entries.entries))
                        },
                        None => None,
                    }
                },
                _ => None,
            }
        },
        _ => None,
    }
}

/// Whether a text, read as JSON5, holds the same providers as a plain value.
pub open spec fn holds_again(root: Json, text: Seq<char>) -> bool {
    plain(root, 100) && json5_readable(root) ==> (json5_parsed(text) matches Ok(again) && forall|name: Seq<char>|
        match provider_in(root, name) {
            Some(entry) => provider_in(again, name) matches Some(found) && reordered(entry, found),
            None => #[trigger] provider_in(again, name) is None,
        })
}

proof fn lemma_same_providers(root: Json, again: Json, name: Seq<char>)
    requires
        plain(root, 100),
        reordered(root, again),
    ensures
        match provider_in(root, name) {
            Some(entry) => provider_in(again, name) matches Some(found) && reordered(entry, found),
            None => provider_in(again, name) is None,
        },
{
    reveal_with_fuel(plain, 3);
    if let Json::Object(entries) = root {
        reordered_values_are_found(root, again, "providers"@);
        lemma_lookup_stands(entries, "providers"@);
        if let Some(providers) = json_field(root, "providers"@) {
            let i = choose|i: int|
                0 <= i < entries.len() && (#[trigger] entries[i]).0 == "providers"@ && entries[i].1 == providers;
            assert(plain(entries[i].1, 99));
            if providers is Object {
                reordered_values_are_found(providers, json_field(again, "providers"@)->Some_0, name);
            }
        }
    }
}

proof fn lemma_holds_again(root: Json, text: Seq<char>)
    requires
        comes_back(text, root),
    ensures
        holds_again(root, text),
{
    if plain(root, 100) && json5_readable(root) {
        let again = json5_parsed(text)->Ok_0;
        assert forall|name: Seq<char>|
            match provider_in(root, name) {
                Some(entry) => provider_in(again, name) matches Some(found) && reordered(entry, found),
                None => #[trigger] provider_in(again, name) is None,
            } by {
            lemma_same_providers(root, again, name);
        }
    }
}

/// The text of the file of models with one more provider. `text` is what the file
/// holds, where it exists.
pub fn updated_models_text(text: Option<&str>, name: &str, entry: JsonValue) -> (r: Result<String, String>)
    ensures
        match (match text {
            Some(t) => json5_parsed(t@),
            None => Ok(Json::Object(seq![("providers"@, Json::Object(Seq::empty()))])),
        }) {
            Err(e) => r matches Err(message) && message@ == e,
            Ok(root) => match with_provider(root, name@, entry@) {
                Err(e) => r matches Err(message) && message@ == e,
                Ok(updated) => r matches Ok(out) && out@ == json_pretty(updated) && holds_again(updated, out@),
            },
        },
{
    let root = match text {
        Some(t) => match parse_json5(t) {
            Ok(root) => root,
            Err(e) => {
                return Err(e);
            },
        },
        None => {
            let inner = object_value(Vec::new());
            assert(inner@->Object_0 =~= Seq::empty());
            let mut entries: Vec<(String, JsonValue)> = Vec::new();
            put(&mut entries, "providers", inner);
            assert(entries_view(entries@) =~= seq![("providers"@, Json::Object(Seq::empty()))]);
            object_value(entries)
        },
    };
    match insert_provider(root, name, entry) {
        Ok(updated) => {
            let out = pretty_text(&updated);
            proof {
                lemma_holds_again(updated@, out@);
            }
            Ok(out)
        },
        Err(e) => Err(e),
    }
}

/// The text of the file of models without a provider; none where it is not there.
pub fn pruned_models_text(text: &str, name: &str) -> (r: Result<Option<String>, String>)
    ensures
        match json5_parsed(text@) {
            Err(e) => r matches Err(message) && message@ == e,
            Ok(root) => match without_provider(root, name@) {
                None => r == Ok::<Option<String>, String>(None),
                Some(updated) => r matches Ok(Some(out)) && out@ == json_pretty(updated) && holds_again(
                    updated,
                    out@,
                ),
            },
        },
{
    let root = match parse_json5(text) {
        Ok(root) => root,
        Err(e) => {
            return Err(e);
        },
    };
    match delete_provider(root, name) {
        Some(updated) => {
            let out = pretty_text(&updated);
            proof {
                lemma_holds_again(updated@, out@);
            }
            Ok(Some(out))
        },
        None => Ok(None),
    }
}

/// A provider that was added is found, and the others stay as they were.
pub proof fn added_providers_are_found(root: Json, name: Seq<char>, entry: Json, other: Seq<char>)
    ensures
        with_provider(root, name, entry) matches Ok(updated) ==> {
            &&& provider_in(updated, name) == Some(entry)
            &&& other != name ==> provider_in(updated, other) == provider_in(root, other)
        },
{
    if let Json::Object(entries) = root {
        let providers = match lookup(entries, "providers"@) {
            Some(providers) => providers,
            None => Json::Object(Seq::empty()),
        };
        if let Json::Object(list) = providers {
            let new_list = Json::Object(stored(list, name, entry));
            lookup_after_stored(entries, "providers"@, new_list, "providers"@);
            lookup_after_stored(list, name, entry, name);
            lookup_after_stored(list, name, entry, other);
            if lookup(entries, "providers"@) is None {
                lemma_nothing_found::<Json>(other);
            }
        }
    }
}

proof fn lemma_nothing_found<V>(key: Seq<char>)
    ensures
        lookup(Seq::<(Seq<char>, V)>::empty(), key) is None,
{
    reveal_with_fuel(lookup, 1);
}

/// A provider that was removed is gone, and the others stay as they were.
pub proof fn removed_providers_are_gone(root: Json, name: Seq<char>, other: Seq<char>)
    ensures
        without_provider(root, name) is Some <==> provider_in(root, name) is Some,
        without_provider(root, name) matches Some(updated) ==> {
            &&& provider_in(updated, name) is None
            &&& other != name ==> provider_in(updated, other) == provider_in(root, other)
        },
{
    if let Json::Object(entries) = root {
        if let Some(Json::Object(list)) = lookup(entries, "providers"@) {
            let new_list = Json::Object(removed(list, name));
            lookup_after_stored(entries, "providers"@, new_list, "providers"@);
            lookup_after_removed(list, name, name);
            lookup_after_removed(list, name, other);
        }
    }
}

// ---------------------------------------------------------------------------
// Replacing a file
// ---------------------------------------------------------------------------

/// The file that is replaced where a path is written to: what the path links to,
/// or the path itself.
pub open spec fn written_path(path: Seq<char>, link: Option<Seq<char>>) -> Seq<char> {
    match link {
        Some(target) => if is_absolute(target) {
            target
        } else {
            match parent_path(path) {
                Some(parent) => path_join(parent, target),
                None => target,
            }
        },
        None => path,
    }
}

/// The file that is replaced where a path is written to. `link` is what the path
/// links to, where it is a link.
pub fn symlink_target_or_path(path: &str, link: Option<&str>) -> (r: String)
    ensures
        r@ == written_path(
            path@,
            match link {
                Some(target) => Some(target@),
                None => None,
            },
        ),
{
    match link {
        Some(target) => {
            if absolute(target) {
                target.to_owned()
            } else {
                match parent_of(path) {
                    Some(parent) => join_path(parent.as_str(), target),
                    None => target.to_owned(),
                }
            }
        },
        None => path.to_owned(),
    }
}

/// The directory and the name of the file at a path; the path itself and a fallback
/// where it has no name.
pub open spec fn written_place(path: Seq<char>) -> (Seq<char>, Seq<char>) {
    match (parent_path(path), file_name(path)) {
        (Some(parent), Some(name)) => (parent, name),
        _ => (path, "models.json5"@),
    }
}

/// The file that is written before it replaces another. The number keeps it apart
/// from others.
pub open spec fn temporary_path(destination: Seq<char>, suffix: u64) -> Seq<char> {
    path_join(
        written_place(destination).0,
        "."@ + written_place(destination).1 + "."@ + hex_digits(suffix as nat, 16) + ".tmp"@,
    )
}

/// Names the file that is written before it replaces another.
pub fn temporary_sibling(destination: &str, suffix: u64) -> (r: String)
    ensures
        r@ == temporary_path(destination@, suffix),
{
    let (parent, name) = match (parent_of(destination), name_of(destination)) {
        (Some(parent), Some(name)) => (parent, name),
        _ => (destination.to_owned(), "models.json5".to_owned()),
    };
    let mut file = ".".to_owned();
    file.append(name.as_str());
    file.append(".");
    let digits = hex_suffix(suffix, 16);
    file.append(digits.as_str());
    file.append(".tmp");
    join_path(parent.as_str(), file.as_str())
}

} // verus!
