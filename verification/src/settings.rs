//! Which extensions the harness starts, and how: the built-in ones, with what the
//! user set on top, and with what the command line said on top of that.
use vstd::prelude::*;
use vstd::string::*;
use crate::assoc::{
    entries_view, keys_differ, lemma_found, lemma_lookup_stands, lemma_missing, lookup, lookup_after_stored, stored,
    TextMap,
};
use crate::json::{lemma_object_view, object_value, option_json, Json, JsonValue};
use crate::order::{
    one_more_key_finds_its_place, placed_first, placed_with, sort_positions, sorted_positions, sorted_positions_in_order,
};
use crate::session::option_text;
use crate::text::{copy_texts, debug_quoted, quote, text_less, texts};

verus! {

// ---------------------------------------------------------------------------
// Types
// ---------------------------------------------------------------------------

/// A secret that an extension declares.
#[derive(Clone, Copy, Debug, PartialEq, Eq, Structural)]
pub struct ExtensionSecretEntry {
    /// Whether the extension can do without it.
    pub optional: bool,
}

impl View for ExtensionSecretEntry {
    type V = ExtensionSecretEntry;

    open spec fn view(&self) -> ExtensionSecretEntry {
        *self
    }
}

/// What the user set about an extension.
pub struct ExtensionEntry {
    pub prefix: Option<Vec<String>>,
    pub command: Option<Vec<String>>,
    pub suffix: Option<Vec<String>>,
    pub enable: Option<bool>,
    pub require: Option<bool>,
    pub role: Option<String>,
    /// The working directory; the inner `None` takes a built-in one away.
    pub cwd: Option<Option<String>>,
    pub config: Option<JsonValue>,
    pub secrets: Option<TextMap<ExtensionSecretEntry>>,
}

/// What an `ExtensionEntry` holds.
pub struct Overlay {
    pub prefix: Option<Seq<Seq<char>>>,
    pub command: Option<Seq<Seq<char>>>,
    pub suffix: Option<Seq<Seq<char>>>,
    pub enable: Option<bool>,
    pub require: Option<bool>,
    pub role: Option<Seq<char>>,
    pub cwd: Option<Option<Seq<char>>>,
    pub config: Option<Json>,
    pub secrets: Option<Seq<(Seq<char>, ExtensionSecretEntry)>>,
}

/// An entry that sets nothing.
pub open spec fn nothing_set() -> Overlay {
    Overlay {
        prefix: None,
        command: None,
        suffix: None,
        enable: None,
        require: None,
        role: None,
        cwd: None,
        config: None,
        secrets: None,
    }
}

/// An optional list of texts over its view.
pub open spec fn option_texts(o: Option<Vec<String>>) -> Option<Seq<Seq<char>>> {
    match o {
        Some(v) => Some(texts(v@)),
        None => None,
    }
}

impl View for ExtensionEntry {
    type V = Overlay;

    open spec fn view(&self) -> Overlay {
        Overlay {
            prefix: option_texts(self.prefix),
            command: option_texts(self.command),
            suffix: option_texts(self.suffix),
            enable: self.enable,
            require: self.require,
            role: option_text(self.role),
            cwd: match self.cwd {
                Some(cwd) => Some(option_text(cwd)),
                None => None,
            },
            config: option_json(self.config),
            secrets: match self.secrets {
                Some(secrets) => Some(secrets@),
                None => None,
            },
        }
    }
}

impl ExtensionEntry {
    /// An entry that sets nothing.
    pub fn new() -> (r: ExtensionEntry)
        ensures
            r@ == nothing_set(),
    {
        ExtensionEntry {
            prefix: None,
            command: None,
            suffix: None,
            enable: None,
            require: None,
            role: None,
            cwd: None,
            config: None,
            secrets: None,
        }
    }
}

/// What the user set.
pub struct HarnessSettings {
    pub extensions: TextMap<ExtensionEntry>,
    pub default_role: Option<String>,
}

impl HarnessSettings {
    /// Settings of a user who set nothing.
    pub fn built_in() -> (r: HarnessSettings)
        ensures
            r.extensions@ == Seq::<(Seq<char>, Overlay)>::empty(),
            r.default_role is None,
    {
        HarnessSettings { extensions: TextMap::new(), default_role: None }
    }
}

/// An extension that comes with the program. Its command line is `prefix`, then
/// `command`, then `suffix`.
pub struct BuiltinExtension {
    pub name: String,
    pub prefix: Vec<String>,
    pub command: Vec<String>,
    pub suffix: Vec<String>,
    pub role: Option<String>,
    pub cwd: Option<String>,
    pub enable: bool,
    /// Whether the program cannot start without it.
    pub require: bool,
    pub config: JsonValue,
    pub secrets: TextMap<ExtensionSecretEntry>,
}

/// An extension with everything that was set about it.
pub struct ResolvedExtension {
    pub prefix: Vec<String>,
    pub command: Vec<String>,
    pub suffix: Vec<String>,
    pub enable: bool,
    pub require: bool,
    pub role: Option<String>,
    pub cwd: Option<String>,
    pub config: JsonValue,
    pub secrets: TextMap<ExtensionSecretEntry>,
}

/// What a `ResolvedExtension` holds.
#[verifier::ext_equal]
pub struct Merged {
    pub prefix: Seq<Seq<char>>,
    pub command: Seq<Seq<char>>,
    pub suffix: Seq<Seq<char>>,
    pub enable: bool,
    pub require: bool,
    pub role: Option<Seq<char>>,
    pub cwd: Option<Seq<char>>,
    pub config: Json,
    pub secrets: Seq<(Seq<char>, ExtensionSecretEntry)>,
}

impl View for ResolvedExtension {
    type V = Merged;

    open spec fn view(&self) -> Merged {
        Merged {
            prefix: texts(self.prefix@),
            command: texts(self.command@),
            suffix: texts(self.suffix@),
            enable: self.enable,
            require: self.require,
            role: option_text(self.role),
            cwd: option_text(self.cwd),
            config: self.config@,
            secrets: self.secrets@,
        }
    }
}

impl BuiltinExtension {
    /// The name and what is set about the extension.
    pub open spec fn view(&self) -> (Seq<char>, Merged) {
        (
            self.name@,
            Merged {
                prefix: texts(self.prefix@),
                command: texts(self.command@),
                suffix: texts(self.suffix@),
                enable: self.enable,
                require: self.require,
                role: option_text(self.role),
                cwd: option_text(self.cwd),
                config: self.config@,
                secrets: self.secrets@,
            },
        )
    }
}

/// The views of a list of built-in extensions.
pub open spec fn builtins_view(v: Seq<BuiltinExtension>) -> Seq<(Seq<char>, Merged)> {
    v.map_values(|b: BuiltinExtension| b@)
}

/// An extension that is ready to start.
pub struct ExtensionConfig {
    pub name: String,
    pub command: String,
    pub args: Vec<String>,
    pub role: Option<String>,
    /// Whether the program cannot start without it.
    pub require: bool,
    pub cwd: Option<String>,
    pub config: JsonValue,
    pub secrets: TextMap<ExtensionSecretEntry>,
}

/// What an `ExtensionConfig` holds.
#[verifier::ext_equal]
pub struct Spawn {
    pub name: Seq<char>,
    pub command: Seq<char>,
    pub args: Seq<Seq<char>>,
    pub role: Option<Seq<char>>,
    pub require: bool,
    pub cwd: Option<Seq<char>>,
    pub config: Json,
    pub secrets: Seq<(Seq<char>, ExtensionSecretEntry)>,
}

impl View for ExtensionConfig {
    type V = Spawn;

    open spec fn view(&self) -> Spawn {
        Spawn {
            name: self.name@,
            command: self.command@,
            args: texts(self.args@),
            role: option_text(self.role),
            require: self.require,
            cwd: option_text(self.cwd),
            config: self.config@,
            secrets: self.secrets@,
        }
    }
}

/// The views of a list of extensions.
pub open spec fn configs_view(v: Seq<ExtensionConfig>) -> Seq<Spawn> {
    v.map_values(|c: ExtensionConfig| c@)
}

/// Why an extension that the program can do without does not start.
#[derive(Debug, PartialEq, Eq)]
pub struct ExtensionStartupDiagnostic {
    pub extension: String,
    pub message: String,
}

impl ExtensionStartupDiagnostic {
    pub open spec fn view(&self) -> (Seq<char>, Seq<char>) {
        (self.extension@, self.message@)
    }
}

/// The views of a list of diagnostics.
pub open spec fn diagnostics_view(v: Seq<ExtensionStartupDiagnostic>) -> Seq<(Seq<char>, Seq<char>)> {
    v.map_values(|d: ExtensionStartupDiagnostic| d@)
}

/// What the command line says about extensions.
#[derive(Debug, PartialEq, Eq)]
pub enum ExtensionCliOverride {
    Enable(String),
    Disable(String),
    EnableAll,
    DisableAll,
}

/// What an `ExtensionCliOverride` holds: whom it concerns, all where it names
/// none, and whether it switches on.
pub struct Switch {
    pub name: Option<Seq<char>>,
    pub on: bool,
}

impl ExtensionCliOverride {
    pub open spec fn view(&self) -> Switch {
        match self {
            ExtensionCliOverride::Enable(name) => Switch { name: Some(name@), on: true },
            ExtensionCliOverride::Disable(name) => Switch { name: Some(name@), on: false },
            ExtensionCliOverride::EnableAll => Switch { name: None, on: true },
            ExtensionCliOverride::DisableAll => Switch { name: None, on: false },
        }
    }
}

/// The views of a list of overrides.
pub open spec fn switches_view(v: Seq<ExtensionCliOverride>) -> Seq<Switch> {
    v.map_values(|o: ExtensionCliOverride| o@)
}

/// Why extensions cannot be resolved.
#[derive(Debug, PartialEq, Eq)]
pub enum ResolveExtensionsError {
    /// An extension that the program needs has nothing to run.
    EmptyCommand(String),
    /// The command line names an unknown extension.
    UnknownCliOverride(String),
}

/// What a `ResolveExtensionsError` holds.
pub enum Unresolved {
    EmptyCommand(Seq<char>),
    UnknownCliOverride(Seq<char>),
}

/// The text of an error.
pub open spec fn unresolved_text(u: Unresolved) -> Seq<char> {
    match u {
        Unresolved::EmptyCommand(name) => "required extension "@ + debug_quoted(name)
            + " resolved to an empty command; set `extensions."@ + name + ".command` or disable the extension"@,
        Unresolved::UnknownCliOverride(name) => "unknown extension in CLI override: `"@ + name + "`"@,
    }
}

impl ResolveExtensionsError {
    pub open spec fn view(&self) -> Unresolved {
        match self {
            ResolveExtensionsError::EmptyCommand(name) => Unresolved::EmptyCommand(name@),
            ResolveExtensionsError::UnknownCliOverride(name) => Unresolved::UnknownCliOverride(name@),
        }
    }

    /// The text of the error.
    pub fn text(&self) -> (r: String)
        ensures
            r@ == unresolved_text(self@),
    {
        match self {
            ResolveExtensionsError::EmptyCommand(name) => {
                let mut r = "required extension ".to_owned();
                r.append(quote(name.as_str()).as_str());
                r.append(" resolved to an empty command; set `extensions.");
                r.append(name.as_str());
                r.append(".command` or disable the extension");
                r
            },
            ResolveExtensionsError::UnknownCliOverride(name) => {
                let mut r = "unknown extension in CLI override: `".to_owned();
                r.append(name.as_str());
                r.append("`");
                r
            },
        }
    }
}

// ---------------------------------------------------------------------------
// What the user set, on top
// ---------------------------------------------------------------------------

/// A list with the entries of another stored in it, one after the other.
pub open spec fn all_stored<V>(list: Seq<(Seq<char>, V)>, more: Seq<(Seq<char>, V)>) -> Seq<(Seq<char>, V)>
    decreases more.len(),
{
    if more.len() == 0 {
        list
    } else {
        stored(all_stored(list, more.drop_last()), more.last().0, more.last().1)
    }
}

/// A configuration with another on top: objects key by key, anything else as a
/// whole, where it is not null.
pub open spec fn merged_json(base: Json, over: Json) -> Json {
    match (base, over) {
        (Json::Object(b), Json::Object(o)) => Json::Object(all_stored(b, o)),
        (base, Json::Null) => base,
        (_, over) => over,
    }
}

/// An extension with what the user set about it. A command of the user's own
/// drops the suffix.
pub open spec fn overlaid(e: Merged, u: Overlay) -> Merged {
    Merged {
        prefix: match u.prefix {
            Some(prefix) => prefix,
            None => e.prefix,
        },
        command: match u.command {
            Some(command) => command,
            None => e.command,
        },
        suffix: match u.suffix {
            Some(suffix) => suffix,
            None => if u.command is Some {
                Seq::empty()
            } else {
                e.suffix
            },
        },
        enable: match u.enable {
            Some(enable) => enable,
            None => e.enable,
        },
        require: match u.require {
            Some(require) => require,
            None => e.require,
        },
        role: match u.role {
            Some(role) => Some(role),
            None => e.role,
        },
        cwd: match u.cwd {
            Some(cwd) => cwd,
            None => e.cwd,
        },
        config: match u.config {
            Some(over) => merged_json(e.config, over),
            None => e.config,
        },
        secrets: match u.secrets {
            Some(secrets) => all_stored(e.secrets, secrets),
            None => e.secrets,
        },
    }
}

/// An extension before anything is set about it: switched on, needed, with
/// nothing to run and an empty configuration.
pub open spec fn blank() -> Merged {
    Merged {
        prefix: Seq::empty(),
        command: Seq::empty(),
        suffix: Seq::empty(),
        enable: true,
        require: true,
        role: None,
        cwd: None,
        config: Json::Object(Seq::empty()),
        secrets: Seq::empty(),
    }
}

/// An extension that only the user knows.
pub open spec fn users_own(u: Overlay) -> Merged {
    Merged {
        config: match u.config {
            Some(config) => config,
            None => Json::Object(Seq::empty()),
        },
        secrets: match u.secrets {
            Some(secrets) => secrets,
            None => Seq::empty(),
        },
        ..overlaid(blank(), u)
    }
}

/// The extensions with what the user set about one.
pub open spec fn with_user(entries: Seq<(Seq<char>, Merged)>, name: Seq<char>, u: Overlay) -> Seq<(Seq<char>, Merged)> {
    stored(
        entries,
        name,
        match lookup(entries, name) {
            Some(e) => overlaid(e, u),
            None => users_own(u),
        },
    )
}

/// The keys of an association list.
pub open spec fn keys_of<V>(list: Seq<(Seq<char>, V)>) -> Seq<Seq<char>> {
    list.map_values(|e: (Seq<char>, V)| e.0)
}

/// The extensions with what the user set about those at the first `n` of the
/// positions.
pub open spec fn with_users(
    entries: Seq<(Seq<char>, Merged)>,
    users: Seq<(Seq<char>, Overlay)>,
    at: Seq<int>,
    n: nat,
) -> Seq<(Seq<char>, Merged)>
    decreases n,
{
    if n == 0 || n > at.len() {
        entries
    } else {
        let i = at[n - 1];
        with_user(with_users(entries, users, at, (n - 1) as nat), users[i].0, users[i].1)
    }
}

/// The extensions with everything that the user set, by ascending name.
pub open spec fn overlaid_all(entries: Seq<(Seq<char>, Merged)>, users: Seq<(Seq<char>, Overlay)>) -> Seq<
    (Seq<char>, Merged),
> {
    with_users(entries, users, sorted_positions(keys_of(users)), users.len())
}

// ---------------------------------------------------------------------------
// The command line, on top
// ---------------------------------------------------------------------------

/// An extension switched on or off.
pub open spec fn switched_to(e: Merged, on: bool) -> Merged {
    Merged { enable: on, ..e }
}

/// All extensions switched on or off.
pub open spec fn all_switched(entries: Seq<(Seq<char>, Merged)>, on: bool) -> Seq<(Seq<char>, Merged)> {
    entries.map_values(|e: (Seq<char>, Merged)| (e.0, switched_to(e.1, on)))
}

/// The extensions after a word of the command line; one that names an unknown
/// extension fails.
pub open spec fn switched_by(entries: Seq<(Seq<char>, Merged)>, switch: Switch) -> Result<
    Seq<(Seq<char>, Merged)>,
    Unresolved,
> {
    match switch.name {
        Some(name) => match lookup(entries, name) {
            Some(e) => Ok(stored(entries, name, switched_to(e, switch.on))),
            None => Err(Unresolved::UnknownCliOverride(name)),
        },
        None => Ok(all_switched(entries, switch.on)),
    }
}

/// The extensions after the command line, word by word.
pub open spec fn switched_all(entries: Seq<(Seq<char>, Merged)>, switches: Seq<Switch>) -> Result<
    Seq<(Seq<char>, Merged)>,
    Unresolved,
>
    decreases switches.len(),
{
    if switches.len() == 0 {
        Ok(entries)
    } else {
        match switched_all(entries, switches.drop_last()) {
            Ok(before) => switched_by(before, switches.last()),
            Err(error) => Err(error),
        }
    }
}

// ---------------------------------------------------------------------------
// What starts
// ---------------------------------------------------------------------------

/// The command line of an extension.
pub open spec fn argv(e: Merged) -> Seq<Seq<char>> {
    e.prefix + e.command + e.suffix
}

/// An extension ready to start.
pub open spec fn spawn_of(name: Seq<char>, e: Merged) -> Spawn {
    Spawn {
        name,
        command: argv(e)[0],
        args: argv(e).drop_first(),
        role: e.role,
        require: e.require,
        cwd: e.cwd,
        config: e.config,
        secrets: e.secrets,
    }
}

/// Why an extension with nothing to run does not start.
pub open spec fn skipped_message(name: Seq<char>) -> Seq<char> {
    "optional extension "@ + name + " skipped: `extensions."@ + name
        + ".command` is empty; set a command or disable the extension"@
}

/// What starts of the first `n` extensions, and what is said about those that do
/// not: one that is switched off is passed over, one with nothing to run is
/// reported, or fails where the program needs it.
pub open spec fn starting(entries: Seq<(Seq<char>, Merged)>, n: nat) -> Result<
    (Seq<Spawn>, Seq<(Seq<char>, Seq<char>)>),
    Unresolved,
>
    decreases n,
{
    if n == 0 || n > entries.len() {
        Ok((Seq::empty(), Seq::empty()))
    } else {
        match starting(entries, (n - 1) as nat) {
            Err(error) => Err(error),
            Ok((spawns, notes)) => {
                let (name, e) = entries[n - 1];
                if !e.enable {
                    Ok((spawns, notes))
                } else if argv(e).len() > 0 {
                    Ok((spawns.push(spawn_of(name, e)), notes))
                } else if e.require {
                    Err(Unresolved::EmptyCommand(name))
                } else {
                    Ok((spawns, notes.push((name, skipped_message(name)))))
                }
            },
        }
    }
}

/// What starts, and what is said about what does not.
pub open spec fn resolved(
    builtins: Seq<(Seq<char>, Merged)>,
    users: Seq<(Seq<char>, Overlay)>,
    switches: Seq<Switch>,
) -> Result<(Seq<Spawn>, Seq<(Seq<char>, Seq<char>)>), Unresolved> {
    match switched_all(overlaid_all(builtins, users), switches) {
        Ok(entries) => starting(entries, entries.len()),
        Err(error) => Err(error),
    }
}

// ---------------------------------------------------------------------------
// Resolving
// ---------------------------------------------------------------------------

fn copy_option_text(o: &Option<String>) -> (r: Option<String>)
    ensures
        r == *o,
{
    match o {
        Some(s) => Some(s.clone()),
        None => None,
    }
}

fn copy_secrets(m: &TextMap<ExtensionSecretEntry>) -> (r: TextMap<ExtensionSecretEntry>)
    ensures
        r@ == m@,
{
    let mut entries: Vec<(String, ExtensionSecretEntry)> = Vec::new();
    let mut i: usize = 0;
    while i < m.entries.len()
        invariant
            i <= m.entries.len(),
            entries.len() == i,
            forall|k: int| 0 <= k < i ==> (#[trigger] entries@[k]) == m.entries@[k],
        decreases m.entries.len() - i,
    {
        entries.push((m.entries[i].0.clone(), m.entries[i].1));
        i += 1;
    }
    let r = TextMap { entries };
    assert(r@ =~= m@);
    r
}

fn store_secrets(m: &mut TextMap<ExtensionSecretEntry>, more: &TextMap<ExtensionSecretEntry>)
    ensures
        final(m)@ == all_stored(old(m)@, more@),
{
    let ghost before = m@;
    let ghost all = more@;
    let mut i: usize = 0;
    assert(all.take(0) =~= Seq::empty());
    while i < more.entries.len()
        invariant
            i <= more.entries.len(),
            all == entries_view(more.entries@),
            m@ == all_stored(before, all.take(i as int)),
        decreases more.entries.len() - i,
    {
        assert(all.take(i + 1).drop_last() =~= all.take(i as int));
        assert(all.take(i + 1).last() == (more.entries@[i as int].0@, more.entries@[i as int].1));
        m.insert(more.entries[i].0.clone(), more.entries[i].1);
        i += 1;
    }
    assert(all.take(all.len() as int) =~= all);
}

/// Stores the entries of one object in another.
fn store_values(m: &mut TextMap<JsonValue>, more: &Vec<(String, JsonValue)>)
    ensures
        final(m)@ == all_stored(old(m)@, entries_view(more@)),
{
    let ghost before = m@;
    let ghost all = entries_view(more@);
    let mut i: usize = 0;
    assert(all.take(0) =~= Seq::empty());
    while i < more.len()
        invariant
            i <= more.len(),
            all == entries_view(more@),
            m@ == all_stored(before, all.take(i as int)),
        decreases more.len() - i,
    {
        assert(all.take(i + 1).drop_last() =~= all.take(i as int));
        assert(all.take(i + 1).last() == (more@[i as int].0@, more@[i as int].1@));
        m.insert(more[i].0.clone(), more[i].1.clone());
        i += 1;
    }
    assert(all.take(all.len() as int) =~= all);
}

/// A configuration with another on top.
pub fn merge_json(base: &JsonValue, over: &JsonValue) -> (r: JsonValue)
    ensures
        r@ == merged_json(base@, over@),
{
    match over {
        JsonValue::Object(more) => match base {
            JsonValue::Object(_) => {
                let copy = base.clone();
                proof {
                    lemma_object_view(copy);
                    lemma_object_view(*base);
                    lemma_object_view(*over);
                }
                match copy {
                    JsonValue::Object(entries) => {
                        let mut map = TextMap { entries };
                        store_values(&mut map, more);
                        object_value(map.entries)
                    },
                    other => other,
                }
            },
            _ => over.clone(),
        },
        JsonValue::Null => base.clone(),
        _ => over.clone(),
    }
}

/// An extension with what the user set about it.
fn overlay(e: &ResolvedExtension, u: &ExtensionEntry) -> (r: ResolvedExtension)
    ensures
        r@ == overlaid(e@, u@),
{
    let prefix = match &u.prefix {
        Some(v) => copy_texts(v),
        None => copy_texts(&e.prefix),
    };
    let command = match &u.command {
        Some(v) => copy_texts(v),
        None => copy_texts(&e.command),
    };
    let suffix = match &u.suffix {
        Some(v) => copy_texts(v),
        None => if u.command.is_some() {
            let empty: Vec<String> = Vec::new();
            assert(texts(empty@) =~= Seq::empty());
            empty
        } else {
            copy_texts(&e.suffix)
        },
    };
    let role = match &u.role {
        Some(role) => Some(role.clone()),
        None => copy_option_text(&e.role),
    };
    let cwd = match &u.cwd {
        Some(cwd) => copy_option_text(cwd),
        None => copy_option_text(&e.cwd),
    };
    let config = match &u.config {
        Some(over) => merge_json(&e.config, over),
        None => e.config.clone(),
    };
    let mut secrets = copy_secrets(&e.secrets);
    match &u.secrets {
        Some(more) => store_secrets(&mut secrets, more),
        None => {},
    }
    let enable = match u.enable {
        Some(b) => b,
        None => e.enable,
    };
    let require = match u.require {
        Some(b) => b,
        None => e.require,
    };
    ResolvedExtension { prefix, command, suffix, enable, require, role, cwd, config, secrets }
}

/// An extension that only the user knows.
fn own_extension(u: &ExtensionEntry) -> (r: ResolvedExtension)
    ensures
        r@ == users_own(u@),
{
    let empty: Vec<(String, JsonValue)> = Vec::new();
    let blank_extension = ResolvedExtension {
        prefix: Vec::new(),
        command: Vec::new(),
        suffix: Vec::new(),
        enable: true,
        require: true,
        role: None,
        cwd: None,
        config: object_value(empty),
        secrets: TextMap::new(),
    };
    assert(entries_view(empty@) =~= Seq::empty());
    assert(blank_extension@ =~= blank());
    let mut r = overlay(&blank_extension, u);
    r.config = match &u.config {
        Some(config) => config.clone(),
        None => blank_extension.config.clone(),
    };
    r.secrets = match &u.secrets {
        Some(secrets) => copy_secrets(secrets),
        None => TextMap::new(),
    };
    r
}

fn overlay_users(entries: &mut TextMap<ResolvedExtension>, users: &TextMap<ExtensionEntry>)
    ensures
        final(entries)@ == overlaid_all(old(entries)@, users@),
{
    let ghost before = entries@;
    let ghost all = users@;
    let mut names: Vec<String> = Vec::new();
    let mut i: usize = 0;
    while i < users.entries.len()
        invariant
            i <= users.entries.len(),
            all == entries_view(users.entries@),
            names.len() == i,
            forall|k: int| 0 <= k < i ==> (#[trigger] names@[k])@ == all[k].0,
        decreases users.entries.len() - i,
    {
        names.push(users.entries[i].0.clone());
        i += 1;
    }
    assert(texts(names@) =~= keys_of(all));
    let order = sort_positions(&names);
    let ghost at = sorted_positions(keys_of(all));
    let mut n: usize = 0;
    while n < order.len()
        invariant
            n <= order.len(),
            all == entries_view(users.entries@),
            order.len() == users.entries.len(),
            order.len() == at.len(),
            forall|k: int| 0 <= k < order.len() ==> (#[trigger] order@[k]) < users.entries.len() && at[k] == order@[k],
            entries@ == with_users(before, all, at, n as nat),
        decreases order.len() - n,
    {
        let k = order[n];
        let user = &users.entries[k];
        assert(all[k as int] == (user.0@, user.1@));
        let merged = match entries.get(user.0.as_str()) {
            Some(e) => overlay(e, &user.1),
            None => own_extension(&user.1),
        };
        entries.insert(user.0.clone(), merged);
        n += 1;
    }
}

fn switch_all(entries: &mut TextMap<ResolvedExtension>, on: bool)
    ensures
        final(entries)@ == all_switched(old(entries)@, on),
{
    let ghost before = entries@;
    let mut i: usize = 0;
    while i < entries.entries.len()
        invariant
            i <= entries.entries.len(),
            entries@.len() == before.len(),
            forall|k: int| 0 <= k < i ==> (#[trigger] entries@[k]) == all_switched(before, on)[k],
            forall|k: int| i <= k < before.len() ==> (#[trigger] entries@[k]) == before[k],
        decreases entries.entries.len() - i,
    {
        let ghost now = entries@;
        assert(entries@[i as int] == before[i as int]);
        entries.entries[i].1.enable = on;
        assert(entries@ =~= now.update(i as int, (before[i as int].0, switched_to(before[i as int].1, on))));
        i += 1;
    }
    assert(entries@ =~= all_switched(before, on));
}

fn switch_one(entries: &mut TextMap<ResolvedExtension>, name: &str, on: bool) -> (r: Result<(), ResolveExtensionsError>)
    ensures
        match r {
            Ok(_) => switched_by(old(entries)@, Switch { name: Some(name@), on }) == Ok::<
                Seq<(Seq<char>, Merged)>,
                Unresolved,
            >(final(entries)@),
            Err(error) => switched_by(old(entries)@, Switch { name: Some(name@), on }) == Err::<
                Seq<(Seq<char>, Merged)>,
                Unresolved,
            >(error@),
        },
{
    let ghost before = entries@;
    match entries.position(name) {
        Some(i) => {
            proof {
                lemma_found(before, name@, switched_to(before[i as int].1, on), i as int);
            }
            entries.entries[i].1.enable = on;
            assert(entries@ =~= before.update(i as int, (name@, switched_to(before[i as int].1, on))));
            Ok(())
        },
        None => {
            proof {
                reveal_with_fuel(lookup, 1);
                if before.len() > 0 {
                    lemma_missing(before, name@, before[0].1);
                }
            }
            Err(ResolveExtensionsError::UnknownCliOverride(name.to_owned()))
        },
    }
}

fn apply_switches(entries: &mut TextMap<ResolvedExtension>, overrides: &Vec<ExtensionCliOverride>) -> (r: Result<
    (),
    ResolveExtensionsError,
>)
    ensures
        match r {
            Ok(_) => switched_all(old(entries)@, switches_view(overrides@)) == Ok::<
                Seq<(Seq<char>, Merged)>,
                Unresolved,
            >(final(entries)@),
            Err(error) => switched_all(old(entries)@, switches_view(overrides@)) == Err::<
                Seq<(Seq<char>, Merged)>,
                Unresolved,
            >(error@),
        },
{
    let ghost before = entries@;
    let ghost all = switches_view(overrides@);
    let mut i: usize = 0;
    assert(all.take(0) =~= Seq::empty());
    while i < overrides.len()
        invariant
            i <= overrides.len(),
            before == old(entries)@,
            all == switches_view(overrides@),
            switched_all(before, all.take(i as int)) == Ok::<Seq<(Seq<char>, Merged)>, Unresolved>(entries@),
        decreases overrides.len() - i,
    {
        assert(all.take(i + 1).drop_last() =~= all.take(i as int));
        assert(all.take(i + 1).last() == overrides@[i as int]@);
        let done = match &overrides[i] {
            ExtensionCliOverride::Enable(name) => switch_one(entries, name.as_str(), true),
            ExtensionCliOverride::Disable(name) => switch_one(entries, name.as_str(), false),
            ExtensionCliOverride::EnableAll => {
                switch_all(entries, true);
                Ok(())
            },
            ExtensionCliOverride::DisableAll => {
                switch_all(entries, false);
                Ok(())
            },
        };
        match done {
            Ok(_) => {},
            Err(error) => {
                proof {
                    lemma_switching_stays_failed(before, all, i + 1);
                }
                return Err(error);
            },
        }
        i += 1;
    }
    assert(all.take(all.len() as int) =~= all);
    Ok(())
}

proof fn lemma_switching_stays_failed(entries: Seq<(Seq<char>, Merged)>, switches: Seq<Switch>, n: int)
    requires
        0 <= n <= switches.len(),
        switched_all(entries, switches.take(n)) is Err,
    ensures
        switched_all(entries, switches) == switched_all(entries, switches.take(n)),
    decreases switches.len(),
{
    if n < switches.len() {
        assert(switches.drop_last().take(n) =~= switches.take(n));
        lemma_switching_stays_failed(entries, switches.drop_last(), n);
    } else {
        assert(switches.take(n) =~= switches);
    }
}

proof fn lemma_starting_stays_failed(entries: Seq<(Seq<char>, Merged)>, n: nat, m: nat)
    requires
        n <= m <= entries.len(),
        starting(entries, n) is Err,
    ensures
        starting(entries, m) == starting(entries, n),
    decreases m,
{
    if n < m {
        lemma_starting_stays_failed(entries, n, (m - 1) as nat);
    }
}

/// What starts, with what is said about what does not.
pub struct ResolvedExtensions {
    pub extensions: Vec<ExtensionConfig>,
    pub diagnostics: Vec<ExtensionStartupDiagnostic>,
}

impl ResolvedExtensions {
    pub open spec fn view(&self) -> (Seq<Spawn>, Seq<(Seq<char>, Seq<char>)>) {
        (configs_view(self.extensions@), diagnostics_view(self.diagnostics@))
    }
}

fn skipped_text(name: &str) -> (r: String)
    ensures
        r@ == skipped_message(name@),
{
    let mut r = "optional extension ".to_owned();
    r.append(name);
    r.append(" skipped: `extensions.");
    r.append(name);
    r.append(".command` is empty; set a command or disable the extension");
    r
}

fn ready_extensions(entries: TextMap<ResolvedExtension>) -> (r: Result<ResolvedExtensions, ResolveExtensionsError>)
    ensures
        match r {
            Ok(ready) => starting(entries@, entries@.len()) == Ok::<
                (Seq<Spawn>, Seq<(Seq<char>, Seq<char>)>),
                Unresolved,
            >(ready@),
            Err(error) => starting(entries@, entries@.len()) == Err::<
                (Seq<Spawn>, Seq<(Seq<char>, Seq<char>)>),
                Unresolved,
            >(error@),
        },
{
    let ghost all = entries@;
    let mut rest = entries.entries;
    let mut extensions: Vec<ExtensionConfig> = Vec::new();
    let mut diagnostics: Vec<ExtensionStartupDiagnostic> = Vec::new();
    let ghost mut done: int = 0;
    assert(entries_view(rest@) =~= all.skip(0));
    assert(configs_view(extensions@) =~= Seq::empty());
    assert(diagnostics_view(diagnostics@) =~= Seq::empty());
    while rest.len() > 0
        invariant
            0 <= done,
            all == entries@,
            done + rest.len() == all.len(),
            entries_view(rest@) == all.skip(done),
            starting(all, done as nat) == Ok::<(Seq<Spawn>, Seq<(Seq<char>, Seq<char>)>), Unresolved>(
                (configs_view(extensions@), diagnostics_view(diagnostics@)),
            ),
        decreases rest.len(),
    {
        let ghost rest_before = entries_view(rest@);
        let ghost spawns = configs_view(extensions@);
        let ghost notes = diagnostics_view(diagnostics@);
        let (name, e) = rest.remove(0);
        proof {
            assert(rest_before[0] == (name@, e@));
            assert(entries_view(rest@) =~= rest_before.drop_first());
            assert(all.skip(done).drop_first() =~= all.skip(done + 1));
            assert(all[done] == (name@, e@));
        }
        if e.enable {
            let ghost merged = e@;
            let mut command_line = copy_texts(&e.prefix);
            let mut command = copy_texts(&e.command);
            let mut suffix = copy_texts(&e.suffix);
            command_line.append(&mut command);
            command_line.append(&mut suffix);
            assert(texts(command_line@) =~= argv(merged));
            if command_line.len() > 0 {
                let program = command_line.remove(0);
                assert(texts(command_line@) =~= argv(merged).drop_first());
                assert(program@ == argv(merged)[0]);
                let config = ExtensionConfig {
                    name,
                    command: program,
                    args: command_line,
                    role: e.role,
                    require: e.require,
                    cwd: e.cwd,
                    config: e.config,
                    secrets: e.secrets,
                };
                extensions.push(config);
                assert(configs_view(extensions@) =~= spawns.push(spawn_of(name@, merged)));
            } else if e.require {
                proof {
                    lemma_starting_stays_failed(all, (done + 1) as nat, all.len());
                }
                return Err(ResolveExtensionsError::EmptyCommand(name));
            } else {
                let message = skipped_text(name.as_str());
                diagnostics.push(ExtensionStartupDiagnostic { extension: name, message });
                assert(diagnostics_view(diagnostics@) =~= notes.push((name@, skipped_message(name@))));
            }
        }
        proof {
            done = done + 1;
        }
    }
    Ok(ResolvedExtensions { extensions, diagnostics })
}

/// Resolves which extensions start, and reports the optional ones that cannot.
pub fn resolve_extensions_with_cli_overrides_and_diagnostics(
    settings: &HarnessSettings,
    builtins: Vec<BuiltinExtension>,
    cli_overrides: &Vec<ExtensionCliOverride>,
) -> (r: Result<ResolvedExtensions, ResolveExtensionsError>)
    requires
        keys_differ(builtins_view(builtins@)),
    ensures
        match r {
            Ok(ready) => resolved(
                builtins_view(builtins@),
                settings.extensions@,
                switches_view(cli_overrides@),
            ) == Ok::<(Seq<Spawn>, Seq<(Seq<char>, Seq<char>)>), Unresolved>(ready@),
            Err(error) => resolved(
                builtins_view(builtins@),
                settings.extensions@,
                switches_view(cli_overrides@),
            ) == Err::<(Seq<Spawn>, Seq<(Seq<char>, Seq<char>)>), Unresolved>(error@),
        },
{
    let ghost all = builtins_view(builtins@);
    let mut rest = builtins;
    let mut seeded: Vec<(String, ResolvedExtension)> = Vec::new();
    let ghost mut done: int = 0;
    assert(builtins_view(rest@) =~= all.skip(0));
    assert(entries_view(seeded@) =~= all.take(0));
    while rest.len() > 0
        invariant
            0 <= done,
            done + rest.len() == all.len(),
            builtins_view(rest@) == all.skip(done),
            entries_view(seeded@) == all.take(done),
        decreases rest.len(),
    {
        let ghost rest_before = builtins_view(rest@);
        let ghost seeded_before = entries_view(seeded@);
        let b = rest.remove(0);
        let ghost entry = b@;
        proof {
            assert(rest_before[0] == entry);
            assert(builtins_view(rest@) =~= rest_before.drop_first());
            assert(all.skip(done).drop_first() =~= all.skip(done + 1));
            assert(all[done] == entry);
        }
        seeded.push(
            (
                b.name,
                ResolvedExtension {
                    prefix: b.prefix,
                    command: b.command,
                    suffix: b.suffix,
                    enable: b.enable,
                    require: b.require,
                    role: b.role,
                    cwd: b.cwd,
                    config: b.config,
                    secrets: b.secrets,
                },
            ),
        );
        assert(entries_view(seeded@) =~= seeded_before.push(entry));
        assert(all.take(done + 1) =~= all.take(done).push(all[done]));
        proof {
            done = done + 1;
        }
    }
    assert(all.take(done) =~= all);
    let mut entries = TextMap { entries: seeded };
    overlay_users(&mut entries, &settings.extensions);
    match apply_switches(&mut entries, cli_overrides) {
        Ok(_) => ready_extensions(entries),
        Err(error) => Err(error),
    }
}

/// Resolves which extensions start.
pub fn resolve_extensions_with_cli_overrides(
    settings: &HarnessSettings,
    builtins: Vec<BuiltinExtension>,
    cli_overrides: &Vec<ExtensionCliOverride>,
) -> (r: Result<Vec<ExtensionConfig>, ResolveExtensionsError>)
    requires
        keys_differ(builtins_view(builtins@)),
    ensures
        match r {
            Ok(ready) => resolved(
                builtins_view(builtins@),
                settings.extensions@,
                switches_view(cli_overrides@),
            ) matches Ok((spawns, _)) && spawns == configs_view(ready@),
            Err(error) => resolved(
                builtins_view(builtins@),
                settings.extensions@,
                switches_view(cli_overrides@),
            ) == Err::<(Seq<Spawn>, Seq<(Seq<char>, Seq<char>)>), Unresolved>(error@),
        },
{
    match resolve_extensions_with_cli_overrides_and_diagnostics(settings, builtins, cli_overrides) {
        Ok(ready) => Ok(ready.extensions),
        Err(error) => Err(error),
    }
}

/// Resolves which extensions start where the command line says nothing.
pub fn resolve_extensions(settings: &HarnessSettings, builtins: Vec<BuiltinExtension>) -> (r: Result<
    Vec<ExtensionConfig>,
    ResolveExtensionsError,
>)
    requires
        keys_differ(builtins_view(builtins@)),
    ensures
        match r {
            Ok(ready) => resolved(
                builtins_view(builtins@),
                settings.extensions@,
                Seq::empty(),
            ) matches Ok((spawns, _)) && spawns == configs_view(ready@),
            Err(error) => resolved(builtins_view(builtins@), settings.extensions@, Seq::empty()) == Err::<
                (Seq<Spawn>, Seq<(Seq<char>, Seq<char>)>),
                Unresolved,
            >(error@),
        },
{
    let none: Vec<ExtensionCliOverride> = Vec::new();
    assert(switches_view(none@) =~= Seq::empty());
    resolve_extensions_with_cli_overrides(settings, builtins, &none)
}

// ---------------------------------------------------------------------------
// Built-in extensions
// ---------------------------------------------------------------------------

/// An empty configuration.
pub open spec fn no_config() -> Json {
    Json::Object(Seq::empty())
}

/// A built-in extension that runs the program itself.
pub open spec fn shipped(binary: Seq<char>, name: Seq<char>, part: Seq<char>, role: Seq<char>, enable: bool, config: Json) -> (
    Seq<char>,
    Merged,
) {
    (
        name,
        Merged {
            prefix: Seq::empty(),
            command: seq![binary, "ext"@, part],
            suffix: Seq::empty(),
            enable,
            require: true,
            role: Some(role),
            cwd: None,
            config,
            secrets: Seq::empty(),
        },
    )
}

/// The extensions that come with the program: the agent and the shell are on, the
/// dummy and the notifications off.
pub open spec fn shipped_extensions(binary: Seq<char>) -> Seq<(Seq<char>, Merged)> {
    seq![
        shipped(binary, "agent"@, "agent"@, "agent"@, true, no_config()),
        shipped(binary, "shell"@, "ext-shell"@, "tool"@, true, no_config()),
        shipped(binary, "test_dummy"@, "ext-test-dummy"@, "tool"@, false, no_config()),
        shipped(
            binary,
            "dpc_notifications"@,
            "ext-dpc-notifications"@,
            "tool"@,
            false,
            Json::Object(seq![("idle_seconds"@, Json::Integer(60))]),
        ),
    ]
}

fn shipped_extension(binary: &str, name: &str, part: &str, role: &str, enable: bool, config: JsonValue) -> (r:
    BuiltinExtension)
    ensures
        r@ == shipped(binary@, name@, part@, role@, enable, config@),
{
    let mut command: Vec<String> = Vec::new();
    command.push(binary.to_owned());
    command.push("ext".to_owned());
    command.push(part.to_owned());
    assert(texts(command@) =~= seq![binary@, "ext"@, part@]);
    let r = BuiltinExtension {
        name: name.to_owned(),
        prefix: Vec::new(),
        command,
        suffix: Vec::new(),
        role: Some(role.to_owned()),
        cwd: None,
        enable,
        require: true,
        config,
        secrets: TextMap::new(),
    };
    assert(texts(r.prefix@) =~= Seq::empty());
    assert(texts(r.suffix@) =~= Seq::empty());
    r
}

fn empty_config() -> (r: JsonValue)
    ensures
        r@ == no_config(),
{
    let none: Vec<(String, JsonValue)> = Vec::new();
    assert(entries_view(none@) =~= Seq::empty());
    object_value(none)
}

/// The extensions that come with the program, given the path of its binary.
pub fn builtin_extensions(tau_binary: &str) -> (r: Vec<BuiltinExtension>)
    ensures
        builtins_view(r@) == shipped_extensions(tau_binary@),
        keys_differ(builtins_view(r@)),
{
    let mut idle: Vec<(String, JsonValue)> = Vec::new();
    idle.push(("idle_seconds".to_owned(), JsonValue::Integer(60)));
    let idle_config = object_value(idle);
    assert(idle_config@->Object_0 =~= seq![("idle_seconds"@, Json::Integer(60))]);
    let mut r: Vec<BuiltinExtension> = Vec::new();
    r.push(shipped_extension(tau_binary, "agent", "agent", "agent", true, empty_config()));
    r.push(shipped_extension(tau_binary, "shell", "ext-shell", "tool", true, empty_config()));
    r.push(shipped_extension(tau_binary, "test_dummy", "ext-test-dummy", "tool", false, empty_config()));
    r.push(
        shipped_extension(
            tau_binary,
            "dpc_notifications",
            "ext-dpc-notifications",
            "tool",
            false,
            idle_config,
        ),
    );
    assert(builtins_view(r@) =~= shipped_extensions(tau_binary@));
    proof {
        lemma_shipped_distinct(tau_binary@);
    }
    r
}

proof fn lemma_shipped_distinct(binary: Seq<char>)
    ensures
        keys_differ(shipped_extensions(binary)),
{
    reveal_strlit("agent");
    reveal_strlit("shell");
    reveal_strlit("test_dummy");
    reveal_strlit("dpc_notifications");
    assert("agent"@[0] == 'a');
    assert("shell"@[0] == 's');
    assert("test_dummy"@[0] == 't');
    assert("dpc_notifications"@[0] == 'd');
}

/// A built-in extension as its definition spells it.
pub struct BuiltInExtensionDef {
    pub name: String,
    pub prefix: Option<Vec<String>>,
    /// What to run; the program itself where it is left out.
    pub command: Option<Vec<String>>,
    pub suffix: Option<Vec<String>>,
    pub role: Option<String>,
    pub cwd: Option<String>,
    pub enable: bool,
    pub require: bool,
    pub config: JsonValue,
    pub secrets: Option<TextMap<ExtensionSecretEntry>>,
}

impl BuiltInExtensionDef {
    /// What the definition says, for a program at this path.
    pub open spec fn meaning(&self, binary: Seq<char>) -> (Seq<char>, Merged) {
        (
            self.name@,
            Merged {
                prefix: match self.prefix {
                    Some(v) => texts(v@),
                    None => Seq::empty(),
                },
                command: match self.command {
                    Some(v) => texts(v@),
                    None => seq![binary],
                },
                suffix: match self.suffix {
                    Some(v) => texts(v@),
                    None => Seq::empty(),
                },
                enable: self.enable,
                require: self.require,
                role: option_text(self.role),
                cwd: option_text(self.cwd),
                config: self.config@,
                secrets: match self.secrets {
                    Some(secrets) => secrets@,
                    None => Seq::empty(),
                },
            },
        )
    }

    /// The extension that the definition describes.
    pub fn extension(&self, tau_binary: &str) -> (r: BuiltinExtension)
        ensures
            r@ == self.meaning(tau_binary@),
    {
        let none: Vec<String> = Vec::new();
        assert(texts(none@) =~= Seq::empty());
        let prefix = match &self.prefix {
            Some(v) => copy_texts(v),
            None => copy_texts(&none),
        };
        let command = match &self.command {
            Some(v) => copy_texts(v),
            None => {
                let mut own: Vec<String> = Vec::new();
                own.push(tau_binary.to_owned());
                assert(texts(own@) =~= seq![tau_binary@]);
                own
            },
        };
        let suffix = match &self.suffix {
            Some(v) => copy_texts(v),
            None => copy_texts(&none),
        };
        let secrets = match &self.secrets {
            Some(secrets) => copy_secrets(secrets),
            None => TextMap::new(),
        };
        BuiltinExtension {
            name: self.name.clone(),
            prefix,
            command,
            suffix,
            role: copy_option_text(&self.role),
            cwd: copy_option_text(&self.cwd),
            enable: self.enable,
            require: self.require,
            config: self.config.clone(),
            secrets,
        }
    }
}

// ---------------------------------------------------------------------------
// The whole configuration
// ---------------------------------------------------------------------------

/// Where the harness runs.
#[derive(Clone, Copy, Debug, PartialEq, Eq, Structural)]
pub enum CoreMode {
    Embedded,
    Daemon,
}

/// How the harness itself runs.
#[derive(Clone, Copy, Debug, PartialEq, Eq, Structural)]
pub struct CoreConfig {
    pub mode: CoreMode,
}

impl Default for CoreConfig {
    fn default() -> (r: CoreConfig)
        ensures
            r.mode == CoreMode::Embedded,
    {
        CoreConfig { mode: CoreMode::Embedded }
    }
}

/// What the harness starts with: the extensions stand by ascending name.
pub struct Config {
    pub core: CoreConfig,
    pub extensions: Vec<ExtensionConfig>,
    pub extension_startup_diagnostics: Vec<ExtensionStartupDiagnostic>,
}

/// The names of extensions.
pub open spec fn spawn_names(spawns: Seq<Spawn>) -> Seq<Seq<char>> {
    spawns.map_values(|s: Spawn| s.name)
}

/// Extensions by ascending name.
pub open spec fn spawns_by_name(spawns: Seq<Spawn>) -> Seq<Spawn> {
    sorted_positions(spawn_names(spawns)).map_values(|i: int| spawns[i])
}

fn copy_config(c: &ExtensionConfig) -> (r: ExtensionConfig)
    ensures
        r@ == c@,
{
    ExtensionConfig {
        name: c.name.clone(),
        command: c.command.clone(),
        args: copy_texts(&c.args),
        role: copy_option_text(&c.role),
        require: c.require,
        cwd: copy_option_text(&c.cwd),
        config: c.config.clone(),
        secrets: copy_secrets(&c.secrets),
    }
}

fn by_name(v: &Vec<ExtensionConfig>) -> (r: Vec<ExtensionConfig>)
    ensures
        configs_view(r@) == spawns_by_name(configs_view(v@)),
{
    let ghost all = configs_view(v@);
    let mut names: Vec<String> = Vec::new();
    let mut i: usize = 0;
    while i < v.len()
        invariant
            i <= v.len(),
            all == configs_view(v@),
            names.len() == i,
            forall|k: int| 0 <= k < i ==> (#[trigger] names@[k])@ == all[k].name,
        decreases v.len() - i,
    {
        names.push(v[i].name.clone());
        i += 1;
    }
    assert(texts(names@) =~= spawn_names(all));
    let order = sort_positions(&names);
    let mut r: Vec<ExtensionConfig> = Vec::new();
    let mut n: usize = 0;
    while n < order.len()
        invariant
            n <= order.len(),
            all == configs_view(v@),
            forall|k: int| 0 <= k < order.len() ==> (#[trigger] order@[k]) < v.len(),
            r.len() == n,
            forall|k: int| 0 <= k < n ==> (#[trigger] r@[k])@ == all[order@[k] as int],
        decreases order.len() - n,
    {
        r.push(copy_config(&v[order[n]]));
        n += 1;
    }
    assert(configs_view(r@) =~= spawns_by_name(all));
    r
}

/// The configuration of the harness.
pub fn resolve_config(
    settings: &HarnessSettings,
    builtins: Vec<BuiltinExtension>,
    cli_overrides: &Vec<ExtensionCliOverride>,
) -> (r: Result<Config, ResolveExtensionsError>)
    requires
        keys_differ(builtins_view(builtins@)),
    ensures
        match r {
            Ok(config) => resolved(
                builtins_view(builtins@),
                settings.extensions@,
                switches_view(cli_overrides@),
            ) matches Ok((spawns, notes)) && config.core.mode == CoreMode::Embedded && configs_view(
                config.extensions@,
            ) == spawns_by_name(spawns) && diagnostics_view(config.extension_startup_diagnostics@) == notes,
            Err(error) => resolved(
                builtins_view(builtins@),
                settings.extensions@,
                switches_view(cli_overrides@),
            ) == Err::<(Seq<Spawn>, Seq<(Seq<char>, Seq<char>)>), Unresolved>(error@),
        },
{
    match resolve_extensions_with_cli_overrides_and_diagnostics(settings, builtins, cli_overrides) {
        Ok(ready) => Ok(
            Config {
                core: CoreConfig { mode: CoreMode::Embedded },
                extensions: by_name(&ready.extensions),
                extension_startup_diagnostics: ready.diagnostics,
            },
        ),
        Err(error) => Err(error),
    }
}

/// A shipped extension ready to start.
pub open spec fn shipped_spawn(binary: Seq<char>, name: Seq<char>, part: Seq<char>, role: Seq<char>) -> Spawn {
    Spawn {
        name,
        command: binary,
        args: seq!["ext"@, part],
        role: Some(role),
        require: true,
        cwd: None,
        config: no_config(),
        secrets: Seq::empty(),
    }
}

/// What starts where the user set nothing: the agent and the shell.
pub open spec fn default_spawns(binary: Seq<char>) -> Seq<Spawn> {
    seq![
        shipped_spawn(binary, "agent"@, "agent"@, "agent"@),
        shipped_spawn(binary, "shell"@, "ext-shell"@, "tool"@),
    ]
}

/// Where the user set nothing, the agent and the shell start, and nothing is left
/// to say.
pub proof fn shipped_extensions_start(binary: Seq<char>)
    ensures
        resolved(shipped_extensions(binary), Seq::empty(), Seq::empty()) == Ok::<
            (Seq<Spawn>, Seq<(Seq<char>, Seq<char>)>),
            Unresolved,
        >((default_spawns(binary), Seq::empty())),
{
    let all = shipped_extensions(binary);
    let none = Seq::<(Seq<char>, Overlay)>::empty();
    assert(overlaid_all(all, none) == all);
    assert(switched_all(all, Seq::empty()) == Ok::<Seq<(Seq<char>, Merged)>, Unresolved>(all));
    reveal_with_fuel(starting, 5);
    let agent = all[0].1;
    let shell = all[1].1;
    assert(argv(agent) =~= seq![binary, "ext"@, "agent"@]);
    assert(argv(shell) =~= seq![binary, "ext"@, "ext-shell"@]);
    assert(argv(agent).drop_first() =~= seq!["ext"@, "agent"@]);
    assert(argv(shell).drop_first() =~= seq!["ext"@, "ext-shell"@]);
    assert(spawn_of("agent"@, agent) =~= default_spawns(binary)[0]);
    assert(spawn_of("shell"@, shell) =~= default_spawns(binary)[1]);
    assert(Seq::<Spawn>::empty().push(default_spawns(binary)[0]).push(default_spawns(binary)[1])
        =~= default_spawns(binary));
}

proof fn lemma_default_order(binary: Seq<char>)
    ensures
        spawns_by_name(default_spawns(binary)) == default_spawns(binary),
{
    let names = spawn_names(default_spawns(binary));
    reveal_strlit("agent");
    reveal_strlit("shell");
    assert(names =~= seq!["agent"@, "shell"@]);
    assert("agent"@[0] == 'a');
    assert("shell"@[0] == 's');
    assert(text_less(names[0], names[1]));
    reveal_with_fuel(placed_first, 3);
    reveal_with_fuel(placed_with, 3);
    assert(!text_less(names[1], names[0]));
    assert(sorted_positions(names) =~= seq![0int, 1int]);
    assert(spawns_by_name(default_spawns(binary)) =~= default_spawns(binary));
}

/// The configuration where the user set nothing.
pub fn default_config(tau_binary: &str) -> (r: Config)
    ensures
        r.core.mode == CoreMode::Embedded,
        configs_view(r.extensions@) == default_spawns(tau_binary@),
        r.extension_startup_diagnostics@.len() == 0,
{
    proof {
        shipped_extensions_start(tau_binary@);
        lemma_default_order(tau_binary@);
    }
    let settings = HarnessSettings::built_in();
    let none: Vec<ExtensionCliOverride> = Vec::new();
    assert(switches_view(none@) =~= Seq::empty());
    match resolve_config(&settings, builtin_extensions(tau_binary), &none) {
        Ok(config) => {
            assert(diagnostics_view(config.extension_startup_diagnostics@).len() == 0);
            config
        },
        Err(_) => {
            assert(false);
            Config {
                core: CoreConfig { mode: CoreMode::Embedded },
                extensions: Vec::new(),
                extension_startup_diagnostics: Vec::new(),
            }
        },
    }
}

// ---------------------------------------------------------------------------
// Reading the settings
// ---------------------------------------------------------------------------

/// The environment variable with what the command line says about roles.
pub const ROLE_CLI_OVERRIDES_ENV: &'static str = "TAU_ROLE_CLI_OVERRIDES";

/// The environment variable with what the command line says about extensions.
pub const EXTENSION_CLI_OVERRIDES_ENV: &'static str = "TAU_EXTENSION_CLI_OVERRIDES";

/// The environment variable with what the command line says about settings.
pub const HARNESS_CONFIG_CLI_OVERRIDES_ENV: &'static str = "TAU_HARNESS_CONFIG_OVERRIDES";

/// The environment variable with the role to start in.
pub const STARTUP_ROLE_ENV: &'static str = "TAU_STARTUP_ROLE";

/// The role to start in: that of the environment, where it names one.
pub open spec fn startup_role(settings_role: Option<Seq<char>>, env_role: Option<Seq<char>>) -> Option<Seq<char>> {
    match env_role {
        Some(role) => if role.len() > 0 {
            Some(role)
        } else {
            settings_role
        },
        None => settings_role,
    }
}

/// Lets the environment choose the role to start in.
pub fn apply_startup_role_override(settings: HarnessSettings, env_role: Option<String>) -> (r: HarnessSettings)
    ensures
        r.extensions == settings.extensions,
        option_text(r.default_role) == startup_role(option_text(settings.default_role), option_text(env_role)),
{
    let mut r = settings;
    match env_role {
        Some(role) => {
            if !role.as_str().is_empty() {
                r.default_role = Some(role);
            }
        },
        None => {},
    }
    r
}

/// How reading the settings failed.
#[derive(Clone, Copy, Debug, PartialEq, Eq, Structural)]
pub enum SettingsFailure {
    /// The command line names an unknown role.
    UnknownRole,
    /// The file cannot be read.
    Unreadable,
}

/// What to do after reading the settings failed.
#[derive(Clone, Copy, Debug, PartialEq, Eq, Structural)]
pub enum SettingsFallback {
    /// Give up.
    Fail,
    /// Read them again, without the file of the user.
    RetryWithoutFile,
    /// Go on as if the user had set nothing.
    UseBuiltIn,
}

/// What to do after reading the settings failed: an unknown role is an error of
/// the user; an unreadable file is passed over, but what the command line says
/// still counts.
pub fn settings_fallback(failure: SettingsFailure, has_config_overrides: bool) -> (r: SettingsFallback)
    ensures
        r == (if failure == SettingsFailure::UnknownRole {
            SettingsFallback::Fail
        } else if has_config_overrides {
            SettingsFallback::RetryWithoutFile
        } else {
            SettingsFallback::UseBuiltIn
        }),
{
    match failure {
        SettingsFailure::UnknownRole => SettingsFallback::Fail,
        SettingsFailure::Unreadable => if has_config_overrides {
            SettingsFallback::RetryWithoutFile
        } else {
            SettingsFallback::UseBuiltIn
        },
    }
}

// ---------------------------------------------------------------------------
// Laws
// ---------------------------------------------------------------------------

/// An entry that sets nothing changes nothing about an extension: one that is off
/// stays off.
pub proof fn empty_entry_changes_nothing(e: Merged)
    ensures
        overlaid(e, nothing_set()) == e,
{
}

proof fn lemma_stored_again<V>(list: Seq<(Seq<char>, V)>, key: Seq<char>, value: V)
    requires
        lookup(list, key) == Some(value),
    ensures
        stored(list, key, value) == list,
    decreases list.len(),
{
    lemma_lookup_stands(list, key);
    reveal_with_fuel(lookup, 2);
    reveal_with_fuel(stored, 2);
    if list.len() > 0 {
        if list[0].0 != key {
            lemma_stored_again(list.drop_first(), key, value);
        }
        assert(stored(list, key, value) =~= list);
    }
}

proof fn lemma_users_alike(
    entries: Seq<(Seq<char>, Merged)>,
    users: Seq<(Seq<char>, Overlay)>,
    at: Seq<int>,
    others: Seq<(Seq<char>, Overlay)>,
    other_at: Seq<int>,
    n: nat,
)
    requires
        n <= at.len(),
        n <= other_at.len(),
        forall|k: int| 0 <= k < n ==> users[#[trigger] at[k]] == others[other_at[k]],
    ensures
        with_users(entries, users, at, n) == with_users(entries, others, other_at, n),
    decreases n,
{
    if n > 0 {
        lemma_users_alike(entries, users, at, others, other_at, (n - 1) as nat);
        assert(users[at[n - 1]] == others[other_at[n - 1]]);
    }
}

proof fn lemma_users_keep(
    entries: Seq<(Seq<char>, Merged)>,
    users: Seq<(Seq<char>, Overlay)>,
    at: Seq<int>,
    n: nat,
    key: Seq<char>,
)
    requires
        lookup(entries, key) is Some,
    ensures
        lookup(with_users(entries, users, at, n), key) is Some,
    decreases n,
{
    if 0 < n <= at.len() {
        lemma_users_keep(entries, users, at, (n - 1) as nat, key);
        let before = with_users(entries, users, at, (n - 1) as nat);
        let (name, u) = users[at[n - 1]];
        let value = match lookup(before, name) {
            Some(e) => overlaid(e, u),
            None => users_own(u),
        };
        lookup_after_stored(before, name, value, key);
    }
}

proof fn lemma_nothing_placed(
    entries: Seq<(Seq<char>, Merged)>,
    users: Seq<(Seq<char>, Overlay)>,
    key: Seq<char>,
    placed: Seq<int>,
)
    requires
        lookup(entries, key) is Some,
        forall|k: int| 0 <= k < placed.len() ==> 0 <= #[trigger] placed[k] < users.len(),
    ensures
        ({
            let more = users.push((key, nothing_set()));
            let at = placed_with(keys_of(more), placed, users.len() as int);
            &&& at.len() == placed.len() + 1
            &&& with_users(entries, more, at, at.len()) == with_users(entries, users, placed, placed.len())
        }),
    decreases placed.len(),
{
    let more = users.push((key, nothing_set()));
    let n = users.len() as int;
    let at = placed_with(keys_of(more), placed, n);
    if placed.len() > 0 && text_less(keys_of(more)[n], keys_of(more)[placed.last()]) {
        let init = placed.drop_last();
        lemma_nothing_placed(entries, users, key, init);
        let inner = placed_with(keys_of(more), init, n);
        assert(at == inner.push(placed.last()));
        assert forall|k: int| 0 <= k < inner.len() implies more[#[trigger] at[k]] == more[inner[k]] by {
            assert(at[k] == inner[k]);
        }
        lemma_users_alike(entries, more, at, more, inner, inner.len());
        assert forall|k: int| 0 <= k < init.len() implies users[#[trigger] placed[k]] == users[init[k]] by {
            assert(placed[k] == init[k]);
        }
        lemma_users_alike(entries, users, placed, users, init, init.len());
        assert(at[at.len() - 1] == placed[placed.len() - 1]);
        assert(more[placed.last()] == users[placed.last()]);
    } else {
        assert(at =~= placed.push(n));
        assert forall|k: int| 0 <= k < placed.len() implies more[#[trigger] at[k]] == users[placed[k]] by {
            assert(at[k] == placed[k]);
        }
        lemma_users_alike(entries, more, at, users, placed, placed.len());
        let before = with_users(entries, users, placed, placed.len());
        lemma_users_keep(entries, users, placed, placed.len(), key);
        let e = lookup(before, key)->Some_0;
        empty_entry_changes_nothing(e);
        lemma_stored_again(before, key, e);
        assert(more[at[at.len() - 1]] == (key, nothing_set()));
    }
}

/// A built-in extension with an entry that sets nothing is resolved as without that
/// entry: one that is off stays out of what starts.
pub proof fn empty_entries_resolve_to_nothing_new(
    builtins: Seq<(Seq<char>, Merged)>,
    users: Seq<(Seq<char>, Overlay)>,
    key: Seq<char>,
    switches: Seq<Switch>,
)
    requires
        lookup(builtins, key) is Some,
        lookup(users, key) is None,
    ensures
        resolved(builtins, stored(users, key, nothing_set()), switches) == resolved(builtins, users, switches),
{
    let more = users.push((key, nothing_set()));
    lemma_lookup_stands(users, key);
    lemma_missing(users, key, nothing_set());
    assert(keys_of(more) =~= keys_of(users).push(key));
    one_more_key_finds_its_place(keys_of(users), key);
    sorted_positions_in_order(keys_of(users));
    lemma_nothing_placed(builtins, users, key, sorted_positions(keys_of(users)));
}

/// A command of the user's own replaces the whole command line behind the prefix,
/// unless the user also sets the suffix.
pub proof fn own_command_drops_the_suffix(e: Merged, u: Overlay)
    requires
        u.command is Some,
        u.suffix is None,
    ensures
        argv(overlaid(e, u)) == overlaid(e, u).prefix + u.command->0,
{
    assert(argv(overlaid(e, u)) =~= overlaid(e, u).prefix + u.command->0);
}

/// What is switched off does not start, whatever else is set about it.
pub proof fn what_is_off_does_not_start(entries: Seq<(Seq<char>, Merged)>, n: nat, name: Seq<char>)
    requires
        n <= entries.len(),
        starting(entries, n) is Ok,
        forall|i: int| 0 <= i < n && (#[trigger] entries[i]).0 == name ==> !entries[i].1.enable,
    ensures
        forall|i: int|
            0 <= i < starting(entries, n)->Ok_0.0.len() ==> (#[trigger] starting(entries, n)->Ok_0.0[i]).name != name,
    decreases n,
{
    if n > 0 {
        what_is_off_does_not_start(entries, (n - 1) as nat, name);
    }
}

/// The last word of the command line about all extensions settles for each of them
/// whether it is on.
pub proof fn last_switch_of_all_wins(entries: Seq<(Seq<char>, Merged)>, switches: Seq<Switch>, on: bool)
    requires
        switched_all(entries, switches) is Ok,
    ensures
        ({
            let after = switched_all(entries, switches.push(Switch { name: None, on }));
            &&& after is Ok
            &&& forall|i: int| 0 <= i < after->Ok_0.len() ==> (#[trigger] after->Ok_0[i]).1.enable == on
        }),
{
    let more = switches.push(Switch { name: None, on });
    assert(more.drop_last() =~= switches);
}

} // verus!
