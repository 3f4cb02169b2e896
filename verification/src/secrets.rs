//! Secrets of extensions: where they come from, and who gets which.
use vstd::prelude::*;
use vstd::string::*;
use crate::assoc::{entries_view, lookup, stored, TextMap};
use crate::messages::SecretValue;
use crate::order::{sort_positions, sorted_positions};
use crate::paths::{join_path, path_join};
use crate::settings::{
    configs_view, diagnostics_view, keys_of, Config, ExtensionConfig, ExtensionSecretEntry,
    ExtensionStartupDiagnostic, Spawn,
};
use crate::text::{
    ascii_lower, ascii_upper, begins, chars_of, lowercase_ascii, same, starts_with, text_between, texts, trim,
    trimmed, uppercase_ascii,
};

verus! {

// ---------------------------------------------------------------------------
// Errors
// ---------------------------------------------------------------------------

/// Why secrets cannot be collected or resolved.
#[derive(Debug, PartialEq, Eq)]
pub enum SecretsError {
    /// A name is not acceptable.
    InvalidName { name: String, context: String },
    /// Two environment variables mean the same secret.
    EnvCollision { name: String },
    /// A file is not text.
    InvalidUtf8 { path: String },
    /// A secret that is needed is not there.
    MissingRequired { extension: String, secret: String },
    /// A file cannot be read.
    Io { path: String, error: String },
}

/// What a `SecretsError` holds.
pub enum SecretTrouble {
    InvalidName { name: Seq<char>, context: Seq<char> },
    EnvCollision { name: Seq<char> },
    InvalidUtf8 { path: Seq<char> },
    MissingRequired { extension: Seq<char>, secret: Seq<char> },
    Io { path: Seq<char>, error: Seq<char> },
}

/// The text of an error.
pub open spec fn secret_trouble_text(t: SecretTrouble) -> Seq<char> {
    match t {
        SecretTrouble::InvalidName { name, context } => "invalid secret name `"@ + name + "` in "@ + context
            + "; secret names may contain only ASCII letters, digits, '.', '_' and '-'"@,
        SecretTrouble::EnvCollision { name } => {
            "multiple TAU_SECRET_* environment variables normalize to secret `"@ + name + "`"@
        },
        SecretTrouble::InvalidUtf8 { path } => "secret file "@ + path + " is not valid UTF-8"@,
        SecretTrouble::MissingRequired { extension, secret } => "required secret `"@ + secret + "` for extension `"@
            + extension + "` is missing; create <state_dir>/secrets/"@ + ascii_lower(secret)
            + ".yaml or set TAU_SECRET_"@ + ascii_upper(secret),
        SecretTrouble::Io { path, error } => "failed to read secret file "@ + path + ": "@ + error,
    }
}

impl SecretsError {
    pub open spec fn view(&self) -> SecretTrouble {
        match self {
            SecretsError::InvalidName { name, context } => SecretTrouble::InvalidName {
                name: name@,
                context: context@,
            },
            SecretsError::EnvCollision { name } => SecretTrouble::EnvCollision { name: name@ },
            SecretsError::InvalidUtf8 { path } => SecretTrouble::InvalidUtf8 { path: path@ },
            SecretsError::MissingRequired { extension, secret } => SecretTrouble::MissingRequired {
                extension: extension@,
                secret: secret@,
            },
            SecretsError::Io { path, error } => SecretTrouble::Io { path: path@, error: error@ },
        }
    }

    /// The text of the error.
    pub fn text(&self) -> (r: String)
        ensures
            r@ == secret_trouble_text(self@),
    {
        match self {
            SecretsError::InvalidName { name, context } => {
                let mut r = "invalid secret name `".to_owned();
                r.append(name.as_str());
                r.append("` in ");
                r.append(context.as_str());
                r.append("; secret names may contain only ASCII letters, digits, '.', '_' and '-'");
                r
            },
            SecretsError::EnvCollision { name } => {
                let mut r = "multiple TAU_SECRET_* environment variables normalize to secret `".to_owned();
                r.append(name.as_str());
                r.append("`");
                r
            },
            SecretsError::InvalidUtf8 { path } => {
                let mut r = "secret file ".to_owned();
                r.append(path.as_str());
                r.append(" is not valid UTF-8");
                r
            },
            SecretsError::MissingRequired { extension, secret } => {
                let mut r = "required secret `".to_owned();
                r.append(secret.as_str());
                r.append("` for extension `");
                r.append(extension.as_str());
                r.append("` is missing; create <state_dir>/secrets/");
                r.append(lowercase_ascii(secret.as_str()).as_str());
                r.append(".yaml or set TAU_SECRET_");
                r.append(uppercase_ascii(secret.as_str()).as_str());
                r
            },
            SecretsError::Io { path, error } => {
                let mut r = "failed to read secret file ".to_owned();
                r.append(path.as_str());
                r.append(": ");
                r.append(error.as_str());
                r
            },
        }
    }
}

// ---------------------------------------------------------------------------
// Names
// ---------------------------------------------------------------------------

/// Whether a character may stand in the name of a secret.
pub open spec fn secret_char(c: char) -> bool {
    ('a' <= c && c <= 'z') || ('A' <= c && c <= 'Z') || ('0' <= c && c <= '9') || c == '.' || c == '_' || c == '-'
}

/// Whether a text can name a secret: a single path component that is neither `.`
/// nor `..`, of plain characters.
pub open spec fn names_secret(s: Seq<char>) -> bool {
    s.len() > 0 && s != "."@ && s != ".."@ && forall|i: int| 0 <= i < s.len() ==> secret_char(#[trigger] s[i])
}

/// Whether a text can name a secret.
#[must_use]
pub fn is_valid_secret_name(name: &str) -> (r: bool)
    ensures
        r == names_secret(name@),
{
    let v = chars_of(name);
    let mut plain = true;
    let mut i: usize = 0;
    while i < v.len()
        invariant
            i <= v.len(),
            v@ == name@,
            plain <==> forall|k: int| 0 <= k < i ==> secret_char(#[trigger] v@[k]),
        decreases v.len() - i,
    {
        let c: char = v[i];
        let ok = ('a' <= c && c <= 'z') || ('A' <= c && c <= 'Z') || ('0' <= c && c <= '9') || c == '.' || c == '_' || c
            == '-';
        assert(ok == secret_char(v@[i as int]));
        plain = plain && ok;
        i += 1;
    }
    v.len() > 0 && !same(name, ".") && !same(name, "..") && plain
}

/// A name of a secret holds no slash, so it cannot lead out of a directory.
pub proof fn secret_names_are_single_components(name: Seq<char>)
    requires
        names_secret(name),
    ensures
        !name.contains('/'),
{
    assert forall|i: int| 0 <= i < name.len() implies name[i] != '/' by {
        assert(secret_char(name[i]));
    }
}

// ---------------------------------------------------------------------------
// The environment
// ---------------------------------------------------------------------------

/// The secrets that the environment named. Keep them out of logs.
pub struct SecretSources {
    env: TextMap<String>,
}

impl SecretSources {
    /// The secrets by their names.
    pub closed spec fn env(&self) -> Seq<(Seq<char>, Seq<char>)> {
        self.env@
    }
}

/// What collecting secrets from the environment gives.
pub struct Collected {
    /// The variables to take out of the environment.
    pub taken: Seq<Seq<char>>,
    pub env: Seq<(Seq<char>, Seq<char>)>,
    /// The first thing that went wrong.
    pub trouble: Option<SecretTrouble>,
}

/// The first thing that went wrong, after one more.
pub open spec fn first_trouble(before: Option<SecretTrouble>, now: SecretTrouble) -> Option<SecretTrouble> {
    match before {
        Some(t) => Some(t),
        None => Some(now),
    }
}

/// What is collected with one more variable.
pub open spec fn collected_with(c: Collected, key: Seq<char>, value: Seq<char>) -> Collected {
    if !begins(key, "TAU_SECRET_"@) {
        c
    } else {
        let name = ascii_lower(key.skip("TAU_SECRET_"@.len() as int));
        let taken = c.taken.push(key);
        if !names_secret(name) {
            Collected {
                taken,
                trouble: first_trouble(
                    c.trouble,
                    SecretTrouble::InvalidName { name, context: "environment"@ },
                ),
                ..c
            }
        } else if value.len() == 0 {
            Collected { taken, ..c }
        } else if lookup(c.env, name) is Some {
            Collected {
                taken,
                env: stored(c.env, name, value),
                trouble: first_trouble(c.trouble, SecretTrouble::EnvCollision { name }),
            }
        } else {
            Collected { taken, env: stored(c.env, name, value), ..c }
        }
    }
}

/// What is collected from variables, one after the other.
pub open spec fn collected(vars: Seq<(Seq<char>, Seq<char>)>) -> Collected
    decreases vars.len(),
{
    if vars.len() == 0 {
        Collected { taken: Seq::empty(), env: Seq::empty(), trouble: None }
    } else {
        collected_with(collected(vars.drop_last()), vars.last().0, vars.last().1)
    }
}

/// An optional error over its view.
pub open spec fn option_trouble(o: Option<SecretsError>) -> Option<SecretTrouble> {
    match o {
        Some(error) => Some(error@),
        None => None,
    }
}

/// Collects the secrets of the environment, and names the variables to take out
/// of it. The first bad name or collision is an error.
pub fn load_secret_sources(vars: &Vec<(String, String)>) -> (r: (Vec<String>, Result<SecretSources, SecretsError>))
    ensures
        texts(r.0@) == collected(entries_view(vars@)).taken,
        match r.1 {
            Ok(sources) => collected(entries_view(vars@)).trouble is None && sources.env() == collected(
                entries_view(vars@),
            ).env,
            Err(error) => collected(entries_view(vars@)).trouble == Some(error@),
        },
{
    let ghost all = entries_view(vars@);
    let mut taken: Vec<String> = Vec::new();
    let mut env: TextMap<String> = TextMap::new();
    let mut trouble: Option<SecretsError> = None;
    let mut i: usize = 0;
    assert(all.take(0) =~= Seq::empty());
    assert(texts(taken@) =~= Seq::empty());
    while i < vars.len()
        invariant
            i <= vars.len(),
            all == entries_view(vars@),
            collected(all.take(i as int)) == (Collected {
                taken: texts(taken@),
                env: env@,
                trouble: option_trouble(trouble),
            }),
        decreases vars.len() - i,
    {
        let ghost before = texts(taken@);
        let key = &vars[i].0;
        let value = &vars[i].1;
        assert(all.take(i + 1).drop_last() =~= all.take(i as int));
        assert(all.take(i + 1).last() == (key@, value@));
        if starts_with(key.as_str(), "TAU_SECRET_") {
            taken.push(key.clone());
            assert(texts(taken@) =~= before.push(key@));
            let name = secret_name_of(key.as_str());
            if !is_valid_secret_name(name.as_str()) {
                if trouble.is_none() {
                    trouble = Some(SecretsError::InvalidName { name, context: "environment".to_owned() });
                }
            } else if !value.as_str().is_empty() {
                let again = env.contains_key(name.as_str());
                env.insert(name.clone(), value.clone());
                if again && trouble.is_none() {
                    trouble = Some(SecretsError::EnvCollision { name });
                }
            }
        }
        i += 1;
    }
    assert(all.take(all.len() as int) =~= all);
    match trouble {
        Some(error) => (taken, Err(error)),
        None => (taken, Ok(SecretSources { env })),
    }
}

/// The name of the secret behind an environment variable.
fn secret_name_of(key: &str) -> (r: String)
    requires
        begins(key@, "TAU_SECRET_"@),
    ensures
        r@ == ascii_lower(key@.skip("TAU_SECRET_"@.len() as int)),
{
    proof {
        reveal_strlit("TAU_SECRET_");
    }
    let v = chars_of(key);
    let rest = text_between(&v, 11, v.len());
    assert(rest@ =~= key@.skip(11));
    lowercase_ascii(rest.as_str())
}

// ---------------------------------------------------------------------------
// Files
// ---------------------------------------------------------------------------

/// What reading the file of a secret gave.
#[derive(Debug, PartialEq, Eq)]
pub enum SecretFile {
    /// There is no file.
    Missing,
    /// The text of the file.
    Text(String),
    /// The file is not text.
    NotText,
    /// The file cannot be read.
    Failed(String),
}

/// Where the file of a secret lies.
pub open spec fn secret_file(state_dir: Seq<char>, name: Seq<char>) -> Seq<char> {
    path_join(path_join(state_dir, "secrets"@), name + ".yaml"@)
}

/// Where the file of a secret lies.
pub fn secret_file_path(state_dir: &str, name: &str) -> (r: String)
    ensures
        r@ == secret_file(state_dir@, name@),
{
    let dir = join_path(state_dir, "secrets");
    let mut file = name.to_owned();
    file.append(".yaml");
    join_path(dir.as_str(), file.as_str())
}

/// The secret in a file: its text without the whitespace around it.
pub open spec fn file_secret(file: SecretFile, path: Seq<char>) -> Result<Option<Seq<char>>, SecretTrouble> {
    match file {
        SecretFile::Missing => Ok(None),
        SecretFile::Text(text) => Ok(
            if trimmed(text@).len() > 0 {
                Some(trimmed(text@))
            } else {
                None
            },
        ),
        SecretFile::NotText => Err(SecretTrouble::InvalidUtf8 { path }),
        SecretFile::Failed(error) => Err(SecretTrouble::Io { path, error: error@ }),
    }
}

/// The secret for one declaration: from the environment, else from its file. It is
/// an error where it is needed and neither has it.
pub open spec fn secret_for(
    state_dir: Seq<char>,
    env: Seq<(Seq<char>, Seq<char>)>,
    extension: Seq<char>,
    name: Seq<char>,
    optional: bool,
    file: SecretFile,
) -> Result<Option<Seq<char>>, SecretTrouble> {
    if !names_secret(name) {
        Err(SecretTrouble::InvalidName { name, context: "extension `"@ + extension + "` secrets"@ })
    } else {
        match file_secret(file, secret_file(state_dir, ascii_lower(name))) {
            Err(error) => Err(error),
            Ok(from_file) => {
                let value = match lookup(env, ascii_lower(name)) {
                    Some(value) => Some(value),
                    None => from_file,
                };
                match value {
                    Some(text) => if text.len() > 0 {
                        Ok(Some(text))
                    } else if optional {
                        Ok(None)
                    } else {
                        Err(SecretTrouble::MissingRequired { extension, secret: name })
                    },
                    None => if optional {
                        Ok(None)
                    } else {
                        Err(SecretTrouble::MissingRequired { extension, secret: name })
                    },
                }
            },
        }
    }
}

/// A result over its view.
pub open spec fn secret_result(r: Result<Option<SecretValue>, SecretsError>) -> Result<Option<Seq<char>>, SecretTrouble> {
    match r {
        Ok(Some(value)) => Ok(Some(value@)),
        Ok(None) => Ok(None),
        Err(error) => Err(error@),
    }
}

fn missing(extension: &str, name: &str, optional: bool) -> (r: Result<Option<SecretValue>, SecretsError>)
    ensures
        secret_result(r) == (if optional {
            Ok::<Option<Seq<char>>, SecretTrouble>(None)
        } else {
            Err(SecretTrouble::MissingRequired { extension: extension@, secret: name@ })
        }),
{
    if optional {
        Ok(None)
    } else {
        Err(SecretsError::MissingRequired { extension: extension.to_owned(), secret: name.to_owned() })
    }
}

/// Resolves one secret, given what reading its file gave.
pub fn resolve_one_secret(
    state_dir: &str,
    sources: &SecretSources,
    extension: &str,
    name: &str,
    declaration: &ExtensionSecretEntry,
    file: &SecretFile,
) -> (r: Result<Option<SecretValue>, SecretsError>)
    ensures
        secret_result(r) == secret_for(
            state_dir@,
            sources.env(),
            extension@,
            name@,
            declaration.optional,
            *file,
        ),
{
    if !is_valid_secret_name(name) {
        let mut context = "extension `".to_owned();
        context.append(extension);
        context.append("` secrets");
        return Err(SecretsError::InvalidName { name: name.to_owned(), context });
    }
    let normalized = lowercase_ascii(name);
    let path = secret_file_path(state_dir, normalized.as_str());
    let from_file: Option<String> = match file {
        SecretFile::Missing => None,
        SecretFile::Text(text) => {
            let value = trim(text.as_str());
            if value.as_str().is_empty() {
                None
            } else {
                Some(value)
            }
        },
        SecretFile::NotText => {
            return Err(SecretsError::InvalidUtf8 { path });
        },
        SecretFile::Failed(error) => {
            return Err(SecretsError::Io { path, error: error.clone() });
        },
    };
    let value = match sources.env.get(normalized.as_str()) {
        Some(value) => Some(value.clone()),
        None => from_file,
    };
    match value {
        Some(text) => {
            if text.as_str().is_empty() {
                missing(extension, name, declaration.optional)
            } else {
                Ok(Some(SecretValue::new(text)))
            }
        },
        None => missing(extension, name, declaration.optional),
    }
}

// ---------------------------------------------------------------------------
// All extensions
// ---------------------------------------------------------------------------

/// What reading the files of secrets gave, by normalized name.
pub struct SecretFiles {
    pub files: Vec<(String, SecretFile)>,
}

/// What reading the file of a secret gave.
pub open spec fn file_in(files: Seq<(String, SecretFile)>, name: Seq<char>) -> SecretFile
    decreases files.len(),
{
    if files.len() == 0 {
        SecretFile::Missing
    } else if files[0].0@ == name {
        files[0].1
    } else {
        file_in(files.drop_first(), name)
    }
}

impl SecretFiles {
    /// What reading the file of a secret gave; nothing where it was not read.
    pub fn get(&self, name: &str) -> (r: &SecretFile)
        ensures
            *r == file_in(self.files@, name@),
    {
        let mut i: usize = 0;
        assert(self.files@.skip(0) =~= self.files@);
        while i < self.files.len()
            invariant
                i <= self.files.len(),
                file_in(self.files@, name@) == file_in(self.files@.skip(i as int), name@),
            decreases self.files.len() - i,
        {
            assert(self.files@.skip(i as int)[0] == self.files@[i as int]);
            assert(self.files@.skip(i as int).drop_first() =~= self.files@.skip(i + 1));
            if same(self.files[i].0.as_str(), name) {
                return &self.files[i].1;
            }
            i += 1;
        }
        &SecretFile::Missing
    }
}

/// The secrets of an extension for the first `n` of its declarations, by
/// ascending name.
pub open spec fn secrets_of(
    state_dir: Seq<char>,
    env: Seq<(Seq<char>, Seq<char>)>,
    files: Seq<(String, SecretFile)>,
    e: Spawn,
    n: nat,
) -> Result<Seq<(Seq<char>, Seq<char>)>, SecretTrouble>
    decreases n,
{
    let at = sorted_positions(keys_of(e.secrets));
    if n == 0 || n > at.len() {
        Ok(Seq::empty())
    } else {
        match secrets_of(state_dir, env, files, e, (n - 1) as nat) {
            Err(error) => Err(error),
            Ok(before) => {
                let (name, declaration) = e.secrets[at[n - 1]];
                match secret_for(
                    state_dir,
                    env,
                    e.name,
                    name,
                    declaration.optional,
                    file_in(files, ascii_lower(name)),
                ) {
                    Ok(Some(value)) => Ok(before.push((name, value))),
                    Ok(None) => Ok(before),
                    Err(error) => Err(error),
                }
            },
        }
    }
}

/// Why an optional extension is passed over.
pub open spec fn secret_skip_message(extension: Seq<char>, error: SecretTrouble) -> Seq<char> {
    "optional extension "@ + extension + " skipped: "@ + secret_trouble_text(error) + "; check `extensions."@
        + extension + ".secrets` in harness.yaml"@
}

/// What resolving the secrets of extensions gives.
#[verifier::ext_equal]
pub struct SecretsView {
    pub secrets: Seq<(Seq<char>, Seq<(Seq<char>, Seq<char>)>)>,
    pub skipped: Seq<Seq<char>>,
    pub notes: Seq<(Seq<char>, Seq<char>)>,
}

/// The secrets of the first `n` extensions. An extension whose secrets cannot be
/// resolved is passed over, or fails where the program needs it.
pub open spec fn all_secrets(
    state_dir: Seq<char>,
    env: Seq<(Seq<char>, Seq<char>)>,
    files: Seq<(String, SecretFile)>,
    extensions: Seq<Spawn>,
    n: nat,
) -> Result<SecretsView, SecretTrouble>
    decreases n,
{
    if n == 0 || n > extensions.len() {
        Ok(SecretsView { secrets: Seq::empty(), skipped: Seq::empty(), notes: Seq::empty() })
    } else {
        match all_secrets(state_dir, env, files, extensions, (n - 1) as nat) {
            Err(error) => Err(error),
            Ok(before) => {
                let e = extensions[n - 1];
                match secrets_of(state_dir, env, files, e, e.secrets.len()) {
                    Ok(secrets) => Ok(
                        SecretsView { secrets: before.secrets.push((e.name, secrets)), ..before },
                    ),
                    Err(error) => if e.require {
                        Err(error)
                    } else {
                        Ok(
                            SecretsView {
                                skipped: before.skipped.push(e.name),
                                notes: before.notes.push((e.name, secret_skip_message(e.name, error))),
                                ..before
                            },
                        )
                    },
                }
            },
        }
    }
}

/// The secrets of all extensions.
pub struct ResolvedExtensionSecrets {
    /// What each extension gets, by its name.
    pub secrets: Vec<(String, Vec<(String, SecretValue)>)>,
    /// The optional extensions that are passed over.
    pub skipped_extensions: Vec<String>,
    pub diagnostics: Vec<ExtensionStartupDiagnostic>,
}

/// The secrets of one extension over their views.
pub open spec fn values_view(v: Seq<(String, SecretValue)>) -> Seq<(Seq<char>, Seq<char>)> {
    v.map_values(|p: (String, SecretValue)| (p.0@, p.1@))
}

/// The secrets of extensions over their views.
pub open spec fn extension_secrets_view(v: Seq<(String, Vec<(String, SecretValue)>)>) -> Seq<
    (Seq<char>, Seq<(Seq<char>, Seq<char>)>),
> {
    v.map_values(|p: (String, Vec<(String, SecretValue)>)| (p.0@, values_view(p.1@)))
}

impl ResolvedExtensionSecrets {
    pub open spec fn view(&self) -> SecretsView {
        SecretsView {
            secrets: extension_secrets_view(self.secrets@),
            skipped: texts(self.skipped_extensions@),
            notes: diagnostics_view(self.diagnostics@),
        }
    }
}

proof fn lemma_secrets_stay_failed(
    state_dir: Seq<char>,
    env: Seq<(Seq<char>, Seq<char>)>,
    files: Seq<(String, SecretFile)>,
    e: Spawn,
    n: nat,
    m: nat,
)
    requires
        n <= m <= sorted_positions(keys_of(e.secrets)).len(),
        secrets_of(state_dir, env, files, e, n) is Err,
    ensures
        secrets_of(state_dir, env, files, e, m) == secrets_of(state_dir, env, files, e, n),
    decreases m,
{
    if n < m {
        lemma_secrets_stay_failed(state_dir, env, files, e, n, (m - 1) as nat);
    }
}

proof fn lemma_all_stay_failed(
    state_dir: Seq<char>,
    env: Seq<(Seq<char>, Seq<char>)>,
    files: Seq<(String, SecretFile)>,
    extensions: Seq<Spawn>,
    n: nat,
    m: nat,
)
    requires
        n <= m <= extensions.len(),
        all_secrets(state_dir, env, files, extensions, n) is Err,
    ensures
        all_secrets(state_dir, env, files, extensions, m) == all_secrets(state_dir, env, files, extensions, n),
    decreases m,
{
    if n < m {
        lemma_all_stay_failed(state_dir, env, files, extensions, n, (m - 1) as nat);
    }
}

/// The secrets of one extension.
fn extension_secrets(state_dir: &str, sources: &SecretSources, files: &SecretFiles, e: &ExtensionConfig) -> (r: Result<
    Vec<(String, SecretValue)>,
    SecretsError,
>)
    ensures
        match r {
            Ok(values) => secrets_of(state_dir@, sources.env(), files.files@, e@, e@.secrets.len()) == Ok::<
                Seq<(Seq<char>, Seq<char>)>,
                SecretTrouble,
            >(values_view(values@)),
            Err(error) => secrets_of(state_dir@, sources.env(), files.files@, e@, e@.secrets.len()) == Err::<
                Seq<(Seq<char>, Seq<char>)>,
                SecretTrouble,
            >(error@),
        },
{
    let ghost all = e@.secrets;
    let mut names: Vec<String> = Vec::new();
    let mut i: usize = 0;
    while i < e.secrets.entries.len()
        invariant
            i <= e.secrets.entries.len(),
            all == entries_view(e.secrets.entries@),
            names.len() == i,
            forall|k: int| 0 <= k < i ==> (#[trigger] names@[k])@ == all[k].0,
        decreases e.secrets.entries.len() - i,
    {
        names.push(e.secrets.entries[i].0.clone());
        i += 1;
    }
    assert(texts(names@) =~= keys_of(all));
    let order = sort_positions(&names);
    let ghost at = sorted_positions(keys_of(all));
    let mut values: Vec<(String, SecretValue)> = Vec::new();
    let mut n: usize = 0;
    assert(values_view(values@) =~= Seq::empty());
    while n < order.len()
        invariant
            n <= order.len(),
            all == entries_view(e.secrets.entries@),
            all == e@.secrets,
            at == sorted_positions(keys_of(all)),
            order.len() == e.secrets.entries.len(),
            order.len() == at.len(),
            forall|k: int|
                0 <= k < order.len() ==> (#[trigger] order@[k]) < e.secrets.entries.len() && at[k] == order@[k],
            secrets_of(state_dir@, sources.env(), files.files@, e@, n as nat) == Ok::<
                Seq<(Seq<char>, Seq<char>)>,
                SecretTrouble,
            >(values_view(values@)),
        decreases order.len() - n,
    {
        let ghost before = values_view(values@);
        let k = order[n];
        let name = &e.secrets.entries[k].0;
        assert(all[k as int] == (name@, e.secrets.entries@[k as int].1));
        let normalized = lowercase_ascii(name.as_str());
        let file = files.get(normalized.as_str());
        match resolve_one_secret(
            state_dir,
            sources,
            e.name.as_str(),
            name.as_str(),
            &e.secrets.entries[k].1,
            file,
        ) {
            Ok(Some(value)) => {
                values.push((name.clone(), value));
                assert(values_view(values@) =~= before.push((name@, value@)));
            },
            Ok(None) => {},
            Err(error) => {
                proof {
                    lemma_secrets_stay_failed(
                        state_dir@,
                        sources.env(),
                        files.files@,
                        e@,
                        (n + 1) as nat,
                        at.len(),
                    );
                }
                return Err(error);
            },
        }
        n += 1;
    }
    Ok(values)
}

fn secret_skip_text(extension: &str, error: &SecretsError) -> (r: String)
    ensures
        r@ == secret_skip_message(extension@, error@),
{
    let mut r = "optional extension ".to_owned();
    r.append(extension);
    r.append(" skipped: ");
    r.append(error.text().as_str());
    r.append("; check `extensions.");
    r.append(extension);
    r.append(".secrets` in harness.yaml");
    r
}

/// Resolves the secrets of all extensions, given what reading their files gave.
pub fn resolve_extension_secrets(config: &Config, state_dir: &str, sources: &SecretSources, files: &SecretFiles) -> (r:
    Result<ResolvedExtensionSecrets, SecretsError>)
    ensures
        ({
            let extensions = configs_view(config.extensions@);
            match r {
                Ok(ready) => all_secrets(
                    state_dir@,
                    sources.env(),
                    files.files@,
                    extensions,
                    extensions.len(),
                ) == Ok::<SecretsView, SecretTrouble>(ready@),
                Err(error) => all_secrets(
                    state_dir@,
                    sources.env(),
                    files.files@,
                    extensions,
                    extensions.len(),
                ) == Err::<SecretsView, SecretTrouble>(error@),
            }
        }),
{
    let ghost extensions = configs_view(config.extensions@);
    let mut secrets: Vec<(String, Vec<(String, SecretValue)>)> = Vec::new();
    let mut skipped: Vec<String> = Vec::new();
    let mut diagnostics: Vec<ExtensionStartupDiagnostic> = Vec::new();
    let mut i: usize = 0;
    assert(extension_secrets_view(secrets@) =~= Seq::empty());
    assert(texts(skipped@) =~= Seq::empty());
    assert(diagnostics_view(diagnostics@) =~= Seq::empty());
    while i < config.extensions.len()
        invariant
            i <= config.extensions.len(),
            extensions == configs_view(config.extensions@),
            all_secrets(state_dir@, sources.env(), files.files@, extensions, i as nat) == Ok::<
                SecretsView,
                SecretTrouble,
            >(
                SecretsView {
                    secrets: extension_secrets_view(secrets@),
                    skipped: texts(skipped@),
                    notes: diagnostics_view(diagnostics@),
                },
            ),
        decreases config.extensions.len() - i,
    {
        let ghost before = extension_secrets_view(secrets@);
        let ghost skipped_before = texts(skipped@);
        let ghost notes_before = diagnostics_view(diagnostics@);
        let e = &config.extensions[i];
        assert(extensions[i as int] == e@);
        match extension_secrets(state_dir, sources, files, e) {
            Ok(values) => {
                secrets.push((e.name.clone(), values));
                assert(extension_secrets_view(secrets@) =~= before.push((e.name@, values_view(values@))));
            },
            Err(error) => {
                if e.require {
                    proof {
                        lemma_all_stay_failed(
                            state_dir@,
                            sources.env(),
                            files.files@,
                            extensions,
                            (i + 1) as nat,
                            extensions.len(),
                        );
                    }
                    return Err(error);
                }
                let message = secret_skip_text(e.name.as_str(), &error);
                diagnostics.push(ExtensionStartupDiagnostic { extension: e.name.clone(), message });
                skipped.push(e.name.clone());
                assert(diagnostics_view(diagnostics@) =~= notes_before.push(
                    (e.name@, secret_skip_message(e.name@, error@)),
                ));
                assert(texts(skipped@) =~= skipped_before.push(e.name@));
            },
        }
        i += 1;
    }
    Ok(ResolvedExtensionSecrets { secrets, skipped_extensions: skipped, diagnostics })
}

// ---------------------------------------------------------------------------
// Laws
// ---------------------------------------------------------------------------

/// The environment comes before the file.
pub proof fn environment_wins(
    state_dir: Seq<char>,
    env: Seq<(Seq<char>, Seq<char>)>,
    extension: Seq<char>,
    name: Seq<char>,
    optional: bool,
    text: String,
    value: Seq<char>,
)
    requires
        names_secret(name),
        lookup(env, ascii_lower(name)) == Some(value),
        value.len() > 0,
    ensures
        secret_for(state_dir, env, extension, name, optional, SecretFile::Text(text)) == Ok::<
            Option<Seq<char>>,
            SecretTrouble,
        >(Some(value)),
{
}

/// A secret that is needed is never passed over in silence.
pub proof fn needed_secrets_are_there(
    state_dir: Seq<char>,
    env: Seq<(Seq<char>, Seq<char>)>,
    extension: Seq<char>,
    name: Seq<char>,
    file: SecretFile,
)
    ensures
        secret_for(state_dir, env, extension, name, false, file) matches Ok(found) ==> found matches Some(value)
            && value.len() > 0,
{
}

} // verus!
