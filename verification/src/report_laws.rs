//! What reports of trouble tell, and what holds of providers and of the files of skills.
use vstd::prelude::*;
use crate::assoc::lemma_found;
use crate::chat_completions::{effort_asked, llm_error_text, offered_efforts, ChatCompletionsCompat, LlmError};
use crate::data_laws::is_component;
use crate::error::{trouble_text, Trouble};
use crate::event::Effort;
use crate::json::{json_field, Json};
use crate::paths::{file_name, path_join, path_parts, settled};
use crate::provider_cli::{
    entry_json, is_login, kind_of_auth, login_comes_to, shows, temporary_path, written_place, LoginPlan,
    ProviderKind, ProviderRow, Settings,
};
use crate::provider_store::{store_dir, Auth};
use crate::secrets::{secret_skip_message, secret_trouble_text, SecretTrouble};
use crate::settings::{unresolved_text, Unresolved};
use crate::skill_tool::{search_reply, wants_content, Hit};
use crate::skills::{
    directory_name, has_own_skill, is_skill_file, lies_below, name_remarks, shadowed, skill_files, DiagnosticKind,
};
use crate::socket::{socket_error_text, source_of, SocketTransportError};
use crate::text::{begins, ends_in, has_text, joined};
use crate::text_laws::parts_are_found;

verus! {

/// What went wrong outside is told at the end of the report.
pub proof fn reports_end_with_what_went_wrong(source: Seq<char>)
    ensures
        ends_in(trouble_text(Trouble::Io(source)), source),
        ends_in(trouble_text(Trouble::ProtocolDecode(source)), source),
        ends_in(trouble_text(Trouble::ProtocolEncode(source)), source),
        ends_in(trouble_text(Trouble::SessionStore(source)), source),
        ends_in(trouble_text(Trouble::SocketTransport(source)), source),
        ends_in(trouble_text(Trouble::Route(source)), source),
        ends_in(trouble_text(Trouble::ToolRoute(source)), source),
        ends_in(trouble_text(Trouble::Participant(source)), source),
        has_text(trouble_text(Trouble::ThreadJoin(source)), source),
        begins(trouble_text(Trouble::SessionStore(source)), "session store error: "@),
        begins(trouble_text(Trouble::Participant(source)), "participant error: "@),
{
    parts_are_found("I/O error: "@, source, Seq::empty());
    parts_are_found("protocol decode error: "@, source, Seq::empty());
    parts_are_found("protocol encode error: "@, source, Seq::empty());
    parts_are_found("session store error: "@, source, Seq::empty());
    parts_are_found("socket transport error: "@, source, Seq::empty());
    parts_are_found("routing error: "@, source, Seq::empty());
    parts_are_found("tool routing error: "@, source, Seq::empty());
    parts_are_found("participant error: "@, source, Seq::empty());
    parts_are_found("failed to join "@, source, " thread cleanly"@);
    parts_are_found(Seq::empty(), "session store error: "@, source);
    parts_are_found(Seq::empty(), "participant error: "@, source);
}

/// The error of a model is told with what came back.
pub proof fn model_errors_are_told(text: String, code: u16)
    ensures
        ends_in(llm_error_text(LlmError::Http(text)), text@),
        ends_in(llm_error_text(LlmError::Io(text)), text@),
        ends_in(llm_error_text(LlmError::Json(text)), text@),
        ends_in(llm_error_text(LlmError::HttpStatus(code, text)), text@),
        begins(llm_error_text(LlmError::HttpStatus(code, text)), "HTTP "@ + crate::text::decimal(code as nat)),
{
    parts_are_found("HTTP error: "@, text@, Seq::empty());
    parts_are_found("I/O error: "@, text@, Seq::empty());
    parts_are_found("JSON error: "@, text@, Seq::empty());
    parts_are_found("HTTP "@ + crate::text::decimal(code as nat) + ": "@, text@, Seq::empty());
    parts_are_found(Seq::empty(), "HTTP "@ + crate::text::decimal(code as nat), ": "@ + text@);
    assert("HTTP "@ + crate::text::decimal(code as nat) + (": "@ + text@) =~= llm_error_text(
        LlmError::HttpStatus(code, text),
    ));
}

/// An effort that a model has no word for is asked for by the strongest that it has.
pub proof fn efforts_are_asked_for_by_name(compat: ChatCompletionsCompat, effort: Effort)
    ensures
        effort_asked(Effort::Off) == "none"@,
        effort_asked(Effort::XHigh) == effort_asked(Effort::High),
        effort != Effort::Off && effort != Effort::XHigh ==> effort_asked(effort) == crate::models::effort_name(effort),
        !compat.reasoning_effort ==> offered_efforts(compat) == seq![Effort::Off],
        compat.reasoning_effort ==> offered_efforts(compat).len() == 6 && offered_efforts(compat).contains(effort),
{
    let all = offered_efforts(compat);
    if compat.reasoning_effort {
        assert(all[0] == Effort::Off && all[1] == Effort::Minimal && all[2] == Effort::Low && all[3] == Effort::Medium
            && all[4] == Effort::High && all[5] == Effort::XHigh);
    }
}

/// The report on a socket names the path, where there is one, and what went wrong.
pub proof fn socket_reports_name_the_path(path: String, source: String)
    ensures
        has_text(socket_error_text(SocketTransportError::Bind { path, source }), path@),
        ends_in(socket_error_text(SocketTransportError::Bind { path, source }), source@),
        source_of(SocketTransportError::Bind { path, source }) == Some(source@),
        has_text(socket_error_text(SocketTransportError::Connect { path, source }), path@),
        ends_in(socket_error_text(SocketTransportError::Connect { path, source }), source@),
        source_of(SocketTransportError::Connect { path, source }) == Some(source@),
        ends_in(socket_error_text(SocketTransportError::RefuseNonSocketPath { path }), path@),
        source_of(SocketTransportError::RefuseNonSocketPath { path }) is None,
        ends_in(socket_error_text(SocketTransportError::ActiveSocketExists { path }), path@),
        source_of(SocketTransportError::ActiveSocketExists { path }) is None,
        ends_in(socket_error_text(SocketTransportError::Accept { source }), source@),
        source_of(SocketTransportError::Accept { source }) == Some(source@),
        ends_in(socket_error_text(SocketTransportError::Decode { source }), source@),
        source_of(SocketTransportError::Decode { source }) == Some(source@),
{
    parts_are_found("failed to bind Unix socket "@ + path@ + ": "@, source@, Seq::empty());
    lemma_inside("failed to bind Unix socket "@, path@, ": "@, source@);
    parts_are_found("failed to connect to Unix socket "@ + path@ + ": "@, source@, Seq::empty());
    lemma_inside("failed to connect to Unix socket "@, path@, ": "@, source@);
    parts_are_found("refusing to replace non-socket path "@, path@, Seq::empty());
    parts_are_found("refusing to replace active Unix socket "@, path@, Seq::empty());
    parts_are_found("failed to accept Unix socket client: "@, source@, Seq::empty());
    parts_are_found("failed to decode socket event: "@, source@, Seq::empty());
}

proof fn lemma_inside(a: Seq<char>, needle: Seq<char>, b: Seq<char>, c: Seq<char>)
    ensures
        has_text(a + needle + b + c, needle),
{
    parts_are_found(a, needle, b + c);
    assert(a + needle + (b + c) =~= a + needle + b + c);
}

/// A report on a secret names the secret or the file, and a missing one the extension that
/// needs it.
pub proof fn secret_reports_name_the_secret(extension: Seq<char>, secret: Seq<char>, path: Seq<char>, error: Seq<char>)
    ensures
        has_text(secret_trouble_text(SecretTrouble::MissingRequired { extension, secret }), extension),
        begins(
            secret_trouble_text(SecretTrouble::MissingRequired { extension, secret }),
            "required secret `"@ + secret + "`"@,
        ) || has_text(secret_trouble_text(SecretTrouble::MissingRequired { extension, secret }), secret),
        has_text(secret_trouble_text(SecretTrouble::EnvCollision { name: secret }), secret),
        has_text(secret_trouble_text(SecretTrouble::InvalidUtf8 { path }), path),
        ends_in(secret_trouble_text(SecretTrouble::Io { path, error }), error),
        has_text(secret_trouble_text(SecretTrouble::Io { path, error }), path),
        begins(
            secret_skip_message(extension, SecretTrouble::EnvCollision { name: secret }),
            "optional extension "@ + extension + " skipped: "@,
        ),
{
    let missing = secret_trouble_text(SecretTrouble::MissingRequired { extension, secret });
    let behind = "` is missing; create <state_dir>/secrets/"@ + crate::text::ascii_lower(secret)
        + ".yaml or set TAU_SECRET_"@ + crate::text::ascii_upper(secret);
    parts_are_found("required secret `"@ + secret + "` for extension `"@, extension, behind);
    assert("required secret `"@ + secret + "` for extension `"@ + extension + behind =~= missing);
    let rest = "` for extension `"@ + extension + behind;
    parts_are_found("required secret `"@, secret, rest);
    assert("required secret `"@ + secret + rest =~= missing);
    parts_are_found("multiple TAU_SECRET_* environment variables normalize to secret `"@, secret, "`"@);
    parts_are_found("secret file "@, path, " is not valid UTF-8"@);
    parts_are_found("failed to read secret file "@ + path + ": "@, error, Seq::empty());
    lemma_inside("failed to read secret file "@, path, ": "@, error);
    let collision = secret_trouble_text(SecretTrouble::EnvCollision { name: secret });
    let front = "optional extension "@ + extension + " skipped: "@;
    let end = collision + "; check `extensions."@ + extension + ".secrets` in harness.yaml"@;
    parts_are_found(Seq::empty(), front, end);
    assert(front + end =~= secret_skip_message(extension, SecretTrouble::EnvCollision { name: secret }));
}

/// A report on an extension that cannot start names it.
pub proof fn extension_reports_name_the_extension(name: Seq<char>)
    ensures
        has_text(unresolved_text(Unresolved::UnknownCliOverride(name)), name),
        has_text(unresolved_text(Unresolved::EmptyCommand(name)), name),
{
    parts_are_found("unknown extension in CLI override: `"@, name, "`"@);
    let front = "required extension "@ + crate::text::debug_quoted(name)
        + " resolved to an empty command; set `extensions."@;
    parts_are_found(front, name, ".command` or disable the extension"@);
}

/// The way of signing in that is written down for a new provider is the one by which its
/// kind is known again.
pub proof fn new_providers_are_known_again(kind: ProviderKind, anthropic: Seq<Seq<char>>)
    requires
        kind != ProviderKind::Anthropic,
    ensures
        json_field(entry_json(kind, anthropic), "auth"@) matches Some(Json::Text(auth)) && kind_of_auth(auth) == Some(kind)
            && (is_login(auth) <==> kind == ProviderKind::OpenaiCodex || kind == ProviderKind::GithubCopilot),
{
    reveal_strlit("auth");
    reveal_strlit("baseUrl");
    reveal_strlit("none");
    reveal_strlit("api-key");
    reveal_strlit("openai-codex");
    reveal_strlit("github-copilot");
    assert("auth"@.len() == 4 && "baseUrl"@.len() == 7 && "none"@.len() == 4 && "api-key"@.len() == 7);
    assert("openai-codex"@.len() == 12 && "github-copilot"@.len() == 14);
    let fields = entry_json(kind, anthropic)->Object_0;
    if kind == ProviderKind::Ollama {
        lemma_found(fields, "auth"@, Json::Null, 1);
    } else {
        lemma_found(fields, "auth"@, Json::Null, 0);
    }
}

/// Only a provider with a login of its own is logged in to; one that is not there is
/// reported.
pub proof fn logins_are_for_login_providers(settings: Settings, name: Seq<char>, r: Result<LoginPlan, String>)
    requires
        login_comes_to(Some(settings), name, r),
    ensures
        settings.auth == Some("openai-codex"@) ==> r == Ok::<LoginPlan, String>(
            LoginPlan::Login(ProviderKind::OpenaiCodex),
        ),
        settings.auth == Some("github-copilot"@) ==> r == Ok::<LoginPlan, String>(
            LoginPlan::Login(ProviderKind::GithubCopilot),
        ),
        settings.auth == Some("api-key"@) || settings.auth == Some("none"@) || settings.auth is None ==> r matches Ok(
            LoginPlan::NotOauth(_),
        ),
{
    reveal_strlit("none");
    reveal_strlit("api-key");
    reveal_strlit("openai-codex");
    reveal_strlit("github-copilot");
    assert("none"@.len() == 4 && "api-key"@.len() == 7);
    assert("openai-codex"@.len() == 12 && "github-copilot"@.len() == 14);
}

/// A row of the list of providers tells the provider's name, interface, state and number of
/// models.
pub proof fn rows_tell_their_provider(row: ProviderRow, name: Seq<char>, settings: Settings, now_ms: u64)
    requires
        shows(row, name, Some(settings), None, now_ms),
    ensures
        row.name@ == name,
        settings.api matches Some(api) ==> row.api@ == api,
        row.model_count == settings.models.len(),
        settings.auth == Some("github-copilot"@) ==> row.auth_status@ == "not logged in"@,
        settings.auth is None && settings.api_key is Some ==> row.auth_status@ == "api-key"@,
{
    reveal_strlit("api-key");
    reveal_strlit("openai-codex");
    reveal_strlit("github-copilot");
    assert("api-key"@.len() == 7 && "openai-codex"@.len() == 12 && "github-copilot"@.len() == 14);
}

/// A file is replaced by way of another in the same directory.
pub proof fn files_are_replaced_in_their_directory(dir: Seq<char>, name: Seq<char>, suffix: u64)
    requires
        is_component(name),
        dir.len() > 0,
        dir.last() != '/',
    ensures
        written_place(path_join(dir, name)) == (settled(dir), name),
        begins(temporary_path(path_join(dir, name), suffix), settled(dir)),
        has_text(temporary_path(path_join(dir, name), suffix), name),
{
    crate::data_laws::files_are_named_by_their_last_component(dir, name);
    let digits = crate::minting::hex_digits(suffix as nat, 16);
    let temp = "."@ + name + "."@ + digits + ".tmp"@;
    reveal_strlit(".");
    assert(temp[0] == '.');
    crate::data_laws::paths_lie_in_their_directory(settled(dir), temp);
    let path = temporary_path(path_join(dir, name), suffix);
    assert(path == path_join(settled(dir), temp));
    let before = path.take(path.len() - temp.len()) + "."@;
    let after = "."@ + digits + ".tmp"@;
    assert(path.skip(path.len() - temp.len()) =~= temp);
    parts_are_found(before, name, after);
    assert(before + name + after =~= path) by {
        assert(path =~= path.take(path.len() - temp.len()) + temp);
    }
}

/// What is kept for a provider lies in the directory for state, and else in that for
/// data.
pub proof fn stores_lie_in_the_directory_for_state(state: Seq<char>, data: Option<Seq<char>>, local: Seq<char>, auth: Auth)
    ensures
        store_dir(Some(state), data) == Some(path_join(state, "tau"@)),
        store_dir(None, Some(local)) == Some(path_join(local, "tau"@)),
        store_dir(None, None) is None,
        auth.path() != auth.lock_path(),
{
    reveal_strlit(".json");
    reveal_strlit(".lock");
    let j = auth.name + ".json"@;
    let l = auth.name + ".lock"@;
    assert(".json"@.len() == 5 && ".lock"@.len() == 5 && ".json"@[1] == 'j' && ".lock"@[1] == 'l');
    let dir = path_join(auth.dir, "auth.d"@);
    assert(j.last() == 'n' && l.last() == 'k') by {
        assert(".json"@[4] == 'n' && ".lock"@[4] == 'k');
    }
    assert(auth.path().last() == j.last());
    assert(auth.lock_path().last() == l.last());
}

/// A skill lies in a file named for it in a directory of its own, or in a file of the
/// root that has no skill of its own; hidden directories hold none.
pub proof fn skills_lie_in_their_files(files: Seq<Seq<char>>, path: Seq<char>, i: int, j: int)
    ensures
        is_skill_file(files, path) && 0 <= i < path_parts(path).len() ==> !begins(path_parts(path)[i], "."@)
            && path_parts(path)[i] != "node_modules"@,
        is_skill_file(files, path) ==> path_parts(path).len() > 0 && (path_parts(path).last() == "SKILL.md"@ || (
        path_parts(path).len() == 1 && ends_in(path_parts(path)[0], ".md"@))),
        is_skill_file(files, path) && path_parts(path).last() == "SKILL.md"@ && 0 <= j < files.len() ==> !lies_below(
            path_parts(path),
            path_parts(files[j]),
        ),
        is_skill_file(files, path) && path_parts(path).last() != "SKILL.md"@ && 0 <= j < files.len() ==> path_parts(files[j])
            != seq!["SKILL.md"@],
{
    let parts = path_parts(path);
    if is_skill_file(files, path) && 0 <= i < parts.len() {
        assert(!(begins(parts[i], "."@) || parts[i] == "node_modules"@));
    }
    if is_skill_file(files, path) && 0 <= j < files.len() {
        if parts.last() == "SKILL.md"@ {
            assert(!shadowed(files, parts));
        } else {
            assert(!has_own_skill(files));
        }
    }
}

/// The files of skills that are found are those below the root, in their order.
pub proof fn skill_files_are_found_in_order(root: Seq<char>, files: Seq<Seq<char>>, n: nat)
    requires
        0 < n <= files.len(),
    ensures
        is_skill_file(files, files[n - 1]) ==> skill_files(root, files, n) == skill_files(root, files, (n - 1) as nat).push(
            path_join(root, files[n - 1]),
        ),
        !is_skill_file(files, files[n - 1]) ==> skill_files(root, files, n) == skill_files(root, files, (n - 1) as nat),
{
}

/// A skill whose name differs from that of its directory, or is not plain, is loaded with
/// a warning.
pub proof fn odd_names_are_warned_of(name: Seq<char>, path: Seq<char>)
    ensures
        !crate::skills::plain_name(name) ==> name_remarks(name, path).len() > 0 && name_remarks(name, path)[0].kind
            == DiagnosticKind::Warning,
        file_name(path) == Some("SKILL.md"@) && name != directory_name(path) ==> name_remarks(name, path).len() > 0
            && name_remarks(name, path).last().kind == DiagnosticKind::Warning && name_remarks(name, path).last().path
            == path,
        crate::skills::plain_name(name) && name == directory_name(path) ==> name_remarks(name, path).len() == 0,
{
}

/// A skill without a name of its own is named for its directory.
pub proof fn skills_are_named_for_their_directory(content: Seq<char>, dir: Seq<char>, name: Seq<char>, file: Seq<char>)
    requires
        is_component(name),
        is_component(file),
        dir.len() > 0,
        dir.last() != '/',
        settled(path_join(dir, name)) == path_join(dir, name),
    ensures
        directory_name(path_join(path_join(dir, name), file)) == name,
{
    let inner = path_join(dir, name);
    reveal_strlit(".");
    crate::data_laws::files_are_named_by_their_last_component(dir, name);
    assert(inner.last() != '/') by {
        assert(inner.last() == name.last());
        assert(name.contains(name.last()));
    }
    crate::data_laws::files_are_named_by_their_last_component(inner, file);
}

/// A search is shown by its terms, whether it found anything, and how much.
pub proof fn searches_are_shown_by_their_terms(terms: Seq<Seq<char>>, hits: Seq<Hit>)
    requires
        hits.len() <= u64::MAX,
    ensures
        search_reply(terms, false, hits).display.args == joined(terms, " "@) + ""@,
        search_reply(terms, true, hits).display.args == joined(terms, " "@) + " [content]"@,
        search_reply(terms, true, hits).display.stats.matches == Some(hits.len() as u64),
        hits.len() == 0 ==> search_reply(terms, true, hits).display.status_text == "ok: no matches"@,
        hits.len() > 0 ==> search_reply(terms, true, hits).display.status_text == "ok"@,
{
}

/// Files are searched only where the call asks for it.
pub proof fn files_are_searched_on_request(arguments: crate::cbor::Cbor)
    ensures
        wants_content(arguments) <==> crate::cbor::dict_bool(arguments, "search_content"@) == Some(true),
{
}

} // verus!
