//! What holds of the providers that a user sets up and of what is shown of sessions.
use vstd::prelude::*;
use crate::cbor::{cbor_text, Cbor};
use crate::chat_completions::run_together;
use crate::context::{Item, ResultView, Status};
use crate::inspect::{
    call_shown, entry_shown, first_spoken, is_shown_key, item_shown, items_shown, last_response_shown,
    response_shown, result_shown, session_shown, shortened, EntryView,
};
use crate::json::{json_field, Json};
use crate::paths::{is_absolute, parent_path, path_join};
use crate::provider_cli::{
    asks_for, auth_of, auth_state, credentials_for, is_login, logs_in, removal_report, second, with_provider,
    written_path, Credentials, Kept, ProviderKind, Settings, SetupAnswer, Subcommand,
};
use crate::text::{begins, decimal, ends_in};
use crate::text_laws::{one_more_text_is_joined, parts_are_found};

verus! {

/// The first word decides the command, and the second is the provider that it is about.
pub proof fn words_ask_for_commands(args: Seq<String>, command: Subcommand)
    requires
        args.len() > 0,
        asks_for(args, command),
    ensures
        args[0]@ == "add"@ ==> command is Add,
        args[0]@ == "list"@ ==> command is List,
        command matches Subcommand::Remove(Some(name)) ==> args.len() > 1 && name@ == args[1]@ && args[0]@ == "remove"@,
        command matches Subcommand::Login(Some(name)) ==> args.len() > 1 && name@ == args[1]@ && args[0]@ == "login"@,
        command matches Subcommand::ListModels(Some(name)) ==> args.len() > 1 && name@ == args[1]@ && args[0]@
            == "list-models"@,
        args[0]@ == "remove"@ ==> command is Remove,
        args[0]@ == "login"@ ==> command is Login,
        args[0]@ == "list-models"@ ==> command is ListModels,
        args[0]@ == "help"@ ==> command is Help,
{
    reveal_strlit("add");
    reveal_strlit("remove");
    reveal_strlit("list");
    reveal_strlit("login");
    reveal_strlit("list-models");
    reveal_strlit("help");
    reveal_strlit("--help");
    reveal_strlit("-h");
    assert("add"@.len() == 3 && "remove"@.len() == 6 && "list"@.len() == 4 && "login"@.len() == 5);
    assert("list-models"@.len() == 11 && "help"@.len() == 4 && "--help"@.len() == 6 && "-h"@.len() == 2);
    assert("list"@[0] == 'l' && "help"@[0] == 'h' && "remove"@[0] == 'r' && "--help"@[0] == '-');
}

/// Only a provider with a login of its own has a user logged in, until the login expires.
pub proof fn logins_last_until_they_expire(auth: Seq<char>, expires_at_ms: u64, now_ms: u64)
    ensures
        now_ms < expires_at_ms ==> auth_state(auth, Some(Kept::LoggedInUntil(expires_at_ms)), now_ms) == "logged in"@,
        now_ms >= expires_at_ms ==> auth_state(auth, Some(Kept::LoggedInUntil(expires_at_ms)), now_ms) == "expired"@,
        is_login(auth) ==> auth_state(auth, None, now_ms) == "not logged in"@,
        is_login(auth) ==> auth_state(auth, Some(Kept::Plain), now_ms) == "logged in"@,
        !is_login(auth) ==> auth_state(auth, None, now_ms) == auth,
        !is_login(auth) ==> auth_state(auth, Some(Kept::Plain), now_ms) == auth,
{
}

/// A provider uses what its settings say, else a key where it has one.
pub proof fn settings_say_how_to_sign_in(settings: Settings)
    ensures
        settings.auth matches Some(auth) ==> auth_of(Some(settings)) == auth,
        settings.auth is None && settings.api_key is Some ==> auth_of(Some(settings)) == "api-key"@,
        settings.auth is None && settings.api_key is None ==> auth_of(Some(settings)) == "none"@,
        auth_of(None) == "none"@,
        logs_in(settings) <==> settings.auth == Some("openai-codex"@) || settings.auth == Some("github-copilot"@),
{
}

/// What the user answers is what is kept for the provider, under the kind that is set up.
pub proof fn answers_become_credentials(kind: ProviderKind, answer: SetupAnswer)
    ensures
        answer matches SetupAnswer::ApiKey(key) ==> credentials_for(kind, answer) == (Credentials::ApiKey {
            provider_kind: kind,
            api_key: key,
        }),
        answer matches SetupAnswer::BaseUrl(url) ==> credentials_for(kind, answer) == (Credentials::Unkeyed {
            provider_kind: kind,
            base_url: Some(url),
        }),
        answer matches SetupAnswer::Tokens { access_token, refresh_token, expires_at_ms, account_id } ==> credentials_for(
            kind,
            answer,
        ) == (Credentials::Oauth { provider_kind: kind, access_token, refresh_token, expires_at_ms, account_id }),
{
}

/// A provider is written into a file whose root and whose providers are objects, and into
/// no other.
pub proof fn providers_are_written_into_objects(root: Json, name: Seq<char>, entry: Json)
    ensures
        with_provider(root, name, entry) is Ok <==> root is Object && (json_field(root, "providers"@) matches Some(
            providers,
        ) ==> providers is Object),
        !(root is Object) ==> with_provider(root, name, entry) == Err::<Json, Seq<char>>(
            "models.json5 root is not an object"@,
        ),
{
}

/// A file that is a link is written where the link leads, and any other where it is.
pub proof fn links_are_followed(path: Seq<char>, target: Seq<char>)
    ensures
        written_path(path, None) == path,
        is_absolute(target) ==> written_path(path, Some(target)) == target,
        !is_absolute(target) ==> (parent_path(path) matches Some(parent) ==> written_path(path, Some(target))
            == path_join(parent, target)),
{
}

/// The report on a removal has one line for each place that the provider was removed
/// from, and says so where it was in none.
pub proof fn removals_are_reported(name: Seq<char>, from_store: bool, from_models: bool)
    ensures
        ({
            let report = removal_report(name, from_store, from_models);
            let store = "Removed credentials for '"@ + name + "' from auth.json."@;
            let models = "Removed '"@ + name + "' from models.json5."@;
            &&& from_store ==> report.contains(store)
            &&& from_models ==> report.contains(models)
            &&& from_store && from_models ==> report.len() == 2
            &&& from_store != from_models ==> report.len() == 1
            &&& !from_store && !from_models ==> report == seq!["Provider '"@ + name + "' not found."@]
        }),
{
    let report = removal_report(name, from_store, from_models);
    if from_store || from_models {
        assert(report.contains(report[0]));
    }
    if from_store && from_models {
        assert(report.contains(report[1]));
    }
}

/// What is shown of a message is its text; of several the first that has any.
pub proof fn the_first_text_is_shown(items: Seq<Item>, item: Item)
    ensures
        item matches Item::Message { content, .. } ==> run_together(content).len() > 0 ==> first_spoken(
            seq![item] + items,
        ) == Some(run_together(content)),
        item matches Item::Message { content, .. } ==> run_together(content).len() == 0 ==> first_spoken(
            seq![item] + items,
        ) == first_spoken(items),
        !(item is Message) ==> first_spoken(seq![item] + items) == first_spoken(items),
        first_spoken(Seq::empty()) is None,
{
    assert((seq![item] + items).drop_first() =~= items);
    assert((seq![item] + items)[0] == item);
}

/// A call is shown by the name of its tool and by the first telling argument.
pub proof fn calls_are_shown_by_name_and_argument(
    name: Seq<char>,
    entries: Seq<(Cbor, Cbor)>,
    key: Seq<char>,
    value: Seq<char>,
)
    requires
        key == "path"@ || key == "pattern"@ || key == "command"@ || key == "task_name"@,
    ensures
        value.len() > 0 ==> call_shown(name, Cbor::Dict(seq![(Cbor::Text(key), Cbor::Text(value))] + entries))
            == "tool.call "@ + name + " "@ + value,
        value.len() == 0 ==> call_shown(name, Cbor::Dict(seq![(Cbor::Text(key), Cbor::Text(value))] + entries))
            == "tool.call "@ + name,
        call_shown(name, Cbor::Dict(Seq::empty())) == "tool.call "@ + name,
{
    let all = seq![(Cbor::Text(key), Cbor::Text(value))] + entries;
    assert(all[0] == (Cbor::Text(key), Cbor::Text(value)));
}

/// Any other argument is passed over.
pub proof fn other_arguments_are_passed_over(name: Seq<char>, entries: Seq<(Cbor, Cbor)>, entry: (Cbor, Cbor))
    requires
        !(entry.0 matches Cbor::Text(key) && is_shown_key(key)) || !(entry.1 is Text),
    ensures
        call_shown(name, Cbor::Dict(seq![entry] + entries)) == call_shown(name, Cbor::Dict(entries)),
{
    assert((seq![entry] + entries).drop_first() =~= entries);
    assert((seq![entry] + entries)[0] == entry);
}

/// What an answer shows grows by each message and each call, in their order, with a space
/// between them.
pub proof fn answers_are_shown_piece_by_piece(items: Seq<Item>, item: Item)
    ensures
        items_shown(items.push(item), items.len() + 1) == (match item_shown(item) {
            Some(text) => items_shown(items, items.len()).push(text),
            None => items_shown(items, items.len()),
        }),
        response_shown(items) matches Some(before) ==> item_shown(item) matches Some(text) ==> response_shown(
            items.push(item),
        ) == Some(before + " "@ + text),
        response_shown(items) is None ==> response_shown(items.push(item)) == item_shown(item),
        item_shown(item) is None ==> response_shown(items.push(item)) == response_shown(items),
{
    let more = items.push(item);
    lemma_items_alike(items, more, items.len());
    let before = items_shown(items, items.len());
    assert(more[items.len() as int] == item);
    if let Some(text) = item_shown(item) {
        one_more_text_is_joined(before, text, " "@);
        if before.len() == 0 {
            assert(before.push(text) =~= seq![text]);
        }
    }
}

proof fn lemma_items_alike(items: Seq<Item>, more: Seq<Item>, n: nat)
    requires
        n <= items.len() <= more.len(),
        forall|i: int| 0 <= i < n ==> #[trigger] items[i] == more[i],
    ensures
        items_shown(items, n) == items_shown(more, n),
    decreases n,
{
    if n > 0 {
        lemma_items_alike(items, more, (n - 1) as nat);
        assert(items[n - 1] == more[n - 1]);
    }
}

/// A result is shown under the id of its call: what came out of it, shortened, or why
/// there is nothing.
pub proof fn results_are_shown_under_their_call(item: ResultView)
    ensures
        item.status is Success ==> begins(result_shown(item), "tool.result "@ + item.call_id),
        item.status is Success && cbor_text(item.output.raw).len() <= 80 ==> ends_in(
            result_shown(item),
            cbor_text(item.output.raw),
        ),
        item.status matches Status::Error(message) ==> begins(result_shown(item), "tool.error "@ + item.call_id) && ends_in(
            result_shown(item),
            message,
        ),
        item.status matches Status::Cancelled(reason) ==> begins(result_shown(item), "tool.cancelled "@ + item.call_id)
            && ends_in(result_shown(item), reason),
{
    let (word, said) = match item.status {
        Status::Success => ("tool.result "@, shortened(cbor_text(item.output.raw), 80)),
        Status::Error(message) => ("tool.error "@, message),
        Status::Cancelled(reason) => ("tool.cancelled "@, reason),
    };
    parts_are_found(word + item.call_id + " -> "@, said, Seq::empty());
    parts_are_found(Seq::empty(), word + item.call_id, " -> "@ + said);
    assert(word + item.call_id + (" -> "@ + said) =~= result_shown(item));
}

/// A shortened text is its beginning and three dots; a short one stays.
pub proof fn long_texts_are_shortened(text: Seq<char>, n: nat)
    ensures
        text.len() <= n ==> shortened(text, n as int) == text,
        text.len() > n ==> shortened(text, n as int) == text.take(n as int) + "..."@,
{
}

/// An entry is shown by who it is of and by what was said.
pub proof fn entries_are_shown_by_their_side(items: Seq<Item>, n: nat, result: ResultView)
    ensures
        first_spoken(items) matches Some(text) ==> entry_shown(EntryView::User(items)) == "user: "@ + text,
        response_shown(items) matches Some(text) ==> entry_shown(EntryView::Assistant(items)) == "agent: "@ + text,
        response_shown(items) is None ==> entry_shown(EntryView::Assistant(items)) == "agent: (no text)"@,
        entry_shown(EntryView::Compacted(n)) == "compacted: "@ + decimal(n) + " item(s)"@,
        entry_shown(EntryView::Results(seq![result])) == result_shown(result),
{
    reveal_strlit("agent: ");
    reveal_strlit("(no text)");
    reveal_strlit("agent: (no text)");
    assert("agent: "@ + "(no text)"@ =~= "agent: (no text)"@);
    let one = seq![result];
    assert(Seq::new(one.len(), |i: int| result_shown(one[i])) =~= seq![result_shown(result)]);
    one_more_text_is_joined(Seq::empty(), result_shown(result), "; "@);
}

/// The last answer that shows anything is the one that is shown of a session.
pub proof fn the_last_answer_is_shown(branch: Seq<EntryView>, items: Seq<Item>, entry: EntryView)
    ensures
        response_shown(items) is Some ==> last_response_shown(branch.push(EntryView::Assistant(items))) == response_shown(
            items,
        ),
        response_shown(items) is None ==> last_response_shown(branch.push(EntryView::Assistant(items)))
            == last_response_shown(branch),
        !(entry is Assistant) ==> last_response_shown(branch.push(entry)) == last_response_shown(branch),
        last_response_shown(Seq::empty()) is None,
{
    assert(branch.push(EntryView::Assistant(items)).drop_last() =~= branch);
    assert(branch.push(entry).drop_last() =~= branch);
}

/// A session is shown entry by entry, numbered from one; one that is not there is said to
/// be missing.
pub proof fn sessions_are_shown_in_order(id: Seq<char>, branch: Seq<EntryView>, i: int)
    ensures
        session_shown(id, Some(branch)).len() == branch.len(),
        0 <= i < branch.len() ==> session_shown(id, Some(branch))[i] == decimal((i + 1) as nat) + ": "@ + entry_shown(
            branch[i],
        ),
        session_shown(id, None) == seq!["session "@ + id + " not found"@],
{
}

} // verus!
