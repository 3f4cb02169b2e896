//! What holds of resolving extensions: what the user sets counts, what the user does
//! not set stays, and what is switched on and has something to run starts.
use vstd::prelude::*;
use vstd::string::*;
use crate::assoc::{
    keys_differ, lemma_found, lemma_lookup_stands, lemma_missing, lookup, lookup_after_stored,
};
use crate::json::Json;
use crate::order::{sorted_positions, sorted_positions_in_order, text_less_irreflexive};
use crate::text::{begins, has_text, stands_at};
use crate::settings::{
    all_stored, keys_of, overlaid, overlaid_all, resolved, starting, switched_all, with_users, Merged, Overlay,
    Spawn, Switch, Unresolved,
};

verus! {

// ---------------------------------------------------------------------------
// One extension
// ---------------------------------------------------------------------------

/// What the user sets about an extension counts, and what the user leaves open stays.
/// A command of the user's own takes the suffix away with the command before it.
pub proof fn what_the_user_sets_counts(e: Merged, u: Overlay)
    ensures
        u.prefix matches Some(prefix) ==> overlaid(e, u).prefix == prefix,
        u.prefix is None ==> overlaid(e, u).prefix == e.prefix,
        u.command matches Some(command) ==> overlaid(e, u).command == command,
        u.command is None ==> overlaid(e, u).command == e.command,
        u.suffix matches Some(suffix) ==> overlaid(e, u).suffix == suffix,
        u.suffix is None && u.command is None ==> overlaid(e, u).suffix == e.suffix,
        u.suffix is None && u.command is Some ==> overlaid(e, u).suffix.len() == 0,
        u.enable matches Some(enable) ==> overlaid(e, u).enable == enable,
        u.enable is None ==> overlaid(e, u).enable == e.enable,
        u.require matches Some(require) ==> overlaid(e, u).require == require,
        u.require is None ==> overlaid(e, u).require == e.require,
        u.role is Some ==> overlaid(e, u).role == u.role,
        u.role is None ==> overlaid(e, u).role == e.role,
        u.cwd matches Some(cwd) ==> overlaid(e, u).cwd == cwd,
        u.cwd is None ==> overlaid(e, u).cwd == e.cwd,
        u.config is None ==> overlaid(e, u).config == e.config,
        u.secrets is None ==> overlaid(e, u).secrets == e.secrets,
{
}

proof fn lemma_all_stored<V>(list: Seq<(Seq<char>, V)>, more: Seq<(Seq<char>, V)>, key: Seq<char>)
    requires
        keys_differ(more),
    ensures
        lookup(all_stored(list, more), key) == (if lookup(more, key) is Some {
            lookup(more, key)
        } else {
            lookup(list, key)
        }),
    decreases more.len(),
{
    lemma_lookup_stands(more, key);
    if more.len() == 0 {
        reveal_with_fuel(lookup, 1);
    } else {
        let init = more.drop_last();
        assert(keys_differ(init)) by {
            assert forall|i: int, j: int| 0 <= i < j < init.len() implies (#[trigger] init[i]).0 != (#[trigger] init[j]).0 by {
                assert(more[i].0 != more[j].0);
            }
        }
        lemma_all_stored(list, init, key);
        let n = more.len() - 1;
        lookup_after_stored(all_stored(list, init), more[n].0, more[n].1, key);
        lemma_lookup_stands(init, key);
        if more[n].0 == key {
            assert forall|k: int| 0 <= k < n implies (#[trigger] more[k]).0 != key by {
                assert(more[k].0 != more[n].0);
            }
            lemma_found(more, key, more[n].1, n);
        } else if let Some(value) = lookup(init, key) {
            let i = choose|i: int| 0 <= i < init.len() && (#[trigger] init[i]).0 == key && init[i].1 == value;
            assert forall|k: int| 0 <= k < i implies (#[trigger] more[k]).0 != key by {
                assert(more[k].0 != more[i].0);
            }
            assert(more[i] == init[i]);
            lemma_found(more, key, value, i);
        } else {
            assert forall|k: int| 0 <= k < more.len() implies (#[trigger] more[k]).0 != key by {
                if k < n {
                    assert(init[k].0 != key);
                }
            }
            lemma_missing(more, key, more[n].1);
        }
    }
}

/// The user's configuration is laid over the one before it key by key: a key that the
/// user sets has the user's value, and any other key keeps its own. A configuration
/// that is no object replaces the one before it as a whole, and null leaves it.
pub proof fn configurations_are_laid_over_each_other(e: Merged, u: Overlay, key: Seq<char>)
    requires
        u.config matches Some(Json::Object(over)) ==> keys_differ(over),
    ensures
        match (e.config, u.config) {
            (Json::Object(base), Some(Json::Object(over))) => overlaid(e, u).config matches Json::Object(both) && lookup(
                both,
                key,
            ) == (if lookup(over, key) is Some { lookup(over, key) } else { lookup(base, key) }),
            (_, Some(Json::Null)) => overlaid(e, u).config == e.config,
            (_, Some(over)) => overlaid(e, u).config == over,
            (_, None) => overlaid(e, u).config == e.config,
        },
{
    match (e.config, u.config) {
        (Json::Object(base), Some(Json::Object(over))) => {
            lemma_all_stored(base, over, key);
        },
        _ => {},
    }
}

/// Secrets that the user declares are declared beside those before them, and a secret
/// that both declare is declared as the user does.
pub proof fn secrets_are_declared_together(e: Merged, u: Overlay, key: Seq<char>)
    requires
        u.secrets matches Some(more) && keys_differ(more),
    ensures
        lookup(overlaid(e, u).secrets, key) == (if lookup(u.secrets->0, key) is Some {
            lookup(u.secrets->0, key)
        } else {
            lookup(e.secrets, key)
        }),
{
    lemma_all_stored(e.secrets, u.secrets->0, key);
}

// ---------------------------------------------------------------------------
// All extensions
// ---------------------------------------------------------------------------

/// Whether positions name entries, and no entry twice.
spec fn distinct_positions(at: Seq<int>, n: int) -> bool {
    &&& forall|k: int| 0 <= k < at.len() ==> 0 <= #[trigger] at[k] < n
    &&& forall|a: int, b: int| 0 <= a < b < at.len() ==> #[trigger] at[a] != #[trigger] at[b]
}

proof fn lemma_sorted_positions(keys: Seq<Seq<char>>)
    ensures
        distinct_positions(sorted_positions(keys), keys.len() as int),
        sorted_positions(keys).len() == keys.len(),
{
    sorted_positions_in_order(keys);
    let at = sorted_positions(keys);
    assert forall|a: int, b: int| 0 <= a < b < at.len() implies #[trigger] at[a] != #[trigger] at[b] by {
        if at[a] == at[b] {
            text_less_irreflexive(keys[at[a]]);
        }
    }
}

/// An extension that only the user knows.
spec fn newly_set(u: Overlay, e: Merged) -> bool {
    &&& e.prefix == (if u.prefix is Some { u.prefix->0 } else { Seq::empty() })
    &&& e.command == (if u.command is Some { u.command->0 } else { Seq::empty() })
    &&& e.suffix == (if u.suffix is Some { u.suffix->0 } else { Seq::empty() })
    &&& e.enable == (if u.enable is Some { u.enable->0 } else { true })
    &&& e.require == (if u.require is Some { u.require->0 } else { true })
    &&& e.role == u.role
    &&& e.cwd == (if u.cwd is Some { u.cwd->0 } else { None })
    &&& e.config == (if u.config is Some { u.config->0 } else { Json::Object(Seq::empty()) })
    &&& e.secrets == (if u.secrets is Some { u.secrets->0 } else { Seq::empty() })
}

proof fn lemma_users(
    entries: Seq<(Seq<char>, Merged)>,
    users: Seq<(Seq<char>, Overlay)>,
    at: Seq<int>,
    n: nat,
    i: int,
)
    requires
        keys_differ(users),
        distinct_positions(at, users.len() as int),
        n <= at.len(),
        0 <= i < users.len(),
    ensures
        ({
            let key = users[i].0;
            let after = lookup(with_users(entries, users, at, n), key);
            if exists|p: int| 0 <= p < n && #[trigger] at[p] == i {
                match lookup(entries, key) {
                    Some(e) => after == Some(overlaid(e, users[i].1)),
                    None => after matches Some(e) && newly_set(users[i].1, e),
                }
            } else {
                after == lookup(entries, key)
            }
        }),
    decreases n,
{
    if n > 0 {
        lemma_users(entries, users, at, (n - 1) as nat, i);
        let before = with_users(entries, users, at, (n - 1) as nat);
        let k = at[n - 1];
        let (name, u) = users[k];
        let value = lookup(with_users(entries, users, at, n), name)->Some_0;
        let placed = match lookup(before, name) {
            Some(e) => overlaid(e, u),
            None => crate::settings::users_own(u),
        };
        lookup_after_stored(before, name, placed, users[i].0);
        lookup_after_stored(before, name, placed, name);
        if k == i {
            assert(at[n - 1] == i);
            assert forall|p: int| 0 <= p < n - 1 implies #[trigger] at[p] != i by {
                assert(at[p] != at[n - 1]);
            }
            assert(exists|p: int| 0 <= p < n && #[trigger] at[p] == i);
        } else {
            assert(users[k].0 != users[i].0);
            if exists|p: int| 0 <= p < n - 1 && #[trigger] at[p] == i {
                let p = choose|p: int| 0 <= p < n - 1 && #[trigger] at[p] == i;
                assert(0 <= p < n && at[p] == i);
            }
        }
    }
}

proof fn lemma_every_user(entries: Seq<(Seq<char>, Merged)>, users: Seq<(Seq<char>, Overlay)>, i: int)
    requires
        keys_differ(users),
        0 <= i < users.len(),
    ensures
        match lookup(entries, users[i].0) {
            Some(e) => lookup(overlaid_all(entries, users), users[i].0) == Some(overlaid(e, users[i].1)),
            None => lookup(overlaid_all(entries, users), users[i].0) matches Some(e) && newly_set(users[i].1, e),
        },
{
    let keys = keys_of(users);
    sorted_positions_in_order(keys);
    lemma_sorted_positions(keys);
    let at = sorted_positions(keys);
    assert(at.contains(i));
    let p = choose|p: int| 0 <= p < at.len() && at[p] == i;
    assert(0 <= p < users.len() && at[p] == i);
    lemma_users(entries, users, at, users.len(), i);
}

proof fn lemma_other_keys(
    entries: Seq<(Seq<char>, Merged)>,
    users: Seq<(Seq<char>, Overlay)>,
    at: Seq<int>,
    n: nat,
    key: Seq<char>,
)
    requires
        distinct_positions(at, users.len() as int),
        n <= at.len(),
        forall|i: int| 0 <= i < users.len() ==> (#[trigger] users[i]).0 != key,
    ensures
        lookup(with_users(entries, users, at, n), key) == lookup(entries, key),
    decreases n,
{
    if n > 0 {
        lemma_other_keys(entries, users, at, (n - 1) as nat, key);
        let before = with_users(entries, users, at, (n - 1) as nat);
        let (name, u) = users[at[n - 1]];
        let placed = match lookup(before, name) {
            Some(e) => overlaid(e, u),
            None => crate::settings::users_own(u),
        };
        assert(users[at[n - 1]].0 != key);
        lookup_after_stored(before, name, placed, key);
    }
}

/// Whether an extension starts under this name, with the command line that stands in
/// its prefix, its command and its suffix, and with all else as it is set.
pub open spec fn starts_as(spawn: Spawn, name: Seq<char>, e: Merged) -> bool {
    &&& spawn.name == name
    &&& seq![spawn.command] + spawn.args == e.prefix + e.command + e.suffix
    &&& spawn.role == e.role
    &&& spawn.require == e.require
    &&& spawn.cwd == e.cwd
    &&& spawn.config == e.config
    &&& spawn.secrets == e.secrets
}

proof fn lemma_spawn(name: Seq<char>, e: Merged)
    requires
        (e.prefix + e.command + e.suffix).len() > 0,
    ensures
        starts_as(crate::settings::spawn_of(name, e), name, e),
{
    let line = e.prefix + e.command + e.suffix;
    let spawn = crate::settings::spawn_of(name, e);
    assert(seq![spawn.command] + spawn.args =~= line);
}

/// Every extension that is switched on and has something to run starts as it is set,
/// unless an extension that is needed has nothing to run.
pub proof fn what_is_on_starts(entries: Seq<(Seq<char>, Merged)>, n: nat, i: int)
    requires
        0 <= i < n <= entries.len(),
        starting(entries, n) is Ok,
        entries[i].1.enable,
        (entries[i].1.prefix + entries[i].1.command + entries[i].1.suffix).len() > 0,
    ensures
        exists|j: int|
            0 <= j < starting(entries, n)->Ok_0.0.len() && starts_as(
                #[trigger] starting(entries, n)->Ok_0.0[j],
                entries[i].0,
                entries[i].1,
            ),
    decreases n,
{
    let spawns = starting(entries, n)->Ok_0.0;
    let before = starting(entries, (n - 1) as nat)->Ok_0.0;
    if i == n - 1 {
        lemma_spawn(entries[i].0, entries[i].1);
        assert(starts_as(spawns[before.len() as int], entries[i].0, entries[i].1));
    } else {
        what_is_on_starts(entries, (n - 1) as nat, i);
        let j = choose|j: int|
            0 <= j < before.len() && starts_as(#[trigger] before[j], entries[i].0, entries[i].1);
        assert(spawns[j] == before[j]);
    }
}

/// Nothing starts but what is switched on, and it starts as it is set.
pub proof fn what_starts_is_on(entries: Seq<(Seq<char>, Merged)>, n: nat, j: int)
    requires
        n <= entries.len(),
        starting(entries, n) is Ok,
        0 <= j < starting(entries, n)->Ok_0.0.len(),
    ensures
        exists|i: int|
            0 <= i < n && (#[trigger] entries[i]).1.enable && starts_as(
                starting(entries, n)->Ok_0.0[j],
                entries[i].0,
                entries[i].1,
            ),
    decreases n,
{
    let spawns = starting(entries, n)->Ok_0.0;
    let before = starting(entries, (n - 1) as nat)->Ok_0.0;
    if j < before.len() {
        what_starts_is_on(entries, (n - 1) as nat, j);
        assert(spawns[j] == before[j]);
        let i = choose|i: int|
            0 <= i < n - 1 && (#[trigger] entries[i]).1.enable && starts_as(before[j], entries[i].0, entries[i].1);
        assert(entries[i].1.enable && starts_as(spawns[j], entries[i].0, entries[i].1));
    } else {
        lemma_spawn(entries[n - 1].0, entries[n - 1].1);
        assert(entries[n - 1].1.enable && starts_as(spawns[j], entries[n - 1].0, entries[n - 1].1));
    }
}

/// Resolving fails for want of a command only where an extension that is on and needed
/// has nothing to run, and names it.
pub proof fn only_needed_extensions_without_a_command_fail(entries: Seq<(Seq<char>, Merged)>, n: nat)
    requires
        n <= entries.len(),
    ensures
        match starting(entries, n) {
            Err(error) => exists|i: int|
                0 <= i < n && (#[trigger] entries[i]).1.enable && entries[i].1.require && (entries[i].1.prefix
                    + entries[i].1.command + entries[i].1.suffix).len() == 0 && error == Unresolved::EmptyCommand(
                    entries[i].0,
                ),
            Ok(_) => forall|i: int|
                0 <= i < n && (#[trigger] entries[i]).1.enable && entries[i].1.require ==> (entries[i].1.prefix
                    + entries[i].1.command + entries[i].1.suffix).len() > 0,
        },
    decreases n,
{
    if n > 0 {
        only_needed_extensions_without_a_command_fail(entries, (n - 1) as nat);
        match starting(entries, (n - 1) as nat) {
            Err(error) => {
                let i = choose|i: int|
                    0 <= i < n - 1 && (#[trigger] entries[i]).1.enable && entries[i].1.require && (entries[i].1.prefix
                        + entries[i].1.command + entries[i].1.suffix).len() == 0 && error == Unresolved::EmptyCommand(
                        entries[i].0,
                    );
                assert(0 <= i < n && entries[i].1.enable);
            },
            Ok(_) => {
                assert(entries[n - 1].1.enable || !entries[n - 1].1.enable);
            },
        }
    }
}

/// An extension of the user's own, one that no built-in has the name of, starts as the
/// user set it up, with the user's command line, configuration and secrets. What the
/// user left open is empty; the extension is on and needed.
pub proof fn extensions_of_the_user_start_as_they_are_set(
    builtins: Seq<(Seq<char>, Merged)>,
    users: Seq<(Seq<char>, Overlay)>,
    i: int,
)
    requires
        keys_differ(users),
        0 <= i < users.len(),
        lookup(builtins, users[i].0) is None,
        resolved(builtins, users, Seq::empty()) is Ok,
        users[i].1.enable != Some(false),
        users[i].1.command matches Some(command) && command.len() > 0,
    ensures
        exists|j: int|
            0 <= j < resolved(builtins, users, Seq::empty())->Ok_0.0.len() && ({
                let spawn = #[trigger] resolved(builtins, users, Seq::empty())->Ok_0.0[j];
                let u = users[i].1;
                &&& spawn.name == users[i].0
                &&& seq![spawn.command] + spawn.args == (if u.prefix is Some { u.prefix->0 } else { Seq::empty() })
                    + u.command->0 + (if u.suffix is Some { u.suffix->0 } else { Seq::empty() })
                &&& spawn.config == (if u.config is Some { u.config->0 } else { Json::Object(Seq::empty()) })
                &&& spawn.secrets == (if u.secrets is Some { u.secrets->0 } else { Seq::empty() })
                &&& spawn.role == u.role
                &&& spawn.require == (if u.require is Some { u.require->0 } else { true })
                &&& spawn.cwd == (if u.cwd is Some { u.cwd->0 } else { None })
            }),
{
    let all = overlaid_all(builtins, users);
    let key = users[i].0;
    lemma_every_user(builtins, users, i);
    lemma_lookup_stands(all, key);
    let e = lookup(all, key)->Some_0;
    let k = choose|k: int| 0 <= k < all.len() && (#[trigger] all[k]).0 == key && all[k].1 == e;
    assert(switched_all(all, Seq::empty()) == Ok::<Seq<(Seq<char>, Merged)>, Unresolved>(all));
    what_is_on_starts(all, all.len(), k);
    let spawns = resolved(builtins, users, Seq::empty())->Ok_0.0;
    let j = choose|j: int| 0 <= j < spawns.len() && starts_as(#[trigger] spawns[j], key, e);
    assert(spawns[j].name == key);
}

/// A built-in extension with an entry of the user is resolved as it is with the entry
/// laid over it, and one without an entry as it is.
pub proof fn built_ins_start_with_what_the_user_sets(
    builtins: Seq<(Seq<char>, Merged)>,
    users: Seq<(Seq<char>, Overlay)>,
    key: Seq<char>,
)
    requires
        keys_differ(users),
        lookup(builtins, key) is Some,
        resolved(builtins, users, Seq::empty()) is Ok,
    ensures
        ({
            let built_in = lookup(builtins, key)->Some_0;
            let e = match lookup(users, key) {
                Some(u) => overlaid(built_in, u),
                None => built_in,
            };
            let spawns = resolved(builtins, users, Seq::empty())->Ok_0.0;
            e.enable && (e.prefix + e.command + e.suffix).len() > 0 ==> exists|j: int|
                0 <= j < spawns.len() && starts_as(#[trigger] spawns[j], key, e)
        }),
{
    let all = overlaid_all(builtins, users);
    let built_in = lookup(builtins, key)->Some_0;
    lemma_lookup_stands(users, key);
    match lookup(users, key) {
        Some(u) => {
            let i = choose|i: int| 0 <= i < users.len() && (#[trigger] users[i]).0 == key && users[i].1 == u;
            lemma_every_user(builtins, users, i);
        },
        None => {
            lemma_sorted_positions(keys_of(users));
            lemma_other_keys(builtins, users, sorted_positions(keys_of(users)), users.len(), key);
        },
    }
    let e = lookup(all, key)->Some_0;
    lemma_lookup_stands(all, key);
    let k = choose|k: int| 0 <= k < all.len() && (#[trigger] all[k]).0 == key && all[k].1 == e;
    assert(switched_all(all, Seq::empty()) == Ok::<Seq<(Seq<char>, Merged)>, Unresolved>(all));
    if e.enable && (e.prefix + e.command + e.suffix).len() > 0 {
        what_is_on_starts(all, all.len(), k);
    }
}

/// The last word of the command line about an extension settles whether it is on, and
/// touches nothing else; a word about an extension that is not known is an error that
/// names it.
pub proof fn the_last_word_about_an_extension_counts(
    entries: Seq<(Seq<char>, Merged)>,
    switches: Seq<Switch>,
    name: Seq<char>,
    on: bool,
    other: Seq<char>,
)
    requires
        switched_all(entries, switches) is Ok,
        other != name,
    ensures
        ({
            let before = switched_all(entries, switches)->Ok_0;
            let after = switched_all(entries, switches.push(Switch { name: Some(name), on }));
            match lookup(before, name) {
                Some(e) => after matches Ok(list) && lookup(list, name) == Some(Merged { enable: on, ..e }) && lookup(
                    list,
                    other,
                ) == lookup(before, other),
                None => after == Err::<Seq<(Seq<char>, Merged)>, Unresolved>(Unresolved::UnknownCliOverride(name)),
            }
        }),
{
    let more = switches.push(Switch { name: Some(name), on });
    assert(more.drop_last() =~= switches);
    let before = switched_all(entries, switches)->Ok_0;
    if let Some(e) = lookup(before, name) {
        lookup_after_stored(before, name, Merged { enable: on, ..e }, name);
        lookup_after_stored(before, name, Merged { enable: on, ..e }, other);
    }
}

/// An extension that is on but has nothing to run, and that the program does not need, is
/// remarked under its name, and the remark names the setting to mend.
pub proof fn extensions_without_a_command_are_remarked(entries: Seq<(Seq<char>, Merged)>, n: nat, i: int)
    requires
        n <= entries.len(),
        0 <= i < n,
        starting(entries, n) is Ok,
        entries[i].1.enable,
        !entries[i].1.require,
        (entries[i].1.prefix + entries[i].1.command + entries[i].1.suffix).len() == 0,
    ensures
        exists|k: int|
            0 <= k < starting(entries, n)->Ok_0.1.len() && {
                let remark = #[trigger] starting(entries, n)->Ok_0.1[k];
                &&& remark.0 == entries[i].0
                &&& has_text(remark.1, "`extensions."@ + entries[i].0 + ".command`"@)
                &&& begins(remark.1, "optional extension "@ + entries[i].0 + " "@)
            },
    decreases n,
{
    let before = starting(entries, (n - 1) as nat)->Ok_0.1;
    let after = starting(entries, n)->Ok_0.1;
    if i < n - 1 {
        extensions_without_a_command_are_remarked(entries, (n - 1) as nat, i);
        let k = choose|k: int|
            0 <= k < before.len() && {
                let remark = #[trigger] before[k];
                &&& remark.0 == entries[i].0
                &&& has_text(remark.1, "`extensions."@ + entries[i].0 + ".command`"@)
                &&& begins(remark.1, "optional extension "@ + entries[i].0 + " "@)
            };
        assert(after[k] == before[k]);
    } else {
        let name = entries[i].0;
        let message = crate::settings::skipped_message(name);
        assert(after == before.push((name, message)));
        reveal_strlit("optional extension ");
        reveal_strlit(" ");
        reveal_strlit(" skipped: `extensions.");
        reveal_strlit("`extensions.");
        reveal_strlit(".command`");
        reveal_strlit(".command` is empty; set a command or disable the extension");
        let needle = "`extensions."@ + name + ".command`"@;
        let from = ("optional extension "@.len() + name.len() + 10) as int;
        assert(message.subrange(from, from + needle.len()) =~= needle);
        assert(stands_at(message, needle, from));
        let start = "optional extension "@ + name + " "@;
        assert(message.take(start.len() as int) =~= start);
        assert(after[before.len() as int] == (name, message));
    }
}

} // verus!
