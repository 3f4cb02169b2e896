//! What holds of secrets: where the value of one comes from, and who gets it.
use vstd::prelude::*;
use crate::assoc::{lookup, lookup_after_stored};
use crate::order::{sorted_positions, sorted_positions_in_order};
use crate::secrets::{
    all_secrets, collected, file_in, names_secret, secret_file, secret_for, secrets_of, SecretFile, SecretTrouble,
};
use crate::settings::{keys_of, Spawn};
use crate::text::{ascii_lower, begins, trimmed};

verus! {

/// A variable that names a secret is taken out of the environment, and its value is that
/// secret's, whatever the case of its letters; an empty one names none.
pub proof fn variables_name_secrets(
    vars: Seq<(Seq<char>, Seq<char>)>,
    name: Seq<char>,
    value: Seq<char>,
    other: Seq<char>,
)
    requires
        names_secret(ascii_lower(name)),
    ensures
        ({
            let before = collected(vars);
            let after = collected(vars.push(("TAU_SECRET_"@ + name, value)));
            &&& after.taken == before.taken.push("TAU_SECRET_"@ + name)
            &&& value.len() > 0 ==> lookup(after.env, ascii_lower(name)) == Some(value)
            &&& value.len() == 0 ==> after.env == before.env && after.trouble == before.trouble
            &&& other != ascii_lower(name) ==> lookup(after.env, other) == lookup(before.env, other)
            &&& before.trouble is Some ==> after.trouble == before.trouble
            &&& value.len() > 0 && before.trouble is None && lookup(before.env, ascii_lower(name)) is Some
                ==> after.trouble == Some(SecretTrouble::EnvCollision { name: ascii_lower(name) })
            &&& before.trouble is None && lookup(before.env, ascii_lower(name)) is None ==> after.trouble is None
        }),
{
    let key = "TAU_SECRET_"@ + name;
    assert(vars.push((key, value)).drop_last() =~= vars);
    assert(key.take("TAU_SECRET_"@.len() as int) =~= "TAU_SECRET_"@);
    assert(key.skip("TAU_SECRET_"@.len() as int) =~= name);
    let before = collected(vars);
    lookup_after_stored(before.env, ascii_lower(name), value, ascii_lower(name));
    lookup_after_stored(before.env, ascii_lower(name), value, other);
}

/// Any other variable is left alone and changes nothing.
pub proof fn other_variables_are_left_alone(vars: Seq<(Seq<char>, Seq<char>)>, key: Seq<char>, value: Seq<char>)
    requires
        !begins(key, "TAU_SECRET_"@),
    ensures
        collected(vars.push((key, value))) == collected(vars),
{
    assert(vars.push((key, value)).drop_last() =~= vars);
}

/// A variable whose name is not acceptable for a secret is taken out and refused.
pub proof fn bad_names_are_refused(vars: Seq<(Seq<char>, Seq<char>)>, name: Seq<char>, value: Seq<char>)
    requires
        !names_secret(ascii_lower(name)),
        collected(vars).trouble is None,
    ensures
        ({
            let after = collected(vars.push(("TAU_SECRET_"@ + name, value)));
            &&& after.trouble == Some(SecretTrouble::InvalidName { name: ascii_lower(name), context: "environment"@ })
            &&& after.env == collected(vars).env
            &&& after.taken == collected(vars).taken.push("TAU_SECRET_"@ + name)
        }),
{
    let key = "TAU_SECRET_"@ + name;
    assert(vars.push((key, value)).drop_last() =~= vars);
    assert(key.take("TAU_SECRET_"@.len() as int) =~= "TAU_SECRET_"@);
    assert(key.skip("TAU_SECRET_"@.len() as int) =~= name);
}

/// A secret that the environment does not name is what its file holds, without white
/// space round it. One that is nowhere is missing: an error where it is needed, nothing
/// where it is optional.
pub proof fn secrets_come_from_their_file(
    state_dir: Seq<char>,
    env: Seq<(Seq<char>, Seq<char>)>,
    extension: Seq<char>,
    name: Seq<char>,
    optional: bool,
    text: String,
)
    requires
        names_secret(name),
        lookup(env, ascii_lower(name)) is None,
    ensures
        trimmed(text@).len() > 0 ==> secret_for(state_dir, env, extension, name, optional, SecretFile::Text(text)) == Ok::<
            Option<Seq<char>>,
            SecretTrouble,
        >(Some(trimmed(text@))),
        secret_for(state_dir, env, extension, name, true, SecretFile::Missing) == Ok::<
            Option<Seq<char>>,
            SecretTrouble,
        >(None),
        secret_for(state_dir, env, extension, name, false, SecretFile::Missing) == Err::<
            Option<Seq<char>>,
            SecretTrouble,
        >(SecretTrouble::MissingRequired { extension, secret: name }),
        trimmed(text@).len() == 0 ==> secret_for(state_dir, env, extension, name, optional, SecretFile::Text(text))
            == secret_for(state_dir, env, extension, name, optional, SecretFile::Missing),
        secret_for(state_dir, env, extension, name, optional, SecretFile::NotText) == Err::<
            Option<Seq<char>>,
            SecretTrouble,
        >(SecretTrouble::InvalidUtf8 { path: secret_file(state_dir, ascii_lower(name)) }),
        secret_for(state_dir, env, extension, name, optional, SecretFile::Failed(text)) == Err::<
            Option<Seq<char>>,
            SecretTrouble,
        >(SecretTrouble::Io { path: secret_file(state_dir, ascii_lower(name)), error: text@ }),
{
}

/// A name that is not acceptable is refused, whatever there is under it.
pub proof fn bad_declarations_are_refused(
    state_dir: Seq<char>,
    env: Seq<(Seq<char>, Seq<char>)>,
    extension: Seq<char>,
    name: Seq<char>,
    optional: bool,
    file: SecretFile,
)
    requires
        !names_secret(name),
    ensures
        secret_for(state_dir, env, extension, name, optional, file) matches Err(SecretTrouble::InvalidName {
            name: said,
            ..
        }) && said == name,
{
}

/// The file of a secret is the first that was read under its name.
pub proof fn files_belong_to_their_secret(files: Seq<(String, SecretFile)>, name: Seq<char>, i: int)
    requires
        0 <= i < files.len(),
        files[i].0@ == name,
        forall|j: int| 0 <= j < i ==> (#[trigger] files[j]).0@ != name,
    ensures
        file_in(files, name) == files[i].1,
    decreases files.len(),
{
    if i > 0 {
        assert(files[0].0@ != name);
        let rest = files.drop_first();
        assert forall|j: int| 0 <= j < i - 1 implies (#[trigger] rest[j]).0@ != name by {
            assert(rest[j] == files[j + 1]);
        }
        files_belong_to_their_secret(rest, name, i - 1);
    }
}

proof fn lemma_secrets(
    state_dir: Seq<char>,
    env: Seq<(Seq<char>, Seq<char>)>,
    files: Seq<(String, SecretFile)>,
    e: Spawn,
    n: nat,
    i: int,
    value: Seq<char>,
)
    requires
        n <= e.secrets.len(),
        secrets_of(state_dir, env, files, e, n) is Ok,
        0 <= i < n,
        ({
            let at = sorted_positions(keys_of(e.secrets))[i];
            secret_for(
                state_dir,
                env,
                e.name,
                e.secrets[at].0,
                e.secrets[at].1.optional,
                file_in(files, ascii_lower(e.secrets[at].0)),
            ) == Ok::<Option<Seq<char>>, SecretTrouble>(Some(value))
        }),
    ensures
        secrets_of(state_dir, env, files, e, n)->Ok_0.contains(
            (e.secrets[sorted_positions(keys_of(e.secrets))[i]].0, value),
        ),
    decreases n,
{
    sorted_positions_in_order(keys_of(e.secrets));
    let m = (n - 1) as nat;
    let found = (e.secrets[sorted_positions(keys_of(e.secrets))[i]].0, value);
    let before = secrets_of(state_dir, env, files, e, m)->Ok_0;
    let after = secrets_of(state_dir, env, files, e, n)->Ok_0;
    if i < m {
        lemma_secrets(state_dir, env, files, e, m, i, value);
        let k = choose|k: int| 0 <= k < before.len() && before[k] == found;
        assert(after[k] == found);
    } else {
        assert(after[before.len() as int] == found);
    }
}

/// An extension gets every secret that it declares and that has a value, under the name
/// that it declares.
pub proof fn extensions_get_the_secrets_they_declare(
    state_dir: Seq<char>,
    env: Seq<(Seq<char>, Seq<char>)>,
    files: Seq<(String, SecretFile)>,
    e: Spawn,
    d: int,
    value: Seq<char>,
)
    requires
        0 <= d < e.secrets.len(),
        secrets_of(state_dir, env, files, e, e.secrets.len()) is Ok,
        secret_for(
            state_dir,
            env,
            e.name,
            e.secrets[d].0,
            e.secrets[d].1.optional,
            file_in(files, ascii_lower(e.secrets[d].0)),
        ) == Ok::<Option<Seq<char>>, SecretTrouble>(Some(value)),
    ensures
        secrets_of(state_dir, env, files, e, e.secrets.len())->Ok_0.contains((e.secrets[d].0, value)),
{
    let at = sorted_positions(keys_of(e.secrets));
    sorted_positions_in_order(keys_of(e.secrets));
    assert(at.contains(d));
    let i = choose|i: int| 0 <= i < at.len() && at[i] == d;
    lemma_secrets(state_dir, env, files, e, e.secrets.len(), i, value);
}

/// An extension gets no secret but those that it declares, with the values that they
/// have.
pub proof fn extensions_get_no_other_secrets(
    state_dir: Seq<char>,
    env: Seq<(Seq<char>, Seq<char>)>,
    files: Seq<(String, SecretFile)>,
    e: Spawn,
    n: nat,
    k: int,
)
    requires
        n <= e.secrets.len(),
        secrets_of(state_dir, env, files, e, n) is Ok,
        0 <= k < secrets_of(state_dir, env, files, e, n)->Ok_0.len(),
    ensures
        exists|d: int|
            0 <= d < e.secrets.len() && (#[trigger] e.secrets[d]).0 == secrets_of(state_dir, env, files, e, n)->Ok_0[k].0
                && secret_for(
                state_dir,
                env,
                e.name,
                e.secrets[d].0,
                e.secrets[d].1.optional,
                file_in(files, ascii_lower(e.secrets[d].0)),
            ) == Ok::<Option<Seq<char>>, SecretTrouble>(Some(secrets_of(state_dir, env, files, e, n)->Ok_0[k].1)),
    decreases n,
{
    let at = sorted_positions(keys_of(e.secrets));
    sorted_positions_in_order(keys_of(e.secrets));
    let m = (n - 1) as nat;
    let before = secrets_of(state_dir, env, files, e, m)->Ok_0;
    if k < before.len() {
        extensions_get_no_other_secrets(state_dir, env, files, e, m, k);
        let d = choose|d: int|
            0 <= d < e.secrets.len() && (#[trigger] e.secrets[d]).0 == before[k].0 && secret_for(
                state_dir,
                env,
                e.name,
                e.secrets[d].0,
                e.secrets[d].1.optional,
                file_in(files, ascii_lower(e.secrets[d].0)),
            ) == Ok::<Option<Seq<char>>, SecretTrouble>(Some(before[k].1));
        assert(e.secrets[d].0 == secrets_of(state_dir, env, files, e, n)->Ok_0[k].0);
    } else {
        let d = at[m as int];
        assert(0 <= d < e.secrets.len());
        assert(e.secrets[d].0 == secrets_of(state_dir, env, files, e, n)->Ok_0[k].0);
    }
}

/// An extension that is not needed and lacks a secret is skipped with a note; a needed one
/// stops the start. All others get their secrets, in the order of the extensions.
pub proof fn extensions_without_secrets_are_skipped(
    state_dir: Seq<char>,
    env: Seq<(Seq<char>, Seq<char>)>,
    files: Seq<(String, SecretFile)>,
    extensions: Seq<Spawn>,
    n: nat,
)
    requires
        0 < n <= extensions.len(),
        all_secrets(state_dir, env, files, extensions, (n - 1) as nat) is Ok,
    ensures
        ({
            let e = extensions[n - 1];
            let before = all_secrets(state_dir, env, files, extensions, (n - 1) as nat)->Ok_0;
            let after = all_secrets(state_dir, env, files, extensions, n);
            match secrets_of(state_dir, env, files, e, e.secrets.len()) {
                Ok(secrets) => after is Ok && after->Ok_0.secrets == before.secrets.push((e.name, secrets))
                    && after->Ok_0.skipped == before.skipped,
                Err(error) => if e.require {
                    after is Err && after->Err_0 == error
                } else {
                    after is Ok && after->Ok_0.skipped == before.skipped.push(e.name) && after->Ok_0.secrets
                        == before.secrets && after->Ok_0.notes.len() == before.notes.len() + 1
                        && after->Ok_0.notes.last().0 == e.name
                },
            }
        }),
{
}

} // verus!
