//! What holds of the skill tool: a search finds what was asked for, and settles on a
//! skill only where there is no doubt which one is meant.
use vstd::prelude::*;
use vstd::string::*;
use crate::assoc::lookup;
use crate::cbor::{any_entry, dict_entry, Cbor};
use crate::discovery::Skill;
use crate::skill_tool::{
    answer_to, distinct_terms, distinct_terms_differ, hit_named, hits_among, match_count, queries_of, query_answer,
    ranked, ranked_hits_are_in_order, ranks_before, search_reply, searched_skills, settled_on, skill_read,
    wants_content, Answer, Hit, Searched,
};
use crate::skills::frontmatter_body;
use crate::text::{has_text, lowercased, text_less, trimmed};

verus! {

/// A search settles on a skill only where that skill is among its hits. It is the only
/// hit, or it is asked for by name: the search is for one term, and that is its name.
pub proof fn settled_skills_are_asked_for(terms: Seq<Seq<char>>, hits: Seq<Hit>)
    ensures
        settled_on(terms, hits) matches Some(name) ==> {
            &&& exists|i: int| 0 <= i < hits.len() && (#[trigger] hits[i]).name == name
            &&& hits.len() != 1 ==> terms == seq![name]
        },
{
    if hits.len() == 1 {
        assert(hits[0].name == settled_on(terms, hits)->Some_0);
    } else if settled_on(terms, hits) is Some {
        assert(terms =~= seq![settled_on(terms, hits)->Some_0]);
    }
}

/// The only hit is settled on, whatever the terms.
pub proof fn the_only_hit_is_settled_on(terms: Seq<Seq<char>>, hit: Hit)
    ensures
        settled_on(terms, seq![hit]) == Some(hit.name),
        answer_to(terms, true, seq![hit]) == Answer::Load(hit.name),
        answer_to(terms, false, seq![hit]) == Answer::Load(hit.name),
{
}

/// A skill that is asked for by its name is settled on, wherever it stands among the
/// hits and however many there are.
pub proof fn skills_asked_for_by_name_are_settled_on(hits: Seq<Hit>, i: int)
    requires
        0 <= i < hits.len(),
    ensures
        settled_on(seq![hits[i].name], hits) == Some(hits[i].name),
{
    assert(hit_named(hits, hits[i].name));
}

/// Where several skills are found and none has the only term as its name, or where there
/// are several terms, all hits are listed and none is loaded.
pub proof fn doubtful_searches_list_their_hits(terms: Seq<Seq<char>>, hits: Seq<Hit>, search_content: bool)
    requires
        hits.len() != 1,
        terms.len() != 1 || forall|i: int| 0 <= i < hits.len() ==> (#[trigger] hits[i]).name != terms[0],
    ensures
        settled_on(terms, hits) is None,
        answer_to(terms, search_content, hits) is Reply,
{
}

/// Whether a skill holds a term: in its name, in its description or, where files are
/// searched too, in its file.
pub open spec fn holds_term(skill: Searched, term: Seq<char>, search_content: bool) -> bool {
    has_text(skill.lower_name, term) || has_text(skill.lower_description, term) || (search_content && has_text(
        skill.lower_body,
        term,
    ))
}

/// A skill is counted once for each term that it holds, and for no other.
pub proof fn terms_are_counted(skill: Searched, terms: Seq<Seq<char>>, term: Seq<char>, search_content: bool)
    ensures
        match_count(skill, Seq::empty(), search_content) == 0,
        match_count(skill, terms.push(term), search_content) == match_count(skill, terms, search_content) + (
        if holds_term(skill, term, search_content) { 1int } else { 0int }),
        match_count(skill, terms, search_content) <= terms.len(),
    decreases terms.len(),
{
    assert(terms.push(term).drop_last() =~= terms);
    if terms.len() > 0 {
        terms_are_counted(skill, terms.drop_last(), term, search_content);
    }
}

proof fn lemma_counted(skill: Searched, terms: Seq<Seq<char>>, search_content: bool, t: int)
    requires
        0 <= t < terms.len(),
        holds_term(skill, terms[t], search_content),
    ensures
        match_count(skill, terms, search_content) > 0,
    decreases terms.len(),
{
    if t < terms.len() - 1 {
        lemma_counted(skill, terms.drop_last(), search_content, t);
    }
}

proof fn lemma_some_term(skill: Searched, terms: Seq<Seq<char>>, search_content: bool)
    requires
        match_count(skill, terms, search_content) > 0,
    ensures
        exists|t: int| 0 <= t < terms.len() && holds_term(skill, #[trigger] terms[t], search_content),
    decreases terms.len(),
{
    if terms.len() > 0 {
        let n = terms.len() - 1;
        if holds_term(skill, terms[n], search_content) {
            assert(holds_term(skill, terms[n], search_content));
        } else {
            lemma_some_term(skill, terms.drop_last(), search_content);
            let t = choose|t: int|
                0 <= t < terms.drop_last().len() && holds_term(skill, #[trigger] terms.drop_last()[t], search_content);
            assert(holds_term(skill, terms[t], search_content));
        }
    }
}

/// Every skill that holds a term is found, under its own name and description, and with
/// the number of terms that it holds.
pub proof fn skills_with_a_term_are_found(
    skills: Seq<Searched>,
    terms: Seq<Seq<char>>,
    search_content: bool,
    i: int,
    t: int,
)
    requires
        0 <= i < skills.len(),
        0 <= t < terms.len(),
        holds_term(skills[i], terms[t], search_content),
    ensures
        hits_among(skills, terms, search_content).contains(
            Hit {
                count: match_count(skills[i], terms, search_content),
                name: skills[i].name,
                description: skills[i].description,
            },
        ),
    decreases skills.len(),
{
    let n = skills.len() - 1;
    let hit = Hit {
        count: match_count(skills[i], terms, search_content),
        name: skills[i].name,
        description: skills[i].description,
    };
    let hits = hits_among(skills, terms, search_content);
    let before = hits_among(skills.drop_last(), terms, search_content);
    if i == n {
        lemma_counted(skills[i], terms, search_content, t);
        assert(hits[before.len() as int] == hit);
    } else {
        skills_with_a_term_are_found(skills.drop_last(), terms, search_content, i, t);
        let k = choose|k: int| 0 <= k < before.len() && before[k] == hit;
        assert(hits[k] == hit);
    }
}

/// Nothing is found that holds no term: a hit is a skill that holds at least one.
pub proof fn found_skills_hold_a_term(skills: Seq<Searched>, terms: Seq<Seq<char>>, search_content: bool, k: int)
    requires
        0 <= k < hits_among(skills, terms, search_content).len(),
    ensures
        exists|i: int, t: int|
            0 <= i < skills.len() && 0 <= t < terms.len() && #[trigger] holds_term(
                skills[i],
                terms[t],
                search_content,
            ) && hits_among(skills, terms, search_content)[k].name == skills[i].name && hits_among(
                skills,
                terms,
                search_content,
            )[k].description == skills[i].description,
    decreases skills.len(),
{
    let n = skills.len() - 1;
    let hits = hits_among(skills, terms, search_content);
    let before = hits_among(skills.drop_last(), terms, search_content);
    if k < before.len() {
        found_skills_hold_a_term(skills.drop_last(), terms, search_content, k);
        let (i, t) = choose|i: int, t: int|
            0 <= i < skills.drop_last().len() && 0 <= t < terms.len() && #[trigger] holds_term(
                skills.drop_last()[i],
                terms[t],
                search_content,
            ) && before[k].name == skills.drop_last()[i].name && before[k].description
                == skills.drop_last()[i].description;
        assert(holds_term(skills[i], terms[t], search_content));
    } else {
        lemma_some_term(skills[n], terms, search_content);
        let t = choose|t: int| 0 <= t < terms.len() && holds_term(skills[n], #[trigger] terms[t], search_content);
        assert(holds_term(skills[n], terms[t], search_content));
    }
}

/// Hits are listed with those first that hold more terms, and with equal numbers by
/// name. Ranking neither adds a hit nor takes one away.
pub proof fn hits_are_listed_by_number_and_name(hits: Seq<Hit>, i: int, j: int)
    requires
        0 <= i < j < ranked(hits).len(),
    ensures
        ranked(hits)[i].count >= ranked(hits)[j].count,
        ranked(hits)[i].count == ranked(hits)[j].count ==> !text_less(ranked(hits)[j].name, ranked(hits)[i].name),
        ranked(hits).to_multiset() == hits.to_multiset(),
{
    ranked_hits_are_in_order(hits);
    assert(!ranks_before(ranked(hits)[j], ranked(hits)[i]));
}

/// Case and white space round a term make no difference: each known skill is searched
/// in lower case, and so is each term.
pub proof fn skills_are_searched_in_lower_case(
    skills: Seq<(Seq<char>, Skill)>,
    bodies: Seq<(Seq<char>, Seq<char>)>,
    i: int,
)
    requires
        0 <= i < skills.len(),
    ensures
        searched_skills(skills, bodies).len() == skills.len(),
        ({
            let s = searched_skills(skills, bodies)[i];
            &&& s.name == skills[i].0
            &&& s.description == skills[i].1.description
            &&& s.lower_name == lowercased(skills[i].0)
            &&& s.lower_description == lowercased(skills[i].1.description)
            &&& lookup(bodies, skills[i].0) matches Some(body) ==> s.lower_body == lowercased(body)
            &&& lookup(bodies, skills[i].0) is None ==> s.lower_body == lowercased(Seq::empty())
        }),
{
}

/// The terms of a query are those that its text or its list holds, trimmed and in lower
/// case, each once and none of them empty. A query without one is refused.
pub proof fn queries_ask_for_their_terms(arguments: Cbor, term: Seq<char>)
    ensures
        match dict_entry(arguments, "query"@) {
            Some(Cbor::Text(s)) => match queries_of(arguments) {
                Ok(terms) => terms == seq![lowercased(trimmed(s))] && lowercased(trimmed(s)).len() > 0,
                Err(_) => lowercased(trimmed(s)).len() == 0,
            },
            Some(Cbor::Array(items)) => match queries_of(arguments) {
                Ok(terms) => {
                    &&& terms.len() > 0
                    &&& forall|i: int| 0 <= i < items.len() ==> (#[trigger] items[i]) is Text
                    &&& terms.contains(term) ==> term.len() > 0
                    &&& terms.contains(term) <==> term.len() > 0 && exists|i: int|
                        0 <= i < items.len() && lowercased(trimmed((#[trigger] items[i])->Text_0)) == term
                },
                Err(_) => (exists|i: int| 0 <= i < items.len() && !((#[trigger] items[i]) is Text)) || forall|i: int|
                    0 <= i < items.len() ==> lowercased(trimmed((#[trigger] items[i])->Text_0)).len() == 0,
            },
            _ => queries_of(arguments) is Err,
        },
{
    match dict_entry(arguments, "query"@) {
        Some(Cbor::Text(s)) => {
            let raw = seq![lowercased(trimmed(s))];
            distinct_terms_differ(raw);
            assert(raw.drop_last() =~= Seq::empty());
            reveal_with_fuel(distinct_terms, 2);
            if lowercased(trimmed(s)).len() > 0 {
                assert(distinct_terms(raw) =~= raw);
            }
        },
        Some(Cbor::Array(items)) => {
            let raw = Seq::new(items.len(), |i: int| crate::skill_tool::search_term(items[i]->Text_0));
            distinct_terms_differ(raw);
            let terms = distinct_terms(raw);
            assert(raw.contains(term) <==> exists|i: int|
                0 <= i < items.len() && lowercased(trimmed((#[trigger] items[i])->Text_0)) == term) by {
                if raw.contains(term) {
                    let i = choose|i: int| 0 <= i < raw.len() && raw[i] == term;
                    assert(lowercased(trimmed(items[i]->Text_0)) == term);
                }
                if exists|i: int| 0 <= i < items.len() && lowercased(trimmed((#[trigger] items[i])->Text_0)) == term {
                    let i = choose|i: int|
                        0 <= i < items.len() && lowercased(trimmed((#[trigger] items[i])->Text_0)) == term;
                    assert(raw[i] == term);
                }
            }
            if terms.len() == 0 {
                assert forall|i: int| 0 <= i < items.len() implies lowercased(
                    trimmed((#[trigger] items[i])->Text_0),
                ).len() == 0 by {
                    if raw[i].len() > 0 {
                        assert(raw.contains(raw[i]));
                        assert(terms.contains(raw[i]));
                    }
                }
            }
        },
        _ => {},
    }
}

/// A skill is answered with its name and with what its file holds behind the front
/// matter; a skill that is not known, or cannot be read, is answered with an error
/// that names it or says why.
pub proof fn skills_are_answered_with_their_text(
    skills: Seq<(Seq<char>, Skill)>,
    name: Seq<char>,
    file: Result<Seq<char>, Seq<char>>,
)
    ensures
        lookup(skills, name) is None ==> skill_read(skills, name, file).outcome == Err::<Cbor, Seq<char>>(
            "unknown skill: "@ + name,
        ),
        lookup(skills, name) is Some ==> match file {
            Ok(content) => skill_read(skills, name, file).outcome matches Ok(value) && dict_entry(value, "name"@)
                == Some(Cbor::Text(name)) && dict_entry(value, "content"@) == Some(
                Cbor::Text(frontmatter_body(content)),
            ),
            Err(error) => skill_read(skills, name, file).outcome == Err::<Cbor, Seq<char>>(
                "failed to read skill file: "@ + error,
            ),
        },
{
    reveal_strlit("name");
    reveal_strlit("content");
    assert("name"@.len() == 4);
    assert("content"@.len() == 7);
    reveal_with_fuel(any_entry, 3);
    if lookup(skills, name) is Some {
        match file {
            Ok(content) => {
                let entries = skill_read(skills, name, file).outcome->Ok_0->Dict_0;
                assert(entries.drop_first()[0] == entries[1]);
            },
            Err(_) => {},
        }
    }
}

/// A list of hits tells the terms, whether files were searched, and each hit in its
/// place with its name, its description and its number.
pub proof fn lists_tell_their_hits(terms: Seq<Seq<char>>, search_content: bool, hits: Seq<Hit>, i: int)
    requires
        0 <= i < hits.len(),
    ensures
        search_reply(terms, search_content, hits).outcome matches Ok(value) && {
            &&& dict_entry(value, "queries"@) matches Some(Cbor::Array(asked)) && asked.len() == terms.len() && forall|
                t: int,
            |
                0 <= t < terms.len() ==> asked[t] == Cbor::Text(#[trigger] terms[t])
            &&& dict_entry(value, "search_content"@) == Some(Cbor::Bool(search_content))
            &&& dict_entry(value, "matches"@) matches Some(Cbor::Array(found)) && found.len() == hits.len() && dict_entry(
                found[i],
                "name"@,
            ) == Some(Cbor::Text(hits[i].name)) && dict_entry(found[i], "description"@) == Some(
                Cbor::Text(hits[i].description),
            ) && dict_entry(found[i], "hit_count"@) == Some(Cbor::Integer(hits[i].count as int))
        },
{
    reveal_strlit("queries");
    reveal_strlit("search_content");
    reveal_strlit("matches");
    reveal_strlit("name");
    reveal_strlit("description");
    reveal_strlit("hit_count");
    assert("queries"@.len() == 7 && "queries"@[0] == 'q');
    assert("search_content"@.len() == 14);
    assert("matches"@.len() == 7 && "matches"@[0] == 'm');
    assert("name"@.len() == 4);
    assert("description"@.len() == 11);
    assert("hit_count"@.len() == 9);
    reveal_with_fuel(any_entry, 4);
    let entries = search_reply(terms, search_content, hits).outcome->Ok_0->Dict_0;
    assert(entries.drop_first()[0] == entries[1]);
    assert(entries.drop_first().drop_first()[0] == entries[2]);
    let hit = crate::skill_tool::hit_value(hits[i])->Dict_0;
    assert(hit.drop_first()[0] == hit[1]);
    assert(hit.drop_first().drop_first()[0] == hit[2]);
}

/// A call that asks for one skill by its exact name loads it wherever other skills are
/// found beside it.
pub proof fn queries_by_name_load_the_skill(
    arguments: Cbor,
    skills: Seq<(Seq<char>, Skill)>,
    bodies: Seq<(Seq<char>, Seq<char>)>,
    i: int,
)
    requires
        0 <= i < skills.len(),
        queries_of(arguments) == Ok::<Seq<Seq<char>>, Seq<char>>(seq![skills[i].0]),
        lowercased(skills[i].0) == skills[i].0,
    ensures
        query_answer(arguments, skills, bodies) == Answer::Load(skills[i].0),
{
    let name = skills[i].0;
    let terms = seq![name];
    let searched = searched_skills(skills, bodies);
    let content = wants_content(arguments);
    let hits = hits_among(searched, terms, content);
    assert(crate::text::stands_at(name, name, 0)) by {
        assert(name.subrange(0, name.len() as int) =~= name);
    }
    assert(holds_term(searched[i], terms[0], content));
    skills_with_a_term_are_found(searched, terms, content, i, 0);
    ranked_hits_are_in_order(hits);
    let hit = Hit {
        count: match_count(searched[i], terms, content),
        name: searched[i].name,
        description: searched[i].description,
    };
    broadcast use vstd::seq_lib::group_to_multiset_ensures;

    assert(hits.to_multiset().contains(hit));
    assert(ranked(hits).contains(hit));
    let k = choose|k: int| 0 <= k < ranked(hits).len() && ranked(hits)[k] == hit;
    skills_asked_for_by_name_are_settled_on(ranked(hits), k);
}

} // verus!
