//! The `skill` tool: searching the known skills and loading one of them.
use vstd::prelude::*;
use vstd::string::*;
use crate::assoc::{lookup, TextMap};
use crate::cbor::{
    array_value, cbor_map_bool, cbor_map_value, dict_bool, dict_entry, dict_value, text_keyed, Cbor, CborValue,
};
use crate::discovery::{DiscoveredSkill, Skill};
use crate::display::{
    error_display, error_shown, stats_of, success_display, success_shown, text_stats, Shown, ToolDisplay,
    ToolDisplayStats,
};
use crate::order::{text_less_irreflexive, text_less_total, text_less_transitive};
use crate::skills::{frontmatter_body, strip_frontmatter};
use crate::text::{
    contains, has_text, holds_text, join, joined, less, lowercase, lowercased, same, text_less, texts, trim, trimmed,
};

verus! {

// ---------------------------------------------------------------------------
// The terms of a query
// ---------------------------------------------------------------------------

/// The terms of a list that are not empty, each where it first occurs.
pub open spec fn distinct_terms(terms: Seq<Seq<char>>) -> Seq<Seq<char>>
    decreases terms.len(),
{
    if terms.len() == 0 {
        Seq::empty()
    } else {
        let before = distinct_terms(terms.drop_last());
        if terms.last().len() == 0 || before.contains(terms.last()) {
            before
        } else {
            before.push(terms.last())
        }
    }
}

/// Drops empty and repeated terms.
pub fn without_repeats(terms: &Vec<String>) -> (r: Vec<String>)
    ensures
        texts(r@) == distinct_terms(texts(terms@)),
{
    let ghost all = texts(terms@);
    let mut r: Vec<String> = Vec::new();
    let mut i: usize = 0;
    assert(all.take(0) =~= Seq::empty());
    assert(texts(r@) =~= Seq::empty());
    while i < terms.len()
        invariant
            i <= terms.len(),
            all == texts(terms@),
            texts(r@) == distinct_terms(all.take(i as int)),
        decreases terms.len() - i,
    {
        proof {
            assert(all.take(i + 1).drop_last() =~= all.take(i as int));
            assert(all.take(i + 1).last() == terms@[i as int]@);
        }
        if !terms[i].as_str().is_empty() && !holds_text(&r, terms[i].as_str()) {
            let ghost before = texts(r@);
            r.push(terms[i].clone());
            assert(texts(r@) =~= before.push(terms@[i as int]@));
        }
        i += 1;
    }
    assert(all.take(all.len() as int) =~= all);
    r
}

/// No term stands twice in a list of distinct terms, none is empty, and every
/// term of the list it was made of that is not empty stands in it.
pub proof fn distinct_terms_differ(terms: Seq<Seq<char>>)
    ensures
        forall|i: int, j: int|
            0 <= i < j < distinct_terms(terms).len() ==> distinct_terms(terms)[i] != distinct_terms(terms)[j],
        forall|i: int| 0 <= i < distinct_terms(terms).len() ==> (#[trigger] distinct_terms(terms)[i]).len() > 0,
        forall|t: Seq<char>|
            #[trigger] distinct_terms(terms).contains(t) <==> (t.len() > 0 && terms.contains(t)),
    decreases terms.len(),
{
    if terms.len() > 0 {
        let init = terms.drop_last();
        distinct_terms_differ(init);
        let before = distinct_terms(init);
        let after = distinct_terms(terms);
        assert forall|i: int, j: int| 0 <= i < j < after.len() implies after[i] != after[j] by {
            if j == before.len() {
                assert(before.contains(before[i]));
            }
        }
        assert forall|t: Seq<char>| #[trigger] after.contains(t) <==> (t.len() > 0 && terms.contains(t)) by {
            if after.contains(t) {
                let k = choose|k: int| 0 <= k < after.len() && after[k] == t;
                if k < before.len() {
                    assert(before.contains(t));
                    assert(init.contains(t));
                    let m = choose|m: int| 0 <= m < init.len() && init[m] == t;
                    assert(terms[m] == t);
                } else {
                    assert(terms[terms.len() - 1] == t);
                }
            }
            if t.len() > 0 && terms.contains(t) {
                let k = choose|k: int| 0 <= k < terms.len() && terms[k] == t;
                if k < init.len() {
                    assert(init[k] == t);
                    assert(before.contains(t));
                }
                if before.contains(t) {
                    let m = choose|m: int| 0 <= m < before.len() && before[m] == t;
                    assert(after[m] == t);
                } else {
                    assert(after[before.len() as int] == t);
                }
            }
        }
    } else {
        assert forall|t: Seq<char>| #[trigger] distinct_terms(terms).contains(t) <==> (t.len() > 0 && terms.contains(t)) by {
            assert(!terms.contains(t));
        }
    }
}

/// A term as it is searched for.
pub open spec fn search_term(s: Seq<char>) -> Seq<char> {
    lowercased(trimmed(s))
}

/// Whether every value of a list is a string.
pub open spec fn all_strings(items: Seq<Cbor>) -> bool {
    forall|i: int| 0 <= i < items.len() ==> #[trigger] items[i] is Text
}

/// The terms that the value of a query stands for, or why it stands for none.
pub open spec fn raw_terms(query: Cbor) -> Result<Seq<Seq<char>>, Seq<char>> {
    match query {
        Cbor::Text(s) => Ok(seq![search_term(s)]),
        Cbor::Array(items) => if all_strings(items) {
            Ok(Seq::new(items.len(), |i: int| search_term(items[i]->Text_0)))
        } else {
            Err("query array entries must all be strings"@)
        },
        _ => Err("query must be a string or an array of strings"@),
    }
}

/// The terms that the arguments of a call ask for, or what is wrong with them.
pub open spec fn queries_of(arguments: Cbor) -> Result<Seq<Seq<char>>, Seq<char>> {
    match dict_entry(arguments, "query"@) {
        None => Err("missing required argument: query"@),
        Some(query) => match raw_terms(query) {
            Err(message) => Err(message),
            Ok(terms) => if distinct_terms(terms).len() == 0 {
                Err("query must include at least one non-empty term"@)
            } else {
                Ok(distinct_terms(terms))
            },
        },
    }
}

/// The terms or the message of an executable result.
pub open spec fn terms_view(r: Result<Vec<String>, String>) -> Result<Seq<Seq<char>>, Seq<char>> {
    match r {
        Ok(terms) => Ok(texts(terms@)),
        Err(message) => Err(message@),
    }
}

/// Reads the terms that a query stands for.
fn terms_of(query: &CborValue) -> (r: Result<Vec<String>, String>)
    ensures
        terms_view(r) == raw_terms(query@),
{
    match query {
        CborValue::Text(s) => {
            let mut terms: Vec<String> = Vec::new();
            let plain = trim(s.as_str());
            terms.push(lowercase(plain.as_str()));
            assert(texts(terms@) =~= seq![search_term(s@)]);
            Ok(terms)
        },
        CborValue::Array(items) => {
            let ghost views = query@->Array_0;
            let mut terms: Vec<String> = Vec::new();
            let mut i: usize = 0;
            while i < items.len()
                invariant
                    i <= items.len(),
                    *query == CborValue::Array(*items),
                    views == query@->Array_0,
                    terms.len() == i,
                    forall|k: int| 0 <= k < i ==> #[trigger] views[k] is Text,
                    forall|k: int| 0 <= k < i ==> (#[trigger] terms@[k])@ == search_term(views[k]->Text_0),
                decreases items.len() - i,
            {
                assert(views[i as int] == items@[i as int]@);
                match &items[i] {
                    CborValue::Text(s) => {
                        let plain = trim(s.as_str());
                        terms.push(lowercase(plain.as_str()));
                    },
                    _ => {
                        assert(!(views[i as int] is Text));
                        return Err("query array entries must all be strings".to_owned());
                    },
                }
                i += 1;
            }
            assert(all_strings(views));
            assert(texts(terms@) =~= Seq::new(views.len(), |k: int| search_term(views[k]->Text_0)));
            Ok(terms)
        },
        _ => Err("query must be a string or an array of strings".to_owned()),
    }
}

/// Reads the terms that a call asks for. They come trimmed, in lower case and
/// without repetitions.
pub fn extract_skill_search_queries(arguments: &CborValue) -> (r: Result<Vec<String>, String>)
    ensures
        terms_view(r) == queries_of(arguments@),
{
    let query = match cbor_map_value(arguments, "query") {
        Some(query) => query,
        None => {
            return Err("missing required argument: query".to_owned());
        },
    };
    let terms = match terms_of(query) {
        Ok(terms) => terms,
        Err(message) => {
            return Err(message);
        },
    };
    let needles = without_repeats(&terms);
    if needles.len() == 0 {
        return Err("query must include at least one non-empty term".to_owned());
    }
    Ok(needles)
}

// ---------------------------------------------------------------------------
// Searching
// ---------------------------------------------------------------------------

/// A skill with the texts that terms are looked for in.
#[derive(Debug, PartialEq, Eq)]
pub struct SearchedSkill {
    pub name: String,
    pub description: String,
    /// The name, the description and the file of the skill in lower case.
    pub lower_name: String,
    pub lower_description: String,
    pub lower_body: String,
}

/// What a `SearchedSkill` holds.
pub struct Searched {
    pub name: Seq<char>,
    pub description: Seq<char>,
    pub lower_name: Seq<char>,
    pub lower_description: Seq<char>,
    pub lower_body: Seq<char>,
}

impl SearchedSkill {
    pub open spec fn view(&self) -> Searched {
        Searched {
            name: self.name@,
            description: self.description@,
            lower_name: self.lower_name@,
            lower_description: self.lower_description@,
            lower_body: self.lower_body@,
        }
    }
}

pub open spec fn searched_view(v: Seq<SearchedSkill>) -> Seq<Searched> {
    Seq::new(v.len(), |i: int| v[i]@)
}

/// A skill that a search found.
#[derive(Debug, PartialEq, Eq)]
pub struct SkillHit {
    /// How many of the terms it matches.
    pub hit_count: u64,
    pub name: String,
    pub description: String,
}

/// What a `SkillHit` holds.
pub struct Hit {
    pub count: nat,
    pub name: Seq<char>,
    pub description: Seq<char>,
}

impl SkillHit {
    pub open spec fn view(&self) -> Hit {
        Hit { count: self.hit_count as nat, name: self.name@, description: self.description@ }
    }
}

pub open spec fn hits_view(v: Seq<SkillHit>) -> Seq<Hit> {
    Seq::new(v.len(), |i: int| v[i]@)
}

/// Whether a term stands in the name or the description of a skill or, where the
/// body is searched too, in its file.
pub open spec fn term_matches(skill: Searched, term: Seq<char>, search_content: bool) -> bool {
    ||| has_text(skill.lower_name, term)
    ||| has_text(skill.lower_description, term)
    ||| search_content && has_text(skill.lower_body, term)
}

/// The number of terms that a skill matches.
pub open spec fn match_count(skill: Searched, terms: Seq<Seq<char>>, search_content: bool) -> nat
    decreases terms.len(),
{
    if terms.len() == 0 {
        0
    } else {
        match_count(skill, terms.drop_last(), search_content) + if term_matches(
            skill,
            terms.last(),
            search_content,
        ) {
            1nat
        } else {
            0nat
        }
    }
}

/// The skills that match some term.
pub open spec fn hits_among(skills: Seq<Searched>, terms: Seq<Seq<char>>, search_content: bool) -> Seq<Hit>
    decreases skills.len(),
{
    if skills.len() == 0 {
        Seq::empty()
    } else {
        let before = hits_among(skills.drop_last(), terms, search_content);
        let skill = skills.last();
        let count = match_count(skill, terms, search_content);
        if count == 0 {
            before
        } else {
            before.push(Hit { count, name: skill.name, description: skill.description })
        }
    }
}

/// Whether a hit stands before another: more terms first, names in order.
pub open spec fn ranks_before(a: Hit, b: Hit) -> bool {
    a.count > b.count || (a.count == b.count && text_less(a.name, b.name))
}

/// A ranked list with one more hit.
pub open spec fn ranked_with(hits: Seq<Hit>, hit: Hit) -> Seq<Hit>
    decreases hits.len(),
{
    if hits.len() > 0 && ranks_before(hit, hits.last()) {
        ranked_with(hits.drop_last(), hit).push(hits.last())
    } else {
        hits.push(hit)
    }
}

/// A list of hits, ranked.
pub open spec fn ranked(hits: Seq<Hit>) -> Seq<Hit>
    decreases hits.len(),
{
    if hits.len() == 0 {
        hits
    } else {
        ranked_with(ranked(hits.drop_last()), hits.last())
    }
}

proof fn lemma_ranked_with(hits: Seq<Hit>, hit: Hit, k: int)
    requires
        0 <= k <= hits.len(),
        forall|j: int| k <= j < hits.len() ==> ranks_before(hit, #[trigger] hits[j]),
        k == 0 || !ranks_before(hit, hits[k - 1]),
    ensures
        ranked_with(hits, hit) == hits.insert(k, hit),
    decreases hits.len(),
{
    if k < hits.len() {
        let init = hits.drop_last();
        lemma_ranked_with(init, hit, k);
        assert(init.insert(k, hit).push(hits.last()) =~= hits.insert(k, hit));
    } else {
        assert(hits.push(hit) =~= hits.insert(k, hit));
    }
}

/// Whether no hit of a list ranks before one that stands ahead of it.
pub open spec fn in_rank_order(hits: Seq<Hit>) -> bool {
    forall|i: int, j: int| 0 <= i < j < hits.len() ==> !ranks_before(#[trigger] hits[j], #[trigger] hits[i])
}

proof fn lemma_rank_order(a: Hit, b: Hit, c: Hit)
    ensures
        !(ranks_before(a, b) && ranks_before(b, a)),
        !ranks_before(b, a) && ranks_before(c, a) ==> ranks_before(c, b),
        ranks_before(a, b) && ranks_before(b, c) ==> ranks_before(a, c),
{
    text_less_irreflexive(a.name);
    if text_less(a.name, b.name) && text_less(b.name, a.name) {
        text_less_transitive(a.name, b.name, a.name);
    }
    if text_less(a.name, b.name) && text_less(b.name, c.name) {
        text_less_transitive(a.name, b.name, c.name);
    }
    if text_less(c.name, a.name) {
        text_less_total(a.name, b.name);
        if text_less(a.name, b.name) {
            text_less_transitive(c.name, a.name, b.name);
        }
    }
}

proof fn lemma_ranked_with_in_order(hits: Seq<Hit>, hit: Hit)
    requires
        in_rank_order(hits),
    ensures
        in_rank_order(ranked_with(hits, hit)),
        ranked_with(hits, hit).to_multiset() == hits.to_multiset().insert(hit),
    decreases hits.len(),
{
    broadcast use vstd::seq_lib::group_to_multiset_ensures;
    if hits.len() > 0 && ranks_before(hit, hits.last()) {
        let init = hits.drop_last();
        lemma_ranked_with_in_order(init, hit);
        let r = ranked_with(init, hit);
        let last = hits.last();
        assert(init.push(last) =~= hits);
        assert(r.push(last).to_multiset() =~= hits.to_multiset().insert(hit));
        assert forall|i: int, j: int| 0 <= i < j < r.push(last).len() implies !ranks_before(
            #[trigger] r.push(last)[j],
            #[trigger] r.push(last)[i],
        ) by {
            if j == r.len() {
                assert(r.to_multiset().contains(r[i]));
                assert(init.to_multiset().insert(hit).contains(r[i]));
                if r[i] == hit {
                    lemma_rank_order(hit, last, hit);
                } else {
                    assert(init.to_multiset().contains(r[i]));
                    assert(init.contains(r[i]));
                    let m = choose|m: int| 0 <= m < init.len() && init[m] == r[i];
                    assert(!ranks_before(hits[hits.len() - 1], hits[m]));
                }
            }
        }
    } else {
        let r = hits.push(hit);
        assert(r.to_multiset() =~= hits.to_multiset().insert(hit));
        assert forall|i: int, j: int| 0 <= i < j < r.len() implies !ranks_before(
            #[trigger] r[j],
            #[trigger] r[i],
        ) by {
            if j == hits.len() {
                lemma_rank_order(hits.last(), hit, hit);
                if i < hits.len() - 1 {
                    assert(!ranks_before(hits[hits.len() - 1], hits[i]));
                    lemma_rank_order(hits[i], hits.last(), hit);
                }
            }
        }
    }
}

/// A ranked list holds the same hits, those that match more terms first and those
/// that match as many in the order of their names.
pub proof fn ranked_hits_are_in_order(hits: Seq<Hit>)
    ensures
        in_rank_order(ranked(hits)),
        ranked(hits).to_multiset() == hits.to_multiset(),
    decreases hits.len(),
{
    broadcast use vstd::seq_lib::group_to_multiset_ensures;
    if hits.len() > 0 {
        ranked_hits_are_in_order(hits.drop_last());
        lemma_ranked_with_in_order(ranked(hits.drop_last()), hits.last());
        assert(hits.drop_last().push(hits.last()) =~= hits);
    }
}

fn hit_ranks_before(a: &SkillHit, b: &SkillHit) -> (r: bool)
    ensures
        r == ranks_before(a@, b@),
{
    a.hit_count > b.hit_count || (a.hit_count == b.hit_count && less(a.name.as_str(), b.name.as_str()))
}

/// Adds a hit to a ranked list.
fn rank_hit(hits: &mut Vec<SkillHit>, hit: SkillHit)
    ensures
        hits_view(final(hits)@) == ranked_with(hits_view(old(hits)@), hit@),
{
    let ghost before = hits_view(hits@);
    let mut k: usize = hits.len();
    while k > 0 && hit_ranks_before(&hit, &hits[k - 1])
        invariant
            k <= hits.len(),
            before == hits_view(hits@),
            forall|j: int| k <= j < before.len() ==> ranks_before(hit@, #[trigger] before[j]),
        decreases k,
    {
        k -= 1;
    }
    proof {
        if k > 0 {
            assert(before[k - 1] == hits@[k - 1]@);
        }
        lemma_ranked_with(before, hit@, k as int);
    }
    let ghost added = hit@;
    hits.insert(k, hit);
    assert(hits_view(hits@) =~= before.insert(k as int, added));
}

fn count_matches(skill: &SearchedSkill, needles: &Vec<String>, search_content: bool) -> (r: usize)
    ensures
        r == match_count(skill@, texts(needles@), search_content),
{
    let ghost all = texts(needles@);
    let mut count: usize = 0;
    let mut i: usize = 0;
    assert(all.take(0) =~= Seq::empty());
    while i < needles.len()
        invariant
            i <= needles.len(),
            count <= i,
            all == texts(needles@),
            count == match_count(skill@, all.take(i as int), search_content),
        decreases needles.len() - i,
    {
        proof {
            assert(all.take(i + 1).drop_last() =~= all.take(i as int));
            assert(all.take(i + 1).last() == needles@[i as int]@);
        }
        let needle = needles[i].as_str();
        if contains(skill.lower_name.as_str(), needle) || contains(skill.lower_description.as_str(), needle) || (
        search_content && contains(skill.lower_body.as_str(), needle)) {
            count += 1;
        }
        i += 1;
    }
    assert(all.take(all.len() as int) =~= all);
    count
}

/// Ranks the skills that match some of the terms. The terms are in lower case.
pub fn rank_skills(skills: &Vec<SearchedSkill>, needles: &Vec<String>, search_content: bool) -> (r: Vec<SkillHit>)
    ensures
        hits_view(r@) == ranked(hits_among(searched_view(skills@), texts(needles@), search_content)),
{
    let ghost all = searched_view(skills@);
    let ghost terms = texts(needles@);
    let mut hits: Vec<SkillHit> = Vec::new();
    let mut i: usize = 0;
    assert(all.take(0) =~= Seq::empty());
    assert(hits_view(hits@) =~= Seq::empty());
    while i < skills.len()
        invariant
            i <= skills.len(),
            all == searched_view(skills@),
            terms == texts(needles@),
            hits_view(hits@) == ranked(hits_among(all.take(i as int), terms, search_content)),
        decreases skills.len() - i,
    {
        let ghost found = hits_among(all.take(i as int), terms, search_content);
        proof {
            assert(all.take(i + 1).drop_last() =~= all.take(i as int));
            assert(all.take(i + 1).last() == skills@[i as int]@);
        }
        let count = count_matches(&skills[i], needles, search_content);
        if count > 0 {
            let hit = SkillHit {
                hit_count: count as u64,
                name: skills[i].name.clone(),
                description: skills[i].description.clone(),
            };
            assert(found.push(hit@).drop_last() =~= found);
            rank_hit(&mut hits, hit);
        }
        i += 1;
    }
    assert(all.take(all.len() as int) =~= all);
    hits
}

/// What is read for a skill whose file is among `bodies`; nothing where it is not.
pub open spec fn body_of(bodies: Seq<(Seq<char>, Seq<char>)>, name: Seq<char>) -> Seq<char> {
    match lookup(bodies, name) {
        Some(body) => body,
        None => Seq::empty(),
    }
}

/// The known skills as they are searched.
pub open spec fn searched_skills(
    skills: Seq<(Seq<char>, Skill)>,
    bodies: Seq<(Seq<char>, Seq<char>)>,
) -> Seq<Searched> {
    Seq::new(
        skills.len(),
        |i: int|
            Searched {
                name: skills[i].0,
                description: skills[i].1.description,
                lower_name: lowercased(skills[i].0),
                lower_description: lowercased(skills[i].1.description),
                lower_body: lowercased(body_of(bodies, skills[i].0)),
            },
    )
}

/// Searches the known skills. `bodies` holds the files of the skills by name; a
/// skill whose file is missing there has an empty body.
pub fn search_discovered_skills(
    skills: &TextMap<DiscoveredSkill>,
    bodies: &TextMap<String>,
    needles: &Vec<String>,
    search_content: bool,
) -> (r: Vec<SkillHit>)
    ensures
        hits_view(r@) == ranked(hits_among(searched_skills(skills@, bodies@), texts(needles@), search_content)),
{
    let mut searched: Vec<SearchedSkill> = Vec::new();
    let mut i: usize = 0;
    while i < skills.entries.len()
        invariant
            i <= skills.entries.len(),
            searched.len() == i,
            forall|k: int| 0 <= k < i ==> (#[trigger] searched@[k])@ == searched_skills(skills@, bodies@)[k],
        decreases skills.entries.len() - i,
    {
        let name = &skills.entries[i].0;
        let description = &skills.entries[i].1.description;
        let body = match bodies.get(name.as_str()) {
            Some(body) => lowercase(body.as_str()),
            None => lowercase(""),
        };
        proof {
            reveal_strlit("");
            assert(""@ =~= Seq::empty());
        }
        searched.push(
            SearchedSkill {
                name: name.clone(),
                description: description.clone(),
                lower_name: lowercase(name.as_str()),
                lower_description: lowercase(description.as_str()),
                lower_body: body,
            },
        );
        i += 1;
    }
    assert(searched_view(searched@) =~= searched_skills(skills@, bodies@));
    rank_skills(&searched, needles, search_content)
}

// ---------------------------------------------------------------------------
// Answers
// ---------------------------------------------------------------------------

/// Whether some hit has the given name.
pub open spec fn hit_named(hits: Seq<Hit>, name: Seq<char>) -> bool {
    exists|i: int| 0 <= i < hits.len() && (#[trigger] hits[i]).name == name
}

/// The skill that a search settles on: the only hit, or the one whose name is the
/// only term.
pub open spec fn settled_on(terms: Seq<Seq<char>>, hits: Seq<Hit>) -> Option<Seq<char>> {
    if hits.len() == 1 {
        Some(hits[0].name)
    } else if terms.len() == 1 && hit_named(hits, terms[0]) {
        Some(terms[0])
    } else {
        None
    }
}

/// Picks the skill that a search settles on.
pub fn skill_name_to_auto_load(needles: &Vec<String>, hits: &Vec<SkillHit>) -> (r: Option<String>)
    ensures
        match r {
            Some(name) => settled_on(texts(needles@), hits_view(hits@)) == Some(name@),
            None => settled_on(texts(needles@), hits_view(hits@)) is None,
        },
{
    let ghost views = hits_view(hits@);
    if hits.len() == 1 {
        assert(views[0] == hits@[0]@);
        return Some(hits[0].name.clone());
    }
    if needles.len() == 1 {
        let mut i: usize = 0;
        while i < hits.len()
            invariant
                i <= hits.len(),
                hits.len() != 1,
                needles.len() == 1,
                views == hits_view(hits@),
                forall|k: int| 0 <= k < i ==> (#[trigger] views[k]).name != needles@[0]@,
            decreases hits.len() - i,
        {
            assert(views[i as int] == hits@[i as int]@);
            if same(hits[i].name.as_str(), needles[0].as_str()) {
                assert(texts(needles@)[0] == needles@[0]@);
                assert(hit_named(views, texts(needles@)[0]));
                return Some(hits[i].name.clone());
            }
            i += 1;
        }
    }
    None
}

/// What a call of the tool returns.
#[derive(Debug, PartialEq, Eq)]
pub struct SkillReply {
    /// The result, or the message of the error.
    pub outcome: Result<CborValue, String>,
    pub display: ToolDisplay,
}

/// What a `SkillReply` holds.
pub struct Reply {
    pub outcome: Result<Cbor, Seq<char>>,
    pub display: Shown,
}

impl SkillReply {
    pub open spec fn view(&self) -> Reply {
        Reply {
            outcome: match self.outcome {
                Ok(value) => Ok(value@),
                Err(message) => Err(message@),
            },
            display: self.display@,
        }
    }
}

/// The reply with an error.
pub open spec fn refusal(args: Seq<char>, message: Seq<char>) -> Reply {
    Reply { outcome: Err(message), display: error_shown(args, message) }
}

fn refuse(args: &str, message: String) -> (r: SkillReply)
    ensures
        r@ == refusal(args@, message@),
{
    let display = error_display(args, message.as_str());
    SkillReply { outcome: Err(message), display }
}

/// The reply to a request for one skill. `file` is what reading its file gave.
pub open spec fn skill_read(
    skills: Seq<(Seq<char>, Skill)>,
    name: Seq<char>,
    file: Result<Seq<char>, Seq<char>>,
) -> Reply {
    match lookup(skills, name) {
        None => refusal(name, "unknown skill: "@ + name),
        Some(_) => match file {
            Err(e) => refusal(name, "failed to read skill file: "@ + e),
            Ok(content) => {
                let body = frontmatter_body(content);
                Reply {
                    outcome: Ok(
                        Cbor::Dict(
                            seq![
                                (Cbor::Text("name"@), Cbor::Text(name)),
                                (Cbor::Text("content"@), Cbor::Text(body)),
                            ],
                        ),
                    ),
                    display: Shown { stats: stats_of(body), ..success_shown(name) },
                }
            },
        },
    }
}

/// The text or the error of an executable read.
pub open spec fn file_view(file: Result<String, String>) -> Result<Seq<char>, Seq<char>> {
    match file {
        Ok(content) => Ok(content@),
        Err(e) => Err(e@),
    }
}

/// Replies with one skill, whose file was read.
pub fn read_skill_by_name(skills: &TextMap<DiscoveredSkill>, name: &str, file: Result<String, String>) -> (r: SkillReply)
    ensures
        r@ == skill_read(skills@, name@, file_view(file)),
{
    if !skills.contains_key(name) {
        let mut message = "unknown skill: ".to_owned();
        message.append(name);
        return refuse(name, message);
    }
    match file {
        Err(e) => {
            let mut message = "failed to read skill file: ".to_owned();
            message.append(e.as_str());
            refuse(name, message)
        },
        Ok(content) => {
            let body = strip_frontmatter(content.as_str());
            let stats = text_stats(body.as_str());
            let mut display = success_display(name);
            display.stats = stats;
            let mut entries: Vec<(CborValue, CborValue)> = Vec::new();
            entries.push(text_keyed("name", CborValue::Text(name.to_owned())));
            entries.push(text_keyed("content", CborValue::Text(body)));
            let value = dict_value(entries);
            assert(value@->Dict_0 =~= seq![
                (Cbor::Text("name"@), Cbor::Text(name@)),
                (Cbor::Text("content"@), Cbor::Text(body@)),
            ]);
            SkillReply { outcome: Ok(value), display }
        },
    }
}

/// One line on a hit.
pub open spec fn hit_line(hit: Hit) -> Seq<char> {
    hit.name + ": "@ + hit.description
}

/// The sizes shown beside a list of hits.
pub open spec fn hits_stats(hits: Seq<Hit>) -> ToolDisplayStats {
    ToolDisplayStats {
        matches: Some(hits.len() as u64),
        ..stats_of(joined(Seq::new(hits.len(), |i: int| hit_line(hits[i])), "\n"@))
    }
}

fn skill_search_stats(hits: &Vec<SkillHit>) -> (r: ToolDisplayStats)
    ensures
        r == hits_stats(hits_view(hits@)),
{
    let ghost views = hits_view(hits@);
    let mut lines: Vec<String> = Vec::new();
    let mut i: usize = 0;
    while i < hits.len()
        invariant
            i <= hits.len(),
            views == hits_view(hits@),
            lines.len() == i,
            forall|k: int| 0 <= k < i ==> (#[trigger] lines@[k])@ == hit_line(views[k]),
        decreases hits.len() - i,
    {
        let mut line = hits[i].name.clone();
        line.append(": ");
        line.append(hits[i].description.as_str());
        lines.push(line);
        i += 1;
    }
    assert(texts(lines@) =~= Seq::new(views.len(), |k: int| hit_line(views[k])));
    let text = join(&lines, "\n");
    let mut stats = text_stats(text.as_str());
    stats.matches = Some(hits.len() as u64);
    stats
}

/// A hit as a value.
pub open spec fn hit_value(hit: Hit) -> Cbor {
    Cbor::Dict(
        seq![
            (Cbor::Text("name"@), Cbor::Text(hit.name)),
            (Cbor::Text("description"@), Cbor::Text(hit.description)),
            (Cbor::Text("hit_count"@), Cbor::Integer(hit.count as int)),
        ],
    )
}

/// What the tool was called with, as it is shown.
pub open spec fn search_args(terms: Seq<Seq<char>>, search_content: bool) -> Seq<char> {
    joined(terms, " "@) + if search_content {
        " [content]"@
    } else {
        ""@
    }
}

/// The reply with a list of hits.
pub open spec fn search_reply(terms: Seq<Seq<char>>, search_content: bool, hits: Seq<Hit>) -> Reply {
    Reply {
        outcome: Ok(
            Cbor::Dict(
                seq![
                    (Cbor::Text("queries"@), Cbor::Array(Seq::new(terms.len(), |i: int| Cbor::Text(terms[i])))),
                    (Cbor::Text("search_content"@), Cbor::Bool(search_content)),
                    (Cbor::Text("matches"@), Cbor::Array(Seq::new(hits.len(), |i: int| hit_value(hits[i])))),
                ],
            ),
        ),
        display: Shown {
            status_text: if hits.len() == 0 {
                "ok: no matches"@
            } else {
                "ok"@
            },
            stats: hits_stats(hits),
            ..success_shown(search_args(terms, search_content))
        },
    }
}

fn value_of_hit(hit: &SkillHit) -> (r: CborValue)
    ensures
        r@ == hit_value(hit@),
{
    let mut entries: Vec<(CborValue, CborValue)> = Vec::new();
    entries.push(text_keyed("name", CborValue::Text(hit.name.clone())));
    entries.push(text_keyed("description", CborValue::Text(hit.description.clone())));
    entries.push(text_keyed("hit_count", CborValue::Integer(hit.hit_count as i128)));
    let value = dict_value(entries);
    assert(value@->Dict_0 =~= hit_value(hit@)->Dict_0);
    value
}

/// Replies with a list of hits.
pub fn skill_search_result(needles: &Vec<String>, search_content: bool, hits: &Vec<SkillHit>) -> (r: SkillReply)
    ensures
        r@ == search_reply(texts(needles@), search_content, hits_view(hits@)),
{
    let ghost terms = texts(needles@);
    let ghost views = hits_view(hits@);
    let mut args = join(needles, " ");
    if search_content {
        args.append(" [content]");
    } else {
        args.append("");
    }
    let mut display = success_display(args.as_str());
    display.stats = skill_search_stats(hits);
    if hits.len() == 0 {
        display.status_text = "ok: no matches".to_owned();
    }
    let mut queries: Vec<CborValue> = Vec::new();
    let mut i: usize = 0;
    while i < needles.len()
        invariant
            i <= needles.len(),
            terms == texts(needles@),
            queries.len() == i,
            forall|k: int| 0 <= k < i ==> (#[trigger] queries@[k])@ == Cbor::Text(terms[k]),
        decreases needles.len() - i,
    {
        queries.push(CborValue::Text(needles[i].clone()));
        i += 1;
    }
    let mut matches: Vec<CborValue> = Vec::new();
    let mut j: usize = 0;
    while j < hits.len()
        invariant
            j <= hits.len(),
            views == hits_view(hits@),
            matches.len() == j,
            forall|k: int| 0 <= k < j ==> (#[trigger] matches@[k])@ == hit_value(views[k]),
        decreases hits.len() - j,
    {
        matches.push(value_of_hit(&hits[j]));
        j += 1;
    }
    let echoed = array_value(queries);
    let found = array_value(matches);
    assert(echoed@->Array_0 =~= Seq::new(terms.len(), |k: int| Cbor::Text(terms[k])));
    assert(found@->Array_0 =~= Seq::new(views.len(), |k: int| hit_value(views[k])));
    let mut entries: Vec<(CborValue, CborValue)> = Vec::new();
    entries.push(text_keyed("queries", echoed));
    entries.push(text_keyed("search_content", CborValue::Bool(search_content)));
    entries.push(text_keyed("matches", found));
    let value = dict_value(entries);
    assert(value@->Dict_0 =~= search_reply(terms, search_content, views).outcome->Ok_0->Dict_0);
    SkillReply { outcome: Ok(value), display }
}

/// What is to be done about a call of the tool.
#[derive(Debug, PartialEq, Eq)]
pub enum SkillAnswer {
    /// The call is answered.
    Reply(SkillReply),
    /// The skill of this name is read next.
    Load(String),
}

/// What a `SkillAnswer` holds.
pub enum Answer {
    Reply(Reply),
    Load(Seq<char>),
}

impl SkillAnswer {
    pub open spec fn view(&self) -> Answer {
        match self {
            SkillAnswer::Reply(reply) => Answer::Reply(reply@),
            SkillAnswer::Load(name) => Answer::Load(name@),
        }
    }
}

/// Whether a call asks for the files of the skills to be searched too.
pub open spec fn wants_content(arguments: Cbor) -> bool {
    dict_bool(arguments, "search_content"@) == Some(true)
}

/// What follows from the hits of a search.
pub open spec fn answer_to(terms: Seq<Seq<char>>, search_content: bool, hits: Seq<Hit>) -> Answer {
    match settled_on(terms, hits) {
        Some(name) => Answer::Load(name),
        None => Answer::Reply(search_reply(terms, search_content, hits)),
    }
}

/// What is to be done about a call with the given arguments.
pub open spec fn query_answer(
    arguments: Cbor,
    skills: Seq<(Seq<char>, Skill)>,
    bodies: Seq<(Seq<char>, Seq<char>)>,
) -> Answer {
    match queries_of(arguments) {
        Err(message) => Answer::Reply(refusal("search:"@, message)),
        Ok(terms) => answer_to(
            terms,
            wants_content(arguments),
            ranked(hits_among(searched_skills(skills, bodies), terms, wants_content(arguments))),
        ),
    }
}

/// Whether a call asks for the files of the skills to be searched too.
pub fn searches_content(arguments: &CborValue) -> (r: bool)
    ensures
        r == wants_content(arguments@),
{
    match cbor_map_bool(arguments, "search_content") {
        Some(search_content) => search_content,
        None => false,
    }
}

/// Decides what follows from the hits of a search.
pub fn answer_search(needles: &Vec<String>, search_content: bool, hits: &Vec<SkillHit>) -> (r: SkillAnswer)
    ensures
        r@ == answer_to(texts(needles@), search_content, hits_view(hits@)),
{
    match skill_name_to_auto_load(needles, hits) {
        Some(name) => SkillAnswer::Load(name),
        None => SkillAnswer::Reply(skill_search_result(needles, search_content, hits)),
    }
}

/// Decides what is to be done about a call: a search that settles on one skill
/// loads it, any other search lists what it found.
pub fn handle_skill_query(
    arguments: &CborValue,
    skills: &TextMap<DiscoveredSkill>,
    bodies: &TextMap<String>,
) -> (r: SkillAnswer)
    ensures
        r@ == query_answer(arguments@, skills@, bodies@),
{
    let needles = match extract_skill_search_queries(arguments) {
        Ok(needles) => needles,
        Err(message) => {
            return SkillAnswer::Reply(refuse("search:", message));
        },
    };
    let search_content = searches_content(arguments);
    let hits = search_discovered_skills(skills, bodies, &needles, search_content);
    answer_search(&needles, search_content, &hits)
}

} // verus!
