//! What holds of structured values: what is read out of a dictionary, how a value is
//! told in words, and what becomes of it in JSON and back.
use vstd::prelude::*;
use crate::assoc::{keys_differ, lemma_missing, lookup_after_stored};
use crate::cbor::{cbor_text, dict_bool, dict_entry, dict_text, entry_texts, item_texts, Cbor};
use crate::context::{
    bodies_in, has_output, headers_in, header_lines, is_output_key, part_of, rendered, reply_items, reply_parts,
    reply_text, response_of, safe_text, timeline, ContextBlock, Item, Part,
};
use crate::json::{cbor_of, finite_text, json_field, json_of, object_of, Json};
use crate::text_laws::one_more_text_is_joined;

verus! {

/// What stands first under a key is what a dictionary holds there.
pub proof fn the_first_entry_counts(entries: Seq<(Cbor, Cbor)>, key: Seq<char>, i: int)
    requires
        0 <= i < entries.len(),
        entries[i].0 == Cbor::Text(key),
        forall|j: int| 0 <= j < i ==> (#[trigger] entries[j]).0 != Cbor::Text(key),
    ensures
        dict_entry(Cbor::Dict(entries), key) == Some(entries[i].1),
        entries[i].1 matches Cbor::Text(s) ==> dict_text(Cbor::Dict(entries), key) == Some(s),
        entries[i].1 matches Cbor::Bool(b) ==> dict_bool(Cbor::Dict(entries), key) == Some(b),
    decreases entries.len(),
{
    if i > 0 {
        let rest = entries.drop_first();
        assert(entries[0].0 != Cbor::Text(key));
        assert forall|j: int| 0 <= j < i - 1 implies (#[trigger] rest[j]).0 != Cbor::Text(key) by {
            assert(rest[j] == entries[j + 1]);
        }
        the_first_entry_counts(rest, key, i - 1);
    }
}

/// A dictionary holds nothing under a key that it does not have.
pub proof fn missing_keys_hold_nothing(entries: Seq<(Cbor, Cbor)>, key: Seq<char>)
    requires
        forall|j: int| 0 <= j < entries.len() ==> (#[trigger] entries[j]).0 != Cbor::Text(key),
    ensures
        dict_entry(Cbor::Dict(entries), key) is None,
        dict_text(Cbor::Dict(entries), key) is None,
        dict_bool(Cbor::Dict(entries), key) is None,
    decreases entries.len(),
{
    if entries.len() > 0 {
        let rest = entries.drop_first();
        assert(entries[0].0 != Cbor::Text(key));
        assert forall|j: int| 0 <= j < rest.len() implies (#[trigger] rest[j]).0 != Cbor::Text(key) by {
            assert(rest[j] == entries[j + 1]);
        }
        missing_keys_hold_nothing(rest, key);
    }
}

/// A string is told as it is, and a tag makes no difference.
pub proof fn texts_are_told_as_they_are(s: Seq<char>, tag: u64, v: Cbor)
    ensures
        cbor_text(Cbor::Text(s)) == s,
        cbor_text(Cbor::Tag(tag, Box::new(v))) == cbor_text(v),
        reply_text(Cbor::Text(s)) == s,
        reply_text(Cbor::Tag(tag, Box::new(v))) == reply_text(v),
        response_of(Cbor::Text(s)).body == s,
        response_of(Cbor::Text(s)).headers.len() == 0,
{
}

/// One more item of a list is told on a line of its own behind the others.
pub proof fn items_are_told_line_by_line(items: Seq<Cbor>, v: Cbor)
    ensures
        cbor_text(Cbor::Array(Seq::empty())) == Seq::<char>::empty(),
        cbor_text(Cbor::Array(seq![v])) == cbor_text(v),
        items.len() > 0 ==> cbor_text(Cbor::Array(items.push(v))) == cbor_text(Cbor::Array(items)) + "\n"@ + cbor_text(v),
{
    assert(item_texts(Seq::empty()) =~= Seq::empty());
    assert(item_texts(seq![v]) =~= seq![cbor_text(v)]);
    assert(item_texts(items.push(v)) =~= item_texts(items).push(cbor_text(v)));
    one_more_text_is_joined(item_texts(items), cbor_text(v), "\n"@);
}

/// One more entry of a dictionary is told behind the others as its key and its value; a
/// value of several lines begins on the next line.
pub proof fn entries_are_told_line_by_line(entries: Seq<(Cbor, Cbor)>, key: Cbor, v: Cbor)
    ensures
        ({
            let line = cbor_text(key) + (if cbor_text(v).contains('\n') {
                ":\n"@
            } else {
                ": "@
            }) + cbor_text(v);
            &&& cbor_text(Cbor::Dict(seq![(key, v)])) == line
            &&& entries.len() > 0 ==> cbor_text(Cbor::Dict(entries.push((key, v)))) == cbor_text(Cbor::Dict(entries))
                + "\n"@ + line
        }),
{
    let line = cbor_text(key) + (if cbor_text(v).contains('\n') {
        ":\n"@
    } else {
        ": "@
    }) + cbor_text(v);
    assert(entry_texts(seq![(key, v)]) =~= seq![line]);
    assert(entry_texts(entries.push((key, v))) =~= entry_texts(entries).push(line));
    one_more_text_is_joined(entry_texts(entries), line, "\n"@);
}

/// Whether an item of a list is a dictionary.
pub open spec fn has_dict(items: Seq<Cbor>) -> bool {
    exists|i: int| 0 <= i < items.len() && #[trigger] items[i] is Dict
}

/// The items of a list of plain values are told line by line to a provider.
pub proof fn plain_items_are_replied_line_by_line(items: Seq<Cbor>, v: Cbor)
    requires
        !has_dict(items),
        !(v is Dict),
    ensures
        reply_text(Cbor::Array(seq![v])) == reply_text(v),
        items.len() > 0 ==> reply_text(Cbor::Array(items.push(v))) == reply_text(Cbor::Array(items)) + "\n"@
            + reply_text(v),
{
    let more = items.push(v);
    assert forall|i: int| 0 <= i < more.len() implies !(#[trigger] more[i] is Dict) by {
        if i < items.len() {
            assert(more[i] == items[i]);
        }
    }
    assert(!has_dict(more));
    assert(reply_items(seq![v]) =~= seq![reply_text(v)]);
    assert(reply_items(more) =~= reply_items(items).push(reply_text(v)));
    one_more_text_is_joined(reply_items(items), reply_text(v), "\n"@);
}

proof fn lemma_output_push(entries: Seq<(Cbor, Cbor)>, key: Seq<char>, v: Cbor)
    ensures
        has_output(entries.push((Cbor::Text(key), v))) == (has_output(entries) || is_output_key(key)),
{
    let more = entries.push((Cbor::Text(key), v));
    assert(more[entries.len() as int] == (Cbor::Text(key), v));
    if has_output(entries) {
        let i = choose|i: int|
            0 <= i < entries.len() && (#[trigger] entries[i]).0 is Text && is_output_key(entries[i].0->Text_0);
        assert(more[i] == entries[i]);
    }
    if has_output(more) {
        let i = choose|i: int| 0 <= i < more.len() && (#[trigger] more[i]).0 is Text && is_output_key(more[i].0->Text_0);
        if i < entries.len() {
            assert(entries[i] == more[i]);
        }
    }
}

proof fn lemma_parts_push(entries: Seq<(Cbor, Cbor)>, key: Seq<char>, v: Cbor)
    requires
        has_output(entries.push((Cbor::Text(key), v))) == has_output(entries),
    ensures
        ({
            let more = entries.push((Cbor::Text(key), v));
            let part = part_of(key, reply_text(v), has_output(entries));
            &&& reply_parts(more) == reply_parts(entries).push(part)
            &&& headers_in(reply_parts(more)) == (match part {
                Part::Header(k, t) => headers_in(reply_parts(entries)).push((k, t)),
                _ => headers_in(reply_parts(entries)),
            })
            &&& bodies_in(reply_parts(more)) == (match part {
                Part::Body(t) => bodies_in(reply_parts(entries)).push(t),
                _ => bodies_in(reply_parts(entries)),
            })
        }),
{
    let more = entries.push((Cbor::Text(key), v));
    let part = part_of(key, reply_text(v), has_output(entries));
    assert(reply_text(Cbor::Text(key)) == key);
    assert(reply_parts(more) =~= reply_parts(entries).push(part));
    assert(reply_parts(entries).push(part).drop_last() =~= reply_parts(entries));
}

/// One more entry of one line, which is neither the output nor left out, is one more
/// header of the response, and the body stays.
pub proof fn lines_become_headers(entries: Seq<(Cbor, Cbor)>, key: Seq<char>, v: Cbor)
    requires
        key != "output"@,
        key != "line-numbered content"@,
        key == "data"@ ==> !has_output(entries),
        !reply_text(v).contains('\n'),
    ensures
        ({
            let before = response_of(Cbor::Dict(entries));
            let after = response_of(Cbor::Dict(entries.push((Cbor::Text(key), v))));
            &&& after.headers == before.headers.push((key, reply_text(v)))
            &&& after.body == before.body
            &&& after.raw == Cbor::Dict(entries.push((Cbor::Text(key), v)))
        }),
{
    lemma_output_push(entries, key, v);
    lemma_parts_push(entries, key, v);
}

/// The output of a tool is the body of the response, as it is.
pub proof fn outputs_become_bodies(entries: Seq<(Cbor, Cbor)>, key: Seq<char>, v: Cbor)
    requires
        key == "output"@ || key == "line-numbered content"@,
        forall|i: int| 0 <= i < entries.len() ==> reply_text((#[trigger] entries[i]).0) != "data"@,
        forall|i: int| 0 <= i < entries.len() ==> !is_output_key(reply_text((#[trigger] entries[i]).0)),
        forall|i: int| 0 <= i < entries.len() ==> !reply_text((#[trigger] entries[i]).1).contains('\n'),
    ensures
        ({
            let before = response_of(Cbor::Dict(entries));
            let after = response_of(Cbor::Dict(entries.push((Cbor::Text(key), v))));
            &&& after.body == reply_text(v)
            &&& after.headers == before.headers
            &&& before.headers.len() == entries.len()
            &&& forall|i: int|
                0 <= i < entries.len() ==> before.headers[i] == (reply_text((#[trigger] entries[i]).0), reply_text(entries[i].1))
        }),
{
    let more = entries.push((Cbor::Text(key), v));
    reveal_strlit("output");
    reveal_strlit("line-numbered content");
    reveal_strlit("data");
    assert("output"@.len() == 6 && "line-numbered content"@.len() == 21 && "data"@.len() == 4);
    assert(reply_text(Cbor::Text(key)) == key);
    assert(more[entries.len() as int] == (Cbor::Text(key), v));
    assert(has_output(more));
    let parts = reply_parts(entries);
    assert forall|i: int| 0 <= i < parts.len() implies #[trigger] parts[i] == Part::Header(
        reply_text(entries[i].0),
        reply_text(entries[i].1),
    ) by {}
    assert(reply_parts(more) =~= parts.push(Part::Body(reply_text(v)))) by {
        assert forall|i: int| 0 <= i < entries.len() implies #[trigger] reply_parts(more)[i] == parts[i] by {
            assert(more[i] == entries[i]);
        }
    }
    assert(parts.push(Part::Body(reply_text(v))).drop_last() =~= parts);
    lemma_all_headers(parts);
    assert(bodies_in(reply_parts(more)) =~= seq![reply_text(v)]);
    one_more_text_is_joined(Seq::empty(), reply_text(v), "\n"@);
    assert forall|i: int| 0 <= i < entries.len() implies headers_in(parts)[i] == (
        reply_text((#[trigger] entries[i]).0),
        reply_text(entries[i].1),
    ) by {
        assert(parts[i] == Part::Header(headers_in(parts)[i].0, headers_in(parts)[i].1));
    }
}

proof fn lemma_all_headers(parts: Seq<Part>)
    requires
        forall|i: int| 0 <= i < parts.len() ==> #[trigger] parts[i] is Header,
    ensures
        bodies_in(parts).len() == 0,
        headers_in(parts).len() == parts.len(),
        forall|i: int| 0 <= i < parts.len() ==> #[trigger] parts[i] == Part::Header(headers_in(parts)[i].0, headers_in(parts)[i].1),
    decreases parts.len(),
{
    if parts.len() > 0 {
        let short = parts.drop_last();
        assert forall|i: int| 0 <= i < short.len() implies #[trigger] short[i] is Header by {
            assert(short[i] == parts[i]);
        }
        lemma_all_headers(short);
        assert forall|i: int| 0 <= i < parts.len() implies #[trigger] parts[i] == Part::Header(
            headers_in(parts)[i].0,
            headers_in(parts)[i].1,
        ) by {
            if i < short.len() {
                assert(short[i] == parts[i]);
            }
        }
        assert(parts.last() is Header) by {
            assert(parts[parts.len() - 1] is Header);
        }
    }
}

/// A value of several lines goes into the body under its key.
pub proof fn several_lines_go_into_the_body(entries: Seq<(Cbor, Cbor)>, key: Seq<char>, v: Cbor)
    requires
        key != "output"@,
        key != "line-numbered content"@,
        key == "data"@ ==> !has_output(entries),
        reply_text(v).contains('\n'),
    ensures
        ({
            let before = response_of(Cbor::Dict(entries));
            let after = response_of(Cbor::Dict(entries.push((Cbor::Text(key), v))));
            let piece = safe_text(key, false) + ":\n"@ + reply_text(v);
            &&& after.headers == before.headers
            &&& after.body == piece || after.body == before.body + "\n"@ + piece
            &&& before.body.len() > 0 ==> after.body == before.body + "\n"@ + piece
        }),
{
    lemma_output_push(entries, key, v);
    lemma_parts_push(entries, key, v);
    let bodies = bodies_in(reply_parts(entries));
    let piece = safe_text(key, false) + ":\n"@ + reply_text(v);
    one_more_text_is_joined(bodies, piece, "\n"@);
    if bodies.len() == 0 {
        assert(bodies.push(piece) =~= seq![piece]);
    }
}

/// Structured data beside an output is left out.
pub proof fn data_beside_an_output_is_left_out(entries: Seq<(Cbor, Cbor)>, v: Cbor)
    requires
        has_output(entries),
    ensures
        ({
            let before = response_of(Cbor::Dict(entries));
            let after = response_of(Cbor::Dict(entries.push((Cbor::Text("data"@), v))));
            after.headers == before.headers && after.body == before.body
        }),
{
    lemma_output_push(entries, "data"@, v);
    lemma_parts_push(entries, "data"@, v);
}

/// A response is written as one line for each header, an empty line and the body;
/// without headers it is the body.
pub proof fn responses_are_written_header_by_header(
    headers: Seq<(Seq<char>, Seq<char>)>,
    key: Seq<char>,
    value: Seq<char>,
    body: Seq<char>,
)
    ensures
        rendered(Seq::empty(), body) == safe_text(body, true),
        rendered(seq![(key, value)], body) == safe_text(key, false) + ": "@ + safe_text(value, false) + seq!['\n', '\n']
            + safe_text(body, true),
        rendered(seq![(key, value)] + headers, body) == safe_text(key, false) + ": "@ + safe_text(value, false)
            + seq!['\n'] + (if headers.len() > 0 {
            rendered(headers, body)
        } else {
            seq!['\n'] + safe_text(body, true)
        }),
    decreases headers.len(),
{
    let line = safe_text(key, false) + ": "@ + safe_text(value, false) + seq!['\n'];
    lemma_first_line(headers, key, value);
    lemma_first_line(Seq::empty(), key, value);
    assert(seq![(key, value)] + Seq::<(Seq<char>, Seq<char>)>::empty() =~= seq![(key, value)]);
    assert(rendered(Seq::empty(), body) =~= safe_text(body, true));
    let start = safe_text(key, false) + ": "@ + safe_text(value, false);
    lemma_blank_line(start, safe_text(body, true));
    if headers.len() > 0 {
        lemma_five_in_a_row(line, header_lines(headers), seq!['\n'], safe_text(body, true), Seq::empty());
        lemma_and_nothing(line + header_lines(headers) + seq!['\n'] + safe_text(body, true));
        lemma_and_nothing(header_lines(headers) + seq!['\n'] + safe_text(body, true));
    } else {
        lemma_and_nothing(line);
        lemma_three_in_a_row(line, seq!['\n'], safe_text(body, true));
    }
}

proof fn lemma_five_in_a_row(x: Seq<char>, a: Seq<char>, b: Seq<char>, c: Seq<char>, d: Seq<char>)
    ensures
        x + a + b + c + d == x + (a + b + c + d),
{
    assert(x + a + b + c + d =~= x + (a + b + c + d));
}

proof fn lemma_three_in_a_row(x: Seq<char>, y: Seq<char>, z: Seq<char>)
    ensures
        (x + y) + z == x + (y + z),
{
    assert((x + y) + z =~= x + (y + z));
}

proof fn lemma_and_nothing(x: Seq<char>)
    ensures
        x + Seq::<char>::empty() == x,
{
    assert(x + Seq::<char>::empty() =~= x);
}

proof fn lemma_blank_line(x: Seq<char>, y: Seq<char>)
    ensures
        x + seq!['\n'] + Seq::<char>::empty() + seq!['\n'] + y == x + seq!['\n', '\n'] + y,
{
    assert(x + seq!['\n'] + Seq::<char>::empty() + seq!['\n'] =~= x + seq!['\n', '\n']);
}

proof fn lemma_first_line(headers: Seq<(Seq<char>, Seq<char>)>, key: Seq<char>, value: Seq<char>)
    ensures
        header_lines(seq![(key, value)] + headers) == safe_text(key, false) + ": "@ + safe_text(value, false)
            + seq!['\n'] + header_lines(headers),
    decreases headers.len(),
{
    let all = seq![(key, value)] + headers;
    let line = safe_text(key, false) + ": "@ + safe_text(value, false) + seq!['\n'];
    if headers.len() == 0 {
        assert(all =~= seq![(key, value)]);
        assert(all.drop_last() =~= Seq::empty());
        assert(header_lines(Seq::empty()) == Seq::<char>::empty());
        lemma_five_in_a_row(Seq::empty(), safe_text(key, false), ": "@, safe_text(value, false), seq!['\n']);
        assert(header_lines(all) == Seq::<char>::empty() + line);
        assert(Seq::<char>::empty() + line =~= line + Seq::<char>::empty());
    } else {
        let short = headers.drop_last();
        lemma_first_line(short, key, value);
        assert(all.drop_last() =~= seq![(key, value)] + short);
        assert(all.last() == headers.last());
        let k = safe_text(headers.last().0, false);
        let v = safe_text(headers.last().1, false);
        let last = k + ": "@ + v + seq!['\n'];
        lemma_five_in_a_row(header_lines(all.drop_last()), k, ": "@, v, seq!['\n']);
        lemma_five_in_a_row(header_lines(short), k, ": "@, v, seq!['\n']);
        lemma_three_in_a_row(line, header_lines(short), last);
        assert(header_lines(all) == header_lines(all.drop_last()) + last);
        assert(header_lines(headers) == header_lines(short) + last);
    }
}

/// A timeline is the items of its blocks, one block behind the other.
pub proof fn timelines_go_on(blocks: Seq<ContextBlock>, more: Seq<ContextBlock>)
    ensures
        timeline(blocks + more) == timeline(blocks) + timeline(more),
        timeline(Seq::empty()) == Seq::<Item>::empty(),
    decreases more.len(),
{
    if more.len() == 0 {
        assert(blocks + more =~= blocks);
        assert(timeline(blocks) + timeline(more) =~= timeline(blocks));
    } else {
        timelines_go_on(blocks, more.drop_last());
        assert((blocks + more).drop_last() =~= blocks + more.drop_last());
        assert(timeline(blocks + more) =~= timeline(blocks) + timeline(more));
    }
}

/// The items of one block are those that it was filled with, in their order.
pub proof fn blocks_hold_their_items(block: ContextBlock, i: int)
    ensures
        match block {
            ContextBlock::UserInput(b) => timeline(seq![block]).len() == b.items@.len() && (0 <= i < b.items@.len()
                ==> timeline(seq![block])[i] == b.items@[i]@),
            ContextBlock::AssistantResponse(b) => timeline(seq![block]).len() == b.output_items@.len() && (0 <= i
                < b.output_items@.len() ==> timeline(seq![block])[i] == b.output_items@[i]@),
            ContextBlock::ToolResults(b) => timeline(seq![block]).len() == b.items@.len() && (0 <= i < b.items@.len()
                ==> timeline(seq![block])[i] == Item::ToolResult(b.items@[i]@)),
        },
{
    reveal_with_fuel(timeline, 2);
    assert(seq![block].drop_last() =~= Seq::empty());
}

proof fn lemma_object_alike(entries: Seq<(Cbor, Cbor)>, more: Seq<(Cbor, Cbor)>, n: nat)
    requires
        n <= entries.len() <= more.len(),
        forall|i: int| 0 <= i < n ==> #[trigger] entries[i] == more[i],
    ensures
        object_of(entries, n) == object_of(more, n),
    decreases n,
{
    if n > 0 {
        lemma_object_alike(entries, more, (n - 1) as nat);
        assert(entries[n - 1] == more[n - 1]);
    }
}

/// What a dictionary holds under a key, its JSON form holds under the same key, and of
/// two entries with one key the later one counts.
pub proof fn entries_become_fields(entries: Seq<(Cbor, Cbor)>, key: Seq<char>, v: Cbor, other: Seq<char>)
    ensures
        json_field(json_of(Cbor::Dict(entries.push((Cbor::Text(key), v)))), other) == (if other == key {
            Some(json_of(v))
        } else {
            json_field(json_of(Cbor::Dict(entries)), other)
        }),
        json_field(json_of(Cbor::Dict(Seq::empty())), other) is None,
{
    let more = entries.push((Cbor::Text(key), v));
    lemma_object_alike(entries, more, entries.len());
    assert(more[entries.len() as int] == (Cbor::Text(key), v));
    reveal_with_fuel(crate::json::key_of, 2);
    reveal_with_fuel(object_of, 2);
    assert(crate::json::key_of(Cbor::Text(key)) == key);
    assert(object_of(more, more.len()) == crate::assoc::stored(object_of(entries, entries.len()), key, json_of(v)));
    lookup_after_stored(object_of(entries, entries.len()), key, json_of(v), other);
    lemma_missing(Seq::<(Seq<char>, Json)>::empty(), other, Json::Null);
    assert(object_of(Seq::<(Cbor, Cbor)>::empty(), 0) =~= Seq::empty());
}

/// A tag makes no difference in JSON, the items of a list stay in their places, bytes
/// become numbers, and what is no number becomes null.
pub proof fn values_become_json(items: Seq<Cbor>, bytes: Seq<u8>, s: Seq<char>, tag: u64, v: Cbor, i: int)
    ensures
        json_of(Cbor::Tag(tag, Box::new(v))) == json_of(v),
        json_of(Cbor::Array(items)) matches Json::Array(made) && made.len() == items.len() && (0 <= i < items.len() ==> made[i]
            == json_of(items[i])),
        json_of(Cbor::Bytes(bytes)) matches Json::Array(made) && made.len() == bytes.len() && (0 <= i < bytes.len()
            ==> made[i] == Json::Integer(bytes[i] as int)),
        json_of(Cbor::Text(s)) == Json::Text(s),
        s == "NaN"@ || s == "inf"@ || s == "-inf"@ ==> json_of(Cbor::Float(s)) == Json::Null,
{
}

/// Whether a JSON value has no key twice and holds finite numbers only.
pub open spec fn tidy(v: Json) -> bool
    decreases v,
{
    match v {
        Json::Float(s) => finite_text(s),
        Json::Array(items) => forall|i: int| 0 <= i < items.len() ==> tidy(#[trigger] items[i]),
        Json::Object(entries) => keys_differ(entries) && forall|i: int|
            0 <= i < entries.len() ==> tidy((#[trigger] entries[i]).1),
        _ => true,
    }
}

/// A JSON value that was made a structured value is read back as it was.
pub proof fn json_comes_back(v: Json)
    requires
        tidy(v),
    ensures
        json_of(cbor_of(v)) == v,
    decreases v,
{
    match v {
        Json::Array(items) => {
            let made = cbor_of(v)->Array_0;
            assert forall|i: int| 0 <= i < items.len() implies json_of(#[trigger] made[i]) == items[i] by {
                assert(tidy(items[i]));
                json_comes_back(items[i]);
            }
            assert(json_of(cbor_of(v))->Array_0 =~= items);
        },
        Json::Object(entries) => {
            let made = cbor_of(v)->Dict_0;
            assert forall|i: int| 0 <= i < entries.len() implies json_of((#[trigger] made[i]).1) == entries[i].1 by {
                assert(tidy(entries[i].1));
                json_comes_back(entries[i].1);
            }
            lemma_object_back(entries, made, entries.len());
            assert(entries.take(entries.len() as int) =~= entries);
        },
        _ => {},
    }
}

proof fn lemma_object_back(entries: Seq<(Seq<char>, Json)>, made: Seq<(Cbor, Cbor)>, n: nat)
    requires
        keys_differ(entries),
        n <= entries.len(),
        made.len() == entries.len(),
        forall|i: int|
            0 <= i < entries.len() ==> (#[trigger] made[i]).0 == Cbor::Text(entries[i].0) && json_of(made[i].1)
                == entries[i].1,
    ensures
        object_of(made, n) == entries.take(n as int),
    decreases n,
{
    if n == 0 {
        assert(object_of(made, n) =~= entries.take(0));
    } else {
        let m = (n - 1) as nat;
        lemma_object_back(entries, made, m);
        assert(made[m as int].0 == Cbor::Text(entries[m as int].0));
        reveal_with_fuel(crate::json::key_of, 2);
        reveal_with_fuel(object_of, 2);
        assert(crate::json::key_of(made[m as int].0) == entries[m as int].0);
        let before = entries.take(m as int);
        assert forall|k: int| 0 <= k < before.len() implies (#[trigger] before[k]).0 != entries[m as int].0 by {
            assert(before[k] == entries[k]);
        }
        lemma_missing(before, entries[m as int].0, entries[m as int].1);
        assert(before.push(entries[m as int]) =~= entries.take(n as int));
    }
}

} // verus!
