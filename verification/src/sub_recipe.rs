//! Recipes that a recipe runs as part of itself.

use vstd::prelude::*;

#[allow(unused_imports)]
use crate::string_map::{
    distinct_keys, lemma_last_value_counts, lemma_map_of_any_order, lemma_map_of_keys, map_of,
    pairs_within,
};
use crate::string_map::StringMap;

verus! {

/// A recipe that another recipe runs.
#[derive(Debug, Clone)]
pub struct SubRecipe {
    pub name: String,
    pub path: String,
    /// Values for the parameters of the sub-recipe.
    pub values: Option<StringMap>,
    pub sequential_when_repeated: bool,
    pub description: Option<String>,
}

/// The text that `serde_json::Value::as_str` gives: that of a string value.
pub uninterp spec fn json_string(value: serde_json::Value) -> Option<Seq<char>>;

/// The text that `serde_json::to_string` writes for a value.
pub uninterp spec fn json_text(value: serde_json::Value) -> Seq<char>;

/// Trusted: `serde_json::Value::as_str` returns the text of a string value, and
/// `None` for a value of any other kind. What it returns depends on the value
/// alone.
pub assume_specification[ serde_json::Value::as_str ](value: &serde_json::Value) -> (r: Option<
    &str,
>)
    ensures
        (match r {
            Some(text) => Some(text@),
            None => None,
        }) == json_string(*value),
;

/// Trusted: `serde_json::to_string`, given a `serde_json::Value`, writes it as compact
/// JSON text. That cannot fail: the keys of an object are strings, a number that JSON
/// has no text for is written as `null`, and the text goes to memory. The text depends
/// on the value alone.
#[verifier::external_body]
fn write_json(value: &serde_json::Value) -> (r: Result<String, String>)
    ensures
        r is Ok,
        r->Ok_0@ == json_text(*value),
{
    match serde_json::to_string(value) {
        Ok(text) => Ok(text),
        Err(error) => Err(error.to_string()),
    }
}

/// The text that stands for a JSON value: a string as it is, any other value as JSON
/// text.
pub open spec fn value_text(value: serde_json::Value) -> Seq<char> {
    match json_string(value) {
        Some(text) => text,
        None => json_text(value),
    }
}

/// The text that stands for a JSON value: a string as it is, any other value as JSON
/// text. Every value has one.
pub fn value_as_string(value: &serde_json::Value) -> (r: Result<String, String>)
    ensures
        r matches Ok(text) && text@ == value_text(*value),
{
    match value.as_str() {
        Some(text) => Ok(text.to_owned()),
        None => write_json(value),
    }
}

/// What a result of two strings says.
pub open spec fn result_view(result: Result<String, String>) -> Result<Seq<char>, Seq<char>> {
    match result {
        Ok(text) => Ok(text@),
        Err(message) => Err(message@),
    }
}

/// A key with what came of its value.
pub open spec fn keyed_results(entries: Seq<(String, Result<String, String>)>) -> Seq<
    (Seq<char>, Result<Seq<char>, Seq<char>>),
> {
    entries.map_values(|e: (String, Result<String, String>)| (e.0@, result_view(e.1)))
}

/// The map of the entries, if each has a value; else the error of the first that
/// has none.
pub open spec fn collected(entries: Seq<(Seq<char>, Result<Seq<char>, Seq<char>>)>) -> Result<
    Map<Seq<char>, Seq<char>>,
    Seq<char>,
>
    decreases entries.len(),
{
    if entries.len() == 0 {
        Ok(Map::empty())
    } else {
        match collected(entries.drop_last()) {
            Err(message) => Err(message),
            Ok(map) => match entries.last().1 {
                Err(message) => Err(message),
                Ok(text) => Ok(map.insert(entries.last().0, text)),
            },
        }
    }
}

/// Collects values into a map. Where a key occurs more than once, its last value
/// counts; an entry without a value is an error.
pub fn collect_values(entries: Vec<(String, Result<String, String>)>) -> (r: Result<
    StringMap,
    String,
>)
    ensures
        match r {
            Ok(map) => collected(keyed_results(entries@)) == Ok::<_, Seq<char>>(map@),
            Err(message) => collected(keyed_results(entries@)) == Err::<
                Map<Seq<char>, Seq<char>>,
                _,
            >(message@),
        },
{
    let mut map = StringMap::new();
    let ghost all = keyed_results(entries@);
    for i in 0..entries.len()
        invariant
            all == keyed_results(entries@),
            collected(all.take(i as int)) == Ok::<_, Seq<char>>(map@),
    {
        assert(all.take(i + 1).drop_last() =~= all.take(i as int));
        assert(all.take(i + 1).last() == all[i as int]);
        match &entries[i].1 {
            Ok(text) => {
                map.insert(entries[i].0.clone(), text.clone());
            },
            Err(message) => {
                proof {
                    lemma_collected_error(all, i + 1);
                }
                return Err(message.clone());
            },
        }
    }
    assert(all.take(all.len() as int) =~= all);
    Ok(map)
}

/// Once an entry failed, those after it make no difference.
proof fn lemma_collected_error(
    entries: Seq<(Seq<char>, Result<Seq<char>, Seq<char>>)>,
    n: int,
)
    requires
        0 <= n <= entries.len(),
        collected(entries.take(n)) is Err,
    ensures
        collected(entries) == collected(entries.take(n)),
    decreases entries.len(),
{
    if n < entries.len() {
        assert(entries.drop_last().take(n) =~= entries.take(n));
        lemma_collected_error(entries.drop_last(), n);
    } else {
        assert(entries.take(n) =~= entries);
    }
}

/// The entries of a map of JSON values, with the text of each value.
pub open spec fn value_texts(raw: Seq<(String, serde_json::Value)>) -> Seq<
    (Seq<char>, Seq<char>),
> {
    raw.map_values(|e: (String, serde_json::Value)| (e.0@, value_text(e.1)))
}

/// Reads a map of JSON values as a map of texts: a string as it is, any other value
/// as JSON text. No map stays no map.
pub fn deserialize_value_map_as_string(opt_raw: Option<Vec<(String, serde_json::Value)>>) -> (r:
    Result<Option<StringMap>, String>)
    ensures
        match opt_raw {
            Some(raw) => r matches Ok(Some(map)) && map@ == map_of(value_texts(raw@)),
            None => r matches Ok(None),
        },
{
    match opt_raw {
        Some(raw) => {
            let mut entries: Vec<(String, Result<String, String>)> = Vec::new();
            let ghost texts = value_texts(raw@);
            for i in 0..raw.len()
                invariant
                    texts == value_texts(raw@),
                    entries@.len() == i,
                    forall|j: int|
                        0 <= j < i ==> #[trigger] keyed_results(entries@)[j] == (
                            texts[j].0,
                            Ok::<Seq<char>, Seq<char>>(texts[j].1),
                        ),
            {
                let ghost before = entries@;
                entries.push((raw[i].0.clone(), value_as_string(&raw[i].1)));
                assert forall|j: int| 0 <= j <= i implies #[trigger] keyed_results(entries@)[j] == (
                    texts[j].0,
                    Ok::<Seq<char>, Seq<char>>(texts[j].1),
                ) by {
                    if j < i {
                        assert(keyed_results(entries@)[j] == keyed_results(before)[j]);
                    }
                }
            }
            proof {
                lemma_collected(keyed_results(entries@));
                assert(valued(keyed_results(entries@)) =~= texts);
            }
            match collect_values(entries) {
                Ok(map) => Ok(Some(map)),
                Err(message) => Err(message),
            }
        },
        None => Ok(None),
    }
}

/// The pairs of a key and a value among entries that each have one.
pub open spec fn valued(entries: Seq<(Seq<char>, Result<Seq<char>, Seq<char>>)>) -> Seq<
    (Seq<char>, Seq<char>),
> {
    entries.map_values(|e: (Seq<char>, Result<Seq<char>, Seq<char>>)| (e.0, e.1->Ok_0))
}

/// Collecting succeeds exactly if each entry has a value, and then gives the map of
/// the entries.
pub proof fn lemma_collected(entries: Seq<(Seq<char>, Result<Seq<char>, Seq<char>>)>)
    ensures
        collected(entries) is Ok <==> forall|i: int|
            0 <= i < entries.len() ==> (#[trigger] entries[i]).1 is Ok,
        collected(entries) matches Ok(map) ==> map == map_of(valued(entries)),
    decreases entries.len(),
{
    if entries.len() > 0 {
        let front = entries.drop_last();
        lemma_collected(front);
        assert(entries[entries.len() - 1] == entries.last());
        assert(forall|i: int| 0 <= i < front.len() ==> #[trigger] entries[i] == front[i]);
        if collected(front) is Err {
            let i = choose|i: int| 0 <= i < front.len() && !((#[trigger] front[i]).1 is Ok);
            assert(!(entries[i].1 is Ok));
        }
        if collected(entries) is Ok {
            assert(valued(entries).drop_last() =~= valued(front));
            assert(valued(entries).last() == (entries.last().0, entries.last().1->Ok_0));
        }
    }
}

/// Each entry of `a` is one of `b`.
pub open spec fn entries_within(
    a: Seq<(Seq<char>, Result<Seq<char>, Seq<char>>)>,
    b: Seq<(Seq<char>, Result<Seq<char>, Seq<char>>)>,
) -> bool {
    forall|i: int| 0 <= i < a.len() ==> b.contains(#[trigger] a[i])
}

proof fn lemma_valued_within(
    a: Seq<(Seq<char>, Result<Seq<char>, Seq<char>>)>,
    b: Seq<(Seq<char>, Result<Seq<char>, Seq<char>>)>,
)
    requires
        entries_within(a, b),
    ensures
        pairs_within(valued(a), valued(b)),
{
    assert forall|i: int| 0 <= i < valued(a).len() implies valued(b).contains(
        #[trigger] valued(a)[i],
    ) by {
        let entry = a[i];
        assert(b.contains(entry));
        let j = choose|j: int| 0 <= j < b.len() && b[j] == entry;
        assert(valued(b)[j] == valued(a)[i]);
    }
}

/// Entries without repeated keys may be collected in any order: whether that succeeds,
/// and the map it gives, depend on the entries alone.
pub proof fn lemma_collected_in_any_order(
    a: Seq<(Seq<char>, Result<Seq<char>, Seq<char>>)>,
    b: Seq<(Seq<char>, Result<Seq<char>, Seq<char>>)>,
)
    requires
        entries_within(a, b),
        entries_within(b, a),
        distinct_keys(valued(a)),
        distinct_keys(valued(b)),
    ensures
        collected(a) is Ok <==> collected(b) is Ok,
        collected(a) is Ok ==> collected(a) == collected(b),
{
    lemma_collected(a);
    lemma_collected(b);
    if collected(a) is Ok {
        assert forall|j: int| 0 <= j < b.len() implies (#[trigger] b[j]).1 is Ok by {
            let i = choose|i: int| 0 <= i < a.len() && #[trigger] a[i] == b[j];
            assert(a[i].1 is Ok);
        }
        lemma_valued_within(a, b);
        lemma_valued_within(b, a);
        lemma_map_of_any_order(valued(a), valued(b));
    }
    if collected(b) is Ok {
        assert forall|i: int| 0 <= i < a.len() implies (#[trigger] a[i]).1 is Ok by {
            let j = choose|j: int| 0 <= j < b.len() && #[trigger] b[j] == a[i];
            assert(b[j].1 is Ok);
        }
    }
}

/// A map of strings is read as it is.
pub proof fn lemma_strings_are_kept(raw: Seq<(String, serde_json::Value)>)
    requires
        forall|i: int| 0 <= i < raw.len() ==> json_string((#[trigger] raw[i]).1) is Some,
    ensures
        map_of(value_texts(raw)) == map_of(
            raw.map_values(|e: (String, serde_json::Value)| (e.0@, json_string(e.1)->0)),
        ),
{
    assert(value_texts(raw) =~= raw.map_values(
        |e: (String, serde_json::Value)| (e.0@, json_string(e.1)->0),
    ));
}

/// A value is stored as it was written: a string as its text, any other value as the
/// JSON text of it, with nothing in between. Of a repeated key the last value counts.
pub proof fn lemma_value_is_stored(raw: Seq<(String, serde_json::Value)>, i: int)
    requires
        0 <= i < raw.len(),
        forall|j: int| i < j < raw.len() ==> (#[trigger] raw[j]).0@ != raw[i].0@,
    ensures
        map_of(value_texts(raw)).dom().contains(raw[i].0@),
        json_string(raw[i].1) matches Some(text) ==> map_of(value_texts(raw))[raw[i].0@] == text,
        json_string(raw[i].1) is None ==> map_of(value_texts(raw))[raw[i].0@] == json_text(
            raw[i].1,
        ),
{
    let texts = value_texts(raw);
    assert forall|j: int| i < j < texts.len() implies (#[trigger] texts[j]).0 != texts[i].0 by {
        assert(raw[j].0@ != raw[i].0@);
    }
    lemma_last_value_counts(texts, i);
}

/// Nothing is stored under a key that was not written.
pub proof fn lemma_only_written_keys(raw: Seq<(String, serde_json::Value)>, key: Seq<char>)
    requires
        forall|i: int| 0 <= i < raw.len() ==> (#[trigger] raw[i]).0@ != key,
    ensures
        !map_of(value_texts(raw)).dom().contains(key),
{
    let texts = value_texts(raw);
    lemma_map_of_keys(texts, key);
    assert forall|i: int| 0 <= i < texts.len() implies (#[trigger] texts[i]).0 != key by {
        assert(raw[i].0@ != key);
    }
}

/// The text of a value is the string, or else the JSON text.
pub proof fn lemma_value_text(value: serde_json::Value)
    ensures
        json_string(value) matches Some(text) ==> value_text(value) == text,
        json_string(value) is None ==> value_text(value) == json_text(value),
{
}

/// The first entry without a value is the error of them all.
pub proof fn lemma_first_error_counts(
    entries: Seq<(Seq<char>, Result<Seq<char>, Seq<char>>)>,
    n: int,
)
    requires
        0 <= n < entries.len(),
        entries[n].1 is Err,
        forall|i: int| 0 <= i < n ==> (#[trigger] entries[i]).1 is Ok,
    ensures
        collected(entries) == Err::<Map<Seq<char>, Seq<char>>, Seq<char>>(entries[n].1->Err_0),
{
    let upto = entries.take(n + 1);
    let front = entries.take(n);
    assert(upto.drop_last() =~= front);
    assert forall|i: int| 0 <= i < front.len() implies (#[trigger] front[i]).1 is Ok by {
        assert(entries[i].1 is Ok);
    }
    lemma_collected(front);
    assert(upto.last() == entries[n]);
    lemma_collected_error(entries, n + 1);
}

/// Where every entry has a value, a key has the value that it was given last.
pub proof fn lemma_collected_value(
    entries: Seq<(Seq<char>, Result<Seq<char>, Seq<char>>)>,
    n: int,
)
    requires
        0 <= n < entries.len(),
        forall|i: int| 0 <= i < entries.len() ==> (#[trigger] entries[i]).1 is Ok,
        forall|i: int| n < i < entries.len() ==> (#[trigger] entries[i]).0 != entries[n].0,
    ensures
        collected(entries) is Ok,
        collected(entries)->Ok_0.dom().contains(entries[n].0),
        collected(entries)->Ok_0[entries[n].0] == entries[n].1->Ok_0,
{
    lemma_collected(entries);
    let pairs = valued(entries);
    assert forall|j: int| n < j < pairs.len() implies (#[trigger] pairs[j]).0 != pairs[n].0 by {
        assert(entries[j].0 != entries[n].0);
    }
    lemma_last_value_counts(pairs, n);
}

/// Where every entry has a value, nothing is collected under a key that no entry has.
pub proof fn lemma_collected_only_keys(
    entries: Seq<(Seq<char>, Result<Seq<char>, Seq<char>>)>,
    key: Seq<char>,
)
    requires
        forall|i: int| 0 <= i < entries.len() ==> (#[trigger] entries[i]).1 is Ok,
        forall|i: int| 0 <= i < entries.len() ==> (#[trigger] entries[i]).0 != key,
    ensures
        collected(entries) is Ok,
        !collected(entries)->Ok_0.dom().contains(key),
{
    lemma_collected(entries);
    let pairs = valued(entries);
    lemma_map_of_keys(pairs, key);
    assert forall|i: int| 0 <= i < pairs.len() implies (#[trigger] pairs[i]).0 != key by {
        assert(entries[i].0 != key);
    }
}

/// Keyed results are the keys and results, one by one.
pub proof fn lemma_keyed_results_one_by_one(entries: Seq<(String, Result<String, String>)>, i: int)
    requires
        0 <= i < entries.len(),
    ensures
        keyed_results(entries).len() == entries.len(),
        keyed_results(entries)[i].0 == entries[i].0@,
        entries[i].1 matches Ok(text) ==> keyed_results(entries)[i].1 == Ok::<
            Seq<char>,
            Seq<char>,
        >(text@),
        entries[i].1 matches Err(message) ==> keyed_results(entries)[i].1 == Err::<
            Seq<char>,
            Seq<char>,
        >(message@),
{
}

} // verus!
