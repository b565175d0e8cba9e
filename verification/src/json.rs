//! Raw JSON values, and merging one JSON object into another.

use vstd::prelude::*;

use crate::text::texts;
use crate::text_map::{
    ascending, keys_of, law_contents_determine_entries, lemma_map_of, map_of, TextMap,
};

verus! {

/// A JSON object whose values are kept as raw JSON text.
pub type JsonMap = TextMap<String>;

/// How `serde_json` prints the value that a JSON text stands for; `None` if it does not read the
/// text as a value.
pub uninterp spec fn json_display(raw: Seq<char>) -> Option<Seq<char>>;

/// The value that `serde_json` reads a JSON text as, up to what it takes to be equal: a number that
/// two texts share exactly if their values are equal. `None` if the text is not read.
pub uninterp spec fn json_value(raw: Seq<char>) -> Option<int>;

/// The JSON string literal that `serde_json` writes for a string.
pub uninterp spec fn json_quote(text: Seq<char>) -> Seq<char>;

/// Reads a JSON text with `serde_json::from_str` into a `serde_json::Value` and prints that value
/// with its `Display` impl. The outcome is named [`json_display`]: it is `None` exactly when the
/// text is not read.
#[verifier::external_body]
fn show_json(raw: &str) -> (shown: Option<String>)
    ensures
        match shown {
            Some(text) => json_display(raw@) == Some(text@),
            None => json_display(raw@) is None,
        },
{
    match serde_json::from_str::<serde_json::Value>(raw) {
        Ok(value) => Some(value.to_string()),
        Err(_) => None,
    }
}

/// Reads two JSON texts with `serde_json::from_str` into `serde_json::Value`s and compares them
/// with the `PartialEq` impl of that type; `None` if one of them is not read. What a text is read
/// as is named [`json_value`]. The claim is that this equality is reflexive, symmetric and
/// transitive: no text is read as a number that differs from itself.
#[verifier::external_body]
fn same_json(a: &str, b: &str) -> (same: Option<bool>)
    ensures
        match same {
            Some(equal) => json_value(a@) is Some && json_value(b@) is Some && equal == (json_value(
                a@,
            ) == json_value(b@)),
            None => json_value(a@) is None || json_value(b@) is None,
        },
{
    let a: serde_json::Value = serde_json::from_str(a).ok()?;
    let b: serde_json::Value = serde_json::from_str(b).ok()?;
    Some(a == b)
}

/// Writes a string as a JSON string literal with `serde_json::to_string`, which never fails on a
/// string. The outcome is named [`json_quote`].
#[verifier::external_body]
pub(crate) fn quote_json(text: &str) -> (quoted: String)
    ensures
        quoted@ == json_quote(text@),
{
    serde_json::to_string(text).expect("a string always serializes")
}

/// A JSON text as it is shown to the user: the value it stands for, or the text itself if it is
/// not one value.
pub open spec fn shown(raw: Seq<char>) -> Seq<char> {
    match json_display(raw) {
        Some(text) => text,
        None => raw,
    }
}

/// The text that shows a JSON value to the user.
pub fn show_value(raw: &str) -> (text: String)
    ensures
        text@ == shown(raw@),
{
    match show_json(raw) {
        Some(text) => text,
        None => raw.to_owned(),
    }
}

/// A key that both maps have, with different values.
pub struct JsonMergeError {
    pub key: String,
    /// The value in the map that is merged from, as raw JSON.
    pub old_value: String,
    /// The value in the map that is merged into, as raw JSON.
    pub new_value: String,
}

/// Whether two JSON texts stand for equal values.
pub open spec fn json_same(a: Seq<char>, b: Seq<char>) -> bool {
    json_value(a) == json_value(b)
}

/// Whether the values of every key that both maps have can be compared.
pub open spec fn mergeable(old: Map<Seq<char>, String>, new: Map<Seq<char>, String>) -> bool {
    forall|key: Seq<char>| #[trigger]
        old.contains_key(key) && #[trigger] new.contains_key(key) ==> {
            &&& json_value(old[key]@) is Some
            &&& json_value(new[key]@) is Some
        }
}

/// Whether an entry stands against a different value for the same key in `new`.
pub open spec fn in_conflict(entry: (String, String), new: Map<Seq<char>, String>) -> bool {
    new.contains_key(entry.0@) && !json_same(entry.1@, new[entry.0@]@)
}

/// One error for each entry of `old` that is in conflict, in the order of the entries.
pub open spec fn merge_errors(
    old: Seq<(String, String)>,
    new: Map<Seq<char>, String>,
) -> Seq<JsonMergeError> {
    old.filter(|entry: (String, String)| in_conflict(entry, new)).map_values(
        |entry: (String, String)|
            JsonMergeError { key: entry.0, old_value: entry.1, new_value: new[entry.0@] },
    )
}

/// Whether `old` has a key that `new` lacks.
pub open spec fn adds_keys(old: Map<Seq<char>, String>, new: Map<Seq<char>, String>) -> bool {
    exists|key: Seq<char>| #[trigger] old.contains_key(key) && !new.contains_key(key)
}

/// The entries of both maps; where both have a key, the value is that of `new`.
pub open spec fn merged_map(
    old: Map<Seq<char>, String>,
    new: Map<Seq<char>, String>,
) -> Map<Seq<char>, String> {
    old.union_prefer_right(new)
}

/// Whether the values that a merge copies are read as JSON.
pub open spec fn copies_are_read(old: Map<Seq<char>, String>, new: Map<Seq<char>, String>) -> bool {
    forall|key: Seq<char>| #[trigger]
        old.contains_key(key) && !new.contains_key(key) ==> json_value(old[key]@) is Some
}

proof fn lemma_merge_errors_step(old: Seq<(String, String)>, n: int, new: Map<Seq<char>, String>)
    requires
        0 <= n < old.len(),
    ensures
        merge_errors(old.take(n + 1), new) == if in_conflict(old[n], new) {
            merge_errors(old.take(n), new).push(
                JsonMergeError {
                    key: old[n].0,
                    old_value: old[n].1,
                    new_value: new[old[n].0@],
                },
            )
        } else {
            merge_errors(old.take(n), new)
        },
{
    let pred = |entry: (String, String)| in_conflict(entry, new);
    assert(old.take(n + 1).drop_last() =~= old.take(n));
    assert(old.take(n + 1).last() == old[n]);
    reveal(Seq::filter);
    assert(old.take(n + 1).filter(pred) == if pred(old[n]) {
        old.take(n).filter(pred).push(old[n])
    } else {
        old.take(n).filter(pred)
    });
    if pred(old[n]) {
        assert(merge_errors(old.take(n + 1), new) =~= merge_errors(old.take(n), new).push(
            JsonMergeError { key: old[n].0, old_value: old[n].1, new_value: new[old[n].0@] },
        ));
    }
}

/// Takes in how the two values of a key compare: reports a conflict unless they are the same.
pub fn note_entry(
    key: &String,
    value: &String,
    new_value: &String,
    same: bool,
    errors: &mut Vec<JsonMergeError>,
)
    ensures
        final(errors)@ == if same {
            old(errors)@
        } else {
            old(errors)@.push(
                JsonMergeError { key: *key, old_value: *value, new_value: *new_value },
            )
        },
{
    if !same {
        errors.push(
            JsonMergeError {
                key: key.clone(),
                old_value: value.clone(),
                new_value: new_value.clone(),
            },
        );
    }
}

/// The outcome of merging one object into another.
pub struct Merge {
    /// The merged object.
    pub merged: JsonMap,
    /// A key was copied.
    pub changed: bool,
    pub errors: Vec<JsonMergeError>,
}

/// Copies the key/value pairs of a JSON object from `old` to `new`, and returns the merged object
/// whether or not a key was copied.
pub(crate) fn merge_into(old: JsonMap, new: JsonMap) -> (result: Merge)
    requires
        mergeable(old@, new@),
    ensures
        result.changed == adds_keys(old@, new@),
        result.merged@ == merged_map(old@, new@),
        result.errors@ == merge_errors(old.entries(), new@),
{
    let ghost start = new@;
    let ghost all = old.entries();
    let ghost old_map = old@;
    let entries = old.into_entries();
    let mut merged = new;
    let mut errors: Vec<JsonMergeError> = Vec::new();
    let mut changed = false;
    let mut i: usize = 0;
    proof {
        reveal(Seq::filter);
        assert(errors@ =~= merge_errors(all.take(0), start));
    }
    while i < entries.len()
        invariant
            entries@ == all,
            old_map == map_of(all),
            ascending(keys_of(all)),
            mergeable(old_map, start),
            0 <= i <= all.len(),
            errors@ == merge_errors(all.take(i as int), start),
            forall|key: Seq<char>|
                #![trigger merged@.contains_key(key)]
                merged@.contains_key(key) <==> start.contains_key(key) || exists|j: int|
                    0 <= j < i && (#[trigger] all[j]).0@ == key,
            forall|key: Seq<char>|
                #![trigger merged@[key]]
                start.contains_key(key) ==> merged@[key] == start[key],
            forall|j: int|
                0 <= j < i && !start.contains_key((#[trigger] all[j]).0@) ==> merged@[all[j].0@]
                    == all[j].1,
            changed <==> exists|j: int| 0 <= j < i && !start.contains_key((#[trigger] all[j]).0@),
        decreases all.len() - i,
    {
        let ghost before = merged@;
        proof {
            lemma_merge_errors_step(all, i as int, start);
            lemma_map_of(all, i as int);
            assert forall|j: int| 0 <= j < i implies (#[trigger] all[j]).0@ != all[i as int].0@ by {
                assert(keys_of(all)[j] == all[j].0@);
                assert(keys_of(all)[i as int] == all[i as int].0@);
                crate::text::lemma_text_order(all[j].0@, all[i as int].0@);
            }
        }
        let key = &entries[i].0;
        let value = &entries[i].1;
        match merged.get(key.as_str()) {
            None => {
                merged.insert(key.clone(), value.clone());
                changed = true;
            },
            Some(new_value) => {
                match same_json(value.as_str(), new_value.as_str()) {
                    Some(same) => note_entry(key, value, new_value, same, &mut errors),
                    None => {
                        assert(false);
                    },
                }
            },
        }
        i = i + 1;
    }
    proof {
        assert(all.take(all.len() as int) =~= all);
        assert forall|key: Seq<char>| old_map.contains_key(key) implies exists|j: int|
            0 <= j < all.len() && (#[trigger] all[j]).0@ == key by {
            let j = choose|j: int| 0 <= j < keys_of(all).len() && keys_of(all)[j] == key;
            assert(all[j].0@ == key);
        }
        assert forall|j: int| 0 <= j < all.len() implies old_map.contains_key(
            (#[trigger] all[j]).0@,
        ) && old_map[all[j].0@] == all[j].1 by {
            lemma_map_of(all, j);
        }
        assert(merged@ =~= merged_map(old_map, start));
    }
    Merge { merged, changed, errors }
}

/// Copies the key/value pairs of a JSON object from `old` to `new`.
///
/// If no key was copied, the map in the result is `None`. A key that both have keeps its value in
/// `new`; if the values differ, that is reported as an error.
pub fn merge_json(old: JsonMap, new: JsonMap) -> (result: (Option<JsonMap>, Vec<JsonMergeError>))
    requires
        mergeable(old@, new@),
    ensures
        result.0 is Some <==> adds_keys(old@, new@),
        result.0 matches Some(merged) ==> merged@ == merged_map(old@, new@),
        result.1@ == merge_errors(old.entries(), new@),
{
    let Merge { merged, changed, errors } = merge_into(old, new);
    if changed {
        (Some(merged), errors)
    } else {
        (None, errors)
    }
}

/// Whether two maps can be merged: the values of every key that both have must be read by
/// `serde_json`.
pub fn can_merge(old: &JsonMap, new: &JsonMap) -> (can: bool)
    ensures
        can == mergeable(old@, new@),
{
    let mut i: usize = 0;
    while i < old.len()
        invariant
            0 <= i <= old.entries().len(),
            forall|j: int|
                0 <= j < i && new@.contains_key((#[trigger] old.entries()[j]).0@) ==> {
                    &&& json_value(old.entries()[j].1@) is Some
                    &&& json_value(new@[old.entries()[j].0@]@) is Some
                },
        decreases old.entries().len() - i,
    {
        let key = old.key_at(i);
        let value = old.value_at(i);
        match new.get(key.as_str()) {
            Some(new_value) => {
                if same_json(value.as_str(), new_value.as_str()).is_none() {
                    return false;
                }
            },
            None => {},
        }
        i = i + 1;
    }
    proof {
        use_type_invariant(old);
        let all = old.entries();
        assert forall|key: Seq<char>| #[trigger]
            old@.contains_key(key) && #[trigger] new@.contains_key(key) implies {
            &&& json_value(old@[key]@) is Some
            &&& json_value(new@[key]@) is Some
        } by {
            let j = choose|j: int| 0 <= j < keys_of(all).len() && keys_of(all)[j] == key;
            assert(all[j].0@ == key);
            lemma_map_of(all, j);
        }
    }
    true
}

/// Merges two maps where that is possible, as [`merge_json`] does; `None` where a value that has
/// to be compared is not read as JSON.
pub fn checked_merge_json(old: JsonMap, new: JsonMap) -> (result: Option<
    (Option<JsonMap>, Vec<JsonMergeError>),
>)
    ensures
        result is Some <==> mergeable(old@, new@),
        result matches Some((merged, errors)) ==> {
            &&& merged is Some <==> adds_keys(old@, new@)
            &&& merged matches Some(map) ==> map@ == merged_map(old@, new@)
            &&& errors@ == merge_errors(old.entries(), new@)
        },
{
    if can_merge(&old, &new) {
        Some(merge_json(old, new))
    } else {
        None
    }
}

/// The JSON text of the first `n` members of an object: `"key":value`, separated by commas.
pub open spec fn members_text(entries: Seq<(String, String)>, n: int) -> Seq<char>
    decreases n,
{
    if n <= 0 {
        Seq::empty()
    } else {
        let (key, value) = entries[n - 1];
        members_text(entries, n - 1) + (if n > 1 {
            ","@
        } else {
            Seq::empty()
        }) + json_quote(key@) + ":"@ + value@
    }
}

/// The JSON text of an object.
pub open spec fn object_text(entries: Seq<(String, String)>) -> Seq<char> {
    "{"@ + members_text(entries, entries.len() as int) + "}"@
}

/// Writes an object as JSON.
pub fn object_to_text(map: &JsonMap) -> (text: String)
    ensures
        text@ == object_text(map.entries()),
{
    let mut text = String::from_str("{");
    let mut i: usize = 0;
    while i < map.len()
        invariant
            0 <= i <= map.entries().len(),
            text@ == "{"@ + members_text(map.entries(), i as int),
        decreases map.entries().len() - i,
    {
        if i > 0 {
            text.append(",");
        }
        text.append(quote_json(map.key_at(i).as_str()).as_str());
        text.append(":");
        text.append(map.value_at(i).as_str());
        i = i + 1;
        assert(text@ =~= "{"@ + members_text(map.entries(), i as int));
    }
    text.append("}");
    text
}

/// The JSON text of the first `n` strings of an array.
pub open spec fn strings_text(strings: Seq<Seq<char>>, n: int) -> Seq<char>
    decreases n,
{
    if n <= 0 {
        Seq::empty()
    } else {
        strings_text(strings, n - 1) + (if n > 1 {
            ","@
        } else {
            Seq::empty()
        }) + json_quote(strings[n - 1])
    }
}

/// The JSON text of an array of strings.
pub open spec fn array_text(strings: Seq<Seq<char>>) -> Seq<char> {
    "["@ + strings_text(strings, strings.len() as int) + "]"@
}

/// Writes strings as a JSON array.
pub fn array_to_text(strings: &Vec<String>) -> (text: String)
    ensures
        text@ == array_text(texts(strings@)),
{
    let mut text = String::from_str("[");
    let mut i: usize = 0;
    while i < strings.len()
        invariant
            0 <= i <= strings@.len(),
            text@ == "["@ + strings_text(texts(strings@), i as int),
        decreases strings@.len() - i,
    {
        if i > 0 {
            text.append(",");
        }
        text.append(quote_json(strings[i].as_str()).as_str());
        i = i + 1;
        assert(text@ =~= "["@ + strings_text(texts(strings@), i as int));
    }
    text.append("]");
    text
}

/// The JSON text of the first `n` members of an object whose values are arrays of strings.
pub open spec fn array_members_text(entries: Seq<(String, Vec<String>)>, n: int) -> Seq<char>
    decreases n,
{
    if n <= 0 {
        Seq::empty()
    } else {
        let (key, value) = entries[n - 1];
        array_members_text(entries, n - 1) + (if n > 1 {
            ","@
        } else {
            Seq::empty()
        }) + json_quote(key@) + ":"@ + array_text(texts(value@))
    }
}

/// The JSON text of an object whose values are arrays of strings.
pub open spec fn array_object_text(entries: Seq<(String, Vec<String>)>) -> Seq<char> {
    "{"@ + array_members_text(entries, entries.len() as int) + "}"@
}

/// Writes an object whose values are arrays of strings as JSON.
pub fn array_object_to_text(map: &TextMap<Vec<String>>) -> (text: String)
    ensures
        text@ == array_object_text(map.entries()),
{
    let mut text = String::from_str("{");
    let mut i: usize = 0;
    while i < map.len()
        invariant
            0 <= i <= map.entries().len(),
            text@ == "{"@ + array_members_text(map.entries(), i as int),
        decreases map.entries().len() - i,
    {
        if i > 0 {
            text.append(",");
        }
        text.append(quote_json(map.key_at(i).as_str()).as_str());
        text.append(":");
        text.append(array_to_text(map.value_at(i)).as_str());
        i = i + 1;
        assert(text@ =~= "{"@ + array_members_text(map.entries(), i as int));
    }
    text.append("}");
    text
}

/// Merging keeps what was there and adds the rest: every key of `new` keeps its value, and every
/// other key of `old` comes with its value.
pub proof fn law_merging_only_adds(
    old: Map<Seq<char>, String>,
    new: Map<Seq<char>, String>,
    key: Seq<char>,
)
    ensures
        new.contains_key(key) ==> merged_map(old, new).contains_key(key) && merged_map(old, new)[key]
            == new[key],
        old.contains_key(key) && !new.contains_key(key) ==> merged_map(old, new).contains_key(key)
            && merged_map(old, new)[key] == old[key],
        merged_map(old, new).contains_key(key) ==> old.contains_key(key) || new.contains_key(key),
{
}

/// Merging the same entries a second time adds nothing and reports the very same conflicts. What
/// the first merge leaves behind is the merged map, which is the new one if nothing was copied. It
/// can be merged again if the values that were copied are read as JSON.
pub proof fn law_merging_settles(entries: Seq<(String, String)>, new: Map<Seq<char>, String>)
    requires
        ascending(keys_of(entries)),
    ensures
        ({
            let old = map_of(entries);
            let merged = merged_map(old, new);
            &&& !adds_keys(old, new) ==> merged == new
            &&& !adds_keys(old, merged)
            &&& merged_map(old, merged) == merged
            &&& merge_errors(entries, merged) == merge_errors(entries, new)
            &&& mergeable(old, new) && copies_are_read(old, new) ==> mergeable(old, merged)
        }),
{
    let old = map_of(entries);
    let merged = merged_map(old, new);
    if !adds_keys(old, new) {
        assert(merged =~= new);
    }
    assert(merged_map(old, merged) =~= merged);
    assert forall|i: int| 0 <= i < entries.len() implies {
        &&& in_conflict(#[trigger] entries[i], merged) == in_conflict(entries[i], new)
        &&& in_conflict(entries[i], merged) ==> merged[entries[i].0@] == new[entries[i].0@]
    } by {
        lemma_map_of(entries, i);
    }
    lemma_equal_errors(entries, merged, new);
}

proof fn lemma_first_errors(
    entries: Seq<(String, String)>,
    a: Map<Seq<char>, String>,
    b: Map<Seq<char>, String>,
    n: int,
)
    requires
        0 <= n <= entries.len(),
        forall|i: int|
            0 <= i < entries.len() ==> {
                &&& in_conflict(#[trigger] entries[i], a) == in_conflict(entries[i], b)
                &&& in_conflict(entries[i], a) ==> a[entries[i].0@] == b[entries[i].0@]
            },
    ensures
        merge_errors(entries.take(n), a) == merge_errors(entries.take(n), b),
    decreases n,
{
    if n == 0 {
        reveal(Seq::filter);
        assert(merge_errors(entries.take(0), a) =~= merge_errors(entries.take(0), b));
    } else {
        lemma_first_errors(entries, a, b, n - 1);
        lemma_merge_errors_step(entries, n - 1, a);
        lemma_merge_errors_step(entries, n - 1, b);
    }
}

/// Maps that are in conflict with the same entries, with the same values, give the same errors.
pub proof fn lemma_equal_errors(
    entries: Seq<(String, String)>,
    a: Map<Seq<char>, String>,
    b: Map<Seq<char>, String>,
)
    requires
        forall|i: int|
            0 <= i < entries.len() ==> {
                &&& in_conflict(#[trigger] entries[i], a) == in_conflict(entries[i], b)
                &&& in_conflict(entries[i], a) ==> a[entries[i].0@] == b[entries[i].0@]
            },
    ensures
        merge_errors(entries, a) == merge_errors(entries, b),
{
    lemma_first_errors(entries, a, b, entries.len() as int);
    assert(entries.take(entries.len() as int) =~= entries);
}

/// The errors of a merge name exactly the keys that both maps have with different values, with
/// both values.
pub proof fn law_conflicts_are_reported(
    old: Seq<(String, String)>,
    new: Map<Seq<char>, String>,
    error: JsonMergeError,
)
    ensures
        merge_errors(old, new).contains(error) <==> {
            &&& old.contains((error.key, error.old_value))
            &&& new.contains_key(error.key@)
            &&& error.new_value == new[error.key@]
            &&& !json_same(error.old_value@, error.new_value@)
        },
{
    let pred = |entry: (String, String)| in_conflict(entry, new);
    let wrap = |entry: (String, String)|
        JsonMergeError { key: entry.0, old_value: entry.1, new_value: new[entry.0@] };
    let kept = old.filter(pred);
    let entry = (error.key, error.old_value);
    let errors = merge_errors(old, new);
    assert(errors =~= kept.map_values(wrap));
    if errors.contains(error) {
        let i = choose|i: int| 0 <= i < errors.len() && errors[i] == error;
        assert(wrap(kept[i]) == error);
        assert(kept[i] == entry);
        old.lemma_filter_pred(pred, i);
        assert(kept.contains(kept[i]));
        old.lemma_filter_contains_rev(pred, kept[i]);
    }
    if old.contains(entry) && pred(entry) && error.new_value == new[error.key@] {
        let i = choose|i: int| 0 <= i < old.len() && old[i] == entry;
        old.lemma_filter_contains(pred, i);
        let k = choose|k: int| 0 <= k < kept.len() && kept[k] == entry;
        assert(errors[k] == error);
    }
}

proof fn lemma_same_members(a: Seq<(String, String)>, b: Seq<(String, String)>, n: int)
    requires
        0 <= n <= a.len(),
        a.len() == b.len(),
        forall|i: int|
            0 <= i < a.len() ==> (#[trigger] a[i]).0@ == (#[trigger] b[i]).0@ && a[i].1 == b[i].1,
    ensures
        members_text(a, n) == members_text(b, n),
    decreases n,
{
    if n > 0 {
        lemma_same_members(a, b, n - 1);
        assert(a[n - 1].0@ == b[n - 1].0@);
    }
}

/// Objects with the same contents are written alike, however they came about.
pub proof fn law_same_objects_are_written_alike(a: JsonMap, b: JsonMap)
    requires
        a.ordered(),
        b.ordered(),
        a@ == b@,
    ensures
        object_text(a.entries()) == object_text(b.entries()),
{
    law_contents_determine_entries(a.entries(), b.entries());
    lemma_same_members(a.entries(), b.entries(), a.entries().len() as int);
}

} // verus!
