//! Laws about merging and writing JSON objects, stated over their members.

use vstd::prelude::*;

use crate::json::{
    adds_keys, array_members_text, array_object_text, array_text, json_quote, json_value,
    law_conflicts_are_reported, members_text, merge_errors, mergeable, merged_map, object_text,
    shown, json_display, strings_text, JsonMergeError,
};
use crate::members::{Members, MembersView};
use crate::text::texts;

verus! {

/// Whether two events both hold an object under a name.
pub open spec fn both_nest(old: MembersView, name: Seq<char>, new: MembersView) -> bool {
    &&& old.inner is Some && old.object.contains_key(name)
    &&& new.inner is Some && new.object.contains_key(name)
}

/// A member is there after merging exactly if one of the events has it, with the value of the new
/// event if that has it. Of an object that both hold under the name, the same holds of the members
/// of that object; else it is that of the new event, or that of the old one if the new one has no
/// member of that name.
pub proof fn law_no_member_is_lost(
    old: MembersView,
    name: Seq<char>,
    new: MembersView,
    key: Seq<char>,
)
    ensures
        ({
            let merged = old.merged(name, new);
            &&& merged.object.contains_key(key) <==> old.object.contains_key(key)
                || new.object.contains_key(key)
            &&& new.object.contains_key(key) ==> merged.object[key] == new.object[key]
            &&& old.object.contains_key(key) && !new.object.contains_key(key)
                ==> merged.object[key] == old.object[key]
            &&& both_nest(old, name, new) ==> {
                let from = old.inner->0;
                let to = new.inner->0;
                &&& merged.inner is Some
                &&& merged.inner->0.contains_key(key) <==> from.contains_key(key)
                    || to.contains_key(key)
                &&& to.contains_key(key) ==> merged.inner->0[key] == to[key]
                &&& from.contains_key(key) && !to.contains_key(key) ==> merged.inner->0[key]
                    == from[key]
            }
            &&& !both_nest(old, name, new) ==> merged.inner == if new.object.contains_key(name) {
                new.inner
            } else {
                old.inner
            }
        }),
{
}

/// There is something to set exactly if the new event lacks a member of the old one, or if an
/// object that both hold under the name lacks a member in the new one.
pub proof fn law_missing_members_are_noticed(old: MembersView, name: Seq<char>, new: MembersView)
    ensures
        old.adds_to(name, new) <==> {
            ||| !old.object.dom().subset_of(new.object.dom())
            ||| both_nest(old, name, new) && !old.inner->0.dom().subset_of(new.inner->0.dom())
        },
{
    if adds_keys(old.object, new.object) {
        let key = choose|key: Seq<char>| #[trigger]
            old.object.contains_key(key) && !new.object.contains_key(key);
        assert(old.object.dom().contains(key) && !new.object.dom().contains(key));
    }
    if both_nest(old, name, new) && adds_keys(old.inner->0, new.inner->0) {
        let key = choose|key: Seq<char>| #[trigger]
            old.inner->0.contains_key(key) && !new.inner->0.contains_key(key);
        assert(old.inner->0.dom().contains(key) && !new.inner->0.dom().contains(key));
    }
    if !old.object.dom().subset_of(new.object.dom()) {
        let key = choose|key: Seq<char>|
            old.object.dom().contains(key) && !new.object.dom().contains(key);
        assert(old.object.contains_key(key) && !new.object.contains_key(key));
    }
    if both_nest(old, name, new) && !old.inner->0.dom().subset_of(new.inner->0.dom()) {
        let key = choose|key: Seq<char>|
            old.inner->0.dom().contains(key) && !new.inner->0.dom().contains(key);
        assert(old.inner->0.contains_key(key) && !new.inner->0.contains_key(key));
    }
}

/// A conflict is reported exactly if both events have a member with values that are not equal, with
/// both values; of an object that both hold under the name, its members are compared, and it is not
/// compared as a whole.
pub proof fn law_differences_are_reported(
    old: Members,
    name: Seq<char>,
    new: MembersView,
    error: JsonMergeError,
)
    ensures
        ({
            let entry = (error.key, error.old_value);
            let differs = json_value(error.old_value@) != json_value(error.new_value@);
            old.errors(name, new).contains(error) <==> {
                ||| both_nest(old@, name, new) && differs && old.inner->0.entries().contains(entry)
                    && new.inner->0.contains_key(error.key@) && new.inner->0[error.key@]
                    == error.new_value
                ||| differs && old.object.entries().contains(entry) && new.object.contains_key(
                    error.key@,
                ) && new.object[error.key@] == error.new_value && !(both_nest(old@, name, new)
                    && error.key@ == name)
            }
        }),
{
    let compared = old@.compared(name, new);
    let inner = merge_errors(old.inner->0.entries(), new.inner->0);
    let outer = merge_errors(old.object.entries(), compared);
    law_conflicts_are_reported(old.inner->0.entries(), new.inner->0, error);
    law_conflicts_are_reported(old.object.entries(), compared, error);
    let all = old.errors(name, new);
    let first = if both_nest(old@, name, new) {
        inner
    } else {
        Seq::empty()
    };
    assert(all == first + outer);
    if first.contains(error) {
        let i = choose|i: int| 0 <= i < first.len() && first[i] == error;
        assert(all[i] == error);
    }
    if outer.contains(error) {
        let i = choose|i: int| 0 <= i < outer.len() && outer[i] == error;
        assert(all[first.len() + i] == error);
    }
    if all.contains(error) {
        let i = choose|i: int| 0 <= i < all.len() && all[i] == error;
        if i < first.len() {
            assert(first[i] == error);
        } else {
            assert(outer[i - first.len()] == error);
        }
    }
}

/// Two events can be merged exactly if every two values that have to be compared are read as JSON.
pub proof fn law_compared_values_are_read(old: MembersView, name: Seq<char>, new: MembersView)
    ensures
        old.mergeable(name, new) <==> {
            &&& forall|key: Seq<char>|
                old.object.contains_key(key) && #[trigger] new.object.contains_key(key) && !(
                both_nest(old, name, new) && key == name) ==> json_value(old.object[key]@) is Some
                    && json_value(new.object[key]@) is Some
            &&& both_nest(old, name, new) ==> forall|key: Seq<char>|
                old.inner->0.contains_key(key) && #[trigger] new.inner->0.contains_key(key)
                    ==> json_value(old.inner->0[key]@) is Some && json_value(
                    new.inner->0[key]@,
                ) is Some
        },
{
    let compared = old.compared(name, new);
    if mergeable(old.object, compared) {
        assert forall|key: Seq<char>|
            old.object.contains_key(key) && #[trigger] new.object.contains_key(key) && !(both_nest(
                old,
                name,
                new,
            ) && key == name) implies json_value(old.object[key]@) is Some && json_value(
            new.object[key]@,
        ) is Some by {
            assert(compared.contains_key(key));
            assert(compared[key] == new.object[key]);
        }
    } else {
        let key = choose|key: Seq<char>|
            !(#[trigger] old.object.contains_key(key) && #[trigger] compared.contains_key(key) ==> {
                &&& json_value(old.object[key]@) is Some
                &&& json_value(compared[key]@) is Some
            });
        assert(new.object.contains_key(key));
        assert(compared[key] == new.object[key]);
    }
    if both_nest(old, name, new) {
        let from = old.inner->0;
        let to = new.inner->0;
        if !mergeable(from, to) {
            let key = choose|key: Seq<char>|
                !(#[trigger] from.contains_key(key) && #[trigger] to.contains_key(key) ==> {
                    &&& json_value(from[key]@) is Some
                    &&& json_value(to[key]@) is Some
                });
            assert(to.contains_key(key));
        }
    }
}

/// Merging one object into another copies exactly what is missing, and reports exactly the keys
/// whose values are not equal.
pub proof fn law_objects_are_merged(
    entries: Seq<(String, String)>,
    old: Map<Seq<char>, String>,
    new: Map<Seq<char>, String>,
    key: Seq<char>,
    error: JsonMergeError,
)
    ensures
        merged_map(old, new).contains_key(key) <==> old.contains_key(key) || new.contains_key(key),
        new.contains_key(key) ==> merged_map(old, new)[key] == new[key],
        old.contains_key(key) && !new.contains_key(key) ==> merged_map(old, new)[key] == old[key],
        old.contains_key(key) && !new.contains_key(key) ==> adds_keys(old, new),
        old.dom().subset_of(new.dom()) ==> !adds_keys(old, new),
        merge_errors(entries, new).contains(error) <==> {
            &&& entries.contains((error.key, error.old_value))
            &&& new.contains_key(error.key@)
            &&& new[error.key@] == error.new_value
            &&& json_value(error.old_value@) != json_value(error.new_value@)
        },
{
    law_conflicts_are_reported(entries, new, error);
    if old.dom().subset_of(new.dom()) && adds_keys(old, new) {
        let key = choose|key: Seq<char>| #[trigger] old.contains_key(key) && !new.contains_key(key);
        assert(old.dom().contains(key));
    }
}

/// A value is shown as it is read, or as it stands if it is not read.
pub proof fn law_values_are_shown(raw: Seq<char>)
    ensures
        json_display(raw) matches Some(text) ==> shown(raw) == text,
        json_display(raw) is None ==> shown(raw) == raw,
{
}

proof fn lemma_same_start(a: Seq<(String, String)>, b: Seq<(String, String)>, n: int)
    requires
        0 <= n <= a.len(),
        n <= b.len(),
        forall|i: int| 0 <= i < n ==> #[trigger] a[i] == b[i],
    ensures
        members_text(a, n) == members_text(b, n),
    decreases n,
{
    if n > 0 {
        lemma_same_start(a, b, n - 1);
        assert(a[n - 1] == b[n - 1]);
    }
}

/// An object without members is written as two braces. One member more is written before the
/// closing brace, behind a comma if it is not the first: its key as a string, a colon, and its
/// value as it stands.
pub proof fn law_objects_are_written_member_by_member(
    entries: Seq<(String, String)>,
    entry: (String, String),
)
    ensures
        object_text(Seq::empty()) == seq!['{', '}'],
        object_text(entries.push(entry)) == object_text(entries).drop_last() + (if entries.len()
            > 0 {
            seq![',']
        } else {
            Seq::empty()
        }) + json_quote(entry.0@) + seq![':'] + entry.1@ + seq!['}'],
{
    reveal_strlit("{");
    reveal_strlit("}");
    reveal_strlit(",");
    reveal_strlit(":");
    assert("{"@ =~= seq!['{'] && "}"@ =~= seq!['}'] && ","@ =~= seq![','] && ":"@ =~= seq![':']);
    assert(object_text(Seq::empty()) =~= seq!['{', '}']);
    let all = entries.push(entry);
    let n = entries.len() as int;
    lemma_same_start(entries, all, n);
    assert(all[n] == entry);
    assert(object_text(entries).drop_last() =~= "{"@ + members_text(entries, n));
    assert(object_text(all) =~= object_text(entries).drop_last() + (if n > 0 {
        seq![',']
    } else {
        Seq::empty()
    }) + json_quote(entry.0@) + seq![':'] + entry.1@ + seq!['}']);
}

proof fn lemma_strings_start(a: Seq<Seq<char>>, b: Seq<Seq<char>>, n: int)
    requires
        0 <= n <= a.len(),
        n <= b.len(),
        forall|i: int| 0 <= i < n ==> #[trigger] a[i] == b[i],
    ensures
        strings_text(a, n) == strings_text(b, n),
    decreases n,
{
    if n > 0 {
        lemma_strings_start(a, b, n - 1);
        assert(a[n - 1] == b[n - 1]);
    }
}

/// A list without strings is written as two brackets. One string more is written before the closing
/// bracket, behind a comma if it is not the first.
pub proof fn law_lists_are_written_string_by_string(strings: Seq<Seq<char>>, text: Seq<char>)
    ensures
        array_text(Seq::empty()) == seq!['[', ']'],
        array_text(strings.push(text)) == array_text(strings).drop_last() + (if strings.len() > 0 {
            seq![',']
        } else {
            Seq::empty()
        }) + json_quote(text) + seq![']'],
{
    reveal_strlit("[");
    reveal_strlit("]");
    reveal_strlit(",");
    assert("["@ =~= seq!['['] && "]"@ =~= seq![']'] && ","@ =~= seq![',']);
    assert(array_text(Seq::empty()) =~= seq!['[', ']']);
    let all = strings.push(text);
    let n = strings.len() as int;
    lemma_strings_start(strings, all, n);
    assert(array_text(strings).drop_last() =~= "["@ + strings_text(strings, n));
    assert(array_text(all) =~= array_text(strings).drop_last() + (if n > 0 {
        seq![',']
    } else {
        Seq::empty()
    }) + json_quote(text) + seq![']']);
}

proof fn lemma_arrays_start(a: Seq<(String, Vec<String>)>, b: Seq<(String, Vec<String>)>, n: int)
    requires
        0 <= n <= a.len(),
        n <= b.len(),
        forall|i: int| 0 <= i < n ==> #[trigger] a[i] == b[i],
    ensures
        array_members_text(a, n) == array_members_text(b, n),
    decreases n,
{
    if n > 0 {
        lemma_arrays_start(a, b, n - 1);
        assert(a[n - 1] == b[n - 1]);
    }
}

/// An object of lists is written like any other, with each list under its key.
pub proof fn law_objects_of_lists_are_written_member_by_member(
    entries: Seq<(String, Vec<String>)>,
    entry: (String, Vec<String>),
)
    ensures
        array_object_text(Seq::empty()) == seq!['{', '}'],
        array_object_text(entries.push(entry)) == array_object_text(entries).drop_last() + (
        if entries.len() > 0 {
            seq![',']
        } else {
            Seq::empty()
        }) + json_quote(entry.0@) + seq![':'] + array_text(texts(entry.1@)) + seq!['}'],
{
    reveal_strlit("{");
    reveal_strlit("}");
    reveal_strlit(",");
    reveal_strlit(":");
    assert("{"@ =~= seq!['{'] && "}"@ =~= seq!['}'] && ","@ =~= seq![','] && ":"@ =~= seq![':']);
    assert(array_object_text(Seq::empty()) =~= seq!['{', '}']);
    let all = entries.push(entry);
    let n = entries.len() as int;
    lemma_arrays_start(entries, all, n);
    assert(all[n] == entry);
    assert(array_object_text(entries).drop_last() =~= "{"@ + array_members_text(entries, n));
    assert(array_object_text(all) =~= array_object_text(entries).drop_last() + (if n > 0 {
        seq![',']
    } else {
        Seq::empty()
    }) + json_quote(entry.0@) + seq![':'] + array_text(texts(entry.1@)) + seq!['}']);
}

proof fn lemma_first_as_whole(
    members: Members,
    name: Seq<char>,
    whole: Seq<(String, String)>,
    n: int,
)
    requires
        whole.len() == members.object.entries().len(),
        0 <= n <= whole.len(),
        forall|i: int|
            0 <= i < whole.len() ==> {
                let (key, value) = members.object.entries()[i];
                &&& (#[trigger] whole[i]).0@ == key@
                &&& whole[i].1@ == if key@ == name && members.inner is Some {
                    object_text(members.inner->0.entries())
                } else {
                    value@
                }
            },
    ensures
        members.first_text(name, n) == members_text(whole, n),
    decreases n,
{
    if n > 0 {
        lemma_first_as_whole(members, name, whole, n - 1);
        assert(whole[n - 1].0@ == members.object.entries()[n - 1].0@);
    }
}

/// An event is written as the object that has all its members, with the inner object in the place
/// of the member of that name and every other value as it stands.
pub proof fn law_events_are_written_whole(
    members: Members,
    name: Seq<char>,
    whole: Seq<(String, String)>,
)
    requires
        whole.len() == members.object.entries().len(),
        forall|i: int|
            0 <= i < whole.len() ==> {
                let (key, value) = members.object.entries()[i];
                &&& (#[trigger] whole[i]).0@ == key@
                &&& whole[i].1@ == if key@ == name && members.inner is Some {
                    object_text(members.inner->0.entries())
                } else {
                    value@
                }
            },
    ensures
        members.text(name) == object_text(whole),
{
    lemma_first_as_whole(members, name, whole, whole.len() as int);
}

} // verus!
