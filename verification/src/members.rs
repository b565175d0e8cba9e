//! Events that hold an object under a well-known name, such as the tags of a room.
//!
//! Where two events both hold such an object, it is merged member by member.

use vstd::prelude::*;

use crate::json::{
    adds_keys, can_merge, in_conflict, json_quote, json_same, law_conflicts_are_reported,
    law_merging_settles, law_same_objects_are_written_alike, lemma_equal_errors, members_text,
    merge_errors, merge_into, mergeable, merged_map, object_text, object_to_text, quote_json,
    JsonMap, JsonMergeError, Merge,
};
use crate::text::same_str;
use crate::text_map::{
    ascending, keys_of, law_contents_determine_entries, lemma_map_of, lemma_one_more, map_of,
};

verus! {

/// The name under which an `m.tag` event holds the tags of a room.
pub const TAGS_MEMBER: &'static str = "tags";

/// The name under which an `m.ignored_user_list` event holds the ignored users.
pub const IGNORED_USERS_MEMBER: &'static str = "ignored_users";

/// The content of an event that may hold an object under a well-known name.
pub struct Members {
    /// All members of the event.
    pub object: JsonMap,
    /// What the event holds under the name, taken apart: each tag, or each ignored user. `None` if
    /// the event has no such member, or if that member is not an object.
    pub inner: Option<JsonMap>,
}

/// The contents of [`Members`].
#[verifier::ext_equal]
pub struct MembersView {
    pub object: Map<Seq<char>, String>,
    pub inner: Option<Map<Seq<char>, String>>,
}

impl View for Members {
    type V = MembersView;

    open spec fn view(&self) -> MembersView {
        MembersView {
            object: self.object@,
            inner: match self.inner {
                Some(inner) => Some(inner@),
                None => None,
            },
        }
    }
}

/// The contents of optional members.
pub open spec fn members_view(members: Option<Members>) -> Option<MembersView> {
    match members {
        Some(members) => Some(members@),
        None => None,
    }
}

/// The contents of optional members, none if there are no members.
pub open spec fn members_or_none(members: Option<Members>) -> MembersView {
    match members {
        Some(members) => members@,
        None => MembersView { object: Map::empty(), inner: None },
    }
}

impl MembersView {
    /// Whether there is an inner object under the name.
    pub open spec fn has_inner(self, name: Seq<char>) -> bool {
        self.inner is Some && self.object.contains_key(name)
    }

    /// Whether both hold an inner object, so that it is merged member by member.
    pub open spec fn nests(self, name: Seq<char>, new: MembersView) -> bool {
        self.has_inner(name) && new.has_inner(name)
    }

    /// The members of `new` that those of this event are compared with as a whole: all, except for
    /// an inner object that both hold.
    pub open spec fn compared(self, name: Seq<char>, new: MembersView) -> Map<Seq<char>, String> {
        if self.nests(name, new) {
            new.object.remove(name)
        } else {
            new.object
        }
    }

    /// Whether all values that have to be compared can be.
    pub open spec fn mergeable(self, name: Seq<char>, new: MembersView) -> bool {
        &&& mergeable(self.object, self.compared(name, new))
        &&& self.nests(name, new) ==> mergeable(self.inner->0, new.inner->0)
    }

    /// Whether there is a member that `new` lacks.
    pub open spec fn adds_to(self, name: Seq<char>, new: MembersView) -> bool {
        ||| adds_keys(self.object, new.object)
        ||| self.nests(name, new) && adds_keys(self.inner->0, new.inner->0)
    }

    /// The members of both; where both have one, the value is that of `new`, except for an inner
    /// object that both hold: it has the members of both in turn.
    pub open spec fn merged(self, name: Seq<char>, new: MembersView) -> MembersView {
        MembersView {
            object: merged_map(self.object, new.object),
            inner: if self.nests(name, new) {
                Some(merged_map(self.inner->0, new.inner->0))
            } else if new.object.contains_key(name) {
                new.inner
            } else {
                self.inner
            },
        }
    }
}

impl Members {
    /// One error for each member that `new` has with a different value: first for the members of
    /// an inner object that both hold, then for the others.
    pub open spec fn errors(self, name: Seq<char>, new: MembersView) -> Seq<JsonMergeError> {
        (if self@.nests(name, new) {
            merge_errors(self.inner->0.entries(), new.inner->0)
        } else {
            Seq::empty()
        }) + merge_errors(self.object.entries(), self@.compared(name, new))
    }

    /// The JSON text of a member.
    pub open spec fn value_text(self, name: Seq<char>, i: int) -> Seq<char> {
        let (key, value) = self.object.entries()[i];
        if self.inner is Some && key@ == name {
            object_text(self.inner->0.entries())
        } else {
            value@
        }
    }

    /// The JSON text of the first `n` members.
    pub open spec fn first_text(self, name: Seq<char>, n: int) -> Seq<char>
        decreases n,
    {
        if n <= 0 {
            Seq::empty()
        } else {
            self.first_text(name, n - 1) + (if n > 1 {
                ","@
            } else {
                Seq::empty()
            }) + json_quote(self.object.entries()[n - 1].0@) + ":"@ + self.value_text(name, n - 1)
        }
    }

    /// The JSON text of the event, with the inner object under its name.
    pub open spec fn text(self, name: Seq<char>) -> Seq<char> {
        "{"@ + self.first_text(name, self.object.entries().len() as int) + "}"@
    }

    /// No members at all.
    pub fn new() -> (members: Members)
        ensures
            members@ == members_or_none(None),
    {
        Members { object: JsonMap::new(), inner: None }
    }

    /// Writes the event as JSON, with the inner object under its name.
    pub fn to_text(&self, name: &str) -> (text: String)
        ensures
            text@ == self.text(name@),
    {
        let mut text = String::from_str("{");
        let mut i: usize = 0;
        while i < self.object.len()
            invariant
                0 <= i <= self.object.entries().len(),
                text@ == "{"@ + self.first_text(name@, i as int),
            decreases self.object.entries().len() - i,
        {
            if i > 0 {
                text.append(",");
            }
            let key = self.object.key_at(i);
            text.append(quote_json(key.as_str()).as_str());
            text.append(":");
            match &self.inner {
                Some(inner) => {
                    if same_str(key.as_str(), name) {
                        text.append(object_to_text(inner).as_str());
                    } else {
                        text.append(self.object.value_at(i).as_str());
                    }
                },
                None => text.append(self.object.value_at(i).as_str()),
            }
            i = i + 1;
            assert(text@ =~= "{"@ + self.first_text(name@, i as int));
        }
        text.append("}");
        text
    }
}

/// Whether an object has a member that another lacks.
fn adds_members(old: &JsonMap, new: &JsonMap) -> (adds: bool)
    ensures
        adds == adds_keys(old@, new@),
{
    let ghost all = old.entries();
    proof {
        use_type_invariant(old);
    }
    let mut i: usize = 0;
    while i < old.len()
        invariant
            all == old.entries(),
            ascending(keys_of(all)),
            0 <= i <= all.len(),
            forall|j: int| 0 <= j < i ==> new@.contains_key((#[trigger] all[j]).0@),
        decreases all.len() - i,
    {
        if !new.contains_key(old.key_at(i).as_str()) {
            proof {
                lemma_map_of(all, i as int);
            }
            return true;
        }
        i = i + 1;
    }
    proof {
        assert forall|key: Seq<char>| #[trigger] old@.contains_key(key) implies new@.contains_key(
            key,
        ) by {
            let j = choose|j: int| 0 <= j < keys_of(all).len() && keys_of(all)[j] == key;
            assert(all[j].0@ == key);
        }
    }
    false
}

/// Takes a member out of an object. Returns its value, if the object has it, and the others.
fn take_member(object: JsonMap, name: &str) -> (taken: (Option<String>, JsonMap))
    ensures
        match taken.0 {
            Some(value) => object@.contains_key(name@) && value == object@[name@],
            None => !object@.contains_key(name@),
        },
        taken.1@ == object@.remove(name@),
{
    let ghost all = object.entries();
    let mut entries = object.into_entries();
    let mut member: Option<String> = None;
    let mut rest = JsonMap::new();
    let ghost mut done: int = 0;
    assert(map_of(all.take(0)) =~= Map::empty());
    assert(entries@ =~= all.skip(0));
    while entries.len() > 0
        invariant
            ascending(keys_of(all)),
            0 <= done <= all.len(),
            entries@ == all.skip(done),
            match member {
                Some(value) => map_of(all.take(done)).contains_key(name@) && value == map_of(
                    all.take(done),
                )[name@],
                None => !map_of(all.take(done)).contains_key(name@),
            },
            rest@ == map_of(all.take(done)).remove(name@),
        decreases entries@.len(),
    {
        let (key, value) = entries.remove(0);
        proof {
            assert((key, value) == all[done]);
            assert(entries@ =~= all.skip(done + 1));
            lemma_one_more(all, done);
        }
        if same_str(key.as_str(), name) {
            member = Some(value);
            assert(rest@ =~= map_of(all.take(done + 1)).remove(name@));
        } else {
            rest.insert(key, value);
            assert(rest@ =~= map_of(all.take(done + 1)).remove(name@));
        }
        proof {
            done = done + 1;
        }
    }
    assert(all.take(all.len() as int) =~= all);
    (member, rest)
}

/// Merges two events that do not both hold an inner object.
fn merge_plain(old: Members, new: Members, name: &str) -> (result: Option<
    (Option<Members>, Vec<JsonMergeError>),
>)
    requires
        !old@.nests(name@, new@),
    ensures
        result is Some <==> old@.mergeable(name@, new@),
        result matches Some((merged, errors)) ==> {
            &&& merged is Some <==> old@.adds_to(name@, new@)
            &&& merged matches Some(members) ==> members@ == old@.merged(name@, new@)
            &&& errors@ == old.errors(name@, new@)
        },
{
    if !can_merge(&old.object, &new.object) {
        return None;
    }
    let inner = if new.object.contains_key(name) {
        new.inner
    } else {
        old.inner
    };
    let Merge { merged: object, changed, errors } = merge_into(old.object, new.object);
    assert(errors@ =~= old.errors(name@, new@));
    if changed {
        Some((Some(Members { object, inner }), errors))
    } else {
        Some((None, errors))
    }
}

/// Merges two events that both hold an inner object.
fn merge_nested(
    old: JsonMap,
    new: JsonMap,
    old_inner: JsonMap,
    new_inner: JsonMap,
    name: &str,
) -> (result: Option<(Option<Members>, Vec<JsonMergeError>)>)
    requires
        old@.contains_key(name@),
        new@.contains_key(name@),
    ensures
        ({
            let from = Members { object: old, inner: Some(old_inner) };
            let to = Members { object: new, inner: Some(new_inner) };
            &&& result is Some <==> from@.mergeable(name@, to@)
            &&& result matches Some((merged, errors)) ==> {
                &&& merged is Some <==> from@.adds_to(name@, to@)
                &&& merged matches Some(members) ==> members@ == from@.merged(name@, to@)
                &&& errors@ == from.errors(name@, to@)
            }
        }),
{
    let ghost old_map = old@;
    let ghost new_map = new@;
    let adds = adds_members(&old, &new);
    let (value, rest) = take_member(new, name);
    if !can_merge(&old_inner, &new_inner) || !can_merge(&old, &rest) {
        return None;
    }
    let Merge { merged: inner, changed, errors: mut errors } = merge_into(old_inner, new_inner);
    let Merge { merged: mut object, errors: mut others, .. } = merge_into(old, rest);
    match value {
        Some(value) => object.insert(name.to_owned(), value),
        None => {},
    }
    assert(object@ =~= merged_map(old_map, new_map));
    errors.append(&mut others);
    if adds || changed {
        Some((Some(Members { object, inner: Some(inner) }), errors))
    } else {
        Some((None, errors))
    }
}

/// Copies the members of `old` that `new` lacks to `new`; where both hold an inner object under the
/// name, its members. `None` where a value that has to be compared is not read as JSON.
///
/// If nothing was copied, the members in the result are `None`. A member that both have keeps its
/// value in `new`; if the values differ, that is reported as an error.
pub fn merge_members(old: Members, new: Members, name: &str) -> (result: Option<
    (Option<Members>, Vec<JsonMergeError>),
>)
    ensures
        result is Some <==> old@.mergeable(name@, new@),
        result matches Some((merged, errors)) ==> {
            &&& merged is Some <==> old@.adds_to(name@, new@)
            &&& merged matches Some(members) ==> members@ == old@.merged(name@, new@)
            &&& errors@ == old.errors(name@, new@)
        },
{
    let both = old.object.contains_key(name) && new.object.contains_key(name);
    match (old.inner, new.inner) {
        (Some(old_inner), Some(new_inner)) => if both {
            merge_nested(old.object, new.object, old_inner, new_inner, name)
        } else {
            merge_plain(
                Members { object: old.object, inner: Some(old_inner) },
                Members { object: new.object, inner: Some(new_inner) },
                name,
            )
        },
        (old_inner, new_inner) => merge_plain(
            Members { object: old.object, inner: old_inner },
            Members { object: new.object, inner: new_inner },
            name,
        ),
    }
}

proof fn lemma_first_alike(a: Members, b: Members, name: Seq<char>, n: int)
    requires
        a.object.ordered(),
        b.object.ordered(),
        a.inner is Some ==> a.inner->0.ordered(),
        b.inner is Some ==> b.inner->0.ordered(),
        a@ == b@,
        0 <= n <= a.object.entries().len(),
    ensures
        a.object.entries().len() == b.object.entries().len(),
        a.first_text(name, n) == b.first_text(name, n),
    decreases n,
{
    let left = a.object.entries();
    let right = b.object.entries();
    law_contents_determine_entries(left, right);
    if n > 0 {
        lemma_first_alike(a, b, name, n - 1);
        assert(left[n - 1].0@ == right[n - 1].0@);
        if a.inner is Some {
            assert(a@.inner == Some(a.inner->0@));
            assert(b@.inner == Some(b.inner->0@));
            law_same_objects_are_written_alike(a.inner->0, b.inner->0);
        }
    }
}

/// Members with the same contents are written alike, however they came about.
pub proof fn law_same_members_are_written_alike(a: Members, b: Members, name: Seq<char>)
    requires
        a.object.ordered(),
        b.object.ordered(),
        a.inner is Some ==> a.inner->0.ordered(),
        b.inner is Some ==> b.inner->0.ordered(),
        a@ == b@,
    ensures
        a.text(name) == b.text(name),
{
    lemma_first_alike(a, b, name, a.object.entries().len() as int);
}

proof fn lemma_first_plain(members: Members, name: Seq<char>, n: int)
    requires
        0 <= n <= members.object.entries().len(),
        members.inner is Some ==> !keys_of(members.object.entries()).contains(name),
    ensures
        members.first_text(name, n) == members_text(members.object.entries(), n),
    decreases n,
{
    if n > 0 {
        lemma_first_plain(members, name, n - 1);
        assert(keys_of(members.object.entries())[n - 1] == members.object.entries()[n - 1].0@);
    }
}

/// An event that holds no inner object is written as it was read: no member is added to it.
pub proof fn law_plain_members_are_written_as_read(members: Members, name: Seq<char>)
    requires
        !members@.has_inner(name),
    ensures
        members.text(name) == object_text(members.object.entries()),
{
    lemma_first_plain(members, name, members.object.entries().len() as int);
}

/// Where both users have an inner object, every member of it that either of them has is there after
/// merging; the value is that of the new user, or that of the old user where the new one has none.
/// Only a member that both have with different values is reported.
pub proof fn law_members_are_merged_one_by_one(
    old: Members,
    new: MembersView,
    name: Seq<char>,
    key: Seq<char>,
    error: JsonMergeError,
)
    requires
        old.object.ordered(),
        old.inner is Some ==> old.inner->0.ordered(),
    ensures
        old@.nests(name, new) ==> {
            let merged = old@.merged(name, new).inner->0;
            let from = old@.inner->0;
            let to = new.inner->0;
            &&& old@.merged(name, new).has_inner(name)
            &&& merged.contains_key(key) <==> from.contains_key(key) || to.contains_key(key)
            &&& to.contains_key(key) ==> merged[key] == to[key]
            &&& !to.contains_key(key) && from.contains_key(key) ==> merged[key] == from[key]
        },
        old.errors(name, new).contains(error) ==> {
            ||| old@.nests(name, new) && new.inner->0.contains_key(error.key@)
                && old@.inner->0.contains_key(error.key@) && !json_same(
                old@.inner->0[error.key@]@,
                new.inner->0[error.key@]@,
            )
            ||| new.object.contains_key(error.key@) && old@.object.contains_key(error.key@)
                && !json_same(old@.object[error.key@]@, new.object[error.key@]@)
        },
{
    let compared = old@.compared(name, new);
    let inner = if old@.nests(name, new) {
        merge_errors(old.inner->0.entries(), new.inner->0)
    } else {
        Seq::empty()
    };
    let outer = merge_errors(old.object.entries(), compared);
    law_conflicts_are_reported(old.inner->0.entries(), new.inner->0, error);
    law_conflicts_are_reported(old.object.entries(), compared, error);
    if old.errors(name, new).contains(error) {
        let i = choose|i: int| 0 <= i < (inner + outer).len() && (inner + outer)[i] == error;
        let entry = (error.key, error.old_value);
        if i < inner.len() {
            assert(inner[i] == error);
            let k = choose|k: int|
                0 <= k < old.inner->0.entries().len() && old.inner->0.entries()[k] == entry;
            lemma_map_of(old.inner->0.entries(), k);
        } else {
            assert(outer[i - inner.len()] == error);
            let k = choose|k: int|
                0 <= k < old.object.entries().len() && old.object.entries()[k] == entry;
            lemma_map_of(old.object.entries(), k);
        }
    }
}

/// Whether a map has all of some entries, with the same values.
pub open spec fn has_entries(entries: Seq<(String, String)>, map: Map<Seq<char>, String>) -> bool {
    forall|i: int|
        0 <= i < entries.len() ==> {
            &&& map.contains_key((#[trigger] entries[i]).0@)
            &&& json_same(entries[i].1@, map[entries[i].0@]@)
        }
}

impl Members {
    /// Whether `new` has all members with the same values; of an inner object that both hold, its
    /// members.
    pub open spec fn is_covered(self, name: Seq<char>, new: MembersView) -> bool {
        let entries = self.object.entries();
        &&& forall|i: int|
            0 <= i < entries.len() ==> {
                &&& new.object.contains_key((#[trigger] entries[i]).0@)
                &&& self@.nests(name, new) && entries[i].0@ == name || json_same(
                    entries[i].1@,
                    new.object[entries[i].0@]@,
                )
            }
        &&& self@.nests(name, new) ==> has_entries(self.inner->0.entries(), new.inner->0)
    }
}

proof fn lemma_no_errors(entries: Seq<(String, String)>, new: Map<Seq<char>, String>)
    requires
        forall|i: int| 0 <= i < entries.len() ==> !in_conflict(#[trigger] entries[i], new),
    ensures
        merge_errors(entries, new).len() == 0,
{
    let pred = |entry: (String, String)| in_conflict(entry, new);
    let kept = entries.filter(pred);
    if kept.len() > 0 {
        entries.lemma_filter_pred(pred, 0);
        assert(kept.contains(kept[0]));
        entries.lemma_filter_contains_rev(pred, kept[0]);
    }
}

proof fn lemma_adds_nothing(old: JsonMap, new: Map<Seq<char>, String>)
    requires
        forall|i: int|
            0 <= i < old.entries().len() ==> new.contains_key((#[trigger] old.entries()[i]).0@),
    ensures
        !adds_keys(old@, new),
{
    assert forall|key: Seq<char>| #[trigger] old@.contains_key(key) implies new.contains_key(
        key,
    ) by {
        let keys = keys_of(old.entries());
        let i = choose|i: int| 0 <= i < keys.len() && keys[i] == key;
        assert(old.entries()[i].0@ == key);
    }
}

/// Where the new user has everything already, nothing is added and nothing is reported.
pub proof fn law_covered_members_stay(old: Members, name: Seq<char>, new: MembersView)
    requires
        old.is_covered(name, new),
    ensures
        !old@.adds_to(name, new),
        old.errors(name, new).len() == 0,
{
    lemma_adds_nothing(old.object, new.object);
    lemma_no_errors(old.object.entries(), old@.compared(name, new));
    if old@.nests(name, new) {
        lemma_adds_nothing(old.inner->0, new.inner->0);
        lemma_no_errors(old.inner->0.entries(), new.inner->0);
    }
}

/// Merging the same members a second time adds nothing and reports the very same conflicts.
pub proof fn law_merging_members_settles(old: Members, name: Seq<char>, new: MembersView)
    requires
        old.object.ordered(),
        old.inner is Some ==> old.inner->0.ordered(),
    ensures
        ({
            let merged = old@.merged(name, new);
            &&& !old@.adds_to(name, merged)
            &&& old@.merged(name, merged) == merged
            &&& old.errors(name, merged) == old.errors(name, new)
        }),
{
    let merged = old@.merged(name, new);
    let entries = old.object.entries();
    law_merging_settles(entries, new.object);
    let before = old@.compared(name, new);
    let after = old@.compared(name, merged);
    assert forall|i: int| 0 <= i < entries.len() implies {
        &&& in_conflict(#[trigger] entries[i], before) == in_conflict(entries[i], after)
        &&& in_conflict(entries[i], before) ==> before[entries[i].0@] == after[entries[i].0@]
    } by {
        lemma_map_of(entries, i);
    }
    lemma_equal_errors(entries, before, after);
    if old@.nests(name, merged) {
        let inner = old.inner->0.entries();
        if old@.nests(name, new) {
            law_merging_settles(inner, new.inner->0);
        } else {
            assert(merged.inner == old@.inner);
            assert forall|i: int| 0 <= i < inner.len() implies !in_conflict(
                #[trigger] inner[i],
                old.inner->0@,
            ) by {
                lemma_map_of(inner, i);
            }
            lemma_no_errors(inner, old.inner->0@);
            assert(merge_errors(inner, merged.inner->0) =~= Seq::empty());
            assert(merged_map(old@.inner->0, old@.inner->0) =~= old@.inner->0);
        }
    }
    assert(old@.merged(name, merged) =~= merged);
}

} // verus!
