//! A map with string keys, kept in key order.

use vstd::prelude::*;

use crate::text::{lemma_text_order, lemma_text_order_transitive, same_str, str_less, text_less};

verus! {

/// The keys of a list of entries.
pub open spec fn keys_of<V>(entries: Seq<(String, V)>) -> Seq<Seq<char>> {
    entries.map_values(|entry: (String, V)| entry.0@)
}

/// Whether every key comes before the ones that follow it.
pub open spec fn ascending(keys: Seq<Seq<char>>) -> bool {
    forall|i: int, j: int| 0 <= i < j < keys.len() ==> text_less(#[trigger] keys[i], #[trigger] keys[j])
}

/// The position of a key.
pub open spec fn position<V>(entries: Seq<(String, V)>, key: Seq<char>) -> int {
    choose|i: int| 0 <= i < entries.len() && (#[trigger] entries[i]).0@ == key
}

/// The mapping that a list of entries stands for.
pub open spec fn map_of<V>(entries: Seq<(String, V)>) -> Map<Seq<char>, V> {
    Map::new(
        |key: Seq<char>| keys_of(entries).contains(key),
        |key: Seq<char>| entries[position(entries, key)].1,
    )
}

/// A map from strings to `V`. Its entries are in ascending order of their keys, and no key occurs
/// twice.
pub struct TextMap<V> {
    entries: Vec<(String, V)>,
}

impl<V> View for TextMap<V> {
    type V = Map<Seq<char>, V>;

    open spec fn view(&self) -> Map<Seq<char>, V> {
        map_of(self.entries())
    }
}

/// In a list with ascending keys, an entry is what its key maps to.
pub proof fn lemma_map_of<V>(entries: Seq<(String, V)>, i: int)
    requires
        ascending(keys_of(entries)),
        0 <= i < entries.len(),
    ensures
        position(entries, entries[i].0@) == i,
        map_of(entries).contains_key(entries[i].0@),
        map_of(entries)[entries[i].0@] == entries[i].1,
{
    let key = entries[i].0@;
    let keys = keys_of(entries);
    assert(keys[i] == key);
    let p = position(entries, key);
    assert(0 <= p < entries.len() && entries[p].0@ == key);
    assert(keys[p] == key);
    lemma_text_order(key, key);
    if p < i {
        assert(text_less(keys[p], keys[i]));
    } else if i < p {
        assert(text_less(keys[i], keys[p]));
    }
}

/// A key that no entry has is not in the mapping.
proof fn lemma_map_of_absent<V>(entries: Seq<(String, V)>, key: Seq<char>)
    requires
        forall|i: int| 0 <= i < entries.len() ==> (#[trigger] entries[i]).0@ != key,
    ensures
        !map_of(entries).contains_key(key),
{
    if keys_of(entries).contains(key) {
        let i = choose|i: int| 0 <= i < keys_of(entries).len() && keys_of(entries)[i] == key;
        assert(entries[i].0@ == key);
    }
}

/// What the mapping holds, an entry holds.
proof fn lemma_map_of_present<V>(entries: Seq<(String, V)>, key: Seq<char>)
    requires
        map_of(entries).contains_key(key),
    ensures
        0 <= position(entries, key) < entries.len(),
        entries[position(entries, key)].0@ == key,
{
    let i = choose|i: int| 0 <= i < keys_of(entries).len() && keys_of(entries)[i] == key;
    assert(entries[i].0@ == key);
}

/// Putting an entry in at the place where its key belongs adds it to the mapping.
proof fn lemma_insert_new<V>(entries: Seq<(String, V)>, at: int, entry: (String, V))
    requires
        ascending(keys_of(entries)),
        0 <= at <= entries.len(),
        forall|i: int| 0 <= i < at ==> text_less((#[trigger] entries[i]).0@, entry.0@),
        forall|i: int| at <= i < entries.len() ==> text_less(entry.0@, (#[trigger] entries[i]).0@),
    ensures
        ascending(keys_of(entries.insert(at, entry))),
        map_of(entries.insert(at, entry)) == map_of(entries).insert(entry.0@, entry.1),
{
    let after = entries.insert(at, entry);
    let keys = keys_of(entries);
    assert(keys_of(after) =~= keys.insert(at, entry.0@));
    assert forall|i: int, j: int| 0 <= i < j < after.len() implies text_less(
        #[trigger] keys_of(after)[i],
        #[trigger] keys_of(after)[j],
    ) by {
        if j < at {
            assert(text_less(keys[i], keys[j]));
        } else if j == at {
            assert(text_less(entries[i].0@, entry.0@));
        } else if i == at {
            assert(text_less(entry.0@, entries[j - 1].0@));
        } else if i > at {
            assert(text_less(keys[i - 1], keys[j - 1]));
        } else {
            assert(text_less(keys[i], keys[j - 1]));
        }
    }
    assert forall|key: Seq<char>| #[trigger]
        map_of(after).contains_key(key) <==> map_of(entries).insert(
            entry.0@,
            entry.1,
        ).contains_key(key) by {
        if map_of(entries).contains_key(key) {
            lemma_map_of_present(entries, key);
            let p = position(entries, key);
            assert(after[if p < at { p } else { p + 1 }].0@ == key);
            assert(keys_of(after)[if p < at { p } else { p + 1 }] == key);
        }
        if key == entry.0@ {
            assert(keys_of(after)[at] == key);
        }
        if map_of(after).contains_key(key) {
            lemma_map_of_present(after, key);
            let p = position(after, key);
            if p < at {
                assert(keys[p] == key);
            } else if p > at {
                assert(keys[p - 1] == key);
            }
        }
    }
    assert forall|key: Seq<char>| #[trigger] map_of(after).contains_key(key) implies map_of(
        after,
    )[key] == map_of(entries).insert(entry.0@, entry.1)[key] by {
        lemma_map_of_present(after, key);
        let p = position(after, key);
        lemma_map_of(after, p);
        if p < at {
            lemma_map_of(entries, p);
            lemma_text_order(key, entry.0@);
        } else if p > at {
            lemma_map_of(entries, p - 1);
            lemma_text_order(key, entry.0@);
        }
    }
    assert(map_of(after) =~= map_of(entries).insert(entry.0@, entry.1));
}

/// Replacing the value of a key changes the mapping there and nowhere else.
proof fn lemma_insert_again<V>(entries: Seq<(String, V)>, at: int, entry: (String, V))
    requires
        ascending(keys_of(entries)),
        0 <= at < entries.len(),
        entries[at].0@ == entry.0@,
    ensures
        ascending(keys_of(entries.update(at, entry))),
        map_of(entries.update(at, entry)) == map_of(entries).insert(entry.0@, entry.1),
{
    let after = entries.update(at, entry);
    assert(keys_of(after) =~= keys_of(entries));
    assert(keys_of(after)[at] == entry.0@);
    assert forall|key: Seq<char>| #[trigger] map_of(after).contains_key(key) implies map_of(
        after,
    )[key] == map_of(entries).insert(entry.0@, entry.1)[key] by {
        lemma_map_of_present(after, key);
        let p = position(after, key);
        lemma_map_of(after, p);
        lemma_map_of(entries, p);
        lemma_map_of(after, at);
    }
    assert(map_of(after) =~= map_of(entries).insert(entry.0@, entry.1));
}

impl<V> TextMap<V> {
    /// The entries, in key order.
    pub closed spec fn entries(self) -> Seq<(String, V)> {
        self.entries@
    }

    /// The keys are in ascending order.
    #[verifier::type_invariant]
    pub open spec fn ordered(self) -> bool {
        ascending(keys_of(self.entries()))
    }

    /// The empty map.
    pub fn new() -> (map: TextMap<V>)
        ensures
            map.entries() == Seq::<(String, V)>::empty(),
            map@ == Map::<Seq<char>, V>::empty(),
    {
        let map = TextMap { entries: Vec::new() };
        assert(map@ =~= Map::<Seq<char>, V>::empty());
        map
    }

    /// The number of entries.
    pub fn len(&self) -> (len: usize)
        ensures
            len == self.entries().len(),
    {
        self.entries.len()
    }

    /// The key of the entry at a position, in key order.
    pub fn key_at(&self, i: usize) -> (key: &String)
        requires
            i < self.entries().len(),
        ensures
            *key == self.entries()[i as int].0,
            self@.contains_key(key@),
            self@[key@] == self.entries()[i as int].1,
    {
        proof {
            use_type_invariant(self);
            lemma_map_of(self.entries@, i as int);
        }
        &self.entries[i].0
    }

    /// The value of the entry at a position, in key order.
    pub fn value_at(&self, i: usize) -> (value: &V)
        requires
            i < self.entries().len(),
        ensures
            *value == self.entries()[i as int].1,
    {
        &self.entries[i].1
    }

    /// The entries as a list, in key order.
    pub fn into_entries(self) -> (entries: Vec<(String, V)>)
        ensures
            entries@ == self.entries(),
            ascending(keys_of(entries@)),
    {
        proof {
            use_type_invariant(&self);
        }
        self.entries
    }

    /// The first position whose key is not less than the given one.
    fn find(entries: &Vec<(String, V)>, key: &str) -> (at: usize)
        requires
            ascending(keys_of(entries@)),
        ensures
            at <= entries@.len(),
            forall|i: int| 0 <= i < at ==> text_less((#[trigger] entries@[i]).0@, key@),
            forall|i: int|
                at <= i < entries@.len() ==> !text_less((#[trigger] entries@[i]).0@, key@),
            forall|i: int|
                at < i < entries@.len() ==> text_less(key@, (#[trigger] entries@[i]).0@),
    {
        let mut at: usize = 0;
        while at < entries.len() && str_less(entries[at].0.as_str(), key)
            invariant
                at <= entries@.len(),
                forall|i: int| 0 <= i < at ==> text_less((#[trigger] entries@[i]).0@, key@),
            decreases entries@.len() - at,
        {
            at = at + 1;
        }
        proof {
            let keys = keys_of(entries@);
            if at < entries@.len() {
                lemma_text_order(keys[at as int], key@);
                assert forall|i: int| at < i < entries@.len() implies text_less(
                    key@,
                    (#[trigger] entries@[i]).0@,
                ) by {
                    assert(text_less(keys[at as int], keys[i]));
                    if keys[at as int] != key@ {
                        lemma_text_order_transitive(key@, keys[at as int], keys[i]);
                    }
                }
                assert forall|i: int| at <= i < entries@.len() implies !text_less(
                    (#[trigger] entries@[i]).0@,
                    key@,
                ) by {
                    if i > at {
                        lemma_text_order(key@, entries@[i].0@);
                    }
                }
            }
        }
        at
    }

    /// What a key maps to, if anything.
    pub fn get(&self, key: &str) -> (value: Option<&V>)
        ensures
            match value {
                Some(v) => self@.contains_key(key@) && self@[key@] == *v,
                None => !self@.contains_key(key@),
            },
    {
        proof {
            use_type_invariant(self);
        }
        let at = Self::find(&self.entries, key);
        if at < self.entries.len() && same_str(self.entries[at].0.as_str(), key) {
            proof {
                lemma_map_of(self.entries@, at as int);
            }
            Some(&self.entries[at].1)
        } else {
            proof {
                assert forall|i: int| 0 <= i < self.entries@.len() implies (
                #[trigger] self.entries@[i]).0@ != key@ by {
                    lemma_text_order(key@, self.entries@[i].0@);
                }
                lemma_map_of_absent(self.entries@, key@);
            }
            None
        }
    }

    /// Whether the map has a key.
    pub fn contains_key(&self, key: &str) -> (found: bool)
        ensures
            found == self@.contains_key(key@),
    {
        self.get(key).is_some()
    }

    /// Makes `key` map to `value`.
    pub fn insert(&mut self, key: String, value: V)
        ensures
            final(self)@ == old(self)@.insert(key@, value),
    {
        proof {
            use_type_invariant(&*self);
        }
        let mut entries: Vec<(String, V)> = Vec::new();
        std::mem::swap(&mut entries, &mut self.entries);
        let ghost before = entries@;
        let at = Self::find(&entries, key.as_str());
        if at < entries.len() && same_str(entries[at].0.as_str(), key.as_str()) {
            proof {
                lemma_insert_again(before, at as int, (key, value));
            }
            entries.set(at, (key, value));
        } else {
            proof {
                assert forall|i: int| at <= i < before.len() implies text_less(
                    key@,
                    (#[trigger] before[i]).0@,
                ) by {
                    lemma_text_order(key@, before[i].0@);
                }
                lemma_insert_new(before, at as int, (key, value));
            }
            entries.insert(at, (key, value));
        }
        self.entries = entries;
    }
}

/// Without its last entry, a list stands for the mapping without that key.
proof fn lemma_drop_last<V>(entries: Seq<(String, V)>)
    requires
        ascending(keys_of(entries)),
        entries.len() > 0,
    ensures
        ascending(keys_of(entries.drop_last())),
        map_of(entries.drop_last()) == map_of(entries).remove(entries.last().0@),
{
    let rest = entries.drop_last();
    let last = entries.last().0@;
    assert(keys_of(rest) =~= keys_of(entries).drop_last());
    assert forall|key: Seq<char>| #[trigger]
        map_of(rest).contains_key(key) <==> map_of(entries).remove(last).contains_key(key) by {
        if map_of(rest).contains_key(key) {
            lemma_map_of_present(rest, key);
            let p = position(rest, key);
            assert(keys_of(entries)[p] == key);
            assert(keys_of(entries)[entries.len() - 1] == last);
            lemma_text_order(key, last);
        }
        if map_of(entries).contains_key(key) && key != last {
            lemma_map_of_present(entries, key);
            let p = position(entries, key);
            assert(keys_of(rest)[p] == key);
        }
    }
    assert forall|key: Seq<char>| #[trigger] map_of(rest).contains_key(key) implies map_of(
        rest,
    )[key] == map_of(entries).remove(last)[key] by {
        lemma_map_of_present(rest, key);
        let p = position(rest, key);
        lemma_map_of(rest, p);
        lemma_map_of(entries, p);
    }
    assert(map_of(rest) =~= map_of(entries).remove(last));
}

/// The mapping of one more entry.
pub proof fn lemma_one_more<V>(entries: Seq<(String, V)>, n: int)
    requires
        ascending(keys_of(entries)),
        0 <= n < entries.len(),
    ensures
        map_of(entries.take(n + 1)) == map_of(entries.take(n)).insert(
            entries[n].0@,
            entries[n].1,
        ),
{
    let more = entries.take(n + 1);
    assert(keys_of(more) =~= keys_of(entries).take(n + 1));
    assert(more.drop_last() =~= entries.take(n));
    lemma_drop_last(more);
    lemma_map_of(more, n);
    assert(map_of(more) =~= map_of(entries.take(n)).insert(entries[n].0@, entries[n].1));
}

/// In a list with ascending keys, no key comes after the last one.
proof fn lemma_last_is_greatest<V>(entries: Seq<(String, V)>, key: Seq<char>)
    requires
        ascending(keys_of(entries)),
        map_of(entries).contains_key(key),
    ensures
        entries.len() > 0,
        key == entries.last().0@ || text_less(key, entries.last().0@),
{
    lemma_map_of_present(entries, key);
    let p = position(entries, key);
    let keys = keys_of(entries);
    assert(keys[p] == key);
    assert(keys[entries.len() - 1] == entries.last().0@);
}

/// The contents of a map determine its entries: two lists in key order that stand for the same
/// mapping have the same keys and values at the same positions.
pub proof fn law_contents_determine_entries<V>(a: Seq<(String, V)>, b: Seq<(String, V)>)
    requires
        ascending(keys_of(a)),
        ascending(keys_of(b)),
        map_of(a) == map_of(b),
    ensures
        a.len() == b.len(),
        forall|i: int|
            0 <= i < a.len() ==> (#[trigger] a[i]).0@ == (#[trigger] b[i]).0@ && a[i].1 == b[i].1,
    decreases a.len(),
{
    if a.len() == 0 {
        if b.len() > 0 {
            lemma_map_of(b, 0);
            lemma_map_of_present(a, b[0].0@);
        }
    } else {
        let last = a.len() - 1;
        lemma_map_of(a, last);
        lemma_last_is_greatest(b, a.last().0@);
        lemma_map_of(b, b.len() - 1);
        lemma_last_is_greatest(a, b.last().0@);
        lemma_text_order(a.last().0@, b.last().0@);
        assert(a.last().0@ == b.last().0@);
        lemma_drop_last(a);
        lemma_drop_last(b);
        law_contents_determine_entries(a.drop_last(), b.drop_last());
        assert forall|i: int| 0 <= i < a.len() implies (#[trigger] a[i]).0@
            == (#[trigger] b[i]).0@ && a[i].1 == b[i].1 by {
            if i < last {
                assert(a.drop_last()[i] == a[i]);
                assert(b.drop_last()[i] == b[i]);
            }
        }
    }
}

} // verus!
