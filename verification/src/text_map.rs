//! A map from text to text that lists its entries in the order of the keys.

use crate::text::{same_text, text_precedes};
use vstd::prelude::*;

verus! {

/// Entries as pairs of texts.
pub open spec fn pairs(entries: Seq<(String, String)>) -> Seq<(Seq<char>, Seq<char>)> {
    entries.map_values(|entry: (String, String)| (entry.0@, entry.1@))
}

/// The keys ascend, so none stands twice.
pub open spec fn ascending(list: Seq<(Seq<char>, Seq<char>)>) -> bool {
    forall|i: int, j: int|
        0 <= i < j < list.len() ==> crate::text::precedes(
            (#[trigger] list[i]).0,
            (#[trigger] list[j]).0,
        )
}

/// The list has an entry under `key` at position `at`.
pub open spec fn entry_at(list: Seq<(Seq<char>, Seq<char>)>, key: Seq<char>, at: int) -> bool {
    0 <= at < list.len() && list[at].0 == key
}

/// The map whose entries the list holds.
pub open spec fn map_of(list: Seq<(Seq<char>, Seq<char>)>) -> Map<Seq<char>, Seq<char>> {
    Map::new(
        |key: Seq<char>| exists|at: int| entry_at(list, key, at),
        |key: Seq<char>| list[choose|at: int| entry_at(list, key, at)].1,
    )
}

/// A list of texts that ascends holds no text twice.
pub open spec fn ascending_texts(list: Seq<Seq<char>>) -> bool {
    forall|i: int, j: int|
        0 <= i < j < list.len() ==> crate::text::precedes(#[trigger] list[i], #[trigger] list[j])
}

/// The text `key` stands in one place of an ascending list at most.
proof fn lemma_entry_unique(
    list: Seq<(Seq<char>, Seq<char>)>,
    key: Seq<char>,
    i: int,
    j: int,
)
    requires
        ascending(list),
        entry_at(list, key, i),
        entry_at(list, key, j),
    ensures
        i == j,
{
    crate::text::lemma_precedes_irreflexive(key);
}

/// The map takes a key to the value that stands beside it.
proof fn lemma_map_of_entry(list: Seq<(Seq<char>, Seq<char>)>, key: Seq<char>, at: int)
    requires
        ascending(list),
        entry_at(list, key, at),
    ensures
        map_of(list).contains_key(key),
        map_of(list)[key] == list[at].1,
{
    lemma_entry_unique(list, key, at, choose|i: int| entry_at(list, key, i));
}

/// Two ascending lists of texts that hold the same texts are the same list.
pub proof fn lemma_ascending_unique(a: Seq<Seq<char>>, b: Seq<Seq<char>>)
    requires
        ascending_texts(a),
        ascending_texts(b),
        forall|text: Seq<char>| a.contains(text) <==> b.contains(text),
    ensures
        a == b,
    decreases a.len(),
{
    if a.len() == 0 {
        if b.len() > 0 {
            assert(b.contains(b[0]));
        }
        assert(a =~= b);
    } else {
        assert(a.contains(a.last()));
        let at = choose|i: int| 0 <= i < b.len() && b[i] == a.last();
        assert(b.contains(b.last()));
        let other = choose|i: int| 0 <= i < a.len() && a[i] == b.last();
        if a.last() != b.last() {
            crate::text::lemma_precedes_transitive(a.last(), b.last(), a.last());
            crate::text::lemma_precedes_irreflexive(a.last());
        }
        let shorter_a = a.drop_last();
        let shorter_b = b.drop_last();
        assert forall|text: Seq<char>| shorter_a.contains(text) implies shorter_b.contains(
            text,
        ) by {
            let i = choose|i: int| 0 <= i < shorter_a.len() && shorter_a[i] == text;
            assert(a[i] == text);
            assert(a.contains(text));
            let j = choose|j: int| 0 <= j < b.len() && b[j] == text;
            crate::text::lemma_precedes_irreflexive(text);
            assert(crate::text::precedes(a[i], a[a.len() - 1]));
            assert(shorter_b[j] == text);
        }
        assert forall|text: Seq<char>| shorter_b.contains(text) implies shorter_a.contains(
            text,
        ) by {
            let i = choose|i: int| 0 <= i < shorter_b.len() && shorter_b[i] == text;
            assert(b[i] == text);
            assert(b.contains(text));
            let j = choose|j: int| 0 <= j < a.len() && a[j] == text;
            crate::text::lemma_precedes_irreflexive(text);
            assert(crate::text::precedes(b[i], b[b.len() - 1]));
            assert(shorter_a[j] == text);
        }
        lemma_ascending_unique(shorter_a, shorter_b);
        assert(a =~= shorter_a.push(a.last()));
        assert(b =~= shorter_b.push(b.last()));
    }
}

/// The entries of a map, in ascending order of their keys.
pub open spec fn listing(map: Map<Seq<char>, Seq<char>>) -> Seq<(Seq<char>, Seq<char>)> {
    choose|list: Seq<(Seq<char>, Seq<char>)>| #[trigger] ascending(list) && map_of(list) == map
}

/// The map has a list of its entries, as every map of the library does.
pub open spec fn is_listed(map: Map<Seq<char>, Seq<char>>) -> bool {
    ascending(listing(map)) && map_of(listing(map)) == map
}

/// The keys of some entries.
pub open spec fn keys_of(list: Seq<(Seq<char>, Seq<char>)>) -> Seq<Seq<char>> {
    list.map_values(|entry: (Seq<char>, Seq<char>)| entry.0)
}

/// The keys of an ascending list ascend, and are the keys of its map.
proof fn lemma_keys_of(list: Seq<(Seq<char>, Seq<char>)>)
    requires
        ascending(list),
    ensures
        ascending_texts(keys_of(list)),
        forall|key: Seq<char>| #[trigger]
            keys_of(list).contains(key) <==> map_of(list).contains_key(key),
{
    let keys = keys_of(list);
    assert forall|key: Seq<char>| #[trigger] keys.contains(key) <==> map_of(list).contains_key(
        key,
    ) by {
        if keys.contains(key) {
            let at = choose|at: int| 0 <= at < keys.len() && keys[at] == key;
            assert(entry_at(list, key, at));
        }
        if map_of(list).contains_key(key) {
            let at = choose|at: int| entry_at(list, key, at);
            assert(keys[at] == key);
        }
    }
}

/// The list of a map's entries holds what the map holds.
pub proof fn lemma_listed(map: Map<Seq<char>, Seq<char>>, key: Seq<char>)
    requires
        is_listed(map),
    ensures
        map.contains_key(key) <==> exists|at: int| entry_at(listing(map), key, at),
        forall|at: int|
            #[trigger] entry_at(listing(map), key, at) ==> map[key] == listing(map)[at].1,
{
    let list = listing(map);
    assert forall|at: int| #[trigger] entry_at(list, key, at) implies map[key] == list[at].1 by {
        lemma_map_of_entry(list, key, at);
    }
}

/// A key stands in one place of the list at most.
pub proof fn lemma_listed_once(map: Map<Seq<char>, Seq<char>>, key: Seq<char>, i: int, j: int)
    requires
        is_listed(map),
        entry_at(listing(map), key, i),
        entry_at(listing(map), key, j),
    ensures
        i == j,
{
    lemma_entry_unique(listing(map), key, i, j);
}

/// A map has one ascending list of its entries.
pub proof fn lemma_listing(list: Seq<(Seq<char>, Seq<char>)>)
    requires
        ascending(list),
    ensures
        listing(map_of(list)) == list,
{
    let map = map_of(list);
    let other = listing(map);
    assert(ascending(other) && map_of(other) == map);
    let keys = keys_of(list);
    let other_keys = keys_of(other);
    lemma_keys_of(list);
    lemma_keys_of(other);
    lemma_ascending_unique(keys, other_keys);
    assert(keys.len() == list.len() && other_keys.len() == other.len());
    assert forall|i: int| 0 <= i < list.len() implies list[i] == other[i] by {
        assert(keys[i] == other_keys[i]);
        assert(entry_at(list, keys[i], i));
        assert(entry_at(other, keys[i], i));
        lemma_map_of_entry(list, keys[i], i);
        lemma_map_of_entry(other, keys[i], i);
    }
    assert(list =~= other);
}

/// The map without entries has no entries to list.
pub proof fn lemma_listing_of_nothing()
    ensures
        listing(Map::<Seq<char>, Seq<char>>::empty()).len() == 0,
{
    let none = Seq::<(Seq<char>, Seq<char>)>::empty();
    assert(map_of(none) =~= Map::<Seq<char>, Seq<char>>::empty()) by {
        assert forall|key: Seq<char>| !map_of(none).contains_key(key) by {}
    }
    lemma_listing(none);
}

/// A map from text to text.
#[derive(Debug)]
pub struct TextMap {
    entries: Vec<(String, String)>,
}

impl View for TextMap {
    type V = Map<Seq<char>, Seq<char>>;

    closed spec fn view(&self) -> Map<Seq<char>, Seq<char>> {
        map_of(pairs(self.entries@))
    }
}

impl TextMap {
    #[verifier::type_invariant]
    spec fn well_formed(self) -> bool {
        ascending(pairs(self.entries@))
    }

    /// The map without entries.
    pub fn new() -> (map: TextMap)
        ensures
            map@ == Map::<Seq<char>, Seq<char>>::empty(),
    {
        let map = TextMap { entries: Vec::new() };
        assert(map@ =~= Map::<Seq<char>, Seq<char>>::empty()) by {
            assert forall|key: Seq<char>| !map@.contains_key(key) by {}
        }
        map
    }

    /// The entries, in ascending order of their keys.
    pub fn entries(&self) -> (entries: &Vec<(String, String)>)
        ensures
            ascending(pairs(entries@)),
            map_of(pairs(entries@)) == self@,
            pairs(entries@) == listing(self@),
    {
        proof {
            use_type_invariant(self);
            lemma_listing(pairs(self.entries@));
        }
        &self.entries
    }

    /// The keys, in ascending order.
    pub fn keys(&self) -> (keys: Vec<String>)
        ensures
            ascending_texts(crate::text::texts(keys@)),
            forall|key: Seq<char>|
                #![trigger self@.contains_key(key)]
                crate::text::texts(keys@).contains(key) <==> self@.contains_key(key),
    {
        proof {
            use_type_invariant(self);
        }
        let mut keys: Vec<String> = Vec::new();
        let mut i: usize = 0;
        while i < self.entries.len()
            invariant
                i <= self.entries@.len(),
                keys@.len() == i,
                forall|j: int| 0 <= j < i ==> #[trigger] keys@[j]@ == self.entries@[j].0@,
            decreases self.entries@.len() - i,
        {
            keys.push(self.entries[i].0.clone());
            i += 1;
        }
        proof {
            let list = pairs(self.entries@);
            let names = crate::text::texts(keys@);
            assert forall|i: int, j: int| 0 <= i < j < names.len() implies crate::text::precedes(
                #[trigger] names[i],
                #[trigger] names[j],
            ) by {
                assert(list[i].0 == names[i] && list[j].0 == names[j]);
            }
            assert forall|key: Seq<char>|
                #![trigger self@.contains_key(key)]
                names.contains(key) <==> self@.contains_key(key) by {
                if names.contains(key) {
                    let at = choose|at: int| 0 <= at < names.len() && names[at] == key;
                    assert(entry_at(list, key, at));
                }
                if self@.contains_key(key) {
                    let at = choose|at: int| entry_at(list, key, at);
                    assert(names[at] == key);
                }
            }
        }
        keys
    }

    /// The value under `key`.
    pub fn get(&self, key: &str) -> (value: Option<&String>)
        ensures
            match value {
                Some(value) => self@.contains_key(key@) && value@ == self@[key@],
                None => !self@.contains_key(key@),
            },
    {
        proof {
            use_type_invariant(self);
        }
        let ghost list = pairs(self.entries@);
        let mut i: usize = 0;
        while i < self.entries.len()
            invariant
                i <= self.entries@.len(),
                list == pairs(self.entries@),
                ascending(list),
                forall|j: int| 0 <= j < i ==> !entry_at(list, key@, j),
            decreases self.entries@.len() - i,
        {
            if same_text(self.entries[i].0.as_str(), key) {
                proof {
                    assert(entry_at(list, key@, i as int));
                    lemma_map_of_entry(list, key@, i as int);
                }
                return Some(&self.entries[i].1);
            }
            i += 1;
        }
        None
    }

    /// Whether there is a value under `key`.
    pub fn contains_key(&self, key: &str) -> (found: bool)
        ensures
            found == self@.contains_key(key@),
    {
        self.get(key).is_some()
    }

    /// Puts `value` under `key`, in place of the value that was there.
    pub fn insert(&mut self, key: String, value: String)
        ensures
            final(self)@ == old(self)@.insert(key@, value@),
    {
        proof {
            use_type_invariant(&*self);
        }
        let ghost before = pairs(self.entries@);
        let mut entries: Vec<(String, String)> = Vec::new();
        std::mem::swap(&mut entries, &mut self.entries);
        let mut at: usize = 0;
        while at < entries.len() && text_precedes(entries[at].0.as_str(), key.as_str())
            invariant
                at <= entries@.len(),
                before == pairs(entries@),
                forall|j: int|
                    0 <= j < at ==> crate::text::precedes((#[trigger] before[j]).0, key@),
            decreases entries@.len() - at,
        {
            at += 1;
        }
        let present = at < entries.len() && same_text(entries[at].0.as_str(), key.as_str());
        if present {
            let _ = entries.remove(at);
        }
        let ghost new_key = key@;
        let ghost new_value = value@;
        entries.insert(at, (key, value));
        proof {
            if present {
                assert(pairs(entries@) =~= before.update(at as int, (new_key, new_value)));
            } else {
                assert(pairs(entries@) =~= before.insert(at as int, (new_key, new_value)));
            }
            lemma_inserted(before, pairs(entries@), at as int, new_key, new_value, present);
        }
        self.entries = entries;
    }
}

/// Putting an entry in its place keeps the order and updates the map.
proof fn lemma_inserted(
    before: Seq<(Seq<char>, Seq<char>)>,
    after: Seq<(Seq<char>, Seq<char>)>,
    at: int,
    key: Seq<char>,
    value: Seq<char>,
    present: bool,
)
    requires
        ascending(before),
        0 <= at <= before.len(),
        forall|j: int| 0 <= j < at ==> crate::text::precedes((#[trigger] before[j]).0, key),
        at < before.len() ==> !crate::text::precedes(before[at].0, key),
        present == (at < before.len() && before[at].0 == key),
        after == (if present {
            before.update(at, (key, value))
        } else {
            before.insert(at, (key, value))
        }),
    ensures
        ascending(after),
        map_of(after) == map_of(before).insert(key, value),
{
    if at < before.len() {
        crate::text::lemma_precedes_total(before[at].0, key);
    }
    let from = if present {
        at + 1
    } else {
        at
    };
    assert forall|j: int| from <= j < before.len() implies crate::text::precedes(
        key,
        (#[trigger] before[j]).0,
    ) by {
        if j > at {
            assert(crate::text::precedes(before[at].0, before[j].0));
            if !present {
                crate::text::lemma_precedes_transitive(key, before[at].0, before[j].0);
            }
        }
    }
    let shift = if present {
        0int
    } else {
        1int
    };
    assert forall|i: int, j: int| 0 <= i < j < after.len() implies crate::text::precedes(
        (#[trigger] after[i]).0,
        (#[trigger] after[j]).0,
    ) by {
        let old_i = if i <= at {
            i
        } else {
            i - shift
        };
        let old_j = if j <= at {
            j
        } else {
            j - shift
        };
        if i != at {
            assert(after[i] == before[old_i]);
        }
        if j != at {
            assert(after[j] == before[old_j]);
        }
    }
    let updated = map_of(before).insert(key, value);
    assert(entry_at(after, key, at));
    lemma_map_of_entry(after, key, at);
    assert forall|other: Seq<char>|
        #![trigger map_of(after).contains_key(other)]
        #![trigger updated.contains_key(other)]
        (map_of(after).contains_key(other) <==> updated.contains_key(other)) && (
        updated.contains_key(other) ==> map_of(after)[other] == updated[other]) by {
        if other != key {
            if map_of(before).contains_key(other) {
                let i = choose|i: int| entry_at(before, other, i);
                let new_i = if i < at {
                    i
                } else {
                    i + shift
                };
                assert(after[new_i] == before[i]);
                assert(entry_at(after, other, new_i));
                lemma_map_of_entry(after, other, new_i);
                lemma_map_of_entry(before, other, i);
            }
            if map_of(after).contains_key(other) {
                let i = choose|i: int| entry_at(after, other, i);
                let old_i = if i < at {
                    i
                } else {
                    i - shift
                };
                assert(i != at);
                assert(before[old_i] == after[i]);
                assert(entry_at(before, other, old_i));
            }
        }
    }
    assert(map_of(after) =~= updated);
}

impl Clone for TextMap {
    fn clone(&self) -> (copy: TextMap)
        ensures
            copy@ == self@,
    {
        proof {
            use_type_invariant(self);
        }
        let mut entries: Vec<(String, String)> = Vec::new();
        let mut i: usize = 0;
        while i < self.entries.len()
            invariant
                i <= self.entries@.len(),
                entries@.len() == i,
                forall|j: int|
                    0 <= j < i ==> (#[trigger] entries@[j]).0@ == self.entries@[j].0@
                        && entries@[j].1@ == self.entries@[j].1@,
            decreases self.entries@.len() - i,
        {
            entries.push((self.entries[i].0.clone(), self.entries[i].1.clone()));
            i += 1;
        }
        assert(pairs(entries@) =~= pairs(self.entries@));
        TextMap { entries }
    }
}

// -- laws --------------------------------------------------------------------

/// The listing of a map holds each of its keys once, with its value, in the order of
/// the keys.
pub proof fn law_listing_holds_every_entry(map: Map<Seq<char>, Seq<char>>, key: Seq<char>)
    requires
        is_listed(map),
    ensures
        map.contains_key(key) <==> exists|i: int|
            0 <= i < listing(map).len() && (#[trigger] listing(map)[i]).0 == key,
        forall|i: int|
            0 <= i < listing(map).len() ==> map.contains_key((#[trigger] listing(map)[i]).0)
                && listing(map)[i].1 == map[listing(map)[i].0],
        forall|i: int, j: int|
            0 <= i < j < listing(map).len() ==> crate::text::precedes(
                (#[trigger] listing(map)[i]).0,
                (#[trigger] listing(map)[j]).0,
            ),
{
    let list = listing(map);
    lemma_listed(map, key);
    if map.contains_key(key) {
        let at = choose|at: int| entry_at(list, key, at);
        assert(list[at].0 == key);
    }
    if exists|i: int| 0 <= i < list.len() && (#[trigger] list[i]).0 == key {
        let i = choose|i: int| 0 <= i < list.len() && (#[trigger] list[i]).0 == key;
        assert(entry_at(list, key, i));
    }
    assert forall|i: int| 0 <= i < list.len() implies map.contains_key((#[trigger] list[i]).0)
        && list[i].1 == map[list[i].0] by {
        lemma_listed(map, list[i].0);
        assert(entry_at(list, list[i].0, i));
    }
}

/// The entries of a map are modelled one by one.
pub proof fn law_models_hold_every_entry(
    entries: Seq<(String, String)>,
    list: Seq<(Seq<char>, Seq<char>)>,
)
    ensures
        pairs(entries).len() == entries.len(),
        forall|i: int|
            0 <= i < entries.len() ==> #[trigger] pairs(entries)[i] == (
                entries[i].0@,
                entries[i].1@,
            ),
        keys_of(list).len() == list.len(),
        forall|i: int| 0 <= i < list.len() ==> #[trigger] keys_of(list)[i] == list[i].0,
{
}

/// Lists are ascending where every text comes before all that follow it, so none is
/// there twice.
pub proof fn law_ascending_lists_are_ordered(
    list: Seq<Seq<char>>,
    entries: Seq<(Seq<char>, Seq<char>)>,
)
    ensures
        ascending_texts(list) <==> forall|i: int, j: int|
            0 <= i < j < list.len() ==> crate::text::precedes(
                #[trigger] list[i],
                #[trigger] list[j],
            ),
        ascending(entries) <==> forall|i: int, j: int|
            0 <= i < j < entries.len() ==> crate::text::precedes(
                (#[trigger] entries[i]).0,
                (#[trigger] entries[j]).0,
            ),
        ascending_texts(list) ==> list.no_duplicates(),
{
    if ascending_texts(list) {
        assert forall|i: int, j: int| 0 <= i < list.len() && 0 <= j < list.len() && i != j implies
            list[i] != list[j] by {
            crate::text::lemma_precedes_irreflexive(list[i]);
            if i < j {
                assert(crate::text::precedes(list[i], list[j]));
            } else {
                assert(crate::text::precedes(list[j], list[i]));
            }
        }
    }
}

/// The map of an ascending list holds its keys, each with its value.
pub proof fn law_lists_are_maps(list: Seq<(Seq<char>, Seq<char>)>, key: Seq<char>)
    requires
        ascending(list),
    ensures
        map_of(list).contains_key(key) <==> exists|i: int|
            0 <= i < list.len() && (#[trigger] list[i]).0 == key,
        forall|i: int| 0 <= i < list.len() ==> map_of(list)[(#[trigger] list[i]).0] == list[i].1,
{
    if map_of(list).contains_key(key) {
        let at = choose|at: int| entry_at(list, key, at);
        assert(list[at].0 == key);
    }
    if exists|i: int| 0 <= i < list.len() && (#[trigger] list[i]).0 == key {
        let i = choose|i: int| 0 <= i < list.len() && (#[trigger] list[i]).0 == key;
        assert(entry_at(list, key, i));
    }
    assert forall|i: int| 0 <= i < list.len() implies map_of(list)[(#[trigger] list[i]).0]
        == list[i].1 by {
        lemma_map_of_entry(list, list[i].0, i);
    }
}

} // verus!
