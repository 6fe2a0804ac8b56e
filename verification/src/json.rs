//! Values of a JSON document, as far as release indexes are read.

use crate::text::same_text;
use vstd::prelude::*;

verus! {

/// A JSON value. What a number is worth is of no interest here.
#[derive(Debug)]
pub enum Json {
    Null,
    Bool(bool),
    Number,
    Text(String),
    Array(Vec<Json>),
    Object(Vec<(String, Json)>),
}

/// The value under `key` among the entries from `from` on.
pub open spec fn entry_from(entries: Seq<(String, Json)>, key: Seq<char>, from: int) -> Option<Json>
    decreases entries.len() - from,
{
    if from < 0 || from >= entries.len() {
        None
    } else if entries[from].0@ == key {
        Some(entries[from].1)
    } else {
        entry_from(entries, key, from + 1)
    }
}

/// The value under `key` among the entries of an object.
pub open spec fn entry_of(entries: Seq<(String, Json)>, key: Seq<char>) -> Option<Json> {
    entry_from(entries, key, 0)
}

impl Json {
    /// The member `key` of an object.
    pub open spec fn member(self, key: Seq<char>) -> Option<Json> {
        match self {
            Json::Object(entries) => entry_of(entries@, key),
            _ => None,
        }
    }

    /// What a string holds.
    pub open spec fn text(self) -> Option<Seq<char>> {
        match self {
            Json::Text(text) => Some(text@),
            _ => None,
        }
    }

    /// What an array holds; nothing where the value is no array.
    pub open spec fn items(self) -> Seq<Json> {
        match self {
            Json::Array(items) => items@,
            _ => Seq::empty(),
        }
    }

    /// What the string under `key` holds.
    pub open spec fn member_text(self, key: Seq<char>) -> Option<Seq<char>> {
        match self.member(key) {
            Some(value) => value.text(),
            None => None,
        }
    }

    /// The member `key` of an object.
    pub fn get(&self, key: &str) -> (value: Option<&Json>)
        ensures
            match value {
                Some(value) => self.member(key@) == Some(*value),
                None => self.member(key@) is None,
            },
    {
        match self {
            Json::Object(entries) => lookup(entries, key),
            _ => None,
        }
    }

    /// What a string holds.
    pub fn as_str(&self) -> (text: Option<&str>)
        ensures
            match text {
                Some(text) => self.text() == Some(text@),
                None => self.text() is None,
            },
    {
        match self {
            Json::Text(text) => Some(text.as_str()),
            _ => None,
        }
    }

    /// What the string under `key` holds.
    pub fn get_str(&self, key: &str) -> (text: Option<&str>)
        ensures
            match text {
                Some(text) => self.member_text(key@) == Some(text@),
                None => self.member_text(key@) is None,
            },
    {
        match self.get(key) {
            Some(value) => value.as_str(),
            None => None,
        }
    }
}

/// The value under `key` among the entries of an object.
pub fn lookup<'a>(entries: &'a Vec<(String, Json)>, key: &str) -> (value: Option<&'a Json>)
    ensures
        match value {
            Some(value) => entry_of(entries@, key@) == Some(*value),
            None => entry_of(entries@, key@) is None,
        },
{
    let mut i: usize = 0;
    while i < entries.len()
        invariant
            i <= entries@.len(),
            entry_of(entries@, key@) == entry_from(entries@, key@, i as int),
        decreases entries@.len() - i,
    {
        if same_text(entries[i].0.as_str(), key) {
            return Some(&entries[i].1);
        }
        i += 1;
    }
    None
}

/// A key stands for the value of its first entry, wherever that stands; only a key
/// without an entry stands for nothing.
pub proof fn law_first_entry_counts(entries: Seq<(String, Json)>, key: Seq<char>)
    ensures
        match entry_of(entries, key) {
            Some(value) => exists|i: int|
                0 <= i < entries.len() && (#[trigger] entries[i]).0@ == key && entries[i].1 == value
                    && forall|j: int| 0 <= j < i ==> (#[trigger] entries[j]).0@ != key,
            None => forall|j: int| 0 <= j < entries.len() ==> (#[trigger] entries[j]).0@ != key,
        },
{
    lemma_entry_from(entries, key, 0);
}

proof fn lemma_entry_from(entries: Seq<(String, Json)>, key: Seq<char>, from: int)
    requires
        0 <= from,
    ensures
        match entry_from(entries, key, from) {
            Some(value) => exists|i: int|
                from <= i < entries.len() && (#[trigger] entries[i]).0@ == key && entries[i].1
                    == value && forall|j: int| from <= j < i ==> (#[trigger] entries[j]).0@ != key,
            None => forall|j: int| from <= j < entries.len() ==> (#[trigger] entries[j]).0@ != key,
        },
    decreases entries.len() - from,
{
    if from < entries.len() {
        if entries[from].0@ == key {
            assert(entries[from].1 == entry_from(entries, key, from)->Some_0);
        } else {
            lemma_entry_from(entries, key, from + 1);
            if let Some(value) = entry_from(entries, key, from + 1) {
                let i = choose|i: int|
                    from + 1 <= i < entries.len() && (#[trigger] entries[i]).0@ == key
                        && entries[i].1 == value && forall|j: int|
                        from + 1 <= j < i ==> (#[trigger] entries[j]).0@ != key;
                assert(entries[i].0@ == key);
            }
        }
    }
}

/// Only objects have members, and only texts are texts.
pub proof fn law_members_are_those_of_objects(value: Json, key: Seq<char>)
    ensures
        match value {
            Json::Object(entries) => value.member(key) == entry_of(entries@, key),
            _ => value.member(key) is None,
        },
        value.member_text(key) matches Some(text) ==> value.member(key) matches Some(
            Json::Text(found),
        ) && found@ == text,
        value.member(key) matches Some(Json::Text(found)) ==> value.member_text(key) == Some(found@),
{
}

} // verus!
