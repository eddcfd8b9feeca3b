//! The YAML values of front matter and registries, held as plain values, and
//! the lookups the validation rules make on them.

use vstd::prelude::*;

use crate::text::str_eq;

verus! {

/// A YAML value. Integers are kept as `Int` when they fit an `i64`, as
/// `UInt` above that; a floating-point number is kept by its JSON rendering
/// (the shortest decimal that reads back to it, or `null` when it is not
/// finite).
#[derive(Debug)]
pub enum Yaml {
    Null,
    Bool(bool),
    Int(i64),
    UInt(u64),
    Float(String),
    Str(String),
    List(Vec<Yaml>),
    Mapping(Vec<(Yaml, Yaml)>),
    Tagged(String, Box<Yaml>),
}

/// `k` is the string key `key`.
pub open spec fn key_is(k: Yaml, key: Seq<char>) -> bool {
    k matches Yaml::Str(s) && s@ == key
}

/// The index of the first entry with the string key `key`.
pub open spec fn entry_index(entries: Seq<(Yaml, Yaml)>, key: Seq<char>) -> Option<int>
    decreases entries.len(),
{
    if entries.len() == 0 {
        None
    } else if key_is(entries[0].0, key) {
        Some(0)
    } else {
        match entry_index(entries.drop_first(), key) {
            Some(i) => Some(i + 1),
            None => None,
        }
    }
}

pub proof fn lemma_entry_index(entries: Seq<(Yaml, Yaml)>, key: Seq<char>, i: int)
    requires
        0 <= i <= entries.len(),
        forall|j: int| 0 <= j < i ==> !key_is(#[trigger] entries[j].0, key),
    ensures
        i < entries.len() && key_is(entries[i].0, key) ==> entry_index(entries, key) == Some(i),
        i == entries.len() ==> entry_index(entries, key) is None,
    decreases i,
{
    if i > 0 {
        let rest = entries.drop_first();
        assert forall|j: int| 0 <= j < i - 1 implies !key_is(#[trigger] rest[j].0, key) by {
            assert(rest[j] == entries[j + 1]);
        }
        lemma_entry_index(rest, key, i - 1);
    }
}

/// The value under its tags, as every lookup sees it.
pub open spec fn untag(y: Yaml) -> Yaml
    decreases y,
{
    match y {
        Yaml::Tagged(_, inner) => untag(*inner),
        _ => y,
    }
}

/// `a` and `b` carry the same tags, outermost first, whatever values they
/// wrap.
pub open spec fn same_tags(a: Yaml, b: Yaml) -> bool
    decreases a,
{
    match a {
        Yaml::Tagged(t, x) => match b {
            Yaml::Tagged(u, y) => t@ == u@ && same_tags(*x, *y),
            _ => false,
        },
        _ => !(b is Tagged),
    }
}

/// The value under the string key `key` of a mapping (tags looked
/// through); nothing for other values or a missing key.
pub open spec fn field(y: Yaml, key: Seq<char>) -> Option<Yaml> {
    match untag(y) {
        Yaml::Mapping(entries) => match entry_index(entries@, key) {
            Some(i) => Some(entries@[i].1),
            None => None,
        },
        _ => None,
    }
}

/// The text of a string value.
pub open spec fn text(y: Option<Yaml>) -> Option<Seq<char>> {
    match y {
        Some(v) => match untag(v) {
            Yaml::Str(s) => Some(s@),
            _ => None,
        },
        None => None,
    }
}

/// The text under `key`, when it is a string.
pub open spec fn str_field(y: Yaml, key: Seq<char>) -> Option<Seq<char>> {
    text(field(y, key))
}

/// The items of a sequence value.
pub open spec fn items(y: Option<Yaml>) -> Option<Seq<Yaml>> {
    match y {
        Some(v) => match untag(v) {
            Yaml::List(l) => Some(l@),
            _ => None,
        },
        None => None,
    }
}

/// The value is a mapping.
pub open spec fn is_map(y: Option<Yaml>) -> bool {
    y matches Some(v) && untag(v) is Mapping
}

/// The boolean of a boolean value.
pub open spec fn boolean(y: Option<Yaml>) -> Option<bool> {
    match y {
        Some(v) => match untag(v) {
            Yaml::Bool(b) => Some(b),
            _ => None,
        },
        None => None,
    }
}

/// The integer of an integer value that fits an `i64`.
pub open spec fn integer(y: Option<Yaml>) -> Option<int> {
    match y {
        Some(v) => match untag(v) {
            Yaml::Int(n) => Some(n as int),
            _ => None,
        },
        None => None,
    }
}

/// The view of an optional reference to a value.
pub open spec fn deref_opt(r: Option<&Yaml>) -> Option<Yaml> {
    match r {
        Some(v) => Some(*v),
        None => None,
    }
}

impl Yaml {
    /// The value under its tags.
    pub fn untagged(&self) -> (r: &Yaml)
        ensures
            *r == untag(*self),
        decreases self,
    {
        match self {
            Yaml::Tagged(_, inner) => inner.untagged(),
            _ => self,
        }
    }

    /// `Value::get` with a string key.
    pub fn get(&self, key: &str) -> (r: Option<&Yaml>)
        ensures
            deref_opt(r) == field(*self, key@),
    {
        let this = self.untagged();
        match this {
            Yaml::Mapping(entries) => {
                let mut i: usize = 0;
                while i < entries.len()
                    invariant
                        untag(*self) == Yaml::Mapping(*entries),
                        i <= entries.len(),
                        forall|j: int| 0 <= j < i ==> !key_is(#[trigger] entries@[j].0, key@),
                    decreases entries.len() - i,
                {
                    let entry = &entries[i];
                    assert(*entry == entries@[i as int]);
                    let found = match &entry.0 {
                        Yaml::Str(s) => str_eq(s.as_str(), key),
                        _ => false,
                    };
                    if found {
                        assert(key_is(entry.0, key@));
                        proof { lemma_entry_index(entries@, key@, i as int); }
                        return Some(&entry.1);
                    }
                    i = i + 1;
                }
                proof { lemma_entry_index(entries@, key@, i as int); }
                None
            },
            _ => None,
        }
    }

    /// Whether a mapping has the string key `key`.
    pub fn contains_key(&self, key: &str) -> (b: bool)
        ensures
            b == (field(*self, key@) is Some),
    {
        self.get(key).is_some()
    }

    /// `Value::as_str`.
    pub fn as_str(&self) -> (r: Option<&str>)
        ensures
            match r {
                Some(s) => text(Some(*self)) == Some(s@),
                None => text(Some(*self)) is None,
            },
    {
        match self.untagged() {
            Yaml::Str(s) => Some(s.as_str()),
            _ => None,
        }
    }

    /// The text under `key`, when it is a string.
    pub fn get_str(&self, key: &str) -> (r: Option<&str>)
        ensures
            match r {
                Some(s) => str_field(*self, key@) == Some(s@),
                None => str_field(*self, key@) is None,
            },
    {
        match self.get(key) {
            Some(v) => v.as_str(),
            None => None,
        }
    }

    /// `Value::as_sequence`.
    pub fn as_seq(&self) -> (r: Option<&Vec<Yaml>>)
        ensures
            match r {
                Some(v) => items(Some(*self)) == Some(v@),
                None => items(Some(*self)) is None,
            },
    {
        match self.untagged() {
            Yaml::List(v) => Some(v),
            _ => None,
        }
    }

    /// `Value::as_bool`.
    pub fn as_bool(&self) -> (r: Option<bool>)
        ensures
            r == boolean(Some(*self)),
    {
        match self.untagged() {
            Yaml::Bool(b) => Some(*b),
            _ => None,
        }
    }

    /// `Value::as_i64`.
    pub fn as_i64(&self) -> (r: Option<i64>)
        ensures
            match r {
                Some(n) => integer(Some(*self)) == Some(n as int),
                None => integer(Some(*self)) is None,
            },
    {
        match self.untagged() {
            Yaml::Int(n) => Some(*n),
            _ => None,
        }
    }

    /// Whether the value is a mapping.
    pub fn is_mapping(&self) -> (b: bool)
        ensures
            b == is_map(Some(*self)),
    {
        match self.untagged() {
            Yaml::Mapping(_) => true,
            _ => false,
        }
    }
}

} // verus!
