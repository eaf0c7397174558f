//! JSON documents as the PipeWire and PulseAudio tools print them, and the reads
//! that the backend makes of them.
use vstd::prelude::*;
use crate::text::str_eq;

verus! {

/// A JSON value. An object keeps its members in order; a lookup finds the first
/// member with the key.
#[derive(Debug)]
pub enum JsonValue {
    Null,
    Bool(bool),
    /// A number, with its value where it is a whole number from 0 to `u64::MAX`.
    Number(Option<u64>),
    Str(String),
    Array(Vec<JsonValue>),
    Object(Vec<(String, JsonValue)>),
}

/// Index of the first member with key `key`, or -1.
pub open spec fn key_index(members: Seq<(String, JsonValue)>, key: Seq<char>) -> int
    decreases members.len(),
{
    if members.len() == 0 {
        -1
    } else {
        let f = key_index(members.drop_last(), key);
        if f >= 0 {
            f
        } else if members.last().0@ == key {
            members.len() - 1
        } else {
            -1
        }
    }
}

proof fn lemma_key_index_prefix(members: Seq<(String, JsonValue)>, m: int, key: Seq<char>)
    requires
        0 <= m <= members.len(),
        key_index(members.take(m), key) >= 0,
    ensures
        key_index(members, key) == key_index(members.take(m), key),
    decreases members.len(),
{
    if m == members.len() {
        assert(members.take(m) =~= members);
    } else {
        assert(members.drop_last().take(m) =~= members.take(m));
        lemma_key_index_prefix(members.drop_last(), m, key);
    }
}

/// The member of object `v` with key `key`; nothing where `v` is no object or
/// has no such member.
pub open spec fn json_get(v: JsonValue, key: Seq<char>) -> Option<JsonValue> {
    match v {
        JsonValue::Object(members) => {
            let k = key_index(members@, key);
            if k >= 0 {
                Some(members@[k].1)
            } else {
                None
            }
        },
        _ => None,
    }
}

/// The text of a string value.
pub open spec fn str_of(v: Option<JsonValue>) -> Option<Seq<char>> {
    match v {
        Some(JsonValue::Str(s)) => Some(s@),
        _ => None,
    }
}

/// The value of a whole number from 0 to `u64::MAX`.
pub open spec fn u64_of(v: Option<JsonValue>) -> Option<u64> {
    match v {
        Some(JsonValue::Number(Some(n))) => Some(n),
        _ => None,
    }
}

/// The value of a boolean.
pub open spec fn bool_of(v: Option<JsonValue>) -> Option<bool> {
    match v {
        Some(JsonValue::Bool(b)) => Some(b),
        _ => None,
    }
}

/// The string member `key` of object `v`.
pub open spec fn json_prop(v: JsonValue, key: Seq<char>) -> Option<Seq<char>> {
    str_of(json_get(v, key))
}

/// The value reached from `v` by following the keys of `path` in turn.
pub open spec fn json_at(v: JsonValue, path: Seq<Seq<char>>) -> Option<JsonValue>
    decreases path.len(),
{
    if path.len() == 0 {
        Some(v)
    } else {
        match json_get(v, path[0]) {
            Some(c) => json_at(c, path.drop_first()),
            None => None,
        }
    }
}

/// The string reached from `v` by following the keys of `path`.
pub open spec fn json_prop_path(v: JsonValue, path: Seq<Seq<char>>) -> Option<Seq<char>> {
    str_of(json_at(v, path))
}

impl JsonValue {
    /// The member with key `key`, where this is an object that has one.
    pub fn get(&self, key: &str) -> (r: Option<&JsonValue>)
        ensures
            match r {
                Some(c) => json_get(*self, key@) == Some(*c),
                None => json_get(*self, key@) is None,
            },
    {
        match self {
            JsonValue::Object(members) => {
                let mut j: usize = 0;
                while j < members.len()
                    invariant
                        j <= members@.len(),
                        *self == JsonValue::Object(*members),
                        key_index(members@.take(j as int), key@) == -1,
                    decreases members@.len() - j,
                {
                    assert(members@.take(j + 1).drop_last() =~= members@.take(j as int));
                    if str_eq(members[j].0.as_str(), key) {
                        proof {
                            lemma_key_index_prefix(members@, j + 1, key@);
                        }
                        return Some(&members[j].1);
                    }
                    j = j + 1;
                }
                assert(members@.take(j as int) =~= members@);
                None
            },
            _ => None,
        }
    }

    /// The text, where this is a string.
    pub fn as_str(&self) -> (r: Option<&str>)
        ensures
            match r {
                Some(s) => str_of(Some(*self)) == Some(s@),
                None => str_of(Some(*self)) is None,
            },
    {
        match self {
            JsonValue::Str(s) => Some(s.as_str()),
            _ => None,
        }
    }

    /// The value, where this is a whole number from 0 to `u64::MAX`.
    pub fn as_u64(&self) -> (r: Option<u64>)
        ensures
            r == u64_of(Some(*self)),
    {
        match self {
            JsonValue::Number(Some(n)) => Some(*n),
            _ => None,
        }
    }

    /// The value, where this is a boolean.
    pub fn as_bool(&self) -> (r: Option<bool>)
        ensures
            r == bool_of(Some(*self)),
    {
        match self {
            JsonValue::Bool(b) => Some(*b),
            _ => None,
        }
    }

    /// The elements, where this is an array.
    pub fn as_array(&self) -> (r: Option<&Vec<JsonValue>>)
        ensures
            match *self {
                JsonValue::Array(items) => r == Some(&items),
                _ => r is None,
            },
    {
        match self {
            JsonValue::Array(items) => Some(items),
            _ => None,
        }
    }
}

/// The string member `key` of `value` (see [`json_prop`]).
pub fn prop<'a>(value: &'a JsonValue, key: &str) -> (r: Option<&'a str>)
    ensures
        match r {
            Some(s) => json_prop(*value, key@) == Some(s@),
            None => json_prop(*value, key@) is None,
        },
{
    match value.get(key) {
        Some(c) => c.as_str(),
        None => None,
    }
}

/// The keys of a path, by their characters.
pub open spec fn path_view(path: Seq<&str>) -> Seq<Seq<char>> {
    path.map_values(|k: &str| k@)
}

/// The string reached from `value` along `path` (see [`json_prop_path`]).
pub fn prop_path<'a>(value: &'a JsonValue, path: &[&str]) -> (r: Option<&'a str>)
    ensures
        match r {
            Some(s) => json_prop_path(*value, path_view(path@)) == Some(s@),
            None => json_prop_path(*value, path_view(path@)) is None,
        },
{
    let ghost p = path_view(path@);
    let mut current: &JsonValue = value;
    let mut i: usize = 0;
    assert(p.skip(0) =~= p);
    while i < path.len()
        invariant
            i <= path@.len(),
            p == path_view(path@),
            json_at(*value, p) == json_at(*current, p.skip(i as int)),
        decreases path@.len() - i,
    {
        assert(p.skip(i as int)[0] == path@[i as int]@);
        assert(p.skip(i as int).drop_first() =~= p.skip(i + 1));
        match current.get(path[i]) {
            Some(c) => {
                current = c;
            },
            None => {
                return None;
            },
        }
        i = i + 1;
    }
    assert(p.skip(i as int).len() == 0);
    current.as_str()
}

} // verus!
