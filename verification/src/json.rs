//! A plain model of the JSON documents that the rqlite HTTP API answers with.
//!
//! The storage layer reads query results out of JSON; the library holds such a
//! document as a [`JsonValue`], so that every rule that reads it is verified.
use vstd::prelude::*;

verus! {

/// A JSON number as the HTTP client classifies it.
///
/// A non-negative integer is `PosInt`, a negative integer is `NegInt` and any
/// other finite number is `Float`, which keeps the IEEE-754 bits of the value.
#[derive(Debug, PartialEq, Eq)]
pub enum JsonNumber {
    PosInt(u64),
    NegInt(i64),
    Float(u64),
}

/// A JSON value.
///
/// An object is held as its entries, in order; a key occurs at most once.
#[derive(Debug, PartialEq, Eq)]
pub enum JsonValue {
    Null,
    Bool(bool),
    Number(JsonNumber),
    String(String),
    Array(Vec<JsonValue>),
    Object(Vec<(String, JsonValue)>),
}

impl JsonNumber {
    /// The number as a `u64`, where it is a non-negative integer.
    pub open spec fn spec_as_u64(self) -> Option<u64> {
        match self {
            JsonNumber::PosInt(n) => Some(n),
            _ => None,
        }
    }

    /// The number as a `u64`, where it is a non-negative integer.
    pub fn as_u64(&self) -> (r: Option<u64>)
        ensures
            r == self.spec_as_u64(),
    {
        match self {
            JsonNumber::PosInt(n) => Some(*n),
            _ => None,
        }
    }
}

/// The value stored under `key` among the entries of an object, if any: the
/// first entry with that key.
pub open spec fn spec_lookup(entries: Seq<(String, JsonValue)>, key: Seq<char>) -> Option<JsonValue>
    decreases entries.len(),
{
    if entries.len() == 0 {
        None
    } else if entries[0].0@ == key {
        Some(entries[0].1)
    } else {
        spec_lookup(entries.drop_first(), key)
    }
}

/// Index of the first entry stored under `key`, or the number of entries when
/// there is none.
pub open spec fn spec_lookup_index(entries: Seq<(String, JsonValue)>, key: Seq<char>) -> int
    decreases entries.len(),
{
    if entries.len() == 0 {
        0
    } else if entries[0].0@ == key {
        0
    } else {
        1 + spec_lookup_index(entries.drop_first(), key)
    }
}

proof fn lemma_lookup_index(entries: Seq<(String, JsonValue)>, key: Seq<char>)
    ensures
        0 <= spec_lookup_index(entries, key) <= entries.len(),
        spec_lookup_index(entries, key) < entries.len() ==> {
            &&& entries[spec_lookup_index(entries, key)].0@ == key
            &&& spec_lookup(entries, key) == Some(entries[spec_lookup_index(entries, key)].1)
        },
        spec_lookup_index(entries, key) == entries.len() ==> spec_lookup(entries, key) is None,
        forall|j: int| 0 <= j < spec_lookup_index(entries, key) ==> entries[j].0@ != key,
    decreases entries.len(),
{
    if entries.len() > 0 && entries[0].0@ != key {
        let rest = entries.drop_first();
        lemma_lookup_index(rest, key);
        assert forall|j: int| 0 <= j < spec_lookup_index(entries, key) implies entries[j].0@ != key by {
            if j > 0 {
                assert(entries[j] == rest[j - 1]);
            }
        }
    }
}

/// Whether `s` holds exactly the characters of `lit`.
pub fn str_eq(s: &String, lit: &str) -> (r: bool)
    ensures
        r == (s@ == lit@),
{
    let t = String::from_str(lit);
    *s == t
}

/// Position of the entry stored under `key`, if any.
pub fn find_entry(entries: &Vec<(String, JsonValue)>, key: &str) -> (r: Option<usize>)
    ensures
        match r {
            Some(i) => {
                &&& i < entries@.len()
                &&& i == spec_lookup_index(entries@, key@)
                &&& spec_lookup(entries@, key@) == Some(entries@[i as int].1)
            },
            None => spec_lookup(entries@, key@) is None,
        },
{
    proof {
        lemma_lookup_index(entries@, key@);
    }
    let mut i: usize = 0;
    while i < entries.len()
        invariant
            i <= entries@.len(),
            forall|j: int| 0 <= j < i ==> entries@[j].0@ != key@,
            0 <= spec_lookup_index(entries@, key@) <= entries@.len(),
            spec_lookup_index(entries@, key@) < entries@.len() ==> {
                &&& entries@[spec_lookup_index(entries@, key@)].0@ == key@
                &&& spec_lookup(entries@, key@) == Some(
                    entries@[spec_lookup_index(entries@, key@)].1,
                )
            },
            spec_lookup_index(entries@, key@) == entries@.len() ==> spec_lookup(entries@, key@) is None,
            forall|j: int| 0 <= j < spec_lookup_index(entries@, key@) ==> entries@[j].0@ != key@,
        decreases entries@.len() - i,
    {
        if str_eq(&entries[i].0, key) {
            return Some(i);
        }
        i = i + 1;
    }
    None
}

/// The value stored under `key` among the entries of an object, if any.
pub fn lookup<'a>(entries: &'a Vec<(String, JsonValue)>, key: &str) -> (r: Option<&'a JsonValue>)
    ensures
        match r {
            Some(v) => spec_lookup(entries@, key@) == Some(*v),
            None => spec_lookup(entries@, key@) is None,
        },
{
    match find_entry(entries, key) {
        Some(i) => Some(&entries[i].1),
        None => None,
    }
}

/// Takes the value stored under `key` out of the entries of an object; the
/// entry it was in is removed, the others stay in order.
pub fn take_entry(entries: &mut Vec<(String, JsonValue)>, key: &str) -> (r: Option<JsonValue>)
    ensures
        r == spec_lookup(old(entries)@, key@),
        final(entries)@ == (if r is Some {
            old(entries)@.remove(spec_lookup_index(old(entries)@, key@))
        } else {
            old(entries)@
        }),
{
    match find_entry(entries, key) {
        Some(i) => {
            let (_k, v) = entries.remove(i);
            Some(v)
        },
        None => None,
    }
}

} // verus!
