//! The document as a tree of plain values, and the accessors every reader
//! walks it with.
//!
//! Reading and writing are not symmetric: writes go through the CRDT's
//! containers, so each becomes a mergeable operation, while reads take the
//! whole subtree as values. Every reader here therefore walks one kind of
//! thing instead of branching on container-or-value at every level.

use vstd::prelude::*;

use crate::store::error::StoreError;
use crate::text::{push_str, string_of};

verus! {

/// One value of the document. Containers have been resolved into their
/// contents. There is no floating-point variant: no number in the document
/// is ever stored as one.
#[derive(Debug, PartialEq, Eq)]
pub enum Value {
    Null,
    Bool(bool),
    I64(i64),
    Binary(Vec<u8>),
    String(String),
    List(Vec<Value>),
    /// Entries by key. A map holds one entry per key; a lookup by key takes
    /// the first entry that has it.
    Table(Vec<(String, Value)>),
}

/// The text of a string value.
pub open spec fn as_text(v: Value) -> Option<Seq<char>> {
    match v {
        Value::String(s) => Some(s@),
        _ => None,
    }
}

/// The number of an integer value.
pub open spec fn as_int(v: Value) -> Option<i64> {
    match v {
        Value::I64(n) => Some(n),
        _ => None,
    }
}

/// The truth of a boolean value.
pub open spec fn as_bool(v: Value) -> Option<bool> {
    match v {
        Value::Bool(b) => Some(b),
        _ => None,
    }
}

/// The entries of a map value.
pub open spec fn as_map(v: Value) -> Option<Seq<(String, Value)>> {
    match v {
        Value::Table(m) => Some(m@),
        _ => None,
    }
}

/// The items of a list value.
pub open spec fn as_list(v: Value) -> Option<Seq<Value>> {
    match v {
        Value::List(l) => Some(l@),
        _ => None,
    }
}

/// What `m` holds under `key`.
pub open spec fn entry(m: Seq<(String, Value)>, key: Seq<char>) -> Option<Value>
    decreases m.len(),
{
    if m.len() == 0 {
        None
    } else if m[0].0@ == key {
        Some(m[0].1)
    } else {
        entry(m.drop_first(), key)
    }
}

/// What `m` holds under `key`, a `Null` counting as nothing: a key that was
/// cleared and a key that was never written read the same way.
pub open spec fn present(m: Seq<(String, Value)>, key: Seq<char>) -> Option<Value> {
    match entry(m, key) {
        Some(Value::Null) => None,
        other => other,
    }
}

/// `e` reports a corrupt document at `path`.
pub open spec fn corrupt_at(e: StoreError, path: Seq<char>) -> bool {
    e matches StoreError::Corrupt { path: p, .. } && p@ == path
}

/// The text `m` holds under `key`.
pub open spec fn text_at(m: Seq<(String, Value)>, key: Seq<char>) -> Option<Seq<char>> {
    match present(m, key) {
        Some(x) => as_text(x),
        None => None,
    }
}

/// The integer `m` holds under `key`.
pub open spec fn int_at(m: Seq<(String, Value)>, key: Seq<char>) -> Option<i64> {
    match present(m, key) {
        Some(x) => as_int(x),
        None => None,
    }
}

/// The boolean `m` holds under `key`.
pub open spec fn bool_at(m: Seq<(String, Value)>, key: Seq<char>) -> Option<bool> {
    match present(m, key) {
        Some(x) => as_bool(x),
        None => None,
    }
}

/// An entry whose key no earlier entry has is what the map holds under it.
pub proof fn lemma_entry_at(m: Seq<(String, Value)>, key: Seq<char>, i: int)
    requires
        0 <= i < m.len(),
        m[i].0@ == key,
        forall|j: int| 0 <= j < i ==> m[j].0@ != key,
    ensures
        entry(m, key) == Some(m[i].1),
    decreases i,
{
    if i > 0 {
        assert(m.drop_first()[i - 1] == m[i]);
        lemma_entry_at(m.drop_first(), key, i - 1);
    }
}

/// A key no entry has is absent.
pub proof fn lemma_entry_absent(m: Seq<(String, Value)>, key: Seq<char>)
    requires
        forall|j: int| 0 <= j < m.len() ==> m[j].0@ != key,
    ensures
        entry(m, key) is None,
    decreases m.len(),
{
    if m.len() > 0 {
        assert forall|j: int| 0 <= j < m.drop_first().len() implies m.drop_first()[j].0@ != key by {
            assert(m.drop_first()[j] == m[j + 1]);
        }
        lemma_entry_absent(m.drop_first(), key);
    }
}

/// The corruption error at `path`, for `detail`.
pub fn corrupt(path: &str, detail: &str) -> (e: StoreError)
    ensures
        corrupt_at(e, path@),
{
    StoreError::corrupt(path, detail)
}

/// The detail naming a missing key, quoted.
fn missing_key(key: &str) -> (s: String)
    ensures
        s@ == "missing key \""@ + key@ + seq!['"'],
{
    let mut out: Vec<char> = Vec::new();
    push_str(&mut out, "missing key \"");
    push_str(&mut out, key);
    out.push('"');
    proof {
        assert(out@ =~= "missing key \""@ + key@ + seq!['"']);
    }
    string_of(&out)
}

/// The entries of a map value, or a corruption error at `path`.
pub fn table<'a>(value: &'a Value, path: &str) -> (r: Result<&'a Vec<(String, Value)>, StoreError>)
    ensures
        match r {
            Ok(m) => as_map(*value) == Some(m@),
            Err(e) => as_map(*value) is None && corrupt_at(e, path@),
        },
{
    match value {
        Value::Table(m) => Ok(m),
        _ => Err(corrupt(path, "expected a map")),
    }
}

/// The items of a list value, or a corruption error at `path`.
pub fn list<'a>(value: &'a Value, path: &str) -> (r: Result<&'a Vec<Value>, StoreError>)
    ensures
        match r {
            Ok(l) => as_list(*value) == Some(l@),
            Err(e) => as_list(*value) is None && corrupt_at(e, path@),
        },
{
    match value {
        Value::List(l) => Ok(l),
        _ => Err(corrupt(path, "expected a list")),
    }
}

/// The text of a string value, or a corruption error at `path`.
pub fn string(value: &Value, path: &str) -> (r: Result<String, StoreError>)
    ensures
        match r {
            Ok(s) => as_text(*value) == Some(s@),
            Err(e) => as_text(*value) is None && corrupt_at(e, path@),
        },
{
    match value {
        Value::String(s) => Ok(s.clone()),
        _ => Err(corrupt(path, "expected a string")),
    }
}

/// The number of an integer value, or a corruption error at `path`.
pub fn integer(value: &Value, path: &str) -> (r: Result<i64, StoreError>)
    ensures
        match r {
            Ok(n) => as_int(*value) == Some(n),
            Err(e) => as_int(*value) is None && corrupt_at(e, path@),
        },
{
    match value {
        Value::I64(n) => Ok(*n),
        _ => Err(corrupt(path, "expected an integer")),
    }
}

/// The truth of a boolean value, or a corruption error at `path`.
pub fn boolean(value: &Value, path: &str) -> (r: Result<bool, StoreError>)
    ensures
        match r {
            Ok(b) => as_bool(*value) == Some(b),
            Err(e) => as_bool(*value) is None && corrupt_at(e, path@),
        },
{
    match value {
        Value::Bool(b) => Ok(*b),
        _ => Err(corrupt(path, "expected a boolean")),
    }
}

/// An optional field: what `map` holds under `key`, `Null` counting as
/// absent.
pub fn optional<'a>(map: &'a Vec<(String, Value)>, key: &str) -> (r: Option<&'a Value>)
    ensures
        match r {
            Some(v) => present(map@, key@) == Some(*v),
            None => present(map@, key@) is None,
        },
{
    let k = key.to_owned();
    let mut i: usize = 0;
    proof {
        assert(map@.skip(0) =~= map@);
    }
    while i < map.len()
        invariant
            i <= map@.len(),
            k@ == key@,
            entry(map@, key@) == entry(map@.skip(i as int), key@),
        decreases map@.len() - i,
    {
        proof {
            assert(map@.skip(i as int)[0] == map@[i as int]);
            assert(map@.skip(i as int).drop_first() =~= map@.skip(i + 1));
        }
        if map[i].0 == k {
            return match &map[i].1 {
                Value::Null => None,
                v => Some(v),
            };
        }
        i = i + 1;
    }
    proof {
        assert(map@.skip(i as int).len() == 0);
    }
    None
}

/// A required field: what `map` holds under `key`, or a corruption error at
/// `path` naming the key.
pub fn field<'a>(map: &'a Vec<(String, Value)>, key: &str, path: &str) -> (r: Result<
    &'a Value,
    StoreError,
>)
    ensures
        match r {
            Ok(v) => present(map@, key@) == Some(*v),
            Err(e) => present(map@, key@) is None && corrupt_at(e, path@),
        },
{
    match optional(map, key) {
        Some(v) => Ok(v),
        None => {
            let detail = missing_key(key);
            Err(corrupt(path, detail.as_str()))
        },
    }
}

/// A required string field.
pub fn text_field(map: &Vec<(String, Value)>, key: &str, path: &str) -> (r: Result<String, StoreError>)
    ensures
        match r {
            Ok(s) => text_at(map@, key@) == Some(s@),
            Err(e) => text_at(map@, key@) is None && corrupt_at(e, path@),
        },
{
    string(field(map, key, path)?, path)
}

/// A required integer field.
pub fn int_field(map: &Vec<(String, Value)>, key: &str, path: &str) -> (r: Result<i64, StoreError>)
    ensures
        match r {
            Ok(n) => int_at(map@, key@) == Some(n),
            Err(e) => int_at(map@, key@) is None && corrupt_at(e, path@),
        },
{
    integer(field(map, key, path)?, path)
}

/// A required boolean field.
pub fn bool_field(map: &Vec<(String, Value)>, key: &str, path: &str) -> (r: Result<bool, StoreError>)
    ensures
        match r {
            Ok(b) => bool_at(map@, key@) == Some(b),
            Err(e) => bool_at(map@, key@) is None && corrupt_at(e, path@),
        },
{
    boolean(field(map, key, path)?, path)
}

/// `a` followed by `b`.
pub fn joined(a: &str, b: &str) -> (s: String)
    ensures
        s@ == a@ + b@,
{
    let mut out: Vec<char> = Vec::new();
    push_str(&mut out, a);
    push_str(&mut out, b);
    string_of(&out)
}

/// A string value.
pub fn text(s: &str) -> (v: Value)
    ensures
        as_text(v) == Some(s@),
{
    Value::String(s.to_owned())
}

} // verus!
