//! Reading a plugin's configuration object the way a derived deserializer with per-field
//! defaults reads it: a missing field takes its default, a field of the wrong type makes the
//! whole configuration invalid, and unknown fields are ignored.
use vstd::prelude::*;
use crate::json::{str_items, string_items, views, JsonNumber, JsonValue};

verus! {

/// A `usize` field: its default when absent, the value when it is a non-negative integer that
/// fits, `None` (invalid) otherwise.
pub open spec fn usize_field(v: JsonValue, key: Seq<char>, dflt: usize) -> Option<usize> {
    match v.spec_get(key) {
        None => Some(dflt),
        Some(JsonValue::Number(JsonNumber::PosInt(n))) => if n <= usize::MAX {
            Some(n as usize)
        } else {
            None
        },
        Some(_) => None,
    }
}

/// A `bool` field: its default when absent, the value when it is a boolean, `None` otherwise.
pub open spec fn bool_field(v: JsonValue, key: Seq<char>, dflt: bool) -> Option<bool> {
    match v.spec_get(key) {
        None => Some(dflt),
        Some(JsonValue::Bool(b)) => Some(b),
        Some(_) => None,
    }
}

/// A string field: its default when absent, the value when it is a string, `None` otherwise.
pub open spec fn string_field(v: JsonValue, key: Seq<char>, dflt: Seq<char>) -> Option<Seq<char>> {
    match v.spec_get(key) {
        None => Some(dflt),
        Some(JsonValue::String(s)) => Some(s@),
        Some(_) => None,
    }
}

/// Whether every item is a string.
pub open spec fn all_strings(items: Seq<JsonValue>) -> bool {
    forall|i: int| 0 <= i < items.len() ==> #[trigger] items[i] is String
}

/// A string-list field: its default when absent, the strings when it is an array of strings,
/// `None` otherwise.
pub open spec fn strings_field(v: JsonValue, key: Seq<char>, dflt: Seq<Seq<char>>) -> Option<Seq<Seq<char>>> {
    match v.spec_get(key) {
        None => Some(dflt),
        Some(JsonValue::Array(items)) => if all_strings(items@) {
            Some(str_items(items@, false))
        } else {
            None
        },
        Some(_) => None,
    }
}

pub fn read_usize_field(v: &JsonValue, key: &str, dflt: usize) -> (r: Option<usize>)
    ensures
        r == usize_field(*v, key@, dflt),
{
    match v.get(key) {
        None => Some(dflt),
        Some(JsonValue::Number(JsonNumber::PosInt(n))) => {
            if *n as u128 <= usize::MAX as u128 {
                Some(*n as usize)
            } else {
                None
            }
        },
        Some(_) => None,
    }
}

pub fn read_bool_field(v: &JsonValue, key: &str, dflt: bool) -> (r: Option<bool>)
    ensures
        r == bool_field(*v, key@, dflt),
{
    match v.get(key) {
        None => Some(dflt),
        Some(JsonValue::Bool(b)) => Some(*b),
        Some(_) => None,
    }
}

pub fn read_string_field(v: &JsonValue, key: &str, dflt: &str) -> (r: Option<String>)
    ensures
        match string_field(*v, key@, dflt@) {
            Some(s) => r.is_some() && r.unwrap()@ == s,
            None => r.is_none(),
        },
{
    match v.get(key) {
        None => Some(dflt.to_owned()),
        Some(JsonValue::String(s)) => Some(s.clone()),
        Some(_) => None,
    }
}

fn all_string_items(items: &Vec<JsonValue>) -> (b: bool)
    ensures
        b == all_strings(items@),
{
    let mut i: usize = 0;
    while i < items.len()
        invariant
            i <= items@.len(),
            forall|k: int| 0 <= k < i ==> #[trigger] items@[k] is String,
        decreases items.len() - i,
    {
        match &items[i] {
            JsonValue::String(_) => {},
            _ => {
                return false;
            },
        }
        i = i + 1;
    }
    true
}

pub fn read_strings_field(v: &JsonValue, key: &str, dflt: Vec<String>) -> (r: Option<Vec<String>>)
    ensures
        match strings_field(*v, key@, views(dflt@)) {
            Some(ss) => r.is_some() && views(r.unwrap()@) == ss,
            None => r.is_none(),
        },
{
    match v.get(key) {
        None => Some(dflt),
        Some(JsonValue::Array(items)) => {
            if !all_string_items(items) {
                return None;
            }
            Some(string_items(items, false))
        },
        Some(_) => None,
    }
}

/// Whether `s` is one of `list` (`Vec::contains` on strings).
pub open spec fn in_strings(list: Seq<String>, s: Seq<char>) -> bool {
    exists|i: int| 0 <= i < list.len() && #[trigger] list[i]@ == s
}

pub fn strings_contain(list: &Vec<String>, s: &str) -> (b: bool)
    ensures
        b == in_strings(list@, s@),
{
    let mut i: usize = 0;
    while i < list.len()
        invariant
            i <= list@.len(),
            forall|k: int| 0 <= k < i ==> list@[k]@ != s@,
        decreases list.len() - i,
    {
        if crate::text::str_eq(list[i].as_str(), s) {
            return true;
        }
        i = i + 1;
    }
    false
}

/// `strs` as owned strings.
pub fn owned_strings(strs: &[&str]) -> (r: Vec<String>)
    ensures
        r@.len() == strs@.len(),
        forall|i: int| 0 <= i < r@.len() ==> #[trigger] r@[i]@ == strs@[i]@,
{
    let mut r: Vec<String> = Vec::new();
    let mut i: usize = 0;
    while i < strs.len()
        invariant
            i <= strs@.len(),
            r@.len() == i,
            forall|k: int| 0 <= k < i ==> #[trigger] r@[k]@ == strs@[k]@,
        decreases strs.len() - i,
    {
        r.push(strs[i].to_owned());
        i = i + 1;
    }
    r
}

} // verus!
