//! The JSON values rule options arrive in, with the lenient typed lookups rules read them by.
use vstd::prelude::*;
use crate::text::str_eq;

verus! {

/// A JSON number, as far as option reading distinguishes it.
#[derive(Clone, Debug)]
pub enum JsonNumber {
    /// A non-negative integer.
    PosInt(u64),
    /// A negative integer.
    NegInt(i64),
    /// A number with a fraction or exponent.
    Fractional,
}

/// A JSON value. Object members keep their order; a key occurs at most once.
#[derive(Debug)]
pub enum JsonValue {
    Null,
    Bool(bool),
    Number(JsonNumber),
    String(String),
    Array(Vec<JsonValue>),
    Object(Vec<JsonMember>),
}

/// One member of a JSON object.
#[derive(Debug)]
pub struct JsonMember {
    pub key: String,
    pub value: JsonValue,
}

/// The value of the first member of `members` named `key`.
pub open spec fn member(members: Seq<JsonMember>, key: Seq<char>) -> Option<JsonValue>
    decreases members.len(),
{
    if members.len() == 0 {
        None
    } else if members[0].key@ == key {
        Some(members[0].value)
    } else {
        member(members.drop_first(), key)
    }
}

impl JsonValue {
    /// `value.get(key)`: the member `key` of an object; `None` for a missing key or a non-object.
    pub open spec fn spec_get(self, key: Seq<char>) -> Option<JsonValue> {
        match self {
            JsonValue::Object(members) => member(members@, key),
            _ => None,
        }
    }

    /// `value.as_u64()`.
    pub open spec fn spec_as_u64(self) -> Option<u64> {
        match self {
            JsonValue::Number(JsonNumber::PosInt(n)) => Some(n),
            _ => None,
        }
    }

    /// `value.as_str()`, by the string's characters.
    pub open spec fn spec_as_str(self) -> Option<Seq<char>> {
        match self {
            JsonValue::String(s) => Some(s@),
            _ => None,
        }
    }

    /// `value.as_bool()`.
    pub open spec fn spec_as_bool(self) -> Option<bool> {
        match self {
            JsonValue::Bool(b) => Some(b),
            _ => None,
        }
    }

    pub fn get(&self, key: &str) -> (r: Option<&JsonValue>)
        ensures
            match self.spec_get(key@) {
                Some(v) => r.is_some() && *r.unwrap() == v,
                None => r.is_none(),
            },
    {
        match self {
            JsonValue::Object(members) => {
                let mut i: usize = 0;
                assert(members@.skip(0) =~= members@);
                while i < members.len()
                    invariant
                        i <= members.len(),
                        self.spec_get(key@) == member(members@, key@),
                        member(members@, key@) == member(members@.skip(i as int), key@),
                    decreases members.len() - i,
                {
                    assert(members@.skip(i as int).drop_first() =~= members@.skip(i + 1));
                    assert(members@.skip(i as int)[0] == members@[i as int]);
                    if str_eq(members[i].key.as_str(), key) {
                        assert(members@.skip(i as int).len() > 0);
                        assert(member(members@.skip(i as int), key@) == Some(members@[i as int].value));
                        return Some(&members[i].value);
                    }
                    i = i + 1;
                }
                None
            },
            _ => None,
        }
    }

    pub fn as_u64(&self) -> (r: Option<u64>)
        ensures
            r == self.spec_as_u64(),
    {
        match self {
            JsonValue::Number(JsonNumber::PosInt(n)) => Some(*n),
            _ => None,
        }
    }

    pub fn as_str(&self) -> (r: Option<&str>)
        ensures
            match self.spec_as_str() {
                Some(s) => r.is_some() && r.unwrap()@ == s,
                None => r.is_none(),
            },
    {
        match self {
            JsonValue::String(s) => Some(s.as_str()),
            _ => None,
        }
    }

    pub fn as_bool(&self) -> (r: Option<bool>)
        ensures
            r == self.spec_as_bool(),
    {
        match self {
            JsonValue::Bool(b) => Some(*b),
            _ => None,
        }
    }

    pub fn as_array(&self) -> (r: Option<&Vec<JsonValue>>)
        ensures
            match self {
                JsonValue::Array(items) => r.is_some() && r.unwrap()@ == items@,
                _ => r.is_none(),
            },
    {
        match self {
            JsonValue::Array(items) => Some(items),
            _ => None,
        }
    }

    pub fn is_null(&self) -> (b: bool)
        ensures
            b == (self is Null),
    {
        match self {
            JsonValue::Null => true,
            _ => false,
        }
    }
}

/// `options.get(key).and_then(Value::as_u64)`.
pub open spec fn opt_u64(options: JsonValue, key: Seq<char>) -> Option<u64> {
    match options.spec_get(key) {
        Some(v) => v.spec_as_u64(),
        None => None,
    }
}

/// `options.get(key).and_then(Value::as_str)`.
pub open spec fn opt_str(options: JsonValue, key: Seq<char>) -> Option<Seq<char>> {
    match options.spec_get(key) {
        Some(v) => v.spec_as_str(),
        None => None,
    }
}

/// `options.get(key).and_then(Value::as_bool)`.
pub open spec fn opt_bool(options: JsonValue, key: Seq<char>) -> Option<bool> {
    match options.spec_get(key) {
        Some(v) => v.spec_as_bool(),
        None => None,
    }
}

pub fn get_u64(options: &JsonValue, key: &str) -> (r: Option<u64>)
    ensures
        r == opt_u64(*options, key@),
{
    match options.get(key) {
        Some(v) => v.as_u64(),
        None => None,
    }
}

pub fn get_str<'a>(options: &'a JsonValue, key: &str) -> (r: Option<&'a str>)
    ensures
        match opt_str(*options, key@) {
            Some(s) => r.is_some() && r.unwrap()@ == s,
            None => r.is_none(),
        },
{
    match options.get(key) {
        Some(v) => v.as_str(),
        None => None,
    }
}

pub fn get_bool(options: &JsonValue, key: &str) -> (r: Option<bool>)
    ensures
        r == opt_bool(*options, key@),
{
    match options.get(key) {
        Some(v) => v.as_bool(),
        None => None,
    }
}

/// `usize::try_from(n).unwrap_or(usize::MAX)`: a limit that does not fit means "no limit".
pub open spec fn clamp_usize(n: u64) -> usize {
    if n <= usize::MAX {
        n as usize
    } else {
        usize::MAX
    }
}

pub fn to_usize_saturating(n: u64) -> (r: usize)
    ensures
        r == clamp_usize(n),
{
    if n as u128 <= usize::MAX as u128 {
        n as usize
    } else {
        usize::MAX
    }
}

} // verus!

verus! {

/// The string items of `items`, in order, skipping non-strings (and, with `nonempty`, empty
/// strings).
pub open spec fn str_items(items: Seq<JsonValue>, nonempty: bool) -> Seq<Seq<char>>
    decreases items.len(),
{
    if items.len() == 0 {
        seq![]
    } else {
        let rest = str_items(items.drop_last(), nonempty);
        match items.last() {
            JsonValue::String(s) => if nonempty && s@.len() == 0 {
                rest
            } else {
                rest.push(s@)
            },
            _ => rest,
        }
    }
}

/// `options.get(key).and_then(Value::as_array)`, as the array's string items.
pub open spec fn opt_str_items(options: JsonValue, key: Seq<char>, nonempty: bool) -> Option<Seq<Seq<char>>> {
    match options.spec_get(key) {
        Some(JsonValue::Array(items)) => Some(str_items(items@, nonempty)),
        _ => None,
    }
}

/// The views of a vector of strings.
pub open spec fn views(v: Seq<String>) -> Seq<Seq<char>> {
    v.map_values(|s: String| s@)
}

/// The string items of `items`, as owned strings.
pub fn string_items(items: &Vec<JsonValue>, nonempty: bool) -> (r: Vec<String>)
    ensures
        views(r@) == str_items(items@, nonempty),
{
    let mut r: Vec<String> = Vec::new();
    let mut i: usize = 0;
    while i < items.len()
        invariant
            i <= items.len(),
            views(r@) == str_items(items@.take(i as int), nonempty),
        decreases items.len() - i,
    {
        assert(items@.take(i + 1).drop_last() =~= items@.take(i as int));
        match &items[i] {
            JsonValue::String(s) => {
                if !(nonempty && crate::text::str_chars(s.as_str()).len() == 0) {
                    let ghost before = r@;
                    r.push(s.clone());
                    assert(views(r@) =~= views(before).push(s@));
                }
            },
            _ => {},
        }
        i = i + 1;
    }
    assert(items@.take(i as int) =~= items@);
    r
}

/// `options.get(key).and_then(Value::as_array)` mapped to its string items.
pub fn get_str_items(options: &JsonValue, key: &str, nonempty: bool) -> (r: Option<Vec<String>>)
    ensures
        match opt_str_items(*options, key@, nonempty) {
            Some(ss) => r.is_some() && views(r.unwrap()@) == ss,
            None => r.is_none(),
        },
{
    match options.get(key) {
        Some(v) => match v.as_array() {
            Some(items) => Some(string_items(items, nonempty)),
            None => None,
        },
        None => None,
    }
}

} // verus!

verus! {

/// Whether two JSON values are the same value, member for member.
pub open spec fn same_json(a: JsonValue, b: JsonValue) -> bool
    decreases a,
{
    match (a, b) {
        (JsonValue::Null, JsonValue::Null) => true,
        (JsonValue::Bool(x), JsonValue::Bool(y)) => x == y,
        (JsonValue::Number(x), JsonValue::Number(y)) => x == y,
        (JsonValue::String(x), JsonValue::String(y)) => x@ == y@,
        (JsonValue::Array(xs), JsonValue::Array(ys)) => same_items(xs@, ys@),
        (JsonValue::Object(xs), JsonValue::Object(ys)) => same_members(xs@, ys@),
        _ => false,
    }
}

/// Whether two arrays hold the same values, in order.
pub open spec fn same_items(xs: Seq<JsonValue>, ys: Seq<JsonValue>) -> bool
    decreases xs,
{
    if xs.len() == 0 {
        ys.len() == 0
    } else {
        ys.len() == xs.len() && same_items(xs.drop_last(), ys.drop_last()) && same_json(
            xs.last(),
            ys.last(),
        )
    }
}

/// Whether two objects hold the same members, in order.
pub open spec fn same_members(xs: Seq<JsonMember>, ys: Seq<JsonMember>) -> bool
    decreases xs,
{
    if xs.len() == 0 {
        ys.len() == 0
    } else {
        ys.len() == xs.len() && same_members(xs.drop_last(), ys.drop_last()) && xs.last().key@
            == ys.last().key@ && same_json(xs.last().value, ys.last().value)
    }
}

impl JsonValue {
    /// A copy of this value (`Clone`, member for member).
    pub fn duplicate(&self) -> (r: JsonValue)
        ensures
            same_json(r, *self),
        decreases self,
    {
        match self {
            JsonValue::Null => JsonValue::Null,
            JsonValue::Bool(b) => JsonValue::Bool(*b),
            JsonValue::Number(n) => JsonValue::Number(
                match n {
                    JsonNumber::PosInt(x) => JsonNumber::PosInt(*x),
                    JsonNumber::NegInt(x) => JsonNumber::NegInt(*x),
                    JsonNumber::Fractional => JsonNumber::Fractional,
                },
            ),
            JsonValue::String(s) => JsonValue::String(s.clone()),
            JsonValue::Array(items) => {
                let mut out: Vec<JsonValue> = Vec::new();
                let mut i: usize = 0;
                while i < items.len()
                    invariant
                        i <= items.len(),
                        *self == JsonValue::Array(*items),
                        out@.len() == i,
                        same_items(out@, items@.take(i as int)),
                    decreases items.len() - i,
                {
                    proof {
                        assert(decreases_to!(*self => (*self)->Array_0));
                        assert(decreases_to!((*self)->Array_0 => (*self)->Array_0[i as int]));
                    }
                    let v = items[i].duplicate();
                    let ghost before = out@;
                    out.push(v);
                    proof {
                        assert(out@.drop_last() =~= before);
                        assert(items@.take(i + 1).drop_last() =~= items@.take(i as int));
                    }
                    i = i + 1;
                }
                assert(items@.take(i as int) =~= items@);
                JsonValue::Array(out)
            },
            JsonValue::Object(members) => {
                let mut out: Vec<JsonMember> = Vec::new();
                let mut i: usize = 0;
                while i < members.len()
                    invariant
                        i <= members.len(),
                        *self == JsonValue::Object(*members),
                        out@.len() == i,
                        same_members(out@, members@.take(i as int)),
                    decreases members.len() - i,
                {
                    proof {
                        assert(decreases_to!(*self => (*self)->Object_0));
                        assert(decreases_to!((*self)->Object_0 => (*self)->Object_0[i as int]));
                        assert(decreases_to!((*self)->Object_0[i as int] => (*self)->Object_0[i as int].value));
                    }
                    let v = members[i].value.duplicate();
                    let ghost before = out@;
                    out.push(JsonMember { key: members[i].key.clone(), value: v });
                    proof {
                        assert(out@.drop_last() =~= before);
                        assert(members@.take(i + 1).drop_last() =~= members@.take(i as int));
                    }
                    i = i + 1;
                }
                assert(members@.take(i as int) =~= members@);
                JsonValue::Object(out)
            },
        }
    }
}

} // verus!
