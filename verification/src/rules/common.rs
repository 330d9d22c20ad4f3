//! Pieces shared by the rules: option readers and message assembly.
use vstd::prelude::*;
use crate::json::{get_str, opt_str, JsonValue};
use crate::text::str_chars;

verus! {

/// The first character of an optional string option, or `default` when it is absent or empty.
pub open spec fn first_char_or(o: Option<Seq<char>>, default: char) -> char {
    match o {
        Some(s) => if s.len() > 0 {
            s[0]
        } else {
            default
        },
        None => default,
    }
}

/// `options.get(key).and_then(Value::as_str).and_then(|s| s.chars().next())`, defaulting.
pub fn option_first_char(options: &JsonValue, key: &str, default: char) -> (c: char)
    ensures
        c == first_char_or(opt_str(*options, key@), default),
{
    match get_str(options, key) {
        Some(s) => {
            let cs = str_chars(s);
            if cs.len() > 0 {
                cs[0]
            } else {
                default
            }
        },
        None => default,
    }
}

} // verus!
