//! Reading a request: the node's type and text, and the helper flags the host sends along.
use vstd::prelude::*;
use crate::json::JsonValue;
use crate::pdk::types::{LintLocation, LintRequest};
use crate::text::{
    byte_at, byte_len, byte_offsets, find_index_of_byte, fits_usize, index_of_byte, is_boundary,
    lemma_index_of_byte, offsets_ok, str_chars, str_eq,
};

verus! {

/// The `range` of a node: its first two elements as non-negative integers, taken as `usize`.
pub open spec fn node_range(node: JsonValue) -> Option<(usize, usize)> {
    match node.spec_get("range"@) {
        Some(JsonValue::Array(items)) => if items@.len() >= 2 {
            match (items@[0].spec_as_u64(), items@[1].spec_as_u64()) {
                (Some(a), Some(b)) => Some((a as usize, b as usize)),
                _ => None,
            }
        } else {
            None
        },
        _ => None,
    }
}

/// Whether the node's range, when it lies inside `source`, starts and ends on character
/// boundaries (the host only sends such ranges; slicing anywhere else would panic).
pub open spec fn node_range_ok(node: JsonValue, source: Seq<char>) -> bool {
    match node_range(node) {
        Some((s, e)) => e <= byte_len(source) && s <= e ==> is_boundary(source, s as int)
            && is_boundary(source, e as int),
        None => true,
    }
}

/// The node's `(start, end, text)`, when its range lies inside `source`.
pub open spec fn node_text(node: JsonValue, source: Seq<char>) -> Option<(usize, usize, Seq<char>)> {
    match node_range(node) {
        Some((s, e)) => if e <= byte_len(source) && s <= e {
            Some(
                (
                    s,
                    e,
                    source.subrange(index_of_byte(source, s as int), index_of_byte(source, e as int)),
                ),
            )
        } else {
            None
        },
        None => None,
    }
}

/// `node.range` read as in [`node_range`].
fn read_range(node: &JsonValue) -> (r: Option<(usize, usize)>)
    ensures
        r == node_range(*node),
{
    match node.get("range") {
        Some(v) => match v.as_array() {
            Some(items) => {
                if items.len() < 2 {
                    return None;
                }
                match (items[0].as_u64(), items[1].as_u64()) {
                    (Some(a), Some(b)) => Some((a as usize, b as usize)),
                    _ => None,
                }
            },
            None => None,
        },
        None => None,
    }
}

/// Whether the node's range, if it lies inside `source`, falls on character boundaries: the
/// condition [`extract_node_text`] needs.
pub fn range_on_boundaries(node: &JsonValue, source: &str) -> (b: bool)
    requires
        fits_usize(source@),
    ensures
        b == node_range_ok(*node, source@),
{
    match read_range(node) {
        Some((s, e)) => {
            let cs = str_chars(source);
            let offs = byte_offsets(&cs);
            let n = offs[cs.len()];
            assert(cs@.take(cs@.len() as int) =~= cs@);
            if e <= n && s <= e {
                boundary_in(&offs, Ghost(cs@), s) && boundary_in(&offs, Ghost(cs@), e)
            } else {
                true
            }
        },
        None => true,
    }
}

/// Whether `b` is one of the offsets in `offs`.
pub(crate) fn boundary_in(offs: &Vec<usize>, s: Ghost<Seq<char>>, b: usize) -> (r: bool)
    requires
        offsets_ok(s@, offs@),
    ensures
        r == is_boundary(s@, b as int),
{
    let mut k: usize = 0;
    while k < offs.len()
        invariant
            offsets_ok(s@, offs@),
            k <= offs@.len(),
            forall|j: int| 0 <= j < k ==> byte_at(s@, j) != b,
        decreases offs.len() - k,
    {
        if offs[k] == b {
            assert(0 <= k <= s@.len() && byte_at(s@, k as int) == b);
            return true;
        }
        k = k + 1;
    }
    false
}

/// The node's byte range and text, when its `range` is two non-negative integers lying inside
/// `source` in order.
pub fn extract_node_text<'a>(node: &JsonValue, source: &'a str) -> (r: Option<(usize, usize, &'a str)>)
    requires
        fits_usize(source@),
        node_range_ok(*node, source@),
    ensures
        match node_text(*node, source@) {
            Some((s, e, t)) => r.is_some() && r.unwrap().0 == s && r.unwrap().1 == e && r.unwrap().2@
                == t,
            None => r.is_none(),
        },
{
    match read_range(node) {
        Some((s, e)) => {
            let cs = str_chars(source);
            let offs = byte_offsets(&cs);
            let n = offs[cs.len()];
            assert(cs@.take(cs@.len() as int) =~= cs@);
            if e <= n && s <= e {
                let ks = find_index_of_byte(&offs, Ghost(cs@), s);
                let ke = find_index_of_byte(&offs, Ghost(cs@), e);
                proof {
                    if ke < ks {
                        crate::text::lemma_byte_at_strict(cs@, ke as int, ks as int);
                    }
                }
                Some((s, e, source.substring_char(ks, ke)))
            } else {
                None
            }
        },
        None => None,
    }
}

/// The node's `type`, when it is a string.
pub open spec fn node_type(node: JsonValue) -> Option<Seq<char>> {
    match node.spec_get("type"@) {
        Some(v) => v.spec_as_str(),
        None => None,
    }
}

/// Whether the node's `type` is `expected`.
pub fn is_node_type(node: &JsonValue, expected: &str) -> (b: bool)
    ensures
        b == (node_type(*node) == Some(expected@)),
{
    match get_node_type(node) {
        Some(t) => str_eq(t, expected),
        None => false,
    }
}

/// The node's `type`, when it is a string.
pub fn get_node_type(node: &JsonValue) -> (r: Option<&str>)
    ensures
        match node_type(*node) {
            Some(t) => r.is_some() && r.unwrap()@ == t,
            None => r.is_none(),
        },
{
    match node.get("type") {
        Some(v) => v.as_str(),
        None => None,
    }
}

/// The node's text: the helpers' text when the host sent one, else the text of the node's
/// range.
pub fn get_text<'a>(request: &'a LintRequest) -> (r: Option<&'a str>)
    requires
        fits_usize(request.source@),
        node_range_ok(request.node, request.source@),
    ensures
        match request.helpers {
            Some(h) if h.text.is_some() => r.is_some() && r.unwrap()@ == h.text.unwrap()@,
            _ => match node_text(request.node, request.source@) {
                Some((s, e, t)) => r.is_some() && r.unwrap()@ == t,
                None => r.is_none(),
            },
        },
{
    if let Some(helpers) = &request.helpers {
        if let Some(text) = &helpers.text {
            return Some(text.as_str());
        }
    }
    match extract_node_text(&request.node, request.source.as_str()) {
        Some((_, _, t)) => Some(t),
        None => None,
    }
}

/// The node's line/column location, when the host sent one.
pub fn get_location(request: &LintRequest) -> (r: Option<&LintLocation>)
    ensures
        match request.helpers {
            Some(h) => match h.location {
                Some(l) => r.is_some() && *r.unwrap() == l,
                None => r.is_none(),
            },
            None => r.is_none(),
        },
{
    match &request.helpers {
        Some(h) => match &h.location {
            Some(l) => Some(l),
            None => None,
        },
        None => None,
    }
}

/// Whether the node is inside a code block or inline code.
pub fn is_in_code_block(request: &LintRequest) -> (b: bool)
    ensures
        b == match request.helpers {
            Some(h) => h.flags.in_code_block || h.flags.in_code_inline,
            None => false,
        },
{
    match &request.helpers {
        Some(h) => h.flags.in_code_block || h.flags.in_code_inline,
        None => false,
    }
}

/// Whether the node is inside a heading.
pub fn is_in_heading(request: &LintRequest) -> (b: bool)
    ensures
        b == match request.helpers {
            Some(h) => h.flags.in_heading,
            None => false,
        },
{
    match &request.helpers {
        Some(h) => h.flags.in_heading,
        None => false,
    }
}

/// Whether the node is inside a list.
pub fn is_in_list(request: &LintRequest) -> (b: bool)
    ensures
        b == match request.helpers {
            Some(h) => h.flags.in_list,
            None => false,
        },
{
    match &request.helpers {
        Some(h) => h.flags.in_list,
        None => false,
    }
}

/// Whether the node is inside a blockquote.
pub fn is_in_blockquote(request: &LintRequest) -> (b: bool)
    ensures
        b == match request.helpers {
            Some(h) => h.flags.in_blockquote,
            None => false,
        },
{
    match &request.helpers {
        Some(h) => h.flags.in_blockquote,
        None => false,
    }
}

/// Whether the node is inside a link.
pub fn is_in_link(request: &LintRequest) -> (b: bool)
    ensures
        b == match request.helpers {
            Some(h) => h.flags.in_link,
            None => false,
        },
{
    match &request.helpers {
        Some(h) => h.flags.in_link,
        None => false,
    }
}

/// The parent node's type, when the host sent it.
pub fn get_parent_type(request: &LintRequest) -> (r: Option<&str>)
    ensures
        match request.helpers {
            Some(h) => match h.context {
                Some(c) => match c.parent_node_type {
                    Some(p) => r.is_some() && r.unwrap()@ == p@,
                    None => r.is_none(),
                },
                None => r.is_none(),
            },
            None => r.is_none(),
        },
{
    match &request.helpers {
        Some(h) => match &h.context {
            Some(c) => match &c.parent_node_type {
                Some(p) => Some(p.as_str()),
                None => None,
            },
            None => None,
        },
        None => None,
    }
}

/// The node's depth in the AST, 0 when the host sent no context.
pub fn get_depth(request: &LintRequest) -> (d: u32)
    ensures
        d == match request.helpers {
            Some(h) => match h.context {
                Some(c) => c.depth,
                None => 0,
            },
            None => 0,
        },
{
    match &request.helpers {
        Some(h) => match &h.context {
            Some(c) => c.depth,
            None => 0,
        },
        None => 0,
    }
}

} // verus!
