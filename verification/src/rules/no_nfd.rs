//! `no-nfd` — flag decomposed (NFD) text via its combining marks.
use vstd::prelude::*;
use crate::ast::{Rule, Context, NodeKind, NodeRef, Report, RuleMeta, Severity};
use crate::rules::scan::{char_reports_from, check_chars, CharRule};
use crate::text::{fits_usize, hex_upper, push_hex4, push_str, zero_pad};

verus! {

/// The rule id.
pub const ID: &'static str = "no-nfd";

/// The node kinds the rule visits.
pub open spec fn node_kinds() -> Seq<NodeKind> {
    seq![NodeKind::Text]
}

/// Combining Diacritical Marks (and Extended, Supplement, for Symbols), Combining Half Marks, and
/// the Japanese combining (han)dakuten: a proxy for "text is in NFD form".
pub open spec fn spec_is_combining_mark(c: char) -> bool {
    let v = c as u32;
    (0x0300 <= v && v <= 0x036F) || (0x1AB0 <= v && v <= 0x1AFF) || (0x1DC0 <= v && v <= 0x1DFF)
        || (0x20D0 <= v && v <= 0x20FF) || (0xFE20 <= v && v <= 0xFE2F) || (0x3099 <= v && v
        <= 0x309A)
}

#[verifier::when_used_as_spec(spec_is_combining_mark)]
pub fn is_combining_mark(c: char) -> (b: bool)
    ensures
        b == spec_is_combining_mark(c),
{
    let v = c as u32;
    (0x0300 <= v && v <= 0x036F) || (0x1AB0 <= v && v <= 0x1AFF) || (0x1DC0 <= v && v <= 0x1DFF)
        || (0x20D0 <= v && v <= 0x20FF) || (0xFE20 <= v && v <= 0xFE2F) || (0x3099 <= v && v
        <= 0x309A)
}

/// `Combining mark U+{:04X} detected; normalize text to NFC.`
pub open spec fn message(c: char) -> Seq<char> {
    "Combining mark U+"@ + zero_pad(hex_upper(c as u32 as nat), 4) + " detected; normalize text to NFC."@
}

/// Flags each combining mark (a proxy for decomposed/NFD text).
pub struct NoNfd {
    pub meta: RuleMeta,
}

impl CharRule for NoNfd {
    open spec fn spec_hit(&self, c: char) -> Option<Seq<char>> {
        if spec_is_combining_mark(c) {
            Some(message(c))
        } else {
            None
        }
    }

    fn hit(&self, c: char) -> (r: Option<String>) {
        if is_combining_mark(c) {
            let mut m = String::new();
            push_str(&mut m, "Combining mark U+");
            push_hex4(&mut m, c as u32);
            push_str(&mut m, " detected; normalize text to NFC.");
            Some(m)
        } else {
            None
        }
    }
}

impl NoNfd {
    /// Construct the rule (no options).
    pub fn new() -> (r: NoNfd)
        ensures
            r.meta.id@ == ID@,
            r.meta.node_kinds@ == node_kinds(),
            r.meta.default_severity == Severity::Warning,
            r.meta.node_kinds@ == seq![NodeKind::Text],
            r.meta.lang.is_none(),
    {
        NoNfd { meta: RuleMeta::new(ID, Severity::Warning, vec![NodeKind::Text]) }
    }


    pub open spec fn spec_check_at(&self, base: u32, t: Seq<char>) -> Seq<Report> {
        char_reports_from(base, t, 0, |c: char| self.spec_hit(c))
    }

}

impl Rule for NoNfd {
    open spec fn spec_meta(&self) -> RuleMeta {
        self.meta
    }

    open spec fn spec_check(&self, node: NodeRef) -> Seq<Report> {
        self.spec_check_at(node.span.start, node.text@)
    }

    fn meta(&self) -> (m: &RuleMeta) {
        &self.meta
    }

    fn check(&self, node: &NodeRef, cx: &mut Context)
    {
        check_chars(self, node, cx);
    }
}

impl Default for NoNfd {
    /// The rule with its default options, as [`NoNfd::new`] builds it.
    fn default() -> (r: NoNfd)
        ensures
            r.meta.id@ == ID@,
            r.meta.node_kinds@ == node_kinds(),
            r.meta.default_severity == Severity::Warning,
            r.meta.node_kinds@ == seq![NodeKind::Text],
            r.meta.lang.is_none(),
    {
        NoNfd::new()
    }
}

} // verus!
