//! `no-zero-width-spaces` — flag invisible / zero-width codepoints in prose.
use vstd::prelude::*;
use crate::ast::{Rule, Context, NodeKind, NodeRef, Report, RuleMeta, Severity};
use crate::rules::scan::{char_reports_from, check_chars, CharRule};
use crate::text::{fits_usize, hex_upper, push_hex4, push_str, zero_pad};

verus! {

/// The rule id.
pub const ID: &'static str = "no-zero-width-spaces";

/// The node kinds the rule visits.
pub open spec fn node_kinds() -> Seq<NodeKind> {
    seq![NodeKind::Text]
}

/// ZERO WIDTH SPACE, ZERO WIDTH NON-JOINER, ZERO WIDTH JOINER, WORD JOINER, and ZERO WIDTH
/// NO-BREAK SPACE (BOM).
pub open spec fn spec_is_invisible(c: char) -> bool {
    c == '\u{200B}' || c == '\u{200C}' || c == '\u{200D}' || c == '\u{2060}' || c == '\u{FEFF}'
}

#[verifier::when_used_as_spec(spec_is_invisible)]
pub fn is_invisible(c: char) -> (b: bool)
    ensures
        b == spec_is_invisible(c),
{
    c == '\u{200B}' || c == '\u{200C}' || c == '\u{200D}' || c == '\u{2060}' || c == '\u{FEFF}'
}

/// `Invisible codepoint U+{:04X} is not allowed in prose.`
pub open spec fn message(c: char) -> Seq<char> {
    "Invisible codepoint U+"@ + zero_pad(hex_upper(c as u32 as nat), 4) + " is not allowed in prose."@
}

/// Flags each invisible / zero-width codepoint.
pub struct NoZeroWidthSpaces {
    pub meta: RuleMeta,
}

impl CharRule for NoZeroWidthSpaces {
    open spec fn spec_hit(&self, c: char) -> Option<Seq<char>> {
        if spec_is_invisible(c) {
            Some(message(c))
        } else {
            None
        }
    }

    fn hit(&self, c: char) -> (r: Option<String>) {
        if is_invisible(c) {
            let mut m = String::new();
            push_str(&mut m, "Invisible codepoint U+");
            push_hex4(&mut m, c as u32);
            push_str(&mut m, " is not allowed in prose.");
            Some(m)
        } else {
            None
        }
    }
}

impl NoZeroWidthSpaces {
    /// Construct the rule (no options).
    pub fn new() -> (r: NoZeroWidthSpaces)
        ensures
            r.meta.id@ == ID@,
            r.meta.node_kinds@ == node_kinds(),
            r.meta.default_severity == Severity::Warning,
            r.meta.node_kinds@ == seq![NodeKind::Text],
            r.meta.lang.is_none(),
    {
        NoZeroWidthSpaces { meta: RuleMeta::new(ID, Severity::Warning, vec![NodeKind::Text]) }
    }


    pub open spec fn spec_check_at(&self, base: u32, t: Seq<char>) -> Seq<Report> {
        char_reports_from(base, t, 0, |c: char| self.spec_hit(c))
    }

}

impl Rule for NoZeroWidthSpaces {
    open spec fn spec_meta(&self) -> RuleMeta {
        self.meta
    }

    open spec fn spec_check(&self, node: NodeRef) -> Seq<Report> {
        self.spec_check_at(node.span.start, node.text@)
    }

    fn meta(&self) -> (m: &RuleMeta) {
        &self.meta
    }

    fn check(&self, node: &NodeRef, cx: &mut Context)
    {
        check_chars(self, node, cx);
    }
}

impl Default for NoZeroWidthSpaces {
    /// The rule with its default options, as [`NoZeroWidthSpaces::new`] builds it.
    fn default() -> (r: NoZeroWidthSpaces)
        ensures
            r.meta.id@ == ID@,
            r.meta.node_kinds@ == node_kinds(),
            r.meta.default_severity == Severity::Warning,
            r.meta.node_kinds@ == seq![NodeKind::Text],
            r.meta.lang.is_none(),
    {
        NoZeroWidthSpaces::new()
    }
}

} // verus!
