//! `no-invalid-control-character` — flag invalid control characters in prose text.
//!
//! Disallowed: C0 controls except TAB, LF and CR (U+0000–U+0008, U+000B, U+000C,
//! U+000E–U+001F), DELETE (U+007F), C1 controls (U+0080–U+009F) and the BiDi formatting
//! characters U+202A–U+202E.
use vstd::prelude::*;
use crate::ast::{Rule, Context, NodeKind, NodeRef, Report, RuleMeta, Severity};
use crate::rules::scan::{char_reports_from, check_chars, CharRule};
use crate::text::{fits_usize, hex_upper, push_hex4, push_str, zero_pad};

verus! {

/// The rule id.
pub const ID: &'static str = "no-nfd";

/// The node kinds the rule visits.
pub open spec fn node_kinds() -> Seq<NodeKind> {
    seq![NodeKind::Text]
}

/// Whether `c` is an invalid control character that should be flagged.
pub open spec fn spec_is_invalid_control(c: char) -> bool {
    let v = c as u32;
    v <= 0x08 || v == 0x0B || v == 0x0C || (0x0E <= v && v <= 0x1F) || v == 0x7F || (0x80 <= v
        && v <= 0x9F) || (0x202A <= v && v <= 0x202E)
}

#[verifier::when_used_as_spec(spec_is_invalid_control)]
pub fn is_invalid_control(c: char) -> (b: bool)
    ensures
        b == spec_is_invalid_control(c),
{
    let v = c as u32;
    v <= 0x08 || v == 0x0B || v == 0x0C || (0x0E <= v && v <= 0x1F) || v == 0x7F || (0x80 <= v
        && v <= 0x9F) || (0x202A <= v && v <= 0x202E)
}

/// `不正なコントロール文字 U+{:04X} が含まれています。`
pub open spec fn message(c: char) -> Seq<char> {
    "不正なコントロール文字 U+"@ + zero_pad(hex_upper(c as u32 as nat), 4) + " が含まれています。"@
}

/// Flags each invalid control character found in text nodes.
pub struct NoInvalidControlCharacter {
    pub meta: RuleMeta,
}

impl CharRule for NoInvalidControlCharacter {
    open spec fn spec_hit(&self, c: char) -> Option<Seq<char>> {
        if spec_is_invalid_control(c) {
            Some(message(c))
        } else {
            None
        }
    }

    fn hit(&self, c: char) -> (r: Option<String>) {
        if is_invalid_control(c) {
            let mut m = String::new();
            push_str(&mut m, "不正なコントロール文字 U+");
            push_hex4(&mut m, c as u32);
            push_str(&mut m, " が含まれています。");
            Some(m)
        } else {
            None
        }
    }
}

impl NoInvalidControlCharacter {
    /// Construct the rule (no options).
    pub fn new() -> (r: NoInvalidControlCharacter)
        ensures
            r.meta.id@ == ID@,
            r.meta.node_kinds@ == node_kinds(),
            r.meta.default_severity == Severity::Warning,
            r.meta.node_kinds@ == seq![NodeKind::Text],
            r.meta.lang.is_none(),
    {
        NoInvalidControlCharacter { meta: RuleMeta::new(ID, Severity::Warning, vec![NodeKind::Text]) }
    }


    pub open spec fn spec_check_at(&self, base: u32, t: Seq<char>) -> Seq<Report> {
        char_reports_from(base, t, 0, |c: char| self.spec_hit(c))
    }

}

impl Rule for NoInvalidControlCharacter {
    open spec fn spec_meta(&self) -> RuleMeta {
        self.meta
    }

    open spec fn spec_check(&self, node: NodeRef) -> Seq<Report> {
        self.spec_check_at(node.span.start, node.text@)
    }

    fn meta(&self) -> (m: &RuleMeta) {
        &self.meta
    }

    fn check(&self, node: &NodeRef, cx: &mut Context)
    {
        check_chars(self, node, cx);
    }
}

impl Default for NoInvalidControlCharacter {
    /// The rule with its default options, as [`NoInvalidControlCharacter::new`] builds it.
    fn default() -> (r: NoInvalidControlCharacter)
        ensures
            r.meta.id@ == ID@,
            r.meta.node_kinds@ == node_kinds(),
            r.meta.default_severity == Severity::Warning,
            r.meta.node_kinds@ == seq![NodeKind::Text],
            r.meta.lang.is_none(),
    {
        NoInvalidControlCharacter::new()
    }
}

} // verus!
