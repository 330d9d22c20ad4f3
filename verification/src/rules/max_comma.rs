//! `max-comma` — flag sentences with too many ASCII commas.
use vstd::prelude::*;
use crate::ast::{Rule, Context, Lang, NodeKind, NodeRef, Report, RuleMeta, Severity};
use crate::json::{clamp_usize, get_u64, opt_u64, to_usize_saturating, JsonValue};
use crate::rules::max_ten::{count_per_sentence, reports_from};
use crate::text::fits_usize;

verus! {

/// The rule id.
pub const ID: &'static str = "max-comma";

/// The node kinds the rule visits.
pub open spec fn node_kinds() -> Seq<NodeKind> {
    seq![NodeKind::Paragraph, NodeKind::Heading, NodeKind::TableCell]
}

/// Default maximum number of commas per sentence.
pub const DEFAULT_MAX: usize = 4;

/// Flags any sentence (ending at `。`) whose count of ASCII commas (`,`) exceeds `max`.
pub struct MaxComma {
    pub meta: RuleMeta,
    pub max: usize,
}

impl MaxComma {
    /// Construct with default options (`max` 4).
    pub fn new() -> (r: MaxComma)
        ensures
            r.meta.id@ == ID@,
            r.meta.node_kinds@ == node_kinds(),
            r.meta.default_severity == Severity::Warning,
            r.meta.lang == Some(Lang::Ja),
            r.max == DEFAULT_MAX,
    {
        MaxComma {
            meta: RuleMeta::new(
                ID,
                Severity::Warning,
                vec![NodeKind::Paragraph, NodeKind::Heading, NodeKind::TableCell],
            ).for_language(Lang::Ja),
            max: DEFAULT_MAX,
        }
    }

    /// Construct from config `options`, leniently. Reads `max` (integer); missing/wrong-typed
    /// values keep the default.
    pub fn from_options(options: &JsonValue) -> (r: MaxComma)
        ensures
            r.meta.id@ == ID@,
            r.meta.node_kinds@ == node_kinds(),
            r.meta.default_severity == Severity::Warning,
            r.meta.lang == Some(Lang::Ja),
            r.max == match opt_u64(*options, "max"@) {
                Some(n) => clamp_usize(n),
                None => DEFAULT_MAX,
            },
    {
        let mut rule = Self::new();
        if let Some(max) = get_u64(options, "max") {
            rule.max = to_usize_saturating(max);
        }
        rule
    }


    /// Sentences end at `。`; the message names `,` as the counted character.
    pub open spec fn spec_check_at(&self, base: u32, t: Seq<char>) -> Seq<Report> {
        reports_from(base, t, 0, self.max, ',', '。')
    }

}

impl Rule for MaxComma {
    open spec fn spec_meta(&self) -> RuleMeta {
        self.meta
    }

    open spec fn spec_check(&self, node: NodeRef) -> Seq<Report> {
        self.spec_check_at(node.span.start, node.text@)
    }

    fn meta(&self) -> (m: &RuleMeta) {
        &self.meta
    }

    fn check(&self, node: &NodeRef, cx: &mut Context)
    {
        count_per_sentence(node, self.max, ',', '。', cx);
    }
}

impl Default for MaxComma {
    /// The rule with its default options, as [`MaxComma::new`] builds it.
    fn default() -> (r: MaxComma)
        ensures
            r.meta.id@ == ID@,
            r.meta.node_kinds@ == node_kinds(),
            r.meta.default_severity == Severity::Warning,
            r.meta.lang == Some(Lang::Ja),
            r.max == DEFAULT_MAX,
    {
        MaxComma::new()
    }
}

} // verus!
