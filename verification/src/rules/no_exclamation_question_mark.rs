//! `no-exclamation-question-mark` — flag `!`/`?` (half- and full-width) in technical prose.
use vstd::prelude::*;
use crate::ast::{Rule, Context, NodeKind, NodeRef, Report, RuleMeta, Severity};
use crate::json::{get_bool, opt_bool, JsonValue};
use crate::rules::scan::{char_reports_from, check_chars, CharRule};
use crate::text::{fits_usize, push_str};

verus! {

/// The rule id.
pub const ID: &'static str = "no-exclamation-question-mark";

/// The node kinds the rule visits.
pub open spec fn node_kinds() -> Seq<NodeKind> {
    seq![NodeKind::Text]
}

/// Flags exclamation/question marks; each of the four marks can be individually allowed.
pub struct NoExclamationQuestionMark {
    pub meta: RuleMeta,
    pub allow_halfwidth_exclamation: bool,
    pub allow_fullwidth_exclamation: bool,
    pub allow_halfwidth_question: bool,
    pub allow_fullwidth_question: bool,
}

/// `「{mark}」は技術文書では使用を避けてください。`
pub open spec fn message(mark: char) -> Seq<char> {
    "「"@ + seq![mark] + "」は技術文書では使用を避けてください。"@
}

/// An option that keeps `default` unless it is a boolean.
pub open spec fn bool_or(o: Option<bool>, default: bool) -> bool {
    match o {
        Some(b) => b,
        None => default,
    }
}

impl NoExclamationQuestionMark {
    /// Construct with the default options (all four marks flagged).
    pub fn new() -> (r: NoExclamationQuestionMark)
        ensures
            r.meta.id@ == ID@,
            r.meta.node_kinds@ == node_kinds(),
            r.meta.default_severity == Severity::Warning,
            r.meta.lang.is_none(),
            !r.allow_halfwidth_exclamation,
            !r.allow_fullwidth_exclamation,
            !r.allow_halfwidth_question,
            !r.allow_fullwidth_question,
    {
        NoExclamationQuestionMark {
            meta: RuleMeta::new(ID, Severity::Warning, vec![NodeKind::Text]),
            allow_halfwidth_exclamation: false,
            allow_fullwidth_exclamation: false,
            allow_halfwidth_question: false,
            allow_fullwidth_question: false,
        }
    }

    /// The rule's option fields as config `options` sets them (defaults where a value is
    /// missing or has the wrong type).
    pub open spec fn configured(&self, options: JsonValue) -> bool {
        &&& self.allow_halfwidth_exclamation == bool_or(opt_bool(options, "allow_halfwidth_exclamation"@), false)
        &&& self.allow_fullwidth_exclamation == bool_or(opt_bool(options, "allow_fullwidth_exclamation"@), false)
        &&& self.allow_halfwidth_question == bool_or(opt_bool(options, "allow_halfwidth_question"@), false)
        &&& self.allow_fullwidth_question == bool_or(opt_bool(options, "allow_fullwidth_question"@), false)
    }

    /// Construct from config `options`, leniently. Each `allow_*` boolean defaults to `false`.
    pub fn from_options(options: &JsonValue) -> (r: NoExclamationQuestionMark)
        ensures
            r.meta.id@ == ID@,
            r.meta.node_kinds@ == node_kinds(),
            r.meta.default_severity == Severity::Warning,
            r.meta.lang.is_none(),
            r.configured(*options),
    {
        let mut rule = Self::new();
        if let Some(b) = get_bool(options, "allow_halfwidth_exclamation") {
            rule.allow_halfwidth_exclamation = b;
        }
        if let Some(b) = get_bool(options, "allow_fullwidth_exclamation") {
            rule.allow_fullwidth_exclamation = b;
        }
        if let Some(b) = get_bool(options, "allow_halfwidth_question") {
            rule.allow_halfwidth_question = b;
        }
        if let Some(b) = get_bool(options, "allow_fullwidth_question") {
            rule.allow_fullwidth_question = b;
        }
        rule
    }

    /// The mark to flag for `c`, or `None` if `c` is not a (disallowed) mark.
    pub open spec fn spec_flagged_mark(&self, c: char) -> Option<char> {
        if c == '!' && !self.allow_halfwidth_exclamation || c == '！' && !self.allow_fullwidth_exclamation
            || c == '?' && !self.allow_halfwidth_question || c == '？' && !self.allow_fullwidth_question {
            Some(c)
        } else {
            None
        }
    }

    pub fn flagged_mark(&self, c: char) -> (r: Option<char>)
        ensures
            r == self.spec_flagged_mark(c),
    {
        if c == '!' && !self.allow_halfwidth_exclamation {
            Some('!')
        } else if c == '！' && !self.allow_fullwidth_exclamation {
            Some('！')
        } else if c == '?' && !self.allow_halfwidth_question {
            Some('?')
        } else if c == '？' && !self.allow_fullwidth_question {
            Some('？')
        } else {
            None
        }
    }


    pub open spec fn spec_check_at(&self, base: u32, t: Seq<char>) -> Seq<Report> {
        char_reports_from(base, t, 0, |c: char| self.spec_hit(c))
    }

}

impl CharRule for NoExclamationQuestionMark {
    open spec fn spec_hit(&self, c: char) -> Option<Seq<char>> {
        match self.spec_flagged_mark(c) {
            Some(mark) => Some(message(mark)),
            None => None,
        }
    }

    fn hit(&self, c: char) -> (r: Option<String>) {
        match self.flagged_mark(c) {
            Some(mark) => {
                let mut m = String::new();
                push_str(&mut m, "「");
                crate::text::push_char(&mut m, mark);
                push_str(&mut m, "」は技術文書では使用を避けてください。");
                Some(m)
            },
            None => None,
        }
    }
}

impl Rule for NoExclamationQuestionMark {
    open spec fn spec_meta(&self) -> RuleMeta {
        self.meta
    }

    open spec fn spec_check(&self, node: NodeRef) -> Seq<Report> {
        self.spec_check_at(node.span.start, node.text@)
    }

    fn meta(&self) -> (m: &RuleMeta) {
        &self.meta
    }

    fn check(&self, node: &NodeRef, cx: &mut Context)
    {
        check_chars(self, node, cx);
    }
}

impl Default for NoExclamationQuestionMark {
    /// The rule with its default options, as [`NoExclamationQuestionMark::new`] builds it.
    fn default() -> (r: NoExclamationQuestionMark)
        ensures
            r.meta.id@ == ID@,
            r.meta.node_kinds@ == node_kinds(),
            r.meta.default_severity == Severity::Warning,
            r.meta.lang.is_none(),
            !r.allow_halfwidth_exclamation,
            !r.allow_fullwidth_exclamation,
            !r.allow_halfwidth_question,
            !r.allow_fullwidth_question,
    {
        NoExclamationQuestionMark::new()
    }
}

} // verus!
