//! The registry of built-in rules: their ids, and the construction of one rule by id from its
//! config options with an optional severity override.
use vstd::prelude::*;
use crate::ast::{Context, NodeRef, Report, Rule, RuleMeta, Severity};
use crate::json::JsonValue;
use crate::rules::ja_no_mixed_period::JaNoMixedPeriod;
use crate::rules::ja_no_redundant_expression::JaNoRedundantExpression;
use crate::rules::ja_prh::JaPrh;
use crate::rules::max_kanji_continuous_len::MaxKanjiContinuousLen;
use crate::rules::max_ten::MaxTen;
use crate::rules::scan::{CharRule, RunClass};
use crate::rules::no_double_negative_ja::NoDoubleNegativeJa;
use crate::rules::no_doubled_conjunctive_particle_ga::NoDoubledConjunctiveParticleGa;
use crate::rules::no_doubled_joshi::NoDoubledJoshi;
use crate::rules::no_dropping_the_ra::NoDroppingTheRa;
use crate::rules::no_exclamation_question_mark::NoExclamationQuestionMark;
use crate::rules::no_hankaku_kana::NoHankakuKana;
use crate::rules::no_mix_dearu_desumasu::NoMixDearuDesumasu;
use crate::rules::no_mixed_zenkaku_hankaku_alphabet::NoMixedZenkakuHankakuAlphabet;
use crate::rules::no_nfd::NoNfd;
use crate::rules::no_todo::NoTodo;
use crate::rules::no_zero_width_spaces::NoZeroWidthSpaces;
use crate::rules::sentence_length::SentenceLength;
use crate::text::str_eq;

verus! {

/// The ids of every built-in rule, in registry order.
pub const RULE_IDS: [&'static str; 17] = [
    "sentence-length",
    "max-ten",
    "max-kanji-continuous-len",
    "no-hankaku-kana",
    "no-mix-dearu-desumasu",
    "no-mixed-zenkaku-hankaku-alphabet",
    "no-nfd",
    "no-zero-width-spaces",
    "no-exclamation-question-mark",
    "ja-no-mixed-period",
    "no-todo",
    "no-doubled-joshi",
    "no-doubled-conjunctive-particle-ga",
    "ja-no-redundant-expression",
    "no-dropping-the-ra",
    "no-double-negative-ja",
    "ja-prh",
];

} // verus!

verus! {

/// A built-in rule, constructed by [`build_rule`].
pub enum BuiltinRule {
    SentenceLength(SentenceLength),
    MaxTen(MaxTen),
    MaxKanjiContinuousLen(MaxKanjiContinuousLen),
    NoHankakuKana(NoHankakuKana),
    NoMixDearuDesumasu(NoMixDearuDesumasu),
    NoMixedZenkakuHankakuAlphabet(NoMixedZenkakuHankakuAlphabet),
    NoNfd(NoNfd),
    NoZeroWidthSpaces(NoZeroWidthSpaces),
    NoExclamationQuestionMark(NoExclamationQuestionMark),
    JaNoMixedPeriod(JaNoMixedPeriod),
    NoTodo(NoTodo),
    NoDoubledJoshi(NoDoubledJoshi),
    NoDoubledConjunctiveParticleGa(NoDoubledConjunctiveParticleGa),
    JaNoRedundantExpression(JaNoRedundantExpression),
    NoDroppingTheRa(NoDroppingTheRa),
    NoDoubleNegativeJa(NoDoubleNegativeJa),
    JaPrh(JaPrh),
}

/// Whether `id` names a built-in rule.
pub open spec fn is_rule_id(id: Seq<char>) -> bool {
    exists|i: int| 0 <= i < 17 && #[trigger] RULE_IDS@[i]@ == id
}


impl BuiltinRule {
    /// The id of the rule this is.
    pub open spec fn rule_id(&self) -> Seq<char> {
        match self {
            BuiltinRule::SentenceLength(_) => crate::rules::sentence_length::ID@,
            BuiltinRule::MaxTen(_) => crate::rules::max_ten::ID@,
            BuiltinRule::MaxKanjiContinuousLen(_) => crate::rules::max_kanji_continuous_len::ID@,
            BuiltinRule::NoHankakuKana(_) => crate::rules::no_hankaku_kana::ID@,
            BuiltinRule::NoMixDearuDesumasu(_) => crate::rules::no_mix_dearu_desumasu::ID@,
            BuiltinRule::NoMixedZenkakuHankakuAlphabet(_) => crate::rules::no_mixed_zenkaku_hankaku_alphabet::ID@,
            BuiltinRule::NoNfd(_) => crate::rules::no_nfd::ID@,
            BuiltinRule::NoZeroWidthSpaces(_) => crate::rules::no_zero_width_spaces::ID@,
            BuiltinRule::NoExclamationQuestionMark(_) => crate::rules::no_exclamation_question_mark::ID@,
            BuiltinRule::JaNoMixedPeriod(_) => crate::rules::ja_no_mixed_period::ID@,
            BuiltinRule::NoTodo(_) => crate::rules::no_todo::ID@,
            BuiltinRule::NoDoubledJoshi(_) => crate::rules::no_doubled_joshi::ID@,
            BuiltinRule::NoDoubledConjunctiveParticleGa(_) => crate::rules::no_doubled_conjunctive_particle_ga::ID@,
            BuiltinRule::JaNoRedundantExpression(_) => crate::rules::ja_no_redundant_expression::ID@,
            BuiltinRule::NoDroppingTheRa(_) => crate::rules::no_dropping_the_ra::ID@,
            BuiltinRule::NoDoubleNegativeJa(_) => crate::rules::no_double_negative_ja::ID@,
            BuiltinRule::JaPrh(_) => crate::rules::ja_prh::ID@,
        }
    }

    /// Whether the rule runs on Japanese documents only.
    pub open spec fn is_ja_only(&self) -> bool {
        match self {
            BuiltinRule::SentenceLength(_) => true,
            BuiltinRule::MaxTen(_) => true,
            BuiltinRule::NoHankakuKana(_) => true,
            BuiltinRule::NoMixDearuDesumasu(_) => true,
            BuiltinRule::JaNoMixedPeriod(_) => true,
            BuiltinRule::NoDoubledJoshi(_) => true,
            BuiltinRule::NoDoubledConjunctiveParticleGa(_) => true,
            BuiltinRule::JaNoRedundantExpression(_) => true,
            BuiltinRule::NoDroppingTheRa(_) => true,
            BuiltinRule::NoDoubleNegativeJa(_) => true,
            BuiltinRule::JaPrh(_) => true,
            _ => false,
        }
    }

    /// The rule's option fields are as `options` sets them.
    pub open spec fn configured(&self, options: JsonValue) -> bool {
        match self {
            BuiltinRule::SentenceLength(r) => r.configured(options),
            BuiltinRule::MaxTen(r) => r.configured(options),
            BuiltinRule::MaxKanjiContinuousLen(r) => r.configured(options),
            BuiltinRule::NoHankakuKana(r) => true,
            BuiltinRule::NoMixDearuDesumasu(r) => r.configured(options),
            BuiltinRule::NoMixedZenkakuHankakuAlphabet(r) => true,
            BuiltinRule::NoNfd(r) => true,
            BuiltinRule::NoZeroWidthSpaces(r) => true,
            BuiltinRule::NoExclamationQuestionMark(r) => r.configured(options),
            BuiltinRule::JaNoMixedPeriod(r) => true,
            BuiltinRule::NoTodo(r) => r.configured(options),
            BuiltinRule::NoDoubledJoshi(r) => r.configured(options),
            BuiltinRule::NoDoubledConjunctiveParticleGa(r) => true,
            BuiltinRule::JaNoRedundantExpression(r) => true,
            BuiltinRule::NoDroppingTheRa(r) => true,
            BuiltinRule::NoDoubleNegativeJa(r) => true,
            BuiltinRule::JaPrh(r) => r.configured(options),
        }
    }

    /// What `finish` reports for the document at `root`: the document-level style check of
    /// `no-mix-dearu-desumasu`, nothing for the other rules.
    pub open spec fn spec_finish(&self, root: NodeRef) -> Seq<Report> {
        match self {
            BuiltinRule::NoMixDearuDesumasu(r) => r.spec_finish(root),
            _ => seq![],
        }
    }

    /// The end-of-document pass.
    pub fn finish(&self, root: &NodeRef, cx: &mut Context)
        requires
            old(cx).wf(),
            crate::ast::texts_fit(*root),
        ensures
            final(cx).wf(),
            final(cx).id() == old(cx).id(),
            final(cx).severity() == old(cx).severity(),
            final(cx).reports() == old(cx).reports() + self.spec_finish(*root),
    {
        match self {
            BuiltinRule::NoMixDearuDesumasu(r) => r.finish(root, cx),
            _ => {
                assert(cx.reports() + Seq::<Report>::empty() =~= cx.reports());
            },
        }
    }
}

impl Rule for BuiltinRule {
    open spec fn spec_meta(&self) -> RuleMeta {
        match self {
            BuiltinRule::SentenceLength(r) => r.meta,
            BuiltinRule::MaxTen(r) => r.meta,
            BuiltinRule::MaxKanjiContinuousLen(r) => r.meta,
            BuiltinRule::NoHankakuKana(r) => r.meta,
            BuiltinRule::NoMixDearuDesumasu(r) => r.meta,
            BuiltinRule::NoMixedZenkakuHankakuAlphabet(r) => r.meta,
            BuiltinRule::NoNfd(r) => r.meta,
            BuiltinRule::NoZeroWidthSpaces(r) => r.meta,
            BuiltinRule::NoExclamationQuestionMark(r) => r.meta,
            BuiltinRule::JaNoMixedPeriod(r) => r.meta,
            BuiltinRule::NoTodo(r) => r.meta,
            BuiltinRule::NoDoubledJoshi(r) => r.meta,
            BuiltinRule::NoDoubledConjunctiveParticleGa(r) => r.meta,
            BuiltinRule::JaNoRedundantExpression(r) => r.meta,
            BuiltinRule::NoDroppingTheRa(r) => r.meta,
            BuiltinRule::NoDoubleNegativeJa(r) => r.meta,
            BuiltinRule::JaPrh(r) => r.meta,
        }
    }

    open spec fn spec_check(&self, node: NodeRef) -> Seq<Report> {
        match self {
            BuiltinRule::SentenceLength(r) => r.spec_check(node),
            BuiltinRule::MaxTen(r) => r.spec_check(node),
            BuiltinRule::MaxKanjiContinuousLen(r) => r.spec_check(node),
            BuiltinRule::NoHankakuKana(r) => r.spec_check(node),
            BuiltinRule::NoMixDearuDesumasu(r) => r.spec_check(node),
            BuiltinRule::NoMixedZenkakuHankakuAlphabet(r) => r.spec_check(node),
            BuiltinRule::NoNfd(r) => r.spec_check(node),
            BuiltinRule::NoZeroWidthSpaces(r) => r.spec_check(node),
            BuiltinRule::NoExclamationQuestionMark(r) => r.spec_check(node),
            BuiltinRule::JaNoMixedPeriod(r) => r.spec_check(node),
            BuiltinRule::NoTodo(r) => r.spec_check(node),
            BuiltinRule::NoDoubledJoshi(r) => r.spec_check(node),
            BuiltinRule::NoDoubledConjunctiveParticleGa(r) => r.spec_check(node),
            BuiltinRule::JaNoRedundantExpression(r) => r.spec_check(node),
            BuiltinRule::NoDroppingTheRa(r) => r.spec_check(node),
            BuiltinRule::NoDoubleNegativeJa(r) => r.spec_check(node),
            BuiltinRule::JaPrh(r) => r.spec_check(node),
        }
    }

    fn meta(&self) -> (m: &RuleMeta) {
        match self {
            BuiltinRule::SentenceLength(r) => &r.meta,
            BuiltinRule::MaxTen(r) => &r.meta,
            BuiltinRule::MaxKanjiContinuousLen(r) => &r.meta,
            BuiltinRule::NoHankakuKana(r) => &r.meta,
            BuiltinRule::NoMixDearuDesumasu(r) => &r.meta,
            BuiltinRule::NoMixedZenkakuHankakuAlphabet(r) => &r.meta,
            BuiltinRule::NoNfd(r) => &r.meta,
            BuiltinRule::NoZeroWidthSpaces(r) => &r.meta,
            BuiltinRule::NoExclamationQuestionMark(r) => &r.meta,
            BuiltinRule::JaNoMixedPeriod(r) => &r.meta,
            BuiltinRule::NoTodo(r) => &r.meta,
            BuiltinRule::NoDoubledJoshi(r) => &r.meta,
            BuiltinRule::NoDoubledConjunctiveParticleGa(r) => &r.meta,
            BuiltinRule::JaNoRedundantExpression(r) => &r.meta,
            BuiltinRule::NoDroppingTheRa(r) => &r.meta,
            BuiltinRule::NoDoubleNegativeJa(r) => &r.meta,
            BuiltinRule::JaPrh(r) => &r.meta,
        }
    }

    fn check(&self, node: &NodeRef, cx: &mut Context) {
        match self {
            BuiltinRule::SentenceLength(r) => r.check(node, cx),
            BuiltinRule::MaxTen(r) => r.check(node, cx),
            BuiltinRule::MaxKanjiContinuousLen(r) => r.check(node, cx),
            BuiltinRule::NoHankakuKana(r) => r.check(node, cx),
            BuiltinRule::NoMixDearuDesumasu(r) => r.check(node, cx),
            BuiltinRule::NoMixedZenkakuHankakuAlphabet(r) => r.check(node, cx),
            BuiltinRule::NoNfd(r) => r.check(node, cx),
            BuiltinRule::NoZeroWidthSpaces(r) => r.check(node, cx),
            BuiltinRule::NoExclamationQuestionMark(r) => r.check(node, cx),
            BuiltinRule::JaNoMixedPeriod(r) => r.check(node, cx),
            BuiltinRule::NoTodo(r) => r.check(node, cx),
            BuiltinRule::NoDoubledJoshi(r) => r.check(node, cx),
            BuiltinRule::NoDoubledConjunctiveParticleGa(r) => r.check(node, cx),
            BuiltinRule::JaNoRedundantExpression(r) => r.check(node, cx),
            BuiltinRule::NoDroppingTheRa(r) => r.check(node, cx),
            BuiltinRule::NoDoubleNegativeJa(r) => r.check(node, cx),
            BuiltinRule::JaPrh(r) => r.check(node, cx),
        }
    }
}

/// The node kinds the built-in rule `id` visits (none for an unknown id).
pub open spec fn rule_node_kinds(id: Seq<char>) -> Seq<crate::ast::NodeKind> {
    if id == crate::rules::sentence_length::ID@ {
        crate::rules::sentence_length::node_kinds()
    } else if id == crate::rules::max_ten::ID@ {
        crate::rules::max_ten::node_kinds()
    } else if id == crate::rules::max_kanji_continuous_len::ID@ {
        crate::rules::max_kanji_continuous_len::node_kinds()
    } else if id == crate::rules::no_hankaku_kana::ID@ {
        crate::rules::no_hankaku_kana::node_kinds()
    } else if id == crate::rules::no_mix_dearu_desumasu::ID@ {
        crate::rules::no_mix_dearu_desumasu::node_kinds()
    } else if id == crate::rules::no_mixed_zenkaku_hankaku_alphabet::ID@ {
        crate::rules::no_mixed_zenkaku_hankaku_alphabet::node_kinds()
    } else if id == crate::rules::no_nfd::ID@ {
        crate::rules::no_nfd::node_kinds()
    } else if id == crate::rules::no_zero_width_spaces::ID@ {
        crate::rules::no_zero_width_spaces::node_kinds()
    } else if id == crate::rules::no_exclamation_question_mark::ID@ {
        crate::rules::no_exclamation_question_mark::node_kinds()
    } else if id == crate::rules::ja_no_mixed_period::ID@ {
        crate::rules::ja_no_mixed_period::node_kinds()
    } else if id == crate::rules::no_todo::ID@ {
        crate::rules::no_todo::node_kinds()
    } else if id == crate::rules::no_doubled_joshi::ID@ {
        crate::rules::no_doubled_joshi::node_kinds()
    } else if id == crate::rules::no_doubled_conjunctive_particle_ga::ID@ {
        crate::rules::no_doubled_conjunctive_particle_ga::node_kinds()
    } else if id == crate::rules::ja_no_redundant_expression::ID@ {
        crate::rules::ja_no_redundant_expression::node_kinds()
    } else if id == crate::rules::no_dropping_the_ra::ID@ {
        crate::rules::no_dropping_the_ra::node_kinds()
    } else if id == crate::rules::no_double_negative_ja::ID@ {
        crate::rules::no_double_negative_ja::node_kinds()
    } else if id == crate::rules::ja_prh::ID@ {
        crate::rules::ja_prh::node_kinds()
    } else {
        seq![]
    }
}

/// Construct the built-in rule `id` from config `options` (through the rule's `from_options`,
/// where it has one) with an optional `severity` override; `None` for an unknown id.
pub fn build_rule(id: &str, options: &JsonValue, severity: Option<Severity>) -> (r: Option<BuiltinRule>)
    ensures
        r.is_some() == is_rule_id(id@),
        r matches Some(b) ==> b.rule_id() == id@,
        r matches Some(b) ==> b.spec_meta().id@ == id@,
        r matches Some(b) ==> b.spec_meta().node_kinds@ == rule_node_kinds(id@),
        r matches Some(b) ==> b.configured(*options),
        r matches Some(b) ==> b.spec_meta().default_severity == match severity {
            Some(s) => s,
            None => Severity::Warning,
        },
        r matches Some(b) ==> (b.is_ja_only() <==> b.spec_meta().lang == Some(crate::ast::Lang::Ja)),
        r matches Some(b) ==> (!b.is_ja_only() ==> b.spec_meta().lang.is_none()),
{
    proof {
        reveal_strlit("sentence-length");
        reveal_strlit("max-ten");
        reveal_strlit("max-kanji-continuous-len");
        reveal_strlit("no-hankaku-kana");
        reveal_strlit("no-mix-dearu-desumasu");
        reveal_strlit("no-mixed-zenkaku-hankaku-alphabet");
        reveal_strlit("no-nfd");
        reveal_strlit("no-zero-width-spaces");
        reveal_strlit("no-exclamation-question-mark");
        reveal_strlit("ja-no-mixed-period");
        reveal_strlit("no-todo");
        reveal_strlit("no-doubled-joshi");
        reveal_strlit("no-doubled-conjunctive-particle-ga");
        reveal_strlit("ja-no-redundant-expression");
        reveal_strlit("no-dropping-the-ra");
        reveal_strlit("no-double-negative-ja");
        reveal_strlit("ja-prh");
    }
    let rule = if str_eq(id, crate::rules::sentence_length::ID) {
        let mut r = SentenceLength::from_options(options);
        if let Some(s) = severity {
            r.meta.default_severity = s;
        }
        BuiltinRule::SentenceLength(r)
    } else if str_eq(id, crate::rules::max_ten::ID) {
        let mut r = MaxTen::from_options(options);
        if let Some(s) = severity {
            r.meta.default_severity = s;
        }
        BuiltinRule::MaxTen(r)
    } else if str_eq(id, crate::rules::max_kanji_continuous_len::ID) {
        let mut r = MaxKanjiContinuousLen::from_options(options);
        if let Some(s) = severity {
            r.meta.default_severity = s;
        }
        BuiltinRule::MaxKanjiContinuousLen(r)
    } else if str_eq(id, crate::rules::no_hankaku_kana::ID) {
        let mut r = NoHankakuKana::new();
        if let Some(s) = severity {
            r.meta.default_severity = s;
        }
        BuiltinRule::NoHankakuKana(r)
    } else if str_eq(id, crate::rules::no_mix_dearu_desumasu::ID) {
        let mut r = NoMixDearuDesumasu::from_options(options);
        if let Some(s) = severity {
            r.meta.default_severity = s;
        }
        BuiltinRule::NoMixDearuDesumasu(r)
    } else if str_eq(id, crate::rules::no_mixed_zenkaku_hankaku_alphabet::ID) {
        let mut r = NoMixedZenkakuHankakuAlphabet::new();
        if let Some(s) = severity {
            r.meta.default_severity = s;
        }
        BuiltinRule::NoMixedZenkakuHankakuAlphabet(r)
    } else if str_eq(id, crate::rules::no_nfd::ID) {
        let mut r = NoNfd::new();
        if let Some(s) = severity {
            r.meta.default_severity = s;
        }
        BuiltinRule::NoNfd(r)
    } else if str_eq(id, crate::rules::no_zero_width_spaces::ID) {
        let mut r = NoZeroWidthSpaces::new();
        if let Some(s) = severity {
            r.meta.default_severity = s;
        }
        BuiltinRule::NoZeroWidthSpaces(r)
    } else if str_eq(id, crate::rules::no_exclamation_question_mark::ID) {
        let mut r = NoExclamationQuestionMark::from_options(options);
        if let Some(s) = severity {
            r.meta.default_severity = s;
        }
        BuiltinRule::NoExclamationQuestionMark(r)
    } else if str_eq(id, crate::rules::ja_no_mixed_period::ID) {
        let mut r = JaNoMixedPeriod::new();
        if let Some(s) = severity {
            r.meta.default_severity = s;
        }
        BuiltinRule::JaNoMixedPeriod(r)
    } else if str_eq(id, crate::rules::no_todo::ID) {
        let mut r = NoTodo::from_options(options);
        if let Some(s) = severity {
            r.meta.default_severity = s;
        }
        BuiltinRule::NoTodo(r)
    } else if str_eq(id, crate::rules::no_doubled_joshi::ID) {
        let mut r = NoDoubledJoshi::from_options(options);
        if let Some(s) = severity {
            r.meta.default_severity = s;
        }
        BuiltinRule::NoDoubledJoshi(r)
    } else if str_eq(id, crate::rules::no_doubled_conjunctive_particle_ga::ID) {
        let mut r = NoDoubledConjunctiveParticleGa::new();
        if let Some(s) = severity {
            r.meta.default_severity = s;
        }
        BuiltinRule::NoDoubledConjunctiveParticleGa(r)
    } else if str_eq(id, crate::rules::ja_no_redundant_expression::ID) {
        let mut r = JaNoRedundantExpression::new();
        if let Some(s) = severity {
            r.meta.default_severity = s;
        }
        BuiltinRule::JaNoRedundantExpression(r)
    } else if str_eq(id, crate::rules::no_dropping_the_ra::ID) {
        let mut r = NoDroppingTheRa::new();
        if let Some(s) = severity {
            r.meta.default_severity = s;
        }
        BuiltinRule::NoDroppingTheRa(r)
    } else if str_eq(id, crate::rules::no_double_negative_ja::ID) {
        let mut r = NoDoubleNegativeJa::new();
        if let Some(s) = severity {
            r.meta.default_severity = s;
        }
        BuiltinRule::NoDoubleNegativeJa(r)
    } else if str_eq(id, crate::rules::ja_prh::ID) {
        let mut r = JaPrh::from_options(options);
        if let Some(s) = severity {
            r.meta.default_severity = s;
        }
        BuiltinRule::JaPrh(r)
    } else {
        return None;
    };
    Some(rule)
}

/// Every built-in rule with default options and no severity override, in [`RULE_IDS`] order.
pub fn builtin_rules() -> (v: Vec<BuiltinRule>)
    ensures
        v@.len() == 17,
        forall|i: int|
            0 <= i < 17 ==> {
                &&& (#[trigger] v@[i]).rule_id() == RULE_IDS@[i]@
                &&& v@[i].spec_meta().id@ == RULE_IDS@[i]@
                &&& v@[i].spec_meta().node_kinds@ == rule_node_kinds(RULE_IDS@[i]@)
                &&& v@[i].configured(JsonValue::Null)
                &&& v@[i].spec_meta().default_severity == Severity::Warning
            },
{
    let null = JsonValue::Null;
    let mut v: Vec<BuiltinRule> = Vec::new();
    let mut i: usize = 0;
    while i < 17
        invariant
            i <= 17,
            null == JsonValue::Null,
            v@.len() == i,
            forall|k: int|
                0 <= k < i ==> {
                    &&& (#[trigger] v@[k]).rule_id() == RULE_IDS@[k]@
                    &&& v@[k].spec_meta().id@ == RULE_IDS@[k]@
                    &&& v@[k].spec_meta().node_kinds@ == rule_node_kinds(RULE_IDS@[k]@)
                    &&& v@[k].configured(JsonValue::Null)
                    &&& v@[k].spec_meta().default_severity == Severity::Warning
                },
        decreases 17 - i,
    {
        let id = RULE_IDS[i];
        assert(is_rule_id(RULE_IDS@[i as int]@));
        match build_rule(id, &null, None) {
            Some(r) => {
                v.push(r);
            },
            None => {},
        }
        i = i + 1;
    }
    v
}

impl BuiltinRule {
    /// The length, first and fifth character of the rule's id; no two rules share them.
    pub open spec fn id_signature(&self) -> (nat, char, char) {
        match self {
            BuiltinRule::SentenceLength(_) => (15, 's', 'e'),
            BuiltinRule::MaxTen(_) => (7, 'm', 't'),
            BuiltinRule::MaxKanjiContinuousLen(_) => (24, 'm', 'k'),
            BuiltinRule::NoHankakuKana(_) => (15, 'n', 'a'),
            BuiltinRule::NoMixDearuDesumasu(_) => (21, 'n', 'i'),
            BuiltinRule::NoMixedZenkakuHankakuAlphabet(_) => (33, 'n', 'i'),
            BuiltinRule::NoNfd(_) => (6, 'n', 'f'),
            BuiltinRule::NoZeroWidthSpaces(_) => (20, 'n', 'e'),
            BuiltinRule::NoExclamationQuestionMark(_) => (28, 'n', 'x'),
            BuiltinRule::JaNoMixedPeriod(_) => (18, 'j', 'o'),
            BuiltinRule::NoTodo(_) => (7, 'n', 'o'),
            BuiltinRule::NoDoubledJoshi(_) => (16, 'n', 'o'),
            BuiltinRule::NoDoubledConjunctiveParticleGa(_) => (34, 'n', 'o'),
            BuiltinRule::JaNoRedundantExpression(_) => (26, 'j', 'o'),
            BuiltinRule::NoDroppingTheRa(_) => (18, 'n', 'r'),
            BuiltinRule::NoDoubleNegativeJa(_) => (21, 'n', 'o'),
            BuiltinRule::JaPrh(_) => (6, 'j', 'r'),
        }
    }

    proof fn lemma_id_signature(&self)
        ensures
            self.rule_id().len() == self.id_signature().0,
            self.rule_id()[0] == self.id_signature().1,
            self.rule_id()[4] == self.id_signature().2,
    {
        reveal_strlit("sentence-length");
        reveal_strlit("max-ten");
        reveal_strlit("max-kanji-continuous-len");
        reveal_strlit("no-hankaku-kana");
        reveal_strlit("no-mix-dearu-desumasu");
        reveal_strlit("no-mixed-zenkaku-hankaku-alphabet");
        reveal_strlit("no-nfd");
        reveal_strlit("no-zero-width-spaces");
        reveal_strlit("no-exclamation-question-mark");
        reveal_strlit("ja-no-mixed-period");
        reveal_strlit("no-todo");
        reveal_strlit("no-doubled-joshi");
        reveal_strlit("no-doubled-conjunctive-particle-ga");
        reveal_strlit("ja-no-redundant-expression");
        reveal_strlit("no-dropping-the-ra");
        reveal_strlit("no-double-negative-ja");
        reveal_strlit("ja-prh");
    }
}

/// A severity override changes no report: two built-in rules of one id, both set up from the
/// same options (as [`build_rule`] sets them up whatever the severity), report the same on
/// every node and every document.
pub proof fn law_severity_does_not_change_reports(
    a: BuiltinRule,
    b: BuiltinRule,
    options: JsonValue,
    node: NodeRef,
    root: NodeRef,
)
    requires
        a.rule_id() == b.rule_id(),
        a.configured(options),
        b.configured(options),
    ensures
        a.spec_check(node) == b.spec_check(node),
        a.spec_finish(root) == b.spec_finish(root),
{
    match a {
        BuiltinRule::SentenceLength(x) => match b {
            BuiltinRule::SentenceLength(y) => {
                assert(x.spec_check(node) == y.spec_check(node));
            },
            _ => {
                a.lemma_id_signature();
                b.lemma_id_signature();
            },
        },
        BuiltinRule::MaxTen(x) => match b {
            BuiltinRule::MaxTen(y) => {
                assert(x.max == y.max && x.touten == y.touten && x.kuten == y.kuten);
                assert(x.spec_check(node) == y.spec_check(node));
            },
            _ => {
                a.lemma_id_signature();
                b.lemma_id_signature();
            },
        },
        BuiltinRule::MaxKanjiContinuousLen(x) => match b {
            BuiltinRule::MaxKanjiContinuousLen(y) => {
                assert((|c: char| x.spec_in(c)) =~= (|c: char| y.spec_in(c)));
                assert(x.spec_check(node) == y.spec_check(node));
            },
            _ => {
                a.lemma_id_signature();
                b.lemma_id_signature();
            },
        },
        BuiltinRule::NoHankakuKana(x) => match b {
            BuiltinRule::NoHankakuKana(y) => {
                assert((|c: char| x.spec_in(c)) =~= (|c: char| y.spec_in(c)));
                assert(x.spec_check(node) == y.spec_check(node));
            },
            _ => {
                a.lemma_id_signature();
                b.lemma_id_signature();
            },
        },
        BuiltinRule::NoMixDearuDesumasu(x) => match b {
            BuiltinRule::NoMixDearuDesumasu(y) => {
                assert(x.spec_check(node) == y.spec_check(node));
            },
            _ => {
                a.lemma_id_signature();
                b.lemma_id_signature();
            },
        },
        BuiltinRule::NoMixedZenkakuHankakuAlphabet(x) => match b {
            BuiltinRule::NoMixedZenkakuHankakuAlphabet(y) => {
                assert(x.spec_check(node) == y.spec_check(node));
            },
            _ => {
                a.lemma_id_signature();
                b.lemma_id_signature();
            },
        },
        BuiltinRule::NoNfd(x) => match b {
            BuiltinRule::NoNfd(y) => {
                assert((|c: char| x.spec_hit(c)) =~= (|c: char| y.spec_hit(c)));
                assert(x.spec_check(node) == y.spec_check(node));
            },
            _ => {
                a.lemma_id_signature();
                b.lemma_id_signature();
            },
        },
        BuiltinRule::NoZeroWidthSpaces(x) => match b {
            BuiltinRule::NoZeroWidthSpaces(y) => {
                assert((|c: char| x.spec_hit(c)) =~= (|c: char| y.spec_hit(c)));
                assert(x.spec_check(node) == y.spec_check(node));
            },
            _ => {
                a.lemma_id_signature();
                b.lemma_id_signature();
            },
        },
        BuiltinRule::NoExclamationQuestionMark(x) => match b {
            BuiltinRule::NoExclamationQuestionMark(y) => {
                assert((|c: char| x.spec_hit(c)) =~= (|c: char| y.spec_hit(c)));
                assert(x.spec_check(node) == y.spec_check(node));
            },
            _ => {
                a.lemma_id_signature();
                b.lemma_id_signature();
            },
        },
        BuiltinRule::JaNoMixedPeriod(x) => match b {
            BuiltinRule::JaNoMixedPeriod(y) => {
                assert(x.spec_check(node) == y.spec_check(node));
            },
            _ => {
                a.lemma_id_signature();
                b.lemma_id_signature();
            },
        },
        BuiltinRule::NoTodo(x) => match b {
            BuiltinRule::NoTodo(y) => {
                assert(x.spec_check(node) == y.spec_check(node));
            },
            _ => {
                a.lemma_id_signature();
                b.lemma_id_signature();
            },
        },
        BuiltinRule::NoDoubledJoshi(x) => match b {
            BuiltinRule::NoDoubledJoshi(y) => {
                x.lemma_reports_read_only_settings(y, node);
                assert(x.spec_check(node) == y.spec_check(node));
            },
            _ => {
                a.lemma_id_signature();
                b.lemma_id_signature();
            },
        },
        BuiltinRule::NoDoubledConjunctiveParticleGa(x) => match b {
            BuiltinRule::NoDoubledConjunctiveParticleGa(y) => {
                assert(x.spec_check(node) == y.spec_check(node));
            },
            _ => {
                a.lemma_id_signature();
                b.lemma_id_signature();
            },
        },
        BuiltinRule::JaNoRedundantExpression(x) => match b {
            BuiltinRule::JaNoRedundantExpression(y) => {
                assert(x.spec_check(node) == y.spec_check(node));
            },
            _ => {
                a.lemma_id_signature();
                b.lemma_id_signature();
            },
        },
        BuiltinRule::NoDroppingTheRa(x) => match b {
            BuiltinRule::NoDroppingTheRa(y) => {
                assert(x.spec_check(node) == y.spec_check(node));
            },
            _ => {
                a.lemma_id_signature();
                b.lemma_id_signature();
            },
        },
        BuiltinRule::NoDoubleNegativeJa(x) => match b {
            BuiltinRule::NoDoubleNegativeJa(y) => {
                assert(x.spec_check(node) == y.spec_check(node));
            },
            _ => {
                a.lemma_id_signature();
                b.lemma_id_signature();
            },
        },
        BuiltinRule::JaPrh(x) => match b {
            BuiltinRule::JaPrh(y) => {
                assert(x.spec_check(node) == y.spec_check(node));
            },
            _ => {
                a.lemma_id_signature();
                b.lemma_id_signature();
            },
        },
    }
}

/// Two builds of one rule by [`build_rule`] that differ only in the severity override carry
/// the same id, visit the same node kinds and report the same on every node and document.
pub proof fn law_severity_override_changes_only_severity(
    id: Seq<char>,
    a: BuiltinRule,
    b: BuiltinRule,
    options: JsonValue,
    node: NodeRef,
    root: NodeRef,
)
    requires
        a.rule_id() == id,
        b.rule_id() == id,
        a.spec_meta().id@ == id,
        b.spec_meta().id@ == id,
        a.spec_meta().node_kinds@ == rule_node_kinds(id),
        b.spec_meta().node_kinds@ == rule_node_kinds(id),
        a.configured(options),
        b.configured(options),
    ensures
        a.spec_meta().id@ == b.spec_meta().id@,
        a.spec_meta().node_kinds@ == b.spec_meta().node_kinds@,
        a.spec_check(node) == b.spec_check(node),
        a.spec_finish(root) == b.spec_finish(root),
{
    law_severity_does_not_change_reports(a, b, options, node, root);
}

} // verus!
