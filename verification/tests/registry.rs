use tzlint::rules::ja_no_mixed_period::JaNoMixedPeriod;
use tzlint::rules::ja_no_redundant_expression::JaNoRedundantExpression;
use tzlint::rules::max_kanji_continuous_len::MaxKanjiContinuousLen;
use tzlint::rules::max_ten::MaxTen;
use tzlint::rules::no_double_negative_ja::NoDoubleNegativeJa;
use tzlint::rules::no_doubled_conjunctive_particle_ga::NoDoubledConjunctiveParticleGa;
use tzlint::rules::no_doubled_joshi::NoDoubledJoshi;
use tzlint::rules::no_dropping_the_ra::NoDroppingTheRa;
use tzlint::rules::no_exclamation_question_mark::NoExclamationQuestionMark;
use tzlint::rules::no_hankaku_kana::NoHankakuKana;
use tzlint::rules::no_mix_dearu_desumasu::NoMixDearuDesumasu;
use tzlint::rules::no_mixed_zenkaku_hankaku_alphabet::NoMixedZenkakuHankakuAlphabet;
use tzlint::rules::no_nfd::NoNfd;
use tzlint::rules::no_todo::NoTodo;
use tzlint::rules::no_zero_width_spaces::NoZeroWidthSpaces;
use tzlint::rules::sentence_length::SentenceLength;
use tzlint::ast::{Context, Diagnostic, Lang, NodeKind, NodeRef, Rule, Severity, Span};
use tzlint::json::{JsonMember, JsonNumber, JsonValue};
use tzlint::morph::{Feature, FeatureKey, Token};
use tzlint::registry::{build_rule, builtin_rules, BuiltinRule, RULE_IDS};

fn diagnose<R: Rule>(rule: &R, src: &str) -> Vec<Diagnostic> {
    let text = src.strip_suffix('\n').unwrap_or(src);
    let node = NodeRef::new(NodeKind::Text, Span::new(0, text.len() as u32), text.to_string());
    let mut cx = Context::new(rule.meta());
    rule.check(&node, &mut cx);
    cx.into_diagnostics()
}

fn obj(members: Vec<(&str, JsonValue)>) -> JsonValue {
    JsonValue::Object(members.into_iter().map(|(k, v)| JsonMember { key: k.to_string(), value: v }).collect())
}

fn token(start: u32, end: u32, base: Option<&str>, feats: &[(FeatureKey, &str)]) -> Token {
    Token {
        surface: Span::new(start, end),
        unknown: false,
        base_form: base.map(|b| b.to_string()),
        features: feats.iter().map(|(k, v)| Feature { key: *k, value: Some(v.to_string()) }).collect(),
    }
}

#[test]
fn registry_and_rule_ids_agree() {
    let rules = builtin_rules();
    assert_eq!(rules.len(), RULE_IDS.len());
    for (rule, id) in rules.iter().zip(RULE_IDS.iter()) {
        assert_eq!(rule.meta().id.as_str(), *id);
    }
}

#[test]
fn builtin_morphology_rules_pin_a_language() {
    for rule in builtin_rules() {
        let meta = rule.meta();
        assert_eq!(
            meta.needs_morphology(),
            meta.required_lang().is_some() && meta.needs_morphology(),
            "rule {} violates the morphology ⇒ pinned-language invariant",
            meta.id.as_str(),
        );
        if meta.needs_morphology() {
            assert!(meta.required_lang().is_some());
        }
    }
}

#[test]
fn rule_language_applicability_is_tagged() {
    const JA_ONLY: &[&str] = &[
        "sentence-length",
        "max-ten",
        "no-hankaku-kana",
        "ja-no-mixed-period",
        "no-doubled-joshi",
        "no-mix-dearu-desumasu",
        "no-doubled-conjunctive-particle-ga",
        "ja-no-redundant-expression",
        "no-dropping-the-ra",
        "no-double-negative-ja",
        "ja-prh",
    ];
    for id in RULE_IDS.iter() {
        let meta_holder = build_rule(id, &JsonValue::Null, None).expect("every id builds");
        let meta = meta_holder.meta();
        if JA_ONLY.contains(id) {
            assert!(meta.applies_to(Some(Lang::Ja)), "{id} should apply to JA");
            assert!(!meta.applies_to(Some(Lang::Ko)), "{id} (JA-only) should not apply to KO");
            assert!(!meta.applies_to(None), "{id} (JA-only) should not fire on untagged text");
        } else {
            assert!(meta.applies_to(None), "{id} (neutral) should run on untagged text");
            assert!(meta.applies_to(Some(Lang::Ja)), "{id} (neutral) should run on JA");
            assert!(meta.applies_to(Some(Lang::Ko)), "{id} (neutral) should run on KO");
        }
    }
}

#[test]
fn build_rule_covers_every_id_and_rejects_unknown() {
    for id in RULE_IDS.iter() {
        let rule = build_rule(id, &JsonValue::Null, None).unwrap_or_else(|| panic!("build_rule has no arm for {id}"));
        assert_eq!(rule.meta().id.as_str(), *id);
    }
    assert!(build_rule("definitely-not-a-rule", &JsonValue::Null, None).is_none());
}

#[test]
fn build_rule_applies_severity_override_preserving_kinds() {
    let error = build_rule("max-ten", &JsonValue::Null, Some(Severity::Error)).unwrap();
    let hint = build_rule("max-ten", &JsonValue::Null, Some(Severity::Hint)).unwrap();
    assert_eq!(error.meta().default_severity, Severity::Error);
    assert_eq!(hint.meta().default_severity, Severity::Hint);
    let plain = build_rule("max-ten", &JsonValue::Null, None).unwrap();
    assert_eq!(error.meta().id, plain.meta().id);
    assert_eq!(error.meta().node_kinds, plain.meta().node_kinds);
}

#[test]
fn build_rule_routes_options_to_the_rule() {
    let src = "これは、テストです。\n";
    let strict = build_rule("max-ten", &obj(vec![("max", JsonValue::Number(JsonNumber::PosInt(0)))]), None).unwrap();
    let lenient = build_rule("max-ten", &obj(vec![("max", JsonValue::Number(JsonNumber::PosInt(9)))]), None).unwrap();
    assert!(!diagnose(&strict, src).is_empty(), "max:0 should flag the comma");
    assert!(diagnose(&lenient, src).is_empty(), "max:9 should not flag a single comma");
}

#[test]
fn rule_ids_are_unique_and_kebab_case() {
    let mut seen = std::collections::BTreeSet::new();
    for id in RULE_IDS.iter() {
        assert!(seen.insert(*id), "duplicate rule id {id}");
        assert!(
            id.chars().all(|c| c.is_ascii_lowercase() || c.is_ascii_digit() || c == '-'),
            "rule id {id} is not kebab-case"
        );
    }
}

#[test]
fn build_rule_routes_the_terms_option() {
    let term = obj(vec![
        ("expected", JsonValue::String("JavaScript".to_string())),
        ("patterns", JsonValue::Array(vec![JsonValue::String("Javascript".to_string())])),
    ]);
    let rule = build_rule("ja-prh", &obj(vec![("terms", JsonValue::Array(vec![term]))]), None).unwrap();
    assert_eq!(diagnose(&rule, "use Javascript\n").len(), 1);
}

#[test]
fn build_rule_routes_options() {
    let strict = build_rule("no-doubled-joshi", &obj(vec![("strict", JsonValue::Bool(true))]), None).unwrap();
    let joshi = |s, e| token(s, e, None, &[(FeatureKey::Pos, "助詞"), (FeatureKey::PosSub1, "連体化")]);
    let word = |s, e| token(s, e, None, &[(FeatureKey::Pos, "名詞")]);
    let src = "本のペンの";
    let node = NodeRef::new(NodeKind::Paragraph, Span::new(0, src.len() as u32), src.to_string())
        .with_tokens(vec![word(0, 3), joshi(3, 6), word(6, 12), joshi(12, 15)]);
    let mut cx = Context::new(strict.meta());
    strict.check(&node, &mut cx);
    assert_eq!(cx.into_diagnostics().len(), 1);
}

#[test]
fn build_rule_routes_the_prefer_option() {
    let rule = build_rule("no-mix-dearu-desumasu", &obj(vec![("prefer", JsonValue::String("desumasu".to_string()))]), None)
        .unwrap();
    let noun = |s, e| token(s, e, None, &[(FeatureKey::Pos, "名詞")]);
    let aux = |s, e, b| token(s, e, Some(b), &[(FeatureKey::Pos, "助動詞")]);
    let src = "猫です。犬だ。";
    let len = src.len() as u32;
    let para = NodeRef::new(NodeKind::Paragraph, Span::new(0, len), src.to_string())
        .with_tokens(vec![noun(0, 3), aux(3, 9, "です"), noun(12, 15), aux(15, 18, "だ")]);
    let root = NodeRef::new(NodeKind::Root, Span::new(0, len), src.to_string()).with_children(vec![para]);
    let mut cx = Context::new(rule.meta());
    rule.check(&root.children[0], &mut cx);
    rule.finish(&root, &mut cx);
    let diags = cx.into_diagnostics();
    assert_eq!(diags.len(), 1, "{diags:?}");
    assert_eq!((diags[0].span.start, diags[0].span.end), (15, 18));
}

#[test]
fn only_the_style_rule_has_an_end_of_document_pass() {
    let root = NodeRef::new(NodeKind::Root, Span::new(0, 0), String::new());
    for rule in builtin_rules() {
        let mut cx = Context::new(rule.meta());
        rule.finish(&root, &mut cx);
        assert!(cx.into_diagnostics().is_empty());
        if let BuiltinRule::NoMixDearuDesumasu(_) = rule {
            assert_eq!(rule.meta().id.as_str(), "no-mix-dearu-desumasu");
        }
    }
}

#[test]
fn rules_construct_via_default() {

    assert_eq!(SentenceLength::default().meta().id.as_str(), "sentence-length");
    assert_eq!(MaxTen::default().meta().id.as_str(), "max-ten");
    assert_eq!(MaxKanjiContinuousLen::default().meta().id.as_str(), "max-kanji-continuous-len");
    assert_eq!(NoHankakuKana::default().meta().id.as_str(), "no-hankaku-kana");
    assert_eq!(
        NoMixedZenkakuHankakuAlphabet::default().meta().id.as_str(),
        "no-mixed-zenkaku-hankaku-alphabet"
    );
    assert_eq!(NoNfd::default().meta().id.as_str(), "no-nfd");
    assert_eq!(NoZeroWidthSpaces::default().meta().id.as_str(), "no-zero-width-spaces");
    assert_eq!(
        NoExclamationQuestionMark::default().meta().id.as_str(),
        "no-exclamation-question-mark"
    );
    assert_eq!(JaNoMixedPeriod::default().meta().id.as_str(), "ja-no-mixed-period");
    assert_eq!(NoTodo::default().meta().id.as_str(), "no-todo");
    assert_eq!(NoDoubledJoshi::default().meta().id.as_str(), "no-doubled-joshi");
    assert_eq!(NoMixDearuDesumasu::default().meta().id.as_str(), "no-mix-dearu-desumasu");
    assert_eq!(
        NoDoubledConjunctiveParticleGa::default().meta().id.as_str(),
        "no-doubled-conjunctive-particle-ga"
    );
    assert_eq!(
        JaNoRedundantExpression::default().meta().id.as_str(),
        "ja-no-redundant-expression"
    );
    assert_eq!(NoDroppingTheRa::default().meta().id.as_str(), "no-dropping-the-ra");
    assert_eq!(NoDoubleNegativeJa::default().meta().id.as_str(), "no-double-negative-ja");
}

#[test]
fn severity_override_keeps_the_reports() {
    let text = "a、b、c、d、e。";
    let overridden = build_rule("max-ten", &JsonValue::Null, Some(Severity::Error)).unwrap();
    let plain = build_rule("max-ten", &JsonValue::Null, None).unwrap();
    let a = diagnose(&overridden, text);
    let b = diagnose(&plain, text);
    assert_eq!(a.len(), b.len());
    for (x, y) in a.iter().zip(b.iter()) {
        assert_eq!((x.span.start, x.span.end, &x.message), (y.span.start, y.span.end, &y.message));
    }
    assert_eq!(overridden.meta().default_severity, Severity::Error);
}
