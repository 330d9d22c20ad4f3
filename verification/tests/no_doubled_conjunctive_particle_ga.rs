use tzlint::ast::{Context, Diagnostic, NodeKind, NodeRef, Rule, Span};
use tzlint::morph::{Feature, FeatureKey, Token};
use tzlint::rules::no_doubled_conjunctive_particle_ga::NoDoubledConjunctiveParticleGa;

fn push(start: u32, end: u32, feats: &[(FeatureKey, &str)]) -> Token {
    Token {
        surface: Span::new(start, end),
        unknown: false,
        base_form: None,
        features: feats.iter().map(|(k, v)| Feature { key: *k, value: Some(v.to_string()) }).collect(),
    }
}

fn word(start: u32, end: u32) -> Token {
    push(start, end, &[(FeatureKey::Pos, "名詞")])
}

fn conj_ga(start: u32, end: u32) -> Token {
    push(start, end, &[(FeatureKey::Pos, "助詞"), (FeatureKey::PosSub1, "接続助詞")])
}

fn case_ga(start: u32, end: u32) -> Token {
    push(start, end, &[(FeatureKey::Pos, "助詞"), (FeatureKey::PosSub1, "格助詞")])
}

fn run(src: &str, tokens: Option<Vec<Token>>) -> Vec<Diagnostic> {
    let rule = NoDoubledConjunctiveParticleGa::new();
    let mut node = NodeRef::new(NodeKind::Paragraph, Span::new(0, src.len() as u32), src.to_string());
    if let Some(ts) = tokens {
        node = node.with_tokens(ts);
    }
    let mut cx = Context::new(rule.meta());
    rule.check(&node, &mut cx);
    cx.into_diagnostics()
}

#[test]
fn flags_the_second_conjunctive_ga_in_a_sentence() {
    let diags = run("雨だが寒いが行く", Some(vec![word(0, 6), conj_ga(6, 9), word(9, 15), conj_ga(15, 18), word(18, 24)]));
    assert_eq!(diags.len(), 1, "{diags:?}");
    assert_eq!((diags[0].span.start, diags[0].span.end), (15, 18));
    assert!(diags[0].message.contains("接続助詞「が」"), "{}", diags[0].message);
}

#[test]
fn a_single_conjunctive_ga_is_clean() {
    let diags = run("雨だが行く", Some(vec![word(0, 6), conj_ga(6, 9), word(9, 15)]));
    assert!(diags.is_empty(), "{diags:?}");
}

#[test]
fn the_case_marking_ga_is_not_counted() {
    let diags = run("雨が降るが寒い", Some(vec![word(0, 3), case_ga(3, 6), word(6, 12), conj_ga(12, 15), word(15, 21)]));
    assert!(diags.is_empty(), "{diags:?}");
}

#[test]
fn a_sentence_boundary_resets_the_count() {
    let diags = run("雨だが。寒いが。", Some(vec![word(0, 6), conj_ga(6, 9), word(12, 18), conj_ga(18, 21)]));
    assert!(diags.is_empty(), "{diags:?}");
}

#[test]
fn three_ga_flags_the_second_and_third() {
    let diags = run(
        "甲が乙が丙が",
        Some(vec![word(0, 3), conj_ga(3, 6), word(6, 9), conj_ga(9, 12), word(12, 15), conj_ga(15, 18)]),
    );
    assert_eq!(diags.len(), 2, "{diags:?}");
    assert_eq!((diags[0].span.start, diags[0].span.end), (9, 12));
    assert_eq!((diags[1].span.start, diags[1].span.end), (15, 18));
}

#[test]
fn no_doubled_conjunctive_particle_ga_no_op_without_a_morphology_table() {
    assert!(run("雨だが寒いが行く", None).is_empty());
}

#[test]
fn the_ga_message_in_full() {
    let diags = run("甲が乙が", Some(vec![word(0, 3), conj_ga(3, 6), word(6, 9), conj_ga(9, 12)]));
    assert_eq!(
        diags[0].message,
        "一文に二回以上利用されている接続助詞「が」がみつかりました。\n\n逆接の「が」を一文に複数置くと係り受けが分かりにくくなります。文を分割するか、二つ目以降の「が」を別の表現に書き換えてください。"
    );
}
