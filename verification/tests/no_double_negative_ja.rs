use tzlint::ast::{Context, Diagnostic, NodeKind, NodeRef, Rule, Span};
use tzlint::morph::{Feature, FeatureKey, Token};
use tzlint::rules::no_double_negative_ja::NoDoubleNegativeJa;

fn push(start: u32, end: u32, base: Option<&str>, feats: &[(FeatureKey, &str)]) -> Token {
    Token {
        surface: Span::new(start, end),
        unknown: false,
        base_form: base.map(|b| b.to_string()),
        features: feats.iter().map(|(k, v)| Feature { key: *k, value: Some(v.to_string()) }).collect(),
    }
}

fn word(start: u32, end: u32) -> Token {
    push(start, end, None, &[(FeatureKey::Pos, "名詞")])
}

fn nai_aux(start: u32, end: u32) -> Token {
    push(start, end, Some("ない"), &[(FeatureKey::Pos, "助動詞")])
}

fn nai_adj(start: u32, end: u32) -> Token {
    push(start, end, Some("ない"), &[(FeatureKey::Pos, "形容詞")])
}

fn wa(start: u32, end: u32) -> Token {
    push(start, end, None, &[(FeatureKey::Pos, "助詞"), (FeatureKey::PosSub1, "係助詞")])
}

fn run(src: &str, tokens: Option<Vec<Token>>) -> Vec<Diagnostic> {
    let rule = NoDoubleNegativeJa::new();
    let mut node = NodeRef::new(NodeKind::Paragraph, Span::new(0, src.len() as u32), src.to_string());
    if let Some(ts) = tokens {
        node = node.with_tokens(ts);
    }
    let mut cx = Context::new(rule.meta());
    rule.check(&node, &mut cx);
    cx.into_diagnostics()
}

#[test]
fn flags_nai_koto_wa_nai() {
    let diags = run("ないことはない", Some(vec![nai_aux(0, 6), word(6, 12), wa(12, 15), nai_adj(15, 21)]));
    assert_eq!(diags.len(), 1, "{diags:?}");
    assert_eq!((diags[0].span.start, diags[0].span.end), (12, 21));
    assert!(diags[0].message.contains("二重否定"), "{}", diags[0].message);
}

#[test]
fn flags_naku_wa_nai() {
    let diags = run("なくはない", Some(vec![nai_adj(0, 6), wa(6, 9), nai_adj(9, 15)]));
    assert_eq!(diags.len(), 1, "{diags:?}");
    assert_eq!((diags[0].span.start, diags[0].span.end), (6, 15));
}

#[test]
fn a_single_negation_with_wa_is_clean() {
    let diags = run("問題はない", Some(vec![word(0, 6), wa(6, 9), nai_aux(9, 15)]));
    assert!(diags.is_empty(), "{diags:?}");
}

#[test]
fn a_lone_negation_is_clean() {
    let diags = run("行かない", Some(vec![push(0, 6, Some("行く"), &[(FeatureKey::Pos, "動詞")]), nai_aux(6, 12)]));
    assert!(diags.is_empty(), "{diags:?}");
}

#[test]
fn a_sentence_boundary_separates_two_negatives() {
    let diags = run(
        "行かない。問題はない",
        Some(vec![
            push(0, 6, Some("行く"), &[(FeatureKey::Pos, "動詞")]),
            nai_aux(6, 12),
            word(15, 21),
            wa(21, 24),
            nai_aux(24, 30),
        ]),
    );
    assert!(diags.is_empty(), "{diags:?}");
}

#[test]
fn no_double_negative_ja_no_op_without_a_morphology_table() {
    assert!(run("ないことはない", None).is_empty());
}

#[test]
fn the_double_negative_message_in_full() {
    let diags = run("なくはない", Some(vec![nai_adj(0, 6), wa(6, 9), nai_adj(9, 15)]));
    assert_eq!(
        diags[0].message,
        "二重否定がみつかりました。\n\n否定の否定はまわりくどく読みにくいので、肯定の表現に言い換えられないか検討してください（例: できないことはない → できる）。"
    );
}
