use tzlint::ast::{Context, Diagnostic, NodeKind, NodeRef, Rule, Span};
use tzlint::json::{JsonMember, JsonValue};
use tzlint::morph::{Feature, FeatureKey, Token};
use tzlint::rules::ja_no_successive_word::{katakana_only, JaNoSuccessiveWord};

fn push(start: u32, end: u32, feats: &[(FeatureKey, &str)]) -> Token {
    Token {
        surface: Span::new(start, end),
        unknown: false,
        base_form: None,
        features: feats.iter().map(|(k, v)| Feature { key: *k, value: Some(v.to_string()) }).collect(),
    }
}

fn noun(start: u32, end: u32) -> Token {
    push(start, end, &[(FeatureKey::Pos, "名詞")])
}

fn kanji_num(start: u32, end: u32) -> Token {
    push(start, end, &[(FeatureKey::Pos, "名詞"), (FeatureKey::PosSub1, "数")])
}

fn particle(start: u32, end: u32) -> Token {
    push(start, end, &[(FeatureKey::Pos, "助詞")])
}

fn run<R: Rule>(rule: &R, src: &str, tokens: Option<Vec<Token>>) -> Vec<Diagnostic> {
    let mut node = NodeRef::new(NodeKind::Paragraph, Span::new(0, src.len() as u32), src.to_string());
    if let Some(ts) = tokens {
        node = node.with_tokens(ts);
    }
    let mut cx = Context::new(rule.meta());
    rule.check(&node, &mut cx);
    cx.into_diagnostics()
}

fn diagnose_with_morphology<R: Rule>(rule: &R, src: &str, tokens: Vec<Token>) -> Vec<Diagnostic> {
    run(rule, src, Some(tokens))
}

fn options(members: Vec<(&str, JsonValue)>) -> JsonValue {
    JsonValue::Object(members.into_iter().map(|(k, v)| JsonMember { key: k.to_string(), value: v }).collect())
}

fn chars(s: &str) -> Vec<char> {
    s.chars().collect()
}

#[test]
fn flags_adjacent_duplicate_noun() {
    let diags = diagnose_with_morphology(&JaNoSuccessiveWord::new(), "私私", vec![noun(0, 3), noun(3, 6)]);
    assert_eq!(diags.len(), 1, "{diags:?}");
    assert_eq!((diags[0].span.start, diags[0].span.end), (3, 6));
    assert!(diags[0].message.contains("\"私\" が連続して2回"), "{}", diags[0].message);
}

#[test]
fn different_adjacent_words_are_clean() {
    let diags = diagnose_with_morphology(
        &JaNoSuccessiveWord::new(),
        "私は彼は",
        vec![noun(0, 3), particle(3, 6), noun(6, 9), particle(9, 12)],
    );
    assert!(diags.is_empty(), "{diags:?}");
}

#[test]
fn kanji_number_duplicate_is_exempt() {
    let diags = diagnose_with_morphology(&JaNoSuccessiveWord::new(), "九九", vec![kanji_num(0, 3), kanji_num(3, 6)]);
    assert!(diags.is_empty(), "{diags:?}");
}

#[test]
fn kanji_number_exempt_only_when_both_are_numbers() {
    let diags = diagnose_with_morphology(&JaNoSuccessiveWord::new(), "九九", vec![kanji_num(0, 3), noun(3, 6)]);
    assert_eq!(diags.len(), 1, "{diags:?}");
}

#[test]
fn katakana_duplicate_is_exempt_by_default() {
    let diags = diagnose_with_morphology(&JaNoSuccessiveWord::new(), "ドキドキ", vec![noun(0, 6), noun(6, 12)]);
    assert!(diags.is_empty(), "{diags:?}");
}

#[test]
fn katakana_duplicate_flagged_when_allow_onomatopee_false() {
    let rule = JaNoSuccessiveWord::from_options(&options(vec![("allowOnomatopee", JsonValue::Bool(false))]));
    let diags = diagnose_with_morphology(&rule, "ドキドキ", vec![noun(0, 6), noun(6, 12)]);
    assert_eq!(diags.len(), 1, "{diags:?}");
    assert!(diags[0].message.contains("\"ドキ\""), "{}", diags[0].message);
}

#[test]
fn allow_list_suppresses_specific_surface() {
    let rule = JaNoSuccessiveWord::from_options(&options(vec![(
        "allow",
        JsonValue::Array(vec![JsonValue::String("の".to_string())]),
    )]));
    let diags = diagnose_with_morphology(&rule, "のの", vec![particle(0, 3), particle(3, 6)]);
    assert!(diags.is_empty(), "{diags:?}");
    let flagged = diagnose_with_morphology(&JaNoSuccessiveWord::new(), "のの", vec![particle(0, 3), particle(3, 6)]);
    assert_eq!(flagged.len(), 1);
}

#[test]
fn unknown_tokens_break_the_chain() {
    let unknown = Token { surface: Span::new(3, 4), unknown: true, base_form: None, features: vec![] };
    let diags = diagnose_with_morphology(&JaNoSuccessiveWord::new(), "私X私", vec![noun(0, 3), unknown, noun(4, 7)]);
    assert!(diags.is_empty(), "{diags:?}");
}

#[test]
fn particle_duplicate_is_flagged() {
    let diags = diagnose_with_morphology(&JaNoSuccessiveWord::new(), "のの", vec![particle(0, 3), particle(3, 6)]);
    assert_eq!(diags.len(), 1, "{diags:?}");
}

#[test]
fn three_in_a_row_flags_the_second_and_third() {
    let diags = diagnose_with_morphology(&JaNoSuccessiveWord::new(), "私私私", vec![noun(0, 3), noun(3, 6), noun(6, 9)]);
    assert_eq!(diags.len(), 2, "{diags:?}");
    assert_eq!((diags[0].span.start, diags[0].span.end), (3, 6));
    assert_eq!((diags[1].span.start, diags[1].span.end), (6, 9));
}

#[test]
fn ja_no_successive_word_no_op_without_a_morphology_table() {
    assert!(run(&JaNoSuccessiveWord::new(), "私私", None).is_empty());
}

#[test]
fn is_katakana_only_helper() {
    assert!(katakana_only(&chars("ドキ")));
    assert!(katakana_only(&chars("ワヲン")));
    assert!(katakana_only(&chars("ー")));
    assert!(!katakana_only(&chars("")));
    assert!(!katakana_only(&chars("ABC")));
    assert!(!katakana_only(&chars("私")));
    assert!(!katakana_only(&chars("ドき")));
}

#[test]
fn the_successive_message_quotes_the_word() {
    let diags = diagnose_with_morphology(&JaNoSuccessiveWord::new(), "私私", vec![noun(0, 3), noun(3, 6)]);
    assert_eq!(diags[0].message, "\"私\" が連続して2回使われています。");
}
