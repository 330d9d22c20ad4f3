use tzlint::ast::{Context, Diagnostic, NodeKind, NodeRef, Rule, Span};
use tzlint::morph::{Feature, FeatureKey, Token};
use tzlint::rules::no_doubled_conjunction::NoDoubledConjunction;

fn push(start: u32, end: u32, feats: &[(FeatureKey, &str)]) -> Token {
    Token {
        surface: Span::new(start, end),
        unknown: false,
        base_form: None,
        features: feats.iter().map(|(k, v)| Feature { key: *k, value: Some(v.to_string()) }).collect(),
    }
}

fn word(start: u32, end: u32) -> Token {
    push(start, end, &[(FeatureKey::Pos, "名詞")])
}

fn conjunction(start: u32, end: u32) -> Token {
    push(start, end, &[(FeatureKey::Pos, "接続詞")])
}

fn whitespace(start: u32, end: u32) -> Token {
    push(start, end, &[(FeatureKey::Pos, "記号"), (FeatureKey::PosSub1, "空白")])
}

fn run(src: &str, tokens: Option<Vec<Token>>) -> Vec<Diagnostic> {
    let rule = NoDoubledConjunction::new();
    let mut node = NodeRef::new(NodeKind::Paragraph, Span::new(0, src.len() as u32), src.to_string());
    if let Some(ts) = tokens {
        node = node.with_tokens(ts);
    }
    let mut cx = Context::new(rule.meta());
    rule.check(&node, &mut cx);
    cx.into_diagnostics()
}

fn diagnose_with_morphology(src: &str, tokens: Vec<Token>) -> Vec<Diagnostic> {
    run(src, Some(tokens))
}

#[test]
fn flags_repeated_conjunction_in_consecutive_sentences() {
    let diags = diagnose_with_morphology(
        "しかし、A。しかし、B",
        vec![conjunction(0, 9), word(9, 12), word(12, 13), conjunction(16, 25), word(25, 28), word(28, 29)],
    );
    assert_eq!(diags.len(), 1, "{diags:?}");
    assert_eq!((diags[0].span.start, diags[0].span.end), (16, 25));
    assert!(diags[0].message.contains("同じ接続詞（しかし）"), "{}", diags[0].message);
}

#[test]
fn different_conjunctions_are_clean() {
    let diags = diagnose_with_morphology(
        "しかし、A。でも、B",
        vec![conjunction(0, 9), word(9, 15), conjunction(18, 21), word(21, 27)],
    );
    assert!(diags.is_empty(), "{diags:?}");
}

#[test]
fn single_sentence_is_clean() {
    let diags = diagnose_with_morphology("しかし、A", vec![conjunction(0, 9), word(9, 15)]);
    assert!(diags.is_empty(), "{diags:?}");
}

#[test]
fn sentence_with_no_conjunction_breaks_the_chain() {
    let diags = diagnose_with_morphology(
        "しかし A。B。しかし C",
        vec![conjunction(0, 9), word(9, 11), word(14, 15), conjunction(18, 27), word(27, 29)],
    );
    assert_eq!(diags.len(), 1, "{diags:?}");
}

#[test]
fn whitespace_preceded_conjunction_is_skipped() {
    let diags = diagnose_with_morphology(
        "A しかし。B しかし",
        vec![word(0, 1), whitespace(1, 2), conjunction(2, 11), word(14, 15), whitespace(15, 16), conjunction(16, 25)],
    );
    assert!(diags.is_empty(), "{diags:?}");
}

#[test]
fn three_consecutive_flags_each_repeat() {
    let diags = diagnose_with_morphology(
        "しかし A。しかし B。しかし C",
        vec![conjunction(0, 9), word(9, 11), conjunction(14, 23), word(23, 25), conjunction(28, 37), word(37, 39)],
    );
    assert_eq!(diags.len(), 2, "{diags:?}");
    assert_eq!((diags[0].span.start, diags[0].span.end), (14, 23));
    assert_eq!((diags[1].span.start, diags[1].span.end), (28, 37));
}

#[test]
fn broken_run_resets_the_memory() {
    let diags = diagnose_with_morphology(
        "しかし A。でも B。しかし C",
        vec![conjunction(0, 9), word(9, 11), conjunction(14, 17), word(17, 19), conjunction(22, 31), word(31, 33)],
    );
    assert!(diags.is_empty(), "{diags:?}");
}

#[test]
fn no_doubled_conjunction_no_op_without_a_morphology_table() {
    assert!(run("しかし A。しかし B", None).is_empty());
}

#[test]
fn the_conjunction_message_names_the_word() {
    let diags = diagnose_with_morphology(
        "しかし、A。しかし、B",
        vec![conjunction(0, 9), word(9, 12), word(12, 13), conjunction(16, 25), word(25, 28), word(28, 29)],
    );
    assert_eq!(diags[0].message, "同じ接続詞（しかし）が連続して使われています。");
}
