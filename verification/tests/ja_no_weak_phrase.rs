use tzlint::ast::{Context, Diagnostic, NodeKind, NodeRef, Rule, Span};
use tzlint::rules::ja_no_weak_phrase::JaNoWeakPhrase;

fn diagnose<R: Rule>(rule: &R, src: &str) -> Vec<Diagnostic> {
    let text = src.strip_suffix('\n').unwrap_or(src);
    let node = NodeRef::new(NodeKind::Paragraph, Span::new(0, text.len() as u32), text.to_string());
    let mut cx = Context::new(rule.meta());
    rule.check(&node, &mut cx);
    cx.into_diagnostics()
}

#[test]
fn flags_kamoshiremasen() {
    let diags = diagnose(&JaNoWeakPhrase::new(), "問題があるかもしれません。\n");
    assert_eq!(diags.len(), 1, "{diags:?}");
    assert!(diags[0].message.contains("かもしれ"), "{}", diags[0].message);
}

#[test]
fn flags_kamo_with_kuten() {
    let diags = diagnose(&JaNoWeakPhrase::new(), "正しいかも。\n");
    assert_eq!(diags.len(), 1, "{diags:?}");
    assert!(diags[0].message.contains("かも"), "{}", diags[0].message);
}

#[test]
fn flags_omou_base() {
    let diags = diagnose(&JaNoWeakPhrase::new(), "良いと思う。\n");
    assert_eq!(diags.len(), 1, "{diags:?}");
    assert!(diags[0].message.contains("思う"), "{}", diags[0].message);
}

#[test]
fn flags_omoimasu_not_double_reported() {
    let diags = diagnose(&JaNoWeakPhrase::new(), "良いと思います。\n");
    assert_eq!(diags.len(), 1, "{diags:?}");
    assert!(diags[0].message.contains("思います"), "{}", diags[0].message);
}

#[test]
fn flags_kanou_shisa() {
    let diags = diagnose(&JaNoWeakPhrase::new(), "バグがある可能性を示唆している。\n");
    assert_eq!(diags.len(), 1, "{diags:?}");
    assert!(diags[0].message.contains("可能性を示唆している"), "{}", diags[0].message);
}

#[test]
fn multiple_weak_phrases_in_one_node() {
    let diags = diagnose(&JaNoWeakPhrase::new(), "良いと思うがかもしれない。\n");
    assert_eq!(diags.len(), 2, "{diags:?}");
}

#[test]
fn ja_no_weak_phrase_clean_text_is_not_flagged() {
    assert!(diagnose(&JaNoWeakPhrase::new(), "この手法は有効です。\n").is_empty());
}

#[test]
fn a_longer_hit_wins_over_an_overlapping_shorter_one() {
    // かもしれ (0..12) and かも。 cannot both start at 0; in 「かも。かもしれ」 the hits are
    // ordered by start, so 「かも。」 is reported first, then 「かもしれ」.
    let diags = diagnose(&JaNoWeakPhrase::new(), "かも。かもしれ\n");
    assert_eq!(diags.len(), 2);
    assert_eq!((diags[0].span.start, diags[0].span.end), (0, 9));
    assert_eq!((diags[1].span.start, diags[1].span.end), (9, 21));
    assert_eq!(diags[0].message, "弱い表現「かも」が使われています。断言できる表現に書き換えてください。");
}
