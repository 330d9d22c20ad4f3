use tzlint::ast::{Context, Diagnostic, NodeKind, NodeRef, Rule, Span};
use tzlint::rules::ja_no_mixed_period::JaNoMixedPeriod;
use tzlint::rules::no_mixed_zenkaku_hankaku_alphabet::NoMixedZenkakuHankakuAlphabet;

/// A one-paragraph document: `parts` are the paragraph's inline nodes in order, each given as
/// its kind and its source text (an inline code span keeps its backticks in the source).
fn paragraph_doc(parts: &[(NodeKind, &str)]) -> NodeRef {
    let mut at: u32 = 0;
    let mut children = Vec::new();
    let mut whole = String::new();
    for (kind, src) in parts {
        let len = src.len() as u32;
        let text = if *kind == NodeKind::InlineCode { src.trim_matches('`').to_string() } else { src.to_string() };
        children.push(NodeRef::new(*kind, Span::new(at, at + len), text));
        whole.push_str(src);
        at += len;
    }
    let para = NodeRef::new(NodeKind::Paragraph, Span::new(0, at), whole.clone()).with_children(children);
    NodeRef::new(NodeKind::Root, Span::new(0, at), whole).with_children(vec![para])
}

fn lint<R: Rule>(rule: &R, root: &NodeRef) -> Vec<Diagnostic> {
    let mut cx = Context::new(rule.meta());
    rule.check(root, &mut cx);
    cx.into_diagnostics()
}

fn diagnose<R: Rule>(rule: &R, src: &str) -> Vec<Diagnostic> {
    let text = src.strip_suffix('\n').unwrap_or(src);
    lint(rule, &paragraph_doc(&[(NodeKind::Text, text)]))
}

#[test]
fn flags_minority_period_style() {
    let diags = diagnose(&JaNoMixedPeriod::new(), "これは一文目。次の文。最後の文.\n");
    assert_eq!(diags.len(), 1);
    assert!(diags[0].message.contains("。"));
}

#[test]
fn flags_japanese_period_when_it_is_the_minority() {
    let diags = diagnose(&JaNoMixedPeriod::new(), "First. Second. 日本語。\n");
    assert_eq!(diags.len(), 1);
    assert!(diags[0].message.contains("."));
}

#[test]
fn single_style_is_clean() {
    assert!(diagnose(&JaNoMixedPeriod::new(), "一文目。二文目。\n").is_empty());
    assert!(diagnose(&JaNoMixedPeriod::new(), "First. Second.\n").is_empty());
}

#[test]
fn periods_inside_code_are_not_counted() {
    let doc = paragraph_doc(&[(NodeKind::InlineCode, "`x.y`"), (NodeKind::Text, " の結果。Then done.")]);
    assert_eq!(lint(&JaNoMixedPeriod::new(), &doc).len(), 1);
}

#[test]
fn decimal_dot_is_not_a_terminator() {
    assert!(diagnose(&JaNoMixedPeriod::new(), "円周率は 3.14 です。\n").is_empty());
}

#[test]
fn a_tie_flags_the_ascii_period_with_the_full_message() {
    let diags = diagnose(&JaNoMixedPeriod::new(), "一文目。Two.\n");
    assert_eq!(diags.len(), 1);
    assert_eq!((diags[0].span.start, diags[0].span.end), (15, 16));
    assert_eq!(
        diags[0].message,
        "句点の表記が混在しています。文書全体で多く使われている「。」に合わせて「.」を書き換えてください。"
    );
}

#[test]
fn periods_are_collected_across_paragraphs() {
    let p1 = NodeRef::new(NodeKind::Paragraph, Span::new(0, 6), "A. B.".to_string())
        .with_children(vec![NodeRef::new(NodeKind::Text, Span::new(0, 5), "A. B.".to_string())]);
    let p2 = NodeRef::new(NodeKind::Paragraph, Span::new(7, 13), "文。".to_string())
        .with_children(vec![NodeRef::new(NodeKind::Text, Span::new(7, 13), "文。".to_string())]);
    let root = NodeRef::new(NodeKind::Root, Span::new(0, 13), String::new()).with_children(vec![p1, p2]);
    let diags = lint(&JaNoMixedPeriod::new(), &root);
    assert_eq!(diags.len(), 1);
    assert_eq!((diags[0].span.start, diags[0].span.end), (10, 13));
}

#[test]
fn flags_minority_width() {
    let diags = diagnose(&NoMixedZenkakuHankakuAlphabet::new(), "AＢC\n");
    assert_eq!(diags.len(), 1);
    assert!(diags[0].message.contains("半角英字"));
}

#[test]
fn majority_full_width_flags_half_width() {
    let diags = diagnose(&NoMixedZenkakuHankakuAlphabet::new(), "ＡＢＣd\n");
    assert_eq!(diags.len(), 1);
    assert!(diags[0].message.contains("全角英字"));
}

#[test]
fn single_width_is_clean() {
    assert!(diagnose(&NoMixedZenkakuHankakuAlphabet::new(), "ABC\n").is_empty());
    assert!(diagnose(&NoMixedZenkakuHankakuAlphabet::new(), "ＡＢＣ\n").is_empty());
}

#[test]
fn code_is_not_counted() {
    let doc = paragraph_doc(&[(NodeKind::InlineCode, "`Ａ`"), (NodeKind::Text, "ABC")]);
    assert!(lint(&NoMixedZenkakuHankakuAlphabet::new(), &doc).is_empty());
}

#[test]
fn a_width_tie_flags_the_full_width_letter() {
    let diags = diagnose(&NoMixedZenkakuHankakuAlphabet::new(), "aＢ\n");
    assert_eq!(diags.len(), 1);
    assert_eq!((diags[0].span.start, diags[0].span.end), (1, 4));
    assert_eq!(
        diags[0].message,
        "半角英字と全角英字が混在しています。文書全体で多く使われている半角英字に統一してください。"
    );
}
