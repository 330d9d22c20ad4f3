use tzlint::ast::{Context, Diagnostic, NodeKind, NodeRef, Rule, Span};
use tzlint::json::{JsonMember, JsonValue};
use tzlint::rules::no_unmatched_pair::{pair_with_end, pair_with_start, NoUnmatchedPair};

fn diagnose<R: Rule>(rule: &R, src: &str) -> Vec<Diagnostic> {
    let text = src.strip_suffix('\n').unwrap_or(src);
    let node = NodeRef::new(NodeKind::Text, Span::new(0, text.len() as u32), text.to_string());
    let mut cx = Context::new(rule.meta());
    rule.check(&node, &mut cx);
    cx.into_diagnostics()
}

fn strict() -> NoUnmatchedPair {
    NoUnmatchedPair::from_options(&JsonValue::Object(vec![JsonMember {
        key: "detectOrphanedClosers".to_string(),
        value: JsonValue::Bool(true),
    }]))
}

#[test]
fn matched_ascii_parens_pass() {
    assert!(diagnose(&NoUnmatchedPair::new(), "これは(秘密)です。\n").is_empty());
}

#[test]
fn matched_ja_parens_pass() {
    assert!(diagnose(&NoUnmatchedPair::new(), "これは（秘密）です。\n").is_empty());
}

#[test]
fn matched_kagi_brackets_pass() {
    assert!(diagnose(&NoUnmatchedPair::new(), "「こんにちは」と言った。\n").is_empty());
}

#[test]
fn nested_matching_pairs_pass() {
    assert!(diagnose(&NoUnmatchedPair::new(), "（これは「秘密」です）。\n").is_empty());
}

#[test]
fn matched_double_quote_passes() {
    assert!(diagnose(&NoUnmatchedPair::new(), "He said \"hello\".\n").is_empty());
}

#[test]
fn matched_square_brackets_pass() {
    assert!(diagnose(&NoUnmatchedPair::new(), "See [here] for details.\n").is_empty());
}

#[test]
fn guillemet_pairs_pass() {
    assert!(diagnose(&NoUnmatchedPair::new(), "«hello»\n").is_empty());
    assert!(diagnose(&NoUnmatchedPair::new(), "‹world›\n").is_empty());
}

#[test]
fn unclosed_ja_opener_is_flagged() {
    let diags = diagnose(&NoUnmatchedPair::new(), "これは（秘密です。\n");
    assert_eq!(diags.len(), 1, "{diags:?}");
    assert!(diags[0].message.contains("閉じ括弧がありません"));
}

#[test]
fn unclosed_square_bracket_opener_is_flagged() {
    assert_eq!(diagnose(&NoUnmatchedPair::new(), "See [here for details.\n").len(), 1);
}

#[test]
fn unclosed_double_quote_opener_is_flagged() {
    assert_eq!(diagnose(&NoUnmatchedPair::new(), "He said \"hello.\n").len(), 1);
}

#[test]
fn lone_closer_is_ignored_by_default() {
    assert!(diagnose(&NoUnmatchedPair::new(), "秘密）です。\n").is_empty());
}

#[test]
fn lone_ja_quote_closer_is_ignored_by_default() {
    assert!(diagnose(&NoUnmatchedPair::new(), "重要」です。\n").is_empty());
}

#[test]
fn crossing_nesting_is_not_flagged() {
    assert!(diagnose(&NoUnmatchedPair::new(), "（「秘密）」です。\n").is_empty());
    assert!(diagnose(&strict(), "（「秘密）」です。\n").is_empty());
}

#[test]
fn second_opener_of_same_type_is_ignored() {
    assert!(diagnose(&NoUnmatchedPair::new(), "（（秘密）です。\n").is_empty());
}

#[test]
fn ascii_closer_does_not_close_fullwidth_opener() {
    let diags = diagnose(&NoUnmatchedPair::new(), "（秘密)\n");
    assert_eq!(diags.len(), 1, "{diags:?}");
}

#[test]
fn orphaned_ja_quote_closer_flagged_when_enabled() {
    let diags = diagnose(&strict(), "重要」です。\n");
    assert_eq!(diags.len(), 1, "{diags:?}");
    assert!(diags[0].message.contains("開き括弧がありません"));
}

#[test]
fn orphaned_corner_bracket_closer_flagged_when_enabled() {
    let diags = diagnose(&strict(), "注意】を確認する。\n");
    assert_eq!(diags.len(), 1, "{diags:?}");
}

#[test]
fn enumeration_markers_not_flagged_even_when_enabled() {
    assert!(diagnose(&strict(), "手順は1) 準備 2) 実行 3) 確認 です。\n").is_empty());
    assert!(diagnose(&strict(), "選択肢は（1）と2）があります。\n").is_empty());
}

#[test]
fn matched_quotes_still_pass_when_enabled() {
    assert!(diagnose(&strict(), "彼は「了解」と言った。\n").is_empty());
}

#[test]
fn unclosed_and_orphan_messages_and_spans() {
    let diags = diagnose(&NoUnmatchedPair::new(), "ab（cd\n");
    assert_eq!((diags[0].span.start, diags[0].span.end), (2, 5));
    assert_eq!(diags[0].message, "「（」に対応する閉じ括弧がありません（全角丸括弧（））。");
    let orphan = diagnose(&strict(), "x」\n");
    assert_eq!((orphan[0].span.start, orphan[0].span.end), (1, 4));
    assert_eq!(orphan[0].message, "「」」に対応する開き括弧がありません（かぎ括弧「」）。");
}

#[test]
fn unclosed_openers_are_reported_in_opening_order() {
    let diags = diagnose(&NoUnmatchedPair::new(), "「（\n");
    assert_eq!(diags.len(), 2);
    assert_eq!((diags[0].span.start, diags[1].span.start), (0, 3));
}

#[test]
fn pair_lookup_covers_symmetric_quote() {
    assert_eq!(pair_with_start('"'), Some(0));
    assert_eq!(pair_with_end('"'), Some(0));
    assert_eq!(pair_with_start('）'), None);
    assert_eq!(pair_with_end('）'), Some(5));
    assert_eq!(pair_with_start('‹'), Some(12));
}
