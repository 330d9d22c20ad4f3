use tzlint::ast::{Context, Diagnostic, NodeKind, NodeRef, Rule, Span};
use tzlint::rules::ja_unnatural_alphabet::{is_allowed, is_alphabet, is_japanese, to_ascii_lower, JaUnnaturalAlphabet};

fn diagnose<R: Rule>(rule: &R, src: &str) -> Vec<Diagnostic> {
    let text = src.strip_suffix('\n').unwrap_or(src);
    let node = NodeRef::new(NodeKind::Paragraph, Span::new(0, text.len() as u32), text.to_string());
    let mut cx = Context::new(rule.meta());
    rule.check(&node, &mut cx);
    cx.into_diagnostics()
}

fn rule() -> JaUnnaturalAlphabet {
    JaUnnaturalAlphabet::new()
}

#[test]
fn flags_isolated_lowercase_between_japanese() {
    let diags = diagnose(&rule(), "リイrース\n");
    assert_eq!(diags.len(), 1, "{diags:?}");
    assert!(diags[0].message.contains("不自然なアルファベット"), "{}", diags[0].message);
}

#[test]
fn flags_fullwidth_isolated_lowercase() {
    let diags = diagnose(&rule(), "対応でｋない\n");
    assert_eq!(diags.len(), 1, "{diags:?}");
}

#[test]
fn flags_stray_b_between_japanese() {
    let diags = diagnose(&rule(), "あbい\n");
    assert_eq!(diags.len(), 1, "{diags:?}");
}

#[test]
fn allows_vowels() {
    assert!(diagnose(&rule(), "あaい\n").is_empty(), "a is allowed");
    assert!(diagnose(&rule(), "あiい\n").is_empty(), "i is allowed");
    assert!(diagnose(&rule(), "あuい\n").is_empty(), "u is allowed");
    assert!(diagnose(&rule(), "あeい\n").is_empty(), "e is allowed");
    assert!(diagnose(&rule(), "あoい\n").is_empty(), "o is allowed");
}

#[test]
fn allows_n() {
    assert!(diagnose(&rule(), "あnい\n").is_empty(), "n is allowed");
}

#[test]
fn allows_uppercase_letters() {
    assert!(diagnose(&rule(), "あAい\n").is_empty(), "A is allowed");
    assert!(diagnose(&rule(), "あZい\n").is_empty(), "Z is allowed");
    assert!(diagnose(&rule(), "あBい\n").is_empty(), "B is allowed");
}

#[test]
fn allows_fullwidth_uppercase() {
    assert!(diagnose(&rule(), "あＡい\n").is_empty(), "Ａ (full-width) is allowed");
}

#[test]
fn allows_letter_before_gengo() {
    assert!(diagnose(&rule(), "ではC言語を\n").is_empty(), "C言語 is allowed");
    assert!(diagnose(&rule(), "ではr言語を\n").is_empty(), "r言語 is allowed");
}

#[test]
fn allows_xyz_axis_notation() {
    assert!(diagnose(&rule(), "はx軸で\n").is_empty(), "x軸 is allowed");
    assert!(diagnose(&rule(), "はy座標で\n").is_empty(), "y座標 is allowed");
    assert!(diagnose(&rule(), "はz軸で\n").is_empty(), "z軸 is allowed");
}

#[test]
fn alphabet_at_edge_not_sandwiched() {
    assert!(diagnose(&rule(), "rはじまり\n").is_empty());
    assert!(diagnose(&rule(), "おわりr\n").is_empty());
}

#[test]
fn non_japanese_neighbour_not_flagged() {
    assert!(diagnose(&rule(), "API\n").is_empty());
    assert!(diagnose(&rule(), "hello world\n").is_empty());
}

#[test]
fn span_points_at_the_offending_character() {
    let diags = diagnose(&rule(), "あbい\n");
    assert_eq!(diags.len(), 1);
    assert_eq!((diags[0].span.start, diags[0].span.end), (3, 4), "{diags:?}");
}

#[test]
fn character_helpers() {
    assert_eq!(to_ascii_lower('Ｋ'), 'k');
    assert_eq!(to_ascii_lower('ｋ'), 'k');
    assert_eq!(to_ascii_lower('Q'), 'q');
    assert_eq!(to_ascii_lower('あ'), 'あ');
    assert!(is_alphabet('ｚ') && !is_alphabet('1'));
    assert!(is_japanese('々') && is_japanese('ｱ') && !is_japanese('a'));
    assert!(is_allowed('ｙ', '座') && !is_allowed('b', '座'));
    assert_eq!(
        diagnose(&rule(), "あbい\n")[0].message,
        "不自然なアルファベットがあります: b\n\nIMEの入力ミスの可能性があります。意図した文字であれば無視してください。"
    );
}
