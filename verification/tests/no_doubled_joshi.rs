use tzlint::ast::{Context, Diagnostic, NodeKind, NodeRef, Rule, Span};
use tzlint::json::{JsonMember, JsonValue};
use tzlint::morph::{Feature, FeatureKey, Token};
use tzlint::rules::no_doubled_joshi::NoDoubledJoshi;

fn token(start: u32, end: u32, flags_unknown: bool, feats: &[(FeatureKey, &str)]) -> Token {
    Token {
        surface: Span::new(start, end),
        unknown: flags_unknown,
        base_form: None,
        features: feats.iter().map(|(k, v)| Feature { key: *k, value: Some(v.to_string()) }).collect(),
    }
}

/// A 助詞 token: POS=助詞, POS_SUB_1=`subtype`.
fn joshi(start: u32, end: u32, subtype: &str) -> Token {
    token(start, end, false, &[(FeatureKey::Pos, "助詞"), (FeatureKey::PosSub1, subtype)])
}

/// A non-particle (noun) token.
fn word(start: u32, end: u32) -> Token {
    token(start, end, false, &[(FeatureKey::Pos, "名詞")])
}

fn diagnose_with_morphology<R: Rule>(rule: &R, src: &str, tokens: Vec<Token>) -> Vec<Diagnostic> {
    let node = NodeRef::new(NodeKind::Paragraph, Span::new(0, src.len() as u32), src.to_string()).with_tokens(tokens);
    let mut cx = Context::new(rule.meta());
    rule.check(&node, &mut cx);
    cx.into_diagnostics()
}

fn diagnose<R: Rule>(rule: &R, src: &str) -> Vec<Diagnostic> {
    let node = NodeRef::new(NodeKind::Paragraph, Span::new(0, src.len() as u32), src.to_string());
    let mut cx = Context::new(rule.meta());
    rule.check(&node, &mut cx);
    cx.into_diagnostics()
}

fn obj(members: Vec<(&str, JsonValue)>) -> JsonValue {
    JsonValue::Object(members.into_iter().map(|(k, v)| JsonMember { key: k.to_string(), value: v }).collect())
}

fn strings(items: &[&str]) -> JsonValue {
    JsonValue::Array(items.iter().map(|s| JsonValue::String(s.to_string())).collect())
}

fn num(n: u64) -> JsonValue {
    JsonValue::Number(tzlint::json::JsonNumber::PosInt(n))
}

#[test]
fn flags_doubled_particle() {
    let diags = diagnose_with_morphology(
        &NoDoubledJoshi::new(),
        "私は彼は",
        vec![word(0, 3), joshi(3, 6, "係助詞"), word(6, 9), joshi(9, 12, "係助詞")],
    );
    assert_eq!(diags.len(), 1);
    assert!(diags[0].message.contains("一文に二回以上利用されている助詞 \"は\""), "{}", diags[0].message);
    assert_eq!((diags[0].span.start, diags[0].span.end), (9, 12));
}

#[test]
fn exception_no_is_not_flagged() {
    let diags = diagnose_with_morphology(
        &NoDoubledJoshi::new(),
        "本のペンの色",
        vec![word(0, 3), joshi(3, 6, "連体化"), word(6, 12), joshi(12, 15, "連体化"), word(15, 18)],
    );
    assert!(diags.is_empty(), "{diags:?}");
}

#[test]
fn sentence_boundary_resets_the_window() {
    let diags = diagnose_with_morphology(
        &NoDoubledJoshi::new(),
        "私は。彼は",
        vec![word(0, 3), joshi(3, 6, "係助詞"), word(9, 12), joshi(12, 15, "係助詞")],
    );
    assert!(diags.is_empty(), "{diags:?}");
}

#[test]
fn no_doubled_joshi_no_op_without_a_morphology_table() {
    assert!(diagnose(&NoDoubledJoshi::new(), "私は彼は").is_empty());
}

#[test]
fn exception_wo_and_te_are_not_flagged() {
    let wo = diagnose_with_morphology(
        &NoDoubledJoshi::new(),
        "本を物を",
        vec![word(0, 3), joshi(3, 6, "格助詞"), word(6, 9), joshi(9, 12, "格助詞")],
    );
    assert!(wo.is_empty(), "{wo:?}");
    let te = diagnose_with_morphology(
        &NoDoubledJoshi::new(),
        "見て言て",
        vec![word(0, 3), joshi(3, 6, "接続助詞"), word(6, 9), joshi(9, 12, "接続助詞")],
    );
    assert!(te.is_empty(), "{te:?}");
}

#[test]
fn different_subtypes_are_not_doubled() {
    let diags = diagnose_with_morphology(
        &NoDoubledJoshi::new(),
        "犬と猫と",
        vec![word(0, 3), joshi(3, 6, "格助詞"), word(6, 9), joshi(9, 12, "接続助詞")],
    );
    assert!(diags.is_empty(), "{diags:?}");
}

#[test]
fn flags_doubled_de() {
    let diags = diagnose_with_morphology(
        &NoDoubledJoshi::new(),
        "車で家で",
        vec![word(0, 3), joshi(3, 6, "格助詞"), word(6, 9), joshi(9, 12, "格助詞")],
    );
    assert_eq!(diags.len(), 1);
    assert!(diags[0].message.contains("助詞 \"で\""), "{}", diags[0].message);
}

#[test]
fn parallel_particles_group_is_skipped() {
    let diags = diagnose_with_morphology(
        &NoDoubledJoshi::new(),
        "見たり聞たり",
        vec![word(0, 3), joshi(3, 9, "並立助詞"), word(9, 12), joshi(12, 18, "並立助詞")],
    );
    assert!(diags.is_empty(), "{diags:?}");
}

#[test]
fn ka_douka_pattern_is_not_flagged() {
    let diags = diagnose_with_morphology(
        &NoDoubledJoshi::new(),
        "行かどうか",
        vec![word(0, 3), joshi(3, 6, "副助詞"), word(6, 12), joshi(12, 15, "副助詞")],
    );
    assert!(diags.is_empty(), "{diags:?}");
}

#[test]
fn three_ka_flags_only_the_non_ka_douka_pair() {
    let diags = diagnose_with_morphology(
        &NoDoubledJoshi::new(),
        "見かどうか来か",
        vec![
            word(0, 3),
            joshi(3, 6, "副助詞"),
            word(6, 12),
            joshi(12, 15, "副助詞"),
            word(15, 18),
            joshi(18, 21, "副助詞"),
        ],
    );
    assert_eq!(diags.len(), 1, "{diags:?}");
    assert_eq!((diags[0].span.start, diags[0].span.end), (18, 21));
}

#[test]
fn comma_raises_interval_to_the_default_threshold() {
    let toks = || vec![word(0, 3), joshi(3, 6, "係助詞"), word(9, 12), joshi(12, 15, "係助詞")];
    let diags = diagnose_with_morphology(&NoDoubledJoshi::new(), "雨は、風は", toks());
    assert!(diags.is_empty(), "{diags:?}");
    let strict_gap = diagnose_with_morphology(
        &NoDoubledJoshi::from_options(&obj(vec![("min_interval", num(2))])),
        "雨は、風は",
        toks(),
    );
    assert_eq!(strict_gap.len(), 1);
}

#[test]
fn rengo_compound_doubled_is_flagged_but_distinct_keys_are_not() {
    let dup = diagnose_with_morphology(
        &NoDoubledJoshi::new(),
        "東京には大阪には",
        vec![
            word(0, 6),
            joshi(6, 9, "格助詞"),
            joshi(9, 12, "係助詞"),
            word(12, 18),
            joshi(18, 21, "格助詞"),
            joshi(21, 24, "係助詞"),
        ],
    );
    assert_eq!(dup.len(), 1, "{dup:?}");
    assert!(dup[0].message.contains("助詞 \"には\""), "{}", dup[0].message);
    let distinct = diagnose_with_morphology(
        &NoDoubledJoshi::new(),
        "東京に大阪には",
        vec![word(0, 6), joshi(6, 9, "格助詞"), word(9, 15), joshi(15, 18, "格助詞"), joshi(18, 21, "係助詞")],
    );
    assert!(distinct.is_empty(), "{distinct:?}");
}

#[test]
fn strict_mode_flags_exceptions() {
    let rule = NoDoubledJoshi::from_options(&obj(vec![("strict", JsonValue::Bool(true))]));
    let diags = diagnose_with_morphology(
        &rule,
        "本のペンの",
        vec![word(0, 3), joshi(3, 6, "連体化"), word(6, 12), joshi(12, 15, "連体化")],
    );
    assert_eq!(diags.len(), 1, "{diags:?}");
}

#[test]
fn allow_suppresses_a_surface() {
    let toks = || vec![word(0, 3), joshi(3, 6, "係助詞"), word(6, 9), joshi(9, 12, "係助詞")];
    let rule = NoDoubledJoshi::from_options(&obj(vec![("allow", strings(&["も"]))]));
    let diags = diagnose_with_morphology(&rule, "犬も猫も", toks());
    assert!(diags.is_empty(), "{diags:?}");
    let flagged = diagnose_with_morphology(&NoDoubledJoshi::new(), "犬も猫も", toks());
    assert_eq!(flagged.len(), 1);
}

#[test]
fn detection_is_coupled_to_the_ipadic_pos_literal() {
    let diags = diagnose_with_morphology(
        &NoDoubledJoshi::new(),
        "私は彼は",
        vec![
            word(0, 3),
            token(3, 6, false, &[(FeatureKey::Pos, "助詞-係助詞")]),
            word(6, 9),
            token(9, 12, false, &[(FeatureKey::Pos, "助詞-係助詞")]),
        ],
    );
    assert!(diags.is_empty(), "{diags:?}");
}

#[test]
fn oov_tokens_are_not_trusted() {
    let unknown = |s, e| token(s, e, true, &[(FeatureKey::Pos, "助詞"), (FeatureKey::PosSub1, "係助詞")]);
    let oov = diagnose_with_morphology(
        &NoDoubledJoshi::new(),
        "私は彼は",
        vec![word(0, 3), unknown(3, 6), word(6, 9), unknown(9, 12)],
    );
    assert!(oov.is_empty(), "{oov:?}");
    let known = diagnose_with_morphology(
        &NoDoubledJoshi::new(),
        "私は彼は",
        vec![word(0, 3), joshi(3, 6, "係助詞"), word(6, 9), joshi(9, 12, "係助詞")],
    );
    assert_eq!(known.len(), 1);
}

#[test]
fn defensive_sort_handles_unordered_tokens() {
    let diags = diagnose_with_morphology(
        &NoDoubledJoshi::new(),
        "私は彼は",
        vec![joshi(9, 12, "係助詞"), word(6, 9), joshi(3, 6, "係助詞"), word(0, 3)],
    );
    assert_eq!(diags.len(), 1);
    assert_eq!((diags[0].span.start, diags[0].span.end), (9, 12));
}

#[test]
fn message_for_a_leading_particle_omits_the_prev_word() {
    let diags = diagnose_with_morphology(
        &NoDoubledJoshi::new(),
        "は犬は",
        vec![joshi(0, 3, "係助詞"), word(3, 6), joshi(6, 9, "係助詞")],
    );
    assert_eq!(diags.len(), 1);
    assert!(diags[0].message.contains("- \"は\""), "{}", diags[0].message);
    assert!(diags[0].message.contains("- 犬\"は\""), "{}", diags[0].message);
}

#[test]
fn custom_separator_splits_sentences() {
    let src = "雨は♪風は";
    let build = || vec![word(0, 3), joshi(3, 6, "係助詞"), word(9, 12), joshi(12, 15, "係助詞")];
    let custom = NoDoubledJoshi::from_options(&obj(vec![("separator_characters", strings(&["♪"]))]));
    assert!(diagnose_with_morphology(&custom, src, build()).is_empty());
    assert_eq!(diagnose_with_morphology(&NoDoubledJoshi::new(), src, build()).len(), 1);
}

#[test]
fn custom_comma_raises_the_interval() {
    let src = "雨は・風は";
    let build = || vec![word(0, 3), joshi(3, 6, "係助詞"), word(9, 12), joshi(12, 15, "係助詞")];
    let custom = NoDoubledJoshi::from_options(&obj(vec![("comma_characters", strings(&["・"]))]));
    assert!(diagnose_with_morphology(&custom, src, build()).is_empty());
    assert_eq!(diagnose_with_morphology(&NoDoubledJoshi::new(), src, build()).len(), 1);
}

#[test]
fn a_bracket_raises_the_interval() {
    let src = "雨は(風は";
    let build = || vec![word(0, 3), joshi(3, 6, "係助詞"), word(7, 10), joshi(10, 13, "係助詞")];
    assert!(diagnose_with_morphology(&NoDoubledJoshi::new(), src, build()).is_empty());
    let strict = NoDoubledJoshi::from_options(&obj(vec![("min_interval", num(2))]));
    let diags = diagnose_with_morphology(&strict, src, build());
    assert_eq!(diags.len(), 1);
    assert_eq!((diags[0].span.start, diags[0].span.end), (10, 13));
}

#[test]
fn flags_a_subtype_less_particle() {
    let bare = |s, e| token(s, e, false, &[(FeatureKey::Pos, "助詞")]);
    let diags = diagnose_with_morphology(
        &NoDoubledJoshi::new(),
        "私さ彼さ",
        vec![word(0, 3), bare(3, 6), word(6, 9), bare(9, 12)],
    );
    assert_eq!(diags.len(), 1, "{diags:?}");
    assert_eq!((diags[0].span.start, diags[0].span.end), (9, 12));
}

#[test]
fn each_sentence_flags_its_own_repeat() {
    let diags = diagnose_with_morphology(
        &NoDoubledJoshi::new(),
        "猫は犬は。魚も鳥も",
        vec![
            word(0, 3),
            joshi(3, 6, "係助詞"),
            word(6, 9),
            joshi(9, 12, "係助詞"),
            word(15, 18),
            joshi(18, 21, "係助詞"),
            word(21, 24),
            joshi(24, 27, "係助詞"),
        ],
    );
    assert_eq!(diags.len(), 2, "{diags:?}");
    assert!(diags.iter().any(|d| d.span.end <= 12), "{diags:?}");
    assert!(diags.iter().any(|d| d.span.start >= 15), "{diags:?}");
}

#[test]
fn same_particle_across_distant_sentences_is_not_paired() {
    let diags = diagnose_with_morphology(
        &NoDoubledJoshi::new(),
        "口。猫は。犬は",
        vec![word(0, 3), word(6, 9), joshi(9, 12, "係助詞"), word(15, 18), joshi(18, 21, "係助詞")],
    );
    assert!(diags.is_empty(), "{diags:?}");
}

#[test]
fn the_full_message_lists_both_occurrences() {
    let diags = diagnose_with_morphology(
        &NoDoubledJoshi::new(),
        "私は彼は",
        vec![word(0, 3), joshi(3, 6, "係助詞"), word(6, 9), joshi(9, 12, "係助詞")],
    );
    assert_eq!(
        diags[0].message,
        "一文に二回以上利用されている助詞 \"は\" がみつかりました。\n\n次の助詞が連続しているため、文を読みにくくしています。\n\n- 私\"は\"\n- 彼\"は\"\n\n同じ助詞を連続して利用しない、文の中で順番を入れ替える、文を分割するなどを検討してください。"
    );
}

#[test]
fn groups_report_in_key_order_within_a_sentence() {
    // Two groups in one sentence: も (U+3082) sorts after は (U+306F), so the は pair comes first
    // even though the も pair closes earlier in the text.
    let diags = diagnose_with_morphology(
        &NoDoubledJoshi::new(),
        "犬も猫も鳥は魚は",
        vec![
            word(0, 3),
            joshi(3, 6, "係助詞"),
            word(6, 9),
            joshi(9, 12, "係助詞"),
            word(12, 15),
            joshi(15, 18, "係助詞"),
            word(18, 21),
            joshi(21, 24, "係助詞"),
        ],
    );
    assert_eq!(diags.len(), 2);
    assert_eq!((diags[0].span.start, diags[1].span.start), (21, 9));
}

#[test]
fn raising_min_interval_keeps_reports() {
    let src = "私は、彼は";
    let tokens = || vec![word(0, 3), joshi(3, 6, "係助詞"), word(6, 9), word(9, 12), joshi(12, 15, "係助詞")];
    let low = NoDoubledJoshi::from_options(&obj(vec![("min_interval", num(1))]));
    let high = NoDoubledJoshi::from_options(&obj(vec![("min_interval", num(2))]));
    let a = diagnose_with_morphology(&low, src, tokens());
    let b = diagnose_with_morphology(&high, src, tokens());
    assert!(a.is_empty());
    assert_eq!(b.len(), 1);
    assert_eq!((b[0].span.start, b[0].span.end), (12, 15));
}
