use tzlint::ast::{Context, Diagnostic, NodeKind, NodeRef, Rule, Span};
use tzlint::json::{JsonMember, JsonNumber, JsonValue};
use tzlint::rules::max_comma::MaxComma;
use tzlint::rules::max_kanji_continuous_len::MaxKanjiContinuousLen;
use tzlint::rules::max_ten::MaxTen;
use tzlint::rules::no_exclamation_question_mark::NoExclamationQuestionMark;
use tzlint::rules::no_hankaku_kana::NoHankakuKana;
use tzlint::rules::no_invalid_control_character::NoInvalidControlCharacter;
use tzlint::rules::no_nfd::NoNfd;
use tzlint::rules::no_zero_width_spaces::NoZeroWidthSpaces;
use tzlint::rules::sentence_length::{SentenceLength, DEFAULT_MAX};

/// Run `rule` over a one-paragraph document whose text is `src` (without its final newline).
fn diagnose<R: Rule>(rule: &R, src: &str) -> Vec<Diagnostic> {
    let text = src.strip_suffix('\n').unwrap_or(src);
    let node = NodeRef::new(NodeKind::Paragraph, Span::new(0, text.len() as u32), text.to_string());
    let mut cx = Context::new(rule.meta());
    rule.check(&node, &mut cx);
    cx.into_diagnostics()
}

fn obj(members: Vec<(&str, JsonValue)>) -> JsonValue {
    JsonValue::Object(
        members
            .into_iter()
            .map(|(k, v)| JsonMember { key: k.to_string(), value: v })
            .collect(),
    )
}

fn num(n: u64) -> JsonValue {
    JsonValue::Number(JsonNumber::PosInt(n))
}

fn string(s: &str) -> JsonValue {
    JsonValue::String(s.to_string())
}

// --- max-ten ---

#[test]
fn max_ten_flags_too_many_commas() {
    let rule = MaxTen::new();
    let diags = diagnose(&rule, "あ、い、う、え、お。\n");
    assert_eq!(diags.len(), 1);
    assert!(diags[0].message.contains("上限は 3 個"));
}

#[test]
fn max_ten_within_limit_passes() {
    assert!(diagnose(&MaxTen::new(), "あ、い、う。\n").is_empty());
    assert!(diagnose(&MaxTen::new(), "あ、い、う、え。\n").is_empty());
}

#[test]
fn max_ten_trailing_sentence_without_kuten_is_checked() {
    let diags = diagnose(&MaxTen::new(), "あ、い、う、え、お\n");
    assert_eq!(diags.len(), 1);
}

#[test]
fn from_options_overrides() {
    let rule = MaxTen::from_options(&obj(vec![("max", num(1))]));
    assert_eq!(diagnose(&rule, "あ、い、う。\n").len(), 1);
    assert!(diagnose(&rule, "あ、い。\n").is_empty());
    assert_eq!(MaxTen::from_options(&obj(vec![("touten", string(","))])).touten, ',');
    assert_eq!(MaxTen::from_options(&obj(vec![("kuten", string("."))])).kuten, '.');
}

#[test]
fn max_ten_message_and_span_are_exact() {
    let diags = diagnose(&MaxTen::new(), "あ、い、う、え、お。次。\n");
    assert_eq!(diags.len(), 1);
    assert_eq!(diags[0].message, "一文に「、」が 4 個あります。上限は 3 個です。");
    assert_eq!((diags[0].span.start, diags[0].span.end), (0, 30));
    assert_eq!(diags[0].rule_id, "max-ten");
}

// --- max-comma ---

#[test]
fn max_comma_flags_too_many_commas() {
    let rule = MaxComma::new();
    let diags = diagnose(&rule, "a,b,c,d,e,f。\n");
    assert_eq!(diags.len(), 1);
    assert!(diags[0].message.contains("上限は 4 個"));
}

#[test]
fn max_comma_within_limit_passes() {
    let rule = MaxComma::new();
    assert!(diagnose(&rule, "a,b,c,d,e。\n").is_empty());
    assert!(diagnose(&rule, "a,b,c。\n").is_empty());
}

#[test]
fn max_comma_trailing_sentence_without_kuten_is_checked() {
    let diags = diagnose(&MaxComma::new(), "a,b,c,d,e,f\n");
    assert_eq!(diags.len(), 1);
}

#[test]
fn multiple_sentences_each_checked_independently() {
    let rule = MaxComma::new();
    let diags = diagnose(&rule, "a,b,c,d,e,f。g,h,i。\n");
    assert_eq!(diags.len(), 1);
}

#[test]
fn from_options_overrides_max() {
    let rule = MaxComma::from_options(&obj(vec![("max", num(2))]));
    assert_eq!(diagnose(&rule, "a,b,c,d。\n").len(), 1);
    assert!(diagnose(&rule, "a,b,c。\n").is_empty());
}

// --- no-nfd ---

#[test]
fn flags_decomposed_text() {
    assert_eq!(diagnose(&NoNfd::new(), "か\u{3099}\n").len(), 1);
}

#[test]
fn flags_a_mark_from_every_configured_range() {
    for cp in [0x0300u32, 0x1AB0, 0x1DC0, 0x20D0, 0xFE20, 0x3099] {
        let mark = char::from_u32(cp).unwrap();
        let src = format!("a{mark}\n");
        assert_eq!(diagnose(&NoNfd::new(), &src).len(), 1, "U+{cp:04X}");
    }
}

#[test]
fn precomposed_text_is_clean() {
    assert!(diagnose(&NoNfd::new(), "がぎ漢字\n").is_empty());
}

#[test]
fn no_nfd_message_names_the_codepoint() {
    let diags = diagnose(&NoNfd::new(), "か\u{3099}\n");
    assert_eq!(diags[0].message, "Combining mark U+3099 detected; normalize text to NFC.");
    assert_eq!((diags[0].span.start, diags[0].span.end), (3, 6));
}

// --- no-zero-width-spaces ---

#[test]
fn flags_zero_width_space() {
    assert_eq!(diagnose(&NoZeroWidthSpaces::new(), "hello\u{200B}world\n").len(), 1);
}

#[test]
fn no_zero_width_spaces_plain_text_is_clean() {
    assert!(diagnose(&NoZeroWidthSpaces::new(), "ふつうの文章\n").is_empty());
}

#[test]
fn no_zero_width_spaces_message_pads_the_codepoint() {
    let diags = diagnose(&NoZeroWidthSpaces::new(), "a\u{FEFF}\n");
    assert_eq!(diags[0].message, "Invisible codepoint U+FEFF is not allowed in prose.");
    assert_eq!((diags[0].span.start, diags[0].span.end), (1, 4));
}

// --- no-invalid-control-character ---

#[test]
fn flags_nul_byte() {
    assert_eq!(diagnose(&NoInvalidControlCharacter::new(), "hello\u{0000}world\n").len(), 1);
}

#[test]
fn flags_c0_control_characters() {
    for cp in 0x01u32..=0x08 {
        let c = char::from_u32(cp).unwrap();
        let src = format!("a{c}b\n");
        assert_eq!(diagnose(&NoInvalidControlCharacter::new(), &src).len(), 1, "U+{cp:04X}");
    }
    for cp in [0x0Bu32, 0x0C] {
        let c = char::from_u32(cp).unwrap();
        let src = format!("a{c}b\n");
        assert_eq!(diagnose(&NoInvalidControlCharacter::new(), &src).len(), 1, "U+{cp:04X}");
    }
    for cp in 0x0Eu32..=0x1F {
        let c = char::from_u32(cp).unwrap();
        let src = format!("a{c}b\n");
        assert_eq!(diagnose(&NoInvalidControlCharacter::new(), &src).len(), 1, "U+{cp:04X}");
    }
}

#[test]
fn flags_del() {
    assert_eq!(diagnose(&NoInvalidControlCharacter::new(), "a\u{007F}b\n").len(), 1);
}

#[test]
fn flags_c1_controls() {
    for cp in [0x80u32, 0x85, 0x9F] {
        let c = char::from_u32(cp).unwrap();
        let src = format!("a{c}b\n");
        assert_eq!(diagnose(&NoInvalidControlCharacter::new(), &src).len(), 1, "U+{cp:04X}");
    }
}

#[test]
fn flags_bidi_formatting_characters() {
    assert_eq!(diagnose(&NoInvalidControlCharacter::new(), "a\u{202E}b\n").len(), 1);
    assert_eq!(diagnose(&NoInvalidControlCharacter::new(), "a\u{202A}b\n").len(), 1);
}

#[test]
fn allows_tab_lf_cr() {
    assert!(diagnose(&NoInvalidControlCharacter::new(), "col1\tcol2\n").is_empty());
    assert!(diagnose(&NoInvalidControlCharacter::new(), "line1\nline2\n").is_empty());
    assert!(diagnose(&NoInvalidControlCharacter::new(), "text\r\n").is_empty());
}

#[test]
fn no_invalid_control_character_plain_text_is_clean() {
    assert!(diagnose(&NoInvalidControlCharacter::new(), "普通の文章です。Normal text here.\n").is_empty());
}

#[test]
fn invalid_control_message_is_exact() {
    let diags = diagnose(&NoInvalidControlCharacter::new(), "a\u{001B}b\n");
    assert_eq!(diags[0].message, "不正なコントロール文字 U+001B が含まれています。");
}

// --- no-exclamation-question-mark ---

#[test]
fn flags_all_marks_by_default() {
    let diags = diagnose(&NoExclamationQuestionMark::new(), "すごい！ほんと?\n");
    assert_eq!(diags.len(), 2);
}

#[test]
fn allow_options_suppress_specific_marks() {
    let rule = NoExclamationQuestionMark::from_options(&obj(vec![(
        "allow_fullwidth_exclamation",
        JsonValue::Bool(true),
    )]));
    assert_eq!(diagnose(&rule, "やった！でも本当に?\n").len(), 1);
}

#[test]
fn flags_each_of_the_four_marks() {
    assert_eq!(diagnose(&NoExclamationQuestionMark::new(), "!！?？\n").len(), 4);
}

#[test]
fn each_mark_can_be_individually_allowed() {
    let rule = NoExclamationQuestionMark::from_options(&obj(vec![
        ("allow_halfwidth_exclamation", JsonValue::Bool(true)),
        ("allow_fullwidth_exclamation", JsonValue::Bool(true)),
        ("allow_halfwidth_question", JsonValue::Bool(true)),
        ("allow_fullwidth_question", JsonValue::Bool(true)),
    ]));
    assert!(diagnose(&rule, "!！?？\n").is_empty());
}

#[test]
fn no_exclamation_question_mark_plain_text_is_clean() {
    assert!(diagnose(&NoExclamationQuestionMark::new(), "ふつうの文。\n").is_empty());
}

#[test]
fn exclamation_message_quotes_the_mark() {
    let diags = diagnose(&NoExclamationQuestionMark::new(), "あ！\n");
    assert_eq!(diags[0].message, "「！」は技術文書では使用を避けてください。");
    assert_eq!((diags[0].span.start, diags[0].span.end), (3, 6));
}

// --- sentence-length ---

#[test]
fn flags_over_limit_sentence() {
    let rule = SentenceLength { max: 10, skip_urls: true, ..SentenceLength::new() };
    let diags = diagnose(&rule, "これはとても長い一文なので警告されます。\n");
    assert_eq!(diags.len(), 1);
    assert!(diags[0].message.contains("too long"));
}

#[test]
fn exactly_max_passes() {
    let rule = SentenceLength { max: 5, skip_urls: true, ..SentenceLength::new() };
    assert!(diagnose(&rule, "12345").is_empty());
}

#[test]
fn urls_collapse_to_one_char() {
    let input = "see https://example.com/very/long/path now";
    let lenient = SentenceLength { max: 12, skip_urls: true, ..SentenceLength::new() };
    assert!(diagnose(&lenient, input).is_empty());
    let strict = SentenceLength { max: 12, skip_urls: false, ..SentenceLength::new() };
    assert!(!diagnose(&strict, input).is_empty());
}

#[test]
fn from_options_is_lenient() {
    assert_eq!(SentenceLength::from_options(&obj(vec![("max", num(5))])).max, 5);
    assert!(!SentenceLength::from_options(&obj(vec![("skip_urls", JsonValue::Bool(false))])).skip_urls);
    assert_eq!(SentenceLength::from_options(&obj(vec![("max", string("x"))])).max, DEFAULT_MAX);
    assert_eq!(SentenceLength::from_options(&JsonValue::Null).max, DEFAULT_MAX);
}

#[test]
fn sentence_length_message_counts_characters() {
    let rule = SentenceLength { max: 3, skip_urls: true, ..SentenceLength::new() };
    let diags = diagnose(&rule, "abcd. ab.\n");
    assert_eq!(diags.len(), 1);
    assert_eq!(diags[0].message, "Sentence is too long (5 characters). Maximum allowed is 3.");
    assert_eq!((diags[0].span.start, diags[0].span.end), (0, 9));
}

// --- max-kanji-continuous-len ---

#[test]
fn flags_run_over_limit() {
    let rule = MaxKanjiContinuousLen::from_options(&obj(vec![("max", num(6))]));
    assert_eq!(diagnose(&rule, "一二三四五六七\n").len(), 1);
    assert_eq!(diagnose(&rule, "一二三四五六七です\n").len(), 1);
}

#[test]
fn exactly_max_and_split_runs_pass() {
    let rule = MaxKanjiContinuousLen::from_options(&obj(vec![("max", num(6))]));
    assert!(diagnose(&rule, "一二三四五六\n").is_empty());
    assert!(diagnose(&MaxKanjiContinuousLen::new(), "一二三の四五六\n").is_empty());
}

#[test]
fn iteration_mark_breaks_a_run() {
    let rule = MaxKanjiContinuousLen::from_options(&obj(vec![("max", num(2))]));
    assert!(diagnose(&rule, "人々人\n").is_empty());
}

#[test]
fn kanji_run_message_and_span() {
    let rule = MaxKanjiContinuousLen::from_options(&obj(vec![("max", num(1))]));
    let diags = diagnose(&rule, "あ漢字い\n");
    assert_eq!(diags[0].message, "Kanji run of length 2 exceeds the maximum of 1.");
    assert_eq!((diags[0].span.start, diags[0].span.end), (3, 9));
}

// --- no-hankaku-kana ---

#[test]
fn flags_each_run_once() {
    assert_eq!(diagnose(&NoHankakuKana::new(), "ｺﾝﾆﾁﾊ\n").len(), 1);
    assert_eq!(diagnose(&NoHankakuKana::new(), "ｱあｲ\n").len(), 2);
}

#[test]
fn full_width_kana_is_clean() {
    assert!(diagnose(&NoHankakuKana::new(), "コンニチハ\n").is_empty());
}

#[test]
fn hankaku_run_span_covers_the_run() {
    let diags = diagnose(&NoHankakuKana::new(), "aｱｲb\n");
    assert_eq!((diags[0].span.start, diags[0].span.end), (1, 7));
}

#[test]
fn one_report_per_halfwidth_kana_run() {
    let diags = diagnose(&NoHankakuKana::new(), "ｱあｲｳ\n");
    assert_eq!(diags.len(), 2);
    assert_eq!((diags[0].span.start, diags[0].span.end), (0, 3));
    assert_eq!((diags[1].span.start, diags[1].span.end), (6, 12));
}
