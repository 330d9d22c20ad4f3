use tzlint::json::{JsonMember, JsonNumber, JsonValue};
use tzlint::pdk::{
    extract_node_text, find_matches, get_node_type, get_sentences, is_node_type, Capability,
    Diagnostic, Fix, KnownLanguage, LintHelpers, LintRequest, RuleManifest, Severity, Span,
    TextContext, TextSentence, TextSpan, Token,
};

fn obj(members: Vec<(&str, JsonValue)>) -> JsonValue {
    JsonValue::Object(members.into_iter().map(|(k, v)| JsonMember { key: k.to_string(), value: v }).collect())
}

fn num(n: u64) -> JsonValue {
    JsonValue::Number(JsonNumber::PosInt(n))
}

fn text(s: &str) -> JsonValue {
    JsonValue::String(s.to_string())
}

fn node(ty: &str, range: Option<(u64, u64)>) -> JsonValue {
    let mut members = vec![("type", text(ty))];
    if let Some((a, b)) = range {
        members.push(("range", JsonValue::Array(vec![num(a), num(b)])));
    }
    obj(members)
}

fn same(a: &JsonValue, b: &JsonValue) -> bool {
    format!("{:?}", a) == format!("{:?}", b)
}

fn node_type_of(v: &JsonValue) -> Option<&str> {
    v.get("type").and_then(|t| t.as_str())
}

fn strings(v: &[&str]) -> Vec<String> {
    v.iter().map(|s| s.to_string()).collect()
}

#[test]
fn span_new() {
    let span = Span::new(10, 20);
    assert_eq!(span.start, 10);
    assert_eq!(span.end, 20);
    assert_eq!(span.len(), 10);
    assert!(!span.is_empty());
}

#[test]
fn span_empty() {
    let span = Span::new(5, 5);
    assert!(span.is_empty());
    assert_eq!(span.len(), 0);
}

#[test]
fn span_len_saturates_when_reversed() {
    let span = Span::new(9, 4);
    assert_eq!(span.len(), 0);
    assert!(span.is_empty());
    assert_eq!(TextSpan::new(9, 4).len(), 0);
}

#[test]
fn diagnostic_new() {
    let diag = Diagnostic::new("test-rule", "Test message", Span::new(0, 10));
    assert_eq!(diag.rule_id, "test-rule");
    assert_eq!(diag.message, "Test message");
    assert_eq!(diag.severity, Severity::Error);
    assert!(diag.fix.is_none());
}

#[test]
fn diagnostic_warning() {
    let diag = Diagnostic::warning("test-rule", "Warning message", Span::new(0, 10));
    assert_eq!(diag.severity, Severity::Warning);
}

#[test]
fn diagnostic_with_fix() {
    let fix = Fix::new(Span::new(0, 5), "replacement");
    let diag = Diagnostic::new("test-rule", "Test", Span::new(0, 10)).with_fix(fix);
    assert!(diag.fix.is_some());
    assert_eq!(diag.fix.as_ref().unwrap().text, "replacement");
    let diag = diag.with_severity(Severity::Info);
    assert_eq!(diag.severity, Severity::Info);
    assert_eq!(diag.message, "Test");
}

#[test]
fn fix_insert() {
    let fix = Fix::insert(10, "inserted");
    assert_eq!(fix.span.start, 10);
    assert_eq!(fix.span.end, 10);
    assert_eq!(fix.text, "inserted");
}

#[test]
fn fix_delete() {
    let fix = Fix::delete(Span::new(5, 15));
    assert_eq!(fix.span.start, 5);
    assert_eq!(fix.span.end, 15);
    assert_eq!(fix.text, "");
}

#[test]
fn rule_manifest_builder() {
    let manifest = RuleManifest::new("my-rule", "1.0.0")
        .with_description("A test rule")
        .with_fixable(true)
        .with_node_types(vec!["Str".to_string()]);

    assert_eq!(manifest.name, "my-rule");
    assert_eq!(manifest.version, "1.0.0");
    assert_eq!(manifest.description, Some("A test rule".to_string()));
    assert!(manifest.fixable);
    assert_eq!(manifest.node_types, vec!["Str"]);
}

#[test]
fn extract_node_text_valid() {
    let source = "Hello, World!";
    let n = node("Str", Some((0, 5)));
    let result = extract_node_text(&n, source);
    assert_eq!(result, Some((0, 5, "Hello")));
}

#[test]
fn extract_node_text_invalid_range() {
    let source = "Hello";
    let n = node("Str", Some((0, 100)));
    assert_eq!(extract_node_text(&n, source), None);
}

#[test]
fn extract_node_text_no_range() {
    let source = "Hello";
    let n = node("Str", None);
    assert_eq!(extract_node_text(&n, source), None);
}

#[test]
fn extract_node_text_multibyte_and_reversed_range() {
    let source = "私は学生です";
    assert_eq!(extract_node_text(&node("Str", Some((3, 9))), source), Some((3, 9, "は学")));
    assert_eq!(extract_node_text(&node("Str", Some((9, 3))), source), None);
    assert!(tzlint::pdk::range_on_boundaries(&node("Str", Some((3, 9))), source));
    assert!(!tzlint::pdk::range_on_boundaries(&node("Str", Some((1, 9))), source));
}

#[test]
fn is_node_type_matches() {
    let n = obj(vec![("type", text("Str"))]);
    assert!(is_node_type(&n, "Str"));
    assert!(!is_node_type(&n, "Paragraph"));
}

#[test]
fn is_node_type_missing() {
    let n = obj(vec![]);
    assert!(!is_node_type(&n, "Str"));
}

#[test]
fn get_node_type_present() {
    let n = obj(vec![("type", text("Paragraph"))]);
    assert_eq!(get_node_type(&n), Some("Paragraph"));
}

#[test]
fn get_node_type_missing() {
    let n = obj(vec![]);
    assert_eq!(get_node_type(&n), None);
}

#[test]
fn severity_default() {
    let severity: Severity = Default::default();
    assert_eq!(severity, Severity::Error);
}

#[test]
fn find_matches_sharp_s_expansion() {
    let matches = find_matches("Maßnahme", &strings(&["mass"]), false);
    assert_eq!(matches.len(), 1);
    assert_eq!(matches[0].start, 0);
    assert_eq!(matches[0].matched_text, "Maß");
    assert_eq!(matches[0].end, 4);
}

#[test]
fn find_matches_sharp_s_case_sensitive() {
    let matches = find_matches("Maßnahme", &strings(&["mass"]), true);
    assert!(matches.is_empty());
}

#[test]
fn find_matches_ligature_expansion() {
    let matches = find_matches("ﬁsh", &strings(&["fi"]), false);
    assert_eq!(matches.len(), 1);
    assert_eq!(matches[0].start, 0);
    assert_eq!(matches[0].matched_text, "ﬁ");
    assert_eq!(matches[0].end, 3);
}

#[test]
fn find_matches_ligature_in_fiance() {
    let matches = find_matches("ﬁancé", &strings(&["fi"]), false);
    assert_eq!(matches.len(), 1);
    assert_eq!(matches[0].start, 0);
    assert_eq!(matches[0].matched_text, "ﬁ");
}

#[test]
fn find_matches_greek_accented() {
    let matches = find_matches("Όσο", &strings(&["oso"]), false);
    assert!(matches.is_empty());
}

#[test]
fn find_matches_greek_sigma() {
    let matches = find_matches("Όσο", &strings(&["ΣΟ"]), false);
    assert_eq!(matches.len(), 1);
    assert_eq!(matches[0].start, 2);
    assert_eq!(matches[0].matched_text, "σο");
}

#[test]
fn find_matches_multiple_unicode_expansion() {
    let matches = find_matches("Maßnahme und Straße", &strings(&["mass", "strasse"]), false);
    assert_eq!(matches.len(), 2);
    assert_eq!(matches[0].start, 0);
    assert_eq!(matches[0].matched_text, "Maß");
    assert_eq!(matches[1].start, 14);
    assert_eq!(matches[1].matched_text, "Straße");
}

#[test]
fn find_matches_repeated_unicode_expansion() {
    let matches = find_matches("Maß und Maßnahme", &strings(&["mass"]), false);
    assert_eq!(matches.len(), 2);
    assert_eq!(matches[0].start, 0);
    assert_eq!(matches[0].matched_text, "Maß");
    assert_eq!(matches[1].start, 9);
    assert_eq!(matches[1].matched_text, "Maß");
}

#[test]
fn find_matches_mixed_ascii_unicode() {
    let matches = find_matches("The Maß is heavy", &strings(&["mass"]), false);
    assert_eq!(matches.len(), 1);
    assert_eq!(matches[0].start, 4);
    assert_eq!(matches[0].matched_text, "Maß");
}

#[test]
fn find_matches_empty_pattern() {
    let matches = find_matches("Maßnahme", &strings(&[""]), true);
    assert!(matches.is_empty());
}

#[test]
fn find_matches_no_match_unicode() {
    let matches = find_matches("Maßnahme", &strings(&["xyz"]), false);
    assert!(matches.is_empty());
}

#[test]
fn find_matches_case_sensitive_vs_insensitive_ascii() {
    let patterns = strings(&["world"]);
    assert!(find_matches("Hello World", &patterns, true).is_empty());
    let insensitive = find_matches("Hello World", &patterns, false);
    assert_eq!(insensitive.len(), 1);
    assert_eq!(insensitive[0].matched_text, "World");
}

#[test]
fn find_matches_case_sensitive_vs_insensitive_unicode() {
    let patterns = strings(&["MASS"]);
    assert!(find_matches("Maßnahme", &patterns, true).is_empty());
    let insensitive = find_matches("Maßnahme", &patterns, false);
    assert_eq!(insensitive.len(), 1);
    assert_eq!(insensitive[0].matched_text, "Maß");
}

#[test]
fn find_matches_complex_unicode() {
    let matches = find_matches("The ﬁsh in the Straße", &strings(&["fish", "strasse"]), false);
    assert_eq!(matches.len(), 2);
    assert_eq!(matches[0].matched_text, "ﬁsh");
    assert_eq!(matches[1].matched_text, "Straße");
}

#[test]
fn find_matches_sorts_across_patterns_and_keeps_order_on_ties() {
    // The second pattern's match starts first; the two matches at 0 keep pattern order.
    let matches = find_matches("ab ab", &strings(&["b", "ab", "a"]), true);
    let got: Vec<(usize, usize, &str)> =
        matches.iter().map(|m| (m.start, m.end, m.matched_text.as_str())).collect();
    assert_eq!(got, vec![(0, 2, "ab"), (0, 1, "a"), (1, 2, "b"), (3, 5, "ab"), (3, 4, "a"), (4, 5, "b")]);
}

#[test]
fn find_matches_does_not_overlap_within_a_pattern() {
    let matches = find_matches("aaaa", &strings(&["aa"]), true);
    let starts: Vec<usize> = matches.iter().map(|m| m.start).collect();
    assert_eq!(starts, vec![0, 2]);
}

#[test]
fn get_sentences_trims_and_keeps_delimiters() {
    let s = get_sentences("  Hello world.  How are you?\tFine ");
    let got: Vec<(usize, usize, &str, usize)> =
        s.iter().map(|x| (x.start, x.end, x.text.as_str(), x.char_count)).collect();
    assert_eq!(got, vec![(2, 14, "Hello world.", 12), (16, 28, "How are you?", 12), (29, 33, "Fine", 4)]);
}

#[test]
fn get_sentences_counts_characters_not_bytes() {
    let s = get_sentences("今日は晴れ。　明日は雨！");
    assert_eq!(s.len(), 2);
    assert_eq!((s[0].start, s[0].end, s[0].char_count), (0, 18, 6));
    assert_eq!(s[1].text, "明日は雨！");
    assert_eq!((s[1].start, s[1].end, s[1].char_count), (21, 36, 5));
    assert!(get_sentences("   . ").len() == 1);
    assert!(get_sentences("  \n ").is_empty());
}

#[test]
fn lint_request_single() {
    let n = node("Str", Some((0, 5)));
    let config = obj(vec![("option", text("value"))]);
    let request = LintRequest::single(node("Str", Some((0, 5))), config, "test source".to_string());
    assert!(same(&request.node, &n));
    assert_eq!(request.nodes.len(), 1);
    assert!(same(&request.nodes[0], &n));
    assert!(!request.is_batch());
    assert_eq!(request.all_nodes().len(), 1);
}

#[test]
fn lint_request_batch() {
    let nodes = vec![node("Str", Some((0, 5))), node("Str", Some((10, 15))), node("Str", Some((20, 25)))];
    let request = LintRequest::batch(nodes, obj(vec![("option", text("value"))]), "test source".to_string());
    assert!(same(&request.node, &node("Str", Some((0, 5)))));
    assert_eq!(request.nodes.len(), 3);
    assert!(request.is_batch());
    assert_eq!(request.all_nodes().len(), 3);
}

#[test]
fn lint_request_with_file_path() {
    let request = LintRequest::single(obj(vec![("type", text("Str"))]), obj(vec![]), "source".to_string())
        .with_file_path(Some("test.md"));
    assert_eq!(request.file_path, Some("test.md".to_string()));
}

#[test]
fn lint_request_with_helpers() {
    let helpers = LintHelpers { text: Some("sample text".to_string()), ..Default::default() };
    let request = LintRequest::single(obj(vec![("type", text("Str"))]), obj(vec![]), "source".to_string())
        .with_helpers(helpers);
    assert!(request.helpers.is_some());
    assert_eq!(request.helpers.as_ref().unwrap().text, Some("sample text".to_string()));
    assert_eq!(tzlint::pdk::get_text(&request), Some("sample text"));
}

#[test]
fn lint_request_batch_empty() {
    let request = LintRequest::batch(vec![], obj(vec![]), "source".to_string());
    assert!(!request.is_batch());
    assert!(request.node.is_null());
    assert_eq!(request.nodes.len(), 0);
    assert_eq!(request.all_nodes().len(), 0);
    assert!(request.all_nodes().is_empty());
}

#[test]
fn lint_request_batch_single_node_is_not_batch() {
    let request = LintRequest::batch(vec![node("Str", Some((0, 5)))], obj(vec![]), "source".to_string());
    assert!(same(&request.node, &node("Str", Some((0, 5)))));
    assert_eq!(request.nodes.len(), 1);
    assert!(!request.is_batch());
    assert_eq!(request.all_nodes().len(), 1);
}

#[test]
fn lint_request_all_nodes_empty_nodes_with_valid_node() {
    let request = LintRequest {
        node: node("Str", Some((0, 5))),
        nodes: vec![],
        config: obj(vec![]),
        source: "test".to_string(),
        file_path: None,
        helpers: None,
        tokens: Vec::new(),
        sentences: Vec::new(),
    };
    assert!(request.nodes.is_empty());
    assert_eq!(request.all_nodes().len(), 1);
    assert_eq!(node_type_of(request.all_nodes()[0]), Some("Str"));
    assert!(!request.is_batch());
}

#[test]
fn lint_request_get_text_falls_back_to_the_range() {
    let request = LintRequest::single(node("Str", Some((5, 11))), obj(vec![]), "test source".to_string());
    assert_eq!(tzlint::pdk::get_text(&request), Some("source"));
    assert!(!tzlint::pdk::is_in_code_block(&request));
    assert_eq!(tzlint::pdk::get_depth(&request), 0);
    assert_eq!(tzlint::pdk::get_parent_type(&request), None);
}

#[test]
fn text_span_new() {
    let span = TextSpan::new(10, 20);
    assert_eq!(span.start, 10);
    assert_eq!(span.end, 20);
    assert_eq!(span.len(), 10);
    assert!(!span.is_empty());
}

#[test]
fn text_span_empty() {
    let span = TextSpan::new(5, 5);
    assert!(span.is_empty());
    assert_eq!(span.len(), 0);
}

#[test]
fn token_new() {
    let token = Token::new("は", vec!["助詞".to_string()], TextSpan::new(0, 3));
    assert_eq!(token.surface, "は");
    assert_eq!(token.pos, vec!["助詞"]);
    assert!(token.detail.is_empty());
    assert!(token.has_pos("助詞"));
    assert!(!token.has_pos("名詞"));
}

#[test]
fn token_with_detail() {
    let token = Token::new("は", vec!["助詞".to_string()], TextSpan::new(0, 3))
        .with_detail(vec!["係助詞".to_string(), "*".to_string()]);
    assert_eq!(token.detail, vec!["係助詞", "*"]);
}

#[test]
fn text_sentence_new() {
    let sentence = TextSentence::new("こんにちは。", TextSpan::new(0, 18));
    assert_eq!(sentence.text, "こんにちは。");
    assert_eq!(sentence.span.start, 0);
    assert_eq!(sentence.span.end, 18);
}

#[test]
fn text_context_new() {
    let ctx = TextContext::new();
    assert!(ctx.is_empty());
    assert!(ctx.tokens.is_empty());
    assert!(ctx.sentences.is_empty());
}

#[test]
fn text_context_with_analysis() {
    let tokens = vec![Token::new("は", vec!["助詞".to_string()], TextSpan::new(0, 3))];
    let sentences = vec![TextSentence::new("テスト。", TextSpan::new(0, 12))];
    let ctx = TextContext::with_analysis(tokens, sentences);
    assert!(!ctx.is_empty());
    assert_eq!(ctx.tokens.len(), 1);
    assert_eq!(ctx.sentences.len(), 1);
}

#[test]
fn text_context_tokens_with_pos() {
    let tokens = vec![
        Token::new("私", vec!["名詞".to_string()], TextSpan::new(0, 3)),
        Token::new("は", vec!["助詞".to_string()], TextSpan::new(3, 6)),
        Token::new("学生", vec!["名詞".to_string()], TextSpan::new(6, 12)),
    ];
    let ctx = TextContext::with_analysis(tokens, vec![]);
    let nouns = ctx.tokens_with_pos("名詞");
    assert_eq!(nouns.len(), 2);
    assert_eq!(nouns[1].surface, "学生");
    assert_eq!(ctx.tokens_with_pos("助詞").len(), 1);
}

#[test]
fn lint_helpers_with_text_context() {
    let text_ctx = TextContext::with_analysis(
        vec![Token::new("は", vec!["助詞".to_string()], TextSpan::new(0, 3))],
        vec![],
    );
    let helpers = LintHelpers { text: Some("テスト".to_string()), text_context: Some(text_ctx), ..Default::default() };
    assert!(helpers.text_context.is_some());
    let ctx = helpers.text_context.unwrap();
    assert_eq!(ctx.tokens.len(), 1);
    assert!(ctx.tokens[0].has_pos("助詞"));
}

#[test]
fn lint_request_prefers_helper_tokens_when_present() {
    let own = vec![Token::new("x", vec![], TextSpan::new(0, 1))];
    let ctx = TextContext::with_analysis(
        vec![Token::new("は", vec!["助詞".to_string()], TextSpan::new(0, 3))],
        vec![],
    );
    let request = LintRequest::single(node("Str", None), obj(vec![]), "は".to_string())
        .with_text_analysis(own, vec![TextSentence::new("は", TextSpan::new(0, 3))])
        .with_helpers(LintHelpers { text_context: Some(ctx), ..Default::default() });
    assert_eq!(request.get_tokens()[0].surface, "は");
    // The helpers' context has no sentences, so the request's own are used.
    assert_eq!(request.get_sentences().len(), 1);
}

#[test]
fn token_major_pos() {
    let token = Token::new("は", vec!["助詞".to_string(), "係助詞".to_string()], TextSpan::new(0, 3));
    assert_eq!(token.major_pos(), Some("助詞"));
}

#[test]
fn token_pos_detail() {
    let token = Token::new("は", vec!["助詞".to_string(), "係助詞".to_string()], TextSpan::new(0, 3));
    assert_eq!(token.pos_detail(0), Some("助詞"));
    assert_eq!(token.pos_detail(1), Some("係助詞"));
    assert_eq!(token.pos_detail(2), None);
}

#[test]
fn token_conjugation_accessors() {
    let token = Token::new("行う", vec!["動詞".to_string()], TextSpan::new(0, 9)).with_detail(vec![
        "五段・ワ行促音便".to_string(),
        "連用形".to_string(),
        "行う".to_string(),
        "オコナウ".to_string(),
    ]);
    assert_eq!(token.conjugation_type(), Some("五段・ワ行促音便"));
    assert_eq!(token.conjugation_form(), Some("連用形"));
    assert_eq!(token.base_form(), Some("行う"));
    assert_eq!(token.reading(), Some("オコナウ"));
}

#[test]
fn token_accessors_empty_pos_and_detail_return_none() {
    let token = Token::new("x", vec![], TextSpan::new(0, 1));
    assert!(token.major_pos().is_none());
    assert!(token.pos_detail(0).is_none());
    assert!(token.pos_detail(1).is_none());
    assert!(token.conjugation_type().is_none());
    assert!(token.conjugation_form().is_none());
    assert!(token.base_form().is_none());
    assert!(token.reading().is_none());
    assert!(!token.is_verb());
    assert!(!token.is_renyoukei());
}

#[test]
fn token_pos_shortcuts() {
    let verb = Token::new("行う", vec!["動詞".to_string()], TextSpan::new(0, 9));
    assert!(verb.is_verb());
    assert!(!verb.is_noun());
    assert!(!verb.is_particle());

    let noun = Token::new("私", vec!["名詞".to_string()], TextSpan::new(0, 3));
    assert!(noun.is_noun());
    assert!(!noun.is_verb());

    let particle = Token::new("は", vec!["助詞".to_string()], TextSpan::new(0, 3));
    assert!(particle.is_particle());
    assert!(!particle.is_verb());

    let aux_verb = Token::new("だ", vec!["助動詞".to_string()], TextSpan::new(0, 3));
    assert!(aux_verb.is_auxiliary_verb());
    assert!(!aux_verb.is_verb());

    let adjective = Token::new("良い", vec!["形容詞".to_string()], TextSpan::new(0, 6));
    assert!(adjective.is_adjective());
}

#[test]
fn token_is_renyoukei() {
    let renyoukei = Token::new("行き", vec!["動詞".to_string()], TextSpan::new(0, 6))
        .with_detail(vec!["五段".to_string(), "連用形".to_string()]);
    assert!(renyoukei.is_renyoukei());

    let not_renyoukei = Token::new("行う", vec!["動詞".to_string()], TextSpan::new(0, 9))
        .with_detail(vec!["五段".to_string(), "基本形".to_string()]);
    assert!(!not_renyoukei.is_renyoukei());
}

#[test]
fn known_language_default_is_japanese() {
    assert_eq!(KnownLanguage::default(), KnownLanguage::Ja);
}

#[test]
fn rule_manifest_with_languages_and_capabilities() {
    let manifest = RuleManifest::new("test-rule", "1.0.0")
        .with_languages(vec![KnownLanguage::Ja])
        .with_capabilities(vec![Capability::Morphology]);
    assert_eq!(manifest.languages, vec![KnownLanguage::Ja]);
    assert_eq!(manifest.capabilities, vec![Capability::Morphology]);
}

#[test]
fn rule_manifest_defaults_empty_languages_and_capabilities() {
    let manifest = RuleManifest::new("test", "1.0.0");
    assert!(manifest.languages.is_empty());
    assert!(manifest.capabilities.is_empty());
}
