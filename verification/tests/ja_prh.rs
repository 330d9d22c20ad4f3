use tzlint::ast::{Context, Diagnostic, NodeKind, NodeRef, Rule, Span};
use tzlint::json::{JsonMember, JsonValue};
use tzlint::rules::ja_prh::{expand_template, JaPrh};

/// Run `rule` over the nodes of `parts` (kind, text), each placed after the previous one, on the
/// node kinds the rule visits.
fn diagnose_nodes<R: Rule>(rule: &R, parts: &[(NodeKind, &str)]) -> Vec<Diagnostic> {
    let mut cx = Context::new(rule.meta());
    let mut at: u32 = 0;
    for (kind, text) in parts {
        let len = text.len() as u32;
        if rule.meta().node_kinds.contains(kind) {
            let node = NodeRef::new(*kind, Span::new(at, at + len), text.to_string());
            rule.check(&node, &mut cx);
        }
        at += len;
    }
    cx.into_diagnostics()
}

fn diagnose<R: Rule>(rule: &R, src: &str) -> Vec<Diagnostic> {
    let text = src.strip_suffix('\n').unwrap_or(src);
    diagnose_nodes(rule, &[(NodeKind::Text, text)])
}

fn s(v: &str) -> JsonValue {
    JsonValue::String(v.to_string())
}

fn obj(members: Vec<(&str, JsonValue)>) -> JsonValue {
    JsonValue::Object(
        members
            .into_iter()
            .map(|(k, v)| JsonMember { key: k.to_string(), value: v })
            .collect(),
    )
}

fn rule_with(terms: Vec<JsonValue>) -> JaPrh {
    JaPrh::from_options(&obj(vec![("terms", JsonValue::Array(terms))]))
}

fn literal_term(expected: &str, patterns: &[&str]) -> JsonValue {
    obj(vec![
        ("expected", s(expected)),
        ("patterns", JsonValue::Array(patterns.iter().map(|p| s(p)).collect())),
    ])
}

fn regex_item(source: &str, ignore_case: bool, multiline: bool) -> JsonValue {
    let mut m = vec![("source", s(source))];
    if ignore_case {
        m.push(("ignoreCase", JsonValue::Bool(true)));
    }
    if multiline {
        m.push(("multiline", JsonValue::Bool(true)));
    }
    obj(m)
}

fn regex_term(expected: &str, items: Vec<JsonValue>) -> JsonValue {
    obj(vec![("expected", s(expected)), ("regexPatterns", JsonValue::Array(items))])
}

#[test]
fn rewrites_a_disallowed_spelling() {
    let rule = rule_with(vec![literal_term("JavaScript", &["Javascript"])]);
    let src = "I love Javascript.\n";
    let diags = diagnose(&rule, src);
    assert_eq!(diags.len(), 1, "{diags:?}");
    let d = &diags[0];
    assert_eq!(&src[d.span.start as usize..d.span.end as usize], "Javascript");
    assert_eq!(d.fixes.len(), 1);
    assert_eq!(d.fixes[0].replacement, "JavaScript");
    assert!(d.message.contains("JavaScript"), "{}", d.message);
}

#[test]
fn the_expected_spelling_is_not_flagged() {
    let rule = rule_with(vec![literal_term("JavaScript", &["Javascript"])]);
    assert!(diagnose(&rule, "I love JavaScript.\n").is_empty());
}

#[test]
fn a_pattern_that_is_a_prefix_of_expected_is_idempotent() {
    let rule = rule_with(vec![literal_term("サーバー", &["サーバ"])]);
    assert!(diagnose(&rule, "このサーバーは速い。\n").is_empty(), "already expected");
    let diags = diagnose(&rule, "このサーバが遅い。\n");
    assert_eq!(diags.len(), 1, "{diags:?}");
    assert_eq!(diags[0].fixes[0].replacement, "サーバー");
}

#[test]
fn multiple_occurrences_each_flag() {
    let rule = rule_with(vec![literal_term("JavaScript", &["Javascript"])]);
    let diags = diagnose(&rule, "Javascript and Javascript.\n");
    assert_eq!(diags.len(), 2, "{diags:?}");
}

#[test]
fn a_single_pattern_string_is_accepted() {
    let rule = rule_with(vec![obj(vec![("expected", s("全角")), ("pattern", s("ぜんかく"))])]);
    let diags = diagnose(&rule, "これはぜんかくです。\n");
    assert_eq!(diags.len(), 1, "{diags:?}");
    assert_eq!(diags[0].fixes[0].replacement, "全角");
}

#[test]
fn no_terms_configured_is_a_no_op() {
    assert!(diagnose(&JaPrh::new(), "Javascript everywhere.\n").is_empty());
}

#[test]
fn patterns_inside_code_spans_are_left_alone() {
    // Inline code is a separate node kind (not text), so a pattern inside it is not touched.
    let rule = rule_with(vec![literal_term("JavaScript", &["Javascript"])]);
    let parts = [(NodeKind::Text, "use "), (NodeKind::InlineCode, "Javascript"), (NodeKind::Text, " here")];
    assert!(diagnose_nodes(&rule, &parts).is_empty());
}

#[test]
fn rewrites_a_regex_pattern_with_a_capture_template() {
    let rule = rule_with(vec![regex_term("（$1）", vec![regex_item(r"\(([^)]+)\)", false, false)])]);
    let diags = diagnose(&rule, "これは(補足)です。\n");
    assert_eq!(diags.len(), 1, "{diags:?}");
    assert_eq!(diags[0].fixes.len(), 1);
    assert_eq!(diags[0].fixes[0].replacement, "（補足）");
}

#[test]
fn the_i_flag_matches_case_insensitively() {
    let rule = rule_with(vec![regex_term("JavaScript", vec![regex_item("javascript", true, false)])]);
    let diags = diagnose(&rule, "I love JAVASCRIPT today.\n");
    assert_eq!(diags.len(), 1, "{diags:?}");
    assert_eq!(diags[0].fixes[0].replacement, "JavaScript");
}

#[test]
fn a_regex_match_already_in_expected_form_is_not_flagged() {
    let rule = rule_with(vec![regex_term("$1", vec![regex_item("(foo)", false, false)])]);
    assert!(diagnose(&rule, "foo bar\n").is_empty());
}

#[test]
fn an_uncompilable_regex_is_skipped() {
    let rule = rule_with(vec![regex_term("X", vec![regex_item("(?=x)", false, false)])]);
    assert!(diagnose(&rule, "xxx\n").is_empty());
}

#[test]
fn literal_and_regex_patterns_coexist_on_one_term() {
    let rule = rule_with(vec![obj(vec![
        ("expected", s("JavaScript")),
        ("patterns", JsonValue::Array(vec![s("Javascript")])),
        ("regexPatterns", JsonValue::Array(vec![regex_item("java-script", true, false)])),
    ])]);
    let diags = diagnose(&rule, "use Javascript and JAVA-SCRIPT.\n");
    assert_eq!(diags.len(), 2, "{diags:?}");
    assert!(diags.iter().all(|d| d.fixes[0].replacement == "JavaScript"));
}

#[test]
fn the_i_and_m_flags_compile_together() {
    let rule = rule_with(vec![regex_term("JavaScript", vec![regex_item("javascript", true, true)])]);
    let diags = diagnose(&rule, "use JavaScript or javascript here.\n");
    assert_eq!(diags.len(), 1, "{diags:?}");
    assert_eq!(diags[0].fixes[0].replacement, "JavaScript");
}

#[test]
fn a_zero_width_regex_match_is_left_alone() {
    let rule = rule_with(vec![regex_term("x", vec![regex_item("a*", false, false)])]);
    assert!(diagnose(&rule, "bbb\n").is_empty());
}

/// The capture groups of the first match of `re` in `hay`, as byte ranges.
fn groups(re: &str, hay: &str) -> Vec<Option<(usize, usize)>> {
    let re = regex_lite::Regex::new(re).unwrap();
    let caps = re.captures(hay).unwrap();
    (0..caps.len()).map(|g| caps.get(g).map(|m| (m.start(), m.end()))).collect()
}

#[test]
fn expand_template_covers_every_dollar_form() {
    let hay = "foo-bar";
    let caps = groups(r"(\w+)-(\w+)", hay);
    assert_eq!(expand_template("$1", &caps, hay), "foo");
    assert_eq!(expand_template("${2}", &caps, hay), "bar");
    assert_eq!(expand_template("$0", &caps, hay), "foo-bar");
    assert_eq!(expand_template("[${1}/$2]", &caps, hay), "[foo/bar]");
    assert_eq!(expand_template("a${9}b", &caps, hay), "ab");
    assert_eq!(expand_template("a$9b", &caps, hay), "ab");
    assert_eq!(expand_template("$$1", &caps, hay), "$1");
    assert_eq!(expand_template("${1", &caps, hay), "${1");
    assert_eq!(expand_template("${x}", &caps, hay), "${x}");
    assert_eq!(expand_template("${}", &caps, hay), "${}");
    assert_eq!(expand_template("$x", &caps, hay), "$x");
    assert_eq!(expand_template("a$", &caps, hay), "a$");
    assert_eq!(
        expand_template("$99999999999999999999999999", &caps, hay),
        "$99999999999999999999999999"
    );
}

#[test]
fn the_message_names_both_spellings() {
    let rule = rule_with(vec![literal_term("全角", &["ぜんかく"])]);
    let diags = diagnose(&rule, "ぜんかく\n");
    assert_eq!(diags[0].message, "表記ゆれ: 「ぜんかく」は「全角」に統一してください。");
    assert_eq!((diags[0].span.start, diags[0].span.end), (0, 12));
    assert_eq!((diags[0].fixes[0].span.start, diags[0].fixes[0].span.end), (0, 12));
}

#[test]
fn a_regex_match_is_reported_at_its_absolute_bytes() {
    let rule = rule_with(vec![regex_term("（$1）", vec![regex_item(r"\(([^)]+)\)", false, false)])]);
    let parts = [(NodeKind::Text, "前置き"), (NodeKind::Text, "a(注)b")];
    let diags = diagnose_nodes(&rule, &parts);
    assert_eq!(diags.len(), 1);
    assert_eq!((diags[0].span.start, diags[0].span.end), (10, 15));
    assert_eq!(diags[0].message, "表記ゆれ: 「(注)」は「（注）」に統一してください。");
}

#[test]
fn an_entry_without_expected_is_skipped() {
    let rule = rule_with(vec![
        obj(vec![("patterns", JsonValue::Array(vec![s("foo")]))]),
        literal_term("bar", &["baz"]),
    ]);
    assert_eq!(rule.terms.len(), 1);
    assert!(diagnose(&rule, "foo\n").is_empty());
    assert_eq!(diagnose(&rule, "baz\n").len(), 1);
}
