use tzlint::json::{JsonMember, JsonNumber, JsonValue};
use tzlint::pdk::{Diagnostic, LintRequest, RuleManifest, Severity, Span};
use tzlint::plugins::no_todo;
use tzlint::plugins::sentence_length;

fn obj(members: Vec<(&str, JsonValue)>) -> JsonValue {
    JsonValue::Object(members.into_iter().map(|(k, v)| JsonMember { key: k.to_string(), value: v }).collect())
}

fn text(s: &str) -> JsonValue {
    JsonValue::String(s.to_string())
}

fn num(n: u64) -> JsonValue {
    JsonValue::Number(JsonNumber::PosInt(n))
}

fn strs(v: &[&str]) -> JsonValue {
    JsonValue::Array(v.iter().map(|s| text(s)).collect())
}

fn create_request(source: &str, config: JsonValue) -> LintRequest {
    LintRequest {
        node: obj(vec![
            ("type", text("Str")),
            ("range", JsonValue::Array(vec![num(0), num(source.len() as u64)])),
            ("value", text(source)),
        ]),
        nodes: vec![],
        config,
        source: source.to_string(),
        file_path: None,
        helpers: None,
        tokens: vec![],
        sentences: vec![],
    }
}

/// Lint with the host configuration `config`, as the plugin does.
fn todo_messages(source: &str, config: JsonValue) -> Vec<String> {
    let request = create_request(source, obj(vec![]));
    let cfg = no_todo::Config::from_host(Some(&config));
    no_todo::lint(&request, &cfg).diagnostics.into_iter().map(|d| d.message).collect()
}

#[test]
fn config_default_patterns() {
    let config = no_todo::Config::default();
    let patterns = config.effective_patterns();
    assert!(patterns.contains(&"TODO:".to_string()));
    assert!(patterns.contains(&"FIXME:".to_string()));
    assert!(patterns.contains(&"XXX:".to_string()));
}

#[test]
fn config_custom_patterns() {
    let config = no_todo::Config { patterns: vec!["HACK:".to_string()], ..Default::default() };
    let patterns = config.effective_patterns();
    assert_eq!(patterns.len(), 1);
    assert!(patterns.contains(&"HACK:".to_string()));
}

#[test]
fn lint_detects_todo() {
    let request = create_request("This is a TODO: check", obj(vec![]));
    let response = no_todo::lint(&request, &no_todo::Config::from_host(None));
    assert_eq!(response.diagnostics.len(), 1);
    assert_eq!(
        response.diagnostics[0].message,
        "Found 'TODO:' comment. Consider resolving this before committing."
    );
    assert_eq!(response.diagnostics[0].severity, Severity::Warning);
    assert_eq!((response.diagnostics[0].span.start, response.diagnostics[0].span.end), (10, 15));
}

#[test]
fn lint_ignores_pattern() {
    let messages = todo_messages("This is a TODO: fix later", obj(vec![("ignore_patterns", strs(&["TODO:"]))]));
    assert_eq!(messages.len(), 0);
}

#[test]
fn test_manifest_structure() {
    let manifest = RuleManifest::new("no-todo", "1.0.0")
        .with_description("Disallow TODO/FIXME comments in text")
        .with_fixable(false)
        .with_node_types(vec!["Str".to_string()]);
    assert_eq!(manifest.name, "no-todo");
    assert_eq!(manifest.version, "1.0.0");
    assert_eq!(manifest.description, Some("Disallow TODO/FIXME comments in text".to_string()));
    assert!(!manifest.fixable);
    assert_eq!(manifest.node_types, vec!["Str".to_string()]);
    assert_eq!(no_todo::get_manifest().description, manifest.description);
}

#[test]
fn test_detects_todo_uppercase() {
    let text = "This is a TODO: fix this later";
    assert!(text.contains("TODO:"));
    assert_eq!(todo_messages(text, obj(vec![])).len(), 1);
}

#[test]
fn test_detects_fixme_uppercase() {
    let text = "This is a FIXME: broken code";
    assert!(text.contains("FIXME:"));
    assert_eq!(todo_messages(text, obj(vec![])), vec!["Found 'FIXME:' comment. Consider resolving this before committing."]);
}

#[test]
fn test_detects_xxx_marker() {
    let text = "XXX: this needs attention";
    assert!(text.contains("XXX:"));
    assert_eq!(todo_messages(text, obj(vec![])).len(), 1);
}

#[test]
fn test_detects_todo_with_space() {
    let text = "TODO check this";
    assert!(text.contains("TODO "));
    // The match "TODO " is reported trimmed.
    assert_eq!(todo_messages(text, obj(vec![])), vec!["Found 'TODO' comment. Consider resolving this before committing."]);
}

#[test]
fn test_clean_text_no_markers() {
    let text = "This is clean text without any markers";
    assert!(!text.contains("TODO"));
    assert!(!text.contains("FIXME"));
    assert!(!text.contains("XXX"));
    assert!(todo_messages(text, obj(vec![])).is_empty());
}

#[test]
fn test_multiple_markers() {
    let text = "TODO: first thing\nFIXME: second thing\nXXX: third thing";
    assert!(text.contains("TODO:"));
    assert!(text.contains("FIXME:"));
    assert!(text.contains("XXX:"));
    let request = create_request(text, obj(vec![]));
    let response = no_todo::lint(&request, &no_todo::Config::default());
    let starts: Vec<u32> = response.diagnostics.iter().map(|d| d.span.start).collect();
    assert_eq!(starts, vec![0, 18, 38]);
}

#[test]
fn test_custom_patterns_config() {
    let request = create_request("HACK: temporary solution", obj(vec![("patterns", strs(&["HACK:", "WIP:"]))]));
    assert!(request.source.contains("HACK:"));
    assert_eq!(todo_messages("HACK: temporary solution", obj(vec![("patterns", strs(&["HACK:", "WIP:"]))])).len(), 1);
}

#[test]
fn test_case_sensitive_config() {
    let request = create_request("todo: lowercase", obj(vec![("case_sensitive", JsonValue::Bool(true))]));
    assert!(request.source.contains("todo:"));
    assert!(!request.source.contains("TODO:"));
    assert!(todo_messages("todo: lowercase", obj(vec![("case_sensitive", JsonValue::Bool(true))])).is_empty());
    assert_eq!(todo_messages("todo: lowercase", obj(vec![])).len(), 1);
}

#[test]
fn test_ignore_patterns_config() {
    let request = create_request("TODO-OK: this is acceptable", obj(vec![("ignore_patterns", strs(&["TODO-OK"]))]));
    assert!(request.source.contains("TODO-OK"));
}

#[test]
fn test_marker_at_start_of_line() {
    let text = "TODO: very first thing in text";
    assert!(text.starts_with("TODO:"));
}

#[test]
fn test_marker_at_end_of_text() {
    let text = "Some text ending with TODO:";
    assert!(text.ends_with("TODO:"));
    assert_eq!(todo_messages(text, obj(vec![])).len(), 1);
}

#[test]
fn test_marker_in_middle_of_word() {
    let text = "This is UNFIXMEABLE";
    assert!(!text.contains("FIXME:"));
    assert!(todo_messages(text, obj(vec![])).is_empty());
}

#[test]
fn test_unicode_text_with_markers() {
    let text = "日本語テキスト TODO: これを修正";
    assert!(text.contains("TODO:"));
    assert!(text.contains("日本語"));
    let request = create_request(text, obj(vec![]));
    let response = no_todo::lint(&request, &no_todo::Config::default());
    assert_eq!(response.diagnostics.len(), 1);
    assert_eq!(response.diagnostics[0].span.start, 22);
}

#[test]
fn test_empty_text() {
    let request = create_request("", obj(vec![]));
    assert!(request.source.is_empty());
}

#[test]
fn test_very_long_text() {
    let prefix = "a".repeat(1000);
    let text = format!("{}TODO: marker after long text", prefix);
    let request = create_request(&text, obj(vec![]));
    assert!(request.source.contains("TODO:"));
}

#[test]
fn test_marker_with_punctuation() {
    let text = "TODO! important";
    assert!(!text.contains("TODO:"));
    assert!(!text.contains("TODO "));
    assert!(todo_messages(text, obj(vec![])).is_empty());
}

#[test]
fn test_multiple_same_markers() {
    let text = "TODO: first\nTODO: second\nTODO: third";
    assert_eq!(text.matches("TODO:").count(), 3);
    assert_eq!(todo_messages(text, obj(vec![])).len(), 3);
}

#[test]
fn test_marker_with_numbers() {
    let text = "TODO1: first item\nTODO2: second item";
    assert!(!text.contains("TODO:"));
}

#[test]
fn test_diagnostic_severity_is_warning() {
    let diagnostic = Diagnostic::warning("no-todo", "Found TODO marker", Span::new(0, 5));
    assert_eq!(diagnostic.severity, Severity::Warning);
}

#[test]
fn test_mixed_case_markers_case_insensitive() {
    let text = "ToDo: mixed case";
    assert!(text.contains("ToDo:"));
    assert_eq!(todo_messages(text, obj(vec![("case_sensitive", JsonValue::Bool(false))])),
        vec!["Found 'ToDo:' comment. Consider resolving this before committing."]);
}

#[test]
fn test_config_with_empty_patterns() {
    let request = create_request("TODO: test", obj(vec![("patterns", strs(&[]))]));
    assert!(request.source.contains("TODO:"));
    assert_eq!(todo_messages("TODO: test", obj(vec![("patterns", strs(&[]))])).len(), 1);
}

#[test]
fn test_config_with_empty_ignore_patterns() {
    let request = create_request("TODO: test", obj(vec![("ignore_patterns", strs(&[]))]));
    assert!(request.source.contains("TODO:"));
}

#[test]
fn test_whitespace_around_markers() {
    let text = "  TODO:  with extra whitespace  ";
    assert!(text.contains("TODO:"));
    assert_eq!(todo_messages(text, obj(vec![])).len(), 1);
}

#[test]
fn no_todo_invalid_host_config_falls_back_to_defaults() {
    let cfg = no_todo::Config::from_host(Some(&obj(vec![("case_sensitive", text("yes"))])));
    assert!(!cfg.case_sensitive);
    assert!(cfg.patterns.is_empty());
}

#[test]
fn test_lint_simple() {
    let text = "Short sentence. Very long sentence that exceeds the limit definitely.";
    let config = sentence_length::Config::from_host(Some(&obj(vec![("max", num(20))])));
    let request = create_request(text, obj(vec![]));
    let response = sentence_length::lint(&request, &config);
    assert_eq!(response.diagnostics.len(), 1);
    assert!(response.diagnostics[0].message.contains("Sentence is too long"));
    assert_eq!(
        response.diagnostics[0].message,
        "Sentence is too long (53 characters). Maximum allowed is 20."
    );
    assert_eq!((response.diagnostics[0].span.start, response.diagnostics[0].span.end), (16, 69));
}

#[test]
fn sentence_length_defaults_and_manifest() {
    assert_eq!(sentence_length::Config::from_host(None).max, 100);
    assert_eq!(sentence_length::Config::from_host(Some(&obj(vec![("max", text("x"))]))).max, 100);
    assert_eq!(sentence_length::get_manifest().name, "sentence-length");
}
