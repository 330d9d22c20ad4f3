use tzlint::ast::{Context, Diagnostic, NodeKind, NodeRef, Rule, Span};
use tzlint::json::{JsonMember, JsonValue};
use tzlint::rules::no_todo::{chars_equal_ignore_case, find_pattern, NoTodo};

fn diagnose<R: Rule>(rule: &R, src: &str) -> Vec<Diagnostic> {
    let text = src.strip_suffix('\n').unwrap_or(src);
    let node = NodeRef::new(NodeKind::Text, Span::new(0, text.len() as u32), text.to_string());
    let mut cx = Context::new(rule.meta());
    rule.check(&node, &mut cx);
    cx.into_diagnostics()
}

fn obj(members: Vec<(&str, JsonValue)>) -> JsonValue {
    JsonValue::Object(
        members
            .into_iter()
            .map(|(k, v)| JsonMember { key: k.to_string(), value: v })
            .collect(),
    )
}

fn strings(items: &[&str]) -> JsonValue {
    JsonValue::Array(items.iter().map(|s| JsonValue::String(s.to_string())).collect())
}

#[test]
fn flags_default_markers_case_insensitively() {
    assert_eq!(diagnose(&NoTodo::new(), "todo: あとで直す\n").len(), 1);
    assert_eq!(diagnose(&NoTodo::new(), "FIXME これ\n").len(), 1);
    assert_eq!(diagnose(&NoTodo::new(), "TODO: a と XXX: b\n").len(), 2);
}

#[test]
fn plain_prose_is_clean() {
    assert!(diagnose(&NoTodo::new(), "今日のtodoリスト\n").is_empty());
}

#[test]
fn case_sensitive_and_custom_patterns() {
    let cs = NoTodo::from_options(&obj(vec![("case_sensitive", JsonValue::Bool(true))]));
    assert!(diagnose(&cs, "todo: lower\n").is_empty());
    assert_eq!(diagnose(&cs, "TODO: upper\n").len(), 1);

    let custom = NoTodo::from_options(&obj(vec![("patterns", strings(&["WIP"]))]));
    assert_eq!(diagnose(&custom, "WIP の節\n").len(), 1);
    assert!(diagnose(&custom, "TODO: not configured\n").is_empty());
}

#[test]
fn ignore_patterns_suppress_matches() {
    let rule = NoTodo::from_options(&obj(vec![("ignore_patterns", strings(&["FIXME"]))]));
    assert!(diagnose(&rule, "FIXME これ\n").is_empty());
    assert_eq!(diagnose(&rule, "TODO: あれ\n").len(), 1);
}

#[test]
fn find_pattern_guards_empty_and_out_of_bounds() {
    assert_eq!(find_pattern("abc", "", 0, false), None);
    assert_eq!(find_pattern("abc", "x", 99, true), None);
}

#[test]
fn empty_pattern_is_dropped_not_looped() {
    let rule = NoTodo::from_options(&obj(vec![("patterns", strings(&[""]))]));
    assert_eq!(diagnose(&rule, "TODO: x\n").len(), 1);
    assert!(diagnose(&rule, "plain\n").is_empty());
}

#[test]
fn find_pattern_returns_byte_offsets() {
    assert_eq!(find_pattern("あtodo: x", "TODO:", 0, false), Some((3, 8)));
    assert_eq!(find_pattern("あtodo: x", "TODO:", 0, true), None);
    assert_eq!(find_pattern("TODO: TODO:", "TODO:", 1, true), Some((6, 11)));
}

#[test]
fn no_todo_message_trims_the_pattern() {
    let diags = diagnose(&NoTodo::new(), "x FIXME y\n");
    assert_eq!(diags.len(), 1);
    assert_eq!(diags[0].message, "Found 'FIXME' marker. Consider resolving this before committing.");
    assert_eq!((diags[0].span.start, diags[0].span.end), (2, 8));
}

#[test]
fn case_folding_is_single_character_only() {
    assert!(chars_equal_ignore_case('a', 'A'));
    assert!(chars_equal_ignore_case('Ä', 'ä'));
    assert!(!chars_equal_ignore_case('a', 'b'));
    assert!(!chars_equal_ignore_case('İ', 'i'));
}
