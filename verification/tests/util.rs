use tzlint::util::{is_fullwidth_alpha, is_halfwidth_kana, is_kanji, split_sentences, strip_urls};

#[test]
fn split_sentences_basic() {
    assert_eq!(split_sentences("Hello. World!"), vec!["Hello.", "World!"]);
    assert_eq!(
        split_sentences("一文目。二文目。"),
        vec!["一文目。", "二文目。"]
    );
    assert_eq!(split_sentences("no terminator"), vec!["no terminator"]);
    assert_eq!(split_sentences("a.  b."), vec!["a.", "b."]);
    assert!(split_sentences("").is_empty());
}

#[test]
fn strip_urls_collapses_runs() {
    assert_eq!(
        strip_urls("see https://example.com/a.b here"),
        "see ・ here"
    );
    assert_eq!(strip_urls("（http://x.y）after"), "（・）after");
    assert_eq!(strip_urls("plain text"), "plain text");
    assert_eq!(strip_urls("ftp://x"), "ftp://x");
}

#[test]
fn char_classes() {
    assert!(is_kanji('漢'));
    assert!(!is_kanji('々'));
    assert!(!is_kanji('あ'));
    assert!(is_halfwidth_kana('ｱ'));
    assert!(is_halfwidth_kana('｡'));
    assert!(!is_halfwidth_kana('ア'));
    assert!(is_fullwidth_alpha('Ａ'));
    assert!(is_fullwidth_alpha('ｚ'));
    assert!(!is_fullwidth_alpha('A'));
}

#[test]
fn split_sentences_trims_leading_whitespace_and_keeps_delimiters() {
    assert_eq!(split_sentences("  a? b！ c"), vec!["a?", "b！", "c"]);
    assert_eq!(split_sentences("。。"), vec!["。", "。"]);
    assert!(split_sentences("   ").is_empty());
}

#[test]
fn strip_urls_stops_at_closing_marks() {
    assert_eq!(strip_urls("http://a、b"), "・、b");
    assert_eq!(strip_urls("x https://a.b」y"), "x ・」y");
    assert_eq!(strip_urls("https://tail"), "・");
}

#[test]
fn strip_urls_leaves_plain_text_and_is_idempotent() {
    assert_eq!(strip_urls("plain text"), "plain text");
    assert_eq!(strip_urls("ftp://x"), "ftp://x");
    let once = strip_urls("a https://x.y/z b http://q");
    assert!(!once.contains("http://") && !once.contains("https://"));
    assert_eq!(strip_urls(&once), once);
}

#[test]
fn split_sentences_loses_only_whitespace() {
    let text = "  一文目。 二文目！\t三文目  ";
    let pieces = split_sentences(text);
    assert_eq!(pieces, vec!["一文目。", "二文目！", "三文目  "]);
    let rebuilt: String = pieces.concat();
    let squeezed: String = text.chars().filter(|c| !c.is_whitespace()).collect();
    assert_eq!(rebuilt.chars().filter(|c| !c.is_whitespace()).collect::<String>(), squeezed);
}
