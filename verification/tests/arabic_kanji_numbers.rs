use tzlint::ast::{Context, Diagnostic, NodeKind, NodeRef, Rule, Span};
use tzlint::rules::arabic_kanji_numbers::ArabicKanjiNumbers;

fn diagnose<R: Rule>(rule: &R, src: &str) -> Vec<Diagnostic> {
    let text = src.strip_suffix('\n').unwrap_or(src);
    let node = NodeRef::new(NodeKind::Paragraph, Span::new(0, text.len() as u32), text.to_string());
    let mut cx = Context::new(rule.meta());
    rule.check(&node, &mut cx);
    cx.into_diagnostics()
}

fn rule() -> ArabicKanjiNumbers {
    ArabicKanjiNumbers::new()
}

#[test]
fn flags_kanji_tsu() {
    let diags = diagnose(&rule(), "三つ食べた\n");
    assert_eq!(diags.len(), 1, "{diags:?}");
    assert!(diags[0].message.contains("算用数字"), "{}", diags[0].message);
}

#[test]
fn flags_kanji_kai() {
    assert_eq!(diagnose(&rule(), "三回やった\n").len(), 1);
}

#[test]
fn flags_kanji_kagetsu() {
    assert_eq!(diagnose(&rule(), "三か月かかる\n").len(), 1);
}

#[test]
fn flags_kanji_banme() {
    assert_eq!(diagnose(&rule(), "三番目に\n").len(), 1);
}

#[test]
fn flags_kanji_shinhou() {
    assert_eq!(diagnose(&rule(), "十進法とは\n").len(), 1);
}

#[test]
fn flags_kanji_jigen() {
    assert_eq!(diagnose(&rule(), "三次元空間\n").len(), 1);
}

#[test]
fn flags_dai_kanji_sho() {
    assert_eq!(diagnose(&rule(), "第三章を読む\n").len(), 1);
}

#[test]
fn flags_dai_kanji_setsu() {
    assert_eq!(diagnose(&rule(), "第一節の内容\n").len(), 1);
}

#[test]
fn flags_kanji_large_unit() {
    assert_eq!(diagnose(&rule(), "三億円\n").len(), 1);
}

#[test]
fn allows_approx_prefix_suu() {
    assert!(diagnose(&rule(), "数十億円\n").is_empty(), "数十億 must not be flagged");
}

#[test]
fn allows_approx_prefix_nani() {
    assert!(diagnose(&rule(), "何百万回も\n").is_empty(), "何百万 must not be flagged");
}

#[test]
fn allows_hitotsu_kanji_exceptions() {
    assert!(diagnose(&rule(), "一つ子の\n").is_empty(), "一つ子 is exception");
    assert!(diagnose(&rule(), "一つ返事で\n").is_empty(), "一つ返事 is exception");
}

#[test]
fn flags_ichijiteki() {
    let diags = diagnose(&rule(), "1時的な措置\n");
    assert_eq!(diags.len(), 1, "{diags:?}");
    assert!(diags[0].message.contains("漢数字"), "{}", diags[0].message);
}

#[test]
fn flags_ichibunsho() {
    assert_eq!(diagnose(&rule(), "1部分だけ\n").len(), 1);
}

#[test]
fn flags_daisansha() {
    assert_eq!(diagnose(&rule(), "第3者に\n").len(), 1);
}

#[test]
fn flags_isshu() {
    assert_eq!(diagnose(&rule(), "1種の\n").len(), 1);
}

#[test]
fn allows_isshu_rui() {
    assert!(diagnose(&rule(), "1種類の\n").is_empty(), "1種類 must not be flagged");
}

#[test]
fn allows_isshu_preceded_by_digit() {
    assert!(diagnose(&rule(), "11種の\n").is_empty(), "11種 must not be flagged");
}

#[test]
fn flags_ichibu_no() {
    assert_eq!(diagnose(&rule(), "1部の人\n").len(), 1);
}

#[test]
fn flags_ichiban_ni() {
    assert_eq!(diagnose(&rule(), "1番に来た\n").len(), 1);
}

#[test]
fn flags_go_tairiku() {
    assert_eq!(diagnose(&rule(), "5大陸を\n").len(), 1);
}

#[test]
fn flags_jikansuu() {
    assert_eq!(diagnose(&rule(), "2次関数の\n").len(), 1);
}

#[test]
fn flags_suu_10bai() {
    assert_eq!(diagnose(&rule(), "数10倍に\n").len(), 1);
}

#[test]
fn flags_suu_100nen() {
    assert_eq!(diagnose(&rule(), "数100年前\n").len(), 1);
}

#[test]
fn flags_sekai_ichi() {
    assert_eq!(diagnose(&rule(), "世界1の\n").len(), 1);
}

#[test]
fn clean_text_is_clean() {
    assert!(diagnose(&rule(), "3つ食べた\n").is_empty());
    assert!(diagnose(&rule(), "5回やった\n").is_empty());
    assert!(diagnose(&rule(), "第3章を読む\n").is_empty());
    assert!(diagnose(&rule(), "一時的な措置\n").is_empty());
    assert!(diagnose(&rule(), "第三者に\n").is_empty());
    assert!(diagnose(&rule(), "世界一の\n").is_empty());
    assert!(diagnose(&rule(), "五大陸を\n").is_empty());
    assert!(diagnose(&rule(), "二次関数\n").is_empty());
}

#[test]
fn kanji_to_arabic_message_and_span_are_exact() {
    let diags = diagnose(&rule(), "あ三つ\n");
    assert_eq!((diags[0].span.start, diags[0].span.end), (3, 9));
    assert_eq!(
        diags[0].message,
        "「三つ」の漢数字は算用数字で書いてください。\n\n数量を表現し、数を数えられるものは算用数字を使用します。任意の数に置き換えても通用する語句がこれに該当します。"
    );
}

#[test]
fn prefix_exceptions_keep_the_kanji() {
    assert!(diagnose(&rule(), "ただ一つ\n").is_empty());
    assert!(diagnose(&rule(), "馬鹿の一つ\n").is_empty());
    assert_eq!(diagnose(&rule(), "ただ二十つ\n").len(), 1);
}

#[test]
fn kanji_reports_come_before_arabic_reports() {
    let diags = diagnose(&rule(), "1種と三回\n");
    assert_eq!(diags.len(), 2);
    assert!(diags[0].message.contains("三回"));
    assert!(diags[1].message.contains("1種"));
}

#[test]
fn arabic_and_kanji_reports_come_in_order_without_overlap() {
    let diags = diagnose(&rule(), "世界1と第3者と5大陸\n");
    assert_eq!(diags.len(), 3);
    for w in diags.windows(2) {
        assert!(w[0].span.start < w[0].span.end && w[0].span.end <= w[1].span.start);
    }
}
