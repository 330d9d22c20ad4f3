//! `ja-unnatural-alphabet` — flag an isolated Latin letter between two Japanese characters,
//! almost certainly an IME input error (e.g. 「リイrース」).
//!
//! A surface rule: a half- or full-width letter whose neighbours are both Japanese characters is
//! reported unless it is on the allow-list: upper-case letters (abbreviations), vowels and `n`
//! (half- and full-width), any letter before 「言」 (C言語), and x/y/z before 「座」 or 「軸」.
use vstd::prelude::*;
use crate::ast::{abs_span, make_span, plain, Context, Lang, NodeKind, NodeRef, Report, Rule, RuleMeta, Severity};
use crate::text::{byte_at, byte_offsets, fits_usize, offsets_ok, push_char, push_str, str_chars};

verus! {

/// The rule id.
pub const ID: &'static str = "ja-unnatural-alphabet";

/// The node kinds the rule visits.
pub open spec fn node_kinds() -> Seq<NodeKind> {
    seq![NodeKind::Paragraph, NodeKind::Heading, NodeKind::TableCell]
}

/// Flags isolated alphabet characters that are almost certainly IME input errors.
pub struct JaUnnaturalAlphabet {
    pub meta: RuleMeta,
}

/// A half- or full-width Latin letter.
pub open spec fn spec_is_alphabet(c: char) -> bool {
    ('a' <= c && c <= 'z') || ('A' <= c && c <= 'Z') || ('\u{FF41}' <= c && c <= '\u{FF5A}') || ('\u{FF21}' <= c
        && c <= '\u{FF3A}')
}

/// A Japanese character: CJK ideographs (with Extension A and Compatibility), kana, 々〇〻ー,
/// the prose punctuation 。、・−, and the Halfwidth and Fullwidth Forms block.
pub open spec fn spec_is_japanese(c: char) -> bool {
    c == '々' || c == '〇' || c == '〻' || ('\u{3400}' <= c && c <= '\u{4DBF}') || ('\u{4E00}' <= c && c
        <= '\u{9FFF}') || ('\u{F900}' <= c && c <= '\u{FAFF}') || ('ぁ' <= c && c <= 'ん') || ('ァ' <= c && c
        <= 'ヶ') || c == 'ー' || c == '。' || c == '、' || c == '・' || c == '−' || ('\u{FF00}' <= c && c
        <= '\u{FFEF}')
}

/// The ASCII lower-case of a half- or full-width Latin letter (other characters unchanged).
pub open spec fn spec_to_ascii_lower(c: char) -> char {
    if 'A' <= c && c <= 'Z' {
        ((c as u32) + 32) as char
    } else if 'a' <= c && c <= 'z' {
        c
    } else if '\u{FF41}' <= c && c <= '\u{FF5A}' {
        ((c as u32) - 0xFF41 + 0x61) as char
    } else if '\u{FF21}' <= c && c <= '\u{FF3A}' {
        ((c as u32) - 0xFF21 + 0x61) as char
    } else {
        c
    }
}

/// Whether the letter `ch` followed by `next` is on the allow-list.
pub open spec fn spec_is_allowed(ch: char, next: char) -> bool {
    let lower = spec_to_ascii_lower(ch);
    ||| ('A' <= ch && ch <= 'Z') || ('\u{FF21}' <= ch && ch <= '\u{FF3A}')
    ||| lower == 'a' || lower == 'i' || lower == 'u' || lower == 'e' || lower == 'o' || lower == 'n'
    ||| next == '言'
    ||| (lower == 'x' || lower == 'y' || lower == 'z') && (next == '座' || next == '軸')
}

/// Whether `c` is a half- or full-width Latin letter.
#[verifier::when_used_as_spec(spec_is_alphabet)]
pub fn is_alphabet(c: char) -> (b: bool)
    ensures
        b == spec_is_alphabet(c),
{
    ('a' <= c && c <= 'z') || ('A' <= c && c <= 'Z') || ('\u{FF41}' <= c && c <= '\u{FF5A}') || ('\u{FF21}' <= c
        && c <= '\u{FF3A}')
}

/// Whether `c` is a Japanese character (see [`spec_is_japanese`]).
#[verifier::when_used_as_spec(spec_is_japanese)]
pub fn is_japanese(c: char) -> (b: bool)
    ensures
        b == spec_is_japanese(c),
{
    c == '々' || c == '〇' || c == '〻' || ('\u{3400}' <= c && c <= '\u{4DBF}') || ('\u{4E00}' <= c && c
        <= '\u{9FFF}') || ('\u{F900}' <= c && c <= '\u{FAFF}') || ('ぁ' <= c && c <= 'ん') || ('ァ' <= c && c
        <= 'ヶ') || c == 'ー' || c == '。' || c == '、' || c == '・' || c == '−' || ('\u{FF00}' <= c && c
        <= '\u{FFEF}')
}

/// The ASCII lower-case of a half- or full-width Latin letter (other characters unchanged).
#[verifier::when_used_as_spec(spec_to_ascii_lower)]
pub fn to_ascii_lower(c: char) -> (r: char)
    ensures
        r == spec_to_ascii_lower(c),
{
    if 'A' <= c && c <= 'Z' {
        ((c as u32 + 32) as u8) as char
    } else if 'a' <= c && c <= 'z' {
        c
    } else if '\u{FF41}' <= c && c <= '\u{FF5A}' {
        ((c as u32 - 0xFF41 + 0x61) as u8) as char
    } else if '\u{FF21}' <= c && c <= '\u{FF3A}' {
        ((c as u32 - 0xFF21 + 0x61) as u8) as char
    } else {
        c
    }
}

/// Whether the letter `ch` followed by `next` is on the allow-list.
#[verifier::when_used_as_spec(spec_is_allowed)]
pub fn is_allowed(ch: char, next: char) -> (b: bool)
    ensures
        b == spec_is_allowed(ch, next),
{
    if ('A' <= ch && ch <= 'Z') || ('\u{FF21}' <= ch && ch <= '\u{FF3A}') {
        return true;
    }
    let lower = to_ascii_lower(ch);
    if lower == 'a' || lower == 'i' || lower == 'u' || lower == 'e' || lower == 'o' || lower == 'n' {
        return true;
    }
    if next == '言' {
        return true;
    }
    (lower == 'x' || lower == 'y' || lower == 'z') && (next == '座' || next == '軸')
}

/// `不自然なアルファベットがあります: {ch}\n\nIMEの入力ミスの可能性があります。意図した文字であれば無視してください。`
pub open spec fn alphabet_message(ch: char) -> Seq<char> {
    "不自然なアルファベットがあります: "@ + seq![ch] + "\n\nIMEの入力ミスの可能性があります。意図した文字であれば無視してください。"@
}

/// Reports for the characters at indices `1..n` of `t` (each needs both neighbours).
pub open spec fn alphabet_reports(base: u32, t: Seq<char>, n: int) -> Seq<Report>
    decreases n,
{
    if n <= 1 {
        seq![]
    } else {
        let rest = alphabet_reports(base, t, n - 1);
        let i = n - 1;
        if i + 1 < t.len() && spec_is_alphabet(t[i]) && spec_is_japanese(t[i - 1]) && spec_is_japanese(t[i + 1])
            && !spec_is_allowed(t[i], t[i + 1]) {
            rest.push(plain(abs_span(base, byte_at(t, i) as int, byte_at(t, i + 1) as int), alphabet_message(t[i])))
        } else {
            rest
        }
    }
}

impl JaUnnaturalAlphabet {
    /// Construct the rule (no options).
    pub fn new() -> (r: JaUnnaturalAlphabet)
        ensures
            r.meta.id@ == ID@,
            r.meta.node_kinds@ == node_kinds(),
            r.meta.default_severity == Severity::Warning,
            r.meta.lang == Some(Lang::Ja),
    {
        JaUnnaturalAlphabet {
            meta: RuleMeta::new(ID, Severity::Warning, vec![NodeKind::Paragraph, NodeKind::Heading, NodeKind::TableCell])
                .for_language(Lang::Ja),
        }
    }

    fn check_text(base: u32, text: &str, cx: &mut Context)
        requires
            old(cx).wf(),
            fits_usize(text@),
        ensures
            final(cx).wf(),
            final(cx).id() == old(cx).id(),
            final(cx).severity() == old(cx).severity(),
            final(cx).reports() == old(cx).reports() + alphabet_reports(base, text@, text@.len() as int),
    {
        let t = str_chars(text);
        let offs = byte_offsets(&t);
        let ghost r0 = cx.reports();
        if t.len() < 2 {
            assert(alphabet_reports(base, t@, t@.len() as int) == Seq::<Report>::empty());
            assert(cx.reports() =~= r0 + Seq::<Report>::empty());
            return;
        }
        let mut i: usize = 1;
        while i < t.len()
            invariant
                1 <= i <= t.len(),
                t@ == text@,
                offsets_ok(t@, offs@),
                cx.wf(),
                cx.id() == old(cx).id(),
                cx.severity() == old(cx).severity(),
                r0 == old(cx).reports(),
                cx.reports() == r0 + alphabet_reports(base, t@, i as int),
            decreases t.len() - i,
        {
            if i + 1 < t.len() {
                let ch = t[i];
                if is_alphabet(ch) && is_japanese(t[i - 1]) && is_japanese(t[i + 1]) && !is_allowed(ch, t[i + 1]) {
                    let mut m = String::new();
                    push_str(&mut m, "不自然なアルファベットがあります: ");
                    push_char(&mut m, ch);
                    push_str(&mut m, "\n\nIMEの入力ミスの可能性があります。意図した文字であれば無視してください。");
                    assert(m@ =~= alphabet_message(ch));
                    cx.report(make_span(base, offs[i], offs[i + 1]), m);
                }
            }
            i = i + 1;
        }
    }
}

impl Rule for JaUnnaturalAlphabet {
    open spec fn spec_meta(&self) -> RuleMeta {
        self.meta
    }

    open spec fn spec_check(&self, node: NodeRef) -> Seq<Report> {
        alphabet_reports(node.span.start, node.text@, node.text@.len() as int)
    }

    fn meta(&self) -> (m: &RuleMeta) {
        &self.meta
    }

    fn check(&self, node: &NodeRef, cx: &mut Context) {
        Self::check_text(node.span.start, node.text.as_str(), cx);
    }
}

impl Default for JaUnnaturalAlphabet {
    /// The rule with its default options, as [`JaUnnaturalAlphabet::new`] builds it.
    fn default() -> (r: JaUnnaturalAlphabet)
        ensures
            r.meta.id@ == ID@,
            r.meta.node_kinds@ == node_kinds(),
            r.meta.default_severity == Severity::Warning,
            r.meta.lang == Some(Lang::Ja),
    {
        JaUnnaturalAlphabet::new()
    }
}

} // verus!
