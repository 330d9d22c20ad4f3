//! `ja-no-successive-word` — flag the same word appearing twice in immediate succession
//! (e.g. 「私は 私は」, 「の の」), typically a typo or copy-paste error.
//!
//! Morphology-reading: adjacent source-ordered tokens are compared by surface, and the second
//! of a duplicate pair is reported. Repeated kanji numerals (「九九」) and, by default,
//! katakana-only surfaces (onomatopoeia such as 「ドキドキ」) are idiomatic and exempt; an
//! `allow` list exempts further surfaces. An out-of-vocabulary token breaks the chain.
use vstd::prelude::*;
use crate::ast::{plain, Context, Lang, NodeKind, NodeRef, Report, Rule, RuleMeta, Severity, Span};
use crate::json::{get_bool, get_str_items, opt_bool, opt_str_items, views, JsonValue};
use crate::morph::{sorted_tokens, surface_order, surface_order_upto, surface_text, text_of, FeatureKey, Token};
use crate::text::{byte_offsets, fits_usize, offsets_ok, push_chars, push_str, seq_eq, str_chars};

verus! {

/// The rule id.
pub const ID: &'static str = "ja-no-successive-word";

/// The node kinds the rule visits.
pub open spec fn node_kinds() -> Seq<NodeKind> {
    seq![NodeKind::Paragraph, NodeKind::Heading, NodeKind::TableCell]
}

/// Flags the same word used twice in immediate succession.
pub struct JaNoSuccessiveWord {
    pub meta: RuleMeta,
    /// Whether katakana-only surfaces (onomatopoeia) are exempt.
    pub allow_onomatopee: bool,
    /// Surfaces that are never flagged.
    pub allow: Vec<String>,
}

/// Whether `c` is in the onomatopoeia class `[ァ-ロワヲンー]`.
pub open spec fn is_onomatopee_char(c: char) -> bool {
    ('\u{30A1}' <= c && c <= '\u{30ED}') || c == '\u{30EF}' || c == '\u{30F2}' || c == '\u{30F3}' || c == '\u{30FC}'
}

/// Whether `s` is non-empty and made of [`is_onomatopee_char`] characters only.
pub open spec fn is_katakana_only(s: Seq<char>) -> bool {
    s.len() > 0 && forall|i: int| 0 <= i < s.len() ==> is_onomatopee_char(#[trigger] s[i])
}

/// Whether `tok` is a kanji numeral (名詞 with sub-type 数).
pub open spec fn is_kanji_number(tok: Token) -> bool {
    tok.feature_spec(FeatureKey::Pos) == Some("名詞"@) && tok.feature_spec(FeatureKey::PosSub1) == Some("数"@)
}

/// `"{surface}" が連続して2回使われています。`
pub open spec fn successive_message(surface: Seq<char>) -> Seq<char> {
    "\""@ + surface + "\" が連続して2回使われています。"@
}

/// The scan state: the previous token's surface (none after an unknown token), whether it was
/// a kanji numeral, and the reports so far.
pub struct Scan {
    pub prev: Option<Seq<char>>,
    pub prev_number: bool,
    pub reports: Seq<Report>,
}

impl JaNoSuccessiveWord {
    /// One step of the scan over token `tok`.
    pub open spec fn step(&self, s: Scan, tok: Token, base: u32, t: Seq<char>) -> Scan {
        if tok.unknown || text_of(base, t, tok.surface).is_none() {
            Scan { prev: None, prev_number: false, reports: s.reports }
        } else {
            let surface = text_of(base, t, tok.surface)->0;
            let number = is_kanji_number(tok);
            let flag = s.prev == Some(surface) && !(s.prev_number && number) && !(self.allow_onomatopee
                && is_katakana_only(surface)) && !views(self.allow@).contains(surface);
            Scan {
                prev: Some(surface),
                prev_number: number,
                reports: if flag {
                    s.reports.push(plain(tok.surface, successive_message(surface)))
                } else {
                    s.reports
                },
            }
        }
    }

    /// The scan over the first `n` source-ordered tokens.
    pub open spec fn scan(&self, toks: Seq<Token>, n: int, base: u32, t: Seq<char>) -> Scan
        decreases n,
    {
        if n <= 0 {
            Scan { prev: None, prev_number: false, reports: seq![] }
        } else {
            self.step(self.scan(toks, n - 1, base, t), toks[n - 1], base, t)
        }
    }

    /// What the rule reports for a node at `base` with text `t` and tokens `ts`.
    pub open spec fn spec_check_at(&self, base: u32, t: Seq<char>, ts: Seq<Token>) -> Seq<Report> {
        self.scan(sorted_tokens(ts), ts.len() as int, base, t).reports
    }

    /// Construct with default options (onomatopoeia exempt, empty `allow`).
    pub fn new() -> (r: JaNoSuccessiveWord)
        ensures
            r.meta.id@ == ID@,
            r.meta.node_kinds@ == node_kinds(),
            r.meta.default_severity == Severity::Warning,
            r.meta.lang == Some(Lang::Ja),
            r.meta.morphology,
            r.allow_onomatopee,
            r.allow@.len() == 0,
    {
        JaNoSuccessiveWord {
            meta: RuleMeta::new(ID, Severity::Warning, vec![NodeKind::Paragraph, NodeKind::Heading, NodeKind::TableCell])
                .with_morphology(Lang::Ja),
            allow_onomatopee: true,
            allow: Vec::new(),
        }
    }

    /// Construct from config `options`, leniently: `allowOnomatopee` (bool), `allow` (array of
    /// surfaces).
    pub fn from_options(options: &JsonValue) -> (r: JaNoSuccessiveWord)
        ensures
            r.meta.id@ == ID@,
            r.meta.node_kinds@ == node_kinds(),
            r.meta.default_severity == Severity::Warning,
            r.meta.lang == Some(Lang::Ja),
            r.meta.morphology,
            r.allow_onomatopee == match opt_bool(*options, "allowOnomatopee"@) {
                Some(b) => b,
                None => true,
            },
            views(r.allow@) == match opt_str_items(*options, "allow"@, false) {
                Some(ss) => ss,
                None => seq![],
            },
    {
        let mut rule = Self::new();
        if let Some(b) = get_bool(options, "allowOnomatopee") {
            rule.allow_onomatopee = b;
        }
        match get_str_items(options, "allow", false) {
            Some(items) => {
                rule.allow = items;
            },
            None => {
                assert(views(rule.allow@) =~= seq![]);
            },
        }
        rule
    }

    fn allowed(&self, surface: &[char]) -> (b: bool)
        ensures
            b == views(self.allow@).contains(surface@),
    {
        let ghost vs = views(self.allow@);
        let mut i: usize = 0;
        while i < self.allow.len()
            invariant
                i <= self.allow.len(),
                vs == views(self.allow@),
                forall|j: int| 0 <= j < i ==> vs[j] != surface@,
            decreases self.allow.len() - i,
        {
            let a = str_chars(self.allow[i].as_str());
            if seq_eq(a.as_slice(), surface) {
                assert(vs[i as int] == surface@);
                return true;
            }
            i = i + 1;
        }
        false
    }

    fn check_tokens(&self, base: u32, text: &str, ts: &Vec<Token>, cx: &mut Context)
        requires
            old(cx).wf(),
            fits_usize(text@),
        ensures
            final(cx).wf(),
            final(cx).id() == old(cx).id(),
            final(cx).severity() == old(cx).severity(),
            final(cx).reports() == old(cx).reports() + self.spec_check_at(base, text@, ts@),
    {
        let t = str_chars(text);
        let offs = byte_offsets(&t);
        let order = surface_order(ts);
        let ghost toks = sorted_tokens(ts@);
        let ghost r0 = cx.reports();
        let mut prev: Option<Vec<char>> = None;
        let mut prev_number = false;
        let mut i: usize = 0;
        while i < order.len()
            invariant
                i <= order.len(),
                t@ == text@,
                offsets_ok(t@, offs@),
                toks == sorted_tokens(ts@),
                order@.len() == ts@.len(),
                forall|k: int| 0 <= k < order@.len() ==> #[trigger] order@[k] < ts@.len(),
                order@.map_values(|i: usize| i as int) == surface_order_upto(ts@, ts@.len() as int),
                cx.wf(),
                cx.id() == old(cx).id(),
                cx.severity() == old(cx).severity(),
                r0 == old(cx).reports(),
                ({
                    let s = self.scan(toks, i as int, base, t@);
                    &&& s.prev == match prev {
                        Some(v) => Some(v@),
                        None => None,
                    }
                    &&& s.prev_number == prev_number
                    &&& cx.reports() == r0 + s.reports
                }),
            decreases order.len() - i,
        {
            assert(toks[i as int] == ts@[order@[i as int] as int]);
            let tok = &ts[order[i]];
            let surface = if tok.unknown {
                None
            } else {
                surface_text(base, &t, &offs, tok.surface)
            };
            match surface {
                None => {
                    prev = None;
                    prev_number = false;
                },
                Some(s) => {
                    let number = tok.feature_is(FeatureKey::Pos, "名詞") && tok.feature_is(FeatureKey::PosSub1, "数");
                    let same = match &prev {
                        Some(p) => seq_eq(p.as_slice(), s.as_slice()),
                        None => false,
                    };
                    if same && !(prev_number && number) && !(self.allow_onomatopee && katakana_only(s.as_slice()))
                        && !self.allowed(s.as_slice()) {
                        let mut m = String::new();
                        push_str(&mut m, "\"");
                        push_chars(&mut m, s.as_slice());
                        push_str(&mut m, "\" が連続して2回使われています。");
                        cx.report(tok.surface, m);
                    }
                    prev = Some(s);
                    prev_number = number;
                },
            }
            i = i + 1;
        }
    }
}

/// Exec form of [`is_katakana_only`].
pub fn katakana_only(s: &[char]) -> (b: bool)
    ensures
        b == is_katakana_only(s@),
{
    if s.len() == 0 {
        return false;
    }
    let mut i: usize = 0;
    while i < s.len()
        invariant
            i <= s.len(),
            forall|j: int| 0 <= j < i ==> is_onomatopee_char(#[trigger] s@[j]),
        decreases s.len() - i,
    {
        let c = s[i];
        if !(('\u{30A1}' <= c && c <= '\u{30ED}') || c == '\u{30EF}' || c == '\u{30F2}' || c == '\u{30F3}' || c == '\u{30FC}') {
            assert(!is_onomatopee_char(s@[i as int]));
            return false;
        }
        i = i + 1;
    }
    true
}

impl Rule for JaNoSuccessiveWord {
    open spec fn spec_meta(&self) -> RuleMeta {
        self.meta
    }

    open spec fn spec_check(&self, node: NodeRef) -> Seq<Report> {
        match node.tokens {
            Some(ts) => self.spec_check_at(node.span.start, node.text@, ts@),
            None => seq![],
        }
    }

    fn meta(&self) -> (m: &RuleMeta) {
        &self.meta
    }

    fn check(&self, node: &NodeRef, cx: &mut Context) {
        match &node.tokens {
            Some(ts) => self.check_tokens(node.span.start, node.text.as_str(), ts, cx),
            None => {
                assert(cx.reports() + Seq::<Report>::empty() =~= cx.reports());
            },
        }
    }
}

impl Default for JaNoSuccessiveWord {
    /// The rule with its default options, as [`JaNoSuccessiveWord::new`] builds it.
    fn default() -> (r: JaNoSuccessiveWord)
        ensures
            r.meta.id@ == ID@,
            r.meta.node_kinds@ == node_kinds(),
            r.meta.default_severity == Severity::Warning,
            r.meta.lang == Some(Lang::Ja),
            r.meta.morphology,
            r.allow_onomatopee,
            r.allow@.len() == 0,
    {
        JaNoSuccessiveWord::new()
    }
}

} // verus!
