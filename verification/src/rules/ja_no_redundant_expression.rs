//! `ja-no-redundant-expression` — flag the redundant 「〜することができる」 family (冗長表現),
//! which reads more tightly as 「〜できる」.
//!
//! Morphology-reading and report-only: the run of three adjacent source-ordered tokens
//! `こと` (名詞) → `が` (格助詞) → `できる` (動詞 by base form) or `可能` (名詞) is reported over
//! its whole span.
use vstd::prelude::*;
use crate::ast::{plain, Context, Lang, NodeKind, NodeRef, Report, Rule, RuleMeta, Severity, Span};
use crate::morph::{sorted_tokens, surface_order, surface_order_upto, surface_text, text_of, FeatureKey, Token};
use crate::text::{byte_offsets, fits_usize, offsets_ok, seq_eq, str_chars};

verus! {

/// The rule id.
pub const ID: &'static str = "ja-no-redundant-expression";

/// The node kinds the rule visits.
pub open spec fn node_kinds() -> Seq<NodeKind> {
    seq![NodeKind::Paragraph, NodeKind::Heading, NodeKind::TableCell]
}

/// Flags a redundant 「〜することができる」-family expression.
pub struct JaNoRedundantExpression {
    pub meta: RuleMeta,
}

/// Whether the three known tokens `koto`, `ga`, `tail` read こと + が + できる/可能.
pub open spec fn is_koto_ga_dekiru(koto: Token, ga: Token, tail: Token, base: u32, t: Seq<char>) -> bool {
    let tail_pos = tail.feature_spec(FeatureKey::Pos);
    &&& !koto.unknown && !ga.unknown && !tail.unknown
    &&& koto.feature_spec(FeatureKey::Pos) == Some("名詞"@) && text_of(base, t, koto.surface) == Some("こと"@)
    &&& ga.feature_spec(FeatureKey::Pos) == Some("助詞"@) && ga.feature_spec(FeatureKey::PosSub1) == Some("格助詞"@)
        && text_of(base, t, ga.surface) == Some("が"@)
    &&& (tail_pos == Some("動詞"@) && tail.base_spec() == Some("できる"@)) || (tail_pos == Some("名詞"@) && text_of(
        base,
        t,
        tail.surface,
    ) == Some("可能"@))
}

/// The diagnostic for a 「〜することができる」-family redundancy.
pub open spec fn redundant_message() -> Seq<char> {
    "冗長な表現「ことができる」がみつかりました。\n\n「〜できる」と簡潔に書けないか検討してください（例: 泳ぐことができる → 泳げる）。"@
}

/// Reports for the windows of three source-ordered tokens starting before `n`.
pub open spec fn redundant_reports(toks: Seq<Token>, n: int, base: u32, t: Seq<char>) -> Seq<Report>
    decreases n,
{
    if n <= 0 {
        seq![]
    } else {
        let rest = redundant_reports(toks, n - 1, base, t);
        let i = n - 1;
        if i + 2 < toks.len() && is_koto_ga_dekiru(toks[i], toks[i + 1], toks[i + 2], base, t) {
            rest.push(plain(Span { start: toks[i].surface.start, end: toks[i + 2].surface.end }, redundant_message()))
        } else {
            rest
        }
    }
}

fn text_is(base: u32, t: &Vec<char>, offs: &Vec<usize>, sp: Span, lit: &str) -> (b: bool)
    requires
        offsets_ok(t@, offs@),
    ensures
        b == (text_of(base, t@, sp) == Some(lit@)),
{
    match surface_text(base, t, offs, sp) {
        Some(v) => {
            let l = str_chars(lit);
            seq_eq(v.as_slice(), l.as_slice())
        },
        None => false,
    }
}

impl JaNoRedundantExpression {
    /// Construct the rule (no options).
    pub fn new() -> (r: JaNoRedundantExpression)
        ensures
            r.meta.id@ == ID@,
            r.meta.node_kinds@ == node_kinds(),
            r.meta.default_severity == Severity::Warning,
            r.meta.lang == Some(Lang::Ja),
            r.meta.morphology,
    {
        JaNoRedundantExpression {
            meta: RuleMeta::new(ID, Severity::Warning, vec![NodeKind::Paragraph, NodeKind::Heading, NodeKind::TableCell])
                .with_morphology(Lang::Ja),
        }
    }

    /// What the rule reports for a node at `base` with text `t` and tokens `ts`.
    pub open spec fn spec_check_at(base: u32, t: Seq<char>, ts: Seq<Token>) -> Seq<Report> {
        redundant_reports(sorted_tokens(ts), ts.len() as int, base, t)
    }

    fn check_tokens(base: u32, text: &str, ts: &Vec<Token>, cx: &mut Context)
        requires
            old(cx).wf(),
            fits_usize(text@),
        ensures
            final(cx).wf(),
            final(cx).id() == old(cx).id(),
            final(cx).severity() == old(cx).severity(),
            final(cx).reports() == old(cx).reports() + Self::spec_check_at(base, text@, ts@),
    {
        let t = str_chars(text);
        let offs = byte_offsets(&t);
        let order = surface_order(ts);
        let ghost toks = sorted_tokens(ts@);
        let ghost r0 = cx.reports();
        let mut i: usize = 0;
        while i < order.len()
            invariant
                i <= order.len(),
                t@ == text@,
                offsets_ok(t@, offs@),
                toks == sorted_tokens(ts@),
                toks.len() == order@.len(),
                order@.len() == ts@.len(),
                forall|k: int| 0 <= k < order@.len() ==> #[trigger] order@[k] < ts@.len(),
                order@.map_values(|i: usize| i as int) == surface_order_upto(ts@, ts@.len() as int),
                cx.wf(),
                cx.id() == old(cx).id(),
                cx.severity() == old(cx).severity(),
                r0 == old(cx).reports(),
                cx.reports() == r0 + redundant_reports(toks, i as int, base, t@),
            decreases order.len() - i,
        {
            if order.len() - i > 2 {
                assert(toks[i as int] == ts@[order@[i as int] as int]);
                assert(toks[i + 1] == ts@[order@[i + 1] as int]);
                assert(toks[i + 2] == ts@[order@[i + 2] as int]);
                let koto = &ts[order[i]];
                let ga = &ts[order[i + 1]];
                let tail = &ts[order[i + 2]];
                let known = !koto.unknown && !ga.unknown && !tail.unknown;
                let is_koto = koto.feature_is(FeatureKey::Pos, "名詞") && text_is(base, &t, &offs, koto.surface, "こと");
                let is_ga = ga.feature_is(FeatureKey::Pos, "助詞") && ga.feature_is(FeatureKey::PosSub1, "格助詞")
                    && text_is(base, &t, &offs, ga.surface, "が");
                let is_tail = (tail.feature_is(FeatureKey::Pos, "動詞") && tail.base_is("できる")) || (tail.feature_is(
                    FeatureKey::Pos,
                    "名詞",
                ) && text_is(base, &t, &offs, tail.surface, "可能"));
                if known && is_koto && is_ga && is_tail {
                    cx.report(
                        Span::new(koto.surface.start, tail.surface.end),
                        "冗長な表現「ことができる」がみつかりました。\n\n「〜できる」と簡潔に書けないか検討してください（例: 泳ぐことができる → 泳げる）。".to_string(),
                    );
                }
            }
            i = i + 1;
        }
    }
}

impl Rule for JaNoRedundantExpression {
    open spec fn spec_meta(&self) -> RuleMeta {
        self.meta
    }

    open spec fn spec_check(&self, node: NodeRef) -> Seq<Report> {
        match node.tokens {
            Some(ts) => Self::spec_check_at(node.span.start, node.text@, ts@),
            None => seq![],
        }
    }

    fn meta(&self) -> (m: &RuleMeta) {
        &self.meta
    }

    fn check(&self, node: &NodeRef, cx: &mut Context) {
        match &node.tokens {
            Some(ts) => Self::check_tokens(node.span.start, node.text.as_str(), ts, cx),
            None => {
                assert(cx.reports() + Seq::<Report>::empty() =~= cx.reports());
            },
        }
    }
}

impl Default for JaNoRedundantExpression {
    /// The rule with its default options, as [`JaNoRedundantExpression::new`] builds it.
    fn default() -> (r: JaNoRedundantExpression)
        ensures
            r.meta.id@ == ID@,
            r.meta.node_kinds@ == node_kinds(),
            r.meta.default_severity == Severity::Warning,
            r.meta.lang == Some(Lang::Ja),
            r.meta.morphology,
    {
        JaNoRedundantExpression::new()
    }
}

} // verus!
