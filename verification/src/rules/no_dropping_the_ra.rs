//! `no-dropping-the-ra` — flag ら抜き言葉: a 一段 or カ変 verb taking the potential auxiliary
//! 「れる」 where standard Japanese requires 「られる」 (見れる → 見られる, 来れる → 来られる).
//!
//! Morphology-reading: a known verb whose 活用型 starts with 一段 or カ変, immediately followed
//! by a known 動詞/助動詞 whose base form is れる, is reported over both tokens. A 五段 verb + れる
//! is the legitimate passive (書かれる) and is left alone.
use vstd::prelude::*;
use crate::ast::{plain, Context, Lang, NodeKind, NodeRef, Report, Rule, RuleMeta, Severity, Span};
use crate::morph::{sorted_tokens, surface_order, surface_order_upto, FeatureKey, Token};
use crate::text::{matches_at, occurs_at, str_chars};

verus! {

/// The rule id.
pub const ID: &'static str = "no-dropping-the-ra";

/// The node kinds the rule visits.
pub open spec fn node_kinds() -> Seq<NodeKind> {
    seq![NodeKind::Paragraph, NodeKind::Heading, NodeKind::TableCell]
}

/// Flags a 一段/カ変 verb followed by the potential auxiliary れる.
pub struct NoDroppingTheRa {
    pub meta: RuleMeta,
}

/// Whether `tok` is a verb whose 活用型 starts with 一段 or カ変.
pub open spec fn is_ichidan_or_kahen_verb(tok: Token) -> bool {
    &&& tok.feature_spec(FeatureKey::Pos) == Some("動詞"@)
    &&& tok.feature_spec(FeatureKey::ConjugationType) matches Some(c) && (occurs_at(c, 0, "一段"@) || occurs_at(
        c,
        0,
        "カ変"@,
    ))
}

/// Whether `tok` is the auxiliary れる (動詞 or 助動詞 with base form れる, not られる).
pub open spec fn is_reru_auxiliary(tok: Token) -> bool {
    let pos = tok.feature_spec(FeatureKey::Pos);
    (pos == Some("動詞"@) || pos == Some("助動詞"@)) && tok.base_spec() == Some("れる"@)
}

/// The diagnostic for a ら抜き expression.
pub open spec fn ra_message() -> Seq<char> {
    "ら抜き言葉がみつかりました。\n\n一段動詞・カ変動詞には「られる」を使ってください（例: 見れる → 見られる、来れる → 来られる）。"@
}

/// Reports for the pairs of source-ordered tokens starting before `n`.
pub open spec fn ra_reports(toks: Seq<Token>, n: int) -> Seq<Report>
    decreases n,
{
    if n <= 0 {
        seq![]
    } else {
        let rest = ra_reports(toks, n - 1);
        let i = n - 1;
        if i + 1 < toks.len() && !toks[i].unknown && !toks[i + 1].unknown && is_ichidan_or_kahen_verb(toks[i])
            && is_reru_auxiliary(toks[i + 1]) {
            rest.push(plain(Span { start: toks[i].surface.start, end: toks[i + 1].surface.end }, ra_message()))
        } else {
            rest
        }
    }
}

fn starts_with_lit(s: &str, lit: &str) -> (b: bool)
    ensures
        b == occurs_at(s@, 0, lit@),
{
    let cs = str_chars(s);
    let l = str_chars(lit);
    matches_at(cs.as_slice(), 0, l.as_slice())
}

fn ichidan_or_kahen(tok: &Token) -> (b: bool)
    ensures
        b == is_ichidan_or_kahen_verb(*tok),
{
    tok.feature_is(FeatureKey::Pos, "動詞") && match tok.feature(FeatureKey::ConjugationType) {
        Some(c) => starts_with_lit(c, "一段") || starts_with_lit(c, "カ変"),
        None => false,
    }
}

impl NoDroppingTheRa {
    /// Construct the rule (no options).
    pub fn new() -> (r: NoDroppingTheRa)
        ensures
            r.meta.id@ == ID@,
            r.meta.node_kinds@ == node_kinds(),
            r.meta.default_severity == Severity::Warning,
            r.meta.lang == Some(Lang::Ja),
            r.meta.morphology,
    {
        NoDroppingTheRa {
            meta: RuleMeta::new(ID, Severity::Warning, vec![NodeKind::Paragraph, NodeKind::Heading, NodeKind::TableCell])
                .with_morphology(Lang::Ja),
        }
    }

    fn check_tokens(ts: &Vec<Token>, cx: &mut Context)
        requires
            old(cx).wf(),
        ensures
            final(cx).wf(),
            final(cx).id() == old(cx).id(),
            final(cx).severity() == old(cx).severity(),
            final(cx).reports() == old(cx).reports() + ra_reports(sorted_tokens(ts@), ts@.len() as int),
    {
        let order = surface_order(ts);
        let ghost toks = sorted_tokens(ts@);
        let ghost r0 = cx.reports();
        let mut i: usize = 0;
        while i < order.len()
            invariant
                i <= order.len(),
                toks == sorted_tokens(ts@),
                toks.len() == order@.len(),
                order@.len() == ts@.len(),
                forall|k: int| 0 <= k < order@.len() ==> #[trigger] order@[k] < ts@.len(),
                order@.map_values(|i: usize| i as int) == surface_order_upto(ts@, ts@.len() as int),
                cx.wf(),
                cx.id() == old(cx).id(),
                cx.severity() == old(cx).severity(),
                r0 == old(cx).reports(),
                cx.reports() == r0 + ra_reports(toks, i as int),
            decreases order.len() - i,
        {
            if order.len() - i > 1 {
                assert(toks[i as int] == ts@[order@[i as int] as int]);
                assert(toks[i + 1] == ts@[order@[i + 1] as int]);
                let verb = &ts[order[i]];
                let aux = &ts[order[i + 1]];
                if !verb.unknown && !aux.unknown && ichidan_or_kahen(verb) && (aux.feature_is(FeatureKey::Pos, "動詞")
                    || aux.feature_is(FeatureKey::Pos, "助動詞")) && aux.base_is("れる") {
                    cx.report(
                        Span::new(verb.surface.start, aux.surface.end),
                        "ら抜き言葉がみつかりました。\n\n一段動詞・カ変動詞には「られる」を使ってください（例: 見れる → 見られる、来れる → 来られる）。".to_string(),
                    );
                }
            }
            i = i + 1;
        }
    }
}

impl Rule for NoDroppingTheRa {
    open spec fn spec_meta(&self) -> RuleMeta {
        self.meta
    }

    open spec fn spec_check(&self, node: NodeRef) -> Seq<Report> {
        match node.tokens {
            Some(ts) => ra_reports(sorted_tokens(ts@), ts@.len() as int),
            None => seq![],
        }
    }

    fn meta(&self) -> (m: &RuleMeta) {
        &self.meta
    }

    fn check(&self, node: &NodeRef, cx: &mut Context) {
        match &node.tokens {
            Some(ts) => Self::check_tokens(ts, cx),
            None => {
                assert(cx.reports() + Seq::<Report>::empty() =~= cx.reports());
            },
        }
    }
}

impl Default for NoDroppingTheRa {
    /// The rule with its default options, as [`NoDroppingTheRa::new`] builds it.
    fn default() -> (r: NoDroppingTheRa)
        ensures
            r.meta.id@ == ID@,
            r.meta.node_kinds@ == node_kinds(),
            r.meta.default_severity == Severity::Warning,
            r.meta.lang == Some(Lang::Ja),
            r.meta.morphology,
    {
        NoDroppingTheRa::new()
    }
}

} // verus!
