//! `no-doubled-conjunctive-particle-ga` — flag the 逆接の接続助詞「が」 used more than once in a
//! single sentence (e.g. 「Aだが、Bするが、C」).
//!
//! Morphology-reading: only the conjunctive 「が」 (助詞, sub-type 接続助詞, surface が) counts,
//! never the subject-marking 格助詞. Every occurrence after the first in a sentence is reported.
use vstd::prelude::*;
use crate::ast::{plain, Context, Lang, NodeKind, NodeRef, Report, Rule, RuleMeta, Severity, Span};
use crate::morph::{sorted_tokens, surface_order, surface_order_upto, surface_text, text_of, FeatureKey, Token};
use crate::rules::no_mix_dearu_desumasu::{sentence_idx, sentence_index};
use crate::text::{byte_offsets, fits_usize, offsets_ok, seq_eq, str_chars};

verus! {

/// The rule id.
pub const ID: &'static str = "no-doubled-conjunctive-particle-ga";

/// The node kinds the rule visits.
pub open spec fn node_kinds() -> Seq<NodeKind> {
    seq![NodeKind::Paragraph, NodeKind::Heading, NodeKind::TableCell]
}

/// Flags the conjunctive 「が」 repeated within one sentence.
pub struct NoDoubledConjunctiveParticleGa {
    pub meta: RuleMeta,
}

/// Whether `tok` is a known conjunctive 「が」 (助詞 / 接続助詞 / surface が).
pub open spec fn is_conjunctive_ga(tok: Token, base: u32, t: Seq<char>) -> bool {
    &&& !tok.unknown
    &&& tok.feature_spec(FeatureKey::Pos) == Some("助詞"@)
    &&& tok.feature_spec(FeatureKey::PosSub1) == Some("接続助詞"@)
    &&& text_of(base, t, tok.surface) == Some("が"@)
}

/// The diagnostic for a repeated conjunctive が.
pub open spec fn ga_message() -> Seq<char> {
    "一文に二回以上利用されている接続助詞「が」がみつかりました。\n\n逆接の「が」を一文に複数置くと係り受けが分かりにくくなります。文を分割するか、二つ目以降の「が」を別の表現に書き換えてください。"@
}

/// The scan state: the sentence of the last conjunctive が and the reports so far.
pub struct GaScan {
    pub sentence: Option<nat>,
    pub reports: Seq<Report>,
}

/// The scan over the first `n` source-ordered tokens: a conjunctive が in the same sentence as
/// the previous one is reported.
pub open spec fn ga_scan(toks: Seq<Token>, n: int, base: u32, t: Seq<char>) -> GaScan
    decreases n,
{
    if n <= 0 {
        GaScan { sentence: None, reports: seq![] }
    } else {
        let s = ga_scan(toks, n - 1, base, t);
        let tok = toks[n - 1];
        if !is_conjunctive_ga(tok, base, t) {
            s
        } else {
            let idx = sentence_idx(base, t, tok.surface.start);
            GaScan {
                sentence: Some(idx),
                reports: if s.sentence == Some(idx) {
                    s.reports.push(plain(tok.surface, ga_message()))
                } else {
                    s.reports
                },
            }
        }
    }
}

impl NoDoubledConjunctiveParticleGa {
    /// Construct the rule (no options).
    pub fn new() -> (r: NoDoubledConjunctiveParticleGa)
        ensures
            r.meta.id@ == ID@,
            r.meta.node_kinds@ == node_kinds(),
            r.meta.default_severity == Severity::Warning,
            r.meta.lang == Some(Lang::Ja),
            r.meta.morphology,
    {
        NoDoubledConjunctiveParticleGa {
            meta: RuleMeta::new(ID, Severity::Warning, vec![NodeKind::Paragraph, NodeKind::Heading, NodeKind::TableCell])
                .with_morphology(Lang::Ja),
        }
    }

    /// What the rule reports for a node at `base` with text `t` and tokens `ts`.
    pub open spec fn spec_check_at(base: u32, t: Seq<char>, ts: Seq<Token>) -> Seq<Report> {
        ga_scan(sorted_tokens(ts), ts.len() as int, base, t).reports
    }

    fn check_tokens(base: u32, text: &str, ts: &Vec<Token>, cx: &mut Context)
        requires
            old(cx).wf(),
            fits_usize(text@),
        ensures
            final(cx).wf(),
            final(cx).id() == old(cx).id(),
            final(cx).severity() == old(cx).severity(),
            final(cx).reports() == old(cx).reports() + Self::spec_check_at(base, text@, ts@),
    {
        let t = str_chars(text);
        let offs = byte_offsets(&t);
        let order = surface_order(ts);
        let ghost toks = sorted_tokens(ts@);
        let ghost r0 = cx.reports();
        let ga = str_chars("が");
        let mut current: Option<usize> = None;
        let mut i: usize = 0;
        while i < order.len()
            invariant
                i <= order.len(),
                t@ == text@,
                ga@ == "が"@,
                offsets_ok(t@, offs@),
                toks == sorted_tokens(ts@),
                order@.len() == ts@.len(),
                forall|k: int| 0 <= k < order@.len() ==> #[trigger] order@[k] < ts@.len(),
                order@.map_values(|i: usize| i as int) == surface_order_upto(ts@, ts@.len() as int),
                cx.wf(),
                cx.id() == old(cx).id(),
                cx.severity() == old(cx).severity(),
                r0 == old(cx).reports(),
                ({
                    let s = ga_scan(toks, i as int, base, t@);
                    &&& s.sentence == match current {
                        Some(c) => Some(c as nat),
                        None => None,
                    }
                    &&& cx.reports() == r0 + s.reports
                }),
            decreases order.len() - i,
        {
            assert(toks[i as int] == ts@[order@[i as int] as int]);
            let tok = &ts[order[i]];
            let is_ga = !tok.unknown && tok.feature_is(FeatureKey::Pos, "助詞") && tok.feature_is(FeatureKey::PosSub1, "接続助詞")
                && match surface_text(base, &t, &offs, tok.surface) {
                Some(v) => seq_eq(v.as_slice(), ga.as_slice()),
                None => false,
            };
            if is_ga {
                let idx = sentence_index(base, &t, &offs, tok.surface.start);
                let same = match current {
                    Some(c) => c == idx,
                    None => false,
                };
                if same {
                    cx.report(
                        tok.surface,
                        "一文に二回以上利用されている接続助詞「が」がみつかりました。\n\n逆接の「が」を一文に複数置くと係り受けが分かりにくくなります。文を分割するか、二つ目以降の「が」を別の表現に書き換えてください。".to_string(),
                    );
                }
                current = Some(idx);
            }
            i = i + 1;
        }
    }
}

impl Rule for NoDoubledConjunctiveParticleGa {
    open spec fn spec_meta(&self) -> RuleMeta {
        self.meta
    }

    open spec fn spec_check(&self, node: NodeRef) -> Seq<Report> {
        match node.tokens {
            Some(ts) => Self::spec_check_at(node.span.start, node.text@, ts@),
            None => seq![],
        }
    }

    fn meta(&self) -> (m: &RuleMeta) {
        &self.meta
    }

    fn check(&self, node: &NodeRef, cx: &mut Context) {
        match &node.tokens {
            Some(ts) => Self::check_tokens(node.span.start, node.text.as_str(), ts, cx),
            None => {
                assert(cx.reports() + Seq::<Report>::empty() =~= cx.reports());
            },
        }
    }
}

impl Default for NoDoubledConjunctiveParticleGa {
    /// The rule with its default options, as [`NoDoubledConjunctiveParticleGa::new`] builds it.
    fn default() -> (r: NoDoubledConjunctiveParticleGa)
        ensures
            r.meta.id@ == ID@,
            r.meta.node_kinds@ == node_kinds(),
            r.meta.default_severity == Severity::Warning,
            r.meta.lang == Some(Lang::Ja),
            r.meta.morphology,
    {
        NoDoubledConjunctiveParticleGa::new()
    }
}

} // verus!
