//! `no-doubled-conjunction` — flag the same conjunction (接続詞) opening consecutive sentences
//! of a paragraph (e.g. two sentences in a row both beginning with 「しかし」).
//!
//! Morphology-reading: the first 接続詞 token of each sentence is recorded (one preceded by a
//! whitespace token is skipped), and the recorded conjunction of a sentence is reported when it
//! has the same surface as the one recorded just before it. Keys on the IPADIC literal 「接続詞」.
use vstd::prelude::*;
use crate::ast::{plain, Context, Lang, NodeKind, NodeRef, Report, Rule, RuleMeta, Severity, Span};
use crate::morph::{sorted_tokens, surface_order, surface_order_upto, surface_text_or_empty, text_or_empty, FeatureKey, Token};
use crate::rules::no_mix_dearu_desumasu::{sentence_idx, sentence_index};
use crate::text::{byte_offsets, fits_usize, offsets_ok, push_chars, push_str, seq_eq, str_chars};

verus! {

/// The rule id.
pub const ID: &'static str = "no-doubled-conjunction";

/// The node kinds the rule visits.
pub open spec fn node_kinds() -> Seq<NodeKind> {
    seq![NodeKind::Paragraph, NodeKind::Heading, NodeKind::TableCell]
}

/// Flags the same sentence-initial conjunction in consecutive sentences.
pub struct NoDoubledConjunction {
    pub meta: RuleMeta,
}

/// A recorded conjunction: its sentence index, surface and span.
pub type Opening = (nat, Seq<char>, Span);

/// Whether the `idx`-th source-ordered token is a conjunction the rule records: a known
/// 接続詞 not preceded by a known whitespace (空白) token.
pub open spec fn is_opening_candidate(toks: Seq<Token>, idx: int) -> bool {
    let tok = toks[idx];
    &&& !tok.unknown
    &&& tok.feature_spec(FeatureKey::Pos) == Some("接続詞"@)
    &&& !(idx > 0 && !toks[idx - 1].unknown && toks[idx - 1].feature_spec(FeatureKey::PosSub1) == Some("空白"@))
}

/// The first recorded conjunction of each sentence among the first `n` source-ordered tokens.
pub open spec fn openings(toks: Seq<Token>, n: int, base: u32, t: Seq<char>) -> Seq<Opening>
    decreases n,
{
    if n <= 0 {
        seq![]
    } else {
        let acc = openings(toks, n - 1, base, t);
        let tok = toks[n - 1];
        let s = sentence_idx(base, t, tok.surface.start);
        if !is_opening_candidate(toks, n - 1) || (acc.len() > 0 && acc.last().0 == s) {
            acc
        } else {
            acc.push((s, text_or_empty(base, t, tok.surface), tok.surface))
        }
    }
}

/// `同じ接続詞（{surface}）が連続して使われています。`
pub open spec fn conjunction_message(surface: Seq<char>) -> Seq<char> {
    "同じ接続詞（"@ + surface + "）が連続して使われています。"@
}

/// Reports for the recorded pairs `(os[j-1], os[j])`, `1 <= j <= n`, with the same non-empty
/// surface.
pub open spec fn opening_reports(os: Seq<Opening>, n: int) -> Seq<Report>
    decreases n,
{
    if n <= 0 {
        seq![]
    } else {
        let rest = opening_reports(os, n - 1);
        if os[n - 1].1 == os[n].1 && os[n].1.len() > 0 {
            rest.push(plain(os[n].2, conjunction_message(os[n].1)))
        } else {
            rest
        }
    }
}

impl NoDoubledConjunction {
    /// Construct the rule (no options).
    pub fn new() -> (r: NoDoubledConjunction)
        ensures
            r.meta.id@ == ID@,
            r.meta.node_kinds@ == node_kinds(),
            r.meta.default_severity == Severity::Warning,
            r.meta.lang == Some(Lang::Ja),
            r.meta.morphology,
    {
        NoDoubledConjunction {
            meta: RuleMeta::new(ID, Severity::Warning, vec![NodeKind::Paragraph, NodeKind::Heading, NodeKind::TableCell])
                .with_morphology(Lang::Ja),
        }
    }

    /// What the rule reports for a node at `base` with text `t` and tokens `ts`.
    pub open spec fn spec_check_at(base: u32, t: Seq<char>, ts: Seq<Token>) -> Seq<Report> {
        let os = openings(sorted_tokens(ts), ts.len() as int, base, t);
        opening_reports(os, os.len() - 1)
    }

    fn check_tokens(base: u32, text: &str, ts: &Vec<Token>, cx: &mut Context)
        requires
            old(cx).wf(),
            fits_usize(text@),
        ensures
            final(cx).wf(),
            final(cx).id() == old(cx).id(),
            final(cx).severity() == old(cx).severity(),
            final(cx).reports() == old(cx).reports() + Self::spec_check_at(base, text@, ts@),
    {
        let t = str_chars(text);
        let offs = byte_offsets(&t);
        let order = surface_order(ts);
        let ghost toks = sorted_tokens(ts@);
        let mut sents: Vec<usize> = Vec::new();
        let mut surfaces: Vec<Vec<char>> = Vec::new();
        let mut spans: Vec<Span> = Vec::new();
        let mut i: usize = 0;
        while i < order.len()
            invariant
                i <= order.len(),
                t@ == text@,
                offsets_ok(t@, offs@),
                toks == sorted_tokens(ts@),
                order@.len() == ts@.len(),
                forall|k: int| 0 <= k < order@.len() ==> #[trigger] order@[k] < ts@.len(),
                order@.map_values(|i: usize| i as int) == surface_order_upto(ts@, ts@.len() as int),
                sents@.len() == surfaces@.len(),
                sents@.len() == spans@.len(),
                ({
                    let os = openings(toks, i as int, base, t@);
                    &&& os.len() == sents@.len()
                    &&& forall|k: int| 0 <= k < os.len() ==> #[trigger] os[k] == (sents@[k] as nat, surfaces@[k]@, spans@[k])
                }),
            decreases order.len() - i,
        {
            assert(toks[i as int] == ts@[order@[i as int] as int]);
            let tok = &ts[order[i]];
            let mut candidate = !tok.unknown && tok.feature_is(FeatureKey::Pos, "接続詞");
            if candidate && i > 0 {
                assert(toks[i - 1] == ts@[order@[i - 1] as int]);
                let prev = &ts[order[i - 1]];
                if !prev.unknown && prev.feature_is(FeatureKey::PosSub1, "空白") {
                    candidate = false;
                }
            }
            if candidate {
                let s = sentence_index(base, &t, &offs, tok.surface.start);
                let n = sents.len();
                if !(n > 0 && sents[n - 1] == s) {
                    sents.push(s);
                    surfaces.push(surface_text_or_empty(base, &t, &offs, tok.surface));
                    spans.push(tok.surface);
                }
            }
            i = i + 1;
        }
        let ghost os = openings(toks, ts@.len() as int, base, t@);
        let ghost r0 = cx.reports();
        let mut j: usize = 1;
        while j < sents.len()
            invariant
                1 <= j,
                sents@.len() == surfaces@.len(),
                sents@.len() == spans@.len(),
                os.len() == sents@.len(),
                j <= os.len() || j == 1,
                forall|k: int| 0 <= k < os.len() ==> #[trigger] os[k] == (sents@[k] as nat, surfaces@[k]@, spans@[k]),
                cx.wf(),
                cx.id() == old(cx).id(),
                cx.severity() == old(cx).severity(),
                r0 == old(cx).reports(),
                cx.reports() == r0 + opening_reports(os, j - 1),
            decreases sents.len() - j,
        {
            assert(os[j - 1].1 == surfaces@[j - 1]@);
            assert(os[j as int].1 == surfaces@[j as int]@);
            let same = seq_eq(surfaces[j - 1].as_slice(), surfaces[j].as_slice());
            if same && surfaces[j].len() > 0 {
                let mut m = String::new();
                push_str(&mut m, "同じ接続詞（");
                push_chars(&mut m, surfaces[j].as_slice());
                push_str(&mut m, "）が連続して使われています。");
                cx.report(spans[j], m);
            }
            j = j + 1;
        }
        proof {
            if os.len() == 0 {
                assert(opening_reports(os, os.len() - 1) == Seq::<Report>::empty());
                assert(opening_reports(os, j - 1) == Seq::<Report>::empty());
            } else {
                assert(j == os.len());
            }
        }
        assert(cx.reports() =~= r0 + opening_reports(os, os.len() - 1));
    }
}

impl Rule for NoDoubledConjunction {
    open spec fn spec_meta(&self) -> RuleMeta {
        self.meta
    }

    open spec fn spec_check(&self, node: NodeRef) -> Seq<Report> {
        match node.tokens {
            Some(ts) => Self::spec_check_at(node.span.start, node.text@, ts@),
            None => seq![],
        }
    }

    fn meta(&self) -> (m: &RuleMeta) {
        &self.meta
    }

    fn check(&self, node: &NodeRef, cx: &mut Context) {
        match &node.tokens {
            Some(ts) => Self::check_tokens(node.span.start, node.text.as_str(), ts, cx),
            None => {
                assert(cx.reports() + Seq::<Report>::empty() =~= cx.reports());
            },
        }
    }
}

impl Default for NoDoubledConjunction {
    /// The rule with its default options, as [`NoDoubledConjunction::new`] builds it.
    fn default() -> (r: NoDoubledConjunction)
        ensures
            r.meta.id@ == ID@,
            r.meta.node_kinds@ == node_kinds(),
            r.meta.default_severity == Severity::Warning,
            r.meta.lang == Some(Lang::Ja),
            r.meta.morphology,
    {
        NoDoubledConjunction::new()
    }
}

} // verus!
