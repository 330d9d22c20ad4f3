//! `no-double-negative-ja` — flag a rhetorical double negative (二重否定): a negative earlier in a
//! sentence closed by 「は」 + another negative (e.g. ないことはない / なくはない).
//!
//! Morphology-reading and deliberately narrow: within a sentence, a 「は」 (助詞) immediately
//! followed by a negative is flagged when an earlier negative occurs in the same sentence. A
//! negative is the 助動詞 ない/ぬ/ず or the 形容詞 ない. A single negation (問題ではない) and the
//! grammatical 〜なければならない are left alone.
use vstd::prelude::*;
use crate::ast::{plain, Context, Lang, NodeKind, NodeRef, Report, Rule, RuleMeta, Severity, Span};
use crate::morph::{sorted_tokens, surface_order, surface_order_upto, surface_text, text_of, FeatureKey, Token};
use crate::rules::no_mix_dearu_desumasu::{sentence_idx, sentence_index};
use crate::text::{byte_offsets, fits_usize, offsets_ok, seq_eq, str_chars};

verus! {

/// The rule id.
pub const ID: &'static str = "no-double-negative-ja";

/// The node kinds the rule visits.
pub open spec fn node_kinds() -> Seq<NodeKind> {
    seq![NodeKind::Paragraph, NodeKind::Heading, NodeKind::TableCell]
}

/// Flags a 「…ない…はない」-shape rhetorical double negative.
pub struct NoDoubleNegativeJa {
    pub meta: RuleMeta,
}

/// Whether `tok` is a negation: the 助動詞 ない/ぬ/ず or the 形容詞 ない.
pub open spec fn is_negative(tok: Token) -> bool {
    let pos = tok.feature_spec(FeatureKey::Pos);
    let base = tok.base_spec();
    !tok.unknown && ((pos == Some("助動詞"@) && (base == Some("ない"@) || base == Some("ぬ"@) || base == Some("ず"@)))
        || (pos == Some("形容詞"@) && base == Some("ない"@)))
}

/// Whether `tok` is the binding particle 「は」.
pub open spec fn is_wa(tok: Token, base: u32, t: Seq<char>) -> bool {
    !tok.unknown && tok.feature_spec(FeatureKey::Pos) == Some("助詞"@) && text_of(base, t, tok.surface) == Some("は"@)
}

/// The diagnostic for a double negative.
pub open spec fn double_negative_message() -> Seq<char> {
    "二重否定がみつかりました。\n\n否定の否定はまわりくどく読みにくいので、肯定の表現に言い換えられないか検討してください（例: できないことはない → できる）。"@
}

/// The scan state: the sentence of the previous token, whether a negative occurred earlier in
/// it, and the reports so far.
pub struct NegScan {
    pub sentence: Option<nat>,
    pub negative_before: bool,
    pub reports: Seq<Report>,
}

/// One step of the scan over the `i`-th source-ordered token.
pub open spec fn neg_step(s: NegScan, toks: Seq<Token>, i: int, base: u32, t: Seq<char>) -> NegScan {
    let tok = toks[i];
    let idx = sentence_idx(base, t, tok.surface.start);
    let seen = if s.sentence == Some(idx) {
        s.negative_before
    } else {
        false
    };
    let flag = seen && is_wa(tok, base, t) && i + 1 < toks.len() && is_negative(toks[i + 1]);
    NegScan {
        sentence: Some(idx),
        negative_before: seen || is_negative(tok),
        reports: if flag {
            s.reports.push(plain(Span { start: tok.surface.start, end: toks[i + 1].surface.end }, double_negative_message()))
        } else {
            s.reports
        },
    }
}

/// The scan over the first `n` source-ordered tokens.
pub open spec fn neg_scan(toks: Seq<Token>, n: int, base: u32, t: Seq<char>) -> NegScan
    decreases n,
{
    if n <= 0 {
        NegScan { sentence: None, negative_before: false, reports: seq![] }
    } else {
        neg_step(neg_scan(toks, n - 1, base, t), toks, n - 1, base, t)
    }
}

fn negative_exec(tok: &Token) -> (b: bool)
    ensures
        b == is_negative(*tok),
{
    if tok.unknown {
        return false;
    }
    if tok.feature_is(FeatureKey::Pos, "助動詞") {
        tok.base_is("ない") || tok.base_is("ぬ") || tok.base_is("ず")
    } else if tok.feature_is(FeatureKey::Pos, "形容詞") {
        tok.base_is("ない")
    } else {
        false
    }
}

impl NoDoubleNegativeJa {
    /// Construct the rule (no options).
    pub fn new() -> (r: NoDoubleNegativeJa)
        ensures
            r.meta.id@ == ID@,
            r.meta.node_kinds@ == node_kinds(),
            r.meta.default_severity == Severity::Warning,
            r.meta.lang == Some(Lang::Ja),
            r.meta.morphology,
    {
        NoDoubleNegativeJa {
            meta: RuleMeta::new(ID, Severity::Warning, vec![NodeKind::Paragraph, NodeKind::Heading, NodeKind::TableCell])
                .with_morphology(Lang::Ja),
        }
    }

    /// What the rule reports for a node at `base` with text `t` and tokens `ts`.
    pub open spec fn spec_check_at(base: u32, t: Seq<char>, ts: Seq<Token>) -> Seq<Report> {
        neg_scan(sorted_tokens(ts), ts.len() as int, base, t).reports
    }

    fn check_tokens(base: u32, text: &str, ts: &Vec<Token>, cx: &mut Context)
        requires
            old(cx).wf(),
            fits_usize(text@),
        ensures
            final(cx).wf(),
            final(cx).id() == old(cx).id(),
            final(cx).severity() == old(cx).severity(),
            final(cx).reports() == old(cx).reports() + Self::spec_check_at(base, text@, ts@),
    {
        let t = str_chars(text);
        let offs = byte_offsets(&t);
        let order = surface_order(ts);
        let ghost toks = sorted_tokens(ts@);
        let ghost r0 = cx.reports();
        let mut current: Option<usize> = None;
        let mut negative_before = false;
        let mut i: usize = 0;
        while i < order.len()
            invariant
                i <= order.len(),
                t@ == text@,
                offsets_ok(t@, offs@),
                toks == sorted_tokens(ts@),
                toks.len() == order@.len(),
                order@.len() == ts@.len(),
                forall|k: int| 0 <= k < order@.len() ==> #[trigger] order@[k] < ts@.len(),
                order@.map_values(|i: usize| i as int) == surface_order_upto(ts@, ts@.len() as int),
                cx.wf(),
                cx.id() == old(cx).id(),
                cx.severity() == old(cx).severity(),
                r0 == old(cx).reports(),
                ({
                    let s = neg_scan(toks, i as int, base, t@);
                    &&& s.sentence == match current {
                        Some(c) => Some(c as nat),
                        None => None,
                    }
                    &&& s.negative_before == negative_before
                    &&& cx.reports() == r0 + s.reports
                }),
            decreases order.len() - i,
        {
            assert(toks[i as int] == ts@[order@[i as int] as int]);
            let tok = &ts[order[i]];
            let idx = sentence_index(base, &t, &offs, tok.surface.start);
            let same = match current {
                Some(c) => c == idx,
                None => false,
            };
            let seen = same && negative_before;
            if seen && i + 1 < order.len() {
                let is_wa_tok = !tok.unknown && tok.feature_is(FeatureKey::Pos, "助詞") && match surface_text(base, &t, &offs, tok.surface) {
                    Some(v) => seq_eq(v.as_slice(), str_chars("は").as_slice()),
                    None => false,
                };
                if is_wa_tok {
                    assert(toks[i + 1] == ts@[order@[i + 1] as int]);
                    let next = &ts[order[i + 1]];
                    if negative_exec(next) {
                        cx.report(
                            Span::new(tok.surface.start, next.surface.end),
                            "二重否定がみつかりました。\n\n否定の否定はまわりくどく読みにくいので、肯定の表現に言い換えられないか検討してください（例: できないことはない → できる）。".to_string(),
                        );
                    }
                }
            }
            current = Some(idx);
            negative_before = seen || negative_exec(tok);
            i = i + 1;
        }
    }
}

impl Rule for NoDoubleNegativeJa {
    open spec fn spec_meta(&self) -> RuleMeta {
        self.meta
    }

    open spec fn spec_check(&self, node: NodeRef) -> Seq<Report> {
        match node.tokens {
            Some(ts) => Self::spec_check_at(node.span.start, node.text@, ts@),
            None => seq![],
        }
    }

    fn meta(&self) -> (m: &RuleMeta) {
        &self.meta
    }

    fn check(&self, node: &NodeRef, cx: &mut Context) {
        match &node.tokens {
            Some(ts) => Self::check_tokens(node.span.start, node.text.as_str(), ts, cx),
            None => {
                assert(cx.reports() + Seq::<Report>::empty() =~= cx.reports());
            },
        }
    }
}

impl Default for NoDoubleNegativeJa {
    /// The rule with its default options, as [`NoDoubleNegativeJa::new`] builds it.
    fn default() -> (r: NoDoubleNegativeJa)
        ensures
            r.meta.id@ == ID@,
            r.meta.node_kinds@ == node_kinds(),
            r.meta.default_severity == Severity::Warning,
            r.meta.lang == Some(Lang::Ja),
            r.meta.morphology,
    {
        NoDoubleNegativeJa::new()
    }
}

} // verus!
