//! `ja-no-mixed-period` — flag mixing Japanese `。` and ASCII `.` as sentence terminators.
//!
//! Document-level: the rule visits the root and walks the whole document, collecting `。` and
//! qualifying `.` terminators from prose text (code is skipped), then reports the minority
//! style.
use vstd::prelude::*;
use crate::ast::{
    abs_span, concat_map, lemma_children_fit, lemma_concat_map_add, lemma_concat_map_single, make_span, plain, texts_fit,
    walk, walk_children, Context, Lang, NodeKind, NodeRef, Report, Rule, RuleMeta, Severity, Span,
};
use crate::text::{byte_at, byte_offsets, fits_usize, is_ascii_digit, offsets_ok, push_str, str_chars};
use crate::util::is_whitespace;

verus! {

/// The rule id.
pub const ID: &'static str = "ja-no-mixed-period";

/// The node kinds the rule visits.
pub open spec fn node_kinds() -> Seq<NodeKind> {
    seq![NodeKind::Root]
}

/// Flags the minority period style when both `。` and `.` terminators appear.
pub struct JaNoMixedPeriod {
    pub meta: RuleMeta,
}

/// Whether the `.` at index `i` of `t` ends a sentence: it is followed by whitespace or the end
/// of the text, and does not sit between two digits (a decimal like `1.5`).
pub open spec fn is_en_period(t: Seq<char>, i: int) -> bool {
    &&& t[i] == '.'
    &&& i + 1 >= t.len() || is_whitespace(t[i + 1])
    &&& !(i > 0 && is_ascii_digit(t[i - 1]) && i + 1 < t.len() && is_ascii_digit(t[i + 1]))
}

/// The spans of the terminators among the first `n` characters of a text at `base`: `。` when
/// `ja`, qualifying `.` otherwise.
pub open spec fn period_hits(base: u32, t: Seq<char>, n: int, ja: bool) -> Seq<Span>
    decreases n,
{
    if n <= 0 {
        seq![]
    } else {
        let rest = period_hits(base, t, n - 1, ja);
        let i = n - 1;
        if (ja && t[i] == '。') || (!ja && is_en_period(t, i)) {
            rest.push(abs_span(base, byte_at(t, i) as int, byte_at(t, i + 1) as int))
        } else {
            rest
        }
    }
}

/// The walk does not descend into code, nor below text.
pub open spec fn prose_stop() -> spec_fn(NodeKind) -> bool {
    |k: NodeKind| k == NodeKind::Code || k == NodeKind::InlineCode || k == NodeKind::Text
}

/// The terminators of one node: those of its text when it is a text node.
pub open spec fn node_hits(ja: bool) -> spec_fn(NodeRef) -> Seq<Span> {
    |n: NodeRef| if n.kind == NodeKind::Text {
        period_hits(n.span.start, n.text@, n.text@.len() as int, ja)
    } else {
        seq![]
    }
}

/// The terminators of the document at `root`, in walk order.
pub open spec fn doc_hits(root: NodeRef, ja: bool) -> Seq<Span> {
    concat_map(walk(root, prose_stop()), node_hits(ja))
}

/// `句点の表記が混在しています。文書全体で多く使われている「{majority}」に合わせて「{minority}」を書き換えてください。`
pub open spec fn mixed_message(minority: Seq<char>, majority: Seq<char>) -> Seq<char> {
    "句点の表記が混在しています。文書全体で多く使われている「"@ + majority + "」に合わせて「"@ + minority
        + "」を書き換えてください。"@
}

/// One report per span.
pub open spec fn reports_at(spans: Seq<Span>, message: Seq<char>) -> Seq<Report> {
    spans.map_values(|s: Span| plain(s, message))
}

impl JaNoMixedPeriod {
    /// Construct the rule (no options).
    pub fn new() -> (r: JaNoMixedPeriod)
        ensures
            r.meta.id@ == ID@,
            r.meta.node_kinds@ == node_kinds(),
            r.meta.default_severity == Severity::Warning,
            r.meta.node_kinds@ == seq![NodeKind::Root],
            r.meta.lang == Some(Lang::Ja),
    {
        JaNoMixedPeriod { meta: RuleMeta::new(ID, Severity::Warning, vec![NodeKind::Root]).for_language(Lang::Ja) }
    }

    /// What the rule reports for the document at `root`: nothing unless both styles occur;
    /// otherwise every terminator of the less frequent style (`.` on a tie).
    pub open spec fn spec_check_doc(root: NodeRef) -> Seq<Report> {
        let ja = doc_hits(root, true);
        let en = doc_hits(root, false);
        if ja.len() == 0 || en.len() == 0 {
            seq![]
        } else if ja.len() < en.len() {
            reports_at(ja, mixed_message("。"@, "."@))
        } else {
            reports_at(en, mixed_message("."@, "。"@))
        }
    }

    /// Collect the `。` and qualifying `.` terminator spans of one text node.
    fn collect(base: u32, text: &str, ja_hits: &mut Vec<Span>, en_hits: &mut Vec<Span>)
        requires
            fits_usize(text@),
        ensures
            final(ja_hits)@ == old(ja_hits)@ + period_hits(base, text@, text@.len() as int, true),
            final(en_hits)@ == old(en_hits)@ + period_hits(base, text@, text@.len() as int, false),
    {
        let t = str_chars(text);
        let offs = byte_offsets(&t);
        let ghost ja0 = ja_hits@;
        let ghost en0 = en_hits@;
        let mut i: usize = 0;
        while i < t.len()
            invariant
                i <= t.len(),
                t@ == text@,
                offsets_ok(t@, offs@),
                ja_hits@ == ja0 + period_hits(base, t@, i as int, true),
                en_hits@ == en0 + period_hits(base, t@, i as int, false),
            decreases t.len() - i,
        {
            let c = t[i];
            let span = make_span(base, offs[i], offs[i + 1]);
            if c == '。' {
                ja_hits.push(span);
            } else if c == '.' {
                let end_like = i + 1 >= t.len() || crate::util::whitespace(t[i + 1]);
                let numeric = i > 0 && crate::text::ascii_digit(t[i - 1]) && i + 1 < t.len()
                    && crate::text::ascii_digit(t[i + 1]);
                if end_like && !numeric {
                    en_hits.push(span);
                }
            }
            i = i + 1;
        }
    }

    /// Collect the terminators of the subtree at `n`, in walk order.
    fn collect_tree(n: &NodeRef, ja_hits: &mut Vec<Span>, en_hits: &mut Vec<Span>)
        requires
            texts_fit(*n),
        ensures
            final(ja_hits)@ == old(ja_hits)@ + doc_hits(*n, true),
            final(en_hits)@ == old(en_hits)@ + doc_hits(*n, false),
        decreases n,
    {
        let ghost cs = n.children@;
        let ghost ja0 = ja_hits@;
        let ghost en0 = en_hits@;
        proof {
            lemma_concat_map_single(*n, node_hits(true));
            lemma_concat_map_single(*n, node_hits(false));
        }
        match n.kind {
            NodeKind::Code | NodeKind::InlineCode => {
                assert(ja_hits@ =~= ja0 + doc_hits(*n, true));
                assert(en_hits@ =~= en0 + doc_hits(*n, false));
            },
            NodeKind::Text => {
                Self::collect(n.span.start, n.text.as_str(), ja_hits, en_hits);
            },
            _ => {
                proof {
                    lemma_concat_map_add(seq![*n], walk_children(cs, prose_stop()), node_hits(true));
                    lemma_concat_map_add(seq![*n], walk_children(cs, prose_stop()), node_hits(false));
                    assert(cs.take(cs.len() as int) =~= cs);
                }
                let mut i: usize = n.children.len();
                while i > 0
                    invariant
                        i <= n.children@.len(),
                        cs == n.children@,
                        crate::ast::children_fit(cs),
                        ja0 + doc_hits(*n, true) == ja_hits@ + concat_map(walk_children(cs.take(i as int), prose_stop()), node_hits(true)),
                        en0 + doc_hits(*n, false) == en_hits@ + concat_map(walk_children(cs.take(i as int), prose_stop()), node_hits(false)),
                    decreases i,
                {
                    i = i - 1;
                    proof {
                        lemma_children_fit(cs, i as int);
                        assert(cs.take(i + 1).drop_last() =~= cs.take(i as int));
                        assert(cs.take(i + 1).last() == cs[i as int]);
                        lemma_concat_map_add(walk(cs[i as int], prose_stop()), walk_children(cs.take(i as int), prose_stop()), node_hits(true));
                        lemma_concat_map_add(walk(cs[i as int], prose_stop()), walk_children(cs.take(i as int), prose_stop()), node_hits(false));
                    }
                    Self::collect_tree(&n.children[i], ja_hits, en_hits);
                }
                assert(cs.take(0) =~= Seq::<NodeRef>::empty());
                assert(ja_hits@ =~= ja0 + doc_hits(*n, true));
                assert(en_hits@ =~= en0 + doc_hits(*n, false));
            },
        }
    }

    fn report_all(spans: &Vec<Span>, minority: &str, majority: &str, cx: &mut Context)
        requires
            old(cx).wf(),
        ensures
            final(cx).wf(),
            final(cx).id() == old(cx).id(),
            final(cx).severity() == old(cx).severity(),
            final(cx).reports() == old(cx).reports() + reports_at(spans@, mixed_message(minority@, majority@)),
    {
        let ghost msg = mixed_message(minority@, majority@);
        let mut i: usize = 0;
        while i < spans.len()
            invariant
                i <= spans.len(),
                cx.wf(),
                cx.id() == old(cx).id(),
                cx.severity() == old(cx).severity(),
                msg == mixed_message(minority@, majority@),
                cx.reports() == old(cx).reports() + reports_at(spans@.take(i as int), msg),
            decreases spans.len() - i,
        {
            let mut m = String::new();
            push_str(&mut m, "句点の表記が混在しています。文書全体で多く使われている「");
            push_str(&mut m, majority);
            push_str(&mut m, "」に合わせて「");
            push_str(&mut m, minority);
            push_str(&mut m, "」を書き換えてください。");
            cx.report(spans[i], m);
            assert(reports_at(spans@.take(i + 1), msg) =~= reports_at(spans@.take(i as int), msg).push(plain(spans@[i as int], msg)));
            i = i + 1;
        }
        assert(spans@.take(i as int) =~= spans@);
    }
}

impl JaNoMixedPeriod {
    /// Only a document that mixes both terminator styles is flagged, and then every terminator
    /// of the less frequent style (the ASCII `.` on a tie) gets one report.
    pub proof fn law_only_a_mix_is_flagged(root: NodeRef)
        ensures
            ({
                let ja = doc_hits(root, true);
                let en = doc_hits(root, false);
                Self::spec_check_doc(root).len() == if ja.len() == 0 || en.len() == 0 {
                    0
                } else if ja.len() < en.len() {
                    ja.len()
                } else {
                    en.len()
                }
            }),
    {
    }
}

impl Rule for JaNoMixedPeriod {
    open spec fn spec_meta(&self) -> RuleMeta {
        self.meta
    }

    open spec fn spec_check(&self, node: NodeRef) -> Seq<Report> {
        Self::spec_check_doc(node)
    }

    fn meta(&self) -> (m: &RuleMeta) {
        &self.meta
    }

    fn check(&self, root: &NodeRef, cx: &mut Context) {
        let mut ja_hits: Vec<Span> = Vec::new();
        let mut en_hits: Vec<Span> = Vec::new();
        Self::collect_tree(root, &mut ja_hits, &mut en_hits);
        assert(ja_hits@ =~= doc_hits(*root, true));
        assert(en_hits@ =~= doc_hits(*root, false));
        if ja_hits.len() == 0 || en_hits.len() == 0 {
            assert(cx.reports() + Seq::<Report>::empty() =~= cx.reports());
            return;
        }
        if ja_hits.len() < en_hits.len() {
            Self::report_all(&ja_hits, "。", ".", cx);
        } else {
            Self::report_all(&en_hits, ".", "。", cx);
        }
    }
}

impl Default for JaNoMixedPeriod {
    /// The rule with its default options, as [`JaNoMixedPeriod::new`] builds it.
    fn default() -> (r: JaNoMixedPeriod)
        ensures
            r.meta.id@ == ID@,
            r.meta.node_kinds@ == node_kinds(),
            r.meta.default_severity == Severity::Warning,
            r.meta.node_kinds@ == seq![NodeKind::Root],
            r.meta.lang == Some(Lang::Ja),
    {
        JaNoMixedPeriod::new()
    }
}

} // verus!
