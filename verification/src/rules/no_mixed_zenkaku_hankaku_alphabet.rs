//! `no-mixed-zenkaku-hankaku-alphabet` — flag mixing half- and full-width Latin letters.
//!
//! Document-level: the rule visits the root and walks the whole document, collecting the Latin
//! letters of prose text (code is skipped), then reports the letters of the minority width.
use vstd::prelude::*;
use crate::ast::{
    abs_span, concat_map, lemma_children_fit, lemma_concat_map_add, lemma_concat_map_single, make_span, plain, texts_fit,
    walk, walk_children, Context, NodeKind, NodeRef, Report, Rule, RuleMeta, Severity, Span,
};
use crate::rules::ja_no_mixed_period::{prose_stop, reports_at};
use crate::text::{byte_at, byte_offsets, fits_usize, offsets_ok, push_str, str_chars};
use crate::util::spec_is_fullwidth_alpha;

verus! {

/// The rule id.
pub const ID: &'static str = "no-mixed-zenkaku-hankaku-alphabet";

/// The node kinds the rule visits.
pub open spec fn node_kinds() -> Seq<NodeKind> {
    seq![NodeKind::Root]
}

/// Flags the minority-width Latin letters when both half- and full-width letters appear.
pub struct NoMixedZenkakuHankakuAlphabet {
    pub meta: RuleMeta,
}

/// `char::is_ascii_alphabetic`.
pub open spec fn is_ascii_alpha(c: char) -> bool {
    ('A' <= c && c <= 'Z') || ('a' <= c && c <= 'z')
}

/// The spans of the letters among the first `n` characters of a text at `base`: half-width
/// (ASCII) letters when `half`, full-width ones otherwise.
pub open spec fn letter_hits(base: u32, t: Seq<char>, n: int, half: bool) -> Seq<Span>
    decreases n,
{
    if n <= 0 {
        seq![]
    } else {
        let rest = letter_hits(base, t, n - 1, half);
        let c = t[n - 1];
        if (half && is_ascii_alpha(c)) || (!half && !is_ascii_alpha(c) && spec_is_fullwidth_alpha(c)) {
            rest.push(abs_span(base, byte_at(t, n - 1) as int, byte_at(t, n) as int))
        } else {
            rest
        }
    }
}

/// The letters of one node: those of its text when it is a text node.
pub open spec fn node_letters(half: bool) -> spec_fn(NodeRef) -> Seq<Span> {
    |n: NodeRef| if n.kind == NodeKind::Text {
        letter_hits(n.span.start, n.text@, n.text@.len() as int, half)
    } else {
        seq![]
    }
}

/// The letters of the document at `root`, in walk order.
pub open spec fn doc_letters(root: NodeRef, half: bool) -> Seq<Span> {
    concat_map(walk(root, prose_stop()), node_letters(half))
}

/// `半角英字と全角英字が混在しています。文書全体で多く使われている{majority}に統一してください。`
pub open spec fn width_message(majority: Seq<char>) -> Seq<char> {
    "半角英字と全角英字が混在しています。文書全体で多く使われている"@ + majority + "に統一してください。"@
}

impl NoMixedZenkakuHankakuAlphabet {
    /// Construct the rule (no options).
    pub fn new() -> (r: NoMixedZenkakuHankakuAlphabet)
        ensures
            r.meta.id@ == ID@,
            r.meta.node_kinds@ == node_kinds(),
            r.meta.default_severity == Severity::Warning,
            r.meta.node_kinds@ == seq![NodeKind::Root],
            r.meta.lang.is_none(),
    {
        NoMixedZenkakuHankakuAlphabet { meta: RuleMeta::new(ID, Severity::Warning, vec![NodeKind::Root]) }
    }

    /// What the rule reports for the document at `root`: nothing unless both widths occur;
    /// otherwise every letter of the less frequent width (full-width on a tie).
    pub open spec fn spec_check_doc(root: NodeRef) -> Seq<Report> {
        let half = doc_letters(root, true);
        let full = doc_letters(root, false);
        if half.len() == 0 || full.len() == 0 {
            seq![]
        } else if full.len() <= half.len() {
            reports_at(full, width_message("半角英字"@))
        } else {
            reports_at(half, width_message("全角英字"@))
        }
    }

    fn collect(base: u32, text: &str, half: &mut Vec<Span>, full: &mut Vec<Span>)
        requires
            fits_usize(text@),
        ensures
            final(half)@ == old(half)@ + letter_hits(base, text@, text@.len() as int, true),
            final(full)@ == old(full)@ + letter_hits(base, text@, text@.len() as int, false),
    {
        let t = str_chars(text);
        let offs = byte_offsets(&t);
        let ghost h0 = half@;
        let ghost f0 = full@;
        let mut i: usize = 0;
        while i < t.len()
            invariant
                i <= t.len(),
                t@ == text@,
                offsets_ok(t@, offs@),
                half@ == h0 + letter_hits(base, t@, i as int, true),
                full@ == f0 + letter_hits(base, t@, i as int, false),
            decreases t.len() - i,
        {
            let c = t[i];
            let span = make_span(base, offs[i], offs[i + 1]);
            if ('A' <= c && c <= 'Z') || ('a' <= c && c <= 'z') {
                half.push(span);
            } else if crate::util::is_fullwidth_alpha(c) {
                full.push(span);
            }
            i = i + 1;
        }
    }

    fn collect_tree(n: &NodeRef, half: &mut Vec<Span>, full: &mut Vec<Span>)
        requires
            texts_fit(*n),
        ensures
            final(half)@ == old(half)@ + doc_letters(*n, true),
            final(full)@ == old(full)@ + doc_letters(*n, false),
        decreases n,
    {
        let ghost cs = n.children@;
        let ghost h0 = half@;
        let ghost f0 = full@;
        proof {
            lemma_concat_map_single(*n, node_letters(true));
            lemma_concat_map_single(*n, node_letters(false));
        }
        match n.kind {
            NodeKind::Code | NodeKind::InlineCode => {
                assert(half@ =~= h0 + doc_letters(*n, true));
                assert(full@ =~= f0 + doc_letters(*n, false));
            },
            NodeKind::Text => {
                Self::collect(n.span.start, n.text.as_str(), half, full);
            },
            _ => {
                proof {
                    lemma_concat_map_add(seq![*n], walk_children(cs, prose_stop()), node_letters(true));
                    lemma_concat_map_add(seq![*n], walk_children(cs, prose_stop()), node_letters(false));
                    assert(cs.take(cs.len() as int) =~= cs);
                }
                let mut i: usize = n.children.len();
                while i > 0
                    invariant
                        i <= n.children@.len(),
                        cs == n.children@,
                        crate::ast::children_fit(cs),
                        h0 + doc_letters(*n, true) == half@ + concat_map(walk_children(cs.take(i as int), prose_stop()), node_letters(true)),
                        f0 + doc_letters(*n, false) == full@ + concat_map(walk_children(cs.take(i as int), prose_stop()), node_letters(false)),
                    decreases i,
                {
                    i = i - 1;
                    proof {
                        lemma_children_fit(cs, i as int);
                        assert(cs.take(i + 1).drop_last() =~= cs.take(i as int));
                        assert(cs.take(i + 1).last() == cs[i as int]);
                        lemma_concat_map_add(walk(cs[i as int], prose_stop()), walk_children(cs.take(i as int), prose_stop()), node_letters(true));
                        lemma_concat_map_add(walk(cs[i as int], prose_stop()), walk_children(cs.take(i as int), prose_stop()), node_letters(false));
                    }
                    Self::collect_tree(&n.children[i], half, full);
                }
                assert(cs.take(0) =~= Seq::<NodeRef>::empty());
                assert(half@ =~= h0 + doc_letters(*n, true));
                assert(full@ =~= f0 + doc_letters(*n, false));
            },
        }
    }

    fn report_all(spans: &Vec<Span>, majority: &str, cx: &mut Context)
        requires
            old(cx).wf(),
        ensures
            final(cx).wf(),
            final(cx).id() == old(cx).id(),
            final(cx).severity() == old(cx).severity(),
            final(cx).reports() == old(cx).reports() + reports_at(spans@, width_message(majority@)),
    {
        let ghost msg = width_message(majority@);
        let mut i: usize = 0;
        while i < spans.len()
            invariant
                i <= spans.len(),
                cx.wf(),
                cx.id() == old(cx).id(),
                cx.severity() == old(cx).severity(),
                msg == width_message(majority@),
                cx.reports() == old(cx).reports() + reports_at(spans@.take(i as int), msg),
            decreases spans.len() - i,
        {
            let mut m = String::new();
            push_str(&mut m, "半角英字と全角英字が混在しています。文書全体で多く使われている");
            push_str(&mut m, majority);
            push_str(&mut m, "に統一してください。");
            cx.report(spans[i], m);
            assert(reports_at(spans@.take(i + 1), msg) =~= reports_at(spans@.take(i as int), msg).push(plain(spans@[i as int], msg)));
            i = i + 1;
        }
        assert(spans@.take(i as int) =~= spans@);
    }
}

impl NoMixedZenkakuHankakuAlphabet {
    /// Only a document that mixes both widths is flagged, and then every letter of the less
    /// frequent width (full-width on a tie) gets one report.
    pub proof fn law_only_a_mix_is_flagged(root: NodeRef)
        ensures
            ({
                let half = doc_letters(root, true);
                let full = doc_letters(root, false);
                Self::spec_check_doc(root).len() == if half.len() == 0 || full.len() == 0 {
                    0
                } else if full.len() <= half.len() {
                    full.len()
                } else {
                    half.len()
                }
            }),
    {
    }
}

impl Rule for NoMixedZenkakuHankakuAlphabet {
    open spec fn spec_meta(&self) -> RuleMeta {
        self.meta
    }

    open spec fn spec_check(&self, node: NodeRef) -> Seq<Report> {
        Self::spec_check_doc(node)
    }

    fn meta(&self) -> (m: &RuleMeta) {
        &self.meta
    }

    fn check(&self, root: &NodeRef, cx: &mut Context) {
        let mut half: Vec<Span> = Vec::new();
        let mut full: Vec<Span> = Vec::new();
        Self::collect_tree(root, &mut half, &mut full);
        assert(half@ =~= doc_letters(*root, true));
        assert(full@ =~= doc_letters(*root, false));
        if half.len() == 0 || full.len() == 0 {
            assert(cx.reports() + Seq::<Report>::empty() =~= cx.reports());
            return;
        }
        if full.len() <= half.len() {
            Self::report_all(&full, "半角英字", cx);
        } else {
            Self::report_all(&half, "全角英字", cx);
        }
    }
}

impl Default for NoMixedZenkakuHankakuAlphabet {
    /// The rule with its default options, as [`NoMixedZenkakuHankakuAlphabet::new`] builds it.
    fn default() -> (r: NoMixedZenkakuHankakuAlphabet)
        ensures
            r.meta.id@ == ID@,
            r.meta.node_kinds@ == node_kinds(),
            r.meta.default_severity == Severity::Warning,
            r.meta.node_kinds@ == seq![NodeKind::Root],
            r.meta.lang.is_none(),
    {
        NoMixedZenkakuHankakuAlphabet::new()
    }
}

} // verus!
