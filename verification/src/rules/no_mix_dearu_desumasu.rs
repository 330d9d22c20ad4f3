//! `no-mix-dearu-desumasu` — flag mixing the である (plain) and ですます (polite) sentence styles
//! within one document.
//!
//! Document-level and morphology-reading: the per-node check does nothing; [`finish`] walks the
//! document, classifies each sentence of every prose block by its final predicate, and flags the
//! minority style (or, with `prefer`, every sentence not in the preferred style).
//!
//! Classification scans a sentence's tokens from the end, skipping sentence-final particles and
//! auxiliaries that do not fix politeness (た/ない/…): a 助動詞 whose base form is です/ます is
//! ですます, だ/である is である, a plain 動詞/形容詞 is である, and a 名詞 with no copula leaves
//! the sentence unclassified. It keys on IPADIC literals.
//!
//! [`finish`]: NoMixDearuDesumasu::finish
use vstd::prelude::*;
use crate::ast::{
    concat_map, lemma_children_fit, lemma_concat_map_add, lemma_concat_map_single, plain, texts_fit, walk, walk_children,
    Context, Lang, NodeKind, NodeRef, Report, Rule, RuleMeta, Severity, Span,
};
use crate::json::{get_str, opt_str, JsonValue};
use crate::morph::{sorted_tokens, surface_order, surface_order_upto, FeatureKey, Token};
use crate::rules::no_doubled_joshi::{byte_slice, rel};
use crate::text::{byte_offsets, count_in, fits_usize, offsets_ok, push_str, str_chars, str_eq};

verus! {

/// The rule id.
pub const ID: &'static str = "no-mix-dearu-desumasu";

/// The node kinds the rule visits.
pub open spec fn node_kinds() -> Seq<NodeKind> {
    seq![NodeKind::Paragraph, NodeKind::Heading, NodeKind::TableCell]
}

/// A Japanese sentence style.
#[derive(Clone, Copy, Debug, PartialEq, Eq, Structural)]
pub enum Style {
    /// である体 (plain / literary).
    Dearu,
    /// ですます体 (polite).
    Desumasu,
}

/// Flags sentences whose style is the document minority (or, with `prefer`, not the chosen
/// style).
pub struct NoMixDearuDesumasu {
    pub meta: RuleMeta,
    /// The style to enforce; `None` lets the document majority win.
    pub prefer: Option<Style>,
}

/// Sentence terminators for style classification.
pub open spec fn is_terminator(c: char) -> bool {
    c == '。' || c == '．' || c == '.' || c == '！' || c == '？' || c == '!' || c == '?'
}

/// The sentence index of absolute byte `start` in a block at `base` with text `t`: the number
/// of terminators before it (0 when the offset is not a character boundary of the text).
pub open spec fn sentence_idx(base: u32, t: Seq<char>, start: u32) -> nat {
    count_in(byte_slice(t, 0, rel(start, base)), |c: char| is_terminator(c))
}

/// The style a sentence's source-ordered tokens `toks[mem[..n]]` show, with the span of the
/// token that decides it, scanning from the end.
pub open spec fn classify_from(toks: Seq<Token>, mem: Seq<int>, n: int) -> Option<(Style, Span)>
    decreases n,
{
    if n <= 0 {
        None
    } else {
        let tok = toks[mem[n - 1]];
        let pos = tok.feature_spec(FeatureKey::Pos);
        let base = tok.base_spec();
        if tok.unknown {
            classify_from(toks, mem, n - 1)
        } else if pos == Some("助動詞"@) {
            if base == Some("です"@) || base == Some("ます"@) {
                Some((Style::Desumasu, tok.surface))
            } else if base == Some("だ"@) || base == Some("である"@) {
                Some((Style::Dearu, tok.surface))
            } else {
                classify_from(toks, mem, n - 1)
            }
        } else if pos == Some("動詞"@) || pos == Some("形容詞"@) {
            Some((Style::Dearu, tok.surface))
        } else if pos == Some("名詞"@) || pos == Some("代名詞"@) || pos == Some("形状詞"@) {
            None
        } else {
            classify_from(toks, mem, n - 1)
        }
    }
}

/// Add `k` to the ascending list of distinct indices `ks`.
pub open spec fn insert_nat(ks: Seq<nat>, k: nat) -> Seq<nat>
    decreases ks.len(),
{
    if ks.len() == 0 {
        seq![k]
    } else if ks.last() == k {
        ks
    } else if k < ks.last() {
        insert_nat(ks.drop_last(), k).push(ks.last())
    } else {
        ks.push(k)
    }
}

proof fn lemma_insert_nat_at(ks: Seq<nat>, k: nat, p: int)
    requires
        0 <= p <= ks.len(),
        forall|q: int| p <= q < ks.len() ==> k < #[trigger] ks[q],
        p == 0 || !(k < ks[p - 1]),
    ensures
        insert_nat(ks, k) == if p > 0 && ks[p - 1] == k {
            ks
        } else {
            ks.take(p) + seq![k] + ks.skip(p)
        },
    decreases ks.len(),
{
    if ks.len() == p {
        assert(ks.take(p) =~= ks);
        assert(ks.skip(p) =~= Seq::<nat>::empty());
        assert(insert_nat(ks, k) =~= if p > 0 && ks[p - 1] == k {
            ks
        } else {
            ks.take(p) + seq![k] + ks.skip(p)
        });
    } else {
        let k2 = ks.drop_last();
        assert forall|r: int| p <= r < k2.len() implies k < #[trigger] k2[r] by {
            assert(k2[r] == ks[r]);
        }
        if p > 0 {
            assert(k2[p - 1] == ks[p - 1]);
        }
        lemma_insert_nat_at(k2, k, p);
        assert(insert_nat(ks, k) =~= if p > 0 && ks[p - 1] == k {
            ks
        } else {
            ks.take(p) + seq![k] + ks.skip(p)
        });
    }
}

/// The sentence indices of the first `n` source-ordered tokens, ascending and distinct.
pub open spec fn sentence_keys(base: u32, t: Seq<char>, toks: Seq<Token>, n: int) -> Seq<nat>
    decreases n,
{
    if n <= 0 {
        seq![]
    } else {
        insert_nat(sentence_keys(base, t, toks, n - 1), sentence_idx(base, t, toks[n - 1].surface.start))
    }
}

/// The positions among the first `n` source-ordered tokens that lie in sentence `s`.
pub open spec fn sentence_members(base: u32, t: Seq<char>, toks: Seq<Token>, s: nat, n: int) -> Seq<int>
    decreases n,
{
    if n <= 0 {
        seq![]
    } else {
        let r = sentence_members(base, t, toks, s, n - 1);
        if sentence_idx(base, t, toks[n - 1].surface.start) == s {
            r.push(n - 1)
        } else {
            r
        }
    }
}

/// The classified sentences among sentence indices `ks`, in order.
pub open spec fn classified(base: u32, t: Seq<char>, toks: Seq<Token>, ks: Seq<nat>) -> Seq<(Style, Span)>
    decreases ks.len(),
{
    if ks.len() == 0 {
        seq![]
    } else {
        let rest = classified(base, t, toks, ks.drop_last());
        let mem = sentence_members(base, t, toks, ks.last(), toks.len() as int);
        match classify_from(toks, mem, mem.len() as int) {
            Some(x) => rest.push(x),
            None => rest,
        }
    }
}

/// The prose blocks whose sentences are classified; the walk does not descend below them.
pub open spec fn is_block(k: NodeKind) -> bool {
    k == NodeKind::Paragraph || k == NodeKind::Heading || k == NodeKind::TableCell
}

pub open spec fn block_stop() -> spec_fn(NodeKind) -> bool {
    |k: NodeKind| is_block(k)
}

/// The classified sentences of one node: those of a prose block with morphology, by sentence.
pub open spec fn block_sentences() -> spec_fn(NodeRef) -> Seq<(Style, Span)> {
    |n: NodeRef| if is_block(n.kind) && n.tokens is Some {
        let toks = sorted_tokens(n.tokens->0@);
        classified(n.span.start, n.text@, toks, sentence_keys(n.span.start, n.text@, toks, toks.len() as int))
    } else {
        seq![]
    }
}

/// The classified sentences of the document at `root`, in walk order.
pub open spec fn doc_sentences(root: NodeRef) -> Seq<(Style, Span)> {
    concat_map(walk(root, block_stop()), block_sentences())
}

/// The number of sentences of style `st`.
pub open spec fn count_style(ss: Seq<(Style, Span)>, st: Style) -> nat
    decreases ss.len(),
{
    if ss.len() == 0 {
        0
    } else {
        count_style(ss.drop_last(), st) + if ss.last().0 == st {
            1nat
        } else {
            0nat
        }
    }
}

/// The diagnostic for a sentence in the `flagged` style; it names the style to unify toward.
pub open spec fn style_message(flagged: Style) -> Seq<char> {
    let (f, target) = match flagged {
        Style::Dearu => ("である"@, "ですます"@),
        Style::Desumasu => ("ですます"@, "である"@),
    };
    "文体が混在しています。この文は「"@ + f + "」体ですが、文書全体では「"@ + target + "」体に統一してください。"@
}

/// Reports for the sentences of `ss` in style `flagged`.
pub open spec fn style_reports(ss: Seq<(Style, Span)>, flagged: Style) -> Seq<Report>
    decreases ss.len(),
{
    if ss.len() == 0 {
        seq![]
    } else {
        let rest = style_reports(ss.drop_last(), flagged);
        if ss.last().0 == flagged {
            rest.push(plain(ss.last().1, style_message(flagged)))
        } else {
            rest
        }
    }
}

/// Every sentence is of one of the two styles.
pub proof fn lemma_count_styles(ss: Seq<(Style, Span)>)
    ensures
        count_style(ss, Style::Dearu) + count_style(ss, Style::Desumasu) == ss.len(),
    decreases ss.len(),
{
    if ss.len() > 0 {
        lemma_count_styles(ss.drop_last());
    }
}

/// One report per sentence of the flagged style.
pub proof fn lemma_style_reports_len(ss: Seq<(Style, Span)>, f: Style)
    ensures
        style_reports(ss, f).len() == count_style(ss, f),
    decreases ss.len(),
{
    if ss.len() > 0 {
        lemma_style_reports_len(ss.drop_last(), f);
    }
}

impl NoMixDearuDesumasu {
    /// Construct with the default options (auto-detect the majority).
    pub fn new() -> (r: NoMixDearuDesumasu)
        ensures
            r.meta.id@ == ID@,
            r.meta.node_kinds@ == node_kinds(),
            r.meta.default_severity == Severity::Warning,
            r.meta.lang == Some(Lang::Ja),
            r.meta.morphology,
            r.prefer.is_none(),
    {
        NoMixDearuDesumasu {
            meta: RuleMeta::new(ID, Severity::Warning, vec![NodeKind::Paragraph, NodeKind::Heading, NodeKind::TableCell])
                .with_morphology(Lang::Ja),
            prefer: None,
        }
    }

    /// The rule's option fields as config `options` sets them (defaults where a value is
    /// missing or has the wrong type).
    pub open spec fn configured(&self, options: JsonValue) -> bool {
        &&& self.prefer == match opt_str(options, "prefer"@) { Some(s) => if s == "dearu"@ { Some(Style::Dearu) } else if s == "desumasu"@ { Some(Style::Desumasu) } else { None }, None => None, }
    }

    /// Construct from config `options`: `prefer` is `"dearu"` or `"desumasu"`; any other value
    /// (or none) leaves the rule in auto-detect mode.
    pub fn from_options(options: &JsonValue) -> (r: NoMixDearuDesumasu)
        ensures
            r.meta.id@ == ID@,
            r.meta.node_kinds@ == node_kinds(),
            r.meta.default_severity == Severity::Warning,
            r.meta.lang == Some(Lang::Ja),
            r.meta.morphology,
            r.configured(*options),
    {
        let mut rule = Self::new();
        rule.prefer = match get_str(options, "prefer") {
            Some(s) => if str_eq(s, "dearu") {
                Some(Style::Dearu)
            } else if str_eq(s, "desumasu") {
                Some(Style::Desumasu)
            } else {
                None
            },
            None => None,
        };
        rule
    }

    /// The style whose sentences are flagged, if any.
    pub open spec fn flagged_style(&self, ss: Seq<(Style, Span)>) -> Option<Style> {
        let dearu = count_style(ss, Style::Dearu);
        let desumasu = ss.len() - dearu;
        match self.prefer {
            Some(Style::Dearu) => Some(Style::Desumasu),
            Some(Style::Desumasu) => Some(Style::Dearu),
            None => if dearu == 0 || desumasu == 0 {
                None
            } else if desumasu >= dearu {
                Some(Style::Dearu)
            } else {
                Some(Style::Desumasu)
            },
        }
    }

    /// In auto-detect mode only a genuine mix is a violation: a document whose classified
    /// sentences are all of one style (or that has none) gets no report.
    pub proof fn law_single_style_is_clean(&self, root: NodeRef)
        requires
            self.prefer.is_none(),
            count_style(doc_sentences(root), Style::Dearu) == 0 || count_style(doc_sentences(root), Style::Desumasu) == 0,
        ensures
            self.spec_finish(root) == Seq::<Report>::empty(),
    {
        lemma_count_styles(doc_sentences(root));
    }

    /// In auto-detect mode the minority style is flagged, the である sentences on a tie: every
    /// sentence of that style gets one report, and no other sentence does.
    pub proof fn law_minority_is_flagged(&self, root: NodeRef)
        requires
            self.prefer.is_none(),
            count_style(doc_sentences(root), Style::Dearu) > 0,
            count_style(doc_sentences(root), Style::Desumasu) > 0,
        ensures
            ({
                let ss = doc_sentences(root);
                let minority = if count_style(ss, Style::Desumasu) >= count_style(ss, Style::Dearu) {
                    Style::Dearu
                } else {
                    Style::Desumasu
                };
                &&& self.spec_finish(root) == style_reports(ss, minority)
                &&& self.spec_finish(root).len() == count_style(ss, minority)
            }),
    {
        let ss = doc_sentences(root);
        lemma_count_styles(ss);
        lemma_style_reports_len(ss, Style::Dearu);
        lemma_style_reports_len(ss, Style::Desumasu);
    }

    /// A preferred style flags every sentence of the other style, whatever the counts.
    pub proof fn law_preference_flags_the_other_style(&self, root: NodeRef, p: Style)
        requires
            self.prefer == Some(p),
        ensures
            ({
                let other = match p {
                    Style::Dearu => Style::Desumasu,
                    Style::Desumasu => Style::Dearu,
                };
                &&& self.spec_finish(root) == style_reports(doc_sentences(root), other)
                &&& self.spec_finish(root).len() == count_style(doc_sentences(root), other)
            }),
    {
        lemma_style_reports_len(doc_sentences(root), Style::Dearu);
        lemma_style_reports_len(doc_sentences(root), Style::Desumasu);
    }

    /// What [`finish`](NoMixDearuDesumasu::finish) reports for the document at `root`.
    pub open spec fn spec_finish(&self, root: NodeRef) -> Seq<Report> {
        let ss = doc_sentences(root);
        match self.flagged_style(ss) {
            Some(f) => style_reports(ss, f),
            None => seq![],
        }
    }
}

} // verus!

verus! {

spec fn indices(v: Seq<usize>) -> Seq<int> {
    v.map_values(|i: usize| i as int)
}

/// The diagnostic for a sentence in the `flagged` style (see [`style_message`]).
fn mixed_style_message(flagged: Style) -> (m: String)
    ensures
        m@ == style_message(flagged),
{
    let mut m = String::new();
    push_str(&mut m, "文体が混在しています。この文は「");
    match flagged {
        Style::Dearu => {
            push_str(&mut m, "である");
            push_str(&mut m, "」体ですが、文書全体では「");
            push_str(&mut m, "ですます");
        },
        Style::Desumasu => {
            push_str(&mut m, "ですます");
            push_str(&mut m, "」体ですが、文書全体では「");
            push_str(&mut m, "である");
        },
    }
    push_str(&mut m, "」体に統一してください。");
    m
}

/// Classify the sentence whose source-ordered token positions are `members`.
fn classify_sentence(ts: &Vec<Token>, order: &Vec<usize>, members: &Vec<usize>) -> (r: Option<(Style, Span)>)
    requires
        order@.len() == ts@.len(),
        forall|k: int| 0 <= k < order@.len() ==> #[trigger] order@[k] < ts@.len(),
        order@.map_values(|i: usize| i as int) == surface_order_upto(ts@, ts@.len() as int),
        forall|k: int| 0 <= k < members@.len() ==> #[trigger] members@[k] < order@.len(),
    ensures
        r == classify_from(sorted_tokens(ts@), indices(members@), members@.len() as int),
{
    let ghost toks = sorted_tokens(ts@);
    let ghost mem = indices(members@);
    let mut n = members.len();
    while n > 0
        invariant
            n <= members@.len(),
            toks == sorted_tokens(ts@),
            mem == indices(members@),
            order@.len() == ts@.len(),
            forall|k: int| 0 <= k < order@.len() ==> #[trigger] order@[k] < ts@.len(),
            order@.map_values(|i: usize| i as int) == surface_order_upto(ts@, ts@.len() as int),
            forall|k: int| 0 <= k < members@.len() ==> #[trigger] members@[k] < order@.len(),
            classify_from(toks, mem, members@.len() as int) == classify_from(toks, mem, n as int),
        decreases n,
    {
        let p = members[n - 1];
        assert(toks[mem[n - 1]] == ts@[order@[p as int] as int]);
        let tok = &ts[order[p]];
        if !tok.unknown {
            if tok.feature_is(FeatureKey::Pos, "助動詞") {
                if tok.base_is("です") || tok.base_is("ます") {
                    return Some((Style::Desumasu, tok.surface));
                } else if tok.base_is("だ") || tok.base_is("である") {
                    return Some((Style::Dearu, tok.surface));
                }
            } else if tok.feature_is(FeatureKey::Pos, "動詞") || tok.feature_is(FeatureKey::Pos, "形容詞") {
                return Some((Style::Dearu, tok.surface));
            } else if tok.feature_is(FeatureKey::Pos, "名詞") || tok.feature_is(FeatureKey::Pos, "代名詞")
                || tok.feature_is(FeatureKey::Pos, "形状詞") {
                return None;
            }
        }
        n = n - 1;
    }
    None
}

fn count_terminators(t: &Vec<char>, from: usize, to: usize) -> (n: usize)
    requires
        from <= to <= t@.len(),
    ensures
        n == count_in(t@.subrange(from as int, to as int), |c: char| is_terminator(c)),
{
    let ghost p = |c: char| is_terminator(c);
    let mut n: usize = 0;
    let mut k = from;
    while k < to
        invariant
            from <= k <= to <= t@.len(),
            p == (|c: char| is_terminator(c)),
            n == count_in(t@.subrange(from as int, k as int), p),
            n <= k - from,
        decreases to - k,
    {
        proof {
            crate::text::lemma_count_in_step(t@, from as int, k as int, p);
        }
        let c = t[k];
        if c == '。' || c == '．' || c == '.' || c == '！' || c == '？' || c == '!' || c == '?' {
            n = n + 1;
        }
        k = k + 1;
    }
    n
}

/// Exec form of [`sentence_idx`].
pub(crate) fn sentence_index(base: u32, t: &Vec<char>, offs: &Vec<usize>, start: u32) -> (n: usize)
    requires
        offsets_ok(t@, offs@),
    ensures
        n == sentence_idx(base, t@, start),
{
    let hi = if start >= base { start - base } else { 0 };
    let (lo_k, hi_k) = crate::rules::no_doubled_joshi::byte_range(t, offs, 0, hi);
    count_terminators(t, lo_k, hi_k)
}

fn insert_index(keys: &mut Vec<usize>, k: usize)
    ensures
        indices(final(keys)@).map_values(|i: int| i as nat) == insert_nat(
            indices(old(keys)@).map_values(|i: int| i as nat),
            k as nat,
        ),
{
    let ghost kv = indices(keys@).map_values(|i: int| i as nat);
    let mut p: usize = keys.len();
    while p > 0 && k < keys[p - 1]
        invariant
            p <= keys@.len(),
            kv == indices(keys@).map_values(|i: int| i as nat),
            forall|q: int| p <= q < kv.len() ==> k < #[trigger] kv[q],
        decreases p,
    {
        assert(kv[p - 1] == keys@[p - 1] as nat);
        p = p - 1;
    }
    proof {
        if p > 0 {
            assert(kv[p - 1] == keys@[p - 1] as nat);
        }
        lemma_insert_nat_at(kv, k as nat, p as int);
    }
    if p > 0 && keys[p - 1] == k {
        return;
    }
    keys.insert(p, k);
    assert(indices(keys@).map_values(|i: int| i as nat) =~= kv.take(p as int) + seq![k as nat] + kv.skip(p as int));
}

/// Append the classified sentences of the block `n` (see [`block_sentences`]).
fn classify_block(n: &NodeRef, out: &mut Vec<(Style, Span)>)
    requires
        fits_usize(n.text@),
    ensures
        final(out)@ == old(out)@ + block_sentences()(*n),
{
    let ghost o0 = out@;
    let is_blk = match n.kind {
        NodeKind::Paragraph | NodeKind::Heading | NodeKind::TableCell => true,
        _ => false,
    };
    if !is_blk {
        assert(out@ =~= o0 + block_sentences()(*n));
        return;
    }
    let ts = match &n.tokens {
        Some(ts) => ts,
        None => {
            assert(out@ =~= o0 + block_sentences()(*n));
            return;
        },
    };
    let base = n.span.start;
    let t = str_chars(n.text.as_str());
    let offs = byte_offsets(&t);
    let order = surface_order(ts);
    let ghost toks = sorted_tokens(ts@);
    // The sentence index of every source-ordered token.
    let mut sidx: Vec<usize> = Vec::new();
    let mut keys: Vec<usize> = Vec::new();
    let mut i: usize = 0;
    while i < order.len()
        invariant
            i <= order.len(),
            t@ == n.text@,
            offsets_ok(t@, offs@),
            toks == sorted_tokens(ts@),
            order@.len() == ts@.len(),
            forall|k: int| 0 <= k < order@.len() ==> #[trigger] order@[k] < ts@.len(),
            order@.map_values(|i: usize| i as int) == surface_order_upto(ts@, ts@.len() as int),
            sidx@.len() == i,
            forall|k: int| 0 <= k < i ==> #[trigger] sidx@[k] == sentence_idx(base, t@, toks[k].surface.start),
            indices(keys@).map_values(|i: int| i as nat) == sentence_keys(base, t@, toks, i as int),
        decreases order.len() - i,
    {
        assert(toks[i as int] == ts@[order@[i as int] as int]);
        let s = sentence_index(base, &t, &offs, ts[order[i]].surface.start);
        sidx.push(s);
        insert_index(&mut keys, s);
        i = i + 1;
    }
    let ghost kv = indices(keys@).map_values(|i: int| i as nat);
    let mut g: usize = 0;
    assert(kv.take(0) =~= Seq::<nat>::empty());
    while g < keys.len()
        invariant
            g <= keys.len(),
            kv == indices(keys@).map_values(|i: int| i as nat),
            kv == sentence_keys(base, t@, toks, toks.len() as int),
            t@ == n.text@,
            toks == sorted_tokens(ts@),
            toks.len() == ts@.len(),
            order@.len() == ts@.len(),
            forall|k: int| 0 <= k < order@.len() ==> #[trigger] order@[k] < ts@.len(),
            order@.map_values(|i: usize| i as int) == surface_order_upto(ts@, ts@.len() as int),
            sidx@.len() == order@.len(),
            forall|k: int| 0 <= k < sidx@.len() ==> #[trigger] sidx@[k] == sentence_idx(base, t@, toks[k].surface.start),
            out@ == o0 + classified(base, t@, toks, kv.take(g as int)),
        decreases keys.len() - g,
    {
        let s = keys[g];
        assert(kv[g as int] == s as nat);
        let mut members: Vec<usize> = Vec::new();
        let mut k: usize = 0;
        while k < sidx.len()
            invariant
                k <= sidx.len(),
                sidx@.len() == order@.len(),
                forall|j: int| 0 <= j < sidx@.len() ==> #[trigger] sidx@[j] == sentence_idx(base, t@, toks[j].surface.start),
                forall|j: int| 0 <= j < members@.len() ==> #[trigger] members@[j] < k,
                indices(members@) == sentence_members(base, t@, toks, s as nat, k as int),
            decreases sidx.len() - k,
        {
            if sidx[k] == s {
                let ghost m0 = members@;
                members.push(k);
                assert(indices(members@) =~= indices(m0).push(k as int));
            }
            k = k + 1;
        }
        let r = classify_sentence(ts, &order, &members);
        match r {
            Some(x) => {
                out.push(x);
            },
            None => {},
        }
        assert(kv.take(g + 1).drop_last() =~= kv.take(g as int));
        assert(kv.take(g + 1).last() == s as nat);
        g = g + 1;
    }
    assert(kv.take(g as int) =~= kv);
}

impl NoMixDearuDesumasu {
    fn collect_tree(n: &NodeRef, out: &mut Vec<(Style, Span)>)
        requires
            texts_fit(*n),
        ensures
            final(out)@ == old(out)@ + doc_sentences(*n),
        decreases n,
    {
        let ghost cs = n.children@;
        let ghost o0 = out@;
        proof {
            lemma_concat_map_single(*n, block_sentences());
        }
        classify_block(n, out);
        match n.kind {
            NodeKind::Paragraph | NodeKind::Heading | NodeKind::TableCell => {},
            _ => {
                proof {
                    lemma_concat_map_add(seq![*n], walk_children(cs, block_stop()), block_sentences());
                    assert(cs.take(cs.len() as int) =~= cs);
                }
                let mut i: usize = n.children.len();
                while i > 0
                    invariant
                        i <= n.children@.len(),
                        cs == n.children@,
                        crate::ast::children_fit(cs),
                        o0 + doc_sentences(*n) == out@ + concat_map(walk_children(cs.take(i as int), block_stop()), block_sentences()),
                    decreases i,
                {
                    i = i - 1;
                    proof {
                        lemma_children_fit(cs, i as int);
                        assert(cs.take(i + 1).drop_last() =~= cs.take(i as int));
                        assert(cs.take(i + 1).last() == cs[i as int]);
                        lemma_concat_map_add(walk(cs[i as int], block_stop()), walk_children(cs.take(i as int), block_stop()), block_sentences());
                    }
                    Self::collect_tree(&n.children[i], out);
                }
                assert(cs.take(0) =~= Seq::<NodeRef>::empty());
            },
        }
        assert(out@ =~= o0 + doc_sentences(*n));
    }

    /// Classify every sentence of the document at `root` and flag the minority style (or every
    /// sentence not in the preferred style).
    pub fn finish(&self, root: &NodeRef, cx: &mut Context)
        requires
            old(cx).wf(),
            texts_fit(*root),
        ensures
            final(cx).wf(),
            final(cx).id() == old(cx).id(),
            final(cx).severity() == old(cx).severity(),
            final(cx).reports() == old(cx).reports() + self.spec_finish(*root),
    {
        let mut ss: Vec<(Style, Span)> = Vec::new();
        Self::collect_tree(root, &mut ss);
        assert(ss@ =~= doc_sentences(*root));
        let mut dearu: usize = 0;
        let mut i: usize = 0;
        while i < ss.len()
            invariant
                i <= ss.len(),
                dearu == count_style(ss@.take(i as int), Style::Dearu),
                dearu <= i,
            decreases ss.len() - i,
        {
            assert(ss@.take(i + 1).drop_last() =~= ss@.take(i as int));
            if ss[i].0 == Style::Dearu {
                dearu = dearu + 1;
            }
            i = i + 1;
        }
        assert(ss@.take(i as int) =~= ss@);
        let desumasu = ss.len() - dearu;
        let flagged = match self.prefer {
            Some(Style::Dearu) => Style::Desumasu,
            Some(Style::Desumasu) => Style::Dearu,
            None => {
                if dearu == 0 || desumasu == 0 {
                    assert(cx.reports() + Seq::<Report>::empty() =~= cx.reports());
                    return;
                }
                if desumasu >= dearu {
                    Style::Dearu
                } else {
                    Style::Desumasu
                }
            },
        };
        let ghost r0 = cx.reports();
        let mut j: usize = 0;
        while j < ss.len()
            invariant
                j <= ss.len(),
                cx.wf(),
                cx.id() == old(cx).id(),
                cx.severity() == old(cx).severity(),
                r0 == old(cx).reports(),
                cx.reports() == r0 + style_reports(ss@.take(j as int), flagged),
            decreases ss.len() - j,
        {
            assert(ss@.take(j + 1).drop_last() =~= ss@.take(j as int));
            let (style, span) = ss[j];
            if style == flagged {
                let m = mixed_style_message(flagged);
                cx.report(span, m);
            }
            j = j + 1;
        }
        assert(ss@.take(j as int) =~= ss@);
    }
}

impl Rule for NoMixDearuDesumasu {
    open spec fn spec_meta(&self) -> RuleMeta {
        self.meta
    }

    /// The per-node check reports nothing: the node kinds are declared so that the prose blocks
    /// are tokenized; the work happens in `finish`.
    open spec fn spec_check(&self, node: NodeRef) -> Seq<Report> {
        seq![]
    }

    fn meta(&self) -> (m: &RuleMeta) {
        &self.meta
    }

    fn check(&self, node: &NodeRef, cx: &mut Context) {
        assert(cx.reports() + Seq::<Report>::empty() =~= cx.reports());
    }
}

impl Default for NoMixDearuDesumasu {
    /// The rule with its default options, as [`NoMixDearuDesumasu::new`] builds it.
    fn default() -> (r: NoMixDearuDesumasu)
        ensures
            r.meta.id@ == ID@,
            r.meta.node_kinds@ == node_kinds(),
            r.meta.default_severity == Severity::Warning,
            r.meta.lang == Some(Lang::Ja),
            r.meta.morphology,
            r.prefer.is_none(),
    {
        NoMixDearuDesumasu::new()
    }
}

} // verus!
