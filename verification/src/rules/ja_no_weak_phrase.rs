//! `ja-no-weak-phrase` — flag weak or uncertain expressions (弱い表現) that undermine technical
//! writing: かも。/ かもしれ / 思う / 思います / 可能性を示唆している.
//!
//! A surface rule: every non-overlapping occurrence of each phrase in the node's text is a hit;
//! the hits are ordered by start (a longer hit first on a tie), and a hit that overlaps one
//! already reported is dropped. Report-only.
use vstd::prelude::*;
use crate::ast::{abs_span, make_span, plain, Context, Lang, NodeKind, NodeRef, Report, Rule, RuleMeta, Severity};
use crate::rules::no_todo::{find_from, lemma_first_match_range, match_at, matches_from};
use crate::text::{byte_at, byte_offsets, fits_usize, offsets_ok, str_chars};

verus! {

/// The rule id.
pub const ID: &'static str = "ja-no-weak-phrase";

/// The node kinds the rule visits.
pub open spec fn node_kinds() -> Seq<NodeKind> {
    seq![NodeKind::Paragraph, NodeKind::Heading, NodeKind::TableCell]
}

/// Flags weak/uncertain expressions in Japanese technical writing.
pub struct JaNoWeakPhrase {
    pub meta: RuleMeta,
}

/// The phrase of dictionary entry `i` (`0..5`).
pub open spec fn weak_phrase(i: int) -> Seq<char> {
    if i == 0 {
        "かも。"@
    } else if i == 1 {
        "かもしれ"@
    } else if i == 2 {
        "思う"@
    } else if i == 3 {
        "思います"@
    } else {
        "可能性を示唆している"@
    }
}

/// The diagnostic of dictionary entry `i`.
pub open spec fn weak_message(i: int) -> Seq<char> {
    if i == 0 {
        "弱い表現「かも」が使われています。断言できる表現に書き換えてください。"@
    } else if i == 1 {
        "弱い表現「かもしれ」が使われています。断言できる表現に書き換えてください。"@
    } else if i == 2 {
        "弱い表現「思う」が使われています。断言できる表現に書き換えてください。"@
    } else if i == 3 {
        "弱い表現「思います」が使われています。断言できる表現に書き換えてください。"@
    } else {
        "弱い表現「可能性を示唆している」が使われています。「可能性がある」または「…を示唆している」を利用してください。弱い表現を二つ重ねることはしないでください。"@
    }
}

fn weak_phrase_exec(i: usize) -> (s: &'static str)
    requires
        i < 5,
    ensures
        s@ == weak_phrase(i as int),
{
    if i == 0 {
        "かも。"
    } else if i == 1 {
        "かもしれ"
    } else if i == 2 {
        "思う"
    } else if i == 3 {
        "思います"
    } else {
        "可能性を示唆している"
    }
}

fn weak_message_exec(i: usize) -> (s: String)
    requires
        i < 5,
    ensures
        s@ == weak_message(i as int),
{
    if i == 0 {
        "弱い表現「かも」が使われています。断言できる表現に書き換えてください。".to_string()
    } else if i == 1 {
        "弱い表現「かもしれ」が使われています。断言できる表現に書き換えてください。".to_string()
    } else if i == 2 {
        "弱い表現「思う」が使われています。断言できる表現に書き換えてください。".to_string()
    } else if i == 3 {
        "弱い表現「思います」が使われています。断言できる表現に書き換えてください。".to_string()
    } else {
        "弱い表現「可能性を示唆している」が使われています。「可能性がある」または「…を示唆している」を利用してください。弱い表現を二つ重ねることはしないでください。".to_string()
    }
}

/// A hit: start and end character indices and the dictionary entry.
pub type Hit = (int, int, int);

/// The hits of entry `i`: its non-overlapping occurrences, left to right.
pub open spec fn entry_hits(t: Seq<char>, i: int) -> Seq<Hit> {
    matches_from(t, weak_phrase(i), 0, true).map_values(|k: int| (k, k + weak_phrase(i).len(), i))
}

/// The hits of the first `n` entries, entry by entry.
pub open spec fn all_hits(t: Seq<char>, n: int) -> Seq<Hit>
    decreases n,
{
    if n <= 0 {
        seq![]
    } else {
        all_hits(t, n - 1) + entry_hits(t, n - 1)
    }
}

/// Hits are ordered by start, a longer hit first.
pub open spec fn hit_lt(a: Hit, b: Hit) -> bool {
    a.0 < b.0 || (a.0 == b.0 && a.1 > b.1)
}

/// Stable insertion of `h` into the ordered hits `hs`.
pub open spec fn insert_hit(hs: Seq<Hit>, h: Hit) -> Seq<Hit>
    decreases hs.len(),
{
    if hs.len() == 0 {
        seq![h]
    } else if hit_lt(h, hs.last()) {
        insert_hit(hs.drop_last(), h).push(hs.last())
    } else {
        hs.push(h)
    }
}

/// The first `n` hits of `hs`, ordered (a stable sort).
pub open spec fn sort_hits(hs: Seq<Hit>, n: int) -> Seq<Hit>
    decreases n,
{
    if n <= 0 {
        seq![]
    } else {
        insert_hit(sort_hits(hs, n - 1), hs[n - 1])
    }
}

/// Reports for the first `n` ordered hits, dropping a hit that starts before the end of the
/// last reported one; also that end.
pub open spec fn emit(base: u32, t: Seq<char>, hs: Seq<Hit>, n: int) -> (int, Seq<Report>)
    decreases n,
{
    if n <= 0 {
        (0, seq![])
    } else {
        let (last_end, rs) = emit(base, t, hs, n - 1);
        let h = hs[n - 1];
        if h.0 < last_end {
            (last_end, rs)
        } else {
            (h.1, rs.push(plain(abs_span(base, byte_at(t, h.0) as int, byte_at(t, h.1) as int), weak_message(h.2))))
        }
    }
}

proof fn lemma_insert_hit_at(hs: Seq<Hit>, h: Hit, p: int)
    requires
        0 <= p <= hs.len(),
        forall|q: int| p <= q < hs.len() ==> hit_lt(h, #[trigger] hs[q]),
        p == 0 || !hit_lt(h, hs[p - 1]),
    ensures
        insert_hit(hs, h) == hs.take(p) + seq![h] + hs.skip(p),
    decreases hs.len(),
{
    if hs.len() == p {
        assert(hs.take(p) =~= hs);
        assert(hs.skip(p) =~= Seq::<Hit>::empty());
        assert(insert_hit(hs, h) =~= hs.take(p) + seq![h] + hs.skip(p));
    } else {
        let h2 = hs.drop_last();
        assert forall|r: int| p <= r < h2.len() implies hit_lt(h, #[trigger] h2[r]) by {
            assert(h2[r] == hs[r]);
        }
        if p > 0 {
            assert(h2[p - 1] == hs[p - 1]);
        }
        lemma_insert_hit_at(h2, h, p);
        assert(insert_hit(hs, h) =~= hs.take(p) + seq![h] + hs.skip(p));
    }
}

/// A collected hit is an ordered range of a text of `n` characters naming a dictionary entry.
spec fn hit_ok(h: (usize, usize, usize), n: nat) -> bool {
    h.0 <= h.1 <= n && h.2 < 5
}

spec fn hview(v: Seq<(usize, usize, usize)>) -> Seq<Hit> {
    v.map_values(|h: (usize, usize, usize)| (h.0 as int, h.1 as int, h.2 as int))
}

impl JaNoWeakPhrase {
    /// Construct the rule (no options).
    pub fn new() -> (r: JaNoWeakPhrase)
        ensures
            r.meta.id@ == ID@,
            r.meta.node_kinds@ == node_kinds(),
            r.meta.default_severity == Severity::Warning,
            r.meta.lang == Some(Lang::Ja),
    {
        JaNoWeakPhrase {
            meta: RuleMeta::new(ID, Severity::Warning, vec![NodeKind::Paragraph, NodeKind::Heading, NodeKind::TableCell])
                .for_language(Lang::Ja),
        }
    }

    /// What the rule reports for a node at `base` with text `t`.
    pub open spec fn spec_check_at(base: u32, t: Seq<char>) -> Seq<Report> {
        let hs = all_hits(t, 5);
        emit(base, t, sort_hits(hs, hs.len() as int), hs.len() as int).1
    }

    /// Append the hits of entry `e` to `hits`.
    fn collect_entry(t: &Vec<char>, e: usize, hits: &mut Vec<(usize, usize, usize)>)
        requires
            e < 5,
            forall|k: int| 0 <= k < old(hits)@.len() ==> hit_ok(#[trigger] old(hits)@[k], t@.len()),
        ensures
            hview(final(hits)@) == hview(old(hits)@) + entry_hits(t@, e as int),
            forall|k: int| 0 <= k < final(hits)@.len() ==> hit_ok(#[trigger] final(hits)@[k], t@.len()),
    {
        let p = str_chars(weak_phrase_exec(e));
        proof {
            reveal_strlit("かも。");
            reveal_strlit("かもしれ");
            reveal_strlit("思う");
            reveal_strlit("思います");
            reveal_strlit("可能性を示唆している");
        }
        let tl = t.len();
        let ghost ms_all = matches_from(t@, p@, 0, true);
        let ghost h0 = hview(hits@);
        let ghost mapf = |k: int| (k, k + weak_phrase(e as int).len(), e as int);
        let mut search: usize = 0;
        let mut done = false;
        let ghost mut seen: Seq<int> = seq![];
        while !done
            invariant
                p@ == weak_phrase(e as int),
                p@.len() > 0,
                tl == t@.len(),
                search <= t@.len(),
                e < 5,
                mapf == (|k: int| (k, k + weak_phrase(e as int).len(), e as int)),
                ms_all == seen + if done { seq![] } else { matches_from(t@, p@, search as int, true) },
                hview(hits@) == h0 + seen.map_values(mapf),
                forall|k: int| 0 <= k < hits@.len() ==> hit_ok(#[trigger] hits@[k], t@.len()),
            decreases t@.len() - search, if done { 0int } else { 1int },
        {
            match find_from(t.as_slice(), p.as_slice(), search, true) {
                Some(k) => {
                    proof {
                        lemma_first_match_range(t@, p@, search as int, true);
                    }
                    let end = k + p.len();
                    let ghost seen0 = seen;
                    proof {
                        seen = seen.push(k as int);
                    }
                    let ghost hb = hits@;
                    hits.push((k, end, e));
                    assert(hview(hits@) =~= hview(hb).push((k as int, end as int, e as int)));
                    assert(seen.map_values(mapf) =~= seen0.map_values(mapf).push(mapf(k as int)));
                    assert(matches_from(t@, p@, search as int, true) == seq![k as int] + matches_from(t@, p@, end as int, true));
                    assert(ms_all =~= seen + matches_from(t@, p@, end as int, true));
                    search = end;
                },
                None => {
                    done = true;
                    assert(ms_all =~= seen);
                },
            }
        }
    }

    fn check_text(base: u32, text: &str, cx: &mut Context)
        requires
            old(cx).wf(),
            fits_usize(text@),
        ensures
            final(cx).wf(),
            final(cx).id() == old(cx).id(),
            final(cx).severity() == old(cx).severity(),
            final(cx).reports() == old(cx).reports() + Self::spec_check_at(base, text@),
    {
        let t = str_chars(text);
        let offs = byte_offsets(&t);
        let mut hits: Vec<(usize, usize, usize)> = Vec::new();
        let mut e: usize = 0;
        while e < 5
            invariant
                e <= 5,
                hview(hits@) == all_hits(t@, e as int),
                forall|k: int| 0 <= k < hits@.len() ==> hit_ok(#[trigger] hits@[k], t@.len()),
            decreases 5 - e,
        {
            Self::collect_entry(&t, e, &mut hits);
            e = e + 1;
        }
        let ghost hs = hview(hits@);
        // Order the hits (stable insertion sort).
        let mut sorted: Vec<(usize, usize, usize)> = Vec::new();
        let mut i: usize = 0;
        while i < hits.len()
            invariant
                i <= hits.len(),
                hs == hview(hits@),
                forall|k: int| 0 <= k < hits@.len() ==> hit_ok(#[trigger] hits@[k], t@.len()),
                forall|k: int| 0 <= k < sorted@.len() ==> hit_ok(#[trigger] sorted@[k], t@.len()),
                hview(sorted@) == sort_hits(hs, i as int),
                sorted@.len() == i,
            decreases hits.len() - i,
        {
            let h = hits[i];
            let mut p: usize = sorted.len();
            while p > 0 && (h.0 < sorted[p - 1].0 || (h.0 == sorted[p - 1].0 && h.1 > sorted[p - 1].1))
                invariant
                    p <= sorted@.len(),
                    forall|q: int| p <= q < sorted@.len() ==> hit_lt((h.0 as int, h.1 as int, h.2 as int), #[trigger] hview(sorted@)[q]),
                decreases p,
            {
                p = p - 1;
            }
            proof {
                assert(hs[i as int] == (h.0 as int, h.1 as int, h.2 as int));
                lemma_insert_hit_at(hview(sorted@), hs[i as int], p as int);
            }
            let ghost sb = sorted@;
            sorted.insert(p, h);
            assert(hview(sorted@) =~= hview(sb).take(p as int) + seq![hs[i as int]] + hview(sb).skip(p as int));
            assert forall|k: int| 0 <= k < sorted@.len() implies hit_ok(#[trigger] sorted@[k], t@.len()) by {
                if k < p {
                    assert(sorted@[k] == sb[k]);
                } else if k > p {
                    assert(sorted@[k] == sb[k - 1]);
                }
            }
            i = i + 1;
        }
        // Report, dropping overlaps.
        let ghost ss = hview(sorted@);
        let ghost r0 = cx.reports();
        let mut last_end: usize = 0;
        let mut j: usize = 0;
        while j < sorted.len()
            invariant
                j <= sorted.len(),
                ss == hview(sorted@),
                offsets_ok(t@, offs@),
                forall|k: int| 0 <= k < sorted@.len() ==> hit_ok(#[trigger] sorted@[k], t@.len()),
                cx.wf(),
                cx.id() == old(cx).id(),
                cx.severity() == old(cx).severity(),
                r0 == old(cx).reports(),
                emit(base, t@, ss, j as int) == (last_end as int, cx.reports().subrange(r0.len() as int, cx.reports().len() as int)),
                cx.reports().len() >= r0.len(),
                cx.reports().subrange(0, r0.len() as int) == r0,
            decreases sorted.len() - j,
        {
            let (s, en, entry) = sorted[j];
            assert(ss[j as int] == (s as int, en as int, entry as int));
            if s >= last_end {
                let ghost before = cx.reports();
                cx.report(make_span(base, offs[s], offs[en]), weak_message_exec(entry));
                assert(cx.reports().subrange(r0.len() as int, cx.reports().len() as int) =~= before.subrange(
                    r0.len() as int,
                    before.len() as int,
                ).push(cx.reports().last()));
                assert(cx.reports().subrange(0, r0.len() as int) =~= before.subrange(0, r0.len() as int));
                last_end = en;
            }
            j = j + 1;
        }
        assert(cx.reports() =~= r0 + cx.reports().subrange(r0.len() as int, cx.reports().len() as int));
    }
}

impl Rule for JaNoWeakPhrase {
    open spec fn spec_meta(&self) -> RuleMeta {
        self.meta
    }

    open spec fn spec_check(&self, node: NodeRef) -> Seq<Report> {
        Self::spec_check_at(node.span.start, node.text@)
    }

    fn meta(&self) -> (m: &RuleMeta) {
        &self.meta
    }

    fn check(&self, node: &NodeRef, cx: &mut Context) {
        Self::check_text(node.span.start, node.text.as_str(), cx);
    }
}

impl Default for JaNoWeakPhrase {
    /// The rule with its default options, as [`JaNoWeakPhrase::new`] builds it.
    fn default() -> (r: JaNoWeakPhrase)
        ensures
            r.meta.id@ == ID@,
            r.meta.node_kinds@ == node_kinds(),
            r.meta.default_severity == Severity::Warning,
            r.meta.lang == Some(Lang::Ja),
    {
        JaNoWeakPhrase::new()
    }
}

} // verus!
