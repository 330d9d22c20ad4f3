//! `max-ten` — flag sentences with too many 読点 (Japanese commas).
use vstd::prelude::*;
use crate::ast::{Rule, abs_span, make_span, plain, Context, Lang, NodeKind, NodeRef, Report, RuleMeta, Severity};
use crate::json::{clamp_usize, get_u64, opt_str, opt_u64, to_usize_saturating, JsonValue};
use crate::rules::common::{first_char_or, option_first_char};
use crate::text::{
    byte_at, byte_len, count_in, decimal, fits_usize, lemma_byte_at_bounded, lemma_byte_at_full,
    lemma_byte_at_step, lemma_byte_at_zero, lemma_count_in_step, len_utf8, next_index,
    push_char, push_decimal, push_str, str_chars, lemma_byte_at_concat, lemma_byte_len_add,
    lemma_next_index_shift, lemma_next_index_prefix, lemma_next_index_bounds,
};

verus! {

/// The rule id.
pub const ID: &'static str = "max-ten";

/// The node kinds the rule visits.
pub open spec fn node_kinds() -> Seq<NodeKind> {
    seq![NodeKind::Paragraph, NodeKind::Heading, NodeKind::TableCell]
}

/// Default maximum number of 読点 per sentence.
pub const DEFAULT_MAX: usize = 3;

/// Flags any sentence whose count of `touten` (読点) exceeds `max`.
pub struct MaxTen {
    pub meta: RuleMeta,
    pub max: usize,
    pub touten: char,
    pub kuten: char,
}

/// A character that closes a sentence: the kuten, unless it is also the touten (which is counted).
pub open spec fn closes(touten: char, kuten: char) -> spec_fn(char) -> bool {
    |c: char| c != touten && c == kuten
}

pub open spec fn is_char(x: char) -> spec_fn(char) -> bool {
    |c: char| c == x
}

/// `一文に「{touten}」が {count} 個あります。上限は {max} 個です。`
pub open spec fn message(touten: char, count: nat, max: nat) -> Seq<char> {
    "一文に「"@ + seq![touten] + "」が "@ + decimal(count) + " 個あります。上限は "@ + decimal(max)
        + " 個です。"@
}

/// Reports for the sentences of `t` from index `s` on: each sentence runs up to and including the
/// next closing kuten (or to the end); one whose touten count exceeds `max` is reported over its
/// whole byte range. An empty trailing sentence is never reported.
pub open spec fn reports_from(base: u32, t: Seq<char>, s: int, max: usize, touten: char, kuten: char) -> Seq<Report>
    decreases t.len() - s,
{
    if s < 0 || s > t.len() {
        seq![]
    } else {
        let e = next_index(t, s, closes(touten, kuten));
        let count = count_in(t.subrange(s, e), is_char(touten));
        if e < t.len() {
            let here = if count > max {
                seq![plain(abs_span(base, byte_at(t, s) as int, byte_at(t, e + 1) as int), message(touten, count, max as nat))]
            } else {
                seq![]
            };
            proof {
                crate::text::lemma_next_index_bounds(t, s, closes(touten, kuten));
            }
            here + reports_from(base, t, e + 1, max, touten, kuten)
        } else if count > max && s < t.len() {
            seq![plain(abs_span(base, byte_at(t, s) as int, byte_len(t) as int), message(touten, count, max as nat))]
        } else {
            seq![]
        }
    }
}


/// Spans past `u` in `u + v` are `v`'s spans at `u`'s end, when nothing saturates.
proof fn lemma_span_shift(base: u32, u: Seq<char>, v: Seq<char>, i: int, j: int)
    requires
        0 <= i <= j <= v.len(),
        base + byte_len(u + v) <= u32::MAX,
    ensures
        abs_span(base, byte_at(u + v, u.len() + i) as int, byte_at(u + v, u.len() + j) as int) == abs_span(
            (base + byte_len(u)) as u32,
            byte_at(v, i) as int,
            byte_at(v, j) as int,
        ),
{
    lemma_byte_at_concat(u, v, u.len() + i);
    lemma_byte_at_concat(u, v, u.len() + j);
    lemma_byte_len_add(u, v);
    lemma_byte_at_bounded(v, j);
    crate::text::lemma_byte_at_mono(v, i, j);
}

proof fn lemma_reports_shift(base: u32, u: Seq<char>, v: Seq<char>, i: int, max: usize, touten: char, kuten: char)
    requires
        0 <= i <= v.len(),
        base + byte_len(u + v) <= u32::MAX,
    ensures
        reports_from(base, u + v, u.len() + i, max, touten, kuten) == reports_from(
            (base + byte_len(u)) as u32,
            v,
            i,
            max,
            touten,
            kuten,
        ),
    decreases v.len() - i,
{
    let t = u + v;
    let c = closes(touten, kuten);
    lemma_next_index_shift(u, v, i, c);
    lemma_next_index_bounds(v, i, c);
    let ev = next_index(v, i, c);
    assert(t.subrange(u.len() + i, u.len() + ev) =~= v.subrange(i, ev));
    lemma_byte_len_add(u, v);
    if ev < v.len() {
        lemma_span_shift(base, u, v, i, ev + 1);
        lemma_reports_shift(base, u, v, ev + 1, max, touten, kuten);
    } else {
        lemma_span_shift(base, u, v, i, v.len() as int);
        crate::text::lemma_byte_at_full(v);
        crate::text::lemma_byte_at_full(t);
    }
}

proof fn lemma_reports_prefix(base: u32, u: Seq<char>, v: Seq<char>, s: int, max: usize, touten: char, kuten: char)
    requires
        0 <= s <= u.len(),
        u.len() > 0,
        closes(touten, kuten)(u.last()),
        base + byte_len(u + v) <= u32::MAX,
    ensures
        reports_from(base, u + v, s, max, touten, kuten) == reports_from(base, u, s, max, touten, kuten)
            + reports_from((base + byte_len(u)) as u32, v, 0, max, touten, kuten),
    decreases u.len() - s,
{
    let t = u + v;
    let c = closes(touten, kuten);
    if s == u.len() {
        lemma_reports_shift(base, u, v, 0, max, touten, kuten);
        lemma_next_index_bounds(u, s, c);
        assert(u.subrange(s, s) =~= Seq::<char>::empty());
        assert(reports_from(base, u, s, max, touten, kuten) =~= Seq::<Report>::empty());
    } else {
        lemma_next_index_bounds(u, s, c);
        let e = next_index(u, s, c);
        if e == u.len() {
            assert(u[u.len() - 1] == u.last());
            assert(false);
        }
        lemma_next_index_prefix(u, v, s, c);
        assert(t.subrange(s, e) =~= u.subrange(s, e));
        lemma_byte_at_concat(u, v, s);
        lemma_byte_at_concat(u, v, e + 1);
        lemma_reports_prefix(base, u, v, e + 1, max, touten, kuten);
    }
}

/// Sentences are checked independently: cutting the text just after a closing kuten, the
/// reports on the whole are those on the first part followed by those on the second, the
/// second's spans shifted to where it starts. So a report in one sentence never keeps another
/// sentence from being reported.
pub proof fn law_sentences_are_independent(base: u32, u: Seq<char>, v: Seq<char>, max: usize, touten: char, kuten: char)
    requires
        u.len() > 0,
        closes(touten, kuten)(u.last()),
        base + byte_len(u + v) <= u32::MAX,
    ensures
        reports_from(base, u + v, 0, max, touten, kuten) == reports_from(base, u, 0, max, touten, kuten)
            + reports_from((base + byte_len(u)) as u32, v, 0, max, touten, kuten),
{
    lemma_reports_prefix(base, u, v, 0, max, touten, kuten);
}

/// One sentence (no closing kuten but possibly its last character) is reported, over its
/// whole byte range, exactly when its touten count exceeds `max`.
pub proof fn law_one_sentence(base: u32, t: Seq<char>, max: usize, touten: char, kuten: char)
    requires
        forall|i: int| 0 <= i < t.len() - 1 ==> !closes(touten, kuten)(#[trigger] t[i]),
    ensures
        reports_from(base, t, 0, max, touten, kuten) == if count_in(t, is_char(touten)) > max {
            seq![plain(abs_span(base, 0, byte_len(t) as int), message(touten, count_in(t, is_char(touten)), max as nat))]
        } else {
            Seq::<Report>::empty()
        },
{
    let c = closes(touten, kuten);
    lemma_next_index_bounds(t, 0, c);
    lemma_byte_at_zero(t);
    lemma_byte_at_full(t);
    let e = next_index(t, 0, c);
    if t.len() == 0 {
    } else if e < t.len() {
        assert(e == t.len() - 1);
        lemma_count_in_step(t, 0, e, is_char(touten));
        assert(t.subrange(0, e + 1) =~= t);
        lemma_next_index_bounds(t, e + 1, c);
        assert(t.subrange(e + 1, e + 1) =~= Seq::<char>::empty());
        assert(reports_from(base, t, e + 1, max, touten, kuten) =~= Seq::<Report>::empty());
    } else {
        assert(t.subrange(0, e) =~= t);
    }
}

impl MaxTen {
    /// Construct with default options (`max` 3, `touten` 「、」, `kuten` 「。」).
    pub fn new() -> (r: MaxTen)
        ensures
            r.max == DEFAULT_MAX,
            r.touten == '、',
            r.kuten == '。',
            r.meta.id@ == ID@,
            r.meta.node_kinds@ == node_kinds(),
            r.meta.default_severity == Severity::Warning,
            r.meta.lang == Some(Lang::Ja),
    {
        MaxTen {
            meta: RuleMeta::new(
                ID,
                Severity::Warning,
                vec![NodeKind::Paragraph, NodeKind::Heading, NodeKind::TableCell],
            ).for_language(Lang::Ja),
            max: DEFAULT_MAX,
            touten: '、',
            kuten: '。',
        }
    }

    /// The rule's option fields as config `options` sets them (defaults where a value is
    /// missing or has the wrong type).
    pub open spec fn configured(&self, options: JsonValue) -> bool {
        &&& self.max == match opt_u64(options, "max"@) { Some(n) => clamp_usize(n), None => DEFAULT_MAX, }
        &&& self.touten == first_char_or(opt_str(options, "touten"@), '、')
        &&& self.kuten == first_char_or(opt_str(options, "kuten"@), '。')
    }

    /// Construct from config `options`, leniently. Reads `max` (integer), `touten` and `kuten`
    /// (first character of a string); missing/wrong-typed values keep the defaults.
    pub fn from_options(options: &JsonValue) -> (r: MaxTen)
        ensures
            r.meta.id@ == ID@,
            r.meta.node_kinds@ == node_kinds(),
            r.meta.default_severity == Severity::Warning,
            r.meta.lang == Some(Lang::Ja),
            r.configured(*options),
    {
        let mut rule = Self::new();
        if let Some(max) = get_u64(options, "max") {
            rule.max = to_usize_saturating(max);
        }
        rule.touten = option_first_char(options, "touten", '、');
        rule.kuten = option_first_char(options, "kuten", '。');
        rule
    }


    /// What `check` reports for a node whose text is `t`, starting at byte `base`.
    pub open spec fn spec_check_at(&self, base: u32, t: Seq<char>) -> Seq<Report> {
        reports_from(base, t, 0, self.max, self.touten, self.kuten)
    }

}

fn build_message(touten: char, count: usize, max: usize) -> (s: String)
    ensures
        s@ == message(touten, count as nat, max as nat),
{
        let mut s = String::new();
        push_str(&mut s, "一文に「");
        push_char(&mut s, touten);
        push_str(&mut s, "」が ");
        push_decimal(&mut s, count);
        push_str(&mut s, " 個あります。上限は ");
        push_decimal(&mut s, max);
        push_str(&mut s, " 個です。");
    assert(s@ =~= message(touten, count as nat, max as nat));
    s
}

/// Report each sentence of `node` whose count of `touten` exceeds `max` (see [`reports_from`]).
pub fn count_per_sentence(node: &NodeRef, max: usize, touten: char, kuten: char, cx: &mut Context)
    requires
        old(cx).wf(),
        fits_usize(node.text@),
    ensures
        final(cx).wf(),
        final(cx).id() == old(cx).id(),
        final(cx).severity() == old(cx).severity(),
        final(cx).reports() == old(cx).reports() + reports_from(node.span.start, node.text@, 0, max, touten, kuten),
{
    let base = node.span.start;
    let cs = str_chars(node.text.as_str());
    let ghost t = cs@;
    let ghost r0 = cx.reports();
    let mut ten_count: usize = 0;
    let mut sentence_start: usize = 0;
    let mut start_off: usize = 0;
    let mut off: usize = 0;
    let mut i: usize = 0;
    proof {
        lemma_byte_at_zero(t);
    }
    while i < cs.len()
        invariant
            t == cs@,
            t == node.text@,
            fits_usize(t),
            sentence_start <= i <= cs.len(),
            off == byte_at(t, i as int),
            start_off == byte_at(t, sentence_start as int),
            next_index(t, sentence_start as int, closes(touten, kuten))
                == next_index(t, i as int, closes(touten, kuten)),
            ten_count == count_in(t.subrange(sentence_start as int, i as int), is_char(touten)),
            cx.wf(),
            cx.id() == old(cx).id(),
            cx.severity() == old(cx).severity(),
            r0 == old(cx).reports(),
            r0 + reports_from(base, t, 0, max, touten, kuten)
                == cx.reports() + reports_from(base, t, sentence_start as int, max, touten, kuten),
        decreases cs.len() - i,
    {
        let c = cs[i];
        proof {
            lemma_byte_at_step(t, i as int);
            lemma_byte_at_bounded(t, i + 1);
            lemma_count_in_step(t, sentence_start as int, i as int, is_char(touten));
            crate::text::lemma_count_in_le_len(t.subrange(sentence_start as int, i as int), is_char(touten));
        }
        let next_off = off + len_utf8(c);
        if c == touten {
            ten_count = ten_count + 1;
            i = i + 1;
            off = next_off;
        } else if c == kuten {
            proof {
                crate::text::lemma_next_index_bounds(t, i as int, closes(touten, kuten));
            }
            if ten_count > max {
                let msg = build_message(touten, ten_count, max);
                let span = make_span(base, start_off, next_off);
                cx.report(span, msg);
            }
            ten_count = 0;
            i = i + 1;
            off = next_off;
            sentence_start = i;
            start_off = off;
        } else {
            i = i + 1;
            off = next_off;
        }
    }
    proof {
        lemma_byte_at_full(t);
    }
    if ten_count > max && sentence_start < cs.len() {
        let msg = build_message(touten, ten_count, max);
        let span = make_span(base, start_off, off);
        cx.report(span, msg);
    }
    assert(cx.reports() =~= r0 + reports_from(base, t, 0, max, touten, kuten));
}

impl Rule for MaxTen {
    open spec fn spec_meta(&self) -> RuleMeta {
        self.meta
    }

    open spec fn spec_check(&self, node: NodeRef) -> Seq<Report> {
        self.spec_check_at(node.span.start, node.text@)
    }

    fn meta(&self) -> (m: &RuleMeta) {
        &self.meta
    }

    fn check(&self, node: &NodeRef, cx: &mut Context)
    {
        count_per_sentence(node, self.max, self.touten, self.kuten, cx);
    }
}

impl Default for MaxTen {
    /// The rule with its default options, as [`MaxTen::new`] builds it.
    fn default() -> (r: MaxTen)
        ensures
            r.max == DEFAULT_MAX,
            r.touten == '、',
            r.kuten == '。',
            r.meta.id@ == ID@,
            r.meta.node_kinds@ == node_kinds(),
            r.meta.default_severity == Severity::Warning,
            r.meta.lang == Some(Lang::Ja),
    {
        MaxTen::new()
    }
}

} // verus!
