//! `sentence-length` — flag sentences longer than a character limit.
use vstd::prelude::*;
use crate::ast::{Rule, plain, Context, Lang, NodeKind, NodeRef, Report, RuleMeta, Severity, Span};
use crate::json::{clamp_usize, get_bool, get_u64, opt_bool, opt_u64, to_usize_saturating, JsonValue};
use crate::text::{decimal, push_decimal, push_str, str_chars};
use crate::util::{sentences, split_sentences, strip_urls, strip_urls_from};

verus! {

/// The rule id.
pub const ID: &'static str = "sentence-length";

/// The node kinds the rule visits.
pub open spec fn node_kinds() -> Seq<NodeKind> {
    seq![NodeKind::Paragraph, NodeKind::Heading, NodeKind::TableCell]
}

/// Default maximum sentence length, in characters.
pub const DEFAULT_MAX: usize = 100;

/// Flags any sentence (in a prose block) whose character count exceeds `max`.
pub struct SentenceLength {
    pub meta: RuleMeta,
    pub max: usize,
    pub skip_urls: bool,
}

/// `Sentence is too long ({n} characters). Maximum allowed is {max}.`
pub open spec fn message(n: nat, max: nat) -> Seq<char> {
    "Sentence is too long ("@ + decimal(n) + " characters). Maximum allowed is "@ + decimal(max) + "."@
}

/// One report over `span` per sentence of `ss` longer than `max` characters.
pub open spec fn long_sentence_reports(span: Span, ss: Seq<Seq<char>>, max: usize) -> Seq<Report>
    decreases ss.len(),
{
    if ss.len() == 0 {
        seq![]
    } else {
        let rest = long_sentence_reports(span, ss.drop_last(), max);
        if ss.last().len() > max {
            rest.push(plain(span, message(ss.last().len(), max as nat)))
        } else {
            rest
        }
    }
}

/// Every sentence longer than `max` characters is reported, whichever sentence it is: one
/// report per such sentence of `ss`, in order, each naming that sentence's length. (The
/// sentences are those of [`crate::util::sentences`]; see `law_sentence_pieces` and
/// `law_sentences_interleave_whitespace`.)
pub proof fn law_every_long_sentence_is_reported(span: Span, ss: Seq<Seq<char>>, max: usize)
    ensures
        long_sentence_reports(span, ss, max) == ss.filter(|s: Seq<char>| s.len() > max).map_values(
            |s: Seq<char>| plain(span, message(s.len(), max as nat)),
        ),
    decreases ss.len(),
{
    reveal(Seq::filter);
    let pred = |s: Seq<char>| s.len() > max;
    let f = |s: Seq<char>| plain(span, message(s.len(), max as nat));
    if ss.len() > 0 {
        law_every_long_sentence_is_reported(span, ss.drop_last(), max);
        let sub = ss.drop_last().filter(pred);
        if pred(ss.last()) {
            assert(sub.push(ss.last()).map_values(f) =~= sub.map_values(f).push(f(ss.last())));
        }
    } else {
        assert(ss.filter(pred).map_values(f) =~= Seq::<Report>::empty());
    }
}

impl SentenceLength {
    /// Construct with the default options (`max` 100, URLs collapsed before counting).
    pub fn new() -> (r: SentenceLength)
        ensures
            r.meta.id@ == ID@,
            r.meta.node_kinds@ == node_kinds(),
            r.meta.default_severity == Severity::Warning,
            r.meta.lang == Some(Lang::Ja),
            r.max == DEFAULT_MAX,
            r.skip_urls,
    {
        SentenceLength {
            meta: RuleMeta::new(
                ID,
                Severity::Warning,
                vec![NodeKind::Paragraph, NodeKind::Heading, NodeKind::TableCell],
            ).for_language(Lang::Ja),
            max: DEFAULT_MAX,
            skip_urls: true,
        }
    }

    /// The rule's option fields as config `options` sets them (defaults where a value is
    /// missing or has the wrong type).
    pub open spec fn configured(&self, options: JsonValue) -> bool {
        &&& self.max == match opt_u64(options, "max"@) { Some(n) => clamp_usize(n), None => DEFAULT_MAX, }
        &&& self.skip_urls == match opt_bool(options, "skip_urls"@) { Some(b) => b, None => true, }
    }

    /// Construct from config `options`, leniently: a missing or wrong-typed value keeps the
    /// default. Reads `max` (integer) and `skip_urls` (bool).
    pub fn from_options(options: &JsonValue) -> (r: SentenceLength)
        ensures
            r.meta.id@ == ID@,
            r.meta.node_kinds@ == node_kinds(),
            r.meta.default_severity == Severity::Warning,
            r.meta.lang == Some(Lang::Ja),
            r.configured(*options),
    {
        let mut rule = Self::new();
        if let Some(max) = get_u64(options, "max") {
            rule.max = to_usize_saturating(max);
        }
        if let Some(skip) = get_bool(options, "skip_urls") {
            rule.skip_urls = skip;
        }
        rule
    }


    /// The text sentences are split from: URL runs collapsed unless `skip_urls` is off.
    pub open spec fn working(&self, t: Seq<char>) -> Seq<char> {
        if self.skip_urls {
            strip_urls_from(t, 0)
        } else {
            t
        }
    }

    /// One report over the whole node per over-long sentence.
    pub open spec fn spec_check_at(&self, span: Span, t: Seq<char>) -> Seq<Report> {
        long_sentence_reports(span, sentences(self.working(t)), self.max)
    }

}

impl Rule for SentenceLength {
    open spec fn spec_meta(&self) -> RuleMeta {
        self.meta
    }

    open spec fn spec_check(&self, node: NodeRef) -> Seq<Report> {
        self.spec_check_at(node.span, node.text@)
    }

    fn meta(&self) -> (m: &RuleMeta) {
        &self.meta
    }

    fn check(&self, node: &NodeRef, cx: &mut Context)
    {
        let stripped;
        let working: &str = if self.skip_urls {
            stripped = strip_urls(node.text.as_str());
            stripped.as_str()
        } else {
            node.text.as_str()
        };
        let ss = split_sentences(working);
        let ghost all = sentences(working@);
        let ghost r0 = cx.reports();
        let mut k: usize = 0;
        while k < ss.len()
            invariant
                k <= ss.len(),
                ss.len() == all.len(),
                forall|j: int| 0 <= j < ss.len() ==> #[trigger] ss[j]@ == all[j],
                all == sentences(self.working(node.text@)),
                cx.wf(),
                cx.id() == old(cx).id(),
                cx.severity() == old(cx).severity(),
                r0 == old(cx).reports(),
                cx.reports() == r0 + long_sentence_reports(node.span, all.take(k as int), self.max),
            decreases ss.len() - k,
        {
            let n = str_chars(ss[k]).len();
            assert(all.take(k + 1).drop_last() =~= all.take(k as int));
            if n > self.max {
                let mut m = String::new();
                push_str(&mut m, "Sentence is too long (");
                push_decimal(&mut m, n);
                push_str(&mut m, " characters). Maximum allowed is ");
                push_decimal(&mut m, self.max);
                push_str(&mut m, ".");
                cx.report(node.span, m);
            }
            k = k + 1;
        }
        assert(all.take(k as int) =~= all);
    }
}

impl Default for SentenceLength {
    /// The rule with its default options, as [`SentenceLength::new`] builds it.
    fn default() -> (r: SentenceLength)
        ensures
            r.meta.id@ == ID@,
            r.meta.node_kinds@ == node_kinds(),
            r.meta.default_severity == Severity::Warning,
            r.meta.lang == Some(Lang::Ja),
            r.max == DEFAULT_MAX,
            r.skip_urls,
    {
        SentenceLength::new()
    }
}

} // verus!
