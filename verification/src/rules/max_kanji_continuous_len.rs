//! `max-kanji-continuous-len` — flag runs of consecutive kanji longer than a limit.
use vstd::prelude::*;
use crate::ast::{Rule, abs_span, make_span, plain, Context, NodeKind, NodeRef, Report, RuleMeta, Severity};
use crate::json::{clamp_usize, get_u64, opt_u64, to_usize_saturating, JsonValue};
use crate::rules::scan::{find_runs, runs_from, RunClass};
use crate::text::{byte_at, byte_offsets, decimal, fits_usize, push_decimal, push_str, str_chars};
use crate::util::{is_kanji, spec_is_kanji};

verus! {

/// The rule id.
pub const ID: &'static str = "max-kanji-continuous-len";

/// The node kinds the rule visits.
pub open spec fn node_kinds() -> Seq<NodeKind> {
    seq![NodeKind::Text]
}

/// Default maximum consecutive-kanji run length, in characters.
pub const DEFAULT_MAX: usize = 5;

/// Flags any run of consecutive kanji whose length (in characters) exceeds `max`.
pub struct MaxKanjiContinuousLen {
    pub meta: RuleMeta,
    pub max: usize,
}

impl RunClass for MaxKanjiContinuousLen {
    open spec fn spec_in(&self, c: char) -> bool {
        spec_is_kanji(c)
    }

    fn is_in(&self, c: char) -> (b: bool) {
        is_kanji(c)
    }
}

/// `Kanji run of length {run_len} exceeds the maximum of {max}.`
pub open spec fn message(run_len: nat, max: nat) -> Seq<char> {
    "Kanji run of length "@ + decimal(run_len) + " exceeds the maximum of "@ + decimal(max) + "."@
}

/// One report per run longer than `max`, over the run's bytes.
pub open spec fn long_run_reports(base: u32, t: Seq<char>, runs: Seq<(int, int)>, max: usize) -> Seq<Report>
    decreases runs.len(),
{
    if runs.len() == 0 {
        seq![]
    } else {
        let r = runs.last();
        let rest = long_run_reports(base, t, runs.drop_last(), max);
        if r.1 - r.0 > max {
            rest.push(plain(abs_span(base, byte_at(t, r.0) as int, byte_at(t, r.1) as int), message((r.1 - r.0) as nat, max as nat)))
        } else {
            rest
        }
    }
}

impl MaxKanjiContinuousLen {
    /// Construct with the default options (`max` 5).
    pub fn new() -> (r: MaxKanjiContinuousLen)
        ensures
            r.meta.id@ == ID@,
            r.meta.node_kinds@ == node_kinds(),
            r.meta.default_severity == Severity::Warning,
            r.meta.lang.is_none(),
            r.max == DEFAULT_MAX,
    {
        MaxKanjiContinuousLen {
            meta: RuleMeta::new(ID, Severity::Warning, vec![NodeKind::Text]),
            max: DEFAULT_MAX,
        }
    }

    /// The rule's option fields as config `options` sets them (defaults where a value is
    /// missing or has the wrong type).
    pub open spec fn configured(&self, options: JsonValue) -> bool {
        &&& self.max == match opt_u64(options, "max"@) { Some(n) => clamp_usize(n), None => DEFAULT_MAX, }
    }

    /// Construct from config `options`, leniently (reads `max`; missing/wrong-typed keeps default).
    pub fn from_options(options: &JsonValue) -> (r: MaxKanjiContinuousLen)
        ensures
            r.meta.id@ == ID@,
            r.meta.node_kinds@ == node_kinds(),
            r.meta.default_severity == Severity::Warning,
            r.meta.lang.is_none(),
            r.configured(*options),
    {
        let mut rule = Self::new();
        if let Some(max) = get_u64(options, "max") {
            rule.max = to_usize_saturating(max);
        }
        rule
    }

    fn message(&self, run_len: usize) -> (m: String)
        ensures
            m@ == message(run_len as nat, self.max as nat),
    {
        let mut m = String::new();
        push_str(&mut m, "Kanji run of length ");
        push_decimal(&mut m, run_len);
        push_str(&mut m, " exceeds the maximum of ");
        push_decimal(&mut m, self.max);
        push_str(&mut m, ".");
        m
    }


    pub open spec fn spec_check_at(&self, base: u32, t: Seq<char>) -> Seq<Report> {
        long_run_reports(base, t, runs_from(t, 0, |c: char| self.spec_in(c)), self.max)
    }

}

impl Rule for MaxKanjiContinuousLen {
    open spec fn spec_meta(&self) -> RuleMeta {
        self.meta
    }

    open spec fn spec_check(&self, node: NodeRef) -> Seq<Report> {
        self.spec_check_at(node.span.start, node.text@)
    }

    fn meta(&self) -> (m: &RuleMeta) {
        &self.meta
    }

    fn check(&self, node: &NodeRef, cx: &mut Context)
    {
        let base = node.span.start;
        let cs = str_chars(node.text.as_str());
        let offs = byte_offsets(&cs);
        let runs = find_runs(self, cs.as_slice());
        let ghost all = runs_from(cs@, 0, |c: char| self.spec_in(c));
        let ghost r0 = cx.reports();
        let mut k: usize = 0;
        while k < runs.len()
            invariant
                k <= runs.len(),
                crate::text::offsets_ok(cs@, offs@),
                runs@.len() == all.len(),
                forall|j: int| 0 <= j < runs@.len() ==> (#[trigger] runs@[j]).0 as int == all[j].0 && runs@[j].1 as int == all[j].1,
                forall|j: int| 0 <= j < runs@.len() ==> (#[trigger] runs@[j]).0 < runs@[j].1 <= cs@.len(),
                cx.wf(),
                cx.id() == old(cx).id(),
                cx.severity() == old(cx).severity(),
                r0 == old(cx).reports(),
                cx.reports() == r0 + long_run_reports(base, cs@, all.take(k as int), self.max),
            decreases runs.len() - k,
        {
            let (s, e) = runs[k];
            assert(all.take(k + 1).drop_last() =~= all.take(k as int));
            if e - s > self.max {
                cx.report(make_span(base, offs[s], offs[e]), self.message(e - s));
            }
            k = k + 1;
        }
        assert(all.take(k as int) =~= all);
    }
}

impl Default for MaxKanjiContinuousLen {
    /// The rule with its default options, as [`MaxKanjiContinuousLen::new`] builds it.
    fn default() -> (r: MaxKanjiContinuousLen)
        ensures
            r.meta.id@ == ID@,
            r.meta.node_kinds@ == node_kinds(),
            r.meta.default_severity == Severity::Warning,
            r.meta.lang.is_none(),
            r.max == DEFAULT_MAX,
    {
        MaxKanjiContinuousLen::new()
    }
}

} // verus!
