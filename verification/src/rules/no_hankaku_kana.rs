//! `no-hankaku-kana` — flag half-width katakana (full-width is preferred).
use vstd::prelude::*;
use crate::ast::{Rule, abs_span, make_span, plain, Context, Lang, NodeKind, NodeRef, Report, RuleMeta, Severity};
use crate::rules::scan::{find_runs, law_runs_are_maximal, maximal_runs, runs_from, RunClass};
use crate::text::{byte_at, byte_offsets, fits_usize, str_chars};
use crate::util::{is_halfwidth_kana, spec_is_halfwidth_kana};

verus! {

/// The rule id.
pub const ID: &'static str = "no-hankaku-kana";

/// The node kinds the rule visits.
pub open spec fn node_kinds() -> Seq<NodeKind> {
    seq![NodeKind::Text]
}

pub const MESSAGE: &'static str = "半角カタカナは推奨されません。全角カタカナを使ってください。";

/// Flags any run of half-width katakana characters.
pub struct NoHankakuKana {
    pub meta: RuleMeta,
}

impl RunClass for NoHankakuKana {
    open spec fn spec_in(&self, c: char) -> bool {
        spec_is_halfwidth_kana(c)
    }

    fn is_in(&self, c: char) -> (b: bool) {
        is_halfwidth_kana(c)
    }
}

/// One report per maximal half-width katakana run, over the run's bytes.
pub open spec fn run_reports(base: u32, t: Seq<char>, runs: Seq<(int, int)>) -> Seq<Report> {
    runs.map_values(|r: (int, int)| plain(abs_span(base, byte_at(t, r.0) as int, byte_at(t, r.1) as int), MESSAGE@))
}

impl NoHankakuKana {
    /// Construct the rule (no options).
    pub fn new() -> (r: NoHankakuKana)
        ensures
            r.meta.id@ == ID@,
            r.meta.node_kinds@ == node_kinds(),
            r.meta.default_severity == Severity::Warning,
            r.meta.lang == Some(Lang::Ja),
    {
        NoHankakuKana {
            meta: RuleMeta::new(ID, Severity::Warning, vec![NodeKind::Text]).for_language(Lang::Ja),
        }
    }


    pub open spec fn spec_check_at(&self, base: u32, t: Seq<char>) -> Seq<Report> {
        run_reports(base, t, runs_from(t, 0, |c: char| self.spec_in(c)))
    }

    /// One report per maximal run of half-width katakana, in text order: the reports are those
    /// of runs that are exactly the longest stretches of half-width katakana, covering every one
    /// (so `ｱあｲ` gives two).
    pub proof fn law_one_report_per_kana_run(&self, base: u32, t: Seq<char>)
        ensures
            ({
                let runs = runs_from(t, 0, |c: char| spec_is_halfwidth_kana(c));
                &&& maximal_runs(t, 0, |c: char| spec_is_halfwidth_kana(c), runs)
                &&& self.spec_check_at(base, t) == run_reports(base, t, runs)
            }),
    {
        assert((|c: char| self.spec_in(c)) =~= (|c: char| spec_is_halfwidth_kana(c)));
        law_runs_are_maximal(t, 0, |c: char| spec_is_halfwidth_kana(c));
    }

}

impl Rule for NoHankakuKana {
    open spec fn spec_meta(&self) -> RuleMeta {
        self.meta
    }

    open spec fn spec_check(&self, node: NodeRef) -> Seq<Report> {
        self.spec_check_at(node.span.start, node.text@)
    }

    fn meta(&self) -> (m: &RuleMeta) {
        &self.meta
    }

    fn check(&self, node: &NodeRef, cx: &mut Context)
    {
        let base = node.span.start;
        let cs = str_chars(node.text.as_str());
        let offs = byte_offsets(&cs);
        let runs = find_runs(self, cs.as_slice());
        let ghost all = runs_from(cs@, 0, |c: char| self.spec_in(c));
        let ghost r0 = cx.reports();
        let mut k: usize = 0;
        while k < runs.len()
            invariant
                k <= runs.len(),
                crate::text::offsets_ok(cs@, offs@),
                runs@.len() == all.len(),
                forall|j: int| 0 <= j < runs@.len() ==> (#[trigger] runs@[j]).0 as int == all[j].0 && runs@[j].1 as int == all[j].1,
                forall|j: int| 0 <= j < runs@.len() ==> (#[trigger] runs@[j]).0 < runs@[j].1 <= cs@.len(),
                cx.wf(),
                cx.id() == old(cx).id(),
                cx.severity() == old(cx).severity(),
                r0 == old(cx).reports(),
                cx.reports() == r0 + run_reports(base, cs@, all.take(k as int)),
            decreases runs.len() - k,
        {
            let (s, e) = runs[k];
            cx.report(make_span(base, offs[s], offs[e]), MESSAGE.to_owned());
            assert(all.take(k + 1) =~= all.take(k as int).push(all[k as int]));
            assert(run_reports(base, cs@, all.take(k + 1)) =~= run_reports(base, cs@, all.take(k as int)).push(plain(abs_span(base, byte_at(cs@, all[k as int].0) as int, byte_at(cs@, all[k as int].1) as int), MESSAGE@)));
            k = k + 1;
        }
        assert(all.take(k as int) =~= all);
    }
}

impl Default for NoHankakuKana {
    /// The rule with its default options, as [`NoHankakuKana::new`] builds it.
    fn default() -> (r: NoHankakuKana)
        ensures
            r.meta.id@ == ID@,
            r.meta.node_kinds@ == node_kinds(),
            r.meta.default_severity == Severity::Warning,
            r.meta.lang == Some(Lang::Ja),
    {
        NoHankakuKana::new()
    }
}

} // verus!
