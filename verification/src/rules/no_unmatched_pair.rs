//! `no-unmatched-pair` — flag unmatched bracket/quote pairs.
//!
//! The matcher keeps a per-pair-*type* context: an opening mark enters its type's context, a
//! closing mark of an already-open type leaves it, and every opener still open at the end of the
//! text is reported as unclosed. A closing mark whose type is not open is ignored (it may be an
//! enumeration marker such as `1)`), a second opener of an open type is ignored, and crossing
//! nesting such as `([)]` is not flagged. The symmetric `"` toggles.
//!
//! With the option `detectOrphanedClosers`, an orphaned closer is also reported, but only for
//! closers that never double as enumeration markers: `」』】〛»›`.
use vstd::prelude::*;
use crate::ast::{abs_pos, plain, Context, Lang, NodeKind, NodeRef, Report, Rule, RuleMeta, Severity, Span};
use crate::json::{get_bool, opt_bool, JsonValue};
use crate::text::{byte_at, byte_offsets, fits_usize, len_utf8, offsets_ok, push_char, push_str, str_chars, utf8_len};

verus! {

/// The rule id.
pub const ID: &'static str = "no-unmatched-pair";

/// The node kinds the rule visits.
pub open spec fn node_kinds() -> Seq<NodeKind> {
    seq![NodeKind::Text]
}

/// The opening mark of pair `i` (the pairs are numbered `0..13`).
pub open spec fn pair_start(i: int) -> char {
    if i == 0 { '"' } else if i == 1 { '[' } else if i == 2 { '(' } else if i == 3 { '{' } else if i == 4 { '「' }
    else if i == 5 { '（' } else if i == 6 { '『' } else if i == 7 { '｛' } else if i == 8 { '［' } else if i == 9 { '〚' }
    else if i == 10 { '【' } else if i == 11 { '«' } else { '‹' }
}

/// The closing mark of pair `i`.
pub open spec fn pair_end(i: int) -> char {
    if i == 0 { '"' } else if i == 1 { ']' } else if i == 2 { ')' } else if i == 3 { '}' } else if i == 4 { '」' }
    else if i == 5 { '）' } else if i == 6 { '』' } else if i == 7 { '｝' } else if i == 8 { '］' } else if i == 9 { '〛' }
    else if i == 10 { '】' } else if i == 11 { '»' } else { '›' }
}

/// The name of pair `i` shown in the diagnostic.
pub open spec fn pair_name(i: int) -> Seq<char> {
    if i == 0 { "二重引用符\"\""@ } else if i == 1 { "角括弧[]"@ } else if i == 2 { "丸括弧()"@ }
    else if i == 3 { "波括弧{}"@ } else if i == 4 { "かぎ括弧「」"@ } else if i == 5 { "全角丸括弧（）"@ }
    else if i == 6 { "二重かぎ括弧『』"@ } else if i == 7 { "全角波括弧｛｝"@ } else if i == 8 { "全角角括弧［］"@ }
    else if i == 9 { "二重角括弧〚〛"@ } else if i == 10 { "隅付き括弧【】"@ } else if i == 11 { "二重山括弧«»"@ }
    else { "山括弧‹›"@ }
}

/// Whether an orphaned closer of pair `i` may be reported: only for closers that never act as
/// an enumeration marker.
pub open spec fn pair_flags_orphan(i: int) -> bool {
    i == 4 || i == 6 || i == 9 || i == 10 || i == 11 || i == 12
}

/// The pair whose opener is `c`.
pub open spec fn spec_pair_with_start(c: char) -> Option<int> {
    if c == '"' { Some(0) } else if c == '[' { Some(1) } else if c == '(' { Some(2) } else if c == '{' { Some(3) }
    else if c == '「' { Some(4) } else if c == '（' { Some(5) } else if c == '『' { Some(6) } else if c == '｛' { Some(7) }
    else if c == '［' { Some(8) } else if c == '〚' { Some(9) } else if c == '【' { Some(10) } else if c == '«' { Some(11) }
    else if c == '‹' { Some(12) } else { None }
}

/// The pair whose closer is `c`.
pub open spec fn spec_pair_with_end(c: char) -> Option<int> {
    if c == '"' { Some(0) } else if c == ']' { Some(1) } else if c == ')' { Some(2) } else if c == '}' { Some(3) }
    else if c == '」' { Some(4) } else if c == '）' { Some(5) } else if c == '』' { Some(6) } else if c == '｝' { Some(7) }
    else if c == '］' { Some(8) } else if c == '〛' { Some(9) } else if c == '】' { Some(10) } else if c == '»' { Some(11) }
    else if c == '›' { Some(12) } else { None }
}

/// The index of the pair whose opener is `c`, if any.
pub fn pair_with_start(c: char) -> (r: Option<usize>)
    ensures
        match spec_pair_with_start(c) {
            Some(i) => 0 <= i < 13 && r == Some(i as usize),
            None => r.is_none(),
        },
{
    if c == '"' { Some(0) } else if c == '[' { Some(1) } else if c == '(' { Some(2) } else if c == '{' { Some(3) }
    else if c == '「' { Some(4) } else if c == '（' { Some(5) } else if c == '『' { Some(6) } else if c == '｛' { Some(7) }
    else if c == '［' { Some(8) } else if c == '〚' { Some(9) } else if c == '【' { Some(10) } else if c == '«' { Some(11) }
    else if c == '‹' { Some(12) } else { None }
}

/// The index of the pair whose closer is `c`, if any.
pub fn pair_with_end(c: char) -> (r: Option<usize>)
    ensures
        match spec_pair_with_end(c) {
            Some(i) => 0 <= i < 13 && r == Some(i as usize),
            None => r.is_none(),
        },
{
    if c == '"' { Some(0) } else if c == ']' { Some(1) } else if c == ')' { Some(2) } else if c == '}' { Some(3) }
    else if c == '」' { Some(4) } else if c == '）' { Some(5) } else if c == '』' { Some(6) } else if c == '｝' { Some(7) }
    else if c == '］' { Some(8) } else if c == '〛' { Some(9) } else if c == '】' { Some(10) } else if c == '»' { Some(11) }
    else if c == '›' { Some(12) } else { None }
}

fn pair_start_char(i: usize) -> (c: char)
    ensures
        c == pair_start(i as int),
{
    if i == 0 { '"' } else if i == 1 { '[' } else if i == 2 { '(' } else if i == 3 { '{' } else if i == 4 { '「' }
    else if i == 5 { '（' } else if i == 6 { '『' } else if i == 7 { '｛' } else if i == 8 { '［' } else if i == 9 { '〚' }
    else if i == 10 { '【' } else if i == 11 { '«' } else { '‹' }
}

fn push_pair_name(s: &mut String, i: usize)
    ensures
        final(s)@ == old(s)@ + pair_name(i as int),
{
    if i == 0 { push_str(s, "二重引用符\"\"") } else if i == 1 { push_str(s, "角括弧[]") } else if i == 2 { push_str(s, "丸括弧()") }
    else if i == 3 { push_str(s, "波括弧{}") } else if i == 4 { push_str(s, "かぎ括弧「」") } else if i == 5 { push_str(s, "全角丸括弧（）") }
    else if i == 6 { push_str(s, "二重かぎ括弧『』") } else if i == 7 { push_str(s, "全角波括弧｛｝") } else if i == 8 { push_str(s, "全角角括弧［］") }
    else if i == 9 { push_str(s, "二重角括弧〚〛") } else if i == 10 { push_str(s, "隅付き括弧【】") } else if i == 11 { push_str(s, "二重山括弧«»") }
    else { push_str(s, "山括弧‹›") }
}

/// `「{c}」に対応する開き括弧がありません（{name}）。`
pub open spec fn orphan_message(c: char, i: int) -> Seq<char> {
    "「"@ + seq![c] + "」に対応する開き括弧がありません（"@ + pair_name(i) + "）。"@
}

/// `「{opener}」に対応する閉じ括弧がありません（{name}）。`
pub open spec fn unclosed_message(i: int) -> Seq<char> {
    "「"@ + seq![pair_start(i)] + "」に対応する閉じ括弧がありません（"@ + pair_name(i) + "）。"@
}

/// The position of the context entry of pair type `k`, if open.
pub open spec fn find_open(ctx: Seq<(int, u32)>, k: int) -> Option<int>
    decreases ctx.len(),
{
    if ctx.len() == 0 {
        None
    } else {
        match find_open(ctx.drop_last(), k) {
            Some(j) => Some(j),
            None => if ctx.last().0 == k {
                Some(ctx.len() - 1)
            } else {
                None
            },
        }
    }
}

/// The matcher's state: the open pair types with their openers' absolute offsets, and the
/// orphan reports so far.
pub struct PairScan {
    pub ctx: Seq<(int, u32)>,
    pub reports: Seq<Report>,
}

/// Flags unmatched bracket/quote pairs within a text.
pub struct NoUnmatchedPair {
    pub meta: RuleMeta,
    /// Also report orphaned Japanese quotation/corner-bracket closers.
    pub detect_orphaned_closers: bool,
}

impl NoUnmatchedPair {
    /// One step of the matcher over character `i` of a text at `base`.
    pub open spec fn step(&self, s: PairScan, base: u32, t: Seq<char>, i: int) -> PairScan {
        let c = t[i];
        let st = spec_pair_with_start(c);
        let en = spec_pair_with_end(c);
        let key = if st is Some { st } else { en };
        match key {
            None => s,
            Some(k) => if find_open(s.ctx, k) is Some {
                match en {
                    Some(e) => match find_open(s.ctx, e) {
                        Some(pos) => PairScan { ctx: s.ctx.remove(pos), reports: s.reports },
                        None => s,
                    },
                    None => s,
                }
            } else if st is Some {
                PairScan { ctx: s.ctx.push((st->0, abs_pos(base, byte_at(t, i) as int))), reports: s.reports }
            } else if self.detect_orphaned_closers && pair_flags_orphan(en->0) {
                let off = abs_pos(base, byte_at(t, i) as int);
                PairScan {
                    ctx: s.ctx,
                    reports: s.reports.push(
                        plain(Span { start: off, end: off.saturating_add(utf8_len(c) as u32) }, orphan_message(c, en->0)),
                    ),
                }
            } else {
                s
            },
        }
    }

    /// The matcher over the first `n` characters.
    pub open spec fn scan(&self, base: u32, t: Seq<char>, n: int) -> PairScan
        decreases n,
    {
        if n <= 0 {
            PairScan { ctx: seq![], reports: seq![] }
        } else {
            self.step(self.scan(base, t, n - 1), base, t, n - 1)
        }
    }

    /// What the rule reports for a text at `base`: the orphan reports, then one report per
    /// opener still open, in the order they were opened.
    pub open spec fn spec_check_at(&self, base: u32, t: Seq<char>) -> Seq<Report> {
        let s = self.scan(base, t, t.len() as int);
        s.reports + unclosed_reports(s.ctx)
    }

    /// Construct with defaults (`detectOrphanedClosers` off).
    pub fn new() -> (r: NoUnmatchedPair)
        ensures
            r.meta.id@ == ID@,
            r.meta.node_kinds@ == node_kinds(),
            r.meta.default_severity == Severity::Warning,
            r.meta.node_kinds@ == seq![NodeKind::Text],
            r.meta.lang == Some(Lang::Ja),
            !r.detect_orphaned_closers,
    {
        NoUnmatchedPair {
            meta: RuleMeta::new(ID, Severity::Warning, vec![NodeKind::Text]).for_language(Lang::Ja),
            detect_orphaned_closers: false,
        }
    }

    /// Construct from config `options`: the boolean `detectOrphanedClosers` (default `false`).
    pub fn from_options(options: &JsonValue) -> (r: NoUnmatchedPair)
        ensures
            r.meta.id@ == ID@,
            r.meta.node_kinds@ == node_kinds(),
            r.meta.default_severity == Severity::Warning,
            r.meta.node_kinds@ == seq![NodeKind::Text],
            r.meta.lang == Some(Lang::Ja),
            r.detect_orphaned_closers == match opt_bool(*options, "detectOrphanedClosers"@) {
                Some(b) => b,
                None => false,
            },
    {
        let mut rule = Self::new();
        if let Some(on) = get_bool(options, "detectOrphanedClosers") {
            rule.detect_orphaned_closers = on;
        }
        rule
    }
}

/// One report per opener still open.
pub open spec fn unclosed_reports(ctx: Seq<(int, u32)>) -> Seq<Report>
    decreases ctx.len(),
{
    if ctx.len() == 0 {
        seq![]
    } else {
        let (i, off) = ctx.last();
        unclosed_reports(ctx.drop_last()).push(
            plain(Span { start: off, end: off.saturating_add(utf8_len(pair_start(i)) as u32) }, unclosed_message(i)),
        )
    }
}

spec fn ctx_view(v: Seq<(usize, u32)>) -> Seq<(int, u32)> {
    v.map_values(|e: (usize, u32)| (e.0 as int, e.1))
}

/// The position of the entry of type `k` in `ctx`, if any.
fn find_open_exec(ctx: &Vec<(usize, u32)>, k: usize) -> (r: Option<usize>)
    ensures
        match r {
            Some(p) => find_open(ctx_view(ctx@), k as int) == Some(p as int),
            None => find_open(ctx_view(ctx@), k as int).is_none(),
        },
{
    let ghost cv = ctx_view(ctx@);
    let mut j: usize = 0;
    while j < ctx.len()
        invariant
            j <= ctx.len(),
            cv == ctx_view(ctx@),
            find_open(cv.take(j as int), k as int).is_none(),
        decreases ctx.len() - j,
    {
        assert(cv.take(j + 1).drop_last() =~= cv.take(j as int));
        if ctx[j].0 == k {
            assert(find_open(cv.take(j + 1), k as int) == Some(j as int));
            proof {
                lemma_find_open_prefix(cv, j as int + 1, k as int);
            }
            return Some(j);
        }
        j = j + 1;
    }
    assert(cv.take(j as int) =~= cv);
    None
}

/// A hit is an entry of that type.
pub proof fn lemma_find_open_range(ctx: Seq<(int, u32)>, k: int)
    ensures
        find_open(ctx, k) matches Some(j) ==> 0 <= j < ctx.len() && ctx[j].0 == k,
    decreases ctx.len(),
{
    if ctx.len() > 0 {
        lemma_find_open_range(ctx.drop_last(), k);
    }
}

/// A hit in a prefix is the first hit of the whole sequence.
proof fn lemma_find_open_prefix(ctx: Seq<(int, u32)>, n: int, k: int)
    requires
        0 <= n <= ctx.len(),
        find_open(ctx.take(n), k) is Some,
    ensures
        find_open(ctx, k) == find_open(ctx.take(n), k),
    decreases ctx.len() - n,
{
    if n < ctx.len() {
        assert(ctx.take(n + 1).drop_last() =~= ctx.take(n));
        lemma_find_open_prefix(ctx, n + 1, k);
    } else {
        assert(ctx.take(n) =~= ctx);
    }
}

/// A miss means no entry of that type is open.
proof fn lemma_find_open_none(ctx: Seq<(int, u32)>, k: int)
    ensures
        find_open(ctx, k) is None ==> forall|j: int| 0 <= j < ctx.len() ==> (#[trigger] ctx[j]).0 != k,
    decreases ctx.len(),
{
    if ctx.len() > 0 {
        lemma_find_open_none(ctx.drop_last(), k);
        assert forall|j: int| 0 <= j < ctx.len() - 1 implies ctx[j] == ctx.drop_last()[j] by {}
    }
}

/// The open entries after `n` characters: each names a pair (`0..13`) whose opener stands at
/// some position before `n`, at that opener's absolute byte offset, and no pair is open twice.
pub open spec fn open_marks(base: u32, t: Seq<char>, n: int, ctx: Seq<(int, u32)>) -> bool {
    &&& forall|j: int|
        0 <= j < ctx.len() ==> 0 <= (#[trigger] ctx[j]).0 < 13 && exists|i: int|
            0 <= i < n && #[trigger] t[i] == pair_start(ctx[j].0) && ctx[j].1 == abs_pos(base, byte_at(t, i) as int)
    &&& forall|j1: int, j2: int| 0 <= j1 < j2 < ctx.len() ==> (#[trigger] ctx[j1]).0 != (#[trigger] ctx[j2]).0
}

proof fn lemma_unclosed_reports_len(ctx: Seq<(int, u32)>)
    ensures
        unclosed_reports(ctx).len() == ctx.len(),
    decreases ctx.len(),
{
    if ctx.len() > 0 {
        lemma_unclosed_reports_len(ctx.drop_last());
    }
}

/// No pair is open twice, so at most one entry per pair is open.
proof fn lemma_open_marks_at_most_13(base: u32, t: Seq<char>, n: int, ctx: Seq<(int, u32)>)
    requires
        open_marks(base, t, n, ctx),
    ensures
        ctx.len() <= 13,
{
    let ks = ctx.map_values(|e: (int, u32)| e.0);
    assert forall|a: int, b: int| 0 <= a < ks.len() && 0 <= b < ks.len() && a != b implies ks[a] != ks[b] by {
        if a < b {
            assert(ctx[a].0 != ctx[b].0);
        } else {
            assert(ctx[b].0 != ctx[a].0);
        }
    }
    assert(ks.no_duplicates());
    ks.unique_seq_to_set();
    vstd::set_lib::lemma_int_range(0, 13);
    assert forall|x: int| ks.to_set().contains(x) implies vstd::set_lib::set_int_range(0, 13).contains(x) by {
        let j = choose|j: int| 0 <= j < ks.len() && ks[j] == x;
        assert(0 <= ctx[j].0 < 13);
    }
    vstd::set_lib::lemma_len_subset(ks.to_set(), vstd::set_lib::set_int_range(0, 13));
}

impl NoUnmatchedPair {
    proof fn lemma_scan_without_orphans(&self, base: u32, t: Seq<char>, n: int)
        requires
            !self.detect_orphaned_closers,
            0 <= n <= t.len(),
        ensures
            self.scan(base, t, n).reports == Seq::<Report>::empty(),
            open_marks(base, t, n, self.scan(base, t, n).ctx),
        decreases n,
    {
        if n > 0 {
            self.lemma_scan_without_orphans(base, t, n - 1);
            let s = self.scan(base, t, n - 1);
            let c = t[n - 1];
            let st = spec_pair_with_start(c);
            let en = spec_pair_with_end(c);
            let key = if st is Some { st } else { en };
            if let Some(k) = key {
                if find_open(s.ctx, k) is Some {
                    if let Some(e) = en {
                        if let Some(pos) = find_open(s.ctx, e) {
                            lemma_find_open_range(s.ctx, e);
                            let nc = s.ctx.remove(pos);
                            assert forall|j: int| 0 <= j < nc.len() implies 0 <= (#[trigger] nc[j]).0 < 13 && exists|i: int|
                                0 <= i < n && #[trigger] t[i] == pair_start(nc[j].0) && nc[j].1 == abs_pos(base, byte_at(t, i) as int) by {
                                let oj = if j < pos { j } else { j + 1 };
                                assert(nc[j] == s.ctx[oj]);
                                let i = choose|i: int| 0 <= i < n - 1 && #[trigger] t[i] == pair_start(s.ctx[oj].0) && s.ctx[oj].1 == abs_pos(base, byte_at(t, i) as int);
                                assert(t[i] == pair_start(nc[j].0));
                            }
                            assert forall|j1: int, j2: int| 0 <= j1 < j2 < nc.len() implies (#[trigger] nc[j1]).0 != (#[trigger] nc[j2]).0 by {
                                let o1 = if j1 < pos { j1 } else { j1 + 1 };
                                let o2 = if j2 < pos { j2 } else { j2 + 1 };
                                assert(nc[j1] == s.ctx[o1] && nc[j2] == s.ctx[o2]);
                            }
                        }
                    }
                } else if st is Some {
                    lemma_find_open_none(s.ctx, k);
                    let entry = (st->0, abs_pos(base, byte_at(t, n - 1) as int));
                    let nc = s.ctx.push(entry);
                    assert(t[n - 1] == pair_start(st->0));
                    assert forall|j: int| 0 <= j < nc.len() implies 0 <= (#[trigger] nc[j]).0 < 13 && exists|i: int|
                        0 <= i < n && #[trigger] t[i] == pair_start(nc[j].0) && nc[j].1 == abs_pos(base, byte_at(t, i) as int) by {
                        if j < s.ctx.len() {
                            assert(nc[j] == s.ctx[j]);
                            let i = choose|i: int| 0 <= i < n - 1 && #[trigger] t[i] == pair_start(s.ctx[j].0) && s.ctx[j].1 == abs_pos(base, byte_at(t, i) as int);
                            assert(t[i] == pair_start(nc[j].0));
                        } else {
                            assert(t[n - 1] == pair_start(nc[j].0));
                        }
                    }
                    assert forall|j1: int, j2: int| 0 <= j1 < j2 < nc.len() implies (#[trigger] nc[j1]).0 != (#[trigger] nc[j2]).0 by {
                        if j2 == s.ctx.len() {
                            assert(nc[j1] == s.ctx[j1]);
                        } else {
                            assert(nc[j1] == s.ctx[j1] && nc[j2] == s.ctx[j2]);
                        }
                    }
                }
            }
        }
    }

    /// Without orphan detection only unclosed openers are reported: one report per entry of
    /// the open marks (each an opener of the text at its byte offset, no pair twice, so at most
    /// one report per pair and at most 13 in all), with the unclosed message of its pair; a
    /// closing mark is never reported.
    pub proof fn law_only_unclosed_openers_are_reported(&self, base: u32, t: Seq<char>)
        requires
            !self.detect_orphaned_closers,
        ensures
            open_marks(base, t, t.len() as int, self.scan(base, t, t.len() as int).ctx),
            self.spec_check_at(base, t) == unclosed_reports(self.scan(base, t, t.len() as int).ctx),
            self.spec_check_at(base, t).len() <= 13,
    {
        self.lemma_scan_without_orphans(base, t, t.len() as int);
        let s = self.scan(base, t, t.len() as int);
        lemma_open_marks_at_most_13(base, t, t.len() as int, s.ctx);
        lemma_unclosed_reports_len(s.ctx);
        assert(s.reports + unclosed_reports(s.ctx) =~= unclosed_reports(s.ctx));
    }
}

impl NoUnmatchedPair {
    fn check_text(&self, base: u32, text: &str, cx: &mut Context)
        requires
            old(cx).wf(),
            fits_usize(text@),
        ensures
            final(cx).wf(),
            final(cx).id() == old(cx).id(),
            final(cx).severity() == old(cx).severity(),
            final(cx).reports() == old(cx).reports() + self.spec_check_at(base, text@),
    {
        let t = str_chars(text);
        let offs = byte_offsets(&t);
        let ghost r0 = cx.reports();
        let mut context: Vec<(usize, u32)> = Vec::new();
        let mut i: usize = 0;
        while i < t.len()
            invariant
                i <= t.len(),
                t@ == text@,
                offsets_ok(t@, offs@),
                cx.wf(),
                cx.id() == old(cx).id(),
                cx.severity() == old(cx).severity(),
                r0 == old(cx).reports(),
                ctx_view(context@) == self.scan(base, t@, i as int).ctx,
                cx.reports() == r0 + self.scan(base, t@, i as int).reports,
            decreases t.len() - i,
        {
            let c = t[i];
            let start = pair_with_start(c);
            let end = pair_with_end(c);
            let key = match start {
                Some(k) => Some(k),
                None => end,
            };
            let ghost s0 = self.scan(base, t@, i as int);
            assert(t@[i as int] == c);
            assert(ctx_view(context@) == s0.ctx);
            assert(key.is_some() == (spec_pair_with_start(c) is Some || spec_pair_with_end(c) is Some));
            match key {
                None => {
                    assert(self.step(s0, base, t@, i as int) == s0);
                },
                Some(k) => {
                    assert(k as int == (if spec_pair_with_start(c) is Some { spec_pair_with_start(c) } else { spec_pair_with_end(c) })->0);
                    if find_open_exec(&context, k).is_some() {
                        match end {
                            Some(e) => match find_open_exec(&context, e) {
                                Some(pos) => {
                                    proof {
                                        lemma_find_open_range(ctx_view(context@), e as int);
                                    }
                                    assert(find_open(s0.ctx, k as int) is Some);
                                    assert(spec_pair_with_end(c) == Some(e as int));
                                    assert(find_open(s0.ctx, e as int) == Some(pos as int));
                                    assert(self.step(s0, base, t@, i as int).ctx == s0.ctx.remove(pos as int));
                                    let ghost before = context@;
                                    context.remove(pos);
                                    assert(ctx_view(context@) =~= ctx_view(before).remove(pos as int));
                                    assert(ctx_view(context@) == self.step(s0, base, t@, i as int).ctx);
                                },
                                None => {},
                            },
                            None => {},
                        }
                    } else if start.is_some() {
                        let sk = start.unwrap();
                        let ghost before = context@;
                        context.push((sk, base.saturating_add(offs[i] as u32)));
                        assert(ctx_view(context@) =~= ctx_view(before).push((sk as int, abs_pos(base, byte_at(t@, i as int) as int))));
                        assert(ctx_view(context@) == self.step(s0, base, t@, i as int).ctx);
                    } else if self.detect_orphaned_closers {
                        let e = end.unwrap();
                        if e == 4 || e == 6 || e == 9 || e == 10 || e == 11 || e == 12 {
                            let off = base.saturating_add(offs[i] as u32);
                            let mut m = String::new();
                            push_str(&mut m, "「");
                            push_char(&mut m, c);
                            push_str(&mut m, "」に対応する開き括弧がありません（");
                            push_pair_name(&mut m, e);
                            push_str(&mut m, "）。");
                            assert(m@ =~= orphan_message(c, e as int));
                            let w = len_utf8(c);
                            assert(w as u32 == utf8_len(c) as u32);
                            cx.report(Span::new(off, off.saturating_add(w as u32)), m);
                            assert(ctx_view(context@) == self.step(s0, base, t@, i as int).ctx);
                        }
                    }
                },
            }
            assert(t@[i as int] == c);
            assert(ctx_view(context@) == self.step(s0, base, t@, i as int).ctx);
            assert(cx.reports() == r0 + self.step(s0, base, t@, i as int).reports);
            i = i + 1;
        }
        let ghost cv = ctx_view(context@);
        let ghost r1 = cx.reports();
        let mut j: usize = 0;
        while j < context.len()
            invariant
                j <= context.len(),
                cv == ctx_view(context@),
                cx.wf(),
                cx.id() == old(cx).id(),
                cx.severity() == old(cx).severity(),
                cx.reports() == r1 + unclosed_reports(cv.take(j as int)),
            decreases context.len() - j,
        {
            let (pi, off) = context[j];
            assert(cv.take(j + 1).drop_last() =~= cv.take(j as int));
            assert(cv[j as int] == (pi as int, off));
            let sc = pair_start_char(pi);
            let mut m = String::new();
            push_str(&mut m, "「");
            push_char(&mut m, sc);
            push_str(&mut m, "」に対応する閉じ括弧がありません（");
            push_pair_name(&mut m, pi);
            push_str(&mut m, "）。");
            assert(m@ =~= unclosed_message(pi as int));
            let w = len_utf8(sc);
            assert(w as u32 == utf8_len(pair_start(pi as int)) as u32);
            let sp = Span::new(off, off.saturating_add(w as u32));
            cx.report(sp, m);
            assert(unclosed_reports(cv.take(j + 1)) == unclosed_reports(cv.take(j as int)).push(plain(sp, unclosed_message(pi as int))));
            j = j + 1;
        }
        assert(cv.take(j as int) =~= cv);
    }
}

impl Rule for NoUnmatchedPair {
    open spec fn spec_meta(&self) -> RuleMeta {
        self.meta
    }

    open spec fn spec_check(&self, node: NodeRef) -> Seq<Report> {
        self.spec_check_at(node.span.start, node.text@)
    }

    fn meta(&self) -> (m: &RuleMeta) {
        &self.meta
    }

    fn check(&self, node: &NodeRef, cx: &mut Context) {
        self.check_text(node.span.start, node.text.as_str(), cx);
    }
}

impl Default for NoUnmatchedPair {
    /// The rule with its default options, as [`NoUnmatchedPair::new`] builds it.
    fn default() -> (r: NoUnmatchedPair)
        ensures
            r.meta.id@ == ID@,
            r.meta.node_kinds@ == node_kinds(),
            r.meta.default_severity == Severity::Warning,
            r.meta.node_kinds@ == seq![NodeKind::Text],
            r.meta.lang == Some(Lang::Ja),
            !r.detect_orphaned_closers,
    {
        NoUnmatchedPair::new()
    }
}

} // verus!
