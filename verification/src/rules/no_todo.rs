//! `no-todo` — flag task markers (TODO/FIXME/XXX/HACK) in prose.
use vstd::prelude::*;
use crate::ast::{Rule, abs_span, make_span, plain, Context, NodeKind, NodeRef, Report, RuleMeta, Severity};
use crate::json::{get_bool, get_str_items, opt_bool, opt_str_items, views, JsonValue};
use crate::text::{
    byte_at, byte_len, byte_offsets, find_index_of_byte, fits_usize, index_of_byte, is_boundary,
    lemma_byte_at_bounded, lemma_index_of_byte, lowercase_of, offsets_ok, push_chars, push_str,
    str_chars, string_of, to_lowercase_chars,
};
use crate::util::is_whitespace;

verus! {

/// The rule id.
pub const ID: &'static str = "no-todo";

/// The node kinds the rule visits.
pub open spec fn node_kinds() -> Seq<NodeKind> {
    seq![NodeKind::Text]
}

/// Flags configured task-marker substrings in prose.
pub struct NoTodo {
    pub meta: RuleMeta,
    pub patterns: Vec<String>,
    pub ignore_patterns: Vec<String>,
    pub case_sensitive: bool,
}

/// The default marker patterns (a trailing space/colon distinguishes a marker from a word).
pub open spec fn default_patterns() -> Seq<Seq<char>> {
    seq!["TODO:"@, "TODO "@, "FIXME:"@, "FIXME "@, "XXX:"@, "XXX "@, "HACK:"@]
}

fn default_pattern_strings() -> (v: Vec<String>)
    ensures
        views(v@) == default_patterns(),
{
    let mut v: Vec<String> = Vec::new();
    v.push("TODO:".to_owned());
    v.push("TODO ".to_owned());
    v.push("FIXME:".to_owned());
    v.push("FIXME ".to_owned());
    v.push("XXX:".to_owned());
    v.push("XXX ".to_owned());
    v.push("HACK:".to_owned());
    assert(views(v@) =~= default_patterns());
    v
}

/// Case-insensitive equality of single characters: equal, or both lower-case to the same
/// single character.
pub open spec fn eq_ignore_case(a: char, b: char) -> bool {
    a == b || (lowercase_of(a).len() == 1 && lowercase_of(b).len() == 1 && lowercase_of(a)[0]
        == lowercase_of(b)[0])
}

/// Case-insensitive char equality for single-char comparisons. Characters whose lowercase
/// expands to multiple chars (e.g. `İ`) are treated as non-matching.
pub fn chars_equal_ignore_case(a: char, b: char) -> (r: bool)
    ensures
        r == eq_ignore_case(a, b),
{
    if a == b {
        return true;
    }
    let la = to_lowercase_chars(a);
    let lb = to_lowercase_chars(b);
    la.len() == 1 && lb.len() == 1 && la[0] == lb[0]
}

/// Whether `p` matches `t` at index `k` (character by character, case-insensitively unless
/// `cs`).
pub open spec fn match_at(t: Seq<char>, k: int, p: Seq<char>, cs: bool) -> bool {
    0 <= k && k + p.len() <= t.len() && forall|j: int|
        0 <= j < p.len() ==> if cs {
            #[trigger] t[k + j] == p[j]
        } else {
            eq_ignore_case(p[j], t[k + j])
        }
}

/// The first index `k >= from` at which `p` matches `t` (see [`match_at`]).
pub open spec fn first_match(t: Seq<char>, p: Seq<char>, from: int, cs: bool) -> Option<int>
    decreases t.len() - from,
{
    if from < 0 || from >= t.len() {
        None
    } else if match_at(t, from, p, cs) {
        Some(from)
    } else {
        first_match(t, p, from + 1, cs)
    }
}

pub proof fn lemma_first_match_range(t: Seq<char>, p: Seq<char>, from: int, cs: bool)
    requires
        0 <= from,
    ensures
        first_match(t, p, from, cs) matches Some(k) ==> from <= k && match_at(t, k, p, cs),
    decreases t.len() - from,
{
    if from < t.len() && !match_at(t, from, p, cs) {
        lemma_first_match_range(t, p, from + 1, cs);
    }
}

fn match_at_exec(t: &[char], k: usize, p: &[char], cs: bool) -> (r: bool)
    ensures
        r == match_at(t@, k as int, p@, cs),
{
    if k > t.len() || p.len() > t.len() - k {
        return false;
    }
    let mut j: usize = 0;
    while j < p.len()
        invariant
            j <= p.len(),
            k + p.len() <= t.len(),
            forall|i: int|
                0 <= i < j ==> if cs {
                    #[trigger] t@[k + i] == p@[i]
                } else {
                    eq_ignore_case(p@[i], t@[k + i])
                },
        decreases p.len() - j,
    {
        let ok = if cs {
            t[k + j] == p[j]
        } else {
            chars_equal_ignore_case(p[j], t[k + j])
        };
        if !ok {
            return false;
        }
        j = j + 1;
    }
    true
}

/// Character-index search: the first `k >= from` where `p` matches (`None` for an empty `p`).
pub fn find_from(t: &[char], p: &[char], from: usize, cs: bool) -> (r: Option<usize>)
    ensures
        p@.len() == 0 ==> r.is_none(),
        p@.len() > 0 ==> match first_match(t@, p@, from as int, cs) {
            Some(k) => r == Some(k as usize),
            None => r.is_none(),
        },
{
    if p.len() == 0 {
        return None;
    }
    let mut k = from;
    while k < t.len()
        invariant
            from <= k,
            p@.len() > 0,
            first_match(t@, p@, from as int, cs) == first_match(t@, p@, k as int, cs),
        decreases t.len() - k,
    {
        if match_at_exec(t, k, p, cs) {
            assert(first_match(t@, p@, k as int, cs) == Some(k as int));
            return Some(k);
        }
        k = k + 1;
    }
    None
}

/// `find_pattern`'s result in bytes: the first match of `p` in `h` at or after byte `start`, as
/// a byte range; `None` for an empty pattern, a start past the end, or no match.
pub open spec fn spec_find_pattern(h: Seq<char>, p: Seq<char>, start: int, cs: bool) -> Option<(usize, usize)> {
    if p.len() == 0 || start > byte_len(h) {
        None
    } else {
        match first_match(h, p, index_of_byte(h, start), cs) {
            Some(k) => Some((byte_at(h, k) as usize, byte_at(h, k + p.len()) as usize)),
            None => None,
        }
    }
}

proof fn lemma_first_match_least(t: Seq<char>, p: Seq<char>, from: int, cs: bool)
    requires
        0 <= from,
        p.len() > 0,
    ensures
        first_match(t, p, from, cs) is None ==> forall|j: int| from <= j ==> !#[trigger] match_at(t, j, p, cs),
        first_match(t, p, from, cs) matches Some(k) ==> forall|j: int| from <= j < k ==> !#[trigger] match_at(t, j, p, cs),
    decreases t.len() - from,
{
    if from < t.len() && !match_at(t, from, p, cs) {
        lemma_first_match_least(t, p, from + 1, cs);
    }
}

/// `find_pattern` finds the leftmost match: with a non-empty pattern and `start` a character
/// boundary, it gives `None` exactly when no position at or after `start` begins a match, and
/// otherwise the byte range of the match at the least such position.
pub proof fn law_find_pattern_finds_leftmost(h: Seq<char>, p: Seq<char>, start: int, cs: bool)
    requires
        fits_usize(h),
        p.len() > 0,
        0 <= start <= byte_len(h),
        is_boundary(h, start),
    ensures
        spec_find_pattern(h, p, start, cs) is None <==> forall|k: int|
            index_of_byte(h, start) <= k ==> !#[trigger] match_at(h, k, p, cs),
        spec_find_pattern(h, p, start, cs) matches Some((s, e)) ==> exists|k: int|
            #![trigger match_at(h, k, p, cs)]
            {
                &&& index_of_byte(h, start) <= k
                &&& match_at(h, k, p, cs)
                &&& forall|j: int| index_of_byte(h, start) <= j < k ==> !#[trigger] match_at(h, j, p, cs)
                &&& s == byte_at(h, k)
                &&& e == byte_at(h, k + p.len())
            },
{
    let a = index_of_byte(h, start);
    assert(0 <= a <= h.len());
    lemma_first_match_least(h, p, a, cs);
    lemma_first_match_range(h, p, a, cs);
    if let Some(k) = first_match(h, p, a, cs) {
        assert(match_at(h, k, p, cs));
        crate::text::lemma_byte_at_bounded(h, k);
        crate::text::lemma_byte_at_bounded(h, k + p.len());
    }
}

/// Find the first occurrence of `pattern` in `haystack[start..]`, returning byte offsets into
/// `haystack`. Case-insensitive matching compares character by character (see
/// [`chars_equal_ignore_case`]), anchored to the original bytes. An empty pattern never matches.
pub fn find_pattern(haystack: &str, pattern: &str, start: usize, case_sensitive: bool) -> (r: Option<(usize, usize)>)
    requires
        fits_usize(haystack@),
        pattern@.len() == 0 || start > byte_len(haystack@) || is_boundary(haystack@, start as int),
    ensures
        r == spec_find_pattern(haystack@, pattern@, start as int, case_sensitive),
{
    let h = str_chars(haystack);
    let p = str_chars(pattern);
    let offs = byte_offsets(&h);
    proof {
        crate::text::lemma_byte_at_full(h@);
    }
    if p.len() == 0 || start > offs[h.len()] {
        return None;
    }
    let from = find_index_of_byte(&offs, Ghost(h@), start);
    match find_from(h.as_slice(), p.as_slice(), from, case_sensitive) {
        Some(k) => {
            proof {
                lemma_first_match_range(h@, p@, from as int, case_sensitive);
            }
            Some((offs[k], offs[k + p.len()]))
        },
        None => None,
    }
}

/// Index just past the last non-whitespace character of `s` (`str::trim_end`'s length).
pub open spec fn trim_end_len(s: Seq<char>) -> int
    decreases s.len(),
{
    if s.len() == 0 {
        0
    } else if is_whitespace(s.last()) {
        trim_end_len(s.drop_last())
    } else {
        s.len() as int
    }
}

/// `str::trim_end`.
pub open spec fn trim_end(s: Seq<char>) -> Seq<char> {
    s.take(trim_end_len(s))
}

/// The characters of `s.trim_end()`.
pub fn trim_end_chars(s: &[char]) -> (r: Vec<char>)
    ensures
        r@ == trim_end(s@),
{
    let mut n = s.len();
    assert(s@.take(n as int) =~= s@);
    while n > 0 && crate::util::whitespace(s[n - 1])
        invariant
            n <= s.len(),
            trim_end_len(s@.take(n as int)) == trim_end_len(s@),
        decreases n,
    {
        assert(s@.take(n as int).drop_last() =~= s@.take(n - 1));
        n = n - 1;
    }
    assert(n > 0 ==> s@.take(n as int).last() == s@[n - 1]);
    let mut r: Vec<char> = Vec::new();
    let mut i: usize = 0;
    while i < n
        invariant
            i <= n <= s.len(),
            n == trim_end_len(s@),
            r@ == s@.take(i as int),
        decreases n - i,
    {
        r.push(s[i]);
        assert(s@.take(i + 1) =~= s@.take(i as int).push(s@[i as int]));
        i = i + 1;
    }
    r
}

/// `Found '{display}' marker. Consider resolving this before committing.`
pub open spec fn message(pattern: Seq<char>) -> Seq<char> {
    "Found '"@ + trim_end(pattern) + "' marker. Consider resolving this before committing."@
}

/// Whether some ignore pattern occurs in `m`.
pub open spec fn ignored(m: Seq<char>, ignores: Seq<Seq<char>>, cs: bool) -> bool {
    exists|i: int| 0 <= i < ignores.len() && ignores[i].len() > 0 && first_match(m, ignores[i], 0, cs) is Some
}

/// The matches of `p` in `t` from index `from` on, left to right and non-overlapping.
pub open spec fn matches_from(t: Seq<char>, p: Seq<char>, from: int, cs: bool) -> Seq<int>
    decreases t.len() - from,
{
    if p.len() == 0 || from < 0 {
        seq![]
    } else {
        match first_match(t, p, from, cs) {
            Some(k) => {
                proof {
                    lemma_first_match_range(t, p, from, cs);
                }
                if k + p.len() <= from {
                    seq![]
                } else {
                    seq![k] + matches_from(t, p, k + p.len(), cs)
                }
            },
            None => seq![],
        }
    }
}

/// Reports for one pattern: each non-ignored match, over its bytes.
pub open spec fn pattern_reports(base: u32, t: Seq<char>, p: Seq<char>, ms: Seq<int>, ignores: Seq<Seq<char>>, cs: bool) -> Seq<Report>
    decreases ms.len(),
{
    if ms.len() == 0 {
        seq![]
    } else {
        let rest = pattern_reports(base, t, p, ms.drop_last(), ignores, cs);
        let k = ms.last();
        if ignored(t.subrange(k, k + p.len()), ignores, cs) {
            rest
        } else {
            rest.push(plain(abs_span(base, byte_at(t, k) as int, byte_at(t, k + p.len()) as int), message(p)))
        }
    }
}

/// Reports for every pattern in turn.
pub open spec fn all_reports(base: u32, t: Seq<char>, ps: Seq<Seq<char>>, ignores: Seq<Seq<char>>, cs: bool) -> Seq<Report>
    decreases ps.len(),
{
    if ps.len() == 0 {
        seq![]
    } else {
        all_reports(base, t, ps.drop_last(), ignores, cs) + pattern_reports(base, t, ps.last(), matches_from(t, ps.last(), 0, cs), ignores, cs)
    }
}

/// `ms` is the left-to-right, non-overlapping scan of `t` for `p` from `from` on: every entry
/// is a match, each starts at or after the end of the one before, and no match starts before
/// the first, in a gap between two, or after the last one ends.
pub open spec fn greedy_scan(t: Seq<char>, p: Seq<char>, cs: bool, from: int, ms: Seq<int>) -> bool {
    &&& forall|j: int| 0 <= j < ms.len() ==> from <= #[trigger] ms[j] && match_at(t, ms[j], p, cs)
    &&& forall|j: int| 0 <= j < ms.len() - 1 ==> #[trigger] ms[j] + p.len() <= ms[j + 1]
    &&& forall|k: int| from <= k && (ms.len() == 0 || k < ms[0]) ==> !#[trigger] match_at(t, k, p, cs)
    &&& forall|j: int, k: int|
        0 <= j < ms.len() && #[trigger] ms[j] + p.len() <= k && (j + 1 == ms.len() || k < ms[j + 1]) ==> !#[trigger] match_at(
            t,
            k,
            p,
            cs,
        )
}

/// The matches the rule reports for a non-empty pattern are exactly the left-to-right,
/// non-overlapping scan for it.
pub proof fn law_matches_are_the_greedy_scan(t: Seq<char>, p: Seq<char>, cs: bool, from: int)
    requires
        p.len() > 0,
        0 <= from,
    ensures
        greedy_scan(t, p, cs, from, matches_from(t, p, from, cs)),
    decreases t.len() - from,
{
    let ms = matches_from(t, p, from, cs);
    lemma_first_match_least(t, p, from, cs);
    lemma_first_match_range(t, p, from, cs);
    match first_match(t, p, from, cs) {
        Some(k) => {
            let e = k + p.len();
            assert(k < t.len());
            law_matches_are_the_greedy_scan(t, p, cs, e);
            let rest = matches_from(t, p, e, cs);
            assert(ms == seq![k] + rest);
            assert forall|j: int| 0 <= j < ms.len() implies from <= #[trigger] ms[j] && match_at(t, ms[j], p, cs) by {
                if j > 0 {
                    assert(ms[j] == rest[j - 1]);
                }
            }
            assert forall|j: int| 0 <= j < ms.len() - 1 implies #[trigger] ms[j] + p.len() <= ms[j + 1] by {
                assert(ms[j + 1] == rest[j]);
                if j > 0 {
                    assert(ms[j] == rest[j - 1]);
                }
            }
            assert forall|j: int, q: int|
                0 <= j < ms.len() && #[trigger] ms[j] + p.len() <= q && (j + 1 == ms.len() || q < ms[j + 1]) implies !#[trigger] match_at(
                t,
                q,
                p,
                cs,
            ) by {
                if j > 0 {
                    assert(ms[j] == rest[j - 1]);
                    if j + 1 < ms.len() {
                        assert(ms[j + 1] == rest[j]);
                    }
                } else if rest.len() > 0 {
                    assert(ms[1] == rest[0]);
                }
            }
        },
        None => {},
    }
}

/// The report for a match of `p` at `k`: over the match's bytes, naming the pattern.
pub open spec fn marker_report(base: u32, t: Seq<char>, p: Seq<char>, k: int) -> Report {
    plain(abs_span(base, byte_at(t, k) as int, byte_at(t, k + p.len()) as int), message(p))
}

/// What the rule reports, stated with the standard sequence operations: pattern by pattern, one
/// report per match of the scan that no ignore pattern covers, in scan order.
pub open spec fn every_unignored_match(base: u32, t: Seq<char>, ps: Seq<Seq<char>>, ignores: Seq<Seq<char>>, cs: bool) -> Seq<Report> {
    ps.map_values(
        |p: Seq<char>|
            matches_from(t, p, 0, cs).filter(|k: int| !ignored(t.subrange(k, k + p.len()), ignores, cs)).map_values(
                |k: int| marker_report(base, t, p, k),
            ),
    ).flatten_alt()
}

proof fn lemma_pattern_reports_filter(base: u32, t: Seq<char>, p: Seq<char>, ms: Seq<int>, ignores: Seq<Seq<char>>, cs: bool)
    ensures
        pattern_reports(base, t, p, ms, ignores, cs) == ms.filter(|k: int| !ignored(t.subrange(k, k + p.len()), ignores, cs)).map_values(
            |k: int| marker_report(base, t, p, k),
        ),
    decreases ms.len(),
{
    reveal(Seq::filter);
    let pred = |k: int| !ignored(t.subrange(k, k + p.len()), ignores, cs);
    if ms.len() > 0 {
        lemma_pattern_reports_filter(base, t, p, ms.drop_last(), ignores, cs);
        let f = ms.drop_last().filter(pred);
        if pred(ms.last()) {
            assert(f.push(ms.last()).map_values(|k: int| marker_report(base, t, p, k)) =~= f.map_values(
                |k: int| marker_report(base, t, p, k),
            ).push(marker_report(base, t, p, ms.last())));
        }
    } else {
        assert(ms.filter(pred).map_values(|k: int| marker_report(base, t, p, k)) =~= Seq::<Report>::empty());
    }
}

/// Every match of a marker pattern that no ignore pattern covers is reported: for each
/// pattern in turn, exactly one report per such match of its left-to-right, non-overlapping
/// scan (see [`law_matches_are_the_greedy_scan`]), in order, over that match's bytes.
pub proof fn law_every_unignored_match_is_reported(base: u32, t: Seq<char>, ps: Seq<Seq<char>>, ignores: Seq<Seq<char>>, cs: bool)
    ensures
        all_reports(base, t, ps, ignores, cs) == every_unignored_match(base, t, ps, ignores, cs),
    decreases ps.len(),
{
    if ps.len() > 0 {
        law_every_unignored_match_is_reported(base, t, ps.drop_last(), ignores, cs);
        lemma_pattern_reports_filter(base, t, ps.last(), matches_from(t, ps.last(), 0, cs), ignores, cs);
        let f = |p: Seq<char>|
            matches_from(t, p, 0, cs).filter(|k: int| !ignored(t.subrange(k, k + p.len()), ignores, cs)).map_values(
                |k: int| marker_report(base, t, p, k),
            );
        assert(ps.map_values(f).drop_last() =~= ps.drop_last().map_values(f));
        assert(ps.map_values(f).last() == f(ps.last()));
    } else {
        assert(ps.map_values(
            |p: Seq<char>|
                matches_from(t, p, 0, cs).filter(|k: int| !ignored(t.subrange(k, k + p.len()), ignores, cs)).map_values(
                    |k: int| marker_report(base, t, p, k),
                ),
        ) =~= Seq::<Seq<Report>>::empty());
    }
}

impl NoTodo {
    /// Construct with the default markers (case-insensitive, no ignore list).
    pub fn new() -> (r: NoTodo)
        ensures
            r.meta.id@ == ID@,
            r.meta.node_kinds@ == node_kinds(),
            r.meta.default_severity == Severity::Warning,
            r.meta.lang.is_none(),
            views(r.patterns@) == default_patterns(),
            r.ignore_patterns@.len() == 0,
            !r.case_sensitive,
    {
        NoTodo {
            meta: RuleMeta::new(ID, Severity::Warning, vec![NodeKind::Text]),
            patterns: default_pattern_strings(),
            ignore_patterns: Vec::new(),
            case_sensitive: false,
        }
    }

    /// The rule's option fields as config `options` sets them (defaults where a value is
    /// missing or has the wrong type).
    pub open spec fn configured(&self, options: JsonValue) -> bool {
        &&& views(self.patterns@) == match opt_str_items(options, "patterns"@, true) { Some(ps) => if ps.len() > 0 { ps } else { default_patterns() }, None => default_patterns(), }
        &&& views(self.ignore_patterns@) == match opt_str_items(options, "ignore_patterns"@, true) { Some(ps) => ps, None => Seq::<Seq<char>>::empty(), }
        &&& self.case_sensitive == match opt_bool(options, "case_sensitive"@) { Some(b) => b, None => false, }
    }

    /// Construct from config `options`, leniently. Reads `patterns` (string[]),
    /// `ignore_patterns` (string[]), and `case_sensitive` (bool). Empty pattern strings are
    /// dropped; if no usable pattern remains, the defaults are kept.
    pub fn from_options(options: &JsonValue) -> (r: NoTodo)
        ensures
            r.meta.id@ == ID@,
            r.meta.node_kinds@ == node_kinds(),
            r.meta.default_severity == Severity::Warning,
            r.meta.lang.is_none(),
            r.configured(*options),
    {
        let mut rule = Self::new();
        if let Some(patterns) = get_str_items(options, "patterns", true) {
            if patterns.len() > 0 {
                rule.patterns = patterns;
            }
        }
        if let Some(ignores) = get_str_items(options, "ignore_patterns", true) {
            rule.ignore_patterns = ignores;
        } else {
            assert(views(rule.ignore_patterns@) =~= Seq::<Seq<char>>::empty());
        }
        if let Some(b) = get_bool(options, "case_sensitive") {
            rule.case_sensitive = b;
        }
        rule
    }


    pub open spec fn spec_check_at(&self, base: u32, t: Seq<char>) -> Seq<Report> {
        all_reports(base, t, views(self.patterns@), views(self.ignore_patterns@), self.case_sensitive)
    }

    fn is_ignored(&self, m: &[char]) -> (b: bool)
        ensures
            b == ignored(m@, views(self.ignore_patterns@), self.case_sensitive),
    {
        let ghost ig = views(self.ignore_patterns@);
        let mut i: usize = 0;
        while i < self.ignore_patterns.len()
            invariant
                i <= self.ignore_patterns.len(),
                ig == views(self.ignore_patterns@),
                forall|j: int| 0 <= j < i ==> !(ig[j].len() > 0 && first_match(m@, ig[j], 0, self.case_sensitive) is Some),
            decreases self.ignore_patterns.len() - i,
        {
            let p = str_chars(self.ignore_patterns[i].as_str());
            assert(p@ == ig[i as int]);
            if find_from(m, p.as_slice(), 0, self.case_sensitive).is_some() {
                return true;
            }
            i = i + 1;
        }
        false
    }

}

impl Rule for NoTodo {
    open spec fn spec_meta(&self) -> RuleMeta {
        self.meta
    }

    open spec fn spec_check(&self, node: NodeRef) -> Seq<Report> {
        self.spec_check_at(node.span.start, node.text@)
    }

    fn meta(&self) -> (m: &RuleMeta) {
        &self.meta
    }

    fn check(&self, node: &NodeRef, cx: &mut Context)
    {
        let base = node.span.start;
        let t = str_chars(node.text.as_str());
        let offs = byte_offsets(&t);
        let ghost ps = views(self.patterns@);
        let ghost ig = views(self.ignore_patterns@);
        let ghost cs = self.case_sensitive;
        let ghost r0 = cx.reports();
        let mut pi: usize = 0;
        while pi < self.patterns.len()
            invariant
                pi <= self.patterns.len(),
                ps == views(self.patterns@),
                ig == views(self.ignore_patterns@),
                cs == self.case_sensitive,
                offsets_ok(t@, offs@),
                t@ == node.text@,
                cx.wf(),
                cx.id() == old(cx).id(),
                cx.severity() == old(cx).severity(),
                r0 == old(cx).reports(),
                cx.reports() == r0 + all_reports(base, t@, ps.take(pi as int), ig, cs),
            decreases self.patterns.len() - pi,
        {
            let p = str_chars(self.patterns[pi].as_str());
            assert(p@ == ps[pi as int]);
            let display = trim_end_chars(p.as_slice());
            let ghost rstart = cx.reports();
            let ghost ms_all = matches_from(t@, p@, 0, cs);
            let mut search: usize = 0;
            let mut done = false;
            let ghost mut seen: Seq<int> = seq![];
            while !done
                invariant
                    offsets_ok(t@, offs@),
                    p@ == ps[pi as int],
                    display@ == trim_end(p@),
                    ig == views(self.ignore_patterns@),
                    cs == self.case_sensitive,
                    search <= t@.len(),
                    cx.wf(),
                    cx.id() == old(cx).id(),
                    cx.severity() == old(cx).severity(),
                    ms_all == seen + if done { seq![] } else { matches_from(t@, p@, search as int, cs) },
                    cx.reports() == rstart + pattern_reports(base, t@, p@, seen, ig, cs),
                decreases t@.len() - search, if done { 0int } else { 1int },
            {
                match find_from(t.as_slice(), p.as_slice(), search, self.case_sensitive) {
                    Some(k) => {
                        proof {
                            lemma_first_match_range(t@, p@, search as int, cs);
                            assert(match_at(t@, k as int, p@, cs));
                            assert(k + p@.len() <= t@.len());
                            assert(t@.len() == t.len());
                        }
                        let end = k + p.len();
                        let m = string_of(t.as_slice(), k, end);
                        let mchars = str_chars(m.as_str());
                        let ghost seen0 = seen;
                        proof {
                            seen = seen.push(k as int);
                            assert(seen.drop_last() =~= seen0);
                        }
                        if !self.is_ignored(mchars.as_slice()) {
                            let mut msg = String::new();
                            push_str(&mut msg, "Found '");
                            push_chars(&mut msg, display.as_slice());
                            push_str(&mut msg, "' marker. Consider resolving this before committing.");
                            cx.report(make_span(base, offs[k], offs[end]), msg);
                        }
                        assert(matches_from(t@, p@, search as int, cs) == seq![k as int] + matches_from(t@, p@, end as int, cs));
                        assert(ms_all =~= seen + matches_from(t@, p@, end as int, cs));
                        search = end;
                    },
                    None => {
                        done = true;
                        assert(ms_all =~= seen);
                    },
                }
            }
            assert(ps.take(pi + 1).drop_last() =~= ps.take(pi as int));
            pi = pi + 1;
        }
        assert(ps.take(pi as int) =~= ps);
    }
}

impl Default for NoTodo {
    /// The rule with its default options, as [`NoTodo::new`] builds it.
    fn default() -> (r: NoTodo)
        ensures
            r.meta.id@ == ID@,
            r.meta.node_kinds@ == node_kinds(),
            r.meta.default_severity == Severity::Warning,
            r.meta.lang.is_none(),
            views(r.patterns@) == default_patterns(),
            r.ignore_patterns@.len() == 0,
            !r.case_sensitive,
    {
        NoTodo::new()
    }
}

} // verus!
