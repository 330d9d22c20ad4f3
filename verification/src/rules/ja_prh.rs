//! `ja-prh` — terminology / 表記ゆれ checking with autofix.
//!
//! Each configured **term** pairs an `expected` spelling with the disallowed spellings that should
//! become it. A spelling is either a **literal** (`pattern` / `patterns`, matched verbatim,
//! case-sensitively) or a **regex** (`regexPatterns`). `expected` doubles as the replacement: for a
//! regex match it is a *template* whose `$1`-style references expand to the capture groups. Every
//! occurrence is reported with a fix that rewrites it. A literal match already at the start of the
//! expected form, and a regex match whose replacement equals the matched text, are left alone, so
//! the rule is idempotent. A regex that does not compile is skipped at construction.
use vstd::prelude::*;
use crate::ast::{abs_span, make_span, Context, Fix, Lang, NodeKind, NodeRef, Report, Rule, RuleMeta, Severity, Span};
use crate::json::{get_bool, get_str, opt_bool, opt_str, str_items, views, JsonValue};
use crate::regex::{captures, compile, regex_captures, regex_compiles, Pattern};
use crate::rules::arabic_kanji_numbers::{digit_run_end, lemma_digit_run_end_bounds};
use crate::rules::no_todo::{find_from, first_match, lemma_first_match_range, match_at, matches_from};
use crate::text::{
    ascii_digit, byte_at, byte_len, byte_offsets, find_index_of_byte, fits_usize, index_of_byte,
    is_ascii_digit, is_boundary, lemma_byte_at_strict, lemma_index_of_byte, matches_at, occurs_at,
    offsets_ok, push_char, push_chars, push_str, seq_eq, str_chars, string_of,
};

verus! {

/// The rule id.
pub const ID: &'static str = "ja-prh";

/// The node kinds the rule visits.
pub open spec fn node_kinds() -> Seq<NodeKind> {
    seq![NodeKind::Text]
}

/// One terminology entry: the preferred spelling and the spellings that should become it.
pub struct Term {
    /// The preferred spelling; for a regex match, a replacement template.
    pub expected: String,
    /// Literal disallowed spellings, matched verbatim and case-sensitively.
    pub literals: Vec<String>,
    /// Regex disallowed spellings, compiled at construction.
    pub regexes: Vec<Pattern>,
}

/// Flags configured 表記ゆれ / terminology patterns and rewrites them to the expected spelling.
pub struct JaPrh {
    pub meta: RuleMeta,
    pub terms: Vec<Term>,
}

/// A term as plain values: expected spelling, literal spellings, regex sources.
pub type TermView = (Seq<char>, Seq<Seq<char>>, Seq<Seq<char>>);

pub open spec fn term_view(t: Term) -> TermView {
    (t.expected@, views(t.literals@), t.regexes@.map_values(|p: Pattern| p.source()))
}

pub open spec fn terms_view(ts: Seq<Term>) -> Seq<TermView> {
    ts.map_values(|t: Term| term_view(t))
}

// ---------------------------------------------------------------------------
// Replacement templates
// ---------------------------------------------------------------------------

/// The decimal value of a digit string.
pub open spec fn digits_value(s: Seq<char>) -> nat
    decreases s.len(),
{
    if s.len() == 0 {
        0
    } else {
        digits_value(s.drop_last()) * 10 + ((s.last() as u32) - ('0' as u32)) as nat
    }
}

/// `s.parse::<usize>()` for a string of ASCII digits: `None` when empty or too large.
pub open spec fn parse_index(s: Seq<char>) -> Option<usize> {
    if s.len() > 0 && digits_value(s) <= usize::MAX {
        Some(digits_value(s) as usize)
    } else {
        None
    }
}

/// The text of capture group `n` (empty when absent or unmatched).
pub open spec fn group_text(g: Seq<Option<(usize, usize)>>, n: usize, t: Seq<char>) -> Seq<char> {
    if n < g.len() && g[n as int] is Some {
        let (s, e) = g[n as int]->0;
        t.subrange(index_of_byte(t, s as int), index_of_byte(t, e as int))
    } else {
        seq![]
    }
}

/// The expansion of `tpl[i..]`: `$N` and `${N}` become capture group `N`, `$$` is a literal
/// `$`, a malformed `${…}` or an index that does not fit `usize` is kept verbatim, and any other
/// `$` is literal.
pub open spec fn expand_from(tpl: Seq<char>, i: int, g: Seq<Option<(usize, usize)>>, t: Seq<char>) -> Seq<char>
    decreases tpl.len() - i,
{
    if i < 0 || i >= tpl.len() {
        seq![]
    } else if tpl[i] != '$' {
        seq![tpl[i]] + expand_from(tpl, i + 1, g, t)
    } else if i + 1 < tpl.len() && tpl[i + 1] == '$' {
        seq!['$'] + expand_from(tpl, i + 2, g, t)
    } else if i + 1 < tpl.len() && tpl[i + 1] == '{' {
        let d = digit_run_end(tpl, i + 2);
        proof {
            lemma_digit_run_end_bounds(tpl, i + 2);
        }
        let digits = tpl.subrange(i + 2, d);
        let closed = d < tpl.len() && tpl[d] == '}';
        let next = if closed {
            d + 1
        } else {
            d
        };
        let here = match parse_index(digits) {
            Some(n) if closed => group_text(g, n, t),
            _ => seq!['$', '{'] + digits + if closed {
                seq!['}']
            } else {
                seq![]
            },
        };
        here + expand_from(tpl, next, g, t)
    } else if i + 1 < tpl.len() && is_ascii_digit(tpl[i + 1]) {
        let d = digit_run_end(tpl, i + 1);
        proof {
            lemma_digit_run_end_bounds(tpl, i + 1);
        }
        let digits = tpl.subrange(i + 1, d);
        let here = match parse_index(digits) {
            Some(n) => group_text(g, n, t),
            None => seq!['$'] + digits,
        };
        here + expand_from(tpl, d, g, t)
    } else {
        seq!['$'] + expand_from(tpl, i + 1, g, t)
    }
}

/// Every present group is an ordered range of boundaries of `t`.
pub open spec fn groups_ok(g: Seq<Option<(usize, usize)>>, t: Seq<char>) -> bool {
    forall|j: int|
        0 <= j < g.len() ==> match #[trigger] g[j] {
            Some((s, e)) => s <= e && is_boundary(t, s as int) && is_boundary(t, e as int),
            None => true,
        }
}

pub proof fn lemma_index_of_byte_mono(t: Seq<char>, s: int, e: int)
    requires
        s <= e,
        is_boundary(t, s),
        is_boundary(t, e),
    ensures
        0 <= index_of_byte(t, s) <= index_of_byte(t, e) <= t.len(),
        byte_at(t, index_of_byte(t, s)) == s,
        byte_at(t, index_of_byte(t, e)) == e,
{
    let ks = index_of_byte(t, s);
    let ke = index_of_byte(t, e);
    if ke < ks {
        lemma_byte_at_strict(t, ke, ks);
    }
}

/// Parse a run of ASCII digits, `None` on overflow.
fn parse_digits(d: &[char]) -> (r: Option<usize>)
    requires
        forall|k: int| 0 <= k < d@.len() ==> is_ascii_digit(#[trigger] d@[k]),
    ensures
        r == parse_index(d@),
{
    if d.len() == 0 {
        return None;
    }
    let mut v: usize = 0;
    let mut k: usize = 0;
    while k < d.len()
        invariant
            k <= d.len(),
            forall|j: int| 0 <= j < d@.len() ==> is_ascii_digit(#[trigger] d@[j]),
            v == digits_value(d@.take(k as int)),
        decreases d.len() - k,
    {
        let dv = (d[k] as u32 - '0' as u32) as usize;
        assert(d@.take(k + 1).drop_last() =~= d@.take(k as int));
        if v > (usize::MAX - dv) / 10 {
            proof {
                assert(v * 10 + dv > usize::MAX) by (nonlinear_arith)
                    requires
                        v > (usize::MAX - dv) / 10,
                        dv <= 9,
                ;
                lemma_digits_value_grows(d@, k as int + 1);
            }
            return None;
        }
        proof {
            assert(v * 10 + dv <= usize::MAX) by (nonlinear_arith)
                requires
                    v <= (usize::MAX - dv) / 10,
                    dv <= 9,
            ;
        }
        v = v * 10 + dv;
        k = k + 1;
    }
    assert(d@.take(k as int) =~= d@);
    Some(v)
}

/// Extending a digit string never decreases its value.
pub proof fn lemma_digits_value_grows(d: Seq<char>, k: int)
    requires
        0 <= k <= d.len(),
        forall|j: int| 0 <= j < d.len() ==> is_ascii_digit(#[trigger] d[j]),
    ensures
        digits_value(d.take(k)) <= digits_value(d),
    decreases d.len() - k,
{
    if k < d.len() {
        lemma_digits_value_grows(d, k + 1);
        assert(d.take(k + 1).drop_last() =~= d.take(k));
    } else {
        assert(d.take(k) =~= d);
    }
}

/// Append the text of capture group `n` to `out` (nothing when absent or unmatched).
fn push_group(out: &mut String, caps: &Vec<Option<(usize, usize)>>, n: usize, h: &Vec<char>, offs: &Vec<usize>)
    requires
        offsets_ok(h@, offs@),
        groups_ok(caps@, h@),
    ensures
        final(out)@ == old(out)@ + group_text(caps@, n, h@),
{
    if n < caps.len() {
        match caps[n] {
            Some((s, e)) => {
                assert(groups_ok(caps@, h@));
                assert(caps@[n as int] == Some((s, e)));
                proof {
                    lemma_index_of_byte_mono(h@, s as int, e as int);
                }
                let ks = find_index_of_byte(offs, Ghost(h@), s);
                let ke = find_index_of_byte(offs, Ghost(h@), e);
                let piece = string_of(h.as_slice(), ks, ke);
                push_str(out, piece.as_str());
            },
            None => {},
        }
    }
}

/// Expand a replacement template against a regex match (`caps`, byte ranges into `haystack`):
/// `$0`..`$N` and `${N}` are replaced by the corresponding capture group (an absent group
/// expands to empty), `$$` is a literal `$`, and any other `$`-sequence is kept verbatim.
#[verifier::spinoff_prover]
#[verifier::rlimit(40)]
pub fn expand_template(template: &str, caps: &Vec<Option<(usize, usize)>>, haystack: &str) -> (out: String)
    requires
        fits_usize(haystack@),
        groups_ok(caps@, haystack@),
    ensures
        out@ == expand_from(template@, 0, caps@, haystack@),
{
    let tpl = str_chars(template);
    let h = str_chars(haystack);
    let offs = byte_offsets(&h);
    let ghost tv = tpl@;
    let mut out = String::new();
    let mut i: usize = 0;
    while i < tpl.len()
        invariant
            tv == tpl@,
            tv == template@,
            h@ == haystack@,
            offsets_ok(h@, offs@),
            groups_ok(caps@, h@),
            i <= tpl.len(),
            expand_from(tv, 0, caps@, h@) == out@ + expand_from(tv, i as int, caps@, h@),
        decreases tpl.len() - i,
    {
        let c = tpl[i];
        if c != '$' {
            push_char(&mut out, c);
            assert(out@ + expand_from(tv, i + 1, caps@, h@) =~= expand_from(tv, 0, caps@, h@));
            i = i + 1;
        } else if i + 1 < tpl.len() && tpl[i + 1] == '$' {
            push_char(&mut out, '$');
            assert(out@ + expand_from(tv, i + 2, caps@, h@) =~= expand_from(tv, 0, caps@, h@));
            i = i + 2;
        } else if i + 1 < tpl.len() && tpl[i + 1] == '{' {
            let mut d = i + 2;
            proof {
                lemma_digit_run_end_bounds(tv, i + 2);
            }
            while d < tpl.len() && ascii_digit(tpl[d])
                invariant
                    tv == tpl@,
                    i + 2 <= d <= tpl.len(),
                    digit_run_end(tv, d as int) == digit_run_end(tv, i + 2),
                    forall|k: int| i + 2 <= k < d ==> is_ascii_digit(#[trigger] tv[k]),
                decreases tpl.len() - d,
            {
                d = d + 1;
            }
            let digits = string_of(tpl.as_slice(), i + 2, d);
            let dchars = str_chars(digits.as_str());
            let closed = d < tpl.len() && tpl[d] == '}';
            let next = if closed { d + 1 } else { d };
            let ghost before = out@;
            let parsed = parse_digits(dchars.as_slice());
            match parsed {
                Some(n) if closed => {
                    push_group(&mut out, caps, n, &h, &offs);
                },
                _ => {
                    push_str(&mut out, "${");
                    proof {
                        reveal_strlit("${");
                    }
                    push_chars(&mut out, dchars.as_slice());
                    if closed {
                        push_char(&mut out, '}');
                    }
                },
            }
            assert(out@ + expand_from(tv, next as int, caps@, h@) =~= expand_from(tv, 0, caps@, h@));
            i = next;
        } else if i + 1 < tpl.len() && ascii_digit(tpl[i + 1]) {
            let mut d = i + 1;
            proof {
                lemma_digit_run_end_bounds(tv, i + 1);
            }
            while d < tpl.len() && ascii_digit(tpl[d])
                invariant
                    tv == tpl@,
                    i + 1 <= d <= tpl.len(),
                    digit_run_end(tv, d as int) == digit_run_end(tv, i + 1),
                    forall|k: int| i + 1 <= k < d ==> is_ascii_digit(#[trigger] tv[k]),
                decreases tpl.len() - d,
            {
                d = d + 1;
            }
            let digits = string_of(tpl.as_slice(), i + 1, d);
            let dchars = str_chars(digits.as_str());
            match parse_digits(dchars.as_slice()) {
                Some(n) => {
                    push_group(&mut out, caps, n, &h, &offs);
                },
                None => {
                    push_char(&mut out, '$');
                    push_chars(&mut out, dchars.as_slice());
                },
            }
            assert(out@ + expand_from(tv, d as int, caps@, h@) =~= expand_from(tv, 0, caps@, h@));
            i = d;
        } else {
            push_char(&mut out, '$');
            assert(out@ + expand_from(tv, i + 1, caps@, h@) =~= expand_from(tv, 0, caps@, h@));
            i = i + 1;
        }
    }
    assert(out@ =~= expand_from(tv, 0, caps@, h@));
    out
}

} // verus!

verus! {

// ---------------------------------------------------------------------------
// Construction
// ---------------------------------------------------------------------------

/// The inline flag group for the `ignoreCase` / `multiline` options: `(?i)`, `(?m)`, `(?im)`,
/// or nothing.
pub open spec fn flag_prefix(ignore_case: bool, multiline: bool) -> Seq<char> {
    if ignore_case || multiline {
        seq!['(', '?'] + (if ignore_case { seq!['i'] } else { seq![] }) + (if multiline {
            seq!['m']
        } else {
            seq![]
        }) + seq![')']
    } else {
        seq![]
    }
}

/// The regex source a `regexPatterns` item compiles to, when it compiles: its non-empty string
/// `source` behind the flag group of its `ignoreCase` / `multiline` booleans.
pub open spec fn item_regex(item: JsonValue) -> Option<Seq<char>> {
    match opt_str(item, "source"@) {
        Some(src) => {
            let ic = match opt_bool(item, "ignoreCase"@) {
                Some(b) => b,
                None => false,
            };
            let ml = match opt_bool(item, "multiline"@) {
                Some(b) => b,
                None => false,
            };
            let pattern = flag_prefix(ic, ml) + src;
            if src.len() > 0 && regex_compiles(pattern) {
                Some(pattern)
            } else {
                None
            }
        },
        None => None,
    }
}

/// The compiled sources of `items`, in order, skipping the ones that do not compile.
pub open spec fn regex_sources(items: Seq<JsonValue>) -> Seq<Seq<char>>
    decreases items.len(),
{
    if items.len() == 0 {
        seq![]
    } else {
        let rest = regex_sources(items.drop_last());
        match item_regex(items.last()) {
            Some(p) => rest.push(p),
            None => rest,
        }
    }
}

/// The term an entry of `terms` describes, if it has a string `expected`.
pub open spec fn entry_term(entry: JsonValue) -> Option<TermView> {
    match opt_str(entry, "expected"@) {
        Some(expected) => {
            let single = match opt_str(entry, "pattern"@) {
                Some(p) => seq![p],
                None => seq![],
            };
            let many = match entry.spec_get("patterns"@) {
                Some(JsonValue::Array(items)) => str_items(items@, false),
                _ => seq![],
            };
            let regexes = match entry.spec_get("regexPatterns"@) {
                Some(JsonValue::Array(items)) => regex_sources(items@),
                _ => seq![],
            };
            Some((expected, single + many, regexes))
        },
        None => None,
    }
}

/// The terms of a `terms` array, in order.
pub open spec fn entries_terms(entries: Seq<JsonValue>) -> Seq<TermView>
    decreases entries.len(),
{
    if entries.len() == 0 {
        seq![]
    } else {
        let rest = entries_terms(entries.drop_last());
        match entry_term(entries.last()) {
            Some(t) => rest.push(t),
            None => rest,
        }
    }
}

/// Compile one `regexPatterns` entry (`{ source, ignoreCase?, multiline? }`), or `None` when it has
/// no non-empty string `source` or the source does not compile.
fn compile_regex(item: &JsonValue) -> (r: Option<Pattern>)
    ensures
        match item_regex(*item) {
            Some(p) => r.is_some() && r.unwrap().source() == p,
            None => r.is_none(),
        },
{
    let source = match get_str(item, "source") {
        Some(s) => s,
        None => return None,
    };
    if str_chars(source).len() == 0 {
        return None;
    }
    let ignore_case = match get_bool(item, "ignoreCase") {
        Some(b) => b,
        None => false,
    };
    let multiline = match get_bool(item, "multiline") {
        Some(b) => b,
        None => false,
    };
    let mut pattern = String::new();
    if ignore_case || multiline {
        push_char(&mut pattern, '(');
        push_char(&mut pattern, '?');
        if ignore_case {
            push_char(&mut pattern, 'i');
        }
        if multiline {
            push_char(&mut pattern, 'm');
        }
        push_char(&mut pattern, ')');
    }
    push_str(&mut pattern, source);
    assert(pattern@ =~= flag_prefix(ignore_case, multiline) + source@);
    compile(pattern.as_str())
}

fn compile_all(items: &Vec<JsonValue>) -> (r: Vec<Pattern>)
    ensures
        r@.map_values(|p: Pattern| p.source()) == regex_sources(items@),
{
    let mut r: Vec<Pattern> = Vec::new();
    let mut i: usize = 0;
    while i < items.len()
        invariant
            i <= items.len(),
            r@.map_values(|p: Pattern| p.source()) == regex_sources(items@.take(i as int)),
        decreases items.len() - i,
    {
        assert(items@.take(i + 1).drop_last() =~= items@.take(i as int));
        let ghost before = r@;
        match compile_regex(&items[i]) {
            Some(p) => {
                r.push(p);
                assert(r@.map_values(|p: Pattern| p.source()) =~= before.map_values(|p: Pattern| p.source()).push(r@.last().source()));
            },
            None => {},
        }
        i = i + 1;
    }
    assert(items@.take(i as int) =~= items@);
    r
}

fn entry_to_term(entry: &JsonValue) -> (r: Option<Term>)
    ensures
        match entry_term(*entry) {
            Some(tv) => r.is_some() && term_view(r.unwrap()) == tv,
            None => r.is_none(),
        },
{
    let expected = match get_str(entry, "expected") {
        Some(s) => s,
        None => return None,
    };
    let mut literals: Vec<String> = Vec::new();
    if let Some(single) = get_str(entry, "pattern") {
        literals.push(single.to_owned());
    }
    let ghost single_v = views(literals@);
    match entry.get("patterns") {
        Some(v) => match v.as_array() {
            Some(items) => {
                let more = crate::json::string_items(items, false);
                let ghost l0 = literals@;
                let mut k: usize = 0;
                while k < more.len()
                    invariant
                        k <= more.len(),
                        views(literals@) == views(l0) + views(more@).take(k as int),
                    decreases more.len() - k,
                {
                    let ghost b = literals@;
                    literals.push(more[k].clone());
                    assert(views(literals@) =~= views(b).push(more@[k as int]@));
                    assert(views(more@).take(k + 1) =~= views(more@).take(k as int).push(more@[k as int]@));
                    k = k + 1;
                }
                assert(views(more@).take(k as int) =~= views(more@));
            },
            None => {},
        },
        None => {},
    }
    let regexes = match entry.get("regexPatterns") {
        Some(v) => match v.as_array() {
            Some(items) => compile_all(items),
            None => Vec::new(),
        },
        None => Vec::new(),
    };
    let term = Term { expected: expected.to_owned(), literals, regexes };
    let ghost ev = entry_term(*entry)->0;
    assert(term_view(term).1 =~= ev.1);
    assert(term_view(term).2 =~= ev.2);
    Some(term)
}

impl JaPrh {
    /// Construct with no terms (a no-op until `options.terms` supplies some).
    pub fn new() -> (r: JaPrh)
        ensures
            r.meta.id@ == ID@,
            r.meta.node_kinds@ == node_kinds(),
            r.meta.default_severity == Severity::Warning,
            r.meta.lang == Some(Lang::Ja),
            r.terms@.len() == 0,
    {
        JaPrh {
            meta: RuleMeta::new(ID, Severity::Warning, vec![NodeKind::Text]).for_language(Lang::Ja),
            terms: Vec::new(),
        }
    }

    /// The rule's option fields as config `options` sets them (defaults where a value is
    /// missing or has the wrong type).
    pub open spec fn configured(&self, options: JsonValue) -> bool {
        &&& terms_view(self.terms@) == match options.spec_get("terms"@) { Some(JsonValue::Array(entries)) => entries_terms(entries@), _ => Seq::<TermView>::empty(), }
    }

    /// Construct from config `options`: `terms` is an array of
    /// `{ expected, pattern?, patterns?, regexPatterns? }`. Entries without a string `expected` are
    /// skipped, and a regex that does not compile is dropped.
    pub fn from_options(options: &JsonValue) -> (r: JaPrh)
        ensures
            r.meta.id@ == ID@,
            r.meta.node_kinds@ == node_kinds(),
            r.meta.default_severity == Severity::Warning,
            r.meta.lang == Some(Lang::Ja),
            r.configured(*options),
    {
        let mut rule = Self::new();
        let entries = match options.get("terms") {
            Some(v) => match v.as_array() {
                Some(e) => e,
                None => {
                    assert(terms_view(rule.terms@) =~= Seq::<TermView>::empty());
                    return rule;
                },
            },
            None => {
                assert(terms_view(rule.terms@) =~= Seq::<TermView>::empty());
                return rule;
            },
        };
        let mut i: usize = 0;
        assert(terms_view(rule.terms@) =~= entries_terms(entries@.take(0)));
        while i < entries.len()
            invariant
                i <= entries.len(),
                rule.meta.id@ == ID@,
                rule.meta.node_kinds@ == node_kinds(),
                rule.meta.default_severity == Severity::Warning,
                rule.meta.lang == Some(Lang::Ja),
                terms_view(rule.terms@) == entries_terms(entries@.take(i as int)),
            decreases entries.len() - i,
        {
            assert(entries@.take(i + 1).drop_last() =~= entries@.take(i as int));
            let ghost before = rule.terms@;
            match entry_to_term(&entries[i]) {
                Some(t) => {
                    rule.terms.push(t);
                    assert(terms_view(rule.terms@) =~= terms_view(before).push(term_view(rule.terms@.last())));
                },
                None => {},
            }
            i = i + 1;
        }
        assert(entries@.take(i as int) =~= entries@);
        rule
    }
}

} // verus!

verus! {

// ---------------------------------------------------------------------------
// Checking
// ---------------------------------------------------------------------------

/// `表記ゆれ: 「{pattern}」は「{expected}」に統一してください。`
pub open spec fn prh_message(pattern: Seq<char>, expected: Seq<char>) -> Seq<char> {
    "表記ゆれ: 「"@ + pattern + "」は「"@ + expected + "」に統一してください。"@
}

/// A report at `span` rewriting it to `rep`.
pub open spec fn rewrite(span: Span, found: Seq<char>, rep: Seq<char>) -> Report {
    (span, prh_message(found, rep), seq![(span, rep)])
}

/// Reports for the literal matches `ms` of `p`: a match at which the expected spelling `e`
/// already starts is left alone.
pub open spec fn literal_hits(base: u32, t: Seq<char>, p: Seq<char>, e: Seq<char>, ms: Seq<int>) -> Seq<Report>
    decreases ms.len(),
{
    if ms.len() == 0 {
        seq![]
    } else {
        let rest = literal_hits(base, t, p, e, ms.drop_last());
        let k = ms.last();
        if occurs_at(t, k, e) {
            rest
        } else {
            rest.push(rewrite(abs_span(base, byte_at(t, k) as int, byte_at(t, k + p.len()) as int), p, e))
        }
    }
}

/// The rule never rewrites where the expected spelling already stands: every literal report
/// rewrites an occurrence of the disallowed spelling `p` at which `e` does not start.
pub proof fn law_literal_reports_skip_expected(base: u32, t: Seq<char>, p: Seq<char>, e: Seq<char>, ms: Seq<int>)
    ensures
        forall|r: Report|
            #[trigger] literal_hits(base, t, p, e, ms).contains(r) ==> exists|k: int|
                #![trigger ms.contains(k)]
                ms.contains(k) && !occurs_at(t, k, e) && r == rewrite(
                    abs_span(base, byte_at(t, k) as int, byte_at(t, k + p.len()) as int),
                    p,
                    e,
                ),
    decreases ms.len(),
{
    if ms.len() > 0 {
        law_literal_reports_skip_expected(base, t, p, e, ms.drop_last());
        let rest = literal_hits(base, t, p, e, ms.drop_last());
        let k = ms.last();
        assert forall|r: Report| #[trigger] literal_hits(base, t, p, e, ms).contains(r) implies exists|k2: int|
            #![trigger ms.contains(k2)]
            ms.contains(k2) && !occurs_at(t, k2, e) && r == rewrite(
                abs_span(base, byte_at(t, k2) as int, byte_at(t, k2 + p.len()) as int),
                p,
                e,
            ) by {
            if rest.contains(r) {
                let k2 = choose|k2: int|
                    #![trigger ms.drop_last().contains(k2)]
                    ms.drop_last().contains(k2) && !occurs_at(t, k2, e) && r == rewrite(
                        abs_span(base, byte_at(t, k2) as int, byte_at(t, k2 + p.len()) as int),
                        p,
                        e,
                    );
                let q = choose|q: int| 0 <= q < ms.drop_last().len() && ms.drop_last()[q] == k2;
                assert(ms[q] == k2);
                assert(ms.contains(k2));
            } else {
                assert(!occurs_at(t, k, e));
                let hits = literal_hits(base, t, p, e, ms);
                assert(hits == rest.push(rewrite(abs_span(base, byte_at(t, k) as int, byte_at(t, k + p.len()) as int), p, e)));
                let q = choose|q: int| 0 <= q < hits.len() && hits[q] == r;
                assert(q == rest.len());
                assert(ms[ms.len() - 1] == k);
                assert(ms.contains(k));
            }
        }
    }
}

/// Start of the whole match in a capture list.
pub open spec fn whole_start(g: Seq<Option<(usize, usize)>>) -> usize {
    (g[0]->0).0
}

/// End of the whole match in a capture list.
pub open spec fn whole_end(g: Seq<Option<(usize, usize)>>) -> usize {
    (g[0]->0).1
}

/// A regex report never rewrites text to itself: every regex report is a non-empty match whose
/// expansion of the template differs from the matched text, rewritten to that expansion.
pub proof fn law_regex_reports_change_the_text(base: u32, t: Seq<char>, e: Seq<char>, ms: Seq<Seq<Option<(usize, usize)>>>)
    ensures
        forall|r: Report|
            #[trigger] regex_hits(base, t, e, ms).contains(r) ==> exists|g: Seq<Option<(usize, usize)>>|
                #![trigger ms.contains(g)]
                ms.contains(g) && g.len() > 0 && g[0] is Some && whole_start(g) != whole_end(g) && expand_from(e, 0, g, t)
                    != group_text(g, 0, t) && r == rewrite(
                    abs_span(base, whole_start(g) as int, whole_end(g) as int),
                    group_text(g, 0, t),
                    expand_from(e, 0, g, t),
                ),
    decreases ms.len(),
{
    if ms.len() > 0 {
        law_regex_reports_change_the_text(base, t, e, ms.drop_last());
        let rest = regex_hits(base, t, e, ms.drop_last());
        let g = ms.last();
        assert forall|r: Report| #[trigger] regex_hits(base, t, e, ms).contains(r) implies exists|g2: Seq<Option<(usize, usize)>>|
            #![trigger ms.contains(g2)]
            ms.contains(g2) && g2.len() > 0 && g2[0] is Some && whole_start(g2) != whole_end(g2) && expand_from(e, 0, g2, t)
                != group_text(g2, 0, t) && r == rewrite(
                abs_span(base, whole_start(g2) as int, whole_end(g2) as int),
                group_text(g2, 0, t),
                expand_from(e, 0, g2, t),
            ) by {
            if rest.contains(r) {
                let g2 = choose|g2: Seq<Option<(usize, usize)>>|
                    #![trigger ms.drop_last().contains(g2)]
                    ms.drop_last().contains(g2) && g2.len() > 0 && g2[0] is Some && whole_start(g2) != whole_end(g2) && expand_from(
                        e,
                        0,
                        g2,
                        t,
                    ) != group_text(g2, 0, t) && r == rewrite(
                        abs_span(base, whole_start(g2) as int, whole_end(g2) as int),
                        group_text(g2, 0, t),
                        expand_from(e, 0, g2, t),
                    );
                let q = choose|q: int| 0 <= q < ms.drop_last().len() && ms.drop_last()[q] == g2;
                assert(ms[q] == g2);
                assert(ms.contains(g2));
            } else {
                let hits = regex_hits(base, t, e, ms);
                assert(hits.len() == rest.len() + 1);
                let q = choose|q: int| 0 <= q < hits.len() && hits[q] == r;
                assert(q == rest.len());
                assert(ms[ms.len() - 1] == g);
                assert(ms.contains(g));
            }
        }
    }
}

/// Reports for each literal spelling in turn; an empty spelling, or one equal to `e`, is skipped.
pub open spec fn literal_reports(base: u32, t: Seq<char>, e: Seq<char>, ps: Seq<Seq<char>>) -> Seq<Report>
    decreases ps.len(),
{
    if ps.len() == 0 {
        seq![]
    } else {
        let p = ps.last();
        literal_reports(base, t, e, ps.drop_last()) + if p.len() == 0 || p == e {
            seq![]
        } else {
            literal_hits(base, t, p, e, matches_from(t, p, 0, true))
        }
    }
}

/// Reports for the regex matches `ms` (their capture groups): an empty match, or one whose
/// expansion of the template `e` equals the matched text, is left alone.
pub open spec fn regex_hits(base: u32, t: Seq<char>, e: Seq<char>, ms: Seq<Seq<Option<(usize, usize)>>>) -> Seq<Report>
    decreases ms.len(),
{
    if ms.len() == 0 {
        seq![]
    } else {
        let rest = regex_hits(base, t, e, ms.drop_last());
        let g = ms.last();
        if g.len() > 0 && g[0] is Some {
            let (s, en) = g[0]->0;
            let whole = group_text(g, 0, t);
            let rep = expand_from(e, 0, g, t);
            if s == en || rep == whole {
                rest
            } else {
                rest.push(rewrite(abs_span(base, s as int, en as int), whole, rep))
            }
        } else {
            rest
        }
    }
}

/// Reports for each regex source in turn.
pub open spec fn regex_reports(base: u32, t: Seq<char>, e: Seq<char>, srcs: Seq<Seq<char>>) -> Seq<Report>
    decreases srcs.len(),
{
    if srcs.len() == 0 {
        seq![]
    } else {
        regex_reports(base, t, e, srcs.drop_last()) + regex_hits(base, t, e, regex_captures(srcs.last(), t))
    }
}

/// Reports for one term: its literal spellings, then its regexes.
pub open spec fn term_reports(base: u32, t: Seq<char>, tv: TermView) -> Seq<Report> {
    literal_reports(base, t, tv.0, tv.1) + regex_reports(base, t, tv.0, tv.2)
}

/// Reports for every term in turn.
pub open spec fn prh_reports(base: u32, t: Seq<char>, ts: Seq<TermView>) -> Seq<Report>
    decreases ts.len(),
{
    if ts.len() == 0 {
        seq![]
    } else {
        prh_reports(base, t, ts.drop_last()) + term_reports(base, t, ts.last())
    }
}

/// The rewrite report for a match of the literal `p` at `k`, to the expected spelling `e`.
pub open spec fn literal_rewrite(base: u32, t: Seq<char>, p: Seq<char>, e: Seq<char>, k: int) -> Report {
    rewrite(abs_span(base, byte_at(t, k) as int, byte_at(t, k + p.len()) as int), p, e)
}

/// The literal reports of a term, stated with the standard sequence operations: every
/// non-empty literal spelling other than the expected one is searched, and each of its
/// case-sensitive, non-overlapping matches (left to right; see
/// `no_todo::law_matches_are_the_greedy_scan`) at which the expected spelling does not start
/// is rewritten to the expected spelling, spelling by spelling, in order.
pub open spec fn every_literal_rewrite(base: u32, t: Seq<char>, e: Seq<char>, ps: Seq<Seq<char>>) -> Seq<Report> {
    ps.filter(searched_spelling(e)).map_values(spelling_rewrites(base, t, e)).flatten_alt()
}

/// A spelling that is searched: non-empty and not the expected one.
pub open spec fn searched_spelling(e: Seq<char>) -> spec_fn(Seq<char>) -> bool {
    |p: Seq<char>| p.len() > 0 && p != e
}

/// The rewrites of one spelling: its scan's matches at which `e` does not start.
pub open spec fn spelling_rewrites(base: u32, t: Seq<char>, e: Seq<char>) -> spec_fn(Seq<char>) -> Seq<Report> {
    |p: Seq<char>|
        matches_from(t, p, 0, true).filter(|k: int| !occurs_at(t, k, e)).map_values(
            |k: int| literal_rewrite(base, t, p, e, k),
        )
}

proof fn lemma_literal_hits_filter(base: u32, t: Seq<char>, p: Seq<char>, e: Seq<char>, ms: Seq<int>)
    ensures
        literal_hits(base, t, p, e, ms) == ms.filter(|k: int| !occurs_at(t, k, e)).map_values(
            |k: int| literal_rewrite(base, t, p, e, k),
        ),
    decreases ms.len(),
{
    reveal(Seq::filter);
    let pred = |k: int| !occurs_at(t, k, e);
    let f = |k: int| literal_rewrite(base, t, p, e, k);
    if ms.len() > 0 {
        lemma_literal_hits_filter(base, t, p, e, ms.drop_last());
        let sub = ms.drop_last().filter(pred);
        if pred(ms.last()) {
            assert(sub.push(ms.last()).map_values(f) =~= sub.map_values(f).push(f(ms.last())));
        }
    } else {
        assert(ms.filter(pred).map_values(f) =~= Seq::<Report>::empty());
    }
}

/// Every literal spelling of a term is searched: the term's literal reports are, for each
/// non-empty spelling other than the expected one, one rewrite per match of its left-to-right,
/// non-overlapping, case-sensitive scan at which the expected spelling does not start.
pub proof fn law_every_literal_spelling_is_searched(base: u32, t: Seq<char>, e: Seq<char>, ps: Seq<Seq<char>>)
    ensures
        literal_reports(base, t, e, ps) == every_literal_rewrite(base, t, e, ps),
    decreases ps.len(),
{
    reveal(Seq::filter);
    let pp = searched_spelling(e);
    let f = spelling_rewrites(base, t, e);
    if ps.len() > 0 {
        law_every_literal_spelling_is_searched(base, t, e, ps.drop_last());
        let p = ps.last();
        let sub = ps.drop_last().filter(pp);
        if pp(p) {
            lemma_literal_hits_filter(base, t, p, e, matches_from(t, p, 0, true));
            assert(ps.filter(pp) == sub.push(p));
            let m = sub.push(p).map_values(f);
            assert(m =~= sub.map_values(f).push(f(p)));
            assert(m.drop_last() =~= sub.map_values(f));
            assert(m.last() == f(p));
            assert(m.flatten_alt() == m.drop_last().flatten_alt() + m.last());
            assert(every_literal_rewrite(base, t, e, ps) == m.flatten_alt());
            assert(every_literal_rewrite(base, t, e, ps.drop_last()) == sub.map_values(f).flatten_alt());
        } else {
            assert(ps.filter(pp) == sub);
            assert(every_literal_rewrite(base, t, e, ps) == sub.map_values(f).flatten_alt());
            assert(every_literal_rewrite(base, t, e, ps.drop_last()) == sub.map_values(f).flatten_alt());
            assert(literal_reports(base, t, e, ps) =~= literal_reports(base, t, e, ps.drop_last()));
        }
    } else {
        assert(ps.filter(pp).map_values(f) =~= Seq::<Seq<Report>>::empty());
    }
}

/// The reports of one term.
pub open spec fn term_reports_of(base: u32, t: Seq<char>) -> spec_fn(TermView) -> Seq<Report> {
    |tv: TermView| term_reports(base, t, tv)
}

/// Every term is checked: the rule's reports are each term's reports, term by term.
pub proof fn law_every_term_is_checked(base: u32, t: Seq<char>, ts: Seq<TermView>)
    ensures
        prh_reports(base, t, ts) == ts.map_values(term_reports_of(base, t)).flatten_alt(),
    decreases ts.len(),
{
    let f = term_reports_of(base, t);
    if ts.len() > 0 {
        law_every_term_is_checked(base, t, ts.drop_last());
        let m = ts.map_values(f);
        assert(m.drop_last() =~= ts.drop_last().map_values(f));
        assert(m.last() == f(ts.last()));
    } else {
        assert(ts.map_values(f) =~= Seq::<Seq<Report>>::empty());
    }
}

/// The reports of one regex spelling: those of each of its successive matches.
pub open spec fn regex_spelling_reports(base: u32, t: Seq<char>, e: Seq<char>) -> spec_fn(Seq<char>) -> Seq<Report> {
    |src: Seq<char>| regex_hits(base, t, e, regex_captures(src, t))
}

/// Every regex spelling of a term is searched, spelling by spelling.
pub proof fn law_every_regex_spelling_is_searched(base: u32, t: Seq<char>, e: Seq<char>, srcs: Seq<Seq<char>>)
    ensures
        regex_reports(base, t, e, srcs) == srcs.map_values(regex_spelling_reports(base, t, e)).flatten_alt(),
    decreases srcs.len(),
{
    let f = regex_spelling_reports(base, t, e);
    if srcs.len() > 0 {
        law_every_regex_spelling_is_searched(base, t, e, srcs.drop_last());
        let m = srcs.map_values(f);
        assert(m.drop_last() =~= srcs.drop_last().map_values(f));
        assert(m.last() == f(srcs.last()));
    } else {
        assert(srcs.map_values(f) =~= Seq::<Seq<Report>>::empty());
    }
}

fn rewrite_message(found: &[char], rep: &[char]) -> (m: String)
    ensures
        m@ == prh_message(found@, rep@),
{
    let mut m = String::new();
    push_str(&mut m, "表記ゆれ: 「");
    push_chars(&mut m, found);
    push_str(&mut m, "」は「");
    push_chars(&mut m, rep);
    push_str(&mut m, "」に統一してください。");
    m
}

fn report_rewrite(cx: &mut Context, span: Span, found: &[char], rep: &[char])
    requires
        old(cx).wf(),
    ensures
        final(cx).wf(),
        final(cx).id() == old(cx).id(),
        final(cx).severity() == old(cx).severity(),
        final(cx).reports() == old(cx).reports().push(rewrite(span, found@, rep@)),
{
    let msg = rewrite_message(found, rep);
    let mut rs = String::new();
    push_chars(&mut rs, rep);
    let fixes = vec![Fix::replace(span, rs)];
    assert(fixes@.map_values(|f: Fix| crate::ast::fix_view(f)) =~= seq![(span, rep@)]);
    cx.report_with_fixes(span, msg, fixes);
}

/// Report every literal match of the non-empty spelling `p` that the expected spelling `e` does
/// not already start at.
fn check_literal(base: u32, t: &Vec<char>, offs: &Vec<usize>, p: &[char], e: &[char], cx: &mut Context)
    requires
        old(cx).wf(),
        offsets_ok(t@, offs@),
        p@.len() > 0,
    ensures
        final(cx).wf(),
        final(cx).id() == old(cx).id(),
        final(cx).severity() == old(cx).severity(),
        final(cx).reports() == old(cx).reports() + literal_hits(base, t@, p@, e@, matches_from(t@, p@, 0, true)),
{
    let ghost ms_all = matches_from(t@, p@, 0, true);
    let tl = t.len();
    let mut search: usize = 0;
    let mut done = false;
    let ghost mut seen: Seq<int> = seq![];
    while !done
        invariant
            offsets_ok(t@, offs@),
            p@.len() > 0,
            tl == t@.len(),
            search <= t@.len(),
            cx.wf(),
            cx.id() == old(cx).id(),
            cx.severity() == old(cx).severity(),
            ms_all == seen + if done { seq![] } else { matches_from(t@, p@, search as int, true) },
            cx.reports() == old(cx).reports() + literal_hits(base, t@, p@, e@, seen),
        decreases t@.len() - search, if done { 0int } else { 1int },
    {
        match find_from(t.as_slice(), p, search, true) {
            Some(k) => {
                proof {
                    lemma_first_match_range(t@, p@, search as int, true);
                }
                let end = k + p.len();
                let ghost seen0 = seen;
                proof {
                    seen = seen.push(k as int);
                    assert(seen.drop_last() =~= seen0);
                }
                if !matches_at(t.as_slice(), k, e) {
                    report_rewrite(cx, make_span(base, offs[k], offs[end]), p, e);
                }
                assert(matches_from(t@, p@, search as int, true) == seq![k as int] + matches_from(t@, p@, end as int, true));
                assert(ms_all =~= seen + matches_from(t@, p@, end as int, true));
                search = end;
            },
            None => {
                done = true;
                assert(ms_all =~= seen);
            },
        }
    }
}

/// Report every regex match of `re` that the template `e` rewrites to something else.
fn check_regex(base: u32, text: &str, t: &Vec<char>, offs: &Vec<usize>, re: &Pattern, e: &str, cx: &mut Context)
    requires
        old(cx).wf(),
        t@ == text@,
        fits_usize(text@),
        offsets_ok(t@, offs@),
    ensures
        final(cx).wf(),
        final(cx).id() == old(cx).id(),
        final(cx).severity() == old(cx).severity(),
        final(cx).reports() == old(cx).reports() + regex_hits(base, t@, e@, regex_captures(re.source(), t@)),
{
    let all = captures(re, text);
    let ghost ms = all@.map_values(|m: Vec<Option<(usize, usize)>>| m@);
    let mut j: usize = 0;
    while j < all.len()
        invariant
            j <= all.len(),
            t@ == text@,
            fits_usize(text@),
            offsets_ok(t@, offs@),
            ms == all@.map_values(|m: Vec<Option<(usize, usize)>>| m@),
            ms == regex_captures(re.source(), t@),
            forall|i: int| 0 <= i < all@.len() ==> (#[trigger] all@[i])@.len() > 0 && all@[i]@[0] is Some,
            forall|i: int, l: int|
                0 <= i < all@.len() && 0 <= l < all@[i]@.len() ==> match #[trigger] all@[i]@[l] {
                    Some((s, e)) => s <= e && is_boundary(text@, s as int) && is_boundary(text@, e as int),
                    None => true,
                },
            cx.wf(),
            cx.id() == old(cx).id(),
            cx.severity() == old(cx).severity(),
            cx.reports() == old(cx).reports() + regex_hits(base, t@, e@, ms.take(j as int)),
        decreases all.len() - j,
    {
        let g = &all[j];
        assert(ms.take(j + 1).drop_last() =~= ms.take(j as int));
        assert(ms.take(j + 1).last() == g@);
        assert(groups_ok(g@, t@)) by {
            assert forall|l: int| 0 <= l < g@.len() implies match #[trigger] g@[l] {
                Some((s, e)) => s <= e && is_boundary(t@, s as int) && is_boundary(t@, e as int),
                None => true,
            } by {
                assert(all@[j as int]@[l] == g@[l]);
            }
        }
        assert(all@[j as int]@.len() > 0 && all@[j as int]@[0] is Some);
        match g[0] {
            Some((s, en)) => {
                if s != en {
                    let rep = expand_template(e, g, text);
                    proof {
                        lemma_index_of_byte_mono(t@, s as int, en as int);
                    }
                    let ks = find_index_of_byte(offs, Ghost(t@), s);
                    let ke = find_index_of_byte(offs, Ghost(t@), en);
                    let whole = string_of(t.as_slice(), ks, ke);
                    let wchars = str_chars(whole.as_str());
                    let rchars = str_chars(rep.as_str());
                    if !seq_eq(rchars.as_slice(), wchars.as_slice()) {
                        report_rewrite(cx, make_span(base, s, en), wchars.as_slice(), rchars.as_slice());
                    }
                }
            },
            None => {},
        }
        j = j + 1;
    }
    assert(ms.take(j as int) =~= ms);
}

impl JaPrh {
    pub open spec fn spec_check_at(&self, base: u32, t: Seq<char>) -> Seq<Report> {
        prh_reports(base, t, terms_view(self.terms@))
    }
}

impl Rule for JaPrh {
    open spec fn spec_meta(&self) -> RuleMeta {
        self.meta
    }

    open spec fn spec_check(&self, node: NodeRef) -> Seq<Report> {
        self.spec_check_at(node.span.start, node.text@)
    }

    fn meta(&self) -> (m: &RuleMeta) {
        &self.meta
    }

    fn check(&self, node: &NodeRef, cx: &mut Context) {
        let base = node.span.start;
        let text = node.text.as_str();
        let t = str_chars(text);
        let offs = byte_offsets(&t);
        let ghost tvs = terms_view(self.terms@);
        let mut ti: usize = 0;
        while ti < self.terms.len()
            invariant
                ti <= self.terms.len(),
                tvs == terms_view(self.terms@),
                t@ == text@,
                text@ == node.text@,
                fits_usize(text@),
                offsets_ok(t@, offs@),
                cx.wf(),
                cx.id() == old(cx).id(),
                cx.severity() == old(cx).severity(),
                cx.reports() == old(cx).reports() + prh_reports(base, t@, tvs.take(ti as int)),
            decreases self.terms.len() - ti,
        {
            let term = &self.terms[ti];
            let ghost tv = term_view(*term);
            assert(tvs[ti as int] == tv);
            assert(tvs.take(ti + 1).drop_last() =~= tvs.take(ti as int));
            let e = str_chars(term.expected.as_str());
            let ghost r_term = cx.reports();
            let mut li: usize = 0;
            while li < term.literals.len()
                invariant
                    li <= term.literals.len(),
                    tv == term_view(*term),
                    e@ == tv.0,
                    offsets_ok(t@, offs@),
                    cx.wf(),
                    cx.id() == old(cx).id(),
                    cx.severity() == old(cx).severity(),
                    cx.reports() == r_term + literal_reports(base, t@, tv.0, tv.1.take(li as int)),
                decreases term.literals.len() - li,
            {
                let p = str_chars(term.literals[li].as_str());
                assert(p@ == tv.1[li as int]);
                assert(tv.1.take(li + 1).drop_last() =~= tv.1.take(li as int));
                let ghost before = cx.reports();
                if p.len() > 0 && !seq_eq(p.as_slice(), e.as_slice()) {
                    check_literal(base, &t, &offs, p.as_slice(), e.as_slice(), cx);
                } else {
                    assert(cx.reports() =~= before + Seq::<Report>::empty());
                }
                li = li + 1;
            }
            assert(tv.1.take(li as int) =~= tv.1);
            let ghost r_lit = cx.reports();
            let mut ri: usize = 0;
            while ri < term.regexes.len()
                invariant
                    ri <= term.regexes.len(),
                    tv == term_view(*term),
                    t@ == text@,
                    fits_usize(text@),
                    offsets_ok(t@, offs@),
                    cx.wf(),
                    cx.id() == old(cx).id(),
                    cx.severity() == old(cx).severity(),
                    cx.reports() == r_lit + regex_reports(base, t@, tv.0, tv.2.take(ri as int)),
                decreases term.regexes.len() - ri,
            {
                assert(tv.2[ri as int] == term.regexes@[ri as int].source());
                assert(tv.2.take(ri + 1).drop_last() =~= tv.2.take(ri as int));
                check_regex(base, text, &t, &offs, &term.regexes[ri], term.expected.as_str(), cx);
                ri = ri + 1;
            }
            assert(tv.2.take(ri as int) =~= tv.2);
            ti = ti + 1;
        }
        assert(tvs.take(ti as int) =~= tvs);
    }
}

impl Default for JaPrh {
    /// The rule with its default options, as [`JaPrh::new`] builds it.
    fn default() -> (r: JaPrh)
        ensures
            r.meta.id@ == ID@,
            r.meta.node_kinds@ == node_kinds(),
            r.meta.default_severity == Severity::Warning,
            r.meta.lang == Some(Lang::Ja),
            r.terms@.len() == 0,
    {
        JaPrh::new()
    }
}

} // verus!
