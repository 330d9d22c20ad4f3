//! The no-todo plugin: task markers (TODO, FIXME, XXX) should be resolved before committing.
use vstd::prelude::*;
use crate::json::{views, JsonValue};
use crate::pdk::request::{extract_node_text, is_node_type, node_range_ok, node_text, node_type};
use crate::pdk::text::{
    all_hits, find_matches, hit_views, match_view, match_views, pattern_chars, sort_by_start,
    ws_back, ws_fwd,
};
use crate::pdk::types::{opt_string_chars, Diagnostic, LintRequest, LintResponse, RuleManifest, Severity, Span};
use crate::plugins::config::{
    bool_field, owned_strings, read_bool_field, read_strings_field, strings_field,
};
use crate::plugins::no_doubled_joshi::{diag_view, diag_views, DiagView};
use crate::text::{
    byte_len, contains_chars, contains_seq, fits_usize, index_of_byte, lemma_byte_at_strict,
    push_chars, push_str, str_chars,
};
use crate::util::whitespace;

verus! {

pub const RULE_ID: &'static str = "no-todo";

pub const VERSION: &'static str = "1.0.0";

/// The markers looked for when none are configured.
pub open spec fn default_patterns() -> Seq<Seq<char>> {
    seq!["TODO:"@, "TODO "@, "FIXME:"@, "FIXME "@, "XXX:"@, "XXX "@]
}

/// The plugin's options.
#[derive(Debug)]
pub struct Config {
    /// Markers to look for (the defaults when empty).
    pub patterns: Vec<String>,
    /// A match containing one of these is not reported.
    pub ignore_patterns: Vec<String>,
    pub case_sensitive: bool,
}

impl Default for Config {
    /// No patterns (so the defaults), nothing ignored, case-insensitive.
    fn default() -> (r: Config)
        ensures
            r.patterns@.len() == 0,
            r.ignore_patterns@.len() == 0,
            !r.case_sensitive,
    {
        Config { patterns: Vec::new(), ignore_patterns: Vec::new(), case_sensitive: false }
    }
}

/// Whether the options object `v` is valid: an object whose known fields have their types.
pub open spec fn config_ok(v: JsonValue) -> bool {
    &&& v is Object
    &&& strings_field(v, "patterns"@, seq![]) is Some
    &&& strings_field(v, "ignore_patterns"@, seq![]) is Some
    &&& bool_field(v, "case_sensitive"@, false) is Some
}

impl Config {
    /// The options `v` describes.
    pub open spec fn read_from(&self, v: JsonValue) -> bool {
        &&& Some(views(self.patterns@)) == strings_field(v, "patterns"@, seq![])
        &&& Some(views(self.ignore_patterns@)) == strings_field(v, "ignore_patterns"@, seq![])
        &&& Some(self.case_sensitive) == bool_field(v, "case_sensitive"@, false)
    }

    pub open spec fn is_default(&self) -> bool {
        self.patterns@.len() == 0 && self.ignore_patterns@.len() == 0 && !self.case_sensitive
    }

    /// The options the host configured, or the defaults when it sent none or an invalid one.
    pub fn from_host(v: Option<&JsonValue>) -> (r: Config)
        ensures
            match v {
                Some(j) => if config_ok(*j) {
                    r.read_from(*j)
                } else {
                    r.is_default()
                },
                None => r.is_default(),
            },
    {
        let j = match v {
            Some(j) => j,
            None => {
                return Config::default();
            },
        };
        match j {
            JsonValue::Object(_) => {},
            _ => {
                return Config::default();
            },
        }
        let none: Vec<String> = Vec::new();
        assert(views(none@) =~= Seq::<Seq<char>>::empty());
        let patterns = match read_strings_field(j, "patterns", none) {
            Some(p) => p,
            None => {
                return Config::default();
            },
        };
        let none: Vec<String> = Vec::new();
        assert(views(none@) =~= Seq::<Seq<char>>::empty());
        let ignore_patterns = match read_strings_field(j, "ignore_patterns", none) {
            Some(p) => p,
            None => {
                return Config::default();
            },
        };
        let case_sensitive = match read_bool_field(j, "case_sensitive", false) {
            Some(b) => b,
            None => {
                return Config::default();
            },
        };
        Config { patterns, ignore_patterns, case_sensitive }
    }

    /// The markers to look for: the configured ones, or the defaults when none are.
    pub open spec fn spec_effective_patterns(&self) -> Seq<Seq<char>> {
        if self.patterns@.len() == 0 {
            default_patterns()
        } else {
            views(self.patterns@)
        }
    }

    pub fn effective_patterns(&self) -> (r: Vec<String>)
        ensures
            views(r@) == self.spec_effective_patterns(),
    {
        if self.patterns.len() == 0 {
            let r = owned_strings(&["TODO:", "TODO ", "FIXME:", "FIXME ", "XXX:", "XXX "]);
            assert(views(r@) =~= default_patterns());
            r
        } else {
            crate::pdk::types::copy_strings(&self.patterns)
        }
    }

    /// Whether `text` contains one of the ignore patterns.
    pub open spec fn spec_should_ignore(&self, text: Seq<char>) -> bool {
        exists|i: int| 0 <= i < self.ignore_patterns@.len() && contains_seq(text, #[trigger] self.ignore_patterns@[i]@)
    }

    pub fn should_ignore(&self, text: &str) -> (b: bool)
        ensures
            b == self.spec_should_ignore(text@),
    {
        let t = str_chars(text);
        let mut i: usize = 0;
        while i < self.ignore_patterns.len()
            invariant
                t@ == text@,
                i <= self.ignore_patterns@.len(),
                forall|k: int| 0 <= k < i ==> !contains_seq(text@, #[trigger] self.ignore_patterns@[k]@),
            decreases self.ignore_patterns.len() - i,
        {
            let p = str_chars(self.ignore_patterns[i].as_str());
            if contains_chars(t.as_slice(), p.as_slice()) {
                return true;
            }
            i = i + 1;
        }
        false
    }
}

/// The manifest: not fixable, for `Str` nodes.
pub fn get_manifest() -> (r: RuleManifest)
    ensures
        r.name@ == RULE_ID@,
        r.version@ == VERSION@,
        opt_string_chars(r.description) == Some("Disallow TODO/FIXME comments in text"@),
        !r.fixable,
        views(r.node_types@) == seq!["Str"@],
        r.languages@.len() == 0,
        r.capabilities@.len() == 0,
{
    let node_types = vec!["Str".to_owned()];
    assert(views(node_types@) =~= seq!["Str"@]);
    RuleManifest::new(RULE_ID, VERSION).with_description("Disallow TODO/FIXME comments in text").with_fixable(
        false,
    ).with_node_types(node_types)
}

/// `s` without leading and trailing whitespace.
pub open spec fn trimmed(s: Seq<char>) -> Seq<char> {
    let a = ws_fwd(s, 0, s.len() as int);
    s.subrange(a, ws_back(s, a, s.len() as int))
}

/// `Found 'TODO:' comment. Consider resolving this before committing.`
pub open spec fn todo_message(matched: Seq<char>) -> Seq<char> {
    "Found '"@ + trimmed(matched) + "' comment. Consider resolving this before committing."@
}

/// The report for a match at `base` + its offsets.
pub open spec fn todo_report(base: int, m: (int, int, Seq<char>)) -> DiagView {
    (
        RULE_ID@,
        todo_message(m.2),
        Span { start: (base + m.0) as u32, end: (base + m.1) as u32 },
        Severity::Warning,
        None,
    )
}

/// The reports for the matches that are not ignored.
pub open spec fn todo_match_reports(base: int, ms: Seq<(int, int, Seq<char>)>, cfg: Config) -> Seq<DiagView>
    decreases ms.len(),
{
    if ms.len() == 0 {
        seq![]
    } else if cfg.spec_should_ignore(ms.last().2) {
        todo_match_reports(base, ms.drop_last(), cfg)
    } else {
        todo_match_reports(base, ms.drop_last(), cfg).push(todo_report(base, ms.last()))
    }
}

/// The reports for a request: every marker found in a `Str` node's text (see
/// [`find_matches`]), in order, except the ignored ones.
pub open spec fn todo_reports(req: LintRequest, cfg: Config) -> Seq<DiagView> {
    if node_type(req.node) != Some("Str"@) {
        seq![]
    } else {
        match node_text(req.node, req.source@) {
            Some((s, e, text)) => todo_match_reports(
                s as int,
                sort_by_start(hit_views(text, all_hits(text, cfg.spec_effective_patterns(), cfg.case_sensitive))),
                cfg,
            ),
            None => seq![],
        }
    }
}

/// `s.trim()`, as characters.
fn trim_chars(s: &str) -> (r: Vec<char>)
    ensures
        r@ == trimmed(s@),
{
    let cs = str_chars(s);
    let n = cs.len();
    let mut a: usize = 0;
    while a < n && whitespace(cs[a])
        invariant
            n == cs@.len(),
            a <= n,
            ws_fwd(cs@, a as int, n as int) == ws_fwd(cs@, 0, n as int),
        decreases n - a,
    {
        a = a + 1;
    }
    let mut b: usize = n;
    while b > a && whitespace(cs[b - 1])
        invariant
            n == cs@.len(),
            a <= b <= n,
            ws_back(cs@, a as int, b as int) == ws_back(cs@, a as int, n as int),
        decreases b - a,
    {
        b = b - 1;
    }
    let mut out: Vec<char> = Vec::new();
    let mut i = a;
    while i < b
        invariant
            a <= i <= b <= cs@.len(),
            out@ == cs@.subrange(a as int, i as int),
        decreases b - i,
    {
        out.push(cs[i]);
        assert(cs@.subrange(a as int, i + 1) =~= cs@.subrange(a as int, i as int).push(cs@[i as int]));
        i = i + 1;
    }
    out
}

/// Report every task marker in a `Str` node's text.
///
/// The markers are the configured patterns (the defaults when none are), found with
/// [`find_matches`]; a match containing an ignore pattern is skipped. Each report is a warning
/// spanning the match in the whole source.
pub fn lint(request: &LintRequest, config: &Config) -> (r: LintResponse)
    requires
        fits_usize(request.source@),
        node_type(request.node) == Some("Str"@) ==> node_range_ok(request.node, request.source@),
    ensures
        diag_views(r.diagnostics@) == todo_reports(*request, *config),
{
    let mut diagnostics: Vec<Diagnostic> = Vec::new();
    if !is_node_type(&request.node, "Str") {
        return LintResponse { diagnostics };
    }
    let patterns = config.effective_patterns();
    if let Some((start, _end, text)) = extract_node_text(&request.node, request.source.as_str()) {
        proof {
            let src = request.source@;
            let ks = index_of_byte(src, start as int);
            let ke = index_of_byte(src, _end as int);
            if ke < ks {
                lemma_byte_at_strict(src, ke, ks);
            }
            crate::text::lemma_byte_len_subrange_le(src, ks, ke);
            assert(pattern_chars(patterns@) =~= views(patterns@));
        }
        let matches = find_matches(text, patterns.as_slice(), config.case_sensitive);
        let ghost ms = match_views(matches@);
        let mut i: usize = 0;
        while i < matches.len()
            invariant
                ms == match_views(matches@),
                i <= matches@.len(),
                diag_views(diagnostics@) == todo_match_reports(start as int, ms.take(i as int), *config),
            decreases matches.len() - i,
        {
            let m = &matches[i];
            proof {
                assert(ms.take(i + 1).drop_last() =~= ms.take(i as int));
                assert(ms.take(i + 1).last() == match_view(*m));
            }
            if !config.should_ignore(m.matched_text.as_str()) {
                let t = trim_chars(m.matched_text.as_str());
                let mut message = String::new();
                push_str(&mut message, "Found '");
                push_chars(&mut message, t.as_slice());
                push_str(&mut message, "' comment. Consider resolving this before committing.");
                // Widened so that the sums cannot overflow; the offsets lie inside the source.
                let s = (start as u128 + m.start as u128) as u32;
                let e = (start as u128 + m.end as u128) as u32;
                let d = Diagnostic::warning(RULE_ID, message.as_str(), Span::new(s, e));
                let ghost before = diag_views(diagnostics@);
                proof {
                    assert(diag_view(d) == todo_report(start as int, match_view(*m)));
                }
                diagnostics.push(d);
                assert(diag_views(diagnostics@) =~= before.push(todo_report(start as int, match_view(*m))));
            }
            i = i + 1;
        }
        assert(ms.take(i as int) =~= ms);
    }
    LintResponse { diagnostics }
}

} // verus!
