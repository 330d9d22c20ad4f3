//! The sentence-length plugin: a sentence longer than `max` characters is hard to read.
use vstd::prelude::*;
use crate::json::{views, JsonValue};
use crate::pdk::request::{extract_node_text, is_node_type, node_range_ok, node_text, node_type};
use crate::pdk::text::{get_sentences, is_sentence_of, sentence_ranges};
use crate::pdk::types::{opt_string_chars, Diagnostic, LintRequest, LintResponse, RuleManifest, Severity, Span};
use crate::plugins::config::{read_usize_field, usize_field};
use crate::plugins::no_doubled_joshi::{diag_view, diag_views, DiagView};
use crate::text::{
    byte_at, decimal, fits_usize, index_of_byte, lemma_byte_at_strict, push_decimal, push_str,
};

verus! {

pub const RULE_ID: &'static str = "sentence-length";

pub const VERSION: &'static str = "1.0.0";

pub const DEFAULT_MAX_LENGTH: usize = 100;

/// The plugin's options.
#[derive(Debug)]
pub struct Config {
    /// Longest sentence allowed, in characters.
    pub max: usize,
}

pub fn default_max() -> (n: usize)
    ensures
        n == DEFAULT_MAX_LENGTH,
{
    DEFAULT_MAX_LENGTH
}

impl Default for Config {
    fn default() -> (r: Config)
        ensures
            r.max == DEFAULT_MAX_LENGTH,
    {
        Config { max: default_max() }
    }
}

/// The `max` the host configured: the value of a valid options object, else the default.
pub open spec fn configured_max(v: Option<JsonValue>) -> usize {
    match v {
        Some(j) => if j is Object && usize_field(j, "max"@, DEFAULT_MAX_LENGTH) is Some {
            usize_field(j, "max"@, DEFAULT_MAX_LENGTH).unwrap()
        } else {
            DEFAULT_MAX_LENGTH
        },
        None => DEFAULT_MAX_LENGTH,
    }
}

impl Config {
    /// The options the host configured, or the defaults when it sent none or an invalid one.
    pub fn from_host(v: Option<&JsonValue>) -> (r: Config)
        ensures
            r.max == configured_max(
                match v {
                    Some(j) => Some(*j),
                    None => None,
                },
            ),
    {
        match v {
            Some(j) => match j {
                JsonValue::Object(_) => match read_usize_field(j, "max", DEFAULT_MAX_LENGTH) {
                    Some(n) => Config { max: n },
                    None => Config::default(),
                },
                _ => Config::default(),
            },
            None => Config::default(),
        }
    }
}

/// The manifest: not fixable, for `Str` nodes.
pub fn get_manifest() -> (r: RuleManifest)
    ensures
        r.name@ == RULE_ID@,
        r.version@ == VERSION@,
        opt_string_chars(r.description) == Some("Check sentence length"@),
        !r.fixable,
        views(r.node_types@) == seq!["Str"@],
        r.languages@.len() == 0,
        r.capabilities@.len() == 0,
{
    let node_types = vec!["Str".to_owned()];
    assert(views(node_types@) =~= seq!["Str"@]);
    RuleManifest::new(RULE_ID, VERSION).with_description("Check sentence length").with_fixable(false).with_node_types(
        node_types,
    )
}

/// `Sentence is too long (120 characters). Maximum allowed is 100.`
pub open spec fn length_message(count: int, max: usize) -> Seq<char> {
    "Sentence is too long ("@ + decimal(count as nat) + " characters). Maximum allowed is "@ + decimal(
        max as nat,
    ) + "."@
}

/// The reports for the sentences of `text` (character ranges `rs`) longer than `max`, with
/// spans shifted by `base`.
pub open spec fn long_reports(base: int, text: Seq<char>, rs: Seq<(int, int)>, max: usize) -> Seq<DiagView>
    decreases rs.len(),
{
    if rs.len() == 0 {
        seq![]
    } else {
        let rest = long_reports(base, text, rs.drop_last(), max);
        let r = rs.last();
        if r.1 - r.0 > max {
            rest.push(
                (
                    RULE_ID@,
                    length_message(r.1 - r.0, max),
                    Span { start: (base + byte_at(text, r.0)) as u32, end: (base + byte_at(text, r.1)) as u32 },
                    Severity::Warning,
                    None,
                ),
            )
        } else {
            rest
        }
    }
}

/// The reports for a request: each sentence of a `Str` node's text (see [`get_sentences`])
/// longer than `max` characters.
pub open spec fn length_reports(req: LintRequest, max: usize) -> Seq<DiagView> {
    if node_type(req.node) != Some("Str"@) {
        seq![]
    } else {
        match node_text(req.node, req.source@) {
            Some((s, e, text)) => long_reports(s as int, text, sentence_ranges(text, 0), max),
            None => seq![],
        }
    }
}

/// Report each sentence of a `Str` node's text longer than `config.max` characters.
pub fn lint(request: &LintRequest, config: &Config) -> (r: LintResponse)
    requires
        fits_usize(request.source@),
        node_type(request.node) == Some("Str"@) ==> node_range_ok(request.node, request.source@),
    ensures
        diag_views(r.diagnostics@) == length_reports(*request, config.max),
{
    let mut diagnostics: Vec<Diagnostic> = Vec::new();
    if !is_node_type(&request.node, "Str") {
        return LintResponse { diagnostics };
    }
    if let Some((start, _end, text)) = extract_node_text(&request.node, request.source.as_str()) {
        proof {
            let src = request.source@;
            let ks = index_of_byte(src, start as int);
            let ke = index_of_byte(src, _end as int);
            if ke < ks {
                lemma_byte_at_strict(src, ke, ks);
            }
            crate::text::lemma_byte_len_subrange_le(src, ks, ke);
        }
        let sentences = get_sentences(text);
        let ghost rs = sentence_ranges(text@, 0);
        let mut i: usize = 0;
        while i < sentences.len()
            invariant
                rs == sentence_ranges(text@, 0),
                sentences@.len() == rs.len(),
                forall|k: int| 0 <= k < sentences@.len() ==> is_sentence_of(#[trigger] sentences@[k], text@, rs[k]),
                i <= sentences@.len(),
                diag_views(diagnostics@) == long_reports(start as int, text@, rs.take(i as int), config.max),
            decreases sentences.len() - i,
        {
            let sentence = &sentences[i];
            proof {
                assert(rs.take(i + 1).drop_last() =~= rs.take(i as int));
                assert(rs.take(i + 1).last() == rs[i as int]);
                assert(is_sentence_of(sentences@[i as int], text@, rs[i as int]));
            }
            if sentence.char_count > config.max {
                let mut message = String::new();
                push_str(&mut message, "Sentence is too long (");
                push_decimal(&mut message, sentence.char_count);
                push_str(&mut message, " characters). Maximum allowed is ");
                push_decimal(&mut message, config.max);
                push_str(&mut message, ".");
                // Widened so that the sums cannot overflow; the offsets lie inside the source.
                let s = (start as u128 + sentence.start as u128) as u32;
                let e = (start as u128 + sentence.end as u128) as u32;
                let d = Diagnostic::warning(RULE_ID, message.as_str(), Span::new(s, e));
                let ghost before = diag_views(diagnostics@);
                diagnostics.push(d);
                assert(diag_views(diagnostics@) =~= before.push(diag_view(d)));
            }
            i = i + 1;
        }
        assert(rs.take(i as int) =~= rs);
    }
    LintResponse { diagnostics }
}

} // verus!
