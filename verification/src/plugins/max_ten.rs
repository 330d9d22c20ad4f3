//! The max-ten plugin: a sentence should not use more than `max` commas (読点). A comma
//! between two nouns (brackets skipped) is an enumeration and does not count unless `strict`.
use vstd::prelude::*;
use crate::json::{views, JsonValue};
use crate::pdk::request::{is_node_type, node_type};
use crate::pdk::types::{
    opt_string_chars, Capability, Diagnostic, KnownLanguage, LintRequest, LintResponse,
    RuleManifest, Severity, Span, Token,
};
use crate::plugins::config::{
    bool_field, read_bool_field, read_string_field, read_usize_field, string_field, usize_field,
};
use crate::plugins::no_doubled_joshi::{
    diag_views, lemma_tag, tag, tok_view, tok_views, DiagView, TokView,
};
use crate::text::{decimal, occurs_at, push_decimal, push_str, starts_with_chars, str_chars, str_eq};

verus! {

pub const RULE_ID: &'static str = "max-ten";

pub const VERSION: &'static str = "1.0.0";

pub const DEFAULT_MAX_TEN: usize = 3;

pub const DEFAULT_TOUTEN: &'static str = "、";

pub const DEFAULT_KUTEN: &'static str = "。";

/// The plugin's options.
#[derive(Debug)]
pub struct Config {
    /// Most commas allowed in one sentence.
    pub max: usize,
    /// Count commas between nouns too.
    pub strict: bool,
    /// The comma counted.
    pub touten: String,
    /// The period that ends a sentence (besides `? ! ？ ！`).
    pub kuten: String,
}

/// The options as plain values: max, strict, comma, period.
pub type TenConfig = (usize, bool, Seq<char>, Seq<char>);

impl View for Config {
    type V = TenConfig;

    open spec fn view(&self) -> TenConfig {
        (self.max, self.strict, self.touten@, self.kuten@)
    }
}

pub fn default_max() -> (n: usize)
    ensures
        n == DEFAULT_MAX_TEN,
{
    DEFAULT_MAX_TEN
}

pub fn default_touten() -> (s: String)
    ensures
        s@ == DEFAULT_TOUTEN@,
{
    DEFAULT_TOUTEN.to_owned()
}

pub fn default_kuten() -> (s: String)
    ensures
        s@ == DEFAULT_KUTEN@,
{
    DEFAULT_KUTEN.to_owned()
}

/// The default options: at most three commas, nouns' commas exempt, 「、」 and 「。」.
pub open spec fn default_config() -> TenConfig {
    (DEFAULT_MAX_TEN, false, DEFAULT_TOUTEN@, DEFAULT_KUTEN@)
}

impl Default for Config {
    fn default() -> (r: Config)
        ensures
            r@ == default_config(),
    {
        Config { max: default_max(), strict: false, touten: default_touten(), kuten: default_kuten() }
    }
}

/// Whether the options object `v` is valid: an object whose known fields have their types.
pub open spec fn config_ok(v: JsonValue) -> bool {
    &&& v is Object
    &&& usize_field(v, "max"@, DEFAULT_MAX_TEN) is Some
    &&& bool_field(v, "strict"@, false) is Some
    &&& string_field(v, "touten"@, DEFAULT_TOUTEN@) is Some
    &&& string_field(v, "kuten"@, DEFAULT_KUTEN@) is Some
}

/// The options `v` describes, or the defaults when it is not a valid options object.
pub open spec fn config_of(v: JsonValue) -> TenConfig {
    if config_ok(v) {
        (
            usize_field(v, "max"@, DEFAULT_MAX_TEN).unwrap(),
            bool_field(v, "strict"@, false).unwrap(),
            string_field(v, "touten"@, DEFAULT_TOUTEN@).unwrap(),
            string_field(v, "kuten"@, DEFAULT_KUTEN@).unwrap(),
        )
    } else {
        default_config()
    }
}

impl Config {
    /// The options `v` describes, or the defaults when it is not a valid options object.
    pub fn from_json_or_default(v: &JsonValue) -> (r: Config)
        ensures
            r@ == config_of(*v),
    {
        match v {
            JsonValue::Object(_) => {},
            _ => {
                return Config::default();
            },
        }
        let max = match read_usize_field(v, "max", DEFAULT_MAX_TEN) {
            Some(n) => n,
            None => {
                return Config::default();
            },
        };
        let strict = match read_bool_field(v, "strict", false) {
            Some(b) => b,
            None => {
                return Config::default();
            },
        };
        let touten = match read_string_field(v, "touten", DEFAULT_TOUTEN) {
            Some(s) => s,
            None => {
                return Config::default();
            },
        };
        let kuten = match read_string_field(v, "kuten", DEFAULT_KUTEN) {
            Some(s) => s,
            None => {
                return Config::default();
            },
        };
        Config { max, strict, touten, kuten }
    }
}

/// The manifest: not fixable, for `Str` nodes, Japanese, needing morphology.
pub fn get_manifest() -> (r: RuleManifest)
    ensures
        r.name@ == RULE_ID@,
        r.version@ == VERSION@,
        opt_string_chars(r.description) == Some(
            "Limit the number of Japanese commas (読点) in a single sentence"@,
        ),
        !r.fixable,
        views(r.node_types@) == seq!["Str"@],
        r.languages@ == seq![KnownLanguage::Ja],
        r.capabilities@ == seq![Capability::Morphology],
{
    let node_types = vec!["Str".to_owned()];
    assert(views(node_types@) =~= seq!["Str"@]);
    RuleManifest::new(RULE_ID, VERSION).with_description(
        "Limit the number of Japanese commas (読点) in a single sentence",
    ).with_fixable(false).with_node_types(node_types).with_languages(vec![KnownLanguage::Ja]).with_capabilities(
        vec![Capability::Morphology],
    )
}

/// A bracket token: a symbol (記号) whose subtype starts with 括弧, or `(` / `)`.
pub open spec fn kakko(t: TokView) -> bool {
    ||| tag(t.1, 0) == Some("記号"@) && match tag(t.1, 1) {
        Some(s) => occurs_at(s, 0, "括弧"@),
        None => false,
    }
    ||| t.0 == "("@
    ||| t.0 == ")"@
}

/// The nearest token at or before `j` that is not a bracket.
pub open spec fn sibling_left(ts: Seq<TokView>, j: int) -> Option<int>
    decreases j + 1,
{
    if j < 0 || j >= ts.len() {
        None
    } else if kakko(ts[j]) {
        sibling_left(ts, j - 1)
    } else {
        Some(j)
    }
}

/// The nearest token at or after `j` that is not a bracket.
pub open spec fn sibling_right(ts: Seq<TokView>, j: int) -> Option<int>
    decreases ts.len() - j,
{
    if j < 0 || j >= ts.len() {
        None
    } else if kakko(ts[j]) {
        sibling_right(ts, j + 1)
    } else {
        Some(j)
    }
}

proof fn lemma_sibling_left(ts: Seq<TokView>, j: int)
    ensures
        sibling_left(ts, j) matches Some(k) ==> 0 <= k <= j && k < ts.len(),
    decreases j + 1,
{
    if 0 <= j < ts.len() && kakko(ts[j]) {
        lemma_sibling_left(ts, j - 1);
    }
}

proof fn lemma_sibling_right(ts: Seq<TokView>, j: int)
    ensures
        sibling_right(ts, j) matches Some(k) ==> 0 <= j <= k < ts.len(),
    decreases ts.len() - j,
{
    if 0 <= j < ts.len() && kakko(ts[j]) {
        lemma_sibling_right(ts, j + 1);
    }
}

/// Whether the token at `i` sits between two nouns (brackets skipped).
pub open spec fn sandwiched(ts: Seq<TokView>, i: int) -> bool {
    match (sibling_left(ts, i - 1), sibling_right(ts, i + 1)) {
        (Some(b), Some(a)) => tag(ts[b].1, 0) == Some("名詞"@) && tag(ts[a].1, 0) == Some("名詞"@),
        _ => false,
    }
}

/// Whether a token's surface ends a sentence.
pub open spec fn ends_sentence(s: Seq<char>, cfg: TenConfig) -> bool {
    s == "?"@ || s == "!"@ || s == "？"@ || s == "！"@ || s == cfg.3
}

/// The scan over the first `n` tokens: the commas counted in the current sentence, the span of
/// the last comma counted, and the spans reported so far.
pub open spec fn ten_scan(ts: Seq<TokView>, cfg: TenConfig, n: int) -> (int, Option<(u32, u32)>, Seq<(u32, u32)>)
    decreases n,
{
    if n <= 0 {
        (0, None, seq![])
    } else {
        let (c0, l0, r0) = ten_scan(ts, cfg, n - 1);
        let t = ts[n - 1];
        if t.0 == cfg.2 && !cfg.1 && sandwiched(ts, n - 1) {
            (c0, l0, r0)
        } else {
            let c1 = if t.0 == cfg.2 {
                c0 + 1
            } else {
                c0
            };
            let l1 = if t.0 == cfg.2 {
                Some((t.2, t.3))
            } else {
                l0
            };
            let c2 = if ends_sentence(t.0, cfg) {
                0
            } else {
                c1
            };
            if c2 > cfg.0 {
                (
                    0,
                    l1,
                    match l1 {
                        Some(sp) => r0.push(sp),
                        None => r0,
                    },
                )
            } else {
                (c2, l1, r0)
            }
        }
    }
}

/// `一つの文で"、"を4つ以上使用しています` for `max` 3.
pub open spec fn ten_message(cfg: TenConfig) -> Seq<char> {
    "一つの文で\""@ + cfg.2 + "\"を"@ + decimal((cfg.0 + 1) as nat) + "つ以上使用しています"@
}

/// The report at a comma span.
pub open spec fn ten_report(sp: (u32, u32), cfg: TenConfig) -> DiagView {
    (RULE_ID@, ten_message(cfg), Span { start: sp.0, end: sp.1 }, Severity::Error, None)
}

/// The reports for a request: none unless its node is a `Str`.
pub open spec fn ten_reports(req: LintRequest) -> Seq<DiagView> {
    if node_type(req.node) != Some("Str"@) {
        seq![]
    } else {
        let ts = tok_views(req.spec_tokens());
        let cfg = config_of(req.config);
        ten_scan(ts, cfg, ts.len() as int).2.map_values(|sp: (u32, u32)| ten_report(sp, cfg))
    }
}

/// The token at `i` is a comma that counts: not one between two nouns unless `strict`.
pub open spec fn counted_comma(ts: Seq<TokView>, cfg: TenConfig, i: int) -> bool {
    ts[i].0 == cfg.2 && (cfg.1 || !sandwiched(ts, i))
}

/// Only counted commas are reported: with `strict` off, a comma between two nouns (an
/// enumeration) is never reported.
pub proof fn law_only_counted_commas_are_reported(ts: Seq<TokView>, cfg: TenConfig, n: int)
    requires
        0 <= n <= ts.len(),
    ensures
        forall|k: int|
            0 <= k < ten_scan(ts, cfg, n).2.len() ==> exists|i: int|
                0 <= i < n && counted_comma(ts, cfg, i) && #[trigger] ten_scan(ts, cfg, n).2[k] == (
                    ts[i].2,
                    ts[i].3,
                ),
        ten_scan(ts, cfg, n).1 matches Some(sp) ==> exists|i: int|
            0 <= i < n && counted_comma(ts, cfg, i) && sp == (ts[i].2, ts[i].3),
    decreases n,
{
    if n > 0 {
        law_only_counted_commas_are_reported(ts, cfg, n - 1);
        let (_, l0, r0) = ten_scan(ts, cfg, n - 1);
        let (_, l, r) = ten_scan(ts, cfg, n);
        let t = ts[n - 1];
        assert forall|k: int| 0 <= k < r.len() implies exists|i: int|
            0 <= i < n && counted_comma(ts, cfg, i) && #[trigger] r[k] == (ts[i].2, ts[i].3) by {
            if k < r0.len() && r[k] == r0[k] {
                let i = choose|i: int| 0 <= i < n - 1 && counted_comma(ts, cfg, i) && #[trigger] r0[k] == (ts[i].2, ts[i].3);
                assert(0 <= i < n && counted_comma(ts, cfg, i) && r[k] == (ts[i].2, ts[i].3));
            } else if t.0 == cfg.2 {
                assert(counted_comma(ts, cfg, n - 1));
                assert(r[k] == (t.2, t.3));
            } else {
                let i = choose|i: int| 0 <= i < n - 1 && counted_comma(ts, cfg, i) && l0 == Some((ts[i].2, ts[i].3));
                assert(r[k] == l0.unwrap());
                assert(0 <= i < n && counted_comma(ts, cfg, i) && r[k] == (ts[i].2, ts[i].3));
            }
        }
        if let Some(sp) = l {
            if !(t.0 == cfg.2 && !cfg.1 && sandwiched(ts, n - 1)) && t.0 == cfg.2 {
                assert(counted_comma(ts, cfg, n - 1));
            } else {
                let i = choose|i: int| 0 <= i < n - 1 && counted_comma(ts, cfg, i) && l0 == Some((ts[i].2, ts[i].3));
                assert(0 <= i < n && counted_comma(ts, cfg, i) && sp == (ts[i].2, ts[i].3));
            }
        }
    }
}

/// Whether the token is a bracket (see [`kakko`]).
pub fn is_kakko(token: &Token) -> (b: bool)
    ensures
        b == kakko(tok_view(*token)),
{
    let sym = match token.major_pos() {
        Some(m) => str_eq(m, "記号"),
        None => false,
    };
    if sym {
        if let Some(detail) = token.pos_detail(1) {
            let d = str_chars(detail);
            let p = str_chars("括弧");
            if starts_with_chars(d.as_slice(), p.as_slice()) {
                return true;
            }
        }
    }
    str_eq(token.surface.as_str(), "(") || str_eq(token.surface.as_str(), ")")
}

/// The nearest token after (`direction` 1) or before (`direction` -1) `current_index` that is
/// not a bracket.
pub fn find_sibling_meaning_token(tokens: &[Token], current_index: usize, direction: isize) -> (r: Option<&Token>)
    requires
        direction == 1 || direction == -1,
        current_index <= isize::MAX,
    ensures
        match (if direction == 1 {
            sibling_right(tok_views(tokens@), current_index + 1)
        } else {
            sibling_left(tok_views(tokens@), current_index - 1)
        }) {
            Some(j) => r.is_some() && *r.unwrap() == tokens@[j],
            None => r.is_none(),
        },
{
    let ghost ts = tok_views(tokens@);
    if direction == 1 {
        let mut idx: usize = current_index;
        if idx >= tokens.len() {
            return None;
        }
        idx = idx + 1;
        while idx < tokens.len()
            invariant
                ts == tok_views(tokens@),
                direction == 1,
                current_index + 1 <= idx,
                sibling_right(ts, current_index + 1) == sibling_right(ts, idx as int),
            decreases tokens.len() - idx,
        {
            assert(ts[idx as int] == tok_view(tokens@[idx as int]));
            if is_kakko(&tokens[idx]) {
                idx = idx + 1;
            } else {
                return Some(&tokens[idx]);
            }
        }
        None
    } else {
        if current_index == 0 {
            return None;
        }
        let mut idx: usize = current_index - 1;
        loop
            invariant
                ts == tok_views(tokens@),
                direction == -1,
                idx < current_index,
                sibling_left(ts, current_index - 1) == sibling_left(ts, idx as int),
            decreases idx,
        {
            if idx >= tokens.len() {
                return None;
            }
            assert(ts[idx as int] == tok_view(tokens@[idx as int]));
            if !is_kakko(&tokens[idx]) {
                return Some(&tokens[idx]);
            }
            if idx == 0 {
                assert(sibling_left(ts, -1).is_none());
                return None;
            }
            idx = idx - 1;
        }
    }
}

/// Whether the comma at `index` sits between two nouns (brackets skipped).
pub fn is_sandwiched_meishi(tokens: &[Token], index: usize) -> (b: bool)
    requires
        index <= isize::MAX,
    ensures
        b == sandwiched(tok_views(tokens@), index as int),
{
    let ghost ts = tok_views(tokens@);
    let before = find_sibling_meaning_token(tokens, index, -1);
    let after = find_sibling_meaning_token(tokens, index, 1);
    match (before, after) {
        (Some(b), Some(a)) => {
            proof {
                lemma_tag(*b, 0);
                lemma_tag(*a, 0);
                lemma_sibling_left(ts, index - 1);
                lemma_sibling_right(ts, index + 1);
                let jb = sibling_left(ts, index - 1).unwrap();
                let ja = sibling_right(ts, index + 1).unwrap();
                assert(ts[jb] == tok_view(tokens@[jb]));
                assert(ts[ja] == tok_view(tokens@[ja]));
            }
            b.is_noun() && a.is_noun()
        },
        _ => false,
    }
}

/// Whether the surface ends a sentence.
fn ends_sentence_exec(surface: &str, config: &Config) -> (b: bool)
    ensures
        b == ends_sentence(surface@, config@),
{
    str_eq(surface, "?") || str_eq(surface, "!") || str_eq(surface, "？") || str_eq(surface, "！") || str_eq(
        surface,
        config.kuten.as_str(),
    )
}

/// Report the comma that makes a sentence exceed `max` commas.
///
/// Commas are counted token by token and the count restarts after `? ! ？ ！` and the
/// configured period; a comma between two nouns is skipped unless `strict`. Each time the count
/// exceeds `max`, the last comma counted is reported and the count restarts.
pub fn do_lint(request: &LintRequest) -> (r: LintResponse)
    requires
        request.spec_tokens().len() <= isize::MAX,
    ensures
        diag_views(r.diagnostics@) == ten_reports(*request),
{
    let mut diagnostics: Vec<Diagnostic> = Vec::new();
    if !is_node_type(&request.node, "Str") {
        return LintResponse { diagnostics };
    }
    let config = Config::from_json_or_default(&request.config);
    let tokens = request.get_tokens();
    let ghost ts = tok_views(tokens@);
    let ghost cfg = config@;
    let mut current_ten_count: usize = 0;
    let mut last_touten_span: Option<(u32, u32)> = None;
    let mut index: usize = 0;
    while index < tokens.len()
        invariant
            ts == tok_views(tokens@),
            cfg == config@,
            tokens@.len() <= isize::MAX,
            index <= tokens@.len(),
            current_ten_count <= index,
            ten_scan(ts, cfg, index as int).0 == current_ten_count,
            ten_scan(ts, cfg, index as int).1 == last_touten_span,
            ten_scan(ts, cfg, index as int).2.map_values(|sp: (u32, u32)| ten_report(sp, cfg)) == diag_views(
                diagnostics@,
            ),
        decreases tokens.len() - index,
    {
        let token = &tokens[index];
        let surface = token.surface.as_str();
        proof {
            assert(ts[index as int] == tok_view(*token));
        }
        let is_touten = str_eq(surface, config.touten.as_str());
        if is_touten && !config.strict && is_sandwiched_meishi(tokens, index) {
            index = index + 1;
            continue;
        }
        if is_touten {
            current_ten_count = current_ten_count + 1;
            last_touten_span = Some((token.span.start, token.span.end));
        }
        if ends_sentence_exec(surface, &config) {
            current_ten_count = 0;
        }
        if current_ten_count > config.max {
            if let Some((start, end)) = last_touten_span {
                let mut message = String::new();
                push_str(&mut message, "一つの文で\"");
                push_str(&mut message, config.touten.as_str());
                push_str(&mut message, "\"を");
                push_decimal(&mut message, config.max + 1);
                push_str(&mut message, "つ以上使用しています");
                let d = Diagnostic::new(RULE_ID, message.as_str(), Span::new(start, end));
                let ghost before = diag_views(diagnostics@);
                proof {
                    assert(message@ == ten_message(cfg));
                    assert(diag_views(seq![d]) =~= seq![ten_report((start, end), cfg)]);
                }
                diagnostics.push(d);
                assert(diag_views(diagnostics@) =~= before.push(ten_report((start, end), cfg)));
            }
            current_ten_count = 0;
        }
        index = index + 1;
    }
    LintResponse { diagnostics }
}

} // verus!
