//! The no-doubled-joshi plugin: a particle (助詞) used twice in one sentence makes it hard to
//! read. Particles are grouped by surface and part of speech; within a group, two neighbours
//! closer than `min_interval` (commas and brackets between them count as distance, a sentence
//! separator between them makes them unrelated) are reported at the later one.
use vstd::prelude::*;
use crate::json::{views, JsonValue};
use crate::pdk::request::{
    boundary_in, extract_node_text, is_node_type, node_range_ok, node_text, node_type,
};
use crate::pdk::types::{
    opt_string_chars, string_at, Capability, Diagnostic, Fix, KnownLanguage, LintRequest,
    LintResponse, RuleManifest, Severity, Span, Token,
};
use crate::plugins::config::{
    bool_field, in_strings, owned_strings, read_bool_field, read_strings_field,
    read_usize_field, strings_contain, strings_field, usize_field,
};
use crate::text::{
    byte_len, byte_offsets, find_index_of_byte, fits_usize, index_of_byte, is_boundary,
    lemma_byte_at_strict, push_char, push_str, str_chars, str_eq,
};

verus! {

pub const RULE_ID: &'static str = "no-doubled-joshi";

pub const VERSION: &'static str = "1.0.0";

/// The default sentence separators.
pub open spec fn default_separators() -> Seq<Seq<char>> {
    seq!["."@, "．"@, "。"@, "?"@, "!"@, "？"@, "！"@]
}

/// The default commas.
pub open spec fn default_commas() -> Seq<Seq<char>> {
    seq!["、"@, "，"@]
}

/// The plugin's options.
#[derive(Debug)]
pub struct Config {
    /// Minimum distance between two equal particles.
    pub min_interval: usize,
    /// Disables the exceptions (の・を・て, parallel particles, 〜かどうか).
    pub strict: bool,
    /// Particles never reported.
    pub allow: Vec<String>,
    /// Characters that end a sentence.
    pub separator_characters: Vec<String>,
    /// Characters that add one to the distance.
    pub comma_characters: Vec<String>,
    /// Whether to suggest deleting the repeated particle.
    pub suggest_fix: bool,
}

pub fn default_min_interval() -> (n: usize)
    ensures
        n == 1,
{
    1
}

pub fn default_separator_characters() -> (r: Vec<String>)
    ensures
        views(r@) == default_separators(),
{
    let r = owned_strings(&[".", "．", "。", "?", "!", "？", "！"]);
    assert(views(r@) =~= default_separators());
    r
}

pub fn default_comma_characters() -> (r: Vec<String>)
    ensures
        views(r@) == default_commas(),
{
    let r = owned_strings(&["、", "，"]);
    assert(views(r@) =~= default_commas());
    r
}

impl Default for Config {
    /// Distance 1, exceptions on, nothing allowed, the default separators and commas, no fix.
    fn default() -> (r: Config)
        ensures
            r.is_default(),
    {
        Config {
            min_interval: default_min_interval(),
            strict: false,
            allow: Vec::new(),
            separator_characters: default_separator_characters(),
            comma_characters: default_comma_characters(),
            suggest_fix: false,
        }
    }
}

/// Whether the options object `v` is valid: an object whose known fields have their types.
pub open spec fn config_ok(v: JsonValue) -> bool {
    &&& v is Object
    &&& usize_field(v, "min_interval"@, 1) is Some
    &&& bool_field(v, "strict"@, false) is Some
    &&& strings_field(v, "allow"@, seq![]) is Some
    &&& strings_field(v, "separator_characters"@, default_separators()) is Some
    &&& strings_field(v, "comma_characters"@, default_commas()) is Some
    &&& bool_field(v, "suggest_fix"@, false) is Some
}

impl Config {
    pub open spec fn is_default(&self) -> bool {
        &&& self.min_interval == 1
        &&& !self.strict
        &&& self.allow@.len() == 0
        &&& views(self.separator_characters@) == default_separators()
        &&& views(self.comma_characters@) == default_commas()
        &&& !self.suggest_fix
    }

    /// The options `v` describes (each field or its default).
    pub open spec fn read_from(&self, v: JsonValue) -> bool {
        &&& Some(self.min_interval) == usize_field(v, "min_interval"@, 1)
        &&& Some(self.strict) == bool_field(v, "strict"@, false)
        &&& Some(views(self.allow@)) == strings_field(v, "allow"@, seq![])
        &&& Some(views(self.separator_characters@)) == strings_field(
            v,
            "separator_characters"@,
            default_separators(),
        )
        &&& Some(views(self.comma_characters@)) == strings_field(v, "comma_characters"@, default_commas())
        &&& Some(self.suggest_fix) == bool_field(v, "suggest_fix"@, false)
    }

    /// The options of a configuration object, or `None` when it is not a valid one.
    pub fn from_json(v: &JsonValue) -> (r: Option<Config>)
        ensures
            r.is_some() == config_ok(*v),
            r matches Some(c) ==> c.read_from(*v),
    {
        match v {
            JsonValue::Object(_) => {},
            _ => {
                return None;
            },
        }
        let min_interval = match read_usize_field(v, "min_interval", 1) {
            Some(n) => n,
            None => {
                return None;
            },
        };
        let strict = match read_bool_field(v, "strict", false) {
            Some(b) => b,
            None => {
                return None;
            },
        };
        let no_strings: Vec<String> = Vec::new();
        assert(views(no_strings@) =~= Seq::<Seq<char>>::empty());
        let allow = match read_strings_field(v, "allow", no_strings) {
            Some(a) => a,
            None => {
                return None;
            },
        };
        let separator_characters = match read_strings_field(
            v,
            "separator_characters",
            default_separator_characters(),
        ) {
            Some(a) => a,
            None => {
                return None;
            },
        };
        let comma_characters = match read_strings_field(v, "comma_characters", default_comma_characters()) {
            Some(a) => a,
            None => {
                return None;
            },
        };
        let suggest_fix = match read_bool_field(v, "suggest_fix", false) {
            Some(b) => b,
            None => {
                return None;
            },
        };
        Some(Config { min_interval, strict, allow, separator_characters, comma_characters, suggest_fix })
    }

    /// The options the host configured, or the defaults when it sent none or an invalid one.
    pub fn from_host(v: Option<&JsonValue>) -> (r: Config)
        ensures
            match v {
                Some(j) => if config_ok(*j) {
                    r.read_from(*j)
                } else {
                    r.is_default()
                },
                None => r.is_default(),
            },
    {
        match v {
            Some(j) => match Config::from_json(j) {
                Some(c) => c,
                None => Config::default(),
            },
            None => Config::default(),
        }
    }
}

/// A token by its surface, part-of-speech tags and span.
pub type TokView = (Seq<char>, Seq<Seq<char>>, u32, u32);

pub open spec fn tok_view(t: Token) -> TokView {
    (t.surface@, views(t.pos@), t.span.start, t.span.end)
}

pub open spec fn tok_views(ts: Seq<Token>) -> Seq<TokView> {
    ts.map_values(|t: Token| tok_view(t))
}

/// Tag `i` of `tags`, or empty.
pub open spec fn tag_or_empty(tags: Seq<Seq<char>>, i: int) -> Seq<char> {
    if 0 <= i < tags.len() {
        tags[i]
    } else {
        seq![]
    }
}

/// Tag `i` of `tags`, if there is one.
pub open spec fn tag(tags: Seq<Seq<char>>, i: int) -> Option<Seq<char>> {
    if 0 <= i < tags.len() {
        Some(tags[i])
    } else {
        None
    }
}

/// `surface:major` or `surface:major.subtype`.
pub open spec fn key_of(t: TokView) -> Seq<char> {
    let major = tag_or_empty(t.1, 0);
    let sub = tag_or_empty(t.1, 1);
    if sub.len() == 0 {
        t.0 + ":"@ + major
    } else {
        t.0 + ":"@ + major + "."@ + sub
    }
}

/// の (連体化), を (格助詞) and て (接続助詞) may repeat.
pub open spec fn exception_of(t: TokView) -> bool {
    let sub = tag(t.1, 1);
    ||| t.0 == "の"@ && sub == Some("連体化"@)
    ||| t.0 == "を"@ && sub == Some("格助詞"@)
    ||| t.0 == "て"@ && sub == Some("接続助詞"@)
}

/// Whether the token is a particle the rule considers.
pub open spec fn kept(t: TokView, cfg: Config) -> bool {
    &&& tag(t.1, 0) == Some("助詞"@)
    &&& !in_strings(cfg.allow@, t.0)
    &&& cfg.strict || !exception_of(t)
}

/// A particle by its surface, grouping key, byte start, byte end, token index, the previous
/// token's surface, and its part-of-speech subtype.
pub type ParticleView = (Seq<char>, Seq<char>, int, int, int, Seq<char>, Option<Seq<char>>);

/// The particle the token at `i` gives.
pub open spec fn particle_at(ts: Seq<TokView>, i: int) -> ParticleView {
    (
        ts[i].0,
        key_of(ts[i]),
        ts[i].2 as int,
        ts[i].3 as int,
        i,
        if i == 0 {
            seq![]
        } else {
            ts[i - 1].0
        },
        tag(ts[i].1, 1),
    )
}

/// The particles among the first `n` tokens, in order.
pub open spec fn particles_upto(ts: Seq<TokView>, cfg: Config, n: int) -> Seq<ParticleView>
    decreases n,
{
    if n <= 0 {
        seq![]
    } else if kept(ts[n - 1], cfg) {
        particles_upto(ts, cfg, n - 1).push(particle_at(ts, n - 1))
    } else {
        particles_upto(ts, cfg, n - 1)
    }
}

/// The particles among `ts`, in order.
pub open spec fn particles(ts: Seq<TokView>, cfg: Config) -> Seq<ParticleView> {
    particles_upto(ts, cfg, ts.len() as int)
}

/// `c` followed directly by `p`, as one compound particle (連語).
pub open spec fn merged(c: ParticleView, p: ParticleView) -> ParticleView {
    let s = c.0 + p.0;
    (s, s + ":連語"@, c.2, p.3, c.4, c.5, c.6)
}

/// Particles that directly follow one another (one ends where the next starts) merged into one.
pub open spec fn concat_adjacent(ps: Seq<ParticleView>) -> Seq<ParticleView>
    decreases ps.len(),
{
    if ps.len() == 0 {
        seq![]
    } else {
        let rest = concat_adjacent(ps.drop_last());
        let p = ps.last();
        if rest.len() > 0 && p.2 == rest.last().3 {
            rest.drop_last().push(merged(rest.last(), p))
        } else {
            rest.push(p)
        }
    }
}

/// 「〜かどうか」: two か particles with どう as the token between them.
pub open spec fn ka_douka(ms: Seq<ParticleView>, ts: Seq<TokView>) -> bool {
    &&& ms.len() == 2
    &&& ms[0].0 == "か"@
    &&& ms[1].0 == "か"@
    &&& ms[1].4 == ms[0].4 + 2
    &&& ms[0].4 + 1 < ts.len()
    &&& ts[ms[0].4 + 1].0 == "どう"@
}

/// Brackets add one to the distance.
pub open spec fn is_bracket(c: char) -> bool {
    c == '(' || c == ')' || c == '（' || c == '）' || c == '「' || c == '」'
}

/// What the characters of `w` add to the distance: one per comma, one per bracket.
pub open spec fn weight(w: Seq<char>, cfg: Config) -> nat
    decreases w.len(),
{
    if w.len() == 0 {
        0
    } else {
        weight(w.drop_last(), cfg) + (if in_strings(cfg.comma_characters@, seq![w.last()]) {
            1nat
        } else {
            0nat
        }) + (if is_bracket(w.last()) {
            1nat
        } else {
            0nat
        })
    }
}

/// Whether a sentence separator occurs in `w`.
pub open spec fn has_separator(w: Seq<char>, cfg: Config) -> bool {
    exists|i: int| 0 <= i < w.len() && in_strings(cfg.separator_characters@, seq![#[trigger] w[i]])
}

/// The distance between two particles in `src` (by byte offsets): 0 when they touch or
/// overlap, `usize::MAX` across a sentence separator, else the weight of the text between.
pub open spec fn interval_of(prev: ParticleView, curr: ParticleView, src: Seq<char>, cfg: Config) -> int {
    if curr.2 <= prev.3 {
        0
    } else {
        let w = src.subrange(index_of_byte(src, prev.3), index_of_byte(src, curr.2));
        if has_separator(w, cfg) {
            usize::MAX as int
        } else {
            weight(w, cfg) as int
        }
    }
}

/// Whether slicing `src` between the two particles is possible (it is needed only when the
/// later one starts after the earlier one ends).
pub open spec fn gap_ok(prev: ParticleView, curr: ParticleView, src: Seq<char>) -> bool {
    curr.2 > prev.3 ==> is_boundary(src, prev.3) && is_boundary(src, curr.2)
}

/// A text short enough that twice its byte length fits in a `usize` (true of every `str`,
/// whose length is at most `isize::MAX`).
pub open spec fn small_text(s: Seq<char>) -> bool {
    2 * byte_len(s) < usize::MAX
}

/// One line per particle of the message.
pub open spec fn message_line(p: ParticleView) -> Seq<char> {
    if p.5.len() == 0 {
        "- \""@ + p.0 + "\"\n"@
    } else {
        "- "@ + p.5 + "\""@ + p.0 + "\"\n"@
    }
}

pub open spec fn message_lines(ms: Seq<ParticleView>) -> Seq<char>
    decreases ms.len(),
{
    if ms.len() == 0 {
        seq![]
    } else {
        message_lines(ms.drop_last()) + message_line(ms.last())
    }
}

/// The message for the particle `name` repeated at `ms`.
pub open spec fn error_message(name: Seq<char>, ms: Seq<ParticleView>) -> Seq<char> {
    "一文に二回以上利用されている助詞 \""@ + name
        + "\" がみつかりました。\n\n次の助詞が連続しているため、文を読みにくくしています。\n\n"@
        + message_lines(ms)
        + "\n同じ助詞を連続して利用しない、文の中で順番を入れ替える、文を分割するなどを検討してください。\n"@
}

/// A diagnostic by its rule id, message, span, severity and fix (span and text).
pub type DiagView = (Seq<char>, Seq<char>, Span, Severity, Option<(Span, Seq<char>)>);

pub open spec fn diag_view(d: Diagnostic) -> DiagView {
    (
        d.rule_id@,
        d.message@,
        d.span,
        d.severity,
        match d.fix {
            Some(f) => Some((f.span, f.text@)),
            None => None,
        },
    )
}

pub open spec fn diag_views(ds: Seq<Diagnostic>) -> Seq<DiagView> {
    ds.map_values(|d: Diagnostic| diag_view(d))
}

/// The report at `curr`, repeated after `prev`.
pub open spec fn doubled_report(prev: ParticleView, curr: ParticleView, cfg: Config) -> DiagView {
    let span = Span { start: curr.2 as u32, end: curr.3 as u32 };
    (
        RULE_ID@,
        error_message(curr.0, seq![prev, curr]),
        span,
        Severity::Error,
        if cfg.suggest_fix {
            Some((span, seq![]))
        } else {
            None
        },
    )
}

/// Reports for the neighbours `(ms[i-1], ms[i])`, `i < n`, that are too close.
pub open spec fn pair_reports(ms: Seq<ParticleView>, src: Seq<char>, cfg: Config, n: int) -> Seq<DiagView>
    decreases n,
{
    if n <= 1 {
        seq![]
    } else if interval_of(ms[n - 2], ms[n - 1], src, cfg) < cfg.min_interval {
        pair_reports(ms, src, cfg, n - 1).push(doubled_report(ms[n - 2], ms[n - 1], cfg))
    } else {
        pair_reports(ms, src, cfg, n - 1)
    }
}

/// A group left alone: fewer than two, or (unless strict) two parallel particles or 〜かどうか.
pub open spec fn group_skipped(ms: Seq<ParticleView>, ts: Seq<TokView>, cfg: Config) -> bool {
    ||| ms.len() < 2
    ||| !cfg.strict && ms.len() == 2 && ms[0].6 == Some("並立助詞"@) && ms[1].6 == Some("並立助詞"@)
    ||| !cfg.strict && ka_douka(ms, ts)
}

/// The distinct keys among the first `n` particles, in order of first occurrence.
pub open spec fn keys_upto(ps: Seq<ParticleView>, n: int) -> Seq<Seq<char>>
    decreases n,
{
    if n <= 0 {
        seq![]
    } else if keys_upto(ps, n - 1).contains(ps[n - 1].1) {
        keys_upto(ps, n - 1)
    } else {
        keys_upto(ps, n - 1).push(ps[n - 1].1)
    }
}

/// The particles with key `k`, in order.
pub open spec fn with_key(ps: Seq<ParticleView>, k: Seq<char>) -> Seq<ParticleView>
    decreases ps.len(),
{
    if ps.len() == 0 {
        seq![]
    } else if ps.last().1 == k {
        with_key(ps.drop_last(), k).push(ps.last())
    } else {
        with_key(ps.drop_last(), k)
    }
}

/// The reports of one group.
pub open spec fn group_reports(ms: Seq<ParticleView>, ts: Seq<TokView>, src: Seq<char>, cfg: Config) -> Seq<DiagView> {
    if group_skipped(ms, ts, cfg) {
        seq![]
    } else {
        pair_reports(ms, src, cfg, ms.len() as int)
    }
}

/// The reports of the groups of the keys `ks`, group after group.
pub open spec fn keyed_reports(
    ps: Seq<ParticleView>,
    ks: Seq<Seq<char>>,
    ts: Seq<TokView>,
    src: Seq<char>,
    cfg: Config,
) -> Seq<DiagView>
    decreases ks.len(),
{
    if ks.len() == 0 {
        seq![]
    } else {
        keyed_reports(ps, ks.drop_last(), ts, src, cfg) + group_reports(with_key(ps, ks.last()), ts, src, cfg)
    }
}

/// Every report: group by group, in the order the groups' keys first occur.
pub open spec fn doubled_reports(ps: Seq<ParticleView>, ts: Seq<TokView>, src: Seq<char>, cfg: Config) -> Seq<
    DiagView,
> {
    keyed_reports(ps, keys_upto(ps, ps.len() as int), ts, src, cfg)
}

/// Whether every gap the reports measure can be sliced out of `src`.
pub open spec fn gaps_ok(ps: Seq<ParticleView>, ts: Seq<TokView>, src: Seq<char>, cfg: Config) -> bool {
    forall|k: Seq<char>|
        #![trigger with_key(ps, k)]
        keys_upto(ps, ps.len() as int).contains(k) && !group_skipped(with_key(ps, k), ts, cfg) ==> forall|
            i: int,
        |
            1 <= i < with_key(ps, k).len() ==> gap_ok(
                #[trigger] with_key(ps, k)[i - 1],
                with_key(ps, k)[i],
                src,
            )
}

/// A particle found in the node: its text, grouping key, byte range, token index, the
/// previous token's surface, and its part-of-speech subtype.
#[derive(Debug)]
pub struct ParticleInfo {
    pub surface: String,
    pub key: String,
    pub byte_start: usize,
    pub byte_end: usize,
    pub token_index: usize,
    pub prev_word: String,
    pub pos_subtype: Option<String>,
}

impl View for ParticleInfo {
    type V = ParticleView;

    open spec fn view(&self) -> ParticleView {
        (
            self.surface@,
            self.key@,
            self.byte_start as int,
            self.byte_end as int,
            self.token_index as int,
            self.prev_word@,
            opt_string_chars(self.pos_subtype),
        )
    }
}

pub open spec fn pviews(ps: Seq<ParticleInfo>) -> Seq<ParticleView> {
    ps.map_values(|p: ParticleInfo| p@)
}

pub open spec fn ref_views(ps: Seq<&ParticleInfo>) -> Seq<ParticleView> {
    ps.map_values(|p: &ParticleInfo| p@)
}

fn copy_opt_string(o: &Option<String>) -> (r: Option<String>)
    ensures
        opt_string_chars(r) == opt_string_chars(*o),
{
    match o {
        Some(s) => Some(s.clone()),
        None => None,
    }
}

impl ParticleInfo {
    /// A copy of the particle.
    pub fn duplicate(&self) -> (r: ParticleInfo)
        ensures
            r@ == self@,
    {
        ParticleInfo {
            surface: self.surface.clone(),
            key: self.key.clone(),
            byte_start: self.byte_start,
            byte_end: self.byte_end,
            token_index: self.token_index,
            prev_word: self.prev_word.clone(),
            pos_subtype: copy_opt_string(&self.pos_subtype),
        }
    }
}

pub proof fn lemma_tag(t: Token, i: int)
    ensures
        tag(tok_view(t).1, i) == string_at(t.pos@, i),
        tag_or_empty(tok_view(t).1, i) == match string_at(t.pos@, i) {
            Some(s) => s,
            None => seq![],
        },
{
}

/// The grouping key `surface:major` or `surface:major.subtype`.
pub fn create_particle_key(token: &Token) -> (r: String)
    ensures
        r@ == key_of(tok_view(*token)),
{
    proof {
        lemma_tag(*token, 0);
        lemma_tag(*token, 1);
    }
    let major = match token.major_pos() {
        Some(m) => m,
        None => "",
    };
    let subtype = match token.pos_detail(1) {
        Some(s) => s,
        None => "",
    };
    proof {
        reveal_strlit("");
    }
    let mut key = token.surface.clone();
    push_str(&mut key, ":");
    push_str(&mut key, major);
    if str_chars(subtype).len() > 0 {
        push_str(&mut key, ".");
        push_str(&mut key, subtype);
    }
    key
}

/// の (連体化), を (格助詞) and て (接続助詞) are allowed to repeat.
pub fn is_exception_particle(token: &Token) -> (b: bool)
    ensures
        b == exception_of(tok_view(*token)),
{
    proof {
        lemma_tag(*token, 1);
    }
    let surface = token.surface.as_str();
    match token.pos_detail(1) {
        Some(sub) => (str_eq(surface, "の") && str_eq(sub, "連体化")) || (str_eq(surface, "を") && str_eq(
            sub,
            "格助詞",
        )) || (str_eq(surface, "て") && str_eq(sub, "接続助詞")),
        None => false,
    }
}

/// Parallel particles (並立助詞: たり, や, か) list things and may repeat.
pub fn is_parallel_particle(token: &Token) -> (b: bool)
    ensures
        b == (tag(tok_view(*token).1, 1) == Some("並立助詞"@)),
{
    proof {
        lemma_tag(*token, 1);
    }
    match token.pos_detail(1) {
        Some(sub) => str_eq(sub, "並立助詞"),
        None => false,
    }
}

/// The surface of the token before `token_index`, or empty for the first token.
pub fn get_previous_word(_token: &Token, tokens: &[Token], token_index: usize) -> (r: String)
    requires
        token_index <= tokens@.len(),
    ensures
        r@ == if token_index == 0 {
            Seq::<char>::empty()
        } else {
            tokens@[token_index - 1].surface@
        },
{
    if token_index == 0 {
        return String::new();
    }
    tokens[token_index - 1].surface.clone()
}

/// The particles among `tokens` that the rule considers, in order.
pub fn extract_particles_from_tokens(tokens: &[Token], config: &Config) -> (r: Vec<ParticleInfo>)
    ensures
        pviews(r@) == particles(tok_views(tokens@), *config),
{
    let ghost ts = tok_views(tokens@);
    let mut out: Vec<ParticleInfo> = Vec::new();
    let mut idx: usize = 0;
    while idx < tokens.len()
        invariant
            ts == tok_views(tokens@),
            idx <= tokens@.len(),
            pviews(out@) == particles_upto(ts, *config, idx as int),
        decreases tokens.len() - idx,
    {
        let token = &tokens[idx];
        proof {
            lemma_tag(*token, 0);
            assert(ts[idx as int] == tok_view(*token));
        }
        let keep = token.is_particle() && !strings_contain(&config.allow, token.surface.as_str()) && (
        config.strict || !is_exception_particle(token));
        if keep {
            let key = create_particle_key(token);
            let prev_word = get_previous_word(token, tokens, idx);
            let sub = match token.pos_detail(1) {
                Some(s) => Some(s.to_owned()),
                None => None,
            };
            proof {
                lemma_tag(*token, 1);
                if idx > 0 {
                    assert(ts[idx - 1] == tok_view(tokens@[idx - 1]));
                }
            }
            let p = ParticleInfo {
                surface: token.surface.clone(),
                key,
                byte_start: token.span.start as usize,
                byte_end: token.span.end as usize,
                token_index: idx,
                prev_word,
                pos_subtype: sub,
            };
            let ghost before = out@;
            out.push(p);
            assert(pviews(out@) =~= pviews(before).push(particle_at(ts, idx as int)));
        }
        idx = idx + 1;
    }
    out
}

/// `c` followed directly by `p`, merged into one compound particle.
fn merge_particles(c: ParticleInfo, p: &ParticleInfo) -> (r: ParticleInfo)
    ensures
        r@ == merged(c@, p@),
{
    let mut surface = c.surface;
    push_str(&mut surface, p.surface.as_str());
    let mut key = surface.clone();
    push_str(&mut key, ":連語");
    ParticleInfo {
        surface,
        key,
        byte_start: c.byte_start,
        byte_end: p.byte_end,
        token_index: c.token_index,
        prev_word: c.prev_word,
        pos_subtype: c.pos_subtype,
    }
}

/// Particles that directly follow one another merge into one compound particle (連語), so
/// that 「には」 and 「には」 are compared as wholes.
pub fn concat_adjacent_particles(particles: Vec<ParticleInfo>) -> (r: Vec<ParticleInfo>)
    ensures
        pviews(r@) == concat_adjacent(pviews(particles@)),
{
    let ghost ps = pviews(particles@);
    let mut out: Vec<ParticleInfo> = Vec::new();
    let mut i: usize = 0;
    while i < particles.len()
        invariant
            ps == pviews(particles@),
            i <= particles@.len(),
            pviews(out@) == concat_adjacent(ps.take(i as int)),
        decreases particles.len() - i,
    {
        let p = &particles[i];
        proof {
            assert(ps.take(i + 1).drop_last() =~= ps.take(i as int));
            assert(ps.take(i + 1).last() == p@);
        }
        let n = out.len();
        if n > 0 && p.byte_start == out[n - 1].byte_end {
            let ghost before = pviews(out@);
            let c = out.pop().unwrap();
            proof {
                assert(pviews(out@) =~= before.drop_last());
                assert(c@ == before.last());
            }
            let m = merge_particles(c, p);
            out.push(m);
            assert(pviews(out@) =~= before.drop_last().push(merged(before.last(), p@)));
        } else {
            let ghost before = pviews(out@);
            out.push(p.duplicate());
            assert(pviews(out@) =~= before.push(p@));
        }
        i = i + 1;
    }
    assert(ps.take(i as int) =~= ps);
    out
}

/// 「〜かどうか」: exactly two か particles with どう as the token between them.
pub fn is_ka_douka_pattern(particles: &[&ParticleInfo], all_tokens: &[Token]) -> (b: bool)
    ensures
        b == ka_douka(ref_views(particles@), tok_views(all_tokens@)),
{
    if particles.len() != 2 {
        return false;
    }
    if !str_eq(particles[0].surface.as_str(), "か") || !str_eq(particles[1].surface.as_str(), "か") {
        return false;
    }
    let idx1 = particles[0].token_index;
    let idx2 = particles[1].token_index;
    if idx1 < usize::MAX - 1 && idx2 == idx1 + 2 && idx1 + 1 < all_tokens.len() {
        let middle = &all_tokens[idx1 + 1];
        if str_eq(middle.surface.as_str(), "どう") {
            return true;
        }
    }
    false
}

/// Whether the one-character string `c` is among `list`.
fn char_in_strings(list: &Vec<String>, c: char) -> (b: bool)
    ensures
        b == in_strings(list@, seq![c]),
{
    let mut s = String::new();
    push_char(&mut s, c);
    assert(s@ =~= seq![c]);
    strings_contain(list, s.as_str())
}

proof fn lemma_weight_bound(w: Seq<char>, cfg: Config)
    ensures
        weight(w, cfg) <= 2 * w.len(),
    decreases w.len(),
{
    if w.len() > 0 {
        lemma_weight_bound(w.drop_last(), cfg);
    }
}

proof fn lemma_len_le_bytes(s: Seq<char>)
    ensures
        s.len() <= byte_len(s),
    decreases s.len(),
{
    if s.len() > 0 {
        lemma_len_le_bytes(s.drop_last());
    }
}

/// The distance between two particles: 0 when they touch or overlap, `usize::MAX` when a
/// sentence separator lies between them, else one per comma and one per bracket between them.
pub fn calculate_interval(prev: &ParticleInfo, curr: &ParticleInfo, source: &str, config: &Config) -> (r: usize)
    requires
        small_text(source@),
        gap_ok(prev@, curr@, source@),
    ensures
        r == interval_of(prev@, curr@, source@, *config),
{
    if curr.byte_start <= prev.byte_end {
        return 0;
    }
    let cs = str_chars(source);
    let offs = byte_offsets(&cs);
    let a = find_index_of_byte(&offs, Ghost(cs@), prev.byte_end);
    let b = find_index_of_byte(&offs, Ghost(cs@), curr.byte_start);
    proof {
        if b < a {
            lemma_byte_at_strict(cs@, b as int, a as int);
        }
    }
    let ghost w = cs@.subrange(a as int, b as int);
    proof {
        crate::text::lemma_byte_len_subrange_le(cs@, a as int, b as int);
        lemma_len_le_bytes(w);
    }
    let mut interval: usize = 0;
    let mut i = a;
    while i < b
        invariant
            a <= i <= b <= cs@.len(),
            cs@ == source@,
            a == index_of_byte(source@, prev.byte_end as int),
            b == index_of_byte(source@, curr.byte_start as int),
            curr.byte_start > prev.byte_end,
            w == cs@.subrange(a as int, b as int),
            2 * w.len() < usize::MAX,
            forall|j: int| a <= j < i ==> !in_strings(config.separator_characters@, seq![#[trigger] cs@[j]]),
            interval == weight(cs@.subrange(a as int, i as int), *config),
        decreases b - i,
    {
        let c = cs[i];
        proof {
            assert(cs@.subrange(a as int, i + 1).drop_last() =~= cs@.subrange(a as int, i as int));
            lemma_weight_bound(cs@.subrange(a as int, i + 1), *config);
        }
        if char_in_strings(&config.separator_characters, c) {
            assert(w[i - a] == c);
            assert(in_strings(config.separator_characters@, seq![w[i - a]]));
            return usize::MAX;
        }
        if char_in_strings(&config.comma_characters, c) {
            interval = interval + 1;
        }
        if c == '(' || c == ')' || c == '（' || c == '）' || c == '「' || c == '」' {
            interval = interval + 1;
        }
        i = i + 1;
    }
    proof {
        assert(cs@.subrange(a as int, b as int) =~= w);
        assert forall|j: int| 0 <= j < w.len() implies !in_strings(config.separator_characters@, seq![#[trigger] w[j]]) by {
            assert(w[j] == cs@[a + j]);
        }
    }
    interval
}


/// The message naming the particle and listing the particles that repeat it.
pub fn create_error_message(particle_name: &str, matches: &[&ParticleInfo]) -> (r: String)
    ensures
        r@ == error_message(particle_name@, ref_views(matches@)),
{
    let mut message = String::new();
    push_str(&mut message, "一文に二回以上利用されている助詞 \"");
    push_str(&mut message, particle_name);
    push_str(&mut message, "\" がみつかりました。\n\n次の助詞が連続しているため、文を読みにくくしています。\n\n");
    let ghost head = message@;
    let mut i: usize = 0;
    while i < matches.len()
        invariant
            i <= matches@.len(),
            message@ == head + message_lines(ref_views(matches@).take(i as int)),
        decreases matches.len() - i,
    {
        let p = matches[i];
        proof {
            assert(ref_views(matches@).take(i + 1).drop_last() =~= ref_views(matches@).take(i as int));
            assert(ref_views(matches@).take(i + 1).last() == p@);
            reveal_strlit("");
        }
        let ghost before = message@;
        if str_chars(p.prev_word.as_str()).len() == 0 {
            push_str(&mut message, "- \"");
            push_str(&mut message, p.surface.as_str());
            push_str(&mut message, "\"\n");
            assert(message@ =~= before + message_line(p@));
        } else {
            push_str(&mut message, "- ");
            push_str(&mut message, p.prev_word.as_str());
            push_str(&mut message, "\"");
            push_str(&mut message, p.surface.as_str());
            push_str(&mut message, "\"\n");
            assert(message@ =~= before + message_line(p@));
        }
        i = i + 1;
    }
    assert(ref_views(matches@).take(i as int) =~= ref_views(matches@));
    push_str(
        &mut message,
        "\n同じ助詞を連続して利用しない、文の中で順番を入れ替える、文を分割するなどを検討してください。\n",
    );
    message
}

proof fn lemma_in_strings_views(list: Seq<String>, s: Seq<char>)
    ensures
        in_strings(list, s) == views(list).contains(s),
{
    if in_strings(list, s) {
        let i = choose|i: int| 0 <= i < list.len() && #[trigger] list[i]@ == s;
        assert(views(list)[i] == s);
    }
    if views(list).contains(s) {
        let i = choose|i: int| 0 <= i < views(list).len() && views(list)[i] == s;
        assert(list[i]@ == s);
    }
}

/// The distinct keys of `ps`, in order of first occurrence.
fn particle_keys(ps: &[ParticleInfo]) -> (r: Vec<String>)
    ensures
        views(r@) == keys_upto(pviews(ps@), ps@.len() as int),
{
    let ghost pv = pviews(ps@);
    let mut keys: Vec<String> = Vec::new();
    let mut i: usize = 0;
    while i < ps.len()
        invariant
            pv == pviews(ps@),
            i <= ps@.len(),
            views(keys@) == keys_upto(pv, i as int),
        decreases ps.len() - i,
    {
        proof {
            lemma_in_strings_views(keys@, ps@[i as int].key@);
            assert(pv[i as int] == ps@[i as int]@);
        }
        if !strings_contain(&keys, ps[i].key.as_str()) {
            let ghost before = views(keys@);
            keys.push(ps[i].key.clone());
            assert(views(keys@) =~= before.push(ps@[i as int].key@));
        }
        i = i + 1;
    }
    keys
}

/// The particles of `ps` whose key is `key`, in order.
fn particles_with_key<'a>(ps: &'a [ParticleInfo], key: &str) -> (r: Vec<&'a ParticleInfo>)
    ensures
        ref_views(r@) == with_key(pviews(ps@), key@),
{
    let ghost pv = pviews(ps@);
    let mut ms: Vec<&'a ParticleInfo> = Vec::new();
    let mut i: usize = 0;
    while i < ps.len()
        invariant
            pv == pviews(ps@),
            i <= ps@.len(),
            ref_views(ms@) == with_key(pv.take(i as int), key@),
        decreases ps.len() - i,
    {
        proof {
            assert(pv.take(i + 1).drop_last() =~= pv.take(i as int));
            assert(pv.take(i + 1).last() == ps@[i as int]@);
        }
        if str_eq(ps[i].key.as_str(), key) {
            let ghost before = ref_views(ms@);
            ms.push(&ps[i]);
            assert(ref_views(ms@) =~= before.push(ps@[i as int]@));
        }
        i = i + 1;
    }
    assert(pv.take(i as int) =~= pv);
    ms
}

fn subtype_is(p: &ParticleInfo, word: &str) -> (b: bool)
    ensures
        b == (p@.6 == Some(word@)),
{
    match &p.pos_subtype {
        Some(s) => str_eq(s.as_str(), word),
        None => false,
    }
}

/// The reports of one group, or `None` when a gap it measures cannot be sliced out of
/// `source`.
fn group_reports_checked(
    ms: &Vec<&ParticleInfo>,
    all_tokens: &[Token],
    offs: &Vec<usize>,
    source: &str,
    config: &Config,
) -> (r: Option<Vec<Diagnostic>>)
    requires
        small_text(source@),
        crate::text::offsets_ok(source@, offs@),
    ensures
        r.is_some() == (group_skipped(ref_views(ms@), tok_views(all_tokens@), *config) || forall|i: int|
            1 <= i < ms@.len() ==> gap_ok(
                #[trigger] ref_views(ms@)[i - 1],
                ref_views(ms@)[i],
                source@,
            )),
        r matches Some(ds) ==> diag_views(ds@) == group_reports(
            ref_views(ms@),
            tok_views(all_tokens@),
            source@,
            *config,
        ),
{
    let ghost mv = ref_views(ms@);
    let ghost tv = tok_views(all_tokens@);
    if ms.len() < 2 {
        return Some(Vec::new());
    }
    if !config.strict {
        if ms.len() == 2 && subtype_is(ms[0], "並立助詞") && subtype_is(ms[1], "並立助詞") {
            return Some(Vec::new());
        }
        if is_ka_douka_pattern(ms.as_slice(), all_tokens) {
            return Some(Vec::new());
        }
    }
    assert(!group_skipped(mv, tv, *config));
    let mut out: Vec<Diagnostic> = Vec::new();
    let mut i: usize = 1;
    while i < ms.len()
        invariant
            mv == ref_views(ms@),
            tv == tok_views(all_tokens@),
            !group_skipped(mv, tv, *config),
            1 <= i <= ms@.len(),
            small_text(source@),
            crate::text::offsets_ok(source@, offs@),
            diag_views(out@) == pair_reports(mv, source@, *config, i as int),
            forall|q: int| 1 <= q < i ==> gap_ok(#[trigger] mv[q - 1], mv[q], source@),
        decreases ms.len() - i,
    {
        let prev = ms[i - 1];
        let curr = ms[i];
        proof {
            assert(mv[i - 1] == prev@);
            assert(mv[i as int] == curr@);
        }
        if curr.byte_start > prev.byte_end && !(boundary_in(offs, Ghost(source@), prev.byte_end)
            && boundary_in(offs, Ghost(source@), curr.byte_start)) {
            assert(!gap_ok(mv[i - 1], mv[i as int], source@));
            return None;
        }
        let interval = calculate_interval(prev, curr, source, config);
        if interval < config.min_interval {
            let pair = vec![prev, curr];
            assert(ref_views(pair@) =~= seq![prev@, curr@]);
            let message = create_error_message(curr.surface.as_str(), pair.as_slice());
            let span = Span::new(curr.byte_start as u32, curr.byte_end as u32);
            let mut d = Diagnostic::new(RULE_ID, message.as_str(), span);
            if config.suggest_fix {
                let fix = Fix::delete(span);
                assert(fix.text@ =~= Seq::<char>::empty());
                d = d.with_fix(fix);
            }
            assert(span == Span { start: curr@.2 as u32, end: curr@.3 as u32 });
            assert(d.message@ == error_message(curr@.0, seq![prev@, curr@]));
            assert(diag_view(d) == doubled_report(prev@, curr@, *config));
            let ghost before = diag_views(out@);
            out.push(d);
            assert(diag_views(out@) =~= before.push(doubled_report(prev@, curr@, *config)));
        }
        i = i + 1;
    }
    Some(out)
}

/// Every report, or `None` when a gap the reports measure cannot be sliced out of `source`.
fn collect_reports(particles: &[ParticleInfo], all_tokens: &[Token], source: &str, config: &Config) -> (r: Option<
    Vec<Diagnostic>,
>)
    requires
        small_text(source@),
    ensures
        r.is_some() == gaps_ok(pviews(particles@), tok_views(all_tokens@), source@, *config),
        r matches Some(ds) ==> diag_views(ds@) == doubled_reports(
            pviews(particles@),
            tok_views(all_tokens@),
            source@,
            *config,
        ),
{
    let ghost pv = pviews(particles@);
    let ghost tv = tok_views(all_tokens@);
    let cs = str_chars(source);
    let offs = byte_offsets(&cs);
    let keys = particle_keys(particles);
    let ghost ks = views(keys@);
    let mut out: Vec<Diagnostic> = Vec::new();
    let mut j: usize = 0;
    while j < keys.len()
        invariant
            pv == pviews(particles@),
            tv == tok_views(all_tokens@),
            ks == views(keys@),
            ks == keys_upto(pv, pv.len() as int),
            cs@ == source@,
            small_text(source@),
            crate::text::offsets_ok(source@, offs@),
            j <= keys@.len(),
            diag_views(out@) == keyed_reports(pv, ks.take(j as int), tv, source@, *config),
            forall|q: int|
                0 <= q < j && !group_skipped(with_key(pv, ks[q]), tv, *config) ==> forall|i: int|
                    1 <= i < with_key(pv, ks[q]).len() ==> gap_ok(
                        #[trigger] with_key(pv, ks[q])[i - 1],
                        with_key(pv, ks[q])[i],
                        source@,
                    ),
        decreases keys.len() - j,
    {
        let ms = particles_with_key(particles, keys[j].as_str());
        proof {
            assert(ks[j as int] == keys@[j as int]@);
        }
        match group_reports_checked(&ms, all_tokens, &offs, source, config) {
            None => {
                proof {
                    let k = ks[j as int];
                    assert(ks.contains(k));
                }
                return None;
            },
            Some(ds) => {
                proof {
                    assert(ks.take(j + 1).drop_last() =~= ks.take(j as int));
                    assert(ks.take(j + 1).last() == ks[j as int]);
                }
                let ghost before = diag_views(out@);
                let mut ds = ds;
                out.append(&mut ds);
                assert(diag_views(out@) =~= before + group_reports(with_key(pv, ks[j as int]), tv, source@, *config));
            },
        }
        j = j + 1;
    }
    proof {
        assert(ks.take(j as int) =~= ks);
        assert forall|k: Seq<char>|
            #![trigger with_key(pv, k)]
            ks.contains(k) && !group_skipped(with_key(pv, k), tv, *config) implies forall|i: int|
                1 <= i < with_key(pv, k).len() ==> gap_ok(#[trigger] with_key(pv, k)[i - 1], with_key(pv, k)[i], source@) by {
            let q = choose|q: int| 0 <= q < ks.len() && ks[q] == k;
            assert(ks[q] == k);
        }
    }
    Some(out)
}

/// The reports for repeated particles: group by group (groups in the order their keys first
/// occur), each pair of neighbours in a group closer than `min_interval` reported at the later
/// one, unless the group is left alone (see [`group_skipped`]).
pub fn check_doubled_particles(
    particles: &[ParticleInfo],
    all_tokens: &[Token],
    source: &str,
    config: &Config,
) -> (r: Vec<Diagnostic>)
    requires
        small_text(source@),
        gaps_ok(pviews(particles@), tok_views(all_tokens@), source@, *config),
    ensures
        diag_views(r@) == doubled_reports(pviews(particles@), tok_views(all_tokens@), source@, *config),
{
    match collect_reports(particles, all_tokens, source, config) {
        Some(ds) => ds,
        None => Vec::new(),
    }
}

/// Every particle the rule considers comes from a token, in token order, that is a particle,
/// not in `allow`, and (unless `strict`) not one of the exceptions の (連体化), を (格助詞) and
/// て (接続助詞).
pub proof fn law_particles_are_kept(ts: Seq<TokView>, cfg: Config, n: int)
    requires
        0 <= n <= ts.len(),
    ensures
        forall|k: int|
            0 <= k < particles_upto(ts, cfg, n).len() ==> {
                let p = #[trigger] particles_upto(ts, cfg, n)[k];
                &&& 0 <= p.4 < n
                &&& kept(ts[p.4], cfg)
                &&& p == particle_at(ts, p.4)
            },
        forall|k: int|
            0 <= k < particles_upto(ts, cfg, n).len() - 1 ==> #[trigger] particles_upto(ts, cfg, n)[k].4
                < particles_upto(ts, cfg, n)[k + 1].4,
    decreases n,
{
    if n > 0 {
        law_particles_are_kept(ts, cfg, n - 1);
        let prev = particles_upto(ts, cfg, n - 1);
        let ps = particles_upto(ts, cfg, n);
        if kept(ts[n - 1], cfg) {
            assert(ps == prev.push(particle_at(ts, n - 1)));
            assert forall|k: int| 0 <= k < ps.len() - 1 implies #[trigger] ps[k].4 < ps[k + 1].4 by {
                assert(ps[k] == prev[k]);
                if k + 1 < prev.len() {
                    assert(ps[k + 1] == prev[k + 1]);
                }
            }
        }
    }
}

/// After merging, no particle starts where the one before it ends.
pub proof fn law_merged_particles_do_not_touch(ps: Seq<ParticleView>)
    ensures
        forall|k: int|
            0 <= k < concat_adjacent(ps).len() - 1 ==> #[trigger] concat_adjacent(ps)[k + 1].2 != concat_adjacent(
                ps,
            )[k].3,
    decreases ps.len(),
{
    if ps.len() > 0 {
        law_merged_particles_do_not_touch(ps.drop_last());
        let rest = concat_adjacent(ps.drop_last());
        let p = ps.last();
        let out = concat_adjacent(ps);
        if rest.len() > 0 && p.2 == rest.last().3 {
            let m = rest.drop_last();
            assert(out == m.push(merged(rest.last(), p)));
            assert forall|k: int| 0 <= k < out.len() - 1 implies #[trigger] out[k + 1].2 != out[k].3 by {
                assert(out[k] == rest[k]);
                if k + 1 < m.len() {
                    assert(out[k + 1] == rest[k + 1]);
                } else {
                    assert(out[k + 1].2 == rest.last().2);
                    assert(rest[k + 1] == rest.last());
                }
            }
        } else {
            assert(out == rest.push(p));
            assert forall|k: int| 0 <= k < out.len() - 1 implies #[trigger] out[k + 1].2 != out[k].3 by {
                assert(out[k] == rest[k]);
                if k + 1 < rest.len() {
                    assert(out[k + 1] == rest[k + 1]);
                }
            }
        }
    }
}

/// The manifest: fixable, for `Str` nodes, Japanese, needing morphology.
pub fn get_manifest() -> (r: RuleManifest)
    ensures
        r.name@ == RULE_ID@,
        r.version@ == VERSION@,
        opt_string_chars(r.description) == Some("Detect repeated Japanese particles (助詞)"@),
        r.fixable,
        views(r.node_types@) == seq!["Str"@],
        r.languages@ == seq![KnownLanguage::Ja],
        r.capabilities@ == seq![Capability::Morphology],
{
    let node_types = vec!["Str".to_owned()];
    assert(views(node_types@) =~= seq!["Str"@]);
    RuleManifest::new(RULE_ID, VERSION).with_description("Detect repeated Japanese particles (助詞)").with_fixable(
        true,
    ).with_node_types(node_types).with_languages(vec![KnownLanguage::Ja]).with_capabilities(
        vec![Capability::Morphology],
    )
}

/// The tokens of `ts` lying inside the byte range `s..e`, in order.
pub open spec fn node_tokens(ts: Seq<Token>, s: usize, e: usize) -> Seq<Token>
    decreases ts.len(),
{
    if ts.len() == 0 {
        seq![]
    } else if ts.last().span.start >= s && ts.last().span.end <= e {
        node_tokens(ts.drop_last(), s, e).push(ts.last())
    } else {
        node_tokens(ts.drop_last(), s, e)
    }
}

/// What the rule looks at in a request: the node's text, its tokens and its (merged)
/// particles; `None` when it is not a `Str` node, has no usable range, or has no tokens.
pub open spec fn lint_input(req: LintRequest, cfg: Config) -> Option<(Seq<char>, Seq<TokView>, Seq<ParticleView>)> {
    if node_type(req.node) != Some("Str"@) {
        None
    } else {
        match node_text(req.node, req.source@) {
            Some((s, e, text)) => {
                let nts = tok_views(node_tokens(req.spec_tokens(), s, e));
                if nts.len() == 0 {
                    None
                } else {
                    Some((text, nts, concat_adjacent(particles(nts, cfg))))
                }
            },
            None => None,
        }
    }
}

/// The inputs on which linting slices text only at character boundaries.
pub open spec fn lint_safe(req: LintRequest, cfg: Config) -> bool {
    node_type(req.node) == Some("Str"@) ==> {
        &&& node_range_ok(req.node, req.source@)
        &&& match lint_input(req, cfg) {
            Some((text, nts, ps)) => gaps_ok(ps, nts, text, cfg),
            None => true,
        }
    }
}

/// The reports for a request. The node's text is sliced out of the source, while the
/// particles keep the tokens' offsets into the whole source.
pub open spec fn lint_reports(req: LintRequest, cfg: Config) -> Seq<DiagView> {
    match lint_input(req, cfg) {
        Some((text, nts, ps)) => doubled_reports(ps, nts, text, cfg),
        None => seq![],
    }
}

/// Copies of the tokens lying inside `s..e`.
fn tokens_inside(tokens: &[Token], s: usize, e: usize) -> (r: Vec<Token>)
    ensures
        tok_views(r@) == tok_views(node_tokens(tokens@, s, e)),
{
    let mut out: Vec<Token> = Vec::new();
    let mut i: usize = 0;
    while i < tokens.len()
        invariant
            i <= tokens@.len(),
            tok_views(out@) == tok_views(node_tokens(tokens@.take(i as int), s, e)),
        decreases tokens.len() - i,
    {
        proof {
            assert(tokens@.take(i + 1).drop_last() =~= tokens@.take(i as int));
            assert(tokens@.take(i + 1).last() == tokens@[i as int]);
        }
        let t = &tokens[i];
        if (t.span.start as usize) >= s && (t.span.end as usize) <= e {
            let ghost before = tok_views(out@);
            let c = t.duplicate();
            out.push(c);
            assert(tok_view(c) == tok_view(*t));
            assert(tok_views(out@) =~= before.push(tok_view(*t)));
            assert(tok_views(node_tokens(tokens@.take(i + 1), s, e)) =~= tok_views(
                node_tokens(tokens@.take(i as int), s, e),
            ).push(tok_view(*t)));
        }
        i = i + 1;
    }
    assert(tokens@.take(i as int) =~= tokens@);
    out
}

/// Lint one request, or `None` on a request whose node range or particle gaps fall inside a
/// character (where slicing the text would panic).
pub fn try_lint(request: &LintRequest, config: &Config) -> (r: Option<LintResponse>)
    requires
        small_text(request.source@),
    ensures
        r.is_some() == lint_safe(*request, *config),
        r matches Some(resp) ==> diag_views(resp.diagnostics@) == lint_reports(*request, *config),
{
    if !is_node_type(&request.node, "Str") {
        return Some(LintResponse { diagnostics: Vec::new() });
    }
    if !crate::pdk::request::range_on_boundaries(&request.node, request.source.as_str()) {
        return None;
    }
    let tokens = request.get_tokens();
    let (node_start, node_end, text) = match extract_node_text(&request.node, request.source.as_str()) {
        Some(x) => x,
        None => {
            return Some(LintResponse { diagnostics: Vec::new() });
        },
    };
    let node_tokens = tokens_inside(tokens, node_start, node_end);
    if node_tokens.len() == 0 {
        return Some(LintResponse { diagnostics: Vec::new() });
    }
    proof {
        let src = request.source@;
        let ks = index_of_byte(src, node_start as int);
        let ke = index_of_byte(src, node_end as int);
        if ke < ks {
            lemma_byte_at_strict(src, ke, ks);
        }
        crate::text::lemma_byte_len_subrange_le(src, ks, ke);
    }
    let particles = extract_particles_from_tokens(node_tokens.as_slice(), config);
    let particles = concat_adjacent_particles(particles);
    match collect_reports(particles.as_slice(), node_tokens.as_slice(), text, config) {
        Some(ds) => Some(LintResponse { diagnostics: ds }),
        None => None,
    }
}

/// Lint one request (see [`try_lint`]) on which slicing is safe.
pub fn lint_impl(request: &LintRequest, config: &Config) -> (r: LintResponse)
    requires
        small_text(request.source@),
        lint_safe(*request, *config),
    ensures
        diag_views(r.diagnostics@) == lint_reports(*request, *config),
{
    match try_lint(request, config) {
        Some(resp) => resp,
        None => LintResponse { diagnostics: Vec::new() },
    }
}

} // verus!
