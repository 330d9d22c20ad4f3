//! `no-doubled-joshi` — flag a Japanese 助詞 (particle) repeated within a short same-sentence
//! window (e.g. 「〜の〜の」), which reads awkwardly.
//!
//! The rule reads the node's morphology: a token whose part of speech is 「助詞」 is a particle.
//! Particles are grouped by sentence and by surface + part-of-speech sub-type; a pair of
//! consecutive members of one group whose weighted gap is below `min_interval` is flagged.
//! Detection keys on the IPADIC literals 「助詞」 and its sub-types, so another tagset matches
//! nothing (a false negative, never a false positive).
use vstd::prelude::*;
use crate::ast::{plain, Context, Lang, NodeKind, NodeRef, Report, Rule, RuleMeta, Severity, Span};
use crate::json::{clamp_usize, get_bool, get_str_items, get_u64, opt_bool, opt_str_items, opt_u64, views, JsonValue};
use crate::morph::{sorted_tokens, surface_order, surface_order_upto, surface_text, surface_text_or_empty, text_of, text_or_empty, FeatureKey, Token};
use crate::text::{byte_offsets, fits_usize, offsets_ok, push_chars, push_str, str_chars};

verus! {

/// The rule id.
pub const ID: &'static str = "no-doubled-joshi";

/// The node kinds the rule visits.
pub open spec fn node_kinds() -> Seq<NodeKind> {
    seq![NodeKind::Paragraph, NodeKind::Heading, NodeKind::TableCell]
}

/// Flags a 助詞 doubled within a short same-sentence window.
pub struct NoDoubledJoshi {
    pub meta: RuleMeta,
    /// Pairs whose weighted gap is below this are flagged.
    pub min_interval: usize,
    /// Strict mode keeps the idiomatic exceptions (の/を/て, 並立助詞 groups, かどうか).
    pub strict: bool,
    /// Particle surfaces that are never flagged.
    pub allow: Vec<String>,
    /// Characters that end a sentence.
    pub separator_characters: Vec<char>,
    /// Characters that widen the gap between two particles.
    pub comma_characters: Vec<char>,
}

pub open spec fn default_separators() -> Seq<char> {
    seq!['.', '．', '。', '?', '!', '？', '！']
}

pub open spec fn default_commas() -> Seq<char> {
    seq!['、', '，']
}

/// Bracket characters that each add 1 to the gap weight.
pub open spec fn brackets() -> Seq<char> {
    seq!['(', ')', '（', '）', '「', '」']
}

/// The first character of each string, skipping empty ones.
pub open spec fn first_chars(ss: Seq<Seq<char>>) -> Seq<char>
    decreases ss.len(),
{
    if ss.len() == 0 {
        seq![]
    } else {
        let rest = first_chars(ss.drop_last());
        if ss.last().len() > 0 {
            rest.push(ss.last()[0])
        } else {
            rest
        }
    }
}

/// An option that is an array of strings, as the first character of each (skipping empties).
fn char_list(options: &JsonValue, key: &str) -> (r: Option<Vec<char>>)
    ensures
        match opt_str_items(*options, key@, false) {
            Some(ss) => r.is_some() && r.unwrap()@ == first_chars(ss),
            None => r.is_none(),
        },
{
    match get_str_items(options, key, false) {
        Some(items) => {
            let ghost ss = views(items@);
            let mut r: Vec<char> = Vec::new();
            let mut i: usize = 0;
            while i < items.len()
                invariant
                    i <= items.len(),
                    ss == views(items@),
                    r@ == first_chars(ss.take(i as int)),
                decreases items.len() - i,
            {
                assert(ss.take(i + 1).drop_last() =~= ss.take(i as int));
                let cs = str_chars(items[i].as_str());
                assert(cs@ == ss[i as int]);
                if cs.len() > 0 {
                    r.push(cs[0]);
                }
                i = i + 1;
            }
            assert(ss.take(i as int) =~= ss);
            Some(r)
        },
        None => None,
    }
}

fn default_separator_vec() -> (v: Vec<char>)
    ensures
        v@ == default_separators(),
{
    let v = vec!['.', '．', '。', '?', '!', '？', '！'];
    assert(v@ =~= default_separators());
    v
}

fn default_comma_vec() -> (v: Vec<char>)
    ensures
        v@ == default_commas(),
{
    let v = vec!['、', '，'];
    assert(v@ =~= default_commas());
    v
}

impl NoDoubledJoshi {
    /// Construct with default options (`min_interval` 1, non-strict, no `allow`, the default
    /// separator and comma sets).
    pub fn new() -> (r: NoDoubledJoshi)
        ensures
            r.meta.id@ == ID@,
            r.meta.node_kinds@ == node_kinds(),
            r.meta.default_severity == Severity::Warning,
            r.meta.lang == Some(Lang::Ja),
            r.meta.morphology,
            r.min_interval == 1,
            !r.strict,
            r.allow@.len() == 0,
            r.separator_characters@ == default_separators(),
            r.comma_characters@ == default_commas(),
    {
        NoDoubledJoshi {
            meta: RuleMeta::new(ID, Severity::Warning, vec![NodeKind::Paragraph, NodeKind::Heading, NodeKind::TableCell])
                .with_morphology(Lang::Ja),
            min_interval: 1,
            strict: false,
            allow: Vec::new(),
            separator_characters: default_separator_vec(),
            comma_characters: default_comma_vec(),
        }
    }

    /// The rule's option fields as config `options` sets them (defaults where a value is
    /// missing or has the wrong type).
    pub open spec fn configured(&self, options: JsonValue) -> bool {
        &&& self.min_interval == match opt_u64(options, "min_interval"@) { Some(n) => clamp_usize(n), None => 1, }
        &&& self.strict == match opt_bool(options, "strict"@) { Some(b) => b, None => false, }
        &&& views(self.allow@) == match opt_str_items(options, "allow"@, false) { Some(ss) => ss, None => seq![], }
        &&& self.separator_characters@ == match opt_str_items(options, "separator_characters"@, false) { Some(ss) => first_chars(ss), None => default_separators(), }
        &&& self.comma_characters@ == match opt_str_items(options, "comma_characters"@, false) { Some(ss) => first_chars(ss), None => default_commas(), }
    }

    /// Construct from config `options`, leniently (missing or wrong-typed values keep the
    /// defaults): `min_interval` (integer), `strict` (bool), `allow` (array of surfaces),
    /// `separator_characters` / `comma_characters` (arrays of strings; the first char of each).
    pub fn from_options(options: &JsonValue) -> (r: NoDoubledJoshi)
        ensures
            r.meta.id@ == ID@,
            r.meta.node_kinds@ == node_kinds(),
            r.meta.default_severity == Severity::Warning,
            r.meta.lang == Some(Lang::Ja),
            r.meta.morphology,
            r.configured(*options),
    {
        let mut rule = Self::new();
        if let Some(v) = get_u64(options, "min_interval") {
            rule.min_interval = crate::json::to_usize_saturating(v);
        }
        if let Some(b) = get_bool(options, "strict") {
            rule.strict = b;
        }
        match get_str_items(options, "allow", false) {
            Some(items) => {
                rule.allow = items;
            },
            None => {
                assert(views(rule.allow@) =~= seq![]);
            },
        }
        if let Some(cs) = char_list(options, "separator_characters") {
            rule.separator_characters = cs;
        }
        if let Some(cs) = char_list(options, "comma_characters") {
            rule.comma_characters = cs;
        }
        rule
    }
}

} // verus!

verus! {

// ---------------------------------------------------------------------------
// Particles
// ---------------------------------------------------------------------------

/// A particle as the rule sees it: its surface text and grouping key (surface + part of speech
/// + sub-type), its absolute byte range, the index of its token in source order, the surface of
/// the token before it, and its part-of-speech sub-type.
pub struct Joshi {
    pub surface: Seq<char>,
    pub key: Seq<char>,
    pub start: u32,
    pub end: u32,
    pub tok_idx: int,
    pub prev_word: Seq<char>,
    pub subtype: Option<Seq<char>>,
}

/// The idiomatic repeats dropped in non-strict mode: の (連体化), を (格助詞), て (接続助詞).
pub open spec fn is_exception(surface: Seq<char>, subtype: Option<Seq<char>>) -> bool {
    ||| surface == "の"@ && subtype == Some("連体化"@)
    ||| surface == "を"@ && subtype == Some("格助詞"@)
    ||| surface == "て"@ && subtype == Some("接続助詞"@)
}

/// `{surface}:助詞.{subtype}`, or `{surface}:助詞` without a sub-type.
pub open spec fn joshi_key(surface: Seq<char>, subtype: Option<Seq<char>>) -> Seq<char> {
    match subtype {
        Some(st) => surface + ":助詞."@ + st,
        None => surface + ":助詞"@,
    }
}

impl NoDoubledJoshi {
    /// The particle the `idx`-th source-ordered token is, if it is one the rule considers: a
    /// known 助詞 whose surface is not allowed and (non-strict) not an idiomatic exception.
    pub open spec fn particle_at(&self, base: u32, t: Seq<char>, toks: Seq<Token>, idx: int) -> Option<Joshi> {
        let tok = toks[idx];
        let surface = text_or_empty(base, t, tok.surface);
        let subtype = tok.feature_spec(FeatureKey::PosSub1);
        if tok.unknown || tok.feature_spec(FeatureKey::Pos) != Some("助詞"@) || views(self.allow@).contains(surface)
            || (!self.strict && is_exception(surface, subtype)) {
            None
        } else {
            Some(
                Joshi {
                    surface,
                    key: joshi_key(surface, subtype),
                    start: tok.surface.start,
                    end: tok.surface.end,
                    tok_idx: idx,
                    prev_word: if idx > 0 {
                        text_or_empty(base, t, toks[idx - 1].surface)
                    } else {
                        seq![]
                    },
                    subtype,
                },
            )
        }
    }

    /// The particles among the first `n` source-ordered tokens.
    pub open spec fn particles_upto(&self, base: u32, t: Seq<char>, toks: Seq<Token>, n: int) -> Seq<Joshi>
        decreases n,
    {
        if n <= 0 {
            seq![]
        } else {
            let rest = self.particles_upto(base, t, toks, n - 1);
            match self.particle_at(base, t, toks, n - 1) {
                Some(j) => rest.push(j),
                None => rest,
            }
        }
    }
}

/// Add `p` to the particles `acc`: a particle that starts where the last one ends is fused
/// into it as a 連語 compound (に+は → には), re-keyed by its surface.
pub open spec fn merge_into(acc: Seq<Joshi>, p: Joshi, base: u32, t: Seq<char>) -> Seq<Joshi> {
    if acc.len() > 0 && acc.last().end == p.start {
        let last = acc.last();
        let surface = text_or_empty(base, t, Span { start: last.start, end: p.end });
        acc.update(
            acc.len() - 1,
            Joshi { end: p.end, surface, key: surface + ":連語"@, subtype: Some("連語"@), ..last },
        )
    } else {
        acc.push(p)
    }
}

/// The first `n` particles of `ps` with byte-contiguous runs fused.
pub open spec fn merged_upto(ps: Seq<Joshi>, n: int, base: u32, t: Seq<char>) -> Seq<Joshi>
    decreases n,
{
    if n <= 0 {
        seq![]
    } else {
        merge_into(merged_upto(ps, n - 1, base, t), ps[n - 1], base, t)
    }
}

struct Particle {
    surface: Vec<char>,
    key: Vec<char>,
    start: u32,
    end: u32,
    tok_idx: usize,
    prev_word: Vec<char>,
    subtype: Option<Vec<char>>,
}

spec fn opt_chars(o: Option<Vec<char>>) -> Option<Seq<char>> {
    match o {
        Some(v) => Some(v@),
        None => None,
    }
}

spec fn pview(p: Particle) -> Joshi {
    Joshi {
        surface: p.surface@,
        key: p.key@,
        start: p.start,
        end: p.end,
        tok_idx: p.tok_idx as int,
        prev_word: p.prev_word@,
        subtype: opt_chars(p.subtype),
    }
}

spec fn pviews(ps: Seq<Particle>) -> Seq<Joshi> {
    ps.map_values(|p: Particle| pview(p))
}

/// `a + b`.
fn concat(a: &[char], b: &[char]) -> (r: Vec<char>)
    ensures
        r@ == a@ + b@,
{
    let mut r: Vec<char> = Vec::new();
    let mut i: usize = 0;
    while i < a.len()
        invariant
            i <= a.len(),
            r@ == a@.take(i as int),
        decreases a.len() - i,
    {
        r.push(a[i]);
        assert(a@.take(i + 1) =~= a@.take(i as int).push(a@[i as int]));
        i = i + 1;
    }
    let mut j: usize = 0;
    while j < b.len()
        invariant
            j <= b.len(),
            r@ == a@ + b@.take(j as int),
        decreases b.len() - j,
    {
        r.push(b[j]);
        assert(b@.take(j + 1) =~= b@.take(j as int).push(b@[j as int]));
        j = j + 1;
    }
    assert(a@.take(i as int) =~= a@);
    assert(b@.take(j as int) =~= b@);
    r
}

fn chars_eq_str(a: &[char], s: &str) -> (b: bool)
    ensures
        b == (a@ == s@),
{
    let cs = str_chars(s);
    crate::text::seq_eq(a, cs.as_slice())
}

fn opt_eq_str(o: &Option<Vec<char>>, s: &str) -> (b: bool)
    ensures
        b == (opt_chars(*o) == Some(s@)),
{
    match o {
        Some(v) => chars_eq_str(v.as_slice(), s),
        None => false,
    }
}

fn exception(surface: &[char], subtype: &Option<Vec<char>>) -> (b: bool)
    ensures
        b == is_exception(surface@, opt_chars(*subtype)),
{
    (chars_eq_str(surface, "の") && opt_eq_str(subtype, "連体化"))
        || (chars_eq_str(surface, "を") && opt_eq_str(subtype, "格助詞"))
        || (chars_eq_str(surface, "て") && opt_eq_str(subtype, "接続助詞"))
}

impl NoDoubledJoshi {
    fn allowed(&self, surface: &[char]) -> (b: bool)
        ensures
            b == views(self.allow@).contains(surface@),
    {
        let ghost vs = views(self.allow@);
        let mut i: usize = 0;
        while i < self.allow.len()
            invariant
                i <= self.allow.len(),
                vs == views(self.allow@),
                forall|j: int| 0 <= j < i ==> vs[j] != surface@,
            decreases self.allow.len() - i,
        {
            let a = str_chars(self.allow[i].as_str());
            if crate::text::seq_eq(a.as_slice(), surface) {
                assert(vs[i as int] == surface@);
                return true;
            }
            i = i + 1;
        }
        false
    }

    /// The particles of the source-ordered tokens `ts[order[..]]`.
    fn extract(&self, base: u32, t: &Vec<char>, offs: &Vec<usize>, ts: &Vec<Token>, order: &Vec<usize>) -> (ps: Vec<Particle>)
        requires
            offsets_ok(t@, offs@),
            order@.len() == ts@.len(),
            forall|k: int| 0 <= k < order@.len() ==> #[trigger] order@[k] < ts@.len(),
            order@.map_values(|i: usize| i as int) == surface_order_upto(ts@, ts@.len() as int),
        ensures
            pviews(ps@) == self.particles_upto(base, t@, sorted_tokens(ts@), ts@.len() as int),
            forall|k: int| 0 <= k < ps@.len() ==> #[trigger] ps@[k].tok_idx < ts@.len(),
    {
        let ghost toks = sorted_tokens(ts@);
        let mut ps: Vec<Particle> = Vec::new();
        let mut idx: usize = 0;
        while idx < order.len()
            invariant
                idx <= order.len(),
                offsets_ok(t@, offs@),
                order@.len() == ts@.len(),
                forall|k: int| 0 <= k < order@.len() ==> #[trigger] order@[k] < ts@.len(),
                order@.map_values(|i: usize| i as int) == surface_order_upto(ts@, ts@.len() as int),
                toks == sorted_tokens(ts@),
                pviews(ps@) == self.particles_upto(base, t@, toks, idx as int),
                forall|k: int| 0 <= k < ps@.len() ==> #[trigger] ps@[k].tok_idx < idx,
            decreases order.len() - idx,
        {
            assert(toks[idx as int] == ts@[order@[idx as int] as int]);
            let tok = &ts[order[idx]];
            let ghost before = ps@;
            if !tok.unknown && tok.feature_is(FeatureKey::Pos, "助詞") {
                let surface = surface_text_or_empty(base, t, offs, tok.surface);
                let subtype: Option<Vec<char>> = match tok.feature(FeatureKey::PosSub1) {
                    Some(s) => Some(str_chars(s)),
                    None => None,
                };
                if !self.allowed(surface.as_slice()) && !(!self.strict && exception(surface.as_slice(), &subtype)) {
                    let key = match &subtype {
                        Some(st) => {
                            let head = concat(surface.as_slice(), str_chars(":助詞.").as_slice());
                            concat(head.as_slice(), st.as_slice())
                        },
                        None => concat(surface.as_slice(), str_chars(":助詞").as_slice()),
                    };
                    let prev_word = if idx > 0 {
                        assert(toks[idx - 1] == ts@[order@[idx - 1] as int]);
                        surface_text_or_empty(base, t, offs, ts[order[idx - 1]].surface)
                    } else {
                        Vec::new()
                    };
                    let p = Particle {
                        surface,
                        key,
                        start: tok.surface.start,
                        end: tok.surface.end,
                        tok_idx: idx,
                        prev_word,
                        subtype,
                    };
                    ps.push(p);
                    assert(pviews(ps@) =~= pviews(before).push(pview(p)));
                    assert(pview(p) == self.particle_at(base, t@, toks, idx as int)->0);
                }
            }
            idx = idx + 1;
        }
        ps
    }
}

} // verus!

verus! {

fn copy_chars(a: &[char]) -> (r: Vec<char>)
    ensures
        r@ == a@,
{
    let r = concat(a, &[]);
    assert(r@ =~= a@);
    r
}

fn copy_particle(p: &Particle) -> (r: Particle)
    ensures
        pview(r) == pview(*p),
{
    Particle {
        surface: copy_chars(p.surface.as_slice()),
        key: copy_chars(p.key.as_slice()),
        start: p.start,
        end: p.end,
        tok_idx: p.tok_idx,
        prev_word: copy_chars(p.prev_word.as_slice()),
        subtype: match &p.subtype {
            Some(v) => Some(copy_chars(v.as_slice())),
            None => None,
        },
    }
}

/// Fuse byte-contiguous particles into 連語 compounds.
fn merge(base: u32, t: &Vec<char>, offs: &Vec<usize>, ps: &Vec<Particle>, Ghost(bound): Ghost<nat>) -> (ms: Vec<Particle>)
    requires
        offsets_ok(t@, offs@),
        forall|k: int| 0 <= k < ps@.len() ==> #[trigger] ps@[k].tok_idx < bound,
    ensures
        pviews(ms@) == merged_upto(pviews(ps@), ps@.len() as int, base, t@),
        forall|k: int| 0 <= k < ms@.len() ==> #[trigger] ms@[k].tok_idx < bound,
{
    let ghost pv = pviews(ps@);
    let mut ms: Vec<Particle> = Vec::new();
    let mut i: usize = 0;
    while i < ps.len()
        invariant
            i <= ps.len(),
            offsets_ok(t@, offs@),
            pv == pviews(ps@),
            pviews(ms@) == merged_upto(pv, i as int, base, t@),
            forall|k: int| 0 <= k < ps@.len() ==> #[trigger] ps@[k].tok_idx < bound,
            forall|k: int| 0 <= k < ms@.len() ==> #[trigger] ms@[k].tok_idx < bound,
        decreases ps.len() - i,
    {
        let p = &ps[i];
        assert(pv[i as int] == pview(*p));
        let ghost acc = pviews(ms@);
        if ms.len() > 0 && ms[ms.len() - 1].end == p.start {
            let last = ms.pop().unwrap();
            assert(pview(last) == acc.last());
            let surface = surface_text_or_empty(base, t, offs, Span::new(last.start, p.end));
            let key = concat(surface.as_slice(), str_chars(":連語").as_slice());
            let np = Particle {
                surface,
                key,
                start: last.start,
                end: p.end,
                tok_idx: last.tok_idx,
                prev_word: last.prev_word,
                subtype: Some(str_chars("連語")),
            };
            ms.push(np);
            assert(pviews(ms@) =~= merge_into(acc, pview(*p), base, t@));
        } else {
            let np = copy_particle(p);
            ms.push(np);
            assert(pviews(ms@) =~= merge_into(acc, pview(*p), base, t@));
        }
        i = i + 1;
    }
    ms
}

// ---------------------------------------------------------------------------
// Sentences, gaps and messages
// ---------------------------------------------------------------------------

/// `n - base`, saturating at 0.
pub open spec fn rel(n: u32, base: u32) -> int {
    if n >= base {
        n - base
    } else {
        0
    }
}

/// The characters of `t` between the byte offsets `lo` and `hi` (`str::get(lo..hi)`), empty
/// when that range is not a pair of ordered boundaries.
pub open spec fn byte_slice(t: Seq<char>, lo: int, hi: int) -> Seq<char> {
    if lo <= hi && crate::text::is_boundary(t, lo) && crate::text::is_boundary(t, hi) {
        t.subrange(crate::text::index_of_byte(t, lo), crate::text::index_of_byte(t, hi))
    } else {
        seq![]
    }
}

impl NoDoubledJoshi {
    /// The sentence index of absolute byte `start`: the number of separators before it in the
    /// node's text (0 when the offset is not a character boundary of the text).
    pub open spec fn sentence_of(&self, base: u32, t: Seq<char>, start: u32) -> nat {
        crate::text::count_in(byte_slice(t, 0, rel(start, base)), |c: char| self.separator_characters@.contains(c))
    }

    /// Whether `c` widens the gap between two particles: a comma character or a bracket.
    pub open spec fn widens(&self, c: char) -> bool {
        self.comma_characters@.contains(c) || brackets().contains(c)
    }

    /// The weighted gap between two particles: 0 when they touch, otherwise the number of comma
    /// and bracket characters between them.
    pub open spec fn interval(&self, prev: Joshi, curr: Joshi, base: u32, t: Seq<char>) -> nat {
        if curr.start <= prev.end {
            0
        } else {
            crate::text::count_in(byte_slice(t, rel(prev.end, base), rel(curr.start, base)), |c: char| self.widens(c))
        }
    }
}

/// Whether `prev` / `curr` are the two か of かどうか: exactly one token between them, whose
/// surface is どう.
pub open spec fn is_ka_douka(prev: Joshi, curr: Joshi, toks: Seq<Token>, base: u32, t: Seq<char>) -> bool {
    &&& prev.surface == "か"@
    &&& curr.surface == "か"@
    &&& curr.tok_idx == prev.tok_idx + 2
    &&& 0 <= prev.tok_idx + 1 < toks.len()
    &&& text_of(base, t, toks[prev.tok_idx + 1].surface) == Some("どう"@)
}

/// `- {prev_word}"{surface}"`, or `- "{surface}"` when no token precedes the particle.
pub open spec fn body_line(j: Joshi) -> Seq<char> {
    if j.prev_word.len() == 0 {
        "- \""@ + j.surface + "\""@
    } else {
        "- "@ + j.prev_word + "\""@ + j.surface + "\""@
    }
}

/// The diagnostic for a doubled particle (the second occurrence's surface names it).
pub open spec fn doubled_message(prev: Joshi, curr: Joshi) -> Seq<char> {
    "一文に二回以上利用されている助詞 \""@ + curr.surface
        + "\" がみつかりました。\n\n次の助詞が連続しているため、文を読みにくくしています。\n\n"@
        + body_line(prev) + "\n"@ + body_line(curr)
        + "\n\n同じ助詞を連続して利用しない、文の中で順番を入れ替える、文を分割するなどを検討してください。"@
}

fn sat_rel(n: u32, base: u32) -> (r: u32)
    ensures
        r as int == rel(n, base),
{
    if n >= base {
        n - base
    } else {
        0
    }
}

/// `byte_slice(t, lo, hi)` as an index range of `t`.
pub(crate) fn byte_range(t: &Vec<char>, offs: &Vec<usize>, lo: u32, hi: u32) -> (r: (usize, usize))
    requires
        offsets_ok(t@, offs@),
    ensures
        r.0 <= r.1 <= t@.len(),
        t@.subrange(r.0 as int, r.1 as int) == byte_slice(t@, lo as int, hi as int),
{
    if lo <= hi {
        match crate::morph::boundary_index(offs, Ghost(t@), lo) {
            Some(kl) => match crate::morph::boundary_index(offs, Ghost(t@), hi) {
                Some(kh) => {
                    proof {
                        if kh < kl {
                            crate::text::lemma_byte_at_strict(t@, kh as int, kl as int);
                        }
                    }
                    return (kl, kh);
                },
                None => {},
            },
            None => {},
        }
    }
    assert(t@.subrange(0, 0) =~= Seq::<char>::empty());
    (0, 0)
}

/// The number of characters of `t[from..to]` that are in `set1` (or, with `with_brackets`, are
/// brackets), which is the count of `p`.
fn count_among(t: &Vec<char>, from: usize, to: usize, set1: &Vec<char>, with_brackets: bool, Ghost(p): Ghost<spec_fn(char) -> bool>) -> (n: usize)
    requires
        from <= to <= t@.len(),
        forall|c: char| #[trigger] p(c) == (set1@.contains(c) || (with_brackets && brackets().contains(c))),
    ensures
        n == crate::text::count_in(t@.subrange(from as int, to as int), p),
{
    let mut n: usize = 0;
    let mut k = from;
    while k < to
        invariant
            from <= k <= to <= t@.len(),
            forall|c: char| #[trigger] p(c) == (set1@.contains(c) || (with_brackets && brackets().contains(c))),
            n == crate::text::count_in(t@.subrange(from as int, k as int), p),
            n <= k - from,
        decreases to - k,
    {
        proof {
            crate::text::lemma_count_in_step(t@, from as int, k as int, p);
        }
        let c = t[k];
        let mut hit = crate::text::contains_char(set1.as_slice(), c);
        if with_brackets && !hit {
            hit = c == '(' || c == ')' || c == '（' || c == '）' || c == '「' || c == '」';
            assert(hit == brackets().contains(c)) by {
                if brackets().contains(c) {
                    let q = choose|q: int| 0 <= q < brackets().len() && brackets()[q] == c;
                    assert(q == 0 || q == 1 || q == 2 || q == 3 || q == 4 || q == 5);
                }
                if hit {
                    if c == '(' { assert(brackets()[0] == c); }
                    if c == ')' { assert(brackets()[1] == c); }
                    if c == '（' { assert(brackets()[2] == c); }
                    if c == '）' { assert(brackets()[3] == c); }
                    if c == '「' { assert(brackets()[4] == c); }
                    if c == '」' { assert(brackets()[5] == c); }
                }
            }
        }
        assert(hit == p(c));
        assert(t@[k as int] == c);
        if hit {
            n = n + 1;
        }
        k = k + 1;
    }
    n
}

fn body_line_exec(prev_word: &[char], surface: &[char], out: &mut String)
    ensures
        final(out)@ == old(out)@ + body_line(Joshi { surface: surface@, key: seq![], start: 0, end: 0, tok_idx: 0, prev_word: prev_word@, subtype: None }),
{
    if prev_word.len() == 0 {
        push_str(out, "- \"");
        push_chars(out, surface);
        push_str(out, "\"");
    } else {
        push_str(out, "- ");
        push_chars(out, prev_word);
        push_str(out, "\"");
        push_chars(out, surface);
        push_str(out, "\"");
    }
}

fn doubled_message_exec(prev: &Particle, curr: &Particle) -> (m: String)
    ensures
        m@ == doubled_message(pview(*prev), pview(*curr)),
{
    let mut m = String::new();
    push_str(&mut m, "一文に二回以上利用されている助詞 \"");
    push_chars(&mut m, curr.surface.as_slice());
    push_str(&mut m, "\" がみつかりました。\n\n次の助詞が連続しているため、文を読みにくくしています。\n\n");
    body_line_exec(prev.prev_word.as_slice(), prev.surface.as_slice(), &mut m);
    push_str(&mut m, "\n");
    body_line_exec(curr.prev_word.as_slice(), curr.surface.as_slice(), &mut m);
    push_str(&mut m, "\n\n同じ助詞を連続して利用しない、文の中で順番を入れ替える、文を分割するなどを検討してください。");
    m
}

} // verus!

verus! {

// ---------------------------------------------------------------------------
// Groups
// ---------------------------------------------------------------------------

/// `a` sorts before `b` character by character (`str`'s order).
pub open spec fn seq_lt(a: Seq<char>, b: Seq<char>) -> bool
    decreases a.len(),
{
    if a.len() == 0 {
        b.len() > 0
    } else if b.len() == 0 {
        false
    } else if a[0] != b[0] {
        a[0] < b[0]
    } else {
        seq_lt(a.drop_first(), b.drop_first())
    }
}

pub proof fn lemma_seq_lt_irreflexive(a: Seq<char>)
    ensures
        !seq_lt(a, a),
    decreases a.len(),
{
    if a.len() > 0 {
        lemma_seq_lt_irreflexive(a.drop_first());
    }
}

/// A group: a sentence index and a particle key.
pub type GroupKey = (nat, Seq<char>);

/// Groups are visited by sentence, then by key.
pub open spec fn gk_lt(a: GroupKey, b: GroupKey) -> bool {
    a.0 < b.0 || (a.0 == b.0 && seq_lt(a.1, b.1))
}

/// Add `k` to the ordered list of distinct groups `ks`.
pub open spec fn insert_key(ks: Seq<GroupKey>, k: GroupKey) -> Seq<GroupKey>
    decreases ks.len(),
{
    if ks.len() == 0 {
        seq![k]
    } else if ks.last() == k {
        ks
    } else if gk_lt(k, ks.last()) {
        insert_key(ks.drop_last(), k).push(ks.last())
    } else {
        ks.push(k)
    }
}

proof fn lemma_insert_key_at(ks: Seq<GroupKey>, k: GroupKey, p: int)
    requires
        0 <= p <= ks.len(),
        forall|q: int| p <= q < ks.len() ==> gk_lt(k, #[trigger] ks[q]),
        p == 0 || !gk_lt(k, ks[p - 1]),
    ensures
        insert_key(ks, k) == if p > 0 && ks[p - 1] == k {
            ks
        } else {
            ks.take(p) + seq![k] + ks.skip(p)
        },
    decreases ks.len(),
{
    if ks.len() == p {
        assert(ks.take(p) =~= ks);
        assert(ks.skip(p) =~= Seq::<GroupKey>::empty());
        if p > 0 {
            assert(ks.last() == ks[p - 1]);
        }
        assert(insert_key(ks, k) =~= if p > 0 && ks[p - 1] == k {
            ks
        } else {
            ks.take(p) + seq![k] + ks.skip(p)
        });
    } else {
        let q = ks.len() - 1;
        assert(gk_lt(k, ks[q]));
        lemma_seq_lt_irreflexive(k.1);
        assert(ks.last() != k);
        let k2 = ks.drop_last();
        assert forall|r: int| p <= r < k2.len() implies gk_lt(k, #[trigger] k2[r]) by {
            assert(k2[r] == ks[r]);
        }
        if p > 0 {
            assert(k2[p - 1] == ks[p - 1]);
        }
        lemma_insert_key_at(k2, k, p);
        assert(insert_key(ks, k) =~= if p > 0 && ks[p - 1] == k {
            ks
        } else {
            ks.take(p) + seq![k] + ks.skip(p)
        });
    }
}

pub proof fn lemma_seq_lt_transitive(a: Seq<char>, b: Seq<char>, c: Seq<char>)
    requires
        seq_lt(a, b),
        seq_lt(b, c),
    ensures
        seq_lt(a, c),
    decreases a.len(),
{
    if a.len() > 0 && b.len() > 0 && c.len() > 0 && a[0] == b[0] && b[0] == c[0] {
        lemma_seq_lt_transitive(a.drop_first(), b.drop_first(), c.drop_first());
    }
}

pub proof fn lemma_seq_lt_total(a: Seq<char>, b: Seq<char>)
    requires
        a != b,
    ensures
        seq_lt(a, b) || seq_lt(b, a),
    decreases a.len(),
{
    if a.len() > 0 && b.len() > 0 && a[0] == b[0] {
        if a.drop_first() == b.drop_first() {
            assert(a =~= seq![a[0]] + a.drop_first());
            assert(b =~= seq![b[0]] + b.drop_first());
        }
        lemma_seq_lt_total(a.drop_first(), b.drop_first());
    } else if a.len() == 0 && b.len() == 0 {
        assert(a =~= b);
    }
}

/// `ks` is strictly ascending.
pub open spec fn keys_ascending(ks: Seq<GroupKey>) -> bool {
    forall|a: int, b: int| 0 <= a < b < ks.len() ==> gk_lt(#[trigger] ks[a], #[trigger] ks[b])
}

proof fn lemma_insert_key_sorted(ks: Seq<GroupKey>, k: GroupKey)
    requires
        keys_ascending(ks),
    ensures
        keys_ascending(insert_key(ks, k)),
        forall|x: GroupKey| #[trigger] insert_key(ks, k).contains(x) <==> (ks.contains(x) || x == k),
    decreases ks.len(),
{
    let r = insert_key(ks, k);
    if ks.len() == 0 {
        assert forall|x: GroupKey| #[trigger] r.contains(x) <==> (ks.contains(x) || x == k) by {
            if r.contains(x) {
                assert(r[0] == x);
            }
            if x == k {
                assert(r[0] == k);
            }
        }
    } else if ks.last() == k {
        assert forall|x: GroupKey| #[trigger] r.contains(x) <==> (ks.contains(x) || x == k) by {
            if x == k {
                assert(ks[ks.len() - 1] == k);
            }
        }
    } else if gk_lt(k, ks.last()) {
        let k2 = ks.drop_last();
        let last = ks.last();
        assert(keys_ascending(k2)) by {
            assert forall|a: int, b: int| 0 <= a < b < k2.len() implies gk_lt(#[trigger] k2[a], #[trigger] k2[b]) by {
                assert(k2[a] == ks[a] && k2[b] == ks[b]);
            }
        }
        lemma_insert_key_sorted(k2, k);
        let r2 = insert_key(k2, k);
        assert(r == r2.push(last));
        assert forall|q: int| 0 <= q < r2.len() implies gk_lt(#[trigger] r2[q], last) by {
            assert(r2.contains(r2[q]));
            if r2[q] != k {
                assert(k2.contains(r2[q]));
                let p = choose|p: int| 0 <= p < k2.len() && k2[p] == r2[q];
                assert(ks[p] == r2[q]);
                assert(ks[ks.len() - 1] == last);
            }
        }
        assert forall|a: int, b: int| 0 <= a < b < r.len() implies gk_lt(#[trigger] r[a], #[trigger] r[b]) by {
            if b < r2.len() {
                assert(r[a] == r2[a] && r[b] == r2[b]);
            } else {
                assert(r[a] == r2[a]);
            }
        }
        assert forall|x: GroupKey| #[trigger] r.contains(x) <==> (ks.contains(x) || x == k) by {
            if r.contains(x) {
                let q = choose|q: int| 0 <= q < r.len() && r[q] == x;
                if q < r2.len() {
                    assert(r2[q] == x);
                    assert(r2.contains(x));
                    if k2.contains(x) {
                        let p = choose|p: int| 0 <= p < k2.len() && k2[p] == x;
                        assert(ks[p] == x);
                    }
                } else {
                    assert(ks[ks.len() - 1] == x);
                }
            }
            if ks.contains(x) {
                let p = choose|p: int| 0 <= p < ks.len() && ks[p] == x;
                if p < ks.len() - 1 {
                    assert(k2[p] == x);
                    assert(k2.contains(x));
                    assert(r2.contains(x));
                    let q = choose|q: int| 0 <= q < r2.len() && r2[q] == x;
                    assert(r[q] == x);
                } else {
                    assert(r[r2.len() as int] == x);
                }
            }
            if x == k {
                assert(r2.contains(k));
                let q = choose|q: int| 0 <= q < r2.len() && r2[q] == k;
                assert(r[q] == k);
            }
        }
    } else {
        let last = ks.last();
        assert(gk_lt(last, k)) by {
            if last.0 == k.0 {
                assert(last.1 != k.1);
                lemma_seq_lt_total(last.1, k.1);
            }
        }
        assert(r == ks.push(k));
        assert forall|a: int, b: int| 0 <= a < b < r.len() implies gk_lt(#[trigger] r[a], #[trigger] r[b]) by {
            if b < ks.len() {
                assert(r[a] == ks[a] && r[b] == ks[b]);
            } else {
                assert(r[a] == ks[a]);
                if a < ks.len() - 1 {
                    assert(gk_lt(ks[a], ks[ks.len() - 1]));
                    if ks[a].0 == last.0 && last.0 == k.0 {
                        lemma_seq_lt_transitive(ks[a].1, last.1, k.1);
                    }
                }
            }
        }
        assert forall|x: GroupKey| #[trigger] r.contains(x) <==> (ks.contains(x) || x == k) by {
            if r.contains(x) {
                let q = choose|q: int| 0 <= q < r.len() && r[q] == x;
                if q < ks.len() {
                    assert(ks[q] == x);
                }
            }
            if ks.contains(x) {
                let p = choose|p: int| 0 <= p < ks.len() && ks[p] == x;
                assert(r[p] == x);
            }
            if x == k {
                assert(r[ks.len() as int] == k);
            }
        }
    }
}

impl NoDoubledJoshi {
    /// The groups of the first `n` particles are visited in ascending (sentence, key) order,
    /// each exactly once.
    pub proof fn law_group_order(&self, ms: Seq<Joshi>, n: int, base: u32, t: Seq<char>)
        requires
            0 <= n <= ms.len(),
        ensures
            keys_ascending(self.keys_upto(ms, n, base, t)),
            forall|k: GroupKey|
                #[trigger] self.keys_upto(ms, n, base, t).contains(k) <==> exists|i: int|
                    0 <= i < n && self.gkey(ms[i], base, t) == k,
        decreases n,
    {
        if n > 0 {
            self.law_group_order(ms, n - 1, base, t);
            let prev = self.keys_upto(ms, n - 1, base, t);
            lemma_insert_key_sorted(prev, self.gkey(ms[n - 1], base, t));
            assert forall|k: GroupKey|
                #[trigger] self.keys_upto(ms, n, base, t).contains(k) <==> exists|i: int|
                    0 <= i < n && self.gkey(ms[i], base, t) == k by {
                if self.keys_upto(ms, n, base, t).contains(k) {
                    if prev.contains(k) {
                        let i = choose|i: int| 0 <= i < n - 1 && self.gkey(ms[i], base, t) == k;
                        assert(0 <= i < n && self.gkey(ms[i], base, t) == k);
                    } else {
                        assert(self.gkey(ms[n - 1], base, t) == k);
                    }
                }
                if exists|i: int| 0 <= i < n && self.gkey(ms[i], base, t) == k {
                    let i = choose|i: int| 0 <= i < n && self.gkey(ms[i], base, t) == k;
                    if i < n - 1 {
                        assert(prev.contains(k));
                    }
                }
            }
        } else {
            assert forall|k: GroupKey|
                #[trigger] self.keys_upto(ms, n, base, t).contains(k) <==> exists|i: int|
                    0 <= i < n && self.gkey(ms[i], base, t) == k by {
                assert(self.keys_upto(ms, n, base, t) == Seq::<GroupKey>::empty());
            }
        }
    }
}

/// Every consecutive member of a group is one of the group's particles.
pub open spec fn all_parallel(ms: Seq<Joshi>, mem: Seq<int>) -> bool {
    forall|i: int| 0 <= i < mem.len() ==> #[trigger] ms[mem[i]].subtype == Some("並立助詞"@)
}

impl NoDoubledJoshi {
    /// The group of particle `j`.
    pub open spec fn gkey(&self, j: Joshi, base: u32, t: Seq<char>) -> GroupKey {
        (self.sentence_of(base, t, j.start), j.key)
    }

    /// The distinct groups of the first `n` particles, in visiting order.
    pub open spec fn keys_upto(&self, ms: Seq<Joshi>, n: int, base: u32, t: Seq<char>) -> Seq<GroupKey>
        decreases n,
    {
        if n <= 0 {
            seq![]
        } else {
            insert_key(self.keys_upto(ms, n - 1, base, t), self.gkey(ms[n - 1], base, t))
        }
    }

    /// The indices among the first `n` particles that belong to group `k`, in order.
    pub open spec fn members_upto(&self, ms: Seq<Joshi>, k: GroupKey, n: int, base: u32, t: Seq<char>) -> Seq<int>
        decreases n,
    {
        if n <= 0 {
            seq![]
        } else {
            let r = self.members_upto(ms, k, n - 1, base, t);
            if self.gkey(ms[n - 1], base, t) == k {
                r.push(n - 1)
            } else {
                r
            }
        }
    }

    /// Reports for the consecutive pairs `(mem[j-1], mem[j])`, `1 <= j <= n`: the second of a
    /// pair whose gap is below `min_interval` is flagged (a かどうか pair is skipped unless
    /// strict).
    pub open spec fn pair_reports(&self, ms: Seq<Joshi>, mem: Seq<int>, n: int, toks: Seq<Token>, base: u32, t: Seq<char>) -> Seq<Report>
        decreases n,
    {
        if n <= 0 {
            seq![]
        } else {
            let rest = self.pair_reports(ms, mem, n - 1, toks, base, t);
            let prev = ms[mem[n - 1]];
            let curr = ms[mem[n]];
            if (!self.strict && is_ka_douka(prev, curr, toks, base, t)) || self.interval(prev, curr, base, t) >= self.min_interval {
                rest
            } else {
                rest.push(plain(Span { start: curr.start, end: curr.end }, doubled_message(prev, curr)))
            }
        }
    }

    /// Reports for one group: none for a single particle, nor (non-strict) for a group of 並立助詞.
    pub open spec fn group_reports(&self, ms: Seq<Joshi>, mem: Seq<int>, toks: Seq<Token>, base: u32, t: Seq<char>) -> Seq<Report> {
        if mem.len() < 2 || (!self.strict && all_parallel(ms, mem)) {
            seq![]
        } else {
            self.pair_reports(ms, mem, mem.len() - 1, toks, base, t)
        }
    }

    /// Reports for each group of `ks` in turn.
    pub open spec fn keyed_reports(&self, ms: Seq<Joshi>, ks: Seq<GroupKey>, toks: Seq<Token>, base: u32, t: Seq<char>) -> Seq<Report>
        decreases ks.len(),
    {
        if ks.len() == 0 {
            seq![]
        } else {
            self.keyed_reports(ms, ks.drop_last(), toks, base, t) + self.group_reports(
                ms,
                self.members_upto(ms, ks.last(), ms.len() as int, base, t),
                toks,
                base,
                t,
            )
        }
    }

    /// The merged particles of the tokens `ts` of a node at `base` with text `t`.
    pub open spec fn merged_particles(&self, base: u32, t: Seq<char>, ts: Seq<Token>) -> Seq<Joshi> {
        let ps = self.particles_upto(base, t, sorted_tokens(ts), ts.len() as int);
        merged_upto(ps, ps.len() as int, base, t)
    }

    /// What the rule reports for a node at `base` with text `t` and tokens `ts`.
    pub open spec fn spec_check_at(&self, base: u32, t: Seq<char>, ts: Seq<Token>) -> Seq<Report> {
        let ms = self.merged_particles(base, t, ts);
        self.keyed_reports(ms, self.keys_upto(ms, ms.len() as int, base, t), sorted_tokens(ts), base, t)
    }
}

impl NoDoubledJoshi {
    /// The two rules agree on every option that decides which particles there are and how
    /// they are grouped (all but `min_interval` and the metadata).
    pub open spec fn same_scan(&self, o: NoDoubledJoshi) -> bool {
        &&& self.strict == o.strict
        &&& views(self.allow@) == views(o.allow@)
        &&& self.separator_characters@ == o.separator_characters@
        &&& self.comma_characters@ == o.comma_characters@
    }

    /// The two rules agree on every option the reports read (all but the metadata).
    pub open spec fn same_settings(&self, o: NoDoubledJoshi) -> bool {
        &&& self.same_scan(o)
        &&& self.min_interval == o.min_interval
    }

    proof fn lemma_same_particles(&self, o: NoDoubledJoshi, base: u32, t: Seq<char>, toks: Seq<Token>, n: int)
        requires
            self.same_scan(o),
        ensures
            self.particles_upto(base, t, toks, n) == o.particles_upto(base, t, toks, n),
        decreases n,
    {
        if n > 0 {
            self.lemma_same_particles(o, base, t, toks, n - 1);
        }
    }

    proof fn lemma_same_gkey(&self, o: NoDoubledJoshi, j: Joshi, base: u32, t: Seq<char>)
        requires
            self.same_scan(o),
        ensures
            self.gkey(j, base, t) == o.gkey(j, base, t),
    {
        assert((|c: char| self.separator_characters@.contains(c)) =~= (|c: char| o.separator_characters@.contains(c)));
    }

    proof fn lemma_same_keys(&self, o: NoDoubledJoshi, ms: Seq<Joshi>, n: int, base: u32, t: Seq<char>)
        requires
            self.same_scan(o),
        ensures
            self.keys_upto(ms, n, base, t) == o.keys_upto(ms, n, base, t),
        decreases n,
    {
        if n > 0 {
            self.lemma_same_keys(o, ms, n - 1, base, t);
            self.lemma_same_gkey(o, ms[n - 1], base, t);
        }
    }

    proof fn lemma_same_members(&self, o: NoDoubledJoshi, ms: Seq<Joshi>, k: GroupKey, n: int, base: u32, t: Seq<char>)
        requires
            self.same_scan(o),
        ensures
            self.members_upto(ms, k, n, base, t) == o.members_upto(ms, k, n, base, t),
        decreases n,
    {
        if n > 0 {
            self.lemma_same_members(o, ms, k, n - 1, base, t);
            self.lemma_same_gkey(o, ms[n - 1], base, t);
        }
    }

    proof fn lemma_same_pairs(
        &self,
        o: NoDoubledJoshi,
        ms: Seq<Joshi>,
        mem: Seq<int>,
        n: int,
        toks: Seq<Token>,
        base: u32,
        t: Seq<char>,
    )
        requires
            self.same_settings(o),
        ensures
            self.pair_reports(ms, mem, n, toks, base, t) == o.pair_reports(ms, mem, n, toks, base, t),
        decreases n,
    {
        if n > 0 {
            self.lemma_same_pairs(o, ms, mem, n - 1, toks, base, t);
            assert((|c: char| self.widens(c)) =~= (|c: char| o.widens(c)));
        }
    }

    proof fn lemma_same_keyed(&self, o: NoDoubledJoshi, ms: Seq<Joshi>, ks: Seq<GroupKey>, toks: Seq<Token>, base: u32, t: Seq<char>)
        requires
            self.same_settings(o),
        ensures
            self.keyed_reports(ms, ks, toks, base, t) == o.keyed_reports(ms, ks, toks, base, t),
        decreases ks.len(),
    {
        if ks.len() > 0 {
            self.lemma_same_keyed(o, ms, ks.drop_last(), toks, base, t);
            self.lemma_same_members(o, ms, ks.last(), ms.len() as int, base, t);
            let mem = self.members_upto(ms, ks.last(), ms.len() as int, base, t);
            if mem.len() >= 2 {
                self.lemma_same_pairs(o, ms, mem, mem.len() - 1, toks, base, t);
            }
        }
    }

    /// The reports read only the options, not the metadata: two rules with the same settings
    /// report the same on every node.
    pub proof fn lemma_reports_read_only_settings(&self, o: NoDoubledJoshi, node: NodeRef)
        requires
            self.same_settings(o),
        ensures
            self.spec_check(node) == o.spec_check(node),
    {
        if let Some(ts) = node.tokens {
            let base = node.span.start;
            let t = node.text@;
            self.lemma_same_particles(o, base, t, sorted_tokens(ts@), ts@.len() as int);
            let ms = self.merged_particles(base, t, ts@);
            self.lemma_same_keys(o, ms, ms.len() as int, base, t);
            self.lemma_same_keyed(o, ms, self.keys_upto(ms, ms.len() as int, base, t), sorted_tokens(ts@), base, t);
        }
    }
}

/// `f` places the reports `a` in order among the reports `b`.
pub open spec fn embeds(f: Seq<int>, a: Seq<Report>, b: Seq<Report>) -> bool {
    &&& f.len() == a.len()
    &&& forall|i: int| 0 <= i < f.len() ==> 0 <= #[trigger] f[i] < b.len() && b[f[i]] == a[i]
    &&& forall|i: int, j: int| 0 <= i < j < f.len() ==> #[trigger] f[i] < #[trigger] f[j]
}

/// `a` is a subsequence of `b`: `b` holds every report of `a`, in the same order.
pub open spec fn subseq_of(a: Seq<Report>, b: Seq<Report>) -> bool {
    exists|f: Seq<int>| embeds(f, a, b)
}

proof fn lemma_subseq_empty(b: Seq<Report>)
    ensures
        subseq_of(Seq::empty(), b),
{
    assert(embeds(Seq::empty(), Seq::empty(), b));
}

proof fn lemma_subseq_push(a: Seq<Report>, b: Seq<Report>, x: Report, both: bool)
    requires
        subseq_of(a, b),
    ensures
        both ==> subseq_of(a.push(x), b.push(x)),
        subseq_of(a, b.push(x)),
{
    let f = choose|f: Seq<int>| embeds(f, a, b);
    assert(embeds(f, a, b.push(x)));
    if both {
        let g = f.push(b.len() as int);
        assert(embeds(g, a.push(x), b.push(x)));
    }
}

proof fn lemma_subseq_concat(a1: Seq<Report>, b1: Seq<Report>, a2: Seq<Report>, b2: Seq<Report>)
    requires
        subseq_of(a1, b1),
        subseq_of(a2, b2),
    ensures
        subseq_of(a1 + a2, b1 + b2),
{
    let f1 = choose|f: Seq<int>| embeds(f, a1, b1);
    let f2 = choose|f: Seq<int>| embeds(f, a2, b2);
    let g = f1 + f2.map_values(|i: int| i + b1.len());
    assert forall|i: int| 0 <= i < g.len() implies 0 <= #[trigger] g[i] < (b1 + b2).len() && (b1 + b2)[g[i]] == (a1 + a2)[i] by {
        if i >= f1.len() {
            assert(g[i] == f2[i - f1.len()] + b1.len());
        }
    }
    assert forall|i: int, j: int| 0 <= i < j < g.len() implies #[trigger] g[i] < #[trigger] g[j] by {
        if i >= f1.len() {
            assert(g[i] == f2[i - f1.len()] + b1.len() && g[j] == f2[j - f1.len()] + b1.len());
        } else if j >= f1.len() {
            assert(g[j] == f2[j - f1.len()] + b1.len());
        }
    }
    assert(embeds(g, a1 + a2, b1 + b2));
}

impl NoDoubledJoshi {
    proof fn lemma_pairs_grow(
        &self,
        o: NoDoubledJoshi,
        ms: Seq<Joshi>,
        mem: Seq<int>,
        n: int,
        toks: Seq<Token>,
        base: u32,
        t: Seq<char>,
    )
        requires
            self.same_scan(o),
            self.min_interval <= o.min_interval,
        ensures
            subseq_of(self.pair_reports(ms, mem, n, toks, base, t), o.pair_reports(ms, mem, n, toks, base, t)),
        decreases n,
    {
        if n <= 0 {
            lemma_subseq_empty(o.pair_reports(ms, mem, n, toks, base, t));
        } else {
            self.lemma_pairs_grow(o, ms, mem, n - 1, toks, base, t);
            assert((|c: char| self.widens(c)) =~= (|c: char| o.widens(c)));
            let prev = ms[mem[n - 1]];
            let curr = ms[mem[n]];
            let x = plain(Span { start: curr.start, end: curr.end }, doubled_message(prev, curr));
            lemma_subseq_push(
                self.pair_reports(ms, mem, n - 1, toks, base, t),
                o.pair_reports(ms, mem, n - 1, toks, base, t),
                x,
                true,
            );
        }
    }

    proof fn lemma_keyed_grow(&self, o: NoDoubledJoshi, ms: Seq<Joshi>, ks: Seq<GroupKey>, toks: Seq<Token>, base: u32, t: Seq<char>)
        requires
            self.same_scan(o),
            self.min_interval <= o.min_interval,
        ensures
            subseq_of(self.keyed_reports(ms, ks, toks, base, t), o.keyed_reports(ms, ks, toks, base, t)),
        decreases ks.len(),
    {
        if ks.len() == 0 {
            lemma_subseq_empty(o.keyed_reports(ms, ks, toks, base, t));
        } else {
            self.lemma_keyed_grow(o, ms, ks.drop_last(), toks, base, t);
            self.lemma_same_members(o, ms, ks.last(), ms.len() as int, base, t);
            let mem = self.members_upto(ms, ks.last(), ms.len() as int, base, t);
            if mem.len() >= 2 && !(!self.strict && all_parallel(ms, mem)) {
                self.lemma_pairs_grow(o, ms, mem, mem.len() - 1, toks, base, t);
            } else {
                lemma_subseq_empty(o.group_reports(ms, mem, toks, base, t));
            }
            lemma_subseq_concat(
                self.keyed_reports(ms, ks.drop_last(), toks, base, t),
                o.keyed_reports(ms, ks.drop_last(), toks, base, t),
                self.group_reports(ms, mem, toks, base, t),
                o.group_reports(ms, mem, toks, base, t),
            );
        }
    }

    /// Raising `min_interval` never removes a report: with every other option the same, the
    /// reports of the rule with the smaller `min_interval` all occur, in the same order, among
    /// those of the rule with the larger.
    pub proof fn law_raising_min_interval_keeps_reports(&self, o: NoDoubledJoshi, node: NodeRef)
        requires
            self.same_scan(o),
            self.min_interval <= o.min_interval,
        ensures
            subseq_of(self.spec_check(node), o.spec_check(node)),
    {
        if let Some(ts) = node.tokens {
            let base = node.span.start;
            let t = node.text@;
            self.lemma_same_particles(o, base, t, sorted_tokens(ts@), ts@.len() as int);
            let ms = self.merged_particles(base, t, ts@);
            self.lemma_same_keys(o, ms, ms.len() as int, base, t);
            self.lemma_keyed_grow(o, ms, self.keys_upto(ms, ms.len() as int, base, t), sorted_tokens(ts@), base, t);
        } else {
            lemma_subseq_empty(o.spec_check(node));
        }
    }
}

fn seq_lt_exec(a: &[char], b: &[char]) -> (r: bool)
    ensures
        r == seq_lt(a@, b@),
{
    let mut i: usize = 0;
    assert(a@.skip(0) =~= a@);
    assert(b@.skip(0) =~= b@);
    while i < a.len() && i < b.len()
        invariant
            i <= a.len(),
            i <= b.len(),
            seq_lt(a@, b@) == seq_lt(a@.skip(i as int), b@.skip(i as int)),
        decreases a.len() - i,
    {
        if a[i] != b[i] {
            return a[i] < b[i];
        }
        assert(a@.skip(i as int).drop_first() =~= a@.skip(i + 1));
        assert(b@.skip(i as int).drop_first() =~= b@.skip(i + 1));
        i = i + 1;
    }
    i < b.len()
}

fn gk_lt_exec(a: &(usize, Vec<char>), b: &(usize, Vec<char>)) -> (r: bool)
    ensures
        r == gk_lt((a.0 as nat, a.1@), (b.0 as nat, b.1@)),
{
    a.0 < b.0 || (a.0 == b.0 && seq_lt_exec(a.1.as_slice(), b.1.as_slice()))
}

spec fn kview(k: (usize, Vec<char>)) -> GroupKey {
    (k.0 as nat, k.1@)
}

spec fn kviews(ks: Seq<(usize, Vec<char>)>) -> Seq<GroupKey> {
    ks.map_values(|k: (usize, Vec<char>)| kview(k))
}

/// Add `k` to the ordered list of distinct groups `keys`.
fn insert_group(keys: &mut Vec<(usize, Vec<char>)>, k: (usize, Vec<char>))
    ensures
        kviews(final(keys)@) == insert_key(kviews(old(keys)@), kview(k)),
{
    let ghost kv = kviews(keys@);
    let mut p: usize = keys.len();
    while p > 0 && gk_lt_exec(&k, &keys[p - 1])
        invariant
            p <= keys@.len(),
            kv == kviews(keys@),
            forall|q: int| p <= q < kv.len() ==> gk_lt(kview(k), #[trigger] kv[q]),
        decreases p,
    {
        assert(kv[p - 1] == kview(keys@[p - 1]));
        p = p - 1;
    }
    proof {
        if p > 0 {
            assert(kv[p - 1] == kview(keys@[p - 1]));
        }
        lemma_insert_key_at(kv, kview(k), p as int);
    }
    if p > 0 && keys[p - 1].0 == k.0 && crate::text::seq_eq(keys[p - 1].1.as_slice(), k.1.as_slice()) {
        assert(kv[p - 1] == kview(k));
        return;
    }
    let ghost k0 = keys@;
    keys.insert(p, k);
    assert(kviews(keys@) =~= kv.take(p as int) + seq![kview(k)] + kv.skip(p as int));
}

} // verus!

verus! {

// ---------------------------------------------------------------------------
// Checking
// ---------------------------------------------------------------------------

spec fn indices(v: Seq<usize>) -> Seq<int> {
    v.map_values(|i: usize| i as int)
}

impl NoDoubledJoshi {
    fn sentence_exec(&self, base: u32, t: &Vec<char>, offs: &Vec<usize>, start: u32) -> (n: usize)
        requires
            offsets_ok(t@, offs@),
        ensures
            n == self.sentence_of(base, t@, start),
    {
        let (lo, hi) = byte_range(t, offs, 0, sat_rel(start, base));
        count_among(t, lo, hi, &self.separator_characters, false, Ghost(|c: char| self.separator_characters@.contains(c)))
    }

    fn interval_exec(&self, prev: &Particle, curr: &Particle, base: u32, t: &Vec<char>, offs: &Vec<usize>) -> (n: usize)
        requires
            offsets_ok(t@, offs@),
        ensures
            n == self.interval(pview(*prev), pview(*curr), base, t@),
    {
        if curr.start <= prev.end {
            return 0;
        }
        let (lo, hi) = byte_range(t, offs, sat_rel(prev.end, base), sat_rel(curr.start, base));
        count_among(t, lo, hi, &self.comma_characters, true, Ghost(|c: char| self.widens(c)))
    }

    /// Report the pairs of one group (see [`NoDoubledJoshi::group_reports`]).
    fn report_group(
        &self,
        ms: &Vec<Particle>,
        members: &Vec<usize>,
        ts: &Vec<Token>,
        order: &Vec<usize>,
        base: u32,
        t: &Vec<char>,
        offs: &Vec<usize>,
        cx: &mut Context,
    )
        requires
            old(cx).wf(),
            offsets_ok(t@, offs@),
            forall|k: int| 0 <= k < members@.len() ==> #[trigger] members@[k] < ms@.len(),
            forall|k: int| 0 <= k < ms@.len() ==> #[trigger] ms@[k].tok_idx < ts@.len(),
            order@.len() == ts@.len(),
            forall|k: int| 0 <= k < order@.len() ==> #[trigger] order@[k] < ts@.len(),
            order@.map_values(|i: usize| i as int) == surface_order_upto(ts@, ts@.len() as int),
        ensures
            final(cx).wf(),
            final(cx).id() == old(cx).id(),
            final(cx).severity() == old(cx).severity(),
            final(cx).reports() == old(cx).reports() + self.group_reports(pviews(ms@), indices(members@), sorted_tokens(ts@), base, t@),
    {
        let ghost msv = pviews(ms@);
        let ghost mem = indices(members@);
        let ghost toks = sorted_tokens(ts@);
        if members.len() < 2 {
            assert(old(cx).reports() + Seq::<Report>::empty() =~= old(cx).reports());
            return;
        }
        if !self.strict && all_parallel_exec(ms, members) {
            assert(old(cx).reports() + Seq::<Report>::empty() =~= old(cx).reports());
            return;
        }
        let mut j: usize = 1;
        while j < members.len()
            invariant
                1 <= j <= members.len(),
                mem == indices(members@),
                msv == pviews(ms@),
                toks == sorted_tokens(ts@),
                offsets_ok(t@, offs@),
                forall|k: int| 0 <= k < members@.len() ==> #[trigger] members@[k] < ms@.len(),
                forall|k: int| 0 <= k < ms@.len() ==> #[trigger] ms@[k].tok_idx < ts@.len(),
                order@.len() == ts@.len(),
                forall|k: int| 0 <= k < order@.len() ==> #[trigger] order@[k] < ts@.len(),
                order@.map_values(|i: usize| i as int) == surface_order_upto(ts@, ts@.len() as int),
                cx.wf(),
                cx.id() == old(cx).id(),
                cx.severity() == old(cx).severity(),
                cx.reports() == old(cx).reports() + self.pair_reports(msv, mem, j - 1, toks, base, t@),
            decreases members.len() - j,
        {
            let prev = &ms[members[j - 1]];
            let curr = &ms[members[j]];
            assert(msv[mem[j - 1]] == pview(*prev));
            assert(msv[mem[j as int]] == pview(*curr));
            let skip = !self.strict && ka_douka_exec(prev, curr, ts, order, base, t, offs);
            if !skip && self.interval_exec(prev, curr, base, t, offs) < self.min_interval {
                let msg = doubled_message_exec(prev, curr);
                cx.report(Span::new(curr.start, curr.end), msg);
            }
            j = j + 1;
        }
    }

    fn check_tokens(&self, base: u32, text: &str, ts: &Vec<Token>, cx: &mut Context)
        requires
            old(cx).wf(),
            fits_usize(text@),
        ensures
            final(cx).wf(),
            final(cx).id() == old(cx).id(),
            final(cx).severity() == old(cx).severity(),
            final(cx).reports() == old(cx).reports() + self.spec_check_at(base, text@, ts@),
    {
        let t = str_chars(text);
        let offs = byte_offsets(&t);
        let order = surface_order(ts);
        let ps = self.extract(base, &t, &offs, ts, &order);
        let ms = merge(base, &t, &offs, &ps, Ghost(ts@.len() as nat));
        let ghost msv = pviews(ms@);
        let ghost toks = sorted_tokens(ts@);
        assert(msv == self.merged_particles(base, t@, ts@));
        let mut sents: Vec<usize> = Vec::new();
        let mut keys: Vec<(usize, Vec<char>)> = Vec::new();
        let mut i: usize = 0;
        while i < ms.len()
            invariant
                i <= ms.len(),
                msv == pviews(ms@),
                offsets_ok(t@, offs@),
                sents@.len() == i,
                forall|k: int| 0 <= k < i ==> #[trigger] sents@[k] == self.sentence_of(base, t@, msv[k].start),
                kviews(keys@) == self.keys_upto(msv, i as int, base, t@),
            decreases ms.len() - i,
        {
            let s = self.sentence_exec(base, &t, &offs, ms[i].start);
            sents.push(s);
            let k = (s, copy_chars(ms[i].key.as_slice()));
            assert(kview(k) == self.gkey(msv[i as int], base, t@));
            insert_group(&mut keys, k);
            i = i + 1;
        }
        let ghost kv = kviews(keys@);
        let ghost r0 = cx.reports();
        let mut g: usize = 0;
        while g < keys.len()
            invariant
                g <= keys.len(),
                kv == kviews(keys@),
                kv == self.keys_upto(msv, msv.len() as int, base, t@),
                msv == pviews(ms@),
                toks == sorted_tokens(ts@),
                offsets_ok(t@, offs@),
                sents@.len() == ms@.len(),
                forall|k: int| 0 <= k < ms@.len() ==> #[trigger] sents@[k] == self.sentence_of(base, t@, msv[k].start),
                forall|k: int| 0 <= k < ms@.len() ==> #[trigger] ms@[k].tok_idx < ts@.len(),
                order@.len() == ts@.len(),
                forall|k: int| 0 <= k < order@.len() ==> #[trigger] order@[k] < ts@.len(),
                order@.map_values(|i: usize| i as int) == surface_order_upto(ts@, ts@.len() as int),
                cx.wf(),
                cx.id() == old(cx).id(),
                cx.severity() == old(cx).severity(),
                r0 == old(cx).reports(),
                cx.reports() == r0 + self.keyed_reports(msv, kv.take(g as int), toks, base, t@),
            decreases keys.len() - g,
        {
            let ghost gk = kv[g as int];
            assert(gk == kview(keys@[g as int]));
            let mut members: Vec<usize> = Vec::new();
            let mut i: usize = 0;
            while i < ms.len()
                invariant
                    i <= ms.len(),
                    g < keys.len(),
                    gk == kview(keys@[g as int]),
                    msv == pviews(ms@),
                    sents@.len() == ms@.len(),
                    forall|k: int| 0 <= k < ms@.len() ==> #[trigger] sents@[k] == self.sentence_of(base, t@, msv[k].start),
                    forall|k: int| 0 <= k < members@.len() ==> #[trigger] members@[k] < i,
                    indices(members@) == self.members_upto(msv, gk, i as int, base, t@),
                decreases ms.len() - i,
            {
                assert(msv[i as int] == pview(ms@[i as int]));
                if sents[i] == keys[g].0 && crate::text::seq_eq(ms[i].key.as_slice(), keys[g].1.as_slice()) {
                    let ghost m0 = members@;
                    members.push(i);
                    assert(indices(members@) =~= indices(m0).push(i as int));
                }
                i = i + 1;
            }
            self.report_group(&ms, &members, ts, &order, base, &t, &offs, cx);
            assert(kv.take(g + 1).drop_last() =~= kv.take(g as int));
            assert(kv.take(g + 1).last() == gk);
            g = g + 1;
        }
        assert(kv.take(g as int) =~= kv);
    }
}

fn all_parallel_exec(ms: &Vec<Particle>, members: &Vec<usize>) -> (b: bool)
    requires
        forall|k: int| 0 <= k < members@.len() ==> #[trigger] members@[k] < ms@.len(),
    ensures
        b == all_parallel(pviews(ms@), indices(members@)),
{
    let ghost msv = pviews(ms@);
    let ghost mem = indices(members@);
    let mut i: usize = 0;
    while i < members.len()
        invariant
            i <= members.len(),
            mem == indices(members@),
            msv == pviews(ms@),
            forall|k: int| 0 <= k < members@.len() ==> #[trigger] members@[k] < ms@.len(),
            forall|q: int| 0 <= q < i ==> #[trigger] msv[mem[q]].subtype == Some("並立助詞"@),
        decreases members.len() - i,
    {
        let p = &ms[members[i]];
        assert(msv[mem[i as int]] == pview(*p));
        if !opt_eq_str(&p.subtype, "並立助詞") {
            assert(msv[mem[i as int]].subtype != Some("並立助詞"@));
            assert(!all_parallel(msv, mem));
            return false;
        }
        i = i + 1;
    }
    true
}

fn ka_douka_exec(prev: &Particle, curr: &Particle, ts: &Vec<Token>, order: &Vec<usize>, base: u32, t: &Vec<char>, offs: &Vec<usize>) -> (b: bool)
    requires
        offsets_ok(t@, offs@),
        prev.tok_idx < ts@.len(),
        curr.tok_idx < ts@.len(),
        order@.len() == ts@.len(),
        forall|k: int| 0 <= k < order@.len() ==> #[trigger] order@[k] < ts@.len(),
        order@.map_values(|i: usize| i as int) == surface_order_upto(ts@, ts@.len() as int),
    ensures
        b == is_ka_douka(pview(*prev), pview(*curr), sorted_tokens(ts@), base, t@),
{
    if !(chars_eq_str(prev.surface.as_slice(), "か") && chars_eq_str(curr.surface.as_slice(), "か")) {
        return false;
    }
    if curr.tok_idx < 2 || curr.tok_idx - 2 != prev.tok_idx {
        return false;
    }
    let mid = prev.tok_idx + 1;
    assert(sorted_tokens(ts@)[mid as int] == ts@[order@[mid as int] as int]);
    match surface_text(base, t, offs, ts[order[mid]].surface) {
        Some(v) => chars_eq_str(v.as_slice(), "どう"),
        None => false,
    }
}

impl Rule for NoDoubledJoshi {
    open spec fn spec_meta(&self) -> RuleMeta {
        self.meta
    }

    open spec fn spec_check(&self, node: NodeRef) -> Seq<Report> {
        match node.tokens {
            Some(ts) => self.spec_check_at(node.span.start, node.text@, ts@),
            None => seq![],
        }
    }

    fn meta(&self) -> (m: &RuleMeta) {
        &self.meta
    }

    fn check(&self, node: &NodeRef, cx: &mut Context) {
        match &node.tokens {
            Some(ts) => self.check_tokens(node.span.start, node.text.as_str(), ts, cx),
            None => {
                assert(cx.reports() + Seq::<Report>::empty() =~= cx.reports());
            },
        }
    }
}

impl Default for NoDoubledJoshi {
    /// The rule with its default options, as [`NoDoubledJoshi::new`] builds it.
    fn default() -> (r: NoDoubledJoshi)
        ensures
            r.meta.id@ == ID@,
            r.meta.node_kinds@ == node_kinds(),
            r.meta.default_severity == Severity::Warning,
            r.meta.lang == Some(Lang::Ja),
            r.meta.morphology,
            r.min_interval == 1,
            !r.strict,
            r.allow@.len() == 0,
            r.separator_characters@ == default_separators(),
            r.comma_characters@ == default_commas(),
    {
        NoDoubledJoshi::new()
    }
}

} // verus!
