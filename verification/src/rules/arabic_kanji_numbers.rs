//! `arabic-kanji-numbers` — enforce correct use of Arabic vs. kanji numerals in Japanese prose
//! (JTF style guide rule 2.2.2).
//!
//! 1. **Kanji → should be Arabic**: `{kanji}つ` (with idiomatic exceptions), `{kanji}回`,
//!    `{kanji}か月`, `{kanji}番目`, `{kanji}進法`, `{kanji}次元`, `第{kanji}章` / `第{kanji}節`,
//!    `{kanji}[兆億万]` (ignoring `数…` / `何…` approximations).
//! 2. **Arabic → should be kanji**: `世界1`, `1時的`, `1部分`, `第3者`, `1種` (not after a digit,
//!    not before `類`), `1部の`, `1番に`, `数{10+}[倍兆億万年]`, `{N}次関数`, `5大陸`.
//!
//! Report-only; the suggested form is described in the message. Matches are found left to right
//! and do not overlap.
use vstd::prelude::*;
use crate::ast::{Rule, abs_span, make_span, plain, Context, Lang, NodeKind, NodeRef, Report, RuleMeta, Severity};
use crate::text::{
    byte_offsets, offsets_ok,
    byte_at, byte_len, fits_usize, lemma_byte_at_mono, lemma_byte_at_strict, lemma_byte_at_bounded, len_utf8, push_str, str_chars, string_of,
    is_ascii_digit, ascii_digit,
};

verus! {

/// The rule id.
pub const ID: &'static str = "arabic-kanji-numbers";

/// The node kinds the rule visits.
pub open spec fn node_kinds() -> Seq<NodeKind> {
    seq![NodeKind::Paragraph, NodeKind::Heading, NodeKind::TableCell]
}

/// Flags incorrect use of Arabic vs. kanji numerals (JTF style guide 2.2.2).
pub struct ArabicKanjiNumbers {
    pub meta: RuleMeta,
}

/// `一二三四五六七八九十壱弐参拾百〇`.
pub open spec fn spec_is_kanji_numeral(c: char) -> bool {
    c == '一' || c == '二' || c == '三' || c == '四' || c == '五' || c == '六' || c == '七' || c == '八'
        || c == '九' || c == '十' || c == '壱' || c == '弐' || c == '参' || c == '拾' || c == '百' || c
        == '〇'
}

/// The kanji numerals the rule recognises are exactly 一二三四五六七八九十壱弐参拾百〇.
pub proof fn law_kanji_numeral_set(c: char)
    ensures
        spec_is_kanji_numeral(c) <==> set!['一', '二', '三', '四', '五', '六', '七', '八', '九', '十', '壱', '弐', '参', '拾', '百', '〇'].contains(c),
{
}

#[verifier::when_used_as_spec(spec_is_kanji_numeral)]
pub fn is_kanji_numeral(c: char) -> (b: bool)
    ensures
        b == spec_is_kanji_numeral(c),
{
    c == '一' || c == '二' || c == '三' || c == '四' || c == '五' || c == '六' || c == '七' || c == '八'
        || c == '九' || c == '十' || c == '壱' || c == '弐' || c == '参' || c == '拾' || c == '百' || c
        == '〇'
}

/// `t[k] == c` with `k` in range.
pub open spec fn is_at(t: Seq<char>, k: int, c: char) -> bool {
    0 <= k < t.len() && t[k] == c
}

fn at(cs: &[char], k: usize, c: char) -> (b: bool)
    ensures
        b == is_at(cs@, k as int, c),
{
    k < cs.len() && cs[k] == c
}

/// First index at or after `j` that is not a kanji numeral (or `t.len()`).
pub open spec fn run_end(t: Seq<char>, j: int) -> int
    decreases t.len() - j,
{
    if j < 0 || j >= t.len() {
        t.len() as int
    } else if spec_is_kanji_numeral(t[j]) {
        run_end(t, j + 1)
    } else {
        j
    }
}

pub proof fn lemma_run_end_bounds(t: Seq<char>, j: int)
    requires
        0 <= j <= t.len(),
    ensures
        j <= run_end(t, j) <= t.len(),
        forall|k: int| j <= k < run_end(t, j) ==> spec_is_kanji_numeral(#[trigger] t[k]),
    decreases t.len() - j,
{
    if j < t.len() && spec_is_kanji_numeral(t[j]) {
        lemma_run_end_bounds(t, j + 1);
    }
}

fn run_end_exec(cs: &[char], j: usize) -> (e: usize)
    requires
        j <= cs.len(),
    ensures
        e == run_end(cs@, j as int),
        j <= e <= cs.len(),
{
    let mut e = j;
    while e < cs.len() && is_kanji_numeral(cs[e])
        invariant
            j <= e <= cs.len(),
            run_end(cs@, e as int) == run_end(cs@, j as int),
        decreases cs.len() - e,
    {
        e = e + 1;
    }
    e
}

/// `Some(r)` when a kanji-numeral run starts right at `from`: `r` is the first index after it.
pub open spec fn kanji_run_after_spec(t: Seq<char>, from: int) -> Option<int> {
    if 0 <= from < t.len() && spec_is_kanji_numeral(t[from]) {
        Some(run_end(t, from))
    } else {
        None
    }
}

/// For a kanji numeral run starting right at `from_i`, the first index after it; `None` if
/// `chars[from_i]` is not a kanji numeral.
fn kanji_run_after(chars: &[char], from_i: usize, n: usize) -> (r: Option<usize>)
    requires
        n == chars.len(),
    ensures
        r == match kanji_run_after_spec(chars@, from_i as int) {
            Some(e) => Some(e as usize),
            None => None::<usize>,
        },
{
    if from_i >= n || !is_kanji_numeral(chars[from_i]) {
        return None;
    }
    let mut end_i = from_i;
    while end_i + 1 < n && is_kanji_numeral(chars[end_i + 1])
        invariant
            n == chars.len(),
            from_i <= end_i < n,
            forall|k: int| from_i <= k <= end_i ==> spec_is_kanji_numeral(#[trigger] chars@[k]),
            run_end(chars@, end_i + 1) == run_end(chars@, from_i as int),
        decreases n - end_i,
    {
        end_i = end_i + 1;
    }
    proof {
        lemma_run_end_bounds(chars@, from_i as int);
    }
    Some(end_i + 1)
}

/// Whether the `つ` at `s` is part of an idiomatic phrase that keeps its kanji numeral: followed
/// by 返事, 子, ひとつ, 星, 編, 葉, 橋, と無い/とない or に一つ; or a lone 一/二 right before it that is
/// preceded by ただ, 唯, 女手/男手, 穴, 瓜 or 馬鹿の.
pub open spec fn koto_exception(t: Seq<char>, s: int) -> bool {
    let a1 = |c: char| is_at(t, s + 1, c);
    let a2 = |c: char| is_at(t, s + 2, c);
    let a3 = |c: char| is_at(t, s + 3, c);
    let rs = run_start_back(t, s - 1);
    let single = rs == s - 1 && (is_at(t, rs, '一') || is_at(t, rs, '二'));
    let p1 = |c: char| is_at(t, rs - 1, c);
    let p2 = |c: char| is_at(t, rs - 2, c);
    let p3 = |c: char| is_at(t, rs - 3, c);
    ||| a1('返') && a2('事')
    ||| a1('子')
    ||| a1('ひ') && a2('と') && a3('つ')
    ||| a1('星') || a1('編') || a1('葉') || a1('橋')
    ||| a1('と') && (a2('無') || a2('な')) && a3('い')
    ||| a1('に') && a2('一') && a3('つ')
    ||| single && rs > 0 && (p1('だ') && p2('た') || p1('唯') || p1('手') && (p2('女') || p2('男'))
        || p1('穴') || p1('瓜') || p1('の') && p2('鹿') && p3('馬'))
}

/// Start of the maximal kanji-numeral run that ends at `j` (which is a numeral), clamped at 0.
pub open spec fn run_start_back(t: Seq<char>, j: int) -> int
    decreases j,
{
    if j <= 0 {
        0
    } else if spec_is_kanji_numeral(t[j - 1]) {
        run_start_back(t, j - 1)
    } else {
        j
    }
}

/// Returns `true` if the `つ` at `suffix_i` is part of an idiomatic exception that should
/// remain kanji (see [`koto_exception`]).
fn is_koto_exception(chars: &[char], suffix_i: usize, n: usize) -> (b: bool)
    requires
        n == chars.len(),
        1 <= suffix_i < n,
        spec_is_kanji_numeral(chars@[suffix_i - 1]),
    ensures
        b == koto_exception(chars@, suffix_i as int),
{
    let ghost t = chars@;
    let after1 = suffix_i + 1;
    if at(chars, after1, '返') && at(chars, suffix_i + 2, '事') {
        return true;
    }
    if at(chars, after1, '子') {
        return true;
    }
    if at(chars, after1, 'ひ') && at(chars, suffix_i + 2, 'と') && at(chars, suffix_i + 3, 'つ') {
        return true;
    }
    if at(chars, after1, '星') || at(chars, after1, '編') || at(chars, after1, '葉') || at(
        chars,
        after1,
        '橋',
    ) {
        return true;
    }
    if at(chars, after1, 'と') && (at(chars, suffix_i + 2, '無') || at(chars, suffix_i + 2, 'な'))
        && at(chars, suffix_i + 3, 'い') {
        return true;
    }
    if at(chars, after1, 'に') && at(chars, suffix_i + 2, '一') && at(chars, suffix_i + 3, 'つ') {
        return true;
    }
    // Walk back from the last numeral to the start of its run.
    let mut run_start = suffix_i - 1;
    while run_start > 0 && is_kanji_numeral(chars[run_start])
        invariant
            0 <= run_start <= suffix_i - 1,
            run_start < n,
            n == chars.len(),
            spec_is_kanji_numeral(t[run_start as int]) || run_start < suffix_i - 1,
            forall|k: int| run_start < k <= suffix_i - 1 ==> spec_is_kanji_numeral(#[trigger] t[k]),
            t == chars@,
            run_start_back(t, suffix_i - 1) == if spec_is_kanji_numeral(t[run_start as int]) {
                run_start_back(t, run_start as int)
            } else {
                run_start + 1
            },
        decreases run_start,
    {
        run_start = run_start - 1;
    }
    let run_start = if is_kanji_numeral(chars[run_start]) {
        run_start
    } else {
        run_start + 1
    };
    assert(run_start == run_start_back(t, suffix_i - 1));
    let single = suffix_i - 1 == run_start && (at(chars, run_start, '一') || at(
        chars,
        run_start,
        '二',
    ));
    if single && run_start > 0 {
        let r1 = run_start - 1;
        if at(chars, r1, 'だ') && r1 >= 1 && at(chars, r1 - 1, 'た') {
            return true;
        }
        if at(chars, r1, '唯') {
            return true;
        }
        if at(chars, r1, '手') && r1 >= 1 && (at(chars, r1 - 1, '女') || at(chars, r1 - 1, '男')) {
            return true;
        }
        if at(chars, r1, '穴') || at(chars, r1, '瓜') {
            return true;
        }
        if at(chars, r1, 'の') && r1 >= 2 && at(chars, r1 - 1, '鹿') && at(chars, r1 - 2, '馬') {
            return true;
        }
    }
    false
}

/// A kanji→Arabic match starting at `i`: `Some((e, reported))` when one spans `t[i..e]`;
/// `reported` is false for an idiomatic `{kanji}つ`, which is consumed but not reported.
pub open spec fn k2a_match_at(t: Seq<char>, i: int) -> Option<(int, bool)> {
    if is_at(t, i, '第') && kanji_run_after_spec(t, i + 1) is Some && {
        let s = run_end(t, i + 1);
        is_at(t, s, '章') || is_at(t, s, '節')
    } {
        Some((run_end(t, i + 1) + 1, true))
    } else if 0 <= i < t.len() && spec_is_kanji_numeral(t[i]) {
        let s = run_end(t, i);
        let approx = is_at(t, i - 1, '数') || is_at(t, i - 1, '何');
        if (is_at(t, s, '兆') || is_at(t, s, '億') || is_at(t, s, '万')) && !approx {
            Some((s + 1, true))
        } else if is_at(t, s, 'つ') {
            Some((s + 1, !koto_exception(t, s)))
        } else if is_at(t, s, '回') {
            Some((s + 1, true))
        } else if is_at(t, s, 'か') && is_at(t, s + 1, '月') || is_at(t, s, '番') && is_at(
            t,
            s + 1,
            '目',
        ) || is_at(t, s, '進') && is_at(t, s + 1, '法') || is_at(t, s, '次') && is_at(t, s + 1, '元') {
            Some((s + 2, true))
        } else {
            None
        }
    } else {
        None
    }
}

/// The kanji→Arabic matches of `t[i..]`, left to right, as `(start, end)` index ranges.
pub open spec fn k2a_from(t: Seq<char>, i: int) -> Seq<(int, int)>
    decreases t.len() - i,
{
    if i < 0 || i >= t.len() {
        seq![]
    } else {
        match k2a_match_at(t, i) {
            Some((e, rep)) => {
                proof {
                    lemma_k2a_match_grows(t, i);
                }
                if rep {
                    seq![(i, e)] + k2a_from(t, e)
                } else {
                    k2a_from(t, e)
                }
            },
            None => k2a_from(t, i + 1),
        }
    }
}

/// Each recognised numeral `d` followed by 回 (as in 三回) is one kanji→Arabic match over both
/// characters.
pub proof fn law_numeral_before_kai(d: char)
    requires
        set!['一', '二', '三', '四', '五', '六', '七', '八', '九', '十', '壱', '弐', '参', '拾', '百', '〇'].contains(d),
    ensures
        k2a_from(seq![d, '回'], 0) == seq![(0int, 2int)],
{
    let t = seq![d, '回'];
    law_kanji_numeral_set(d);
    law_kanji_numeral_set('回');
    assert(run_end(t, 2) == 2);
    assert(run_end(t, 1) == 1);
    assert(run_end(t, 0) == 1);
    assert(k2a_match_at(t, 0) == Some((2int, true)));
    assert(k2a_from(t, 2) == Seq::<(int, int)>::empty());
    assert(k2a_from(t, 0) =~= seq![(0int, 2int)] + k2a_from(t, 2));
}

pub proof fn lemma_k2a_match_grows(t: Seq<char>, i: int)
    requires
        0 <= i < t.len(),
    ensures
        k2a_match_at(t, i) matches Some((e, _)) ==> i < e <= t.len(),
{
    lemma_run_end_bounds(t, i);
    if i + 1 <= t.len() {
        lemma_run_end_bounds(t, i + 1);
    }
}

/// Digit run end: first index at or after `j` that is not an ASCII digit.
pub open spec fn digit_run_end(t: Seq<char>, j: int) -> int
    decreases t.len() - j,
{
    if j < 0 || j >= t.len() {
        t.len() as int
    } else if is_ascii_digit(t[j]) {
        digit_run_end(t, j + 1)
    } else {
        j
    }
}

pub proof fn lemma_digit_run_end_bounds(t: Seq<char>, j: int)
    requires
        0 <= j <= t.len(),
    ensures
        j <= digit_run_end(t, j) <= t.len(),
    decreases t.len() - j,
{
    if j < t.len() && is_ascii_digit(t[j]) {
        lemma_digit_run_end_bounds(t, j + 1);
    }
}

/// Zero run end: first index at or after `j` that is not `'0'`.
pub open spec fn zero_run_end(t: Seq<char>, j: int) -> int
    decreases t.len() - j,
{
    if j < 0 || j >= t.len() {
        t.len() as int
    } else if t[j] == '0' {
        zero_run_end(t, j + 1)
    } else {
        j
    }
}

pub proof fn lemma_zero_run_end_bounds(t: Seq<char>, j: int)
    requires
        0 <= j <= t.len(),
    ensures
        j <= zero_run_end(t, j) <= t.len(),
    decreases t.len() - j,
{
    if j < t.len() && t[j] == '0' {
        lemma_zero_run_end_bounds(t, j + 1);
    }
}

/// An Arabic→kanji match starting at `i`: `Some(e)` when one spans `t[i..e]`.
pub open spec fn a2k_match_at(t: Seq<char>, i: int) -> Option<int> {
    let c = |k: int, x: char| is_at(t, i + k, x);
    if c(0, '世') && c(1, '界') && c(2, '1') {
        Some(i + 3)
    } else if c(0, '第') && c(1, '3') && c(2, '者') {
        Some(i + 3)
    } else if c(0, '数') && c(1, '1') && zero_run_end(t, i + 2) > i + 2 && {
        let nx = zero_run_end(t, i + 2);
        is_at(t, nx, '倍') || is_at(t, nx, '兆') || is_at(t, nx, '億') || is_at(t, nx, '万') || is_at(
            t,
            nx,
            '年',
        )
    } {
        Some(zero_run_end(t, i + 2) + 1)
    } else if 0 <= i < t.len() && is_ascii_digit(t[i]) {
        if c(0, '1') && (c(1, '時') && c(2, '的') || c(1, '部') && c(2, '分') || c(1, '部') && c(2, 'の')
            || c(1, '番') && c(2, 'に')) {
            Some(i + 3)
        } else if c(0, '1') && !(i > 0 && is_ascii_digit(t[i - 1])) && c(1, '種') && !c(2, '類') {
            Some(i + 2)
        } else if c(0, '5') && c(1, '大') && c(2, '陸') {
            Some(i + 3)
        } else if {
            let nx = digit_run_end(t, i);
            is_at(t, nx, '次') && is_at(t, nx + 1, '関') && is_at(t, nx + 2, '数')
        } {
            Some(digit_run_end(t, i) + 3)
        } else {
            None
        }
    } else {
        None
    }
}

pub proof fn lemma_a2k_match_grows(t: Seq<char>, i: int)
    requires
        0 <= i < t.len(),
    ensures
        a2k_match_at(t, i) matches Some(e) ==> i < e <= t.len(),
{
    lemma_digit_run_end_bounds(t, i);
    if i + 2 <= t.len() {
        lemma_zero_run_end_bounds(t, i + 2);
    }
}

/// The Arabic→kanji matches of `t[i..]`, left to right, as `(start, end)` index ranges.
pub open spec fn a2k_from(t: Seq<char>, i: int) -> Seq<(int, int)>
    decreases t.len() - i,
{
    if i < 0 || i >= t.len() {
        seq![]
    } else {
        match a2k_match_at(t, i) {
            Some(e) => {
                proof {
                    lemma_a2k_match_grows(t, i);
                }
                seq![(i, e)] + a2k_from(t, e)
            },
            None => a2k_from(t, i + 1),
        }
    }
}

/// The ranges `rs` lie in `t[i..]`, each non-empty, in order and without overlap.
pub open spec fn ranges_in_order(rs: Seq<(int, int)>, i: int, n: int) -> bool {
    &&& forall|k: int| 0 <= k < rs.len() ==> i <= (#[trigger] rs[k]).0 < rs[k].1 <= n
    &&& forall|k: int| 0 <= k < rs.len() - 1 ==> (#[trigger] rs[k]).1 <= rs[k + 1].0
}

proof fn lemma_ranges_cons(r: (int, int), rs: Seq<(int, int)>, i: int, n: int)
    requires
        i <= r.0 < r.1 <= n,
        ranges_in_order(rs, r.1, n),
    ensures
        ranges_in_order(seq![r] + rs, i, n),
{
    let all = seq![r] + rs;
    assert forall|k: int| 0 <= k < all.len() implies i <= (#[trigger] all[k]).0 < all[k].1 <= n by {
        if k > 0 {
            assert(all[k] == rs[k - 1]);
        }
    }
    assert forall|k: int| 0 <= k < all.len() - 1 implies (#[trigger] all[k]).1 <= all[k + 1].0 by {
        if k > 0 {
            assert(all[k] == rs[k - 1] && all[k + 1] == rs[k]);
        } else {
            assert(all[1] == rs[0]);
        }
    }
}

proof fn lemma_ranges_widen(rs: Seq<(int, int)>, i: int, j: int, n: int)
    requires
        i <= j,
        ranges_in_order(rs, j, n),
    ensures
        ranges_in_order(rs, i, n),
{
}

/// The Arabic→kanji matches come left to right without overlapping: each is a non-empty range
/// of `t[i..]` that ends at or before the next one starts.
pub proof fn law_arabic_matches_in_order(t: Seq<char>, i: int)
    requires
        0 <= i,
    ensures
        ranges_in_order(a2k_from(t, i), i, t.len() as int),
    decreases t.len() - i,
{
    if i < t.len() {
        lemma_a2k_match_grows(t, i);
        match a2k_match_at(t, i) {
            Some(e) => {
                law_arabic_matches_in_order(t, e);
                lemma_ranges_cons((i, e), a2k_from(t, e), i, t.len() as int);
            },
            None => {
                law_arabic_matches_in_order(t, i + 1);
                lemma_ranges_widen(a2k_from(t, i + 1), i, i + 1, t.len() as int);
            },
        }
    }
}

/// The kanji→Arabic matches come left to right without overlapping, likewise.
pub proof fn law_kanji_matches_in_order(t: Seq<char>, i: int)
    requires
        0 <= i,
    ensures
        ranges_in_order(k2a_from(t, i), i, t.len() as int),
    decreases t.len() - i,
{
    if i < t.len() {
        lemma_k2a_match_grows(t, i);
        match k2a_match_at(t, i) {
            Some((e, rep)) => {
                law_kanji_matches_in_order(t, e);
                if rep {
                    lemma_ranges_cons((i, e), k2a_from(t, e), i, t.len() as int);
                } else {
                    lemma_ranges_widen(k2a_from(t, e), i, e, t.len() as int);
                }
            },
            None => {
                law_kanji_matches_in_order(t, i + 1);
                lemma_ranges_widen(k2a_from(t, i + 1), i, i + 1, t.len() as int);
            },
        }
    }
}

/// Reports made from ranges in order have spans in order: each non-empty and inside the node,
/// each ending at or before the next one starts.
pub proof fn law_report_spans_in_order(base: u32, t: Seq<char>, rs: Seq<(int, int)>, msg: spec_fn(Seq<char>) -> Seq<char>)
    requires
        ranges_in_order(rs, 0, t.len() as int),
        base + byte_len(t) <= u32::MAX,
    ensures
        forall|k: int|
            0 <= k < rs.len() ==> base <= (#[trigger] reports_of(base, t, rs, msg)[k]).0.start
                < reports_of(base, t, rs, msg)[k].0.end <= base + byte_len(t),
        forall|k: int|
            0 <= k < rs.len() - 1 ==> (#[trigger] reports_of(base, t, rs, msg)[k]).0.end <= reports_of(
                base,
                t,
                rs,
                msg,
            )[k + 1].0.start,
{
    let rep = reports_of(base, t, rs, msg);
    assert forall|k: int| 0 <= k < rs.len() implies base <= (#[trigger] rep[k]).0.start < rep[k].0.end <= base
        + byte_len(t) by {
        let r = rs[k];
        lemma_byte_at_strict(t, r.0, r.1);
        lemma_byte_at_bounded(t, r.1);
        assert(rep[k] == match_report(base, t, r, msg));
    }
    assert forall|k: int| 0 <= k < rs.len() - 1 implies (#[trigger] rep[k]).0.end <= rep[k + 1].0.start by {
        lemma_byte_at_mono(t, rs[k].1, rs[k + 1].0);
        lemma_byte_at_bounded(t, rs[k + 1].0);
        lemma_byte_at_bounded(t, rs[k].1);
        assert(rep[k] == match_report(base, t, rs[k], msg));
        assert(rep[k + 1] == match_report(base, t, rs[k + 1], msg));
    }
}

pub open spec fn k2a_message(snippet: Seq<char>) -> Seq<char> {
    "「"@ + snippet + K2A_TAIL@
}

pub open spec fn a2k_message(snippet: Seq<char>) -> Seq<char> {
    "「"@ + snippet + A2K_TAIL@
}

/// The message for a kanji numeral that should be written in Arabic digits.
fn kanji_to_arabic_msg(snippet: &str) -> (m: String)
    ensures
        m@ == k2a_message(snippet@),
{
    let mut m = String::new();
    push_str(&mut m, "「");
    push_str(&mut m, snippet);
    push_str(&mut m, K2A_TAIL);
    m
}

/// The message for Arabic digits that should be written as a kanji numeral.
fn arabic_to_kanji_msg(snippet: &str) -> (m: String)
    ensures
        m@ == a2k_message(snippet@),
{
    let mut m = String::new();
    push_str(&mut m, "「");
    push_str(&mut m, snippet);
    push_str(&mut m, A2K_TAIL);
    m
}

pub const K2A_TAIL: &'static str = "」の漢数字は算用数字で書いてください。\n\n数量を表現し、数を数えられるものは算用数字を使用します。任意の数に置き換えても通用する語句がこれに該当します。";

pub const A2K_TAIL: &'static str = "」の算用数字は漢数字で書いてください。\n\n慣用的表現、熟語、概数、固有名詞、副詞など、漢数字を使用することが一般的な語句では漢数字を使います。";

/// The report for the match `t[r.0..r.1]`, built by `msg` from the matched text.
pub open spec fn match_report(base: u32, t: Seq<char>, r: (int, int), msg: spec_fn(Seq<char>) -> Seq<char>) -> Report {
    plain(abs_span(base, byte_at(t, r.0) as int, byte_at(t, r.1) as int), msg(t.subrange(r.0, r.1)))
}

pub open spec fn reports_of(base: u32, t: Seq<char>, rs: Seq<(int, int)>, msg: spec_fn(Seq<char>) -> Seq<char>) -> Seq<Report> {
    rs.map_values(|r: (int, int)| match_report(base, t, r, msg))
}

/// The Arabic→kanji reports of a node at `base` with text `t`.
pub open spec fn a2k_reports(base: u32, t: Seq<char>) -> Seq<Report> {
    reports_of(base, t, a2k_from(t, 0), |s: Seq<char>| a2k_message(s))
}

/// The kanji→Arabic reports of a node at `base` with text `t`.
pub open spec fn k2a_reports(base: u32, t: Seq<char>) -> Seq<Report> {
    reports_of(base, t, k2a_from(t, 0), |s: Seq<char>| k2a_message(s))
}

fn k2a_match_at_exec(cs: &[char], i: usize) -> (r: Option<(usize, bool)>)
    requires
        i < cs.len(),
    ensures
        match k2a_match_at(cs@, i as int) {
            Some((e, rep)) => r == Some((e as usize, rep)),
            None => r.is_none(),
        },
{
    let ghost t = cs@;
    proof {
        lemma_run_end_bounds(t, i as int);
        lemma_run_end_bounds(t, i + 1);
    }
    if cs[i] == '第' {
        if let Some(s) = kanji_run_after(cs, i + 1, cs.len()) {
            if at(cs, s, '章') || at(cs, s, '節') {
                return Some((s + 1, true));
            }
        }
    }
    if !is_kanji_numeral(cs[i]) {
        return None;
    }
    let s = run_end_exec(cs, i);
    let approx = i >= 1 && (at(cs, i - 1, '数') || at(cs, i - 1, '何'));
    if (at(cs, s, '兆') || at(cs, s, '億') || at(cs, s, '万')) && !approx {
        Some((s + 1, true))
    } else if at(cs, s, 'つ') {
        proof {
            assert(s > i);
        }
        Some((s + 1, !is_koto_exception(cs, s, cs.len())))
    } else if at(cs, s, '回') {
        Some((s + 1, true))
    } else if at(cs, s, 'か') && at(cs, s + 1, '月') || at(cs, s, '番') && at(cs, s + 1, '目') || at(
        cs,
        s,
        '進',
    ) && at(cs, s + 1, '法') || at(cs, s, '次') && at(cs, s + 1, '元') {
        Some((s + 2, true))
    } else {
        None
    }
}

fn a2k_match_at_exec(cs: &[char], i: usize) -> (r: Option<usize>)
    requires
        i < cs.len(),
    ensures
        match a2k_match_at(cs@, i as int) {
            Some(e) => r == Some(e as usize),
            None => r.is_none(),
        },
{
    let ghost t = cs@;
    proof {
        lemma_a2k_match_grows(t, i as int);
        lemma_digit_run_end_bounds(t, i as int);
    }
    if cs[i] == '世' && at(cs, i + 1, '界') && at(cs, i + 2, '1') {
        return Some(i + 3);
    }
    if cs[i] == '第' && at(cs, i + 1, '3') && at(cs, i + 2, '者') {
        return Some(i + 3);
    }
    if cs[i] == '数' && at(cs, i + 1, '1') {
        let mut nx = i + 2;
        proof {
            lemma_zero_run_end_bounds(t, i + 2);
        }
        while nx < cs.len() && cs[nx] == '0'
            invariant
                i + 2 <= nx <= cs.len(),
                t == cs@,
                zero_run_end(t, nx as int) == zero_run_end(t, i + 2),
            decreases cs.len() - nx,
        {
            nx = nx + 1;
        }
        if nx > i + 2 && (at(cs, nx, '倍') || at(cs, nx, '兆') || at(cs, nx, '億') || at(cs, nx, '万')
            || at(cs, nx, '年')) {
            return Some(nx + 1);
        }
    }
    if !ascii_digit(cs[i]) {
        return None;
    }
    if cs[i] == '1' && (at(cs, i + 1, '時') && at(cs, i + 2, '的') || at(cs, i + 1, '部') && at(
        cs,
        i + 2,
        '分',
    ) || at(cs, i + 1, '部') && at(cs, i + 2, 'の') || at(cs, i + 1, '番') && at(cs, i + 2, 'に')) {
        return Some(i + 3);
    }
    if cs[i] == '1' && !(i > 0 && ascii_digit(cs[i - 1])) && at(cs, i + 1, '種') && !at(
        cs,
        i + 2,
        '類',
    ) {
        return Some(i + 2);
    }
    if cs[i] == '5' && at(cs, i + 1, '大') && at(cs, i + 2, '陸') {
        return Some(i + 3);
    }
    let mut nx = i;
    while nx < cs.len() && ascii_digit(cs[nx])
        invariant
            i <= nx <= cs.len(),
            t == cs@,
            digit_run_end(t, nx as int) == digit_run_end(t, i as int),
        decreases cs.len() - nx,
    {
        nx = nx + 1;
    }
    if at(cs, nx, '次') && at(cs, nx + 1, '関') && at(cs, nx + 2, '数') {
        return Some(nx + 3);
    }
    None
}

impl ArabicKanjiNumbers {
    /// Construct the rule (no configurable options).
    pub fn new() -> (r: ArabicKanjiNumbers)
        ensures
            r.meta.id@ == ID@,
            r.meta.node_kinds@ == node_kinds(),
            r.meta.default_severity == Severity::Warning,
            r.meta.lang == Some(Lang::Ja),
            !r.meta.morphology,
    {
        ArabicKanjiNumbers {
            meta: RuleMeta::new(
                ID,
                Severity::Warning,
                vec![NodeKind::Paragraph, NodeKind::Heading, NodeKind::TableCell],
            ).for_language(Lang::Ja),
        }
    }


    /// Every kanji→Arabic report (left to right), then every Arabic→kanji report.
    pub open spec fn spec_check_at(&self, base: u32, t: Seq<char>) -> Seq<Report> {
        reports_of(base, t, k2a_from(t, 0), |s: Seq<char>| k2a_message(s)) + reports_of(
            base,
            t,
            a2k_from(t, 0),
            |s: Seq<char>| a2k_message(s),
        )
    }

    /// What the rule reports on a node is its kanji→Arabic reports and then its Arabic→kanji
    /// reports, each run with spans in order: non-empty, inside the node, each ending at or
    /// before the next starts; each Arabic→kanji message names the matched text.
    pub proof fn law_reports_in_order(&self, base: u32, t: Seq<char>)
        requires
            base + byte_len(t) <= u32::MAX,
        ensures
            self.spec_check_at(base, t) == k2a_reports(base, t) + a2k_reports(base, t),
            forall|k: int| 0 <= k < a2k_reports(base, t).len() ==> (#[trigger] a2k_reports(base, t)[k]).1
                == a2k_message(t.subrange(a2k_from(t, 0)[k].0, a2k_from(t, 0)[k].1)),
            forall|k: int|
                0 <= k < a2k_reports(base, t).len() ==> base <= (#[trigger] a2k_reports(base, t)[k]).0.start
                    < a2k_reports(base, t)[k].0.end <= base + byte_len(t),
            forall|k: int|
                0 <= k < a2k_reports(base, t).len() - 1 ==> (#[trigger] a2k_reports(base, t)[k]).0.end
                    <= a2k_reports(base, t)[k + 1].0.start,
            forall|k: int|
                0 <= k < k2a_reports(base, t).len() ==> base <= (#[trigger] k2a_reports(base, t)[k]).0.start
                    < k2a_reports(base, t)[k].0.end <= base + byte_len(t),
            forall|k: int|
                0 <= k < k2a_reports(base, t).len() - 1 ==> (#[trigger] k2a_reports(base, t)[k]).0.end
                    <= k2a_reports(base, t)[k + 1].0.start,
    {
        law_arabic_matches_in_order(t, 0);
        law_kanji_matches_in_order(t, 0);
        law_report_spans_in_order(base, t, a2k_from(t, 0), |s: Seq<char>| a2k_message(s));
        law_report_spans_in_order(base, t, k2a_from(t, 0), |s: Seq<char>| k2a_message(s));
    }

}

/// Scan for kanji numeral runs followed by suffixes that should use Arabic digits.
fn check_kanji_to_arabic(cs: &Vec<char>, offs: &Vec<usize>, base: u32, cx: &mut Context)
    requires
        old(cx).wf(),
        offsets_ok(cs@, offs@),
    ensures
        final(cx).wf(),
        final(cx).id() == old(cx).id(),
        final(cx).severity() == old(cx).severity(),
        final(cx).reports() == old(cx).reports() + reports_of(base, cs@, k2a_from(cs@, 0), |s: Seq<char>| k2a_message(s)),
{
    let ghost t = cs@;
    let ghost msg = |s: Seq<char>| k2a_message(s);
    let ghost r0 = cx.reports();
    let mut i: usize = 0;
    while i < cs.len()
        invariant
            t == cs@,
            offsets_ok(t, offs@),
            i <= cs.len(),
            cx.wf(),
            cx.id() == old(cx).id(),
            cx.severity() == old(cx).severity(),
            r0 == old(cx).reports(),
            msg == (|s: Seq<char>| k2a_message(s)),
            r0 + reports_of(base, t, k2a_from(t, 0), msg) == cx.reports() + reports_of(base, t, k2a_from(t, i as int), msg),
        decreases cs.len() - i,
    {
        proof {
            lemma_k2a_match_grows(t, i as int);
        }
        match k2a_match_at_exec(cs.as_slice(), i) {
            Some((e, rep)) => {
                if rep {
                    let snippet = string_of(cs.as_slice(), i, e);
                    let m = kanji_to_arabic_msg(snippet.as_str());
                    let span = make_span(base, offs[i], offs[e]);
                    cx.report(span, m);
                    proof {
                        assert(reports_of(base, t, k2a_from(t, i as int), msg) =~= seq![match_report(base, t, (i as int, e as int), msg)] + reports_of(base, t, k2a_from(t, e as int), msg));
                    }
                }
                i = e;
            },
            None => {
                i = i + 1;
            },
        }
    }
}

/// Scan for Arabic digits in positions where the JTF guide demands kanji numerals.
fn check_arabic_to_kanji(cs: &Vec<char>, offs: &Vec<usize>, base: u32, cx: &mut Context)
    requires
        old(cx).wf(),
        offsets_ok(cs@, offs@),
    ensures
        final(cx).wf(),
        final(cx).id() == old(cx).id(),
        final(cx).severity() == old(cx).severity(),
        final(cx).reports() == old(cx).reports() + reports_of(base, cs@, a2k_from(cs@, 0), |s: Seq<char>| a2k_message(s)),
{
    let ghost t = cs@;
    let ghost msg = |s: Seq<char>| a2k_message(s);
    let ghost r0 = cx.reports();
    let mut i: usize = 0;
    while i < cs.len()
        invariant
            t == cs@,
            offsets_ok(t, offs@),
            i <= cs.len(),
            cx.wf(),
            cx.id() == old(cx).id(),
            cx.severity() == old(cx).severity(),
            r0 == old(cx).reports(),
            msg == (|s: Seq<char>| a2k_message(s)),
            r0 + reports_of(base, t, a2k_from(t, 0), msg) == cx.reports() + reports_of(base, t, a2k_from(t, i as int), msg),
        decreases cs.len() - i,
    {
        proof {
            lemma_a2k_match_grows(t, i as int);
        }
        match a2k_match_at_exec(cs.as_slice(), i) {
            Some(e) => {
                let snippet = string_of(cs.as_slice(), i, e);
                let m = arabic_to_kanji_msg(snippet.as_str());
                let span = make_span(base, offs[i], offs[e]);
                cx.report(span, m);
                proof {
                    assert(reports_of(base, t, a2k_from(t, i as int), msg) =~= seq![match_report(base, t, (i as int, e as int), msg)] + reports_of(base, t, a2k_from(t, e as int), msg));
                }
                i = e;
            },
            None => {
                i = i + 1;
            },
        }
    }
}

impl Rule for ArabicKanjiNumbers {
    open spec fn spec_meta(&self) -> RuleMeta {
        self.meta
    }

    open spec fn spec_check(&self, node: NodeRef) -> Seq<Report> {
        self.spec_check_at(node.span.start, node.text@)
    }

    fn meta(&self) -> (m: &RuleMeta) {
        &self.meta
    }

    fn check(&self, node: &NodeRef, cx: &mut Context)
    {
        let base = node.span.start;
        let cs = str_chars(node.text.as_str());
        let offs = byte_offsets(&cs);
        check_kanji_to_arabic(&cs, &offs, base, cx);
        check_arabic_to_kanji(&cs, &offs, base, cx);
        assert(cx.reports() =~= old(cx).reports() + self.spec_check_at(base, node.text@));
    }
}

impl Default for ArabicKanjiNumbers {
    /// The rule with its default options, as [`ArabicKanjiNumbers::new`] builds it.
    fn default() -> (r: ArabicKanjiNumbers)
        ensures
            r.meta.id@ == ID@,
            r.meta.node_kinds@ == node_kinds(),
            r.meta.default_severity == Severity::Warning,
            r.meta.lang == Some(Lang::Ja),
            !r.meta.morphology,
    {
        ArabicKanjiNumbers::new()
    }
}

} // verus!
