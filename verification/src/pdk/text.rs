//! Text helpers for plugins: sentence splitting and pattern search with byte offsets.
use vstd::prelude::*;
use crate::text::{
    byte_at, byte_offsets, fits_usize, lemma_byte_at_mono, matches_at, occurs_at, offsets_ok,
    str_chars, string_of, to_uppercase_chars, uppercase_of,
};
use crate::util::{
    is_sentence_delimiter, is_whitespace, lemma_next_delim_bounds, lemma_next_delim_props,
    next_delim, sentence_delimiter, whitespace,
};

verus! {

/// A sentence found in text (offsets relative to the start of the text).
#[derive(Debug)]
pub struct Sentence {
    /// Byte offset of the first character.
    pub start: usize,
    /// Byte offset just past the last character.
    pub end: usize,
    /// The sentence, trimmed of surrounding whitespace.
    pub text: String,
    /// Number of characters in `text`.
    pub char_count: usize,
}

/// The first index in `t[a..b]` that is not whitespace (or `b`).
pub open spec fn ws_fwd(t: Seq<char>, a: int, b: int) -> int
    decreases b - a,
{
    if a >= b {
        b
    } else if is_whitespace(t[a]) {
        ws_fwd(t, a + 1, b)
    } else {
        a
    }
}

/// The index just past the last character of `t[a..b]` that is not whitespace (or `a`).
pub open spec fn ws_back(t: Seq<char>, a: int, b: int) -> int
    decreases b - a,
{
    if b <= a {
        a
    } else if is_whitespace(t[b - 1]) {
        ws_back(t, a, b - 1)
    } else {
        b
    }
}

/// The character ranges of the sentences of `t[start..]`: each piece runs up to and including
/// the next delimiter (or to the end of the text) and is trimmed of whitespace at both ends;
/// empty pieces are dropped.
pub open spec fn sentence_ranges(t: Seq<char>, start: int) -> Seq<(int, int)>
    decreases t.len() - start,
{
    if start < 0 || start >= t.len() {
        seq![]
    } else {
        let j = next_delim(t, start);
        let end = if j >= t.len() {
            t.len() as int
        } else {
            j + 1
        };
        let a = ws_fwd(t, start, end);
        let b = ws_back(t, a, end);
        let rest = if j >= t.len() {
            Seq::<(int, int)>::empty()
        } else {
            proof {
                lemma_next_delim_bounds(t, start);
            }
            sentence_ranges(t, j + 1)
        };
        if a < b {
            seq![(a, b)] + rest
        } else {
            rest
        }
    }
}

/// The sentence `s` describes the characters `t[r.0..r.1]`.
pub open spec fn is_sentence_of(s: Sentence, t: Seq<char>, r: (int, int)) -> bool {
    &&& s.start == byte_at(t, r.0)
    &&& s.end == byte_at(t, r.1)
    &&& s.text@ == t.subrange(r.0, r.1)
    &&& s.char_count == r.1 - r.0
}

proof fn lemma_ws_fwd(t: Seq<char>, a: int, b: int)
    requires
        a <= b,
    ensures
        a <= ws_fwd(t, a, b) <= b,
    decreases b - a,
{
    if a < b && is_whitespace(t[a]) {
        lemma_ws_fwd(t, a + 1, b);
    }
}

proof fn lemma_ws_back(t: Seq<char>, a: int, b: int)
    requires
        a <= b,
    ensures
        a <= ws_back(t, a, b) <= b,
    decreases b - a,
{
    if a < b && is_whitespace(t[b - 1]) {
        lemma_ws_back(t, a, b - 1);
    }
}

fn ws_fwd_exec(cs: &Vec<char>, a: usize, b: usize) -> (k: usize)
    requires
        a <= b <= cs@.len(),
    ensures
        k == ws_fwd(cs@, a as int, b as int),
{
    let mut k = a;
    while k < b && whitespace(cs[k])
        invariant
            a <= k <= b <= cs@.len(),
            ws_fwd(cs@, k as int, b as int) == ws_fwd(cs@, a as int, b as int),
        decreases b - k,
    {
        k = k + 1;
    }
    k
}

fn ws_back_exec(cs: &Vec<char>, a: usize, b: usize) -> (k: usize)
    requires
        a <= b <= cs@.len(),
    ensures
        k == ws_back(cs@, a as int, b as int),
{
    let mut k = b;
    while k > a && whitespace(cs[k - 1])
        invariant
            a <= k <= b <= cs@.len(),
            ws_back(cs@, a as int, k as int) == ws_back(cs@, a as int, b as int),
        decreases k - a,
    {
        k = k - 1;
    }
    k
}

/// Push the trimmed piece `cs[start..end]` to `out` when it is not empty.
fn push_piece(cs: &Vec<char>, offs: &Vec<usize>, start: usize, end: usize, out: &mut Vec<Sentence>)
    requires
        start <= end <= cs@.len(),
        offsets_ok(cs@, offs@),
    ensures
        ({
            let a = ws_fwd(cs@, start as int, end as int);
            let b = ws_back(cs@, a, end as int);
            if a < b {
                &&& final(out)@.len() == old(out)@.len() + 1
                &&& final(out)@.take(old(out)@.len() as int) == old(out)@
                &&& is_sentence_of(final(out)@.last(), cs@, (a, b))
            } else {
                final(out)@ == old(out)@
            }
        }),
{
    let a = ws_fwd_exec(cs, start, end);
    proof {
        lemma_ws_fwd(cs@, start as int, end as int);
    }
    let b = ws_back_exec(cs, a, end);
    proof {
        lemma_ws_back(cs@, a as int, end as int);
    }
    if a < b {
        let ghost before = out@;
        out.push(
            Sentence { start: offs[a], end: offs[b], text: string_of(cs.as_slice(), a, b), char_count: b - a },
        );
        assert(out@.take(before.len() as int) =~= before);
    }
}

/// Split `text` into sentences on `. ! ? 。 ！ ？`.
///
/// Each sentence includes its delimiter and is trimmed of whitespace at both ends; pieces that
/// are empty after trimming are dropped, and text after the last delimiter is a final sentence.
/// Offsets are bytes relative to the start of `text`.
pub fn get_sentences(text: &str) -> (r: Vec<Sentence>)
    requires
        fits_usize(text@),
    ensures
        r@.len() == sentence_ranges(text@, 0).len(),
        forall|k: int|
            0 <= k < r@.len() ==> is_sentence_of(#[trigger] r@[k], text@, sentence_ranges(text@, 0)[k]),
{
    let cs = str_chars(text);
    let offs = byte_offsets(&cs);
    let ghost t = cs@;
    let ghost mut done: Seq<(int, int)> = seq![];
    let mut out: Vec<Sentence> = Vec::new();
    let mut start: usize = 0;
    let mut i: usize = 0;
    while i < cs.len()
        invariant
            t == cs@,
            offsets_ok(t, offs@),
            start <= i <= cs@.len(),
            next_delim(t, start as int) == next_delim(t, i as int),
            sentence_ranges(t, 0) == done + sentence_ranges(t, start as int),
            out@.len() == done.len(),
            forall|k: int| 0 <= k < out@.len() ==> is_sentence_of(#[trigger] out@[k], t, done[k]),
        decreases cs.len() - i,
    {
        if sentence_delimiter(cs[i]) {
            let end = i + 1;
            let ghost before = out@;
            proof {
                lemma_next_delim_bounds(t, i as int);
            }
            push_piece(&cs, &offs, start, end, &mut out);
            proof {
                let a = ws_fwd(t, start as int, end as int);
                let b = ws_back(t, a, end as int);
                if a < b {
                    assert forall|k: int| 0 <= k < out@.len() implies is_sentence_of(
                        #[trigger] out@[k],
                        t,
                        done.push((a, b))[k],
                    ) by {
                        if k < before.len() {
                            assert(out@[k] == out@.take(before.len() as int)[k]);
                        }
                    }
                    assert(sentence_ranges(t, start as int) == seq![(a, b)] + sentence_ranges(t, end as int));
                    assert(done + sentence_ranges(t, start as int) =~= done.push((a, b)) + sentence_ranges(
                        t,
                        end as int,
                    ));
                    done = done.push((a, b));
                } else {
                    assert(sentence_ranges(t, start as int) == sentence_ranges(t, end as int));
                }
            }
            start = end;
        }
        i = i + 1;
    }
    if start < cs.len() {
        let ghost before = out@;
        proof {
            lemma_next_delim_bounds(t, start as int);
        }
        push_piece(&cs, &offs, start, cs.len(), &mut out);
        proof {
            let a = ws_fwd(t, start as int, t.len() as int);
            let b = ws_back(t, a, t.len() as int);
            if a < b {
                assert forall|k: int| 0 <= k < out@.len() implies is_sentence_of(
                    #[trigger] out@[k],
                    t,
                    done.push((a, b))[k],
                ) by {
                    if k < before.len() {
                        assert(out@[k] == out@.take(before.len() as int)[k]);
                    }
                }
                assert(sentence_ranges(t, 0) =~= done.push((a, b)));
                done = done.push((a, b));
            } else {
                assert(sentence_ranges(t, 0) =~= done);
            }
        }
    } else {
        assert(sentence_ranges(t, 0) =~= done);
    }
    out
}

/// A match found in text (offsets relative to the start of the text).
#[derive(Debug)]
pub struct TextMatch {
    pub start: usize,
    pub end: usize,
    pub matched_text: String,
}

/// A match by its byte range and text.
pub open spec fn match_view(m: TextMatch) -> (int, int, Seq<char>) {
    (m.start as int, m.end as int, m.matched_text@)
}

/// [`match_view`] of each match.
pub open spec fn match_views(ms: Seq<TextMatch>) -> Seq<(int, int, Seq<char>)> {
    ms.map_values(|m: TextMatch| match_view(m))
}

/// The first index `k >= from` at which `p` occurs in `t` (an empty `p` occurs everywhere).
pub open spec fn first_at(t: Seq<char>, p: Seq<char>, from: int) -> Option<int>
    decreases t.len() + 1 - from,
{
    if from < 0 || from + p.len() > t.len() {
        None
    } else if t.subrange(from, from + p.len()) == p {
        Some(from)
    } else {
        first_at(t, p, from + 1)
    }
}

pub proof fn lemma_first_at(t: Seq<char>, p: Seq<char>, from: int)
    requires
        0 <= from,
    ensures
        first_at(t, p, from) matches Some(k) ==> from <= k && k + p.len() <= t.len() && t.subrange(
            k,
            k + p.len(),
        ) == p,
    decreases t.len() + 1 - from,
{
    if from + p.len() <= t.len() && t.subrange(from, from + p.len()) != p {
        lemma_first_at(t, p, from + 1);
    }
}

/// Searching a suffix `t[s..]` finds the first occurrence at or after `s`, shifted by `s`.
proof fn lemma_first_at_suffix(t: Seq<char>, p: Seq<char>, s: int, i: int)
    requires
        0 <= s <= t.len(),
        0 <= i,
    ensures
        first_at(t.subrange(s, t.len() as int), p, i) == match first_at(t, p, s + i) {
            Some(k) => Some(k - s),
            None => None::<int>,
        },
    decreases t.len() + 1 - s - i,
{
    let w = t.subrange(s, t.len() as int);
    if i + p.len() <= w.len() {
        assert(w.subrange(i, i + p.len()) =~= t.subrange(s + i, s + i + p.len()));
        if w.subrange(i, i + p.len()) != p {
            lemma_first_at_suffix(t, p, s, i + 1);
        }
    }
}

/// Finds `pattern` in `text` by characters: the index of its first occurrence (0 for an empty
/// pattern), or `None`.
pub fn find_char_slice(text: &[char], pattern: &[char]) -> (r: Option<usize>)
    ensures
        match first_at(text@, pattern@, 0) {
            Some(k) => r == Some(k as usize),
            None => r.is_none(),
        },
{
    if pattern.len() == 0 {
        assert(text@.subrange(0, 0) =~= pattern@);
        return Some(0);
    }
    if pattern.len() > text.len() {
        return None;
    }
    let last = text.len() - pattern.len();
    let mut i: usize = 0;
    while i <= last
        invariant
            last == text@.len() - pattern@.len(),
            last < text.len(),
            i <= last + 1,
            first_at(text@, pattern@, i as int) == first_at(text@, pattern@, 0),
        decreases last + 1 - i,
    {
        if matches_at(text, i, pattern) {
            return Some(i);
        }
        i = i + 1;
    }
    None
}

/// The non-overlapping occurrences of `p` in `t` from `from` on, leftmost first, as character
/// ranges.
pub open spec fn exact_hits(t: Seq<char>, p: Seq<char>, from: int) -> Seq<(int, int)>
    decreases t.len() - from,
{
    if p.len() == 0 || from < 0 || from > t.len() {
        seq![]
    } else {
        match first_at(t, p, from) {
            Some(k) => {
                proof {
                    lemma_first_at(t, p, from);
                }
                seq![(k, k + p.len())] + exact_hits(t, p, k + p.len())
            },
            None => seq![],
        }
    }
}

/// The upper-case mappings of the characters of `t`, one after another.
pub open spec fn upper_flat(t: Seq<char>) -> Seq<char>
    decreases t.len(),
{
    if t.len() == 0 {
        seq![]
    } else {
        upper_flat(t.drop_last()) + uppercase_of(t.last())
    }
}

/// For each character of [`upper_flat`], the index of the character of `t` it comes from.
pub open spec fn upper_owner(t: Seq<char>) -> Seq<int>
    decreases t.len(),
{
    if t.len() == 0 {
        seq![]
    } else {
        upper_owner(t.drop_last()) + Seq::new(uppercase_of(t.last()).len(), |j: int| t.len() - 1)
    }
}

pub proof fn lemma_upper_owner(t: Seq<char>)
    ensures
        upper_owner(t).len() == upper_flat(t).len(),
        forall|j: int| 0 <= j < upper_owner(t).len() ==> 0 <= #[trigger] upper_owner(t)[j] < t.len(),
        forall|a: int, b: int|
            0 <= a <= b < upper_owner(t).len() ==> #[trigger] upper_owner(t)[a] <= #[trigger] upper_owner(t)[b],
    decreases t.len(),
{
    if t.len() > 0 {
        lemma_upper_owner(t.drop_last());
    }
}

/// The non-overlapping occurrences of the upper-cased pattern `pu` in the upper-cased `t`, from
/// position `from` of [`upper_flat`] on, mapped back to character ranges of `t`: a match starts
/// at the character its first upper-case character comes from and ends at the character the
/// next upper-case character comes from (or at the end of `t`).
pub open spec fn folded_hits(t: Seq<char>, pu: Seq<char>, from: int) -> Seq<(int, int)>
    decreases upper_flat(t).len() - from,
{
    let u = upper_flat(t);
    let o = upper_owner(t);
    if pu.len() == 0 || from < 0 || from > u.len() {
        seq![]
    } else {
        match first_at(u, pu, from) {
            Some(k) => {
                proof {
                    lemma_first_at(u, pu, from);
                }
                let e = k + pu.len();
                let ec = if e < u.len() {
                    o[e]
                } else {
                    t.len() as int
                };
                seq![(o[k], ec)] + folded_hits(t, pu, e)
            },
            None => seq![],
        }
    }
}

/// The matches of one pattern: none for an empty pattern.
pub open spec fn pattern_hits(t: Seq<char>, p: Seq<char>, case_sensitive: bool) -> Seq<(int, int)> {
    if p.len() == 0 {
        seq![]
    } else if case_sensitive {
        exact_hits(t, p, 0)
    } else {
        folded_hits(t, upper_flat(p), 0)
    }
}

/// The matches of every pattern, pattern by pattern.
pub open spec fn all_hits(t: Seq<char>, ps: Seq<Seq<char>>, case_sensitive: bool) -> Seq<(int, int)>
    decreases ps.len(),
{
    if ps.len() == 0 {
        seq![]
    } else {
        all_hits(t, ps.drop_last(), case_sensitive) + pattern_hits(t, ps.last(), case_sensitive)
    }
}

/// A character range of `t` as a match: byte range and text.
pub open spec fn hit_view(t: Seq<char>, r: (int, int)) -> (int, int, Seq<char>) {
    (byte_at(t, r.0) as int, byte_at(t, r.1) as int, t.subrange(r.0, r.1))
}

pub open spec fn hit_views(t: Seq<char>, rs: Seq<(int, int)>) -> Seq<(int, int, Seq<char>)> {
    rs.map_values(|r: (int, int)| hit_view(t, r))
}

/// Insert `x` after every element whose start is at most `x`'s.
pub open spec fn insert_by_start(s: Seq<(int, int, Seq<char>)>, x: (int, int, Seq<char>)) -> Seq<
    (int, int, Seq<char>),
>
    decreases s.len(),
{
    if s.len() == 0 {
        seq![x]
    } else if s.last().0 <= x.0 {
        s.push(x)
    } else {
        insert_by_start(s.drop_last(), x).push(s.last())
    }
}

/// `s` stably sorted by start.
pub open spec fn sort_by_start(s: Seq<(int, int, Seq<char>)>) -> Seq<(int, int, Seq<char>)>
    decreases s.len(),
{
    if s.len() == 0 {
        seq![]
    } else {
        insert_by_start(sort_by_start(s.drop_last()), s.last())
    }
}

proof fn lemma_insert_at(s: Seq<(int, int, Seq<char>)>, x: (int, int, Seq<char>), p: int)
    requires
        0 <= p <= s.len(),
        forall|q: int| p <= q < s.len() ==> #[trigger] s[q].0 > x.0,
        p > 0 ==> s[p - 1].0 <= x.0,
    ensures
        insert_by_start(s, x) == s.take(p).push(x) + s.skip(p),
    decreases s.len(),
{
    if s.len() == p {
        assert(s.take(p) =~= s);
        assert(s.skip(p) =~= Seq::<(int, int, Seq<char>)>::empty());
        if p > 0 {
            assert(s.last() == s[p - 1]);
        }
        assert(insert_by_start(s, x) =~= s.take(p).push(x) + s.skip(p));
    } else {
        let s2 = s.drop_last();
        assert(s.last().0 > x.0);
        assert forall|q: int| p <= q < s2.len() implies #[trigger] s2[q].0 > x.0 by {
            assert(s2[q] == s[q]);
        }
        if p > 0 {
            assert(s2[p - 1] == s[p - 1]);
        }
        lemma_insert_at(s2, x, p);
        assert(insert_by_start(s, x) =~= s.take(p).push(x) + s.skip(p));
    }
}

/// Insert `m` into `out`, kept stably sorted by start.
fn insert_match(out: &mut Vec<TextMatch>, m: TextMatch)
    ensures
        match_views(final(out)@) == insert_by_start(match_views(old(out)@), match_view(m)),
{
    let ghost s = match_views(out@);
    let mut p = out.len();
    while p > 0 && out[p - 1].start > m.start
        invariant
            p <= out@.len(),
            s == match_views(out@),
            forall|q: int| p <= q < s.len() ==> #[trigger] s[q].0 > match_view(m).0,
        decreases p,
    {
        p = p - 1;
    }
    proof {
        lemma_insert_at(s, match_view(m), p as int);
    }
    let ghost mv = match_view(m);
    out.insert(p, m);
    assert(match_views(out@) =~= s.take(p as int).push(mv) + s.skip(p as int));
}

/// The character chunk `t[a..b]` as a match, by byte offsets.
fn make_match(cs: &Vec<char>, offs: &Vec<usize>, a: usize, b: usize) -> (m: TextMatch)
    requires
        offsets_ok(cs@, offs@),
        a <= b <= cs@.len(),
    ensures
        match_view(m) == hit_view(cs@, (a as int, b as int)),
{
    TextMatch { start: offs[a], end: offs[b], matched_text: string_of(cs.as_slice(), a, b) }
}

proof fn lemma_sort_push(g: Seq<(int, int, Seq<char>)>, x: (int, int, Seq<char>))
    ensures
        sort_by_start(g.push(x)) == insert_by_start(sort_by_start(g), x),
{
    assert(g.push(x).drop_last() =~= g);
}

/// Add the case-sensitive matches of the non-empty `pc` to `out`.
fn add_exact_matches(
    cs: &Vec<char>,
    offs: &Vec<usize>,
    pc: &Vec<char>,
    out: &mut Vec<TextMatch>,
    gen: Ghost<Seq<(int, int, Seq<char>)>>,
)
    requires
        offsets_ok(cs@, offs@),
        pc@.len() > 0,
        match_views(old(out)@) == sort_by_start(gen@),
    ensures
        match_views(final(out)@) == sort_by_start(gen@ + hit_views(cs@, exact_hits(cs@, pc@, 0))),
{
    let ghost t = cs@;
    let ghost mut done: Seq<(int, int)> = seq![];
    let mut s: usize = 0;
    loop
        invariant
            t == cs@,
            offsets_ok(t, offs@),
            pc@.len() > 0,
            s <= t.len(),
            exact_hits(t, pc@, 0) == done + exact_hits(t, pc@, s as int),
            match_views(out@) == sort_by_start(gen@ + hit_views(t, done)),
        ensures
            exact_hits(t, pc@, 0) == done,
            match_views(out@) == sort_by_start(gen@ + hit_views(t, done)),
        decreases t.len() - s,
    {
        let rest = vstd::slice::slice_subrange(cs.as_slice(), s, cs.len());
        proof {
            lemma_first_at_suffix(t, pc@, s as int, 0);
            lemma_first_at(t, pc@, s as int);
        }
        match find_char_slice(rest, pc.as_slice()) {
            Some(pos) => {
                let a = s + pos;
                let b = a + pc.len();
                let m = make_match(cs, offs, a, b);
                proof {
                    let g = gen@ + hit_views(t, done);
                    lemma_sort_push(g, match_view(m));
                    assert(hit_views(t, done.push((a as int, b as int))) =~= hit_views(t, done).push(
                        hit_view(t, (a as int, b as int)),
                    ));
                    assert(gen@ + hit_views(t, done.push((a as int, b as int))) =~= g.push(match_view(m)));
                    assert(exact_hits(t, pc@, s as int) == seq![(a as int, b as int)] + exact_hits(
                        t,
                        pc@,
                        b as int,
                    ));
                    assert(done + exact_hits(t, pc@, s as int) =~= done.push((a as int, b as int))
                        + exact_hits(t, pc@, b as int));
                    done = done.push((a as int, b as int));
                }
                insert_match(out, m);
                s = b;
            },
            None => {
                assert(exact_hits(t, pc@, s as int) =~= Seq::<(int, int)>::empty());
                assert(done + exact_hits(t, pc@, s as int) =~= done);
                break ;
            },
        }
    }
}

/// The upper-case mapping of every character of `cs`, with the index of the character each one
/// comes from.
fn upper_chars(cs: &Vec<char>) -> (r: (Vec<char>, Vec<usize>))
    ensures
        r.0@ == upper_flat(cs@),
        r.1@.len() == upper_owner(cs@).len(),
        forall|j: int| 0 <= j < r.1@.len() ==> r.1@[j] == #[trigger] upper_owner(cs@)[j],
{
    let mut upper: Vec<char> = Vec::new();
    let mut owner: Vec<usize> = Vec::new();
    let mut i: usize = 0;
    while i < cs.len()
        invariant
            i <= cs@.len(),
            upper@ == upper_flat(cs@.take(i as int)),
            owner@.len() == upper_owner(cs@.take(i as int)).len(),
            forall|j: int| 0 <= j < owner@.len() ==> owner@[j] == #[trigger] upper_owner(cs@.take(i as int))[j],
        decreases cs.len() - i,
    {
        let us = to_uppercase_chars(cs[i]);
        let ghost t1 = cs@.take(i + 1);
        proof {
            assert(t1.drop_last() =~= cs@.take(i as int));
            assert(t1.last() == cs@[i as int]);
        }
        let ghost u0 = upper@;
        let ghost o0 = owner@;
        let mut k: usize = 0;
        while k < us.len()
            invariant
                k <= us@.len(),
                i < cs@.len(),
                us@ == uppercase_of(cs@[i as int]),
                upper@ == u0 + us@.take(k as int),
                owner@.len() == o0.len() + k,
                forall|j: int| 0 <= j < o0.len() ==> owner@[j] == o0[j],
                forall|j: int| o0.len() <= j < owner@.len() ==> owner@[j] == i,
            decreases us.len() - k,
        {
            upper.push(us[k]);
            owner.push(i);
            assert(us@.take(k + 1) =~= us@.take(k as int).push(us@[k as int]));
            k = k + 1;
        }
        assert(us@.take(k as int) =~= us@);
        i = i + 1;
    }
    assert(cs@.take(i as int) =~= cs@);
    (upper, owner)
}

/// The upper-case mappings of the characters of `pc`, one after another.
fn upper_of_chars(pc: &Vec<char>) -> (r: Vec<char>)
    ensures
        r@ == upper_flat(pc@),
        pc@.len() > 0 ==> r@.len() > 0,
{
    let mut upper: Vec<char> = Vec::new();
    let mut i: usize = 0;
    while i < pc.len()
        invariant
            i <= pc@.len(),
            upper@ == upper_flat(pc@.take(i as int)),
            i > 0 ==> upper@.len() > 0,
        decreases pc.len() - i,
    {
        let us = to_uppercase_chars(pc[i]);
        proof {
            assert(pc@.take(i + 1).drop_last() =~= pc@.take(i as int));
        }
        let ghost u0 = upper@;
        let mut k: usize = 0;
        while k < us.len()
            invariant
                k <= us@.len(),
                upper@ == u0 + us@.take(k as int),
            decreases us.len() - k,
        {
            upper.push(us[k]);
            assert(us@.take(k + 1) =~= us@.take(k as int).push(us@[k as int]));
            k = k + 1;
        }
        assert(us@.take(k as int) =~= us@);
        i = i + 1;
    }
    assert(pc@.take(i as int) =~= pc@);
    upper
}

/// Add the case-insensitive matches of the non-empty upper-cased pattern `pu` to `out`.
fn add_folded_matches(
    cs: &Vec<char>,
    offs: &Vec<usize>,
    upper: &Vec<char>,
    owner: &Vec<usize>,
    pu: &Vec<char>,
    out: &mut Vec<TextMatch>,
    gen: Ghost<Seq<(int, int, Seq<char>)>>,
)
    requires
        offsets_ok(cs@, offs@),
        upper@ == upper_flat(cs@),
        owner@.len() == upper_owner(cs@).len(),
        forall|j: int| 0 <= j < owner@.len() ==> owner@[j] == #[trigger] upper_owner(cs@)[j],
        pu@.len() > 0,
        match_views(old(out)@) == sort_by_start(gen@),
    ensures
        match_views(final(out)@) == sort_by_start(gen@ + hit_views(cs@, folded_hits(cs@, pu@, 0))),
{
    let ghost t = cs@;
    let ghost u = upper@;
    let ghost o = upper_owner(t);
    proof {
        lemma_upper_owner(t);
    }
    let ghost mut done: Seq<(int, int)> = seq![];
    let mut s: usize = 0;
    loop
        invariant
            t == cs@,
            u == upper@,
            u == upper_flat(t),
            o == upper_owner(t),
            o.len() == u.len(),
            owner@.len() == o.len(),
            forall|j: int| 0 <= j < owner@.len() ==> owner@[j] == #[trigger] o[j],
            forall|j: int| 0 <= j < o.len() ==> 0 <= #[trigger] o[j] < t.len(),
            forall|a: int, b: int| 0 <= a <= b < o.len() ==> #[trigger] o[a] <= #[trigger] o[b],
            offsets_ok(t, offs@),
            pu@.len() > 0,
            s <= u.len(),
            folded_hits(t, pu@, 0) == done + folded_hits(t, pu@, s as int),
            match_views(out@) == sort_by_start(gen@ + hit_views(t, done)),
        ensures
            folded_hits(t, pu@, 0) == done,
            match_views(out@) == sort_by_start(gen@ + hit_views(t, done)),
        decreases u.len() - s,
    {
        let rest = vstd::slice::slice_subrange(upper.as_slice(), s, upper.len());
        proof {
            lemma_first_at_suffix(u, pu@, s as int, 0);
            lemma_first_at(u, pu@, s as int);
        }
        match find_char_slice(rest, pu.as_slice()) {
            Some(pos) => {
                let a = s + pos;
                let e = a + pu.len();
                let sc = owner[a];
                let ec = if e < owner.len() {
                    owner[e]
                } else {
                    cs.len()
                };
                proof {
                    if e < owner.len() {
                        assert(o[a as int] <= o[e as int]);
                    }
                }
                let m = make_match(cs, offs, sc, ec);
                proof {
                    let r = (sc as int, ec as int);
                    let g = gen@ + hit_views(t, done);
                    lemma_sort_push(g, match_view(m));
                    assert(hit_views(t, done.push(r)) =~= hit_views(t, done).push(hit_view(t, r)));
                    assert(gen@ + hit_views(t, done.push(r)) =~= g.push(match_view(m)));
                    assert(folded_hits(t, pu@, s as int) == seq![r] + folded_hits(t, pu@, e as int));
                    assert(done + folded_hits(t, pu@, s as int) =~= done.push(r) + folded_hits(t, pu@, e as int));
                    done = done.push(r);
                }
                insert_match(out, m);
                s = e;
            },
            None => {
                assert(folded_hits(t, pu@, s as int) =~= Seq::<(int, int)>::empty());
                assert(done + folded_hits(t, pu@, s as int) =~= done);
                break ;
            },
        }
    }
}

/// The characters of each pattern.
pub open spec fn pattern_chars(ps: Seq<String>) -> Seq<Seq<char>> {
    ps.map_values(|p: String| p@)
}

/// Finds every occurrence of each non-empty pattern in `text`, sorted (stably) by start.
///
/// Per pattern, occurrences are found left to right without overlap. Case-insensitive search
/// compares the full Unicode upper-case mappings of text and pattern (so `ß` matches `ss`) and
/// reports the characters the matching upper-case run comes from. Offsets are bytes
/// relative to the start of `text`.
pub fn find_matches(text: &str, patterns: &[String], case_sensitive: bool) -> (r: Vec<TextMatch>)
    requires
        fits_usize(text@),
    ensures
        match_views(r@) == sort_by_start(
            hit_views(text@, all_hits(text@, pattern_chars(patterns@), case_sensitive)),
        ),
{
    let cs = str_chars(text);
    let offs = byte_offsets(&cs);
    let ghost t = cs@;
    let ghost ps = pattern_chars(patterns@);
    let (upper, owner) = if case_sensitive {
        (Vec::new(), Vec::new())
    } else {
        upper_chars(&cs)
    };
    let mut out: Vec<TextMatch> = Vec::new();
    let mut pi: usize = 0;
    while pi < patterns.len()
        invariant
            t == cs@,
            t == text@,
            ps == pattern_chars(patterns@),
            offsets_ok(t, offs@),
            !case_sensitive ==> upper@ == upper_flat(t),
            !case_sensitive ==> owner@.len() == upper_owner(t).len(),
            !case_sensitive ==> forall|j: int| 0 <= j < owner@.len() ==> owner@[j] == #[trigger] upper_owner(t)[j],
            pi <= patterns@.len(),
            match_views(out@) == sort_by_start(hit_views(t, all_hits(t, ps.take(pi as int), case_sensitive))),
        decreases patterns.len() - pi,
    {
        let pc = str_chars(patterns[pi].as_str());
        let ghost before = all_hits(t, ps.take(pi as int), case_sensitive);
        proof {
            assert(ps.take(pi + 1).drop_last() =~= ps.take(pi as int));
            assert(ps.take(pi + 1).last() == pc@);
        }
        if pc.len() > 0 {
            if case_sensitive {
                add_exact_matches(&cs, &offs, &pc, &mut out, Ghost(hit_views(t, before)));
                proof {
                    assert(hit_views(t, before + exact_hits(t, pc@, 0)) =~= hit_views(t, before) + hit_views(
                        t,
                        exact_hits(t, pc@, 0),
                    ));
                }
            } else {
                let pu = upper_of_chars(&pc);
                add_folded_matches(&cs, &offs, &upper, &owner, &pu, &mut out, Ghost(hit_views(t, before)));
                proof {
                    assert(hit_views(t, before + folded_hits(t, pu@, 0)) =~= hit_views(t, before) + hit_views(
                        t,
                        folded_hits(t, pu@, 0),
                    ));
                }
            }
        } else {
            assert(all_hits(t, ps.take(pi + 1), case_sensitive) =~= before);
        }
        pi = pi + 1;
    }
    assert(ps.take(pi as int) =~= ps);
    out
}

/// Whether the starts never decrease.
pub open spec fn starts_ascending(s: Seq<(int, int, Seq<char>)>) -> bool {
    forall|i: int, j: int| 0 <= i <= j < s.len() ==> #[trigger] s[i].0 <= #[trigger] s[j].0
}

proof fn lemma_insert_by_start(s: Seq<(int, int, Seq<char>)>, x: (int, int, Seq<char>))
    requires
        starts_ascending(s),
    ensures
        starts_ascending(insert_by_start(s, x)),
        insert_by_start(s, x).to_multiset() == s.to_multiset().insert(x),
    decreases s.len(),
{
    broadcast use vstd::seq_lib::group_to_multiset_ensures;

    if s.len() == 0 {
        assert(s.push(x) =~= seq![x]);
    } else if s.last().0 <= x.0 {
        let r = s.push(x);
        assert forall|i: int, j: int| 0 <= i <= j < r.len() implies #[trigger] r[i].0 <= #[trigger] r[j].0 by {
            if j == r.len() - 1 && i < j {
                assert(s[i].0 <= s[s.len() - 1].0);
            }
        }
    } else {
        let d = s.drop_last();
        let last = s.last();
        assert(starts_ascending(d)) by {
            assert forall|i: int, j: int| 0 <= i <= j < d.len() implies #[trigger] d[i].0 <= #[trigger] d[j].0 by {
                assert(d[i] == s[i] && d[j] == s[j]);
            }
        }
        lemma_insert_by_start(d, x);
        let r = insert_by_start(d, x);
        assert(s =~= d.push(last));
        assert forall|i: int| 0 <= i < r.len() implies #[trigger] r[i].0 <= last.0 by {
            assert(r.contains(r[i]));
            assert(r.to_multiset().count(r[i]) > 0);
            if r[i] != x {
                assert(d.to_multiset().count(r[i]) > 0);
                assert(d.contains(r[i]));
                let q = choose|q: int| 0 <= q < d.len() && d[q] == r[i];
                assert(s[q].0 <= s[s.len() - 1].0);
            }
        }
        let out = r.push(last);
        assert forall|i: int, j: int| 0 <= i <= j < out.len() implies #[trigger] out[i].0 <= #[trigger] out[j].0 by {
            if j == out.len() - 1 {
                if i < j {
                    assert(out[i] == r[i]);
                }
            } else {
                assert(out[i] == r[i] && out[j] == r[j]);
            }
        }
        assert(out.to_multiset() =~= r.to_multiset().insert(last));
        assert(s.to_multiset() =~= d.to_multiset().insert(last));
        assert(out.to_multiset() =~= s.to_multiset().insert(x));
    }
}

/// Sorting by start gives the same matches, their starts never decreasing.
pub proof fn law_sorted_by_start(s: Seq<(int, int, Seq<char>)>)
    ensures
        starts_ascending(sort_by_start(s)),
        sort_by_start(s).to_multiset() == s.to_multiset(),
    decreases s.len(),
{
    broadcast use vstd::seq_lib::group_to_multiset_ensures;

    if s.len() == 0 {
        assert(sort_by_start(s).to_multiset() =~= s.to_multiset());
    } else {
        law_sorted_by_start(s.drop_last());
        lemma_insert_by_start(sort_by_start(s.drop_last()), s.last());
        assert(s =~= s.drop_last().push(s.last()));
    }
}

/// What [`find_matches`] returns is sorted by start and holds exactly the matches of every
/// pattern.
pub proof fn law_find_matches_sorted(t: Seq<char>, ps: Seq<Seq<char>>, case_sensitive: bool)
    ensures
        starts_ascending(sort_by_start(hit_views(t, all_hits(t, ps, case_sensitive)))),
        sort_by_start(hit_views(t, all_hits(t, ps, case_sensitive))).to_multiset() == hit_views(
            t,
            all_hits(t, ps, case_sensitive),
        ).to_multiset(),
{
    law_sorted_by_start(hit_views(t, all_hits(t, ps, case_sensitive)));
}

/// Every range in `rs` is an ordered range of `t`.
pub open spec fn ranges_within(t: Seq<char>, rs: Seq<(int, int)>) -> bool {
    forall|k: int| 0 <= k < rs.len() ==> 0 <= (#[trigger] rs[k]).0 <= rs[k].1 <= t.len()
}

proof fn lemma_folded_hits_within(t: Seq<char>, pu: Seq<char>, from: int)
    requires
        0 <= from,
    ensures
        ranges_within(t, folded_hits(t, pu, from)),
    decreases upper_flat(t).len() - from,
{
    let u = upper_flat(t);
    let o = upper_owner(t);
    lemma_upper_owner(t);
    if pu.len() > 0 && from <= u.len() {
        lemma_first_at(u, pu, from);
        if let Some(k) = first_at(u, pu, from) {
            let e = k + pu.len();
            lemma_folded_hits_within(t, pu, e);
            let rest = folded_hits(t, pu, e);
            let hs = folded_hits(t, pu, from);
            let ec = if e < u.len() { o[e] } else { t.len() as int };
            assert(hs == seq![(o[k], ec)] + rest);
            assert(0 <= o[k] <= ec <= t.len());
            assert forall|q: int| 0 <= q < hs.len() implies 0 <= (#[trigger] hs[q]).0 <= hs[q].1 <= t.len() by {
                if q > 0 {
                    assert(hs[q] == rest[q - 1]);
                }
            }
        }
    }
}

proof fn lemma_exact_hits_within(t: Seq<char>, p: Seq<char>)
    ensures
        ranges_within(t, exact_hits(t, p, 0)),
{
    law_exact_hits(t, p, 0);
}

proof fn lemma_all_hits_within(t: Seq<char>, ps: Seq<Seq<char>>, case_sensitive: bool)
    ensures
        ranges_within(t, all_hits(t, ps, case_sensitive)),
    decreases ps.len(),
{
    if ps.len() > 0 {
        lemma_all_hits_within(t, ps.drop_last(), case_sensitive);
        let p = ps.last();
        if p.len() > 0 {
            if case_sensitive {
                lemma_exact_hits_within(t, p);
            } else {
                lemma_folded_hits_within(t, upper_flat(p), 0);
            }
        }
        let a = all_hits(t, ps.drop_last(), case_sensitive);
        let b = pattern_hits(t, p, case_sensitive);
        assert forall|k: int| 0 <= k < (a + b).len() implies 0 <= (#[trigger] (a + b)[k]).0 <= (a + b)[k].1 <= t.len() by {
            if k >= a.len() {
                assert((a + b)[k] == b[k - a.len()]);
            }
        }
    }
}

/// Every match [`find_matches`] returns is the view of a match range `(a, b)` of the text with
/// `a <= b`: its byte offsets are the character boundaries `byte_at(t, a) <= byte_at(t, b)` and
/// its text is exactly `t[a..b]`. An empty pattern gives no match.
pub proof fn law_find_matches_are_slices(t: Seq<char>, ps: Seq<Seq<char>>, case_sensitive: bool)
    ensures
        ranges_within(t, all_hits(t, ps, case_sensitive)),
        forall|m: (int, int, Seq<char>)|
            sort_by_start(hit_views(t, all_hits(t, ps, case_sensitive))).contains(m) ==> exists|k: int|
                0 <= k < all_hits(t, ps, case_sensitive).len() && m == hit_view(t, #[trigger] all_hits(t, ps, case_sensitive)[k]),
        forall|k: int|
            0 <= k < all_hits(t, ps, case_sensitive).len() ==> byte_at(t, (#[trigger] all_hits(t, ps, case_sensitive)[k]).0)
                <= byte_at(t, all_hits(t, ps, case_sensitive)[k].1),
        forall|p: Seq<char>| p.len() == 0 ==> #[trigger] pattern_hits(t, p, case_sensitive).len() == 0,
{
    broadcast use vstd::seq_lib::group_to_multiset_ensures;

    let hs = all_hits(t, ps, case_sensitive);
    let hv = hit_views(t, hs);
    lemma_all_hits_within(t, ps, case_sensitive);
    law_sorted_by_start(hv);
    assert forall|m: (int, int, Seq<char>)| sort_by_start(hv).contains(m) implies exists|k: int|
        0 <= k < hs.len() && m == hit_view(t, #[trigger] hs[k]) by {
        assert(sort_by_start(hv).to_multiset().count(m) > 0);
        assert(hv.to_multiset().count(m) > 0);
        assert(hv.contains(m));
        let k = choose|k: int| 0 <= k < hv.len() && hv[k] == m;
        assert(hv[k] == hit_view(t, hs[k]));
    }
    assert forall|k: int| 0 <= k < hs.len() implies byte_at(t, (#[trigger] hs[k]).0) <= byte_at(t, hs[k].1) by {
        lemma_byte_at_mono(t, hs[k].0, hs[k].1);
    }
}

/// A case-sensitive match is an occurrence of the pattern, and the matches of one pattern come
/// left to right without overlapping.
pub proof fn law_exact_hits(t: Seq<char>, p: Seq<char>, from: int)
    requires
        0 <= from,
    ensures
        forall|k: int|
            0 <= k < exact_hits(t, p, from).len() ==> {
                let r = #[trigger] exact_hits(t, p, from)[k];
                &&& from <= r.0
                &&& r.1 == r.0 + p.len()
                &&& r.1 <= t.len()
                &&& t.subrange(r.0, r.1) == p
            },
        forall|k: int|
            0 <= k < exact_hits(t, p, from).len() - 1 ==> #[trigger] exact_hits(t, p, from)[k].1 <= exact_hits(
                t,
                p,
                from,
            )[k + 1].0,
    decreases t.len() + 1 - from,
{
    if p.len() > 0 && from <= t.len() {
        lemma_first_at(t, p, from);
        if let Some(k) = first_at(t, p, from) {
            let e = k + p.len();
            law_exact_hits(t, p, e);
            let rest = exact_hits(t, p, e);
            let hs = exact_hits(t, p, from);
            assert(hs == seq![(k, e)] + rest);
            assert forall|q: int| 0 <= q < hs.len() implies {
                let r = #[trigger] hs[q];
                &&& from <= r.0
                &&& r.1 == r.0 + p.len()
                &&& r.1 <= t.len()
                &&& t.subrange(r.0, r.1) == p
            } by {
                if q > 0 {
                    assert(hs[q] == rest[q - 1]);
                }
            }
            assert forall|q: int| 0 <= q < hs.len() - 1 implies #[trigger] hs[q].1 <= hs[q + 1].0 by {
                assert(hs[q + 1] == rest[q]);
                if q > 0 {
                    assert(hs[q] == rest[q - 1]);
                }
            }
        }
    }
}

proof fn lemma_ws_fwd_props(t: Seq<char>, a: int, b: int)
    requires
        0 <= a <= b <= t.len(),
    ensures
        a <= ws_fwd(t, a, b) <= b,
        ws_fwd(t, a, b) < b ==> !is_whitespace(t[ws_fwd(t, a, b)]),
    decreases b - a,
{
    if a < b && is_whitespace(t[a]) {
        lemma_ws_fwd_props(t, a + 1, b);
    }
}

proof fn lemma_ws_back_props(t: Seq<char>, a: int, b: int)
    requires
        0 <= a <= b <= t.len(),
    ensures
        a <= ws_back(t, a, b) <= b,
        a < ws_back(t, a, b) ==> !is_whitespace(t[ws_back(t, a, b) - 1]),
    decreases b - a,
{
    if a < b && is_whitespace(t[b - 1]) {
        lemma_ws_back_props(t, a, b - 1);
    }
}

/// Every sentence of `t[start..]` is a non-empty range of `t` that neither starts nor ends
/// with whitespace and holds no delimiter but possibly its last character; the sentences come
/// in order without overlapping.
pub proof fn law_sentence_ranges(t: Seq<char>, start: int)
    requires
        0 <= start,
    ensures
        forall|k: int|
            0 <= k < sentence_ranges(t, start).len() ==> {
                let r = #[trigger] sentence_ranges(t, start)[k];
                &&& start <= r.0 < r.1 <= t.len()
                &&& !is_whitespace(t[r.0])
                &&& !is_whitespace(t[r.1 - 1])
                &&& forall|m: int| r.0 <= m < r.1 - 1 ==> !is_sentence_delimiter(#[trigger] t[m])
            },
        forall|k: int|
            0 <= k < sentence_ranges(t, start).len() - 1 ==> #[trigger] sentence_ranges(t, start)[k].1
                <= sentence_ranges(t, start)[k + 1].0,
    decreases t.len() - start,
{
    if start < t.len() {
        let j = next_delim(t, start);
        lemma_next_delim_bounds(t, start);
        lemma_next_delim_props(t, start);
        let end = if j >= t.len() {
            t.len() as int
        } else {
            j + 1
        };
        let a = ws_fwd(t, start, end);
        lemma_ws_fwd_props(t, start, end);
        let b = ws_back(t, a, end);
        lemma_ws_back_props(t, a, end);
        let rest = if j >= t.len() {
            Seq::<(int, int)>::empty()
        } else {
            sentence_ranges(t, j + 1)
        };
        if j < t.len() {
            law_sentence_ranges(t, j + 1);
        }
        let rs = sentence_ranges(t, start);
        if a < b {
            assert(rs == seq![(a, b)] + rest);
            assert forall|k: int| 0 <= k < rs.len() implies {
                let r = #[trigger] rs[k];
                &&& start <= r.0 < r.1 <= t.len()
                &&& !is_whitespace(t[r.0])
                &&& !is_whitespace(t[r.1 - 1])
                &&& forall|m: int| r.0 <= m < r.1 - 1 ==> !is_sentence_delimiter(#[trigger] t[m])
            } by {
                if k > 0 {
                    assert(rs[k] == rest[k - 1]);
                } else {
                    assert forall|m: int| a <= m < b - 1 implies !is_sentence_delimiter(#[trigger] t[m]) by {
                        assert(m < j);
                    }
                }
            }
            assert forall|k: int| 0 <= k < rs.len() - 1 implies #[trigger] rs[k].1 <= rs[k + 1].0 by {
                assert(rs[k + 1] == rest[k]);
                if k > 0 {
                    assert(rs[k] == rest[k - 1]);
                }
            }
        } else {
            assert(rs == rest);
        }
    }
}

} // verus!
