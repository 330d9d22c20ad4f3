//! Shared, pure text helpers used by several rules. No AST, no panics.
use vstd::prelude::*;
use crate::text::{
    byte_at, contains_seq, matches_at, occurs_at, push_char, str_chars,
};

verus! {

/// Sentence-terminating delimiters (ASCII and full-width).
pub open spec fn is_sentence_delimiter(c: char) -> bool {
    c == '.' || c == '!' || c == '?' || c == '。' || c == '！' || c == '？'
}

pub fn sentence_delimiter(c: char) -> (b: bool)
    ensures
        b == is_sentence_delimiter(c),
{
    c == '.' || c == '!' || c == '?' || c == '。' || c == '！' || c == '？'
}

/// `char::is_whitespace`: the Unicode `White_Space` property.
pub open spec fn is_whitespace(c: char) -> bool {
    let v = c as u32;
    (0x09 <= v && v <= 0x0D) || v == 0x20 || v == 0x85 || v == 0xA0 || v == 0x1680 || (0x2000 <= v
        && v <= 0x200A) || v == 0x2028 || v == 0x2029 || v == 0x202F || v == 0x205F || v == 0x3000
}

pub fn whitespace(c: char) -> (b: bool)
    ensures
        b == is_whitespace(c),
{
    let v = c as u32;
    (0x09 <= v && v <= 0x0D) || v == 0x20 || v == 0x85 || v == 0xA0 || v == 0x1680 || (0x2000 <= v
        && v <= 0x200A) || v == 0x2028 || v == 0x2029 || v == 0x202F || v == 0x205F || v == 0x3000
}

/// Index of the first non-whitespace character of `s` at or after `i` (or `s.len()`).
pub open spec fn skip_ws(s: Seq<char>, i: int) -> int
    decreases s.len() - i,
{
    if i >= s.len() {
        s.len() as int
    } else if is_whitespace(s[i]) {
        skip_ws(s, i + 1)
    } else {
        i
    }
}

/// `str::trim_start`.
pub open spec fn trim_start(s: Seq<char>) -> Seq<char> {
    s.subrange(skip_ws(s, 0), s.len() as int)
}

pub proof fn lemma_skip_ws_bounds(s: Seq<char>, i: int)
    requires
        0 <= i <= s.len(),
    ensures
        i <= skip_ws(s, i) <= s.len(),
        skip_ws(s, i) < s.len() ==> !is_whitespace(s[skip_ws(s, i)]),
        forall|k: int| i <= k < skip_ws(s, i) ==> is_whitespace(s[k]),
    decreases s.len() - i,
{
    if i < s.len() && is_whitespace(s[i]) {
        lemma_skip_ws_bounds(s, i + 1);
    }
}

/// Exec [`skip_ws`] on the window `cs[from..to]`, in window-relative terms.
pub fn skip_ws_in(cs: &[char], from: usize, to: usize) -> (k: usize)
    requires
        from <= to <= cs.len(),
    ensures
        from <= k <= to,
        k - from == skip_ws(cs@.subrange(from as int, to as int), 0),
{
    let ghost w = cs@.subrange(from as int, to as int);
    let mut k = from;
    while k < to && whitespace(cs[k])
        invariant
            from <= k <= to <= cs.len(),
            w == cs@.subrange(from as int, to as int),
            skip_ws(w, (k - from) as int) == skip_ws(w, 0),
        decreases to - k,
    {
        k = k + 1;
    }
    k
}

/// Index of the first sentence delimiter at or after `i` (or `t.len()`).
pub open spec fn next_delim(t: Seq<char>, i: int) -> int
    decreases t.len() - i,
{
    if i >= t.len() {
        t.len() as int
    } else if is_sentence_delimiter(t[i]) {
        i
    } else {
        next_delim(t, i + 1)
    }
}

pub proof fn lemma_next_delim_bounds(t: Seq<char>, i: int)
    requires
        0 <= i <= t.len(),
    ensures
        i <= next_delim(t, i) <= t.len(),
    decreases t.len() - i,
{
    if i < t.len() && !is_sentence_delimiter(t[i]) {
        lemma_next_delim_bounds(t, i + 1);
    }
}

/// The sentences of `t[start..]`: each runs up to and including the next delimiter (or to the
/// end of the text), has its leading whitespace trimmed, and is kept only if non-empty.
pub open spec fn sentences_from(t: Seq<char>, start: int) -> Seq<Seq<char>>
    decreases t.len() - start,
{
    if start < 0 || start >= t.len() {
        seq![]
    } else {
        let j = next_delim(t, start);
        let end = if j >= t.len() {
            t.len() as int
        } else {
            j + 1
        };
        let piece = trim_start(t.subrange(start, end));
        let rest = if j >= t.len() {
            Seq::<Seq<char>>::empty()
        } else {
            proof {
                lemma_next_delim_bounds(t, start);
            }
            sentences_from(t, j + 1)
        };
        if piece.len() == 0 {
            rest
        } else {
            seq![piece] + rest
        }
    }
}

pub proof fn lemma_next_delim_props(t: Seq<char>, i: int)
    requires
        0 <= i <= t.len(),
    ensures
        forall|m: int| i <= m < next_delim(t, i) ==> !is_sentence_delimiter(#[trigger] t[m]),
        next_delim(t, i) < t.len() ==> is_sentence_delimiter(t[next_delim(t, i)]),
    decreases t.len() - i,
{
    if i < t.len() && !is_sentence_delimiter(t[i]) {
        lemma_next_delim_props(t, i + 1);
    }
}

/// What splitting promises of every sentence of `t[start..]`: it is non-empty, it does not
/// start with whitespace, no delimiter occurs in it but possibly as its last character, and
/// every sentence but the last ends with a delimiter.
pub proof fn law_sentence_pieces(t: Seq<char>, start: int)
    requires
        0 <= start,
    ensures
        forall|k: int|
            0 <= k < sentences_from(t, start).len() ==> {
                let p = #[trigger] sentences_from(t, start)[k];
                &&& p.len() > 0
                &&& !is_whitespace(p[0])
                &&& forall|j: int| 0 <= j < p.len() - 1 ==> !is_sentence_delimiter(#[trigger] p[j])
                &&& k < sentences_from(t, start).len() - 1 ==> is_sentence_delimiter(p[p.len() - 1])
            },
    decreases t.len() - start,
{
    if start < t.len() {
        let j = next_delim(t, start);
        lemma_next_delim_bounds(t, start);
        lemma_next_delim_props(t, start);
        let end = if j >= t.len() {
            t.len() as int
        } else {
            j + 1
        };
        let sub = t.subrange(start, end);
        let piece = trim_start(sub);
        lemma_skip_ws_bounds(sub, 0);
        let rest = if j >= t.len() {
            Seq::<Seq<char>>::empty()
        } else {
            sentences_from(t, j + 1)
        };
        if j < t.len() {
            law_sentence_pieces(t, j + 1);
        }
        let ss = sentences_from(t, start);
        assert forall|k: int| 0 <= k < ss.len() implies {
            let p = #[trigger] ss[k];
            &&& p.len() > 0
            &&& !is_whitespace(p[0])
            &&& forall|jj: int| 0 <= jj < p.len() - 1 ==> !is_sentence_delimiter(#[trigger] p[jj])
            &&& k < ss.len() - 1 ==> is_sentence_delimiter(p[p.len() - 1])
        } by {
            if piece.len() == 0 {
                assert(ss == rest);
            } else {
                assert(ss == seq![piece] + rest);
                if k == 0 {
                    let s0 = skip_ws(sub, 0);
                    assert(piece[0] == sub[s0]);
                    assert forall|jj: int| 0 <= jj < piece.len() - 1 implies !is_sentence_delimiter(#[trigger] piece[jj]) by {
                        assert(piece[jj] == t[start + s0 + jj]);
                    }
                    if k < ss.len() - 1 {
                        assert(rest.len() > 0);
                        assert(j < t.len());
                        assert(piece[piece.len() - 1] == t[j]);
                    }
                } else {
                    assert(ss[k] == rest[k - 1]);
                }
            }
        }
    }
}

/// The gaps `ws` interleaved with the sentences `ss`: `ws[0] + ss[0] + ws[1] + … + ss[k-1] + ws[k]`.
pub open spec fn interleave(ws: Seq<Seq<char>>, ss: Seq<Seq<char>>) -> Seq<char>
    decreases ss.len(),
{
    if ss.len() == 0 || ws.len() == 0 {
        if ws.len() > 0 {
            ws[0]
        } else {
            seq![]
        }
    } else {
        ws[0] + ss[0] + interleave(ws.drop_first(), ss.drop_first())
    }
}

/// The whitespace runs of `t[start..]` around its sentences (see [`sentences_from`]): before
/// each sentence, and after the last.
pub open spec fn gaps_from(t: Seq<char>, start: int) -> Seq<Seq<char>>
    decreases t.len() - start,
{
    if start < 0 || start >= t.len() {
        seq![seq![]]
    } else {
        let j = next_delim(t, start);
        let end = if j >= t.len() {
            t.len() as int
        } else {
            j + 1
        };
        let sub = t.subrange(start, end);
        let s0 = skip_ws(sub, 0);
        let rest = if j >= t.len() {
            seq![seq![]]
        } else {
            proof {
                lemma_next_delim_bounds(t, start);
            }
            gaps_from(t, j + 1)
        };
        if s0 >= sub.len() {
            seq![sub + rest[0]] + rest.drop_first()
        } else {
            seq![sub.subrange(0, s0)] + rest
        }
    }
}

/// Splitting loses only whitespace: `t[start..]` is its sentences with whitespace-only gaps
/// between and around them, and trailing whitespace follows a delimiter (or there is no
/// sentence at all).
pub proof fn law_sentences_interleave_whitespace(t: Seq<char>, start: int)
    requires
        0 <= start <= t.len(),
    ensures
        ({
            let ss = sentences_from(t, start);
            let ws = gaps_from(t, start);
            &&& ws.len() == ss.len() + 1
            &&& forall|k: int, m: int| 0 <= k < ws.len() && 0 <= m < ws[k].len() ==> is_whitespace(#[trigger] ws[k][m])
            &&& interleave(ws, ss) == t.subrange(start, t.len() as int)
            &&& ws.last().len() > 0 ==> ss.len() == 0 || is_sentence_delimiter(ss.last().last())
        }),
    decreases t.len() - start,
{
    let ss = sentences_from(t, start);
    let ws = gaps_from(t, start);
    if start >= t.len() {
        assert(t.subrange(start, t.len() as int) =~= Seq::<char>::empty());
    } else {
        let j = next_delim(t, start);
        lemma_next_delim_bounds(t, start);
        lemma_next_delim_props(t, start);
        let end = if j >= t.len() {
            t.len() as int
        } else {
            j + 1
        };
        let sub = t.subrange(start, end);
        let s0 = skip_ws(sub, 0);
        lemma_skip_ws_bounds(sub, 0);
        let piece = trim_start(sub);
        let rs = if j >= t.len() {
            Seq::<Seq<char>>::empty()
        } else {
            sentences_from(t, j + 1)
        };
        let rw = if j >= t.len() {
            seq![Seq::<char>::empty()]
        } else {
            gaps_from(t, j + 1)
        };
        if j < t.len() {
            law_sentences_interleave_whitespace(t, j + 1);
        } else {
            assert(t.subrange(end, t.len() as int) =~= Seq::<char>::empty());
        }
        assert(rw.len() == rs.len() + 1);
        assert(interleave(rw, rs) == t.subrange(end, t.len() as int));
        assert(t.subrange(start, t.len() as int) =~= sub + t.subrange(end, t.len() as int));
        assert(sub =~= sub.subrange(0, s0) + piece);
        if s0 >= sub.len() {
            assert(piece.len() == 0);
            assert(ss == rs);
            assert(ws == seq![sub + rw[0]] + rw.drop_first());
            assert forall|k: int, m: int| 0 <= k < ws.len() && 0 <= m < ws[k].len() implies is_whitespace(#[trigger] ws[k][m]) by {
                if k == 0 {
                    if m < sub.len() {
                        assert(ws[0][m] == sub[m]);
                    } else {
                        assert(ws[0][m] == rw[0][m - sub.len()]);
                    }
                } else {
                    assert(ws[k] == rw[k]);
                }
            }
            if rs.len() == 0 {
                assert(interleave(ws, ss) == ws[0]);
                assert(interleave(rw, rs) == rw[0]);
                assert(sub.subrange(0, s0) =~= sub);
            } else {
                assert(interleave(ws, ss) =~= ws[0] + ss[0] + interleave(ws.drop_first(), ss.drop_first()));
                assert(interleave(rw, rs) =~= rw[0] + rs[0] + interleave(rw.drop_first(), rs.drop_first()));
                assert(ws.drop_first() =~= rw.drop_first());
                assert(sub.subrange(0, s0) =~= sub);
            }
        } else {
            assert(piece.len() > 0);
            assert(ss == seq![piece] + rs);
            assert(ws == seq![sub.subrange(0, s0)] + rw);
            assert forall|k: int, m: int| 0 <= k < ws.len() && 0 <= m < ws[k].len() implies is_whitespace(#[trigger] ws[k][m]) by {
                if k == 0 {
                    assert(ws[0][m] == sub[m]);
                } else {
                    assert(ws[k] == rw[k - 1]);
                }
            }
            assert(ss.drop_first() =~= rs);
            assert(ws.drop_first() =~= rw);
            assert(interleave(ws, ss) == ws[0] + ss[0] + interleave(rw, rs));
            if ws.last().len() > 0 {
                assert(ws.last() == rw.last());
                if rs.len() == 0 {
                    assert(j < t.len());
                    assert(piece[piece.len() - 1] == t[j]);
                    assert(ss.last() == piece);
                } else {
                    assert(ss.last() == rs.last());
                }
            }
        }
    }
}

/// The sentences of `t` (see [`sentences_from`]).
pub open spec fn sentences(t: Seq<char>) -> Seq<Seq<char>> {
    sentences_from(t, 0)
}

/// Split `text` into sentences on `. ! ? 。 ！ ？`.
///
/// Each sentence includes its terminating delimiter and has leading whitespace trimmed; empty
/// pieces are dropped. A trailing run with no delimiter is returned as a final sentence.
pub fn split_sentences(text: &str) -> (res: Vec<&str>)
    ensures
        res.len() == sentences(text@).len(),
        forall|k: int| 0 <= k < res.len() ==> #[trigger] res[k]@ == sentences(text@)[k],
{
    let cs = str_chars(text);
    let ghost t = cs@;
    let mut res: Vec<&str> = Vec::new();
    let mut start: usize = 0;
    let mut i: usize = 0;
    while i < cs.len()
        invariant
            t == cs@,
            t == text@,
            start <= i <= cs.len(),
            next_delim(t, start as int) == next_delim(t, i as int),
            sentences(t) == res@.map_values(|s: &str| s@) + sentences_from(t, start as int),
        decreases cs.len() - i,
    {
        if sentence_delimiter(cs[i]) {
            let end = i + 1;
            let k = skip_ws_in(cs.as_slice(), start, end);
            if k < end {
                let piece = text.substring_char(k, end);
                let ghost before = res@.map_values(|s: &str| s@);
                res.push(piece);
                assert(res@.map_values(|s: &str| s@) =~= before.push(piece@));
                assert(piece@ =~= trim_start(t.subrange(start as int, end as int)));
            } else {
                assert(trim_start(t.subrange(start as int, end as int)).len() == 0);
            }
            start = end;
        }
        i = i + 1;
    }
    if start < cs.len() {
        let k = skip_ws_in(cs.as_slice(), start, cs.len());
        if k < cs.len() {
            let piece = text.substring_char(k, cs.len());
            let ghost before = res@.map_values(|s: &str| s@);
            res.push(piece);
            assert(res@.map_values(|s: &str| s@) =~= before.push(piece@));
            assert(piece@ =~= trim_start(t.subrange(start as int, t.len() as int)));
        }
    }
    assert(sentences(t) =~= res@.map_values(|s: &str| s@));
    proof {
        assert forall|k: int| 0 <= k < res.len() implies #[trigger] res[k]@ == sentences(
            text@,
        )[k] by {
            assert(res@.map_values(|s: &str| s@)[k] == res@[k]@);
        }
    }
    res
}

/// `"http://"`.
pub open spec fn http_scheme() -> Seq<char> {
    seq!['h', 't', 't', 'p', ':', '/', '/']
}

/// `"https://"`.
pub open spec fn https_scheme() -> Seq<char> {
    seq!['h', 't', 't', 'p', 's', ':', '/', '/']
}

/// A character that ends a URL run: whitespace or one of `」 ） ) 、 。`.
pub open spec fn ends_url(c: char) -> bool {
    is_whitespace(c) || c == '」' || c == '）' || c == ')' || c == '、' || c == '。'
}

/// Index of the first URL-ending character at or after `i` (or `t.len()`).
pub open spec fn url_end(t: Seq<char>, i: int) -> int
    decreases t.len() - i,
{
    if i >= t.len() {
        t.len() as int
    } else if ends_url(t[i]) {
        i
    } else {
        url_end(t, i + 1)
    }
}

pub proof fn lemma_url_end_bounds(t: Seq<char>, i: int)
    requires
        0 <= i <= t.len(),
    ensures
        i <= url_end(t, i) <= t.len(),
    decreases t.len() - i,
{
    if i < t.len() && !ends_url(t[i]) {
        lemma_url_end_bounds(t, i + 1);
    }
}

/// Whether an `http://` or `https://` run starts at `i`.
pub open spec fn url_at(t: Seq<char>, i: int) -> bool {
    occurs_at(t, i, http_scheme()) || occurs_at(t, i, https_scheme())
}

/// `t[i..]` with every URL run collapsed to `・`.
pub open spec fn strip_urls_from(t: Seq<char>, i: int) -> Seq<char>
    decreases t.len() - i,
{
    if i < 0 || i >= t.len() {
        seq![]
    } else if url_at(t, i) {
        // The run starts with `h`, which does not end it, so it is never empty.
        let e = url_end(t, i + 1);
        proof {
            lemma_url_end_bounds(t, i + 1);
        }
        seq!['・'] + strip_urls_from(t, e)
    } else {
        seq![t[i]] + strip_urls_from(t, i + 1)
    }
}

/// Collapse each `http://`/`https://` run to a single `・` so a long URL counts as one character
/// and the dots inside it are not treated as sentence boundaries. A run extends up to (not
/// including) the next whitespace or closing mark `」 ） ) 、 。`.
pub fn strip_urls(text: &str) -> (out: String)
    ensures
        out@ == strip_urls_from(text@, 0),
{
    let cs = str_chars(text);
    let http = str_chars("http://");
    let https = str_chars("https://");
    proof {
        reveal_strlit("http://");
        reveal_strlit("https://");
        assert(http@ =~= http_scheme());
        assert(https@ =~= https_scheme());
    }
    let ghost t = cs@;
    let mut out = String::new();
    let mut i: usize = 0;
    while i < cs.len()
        invariant
            t == cs@,
            t == text@,
            http@ == http_scheme(),
            https@ == https_scheme(),
            i <= cs.len(),
            strip_urls_from(t, 0) == out@ + strip_urls_from(t, i as int),
        decreases cs.len() - i,
    {
        if matches_at(cs.as_slice(), i, http.as_slice()) || matches_at(
            cs.as_slice(),
            i,
            https.as_slice(),
        ) {
            push_char(&mut out, '・');
            let mut j = i + 1;
            while j < cs.len() && !(whitespace(cs[j]) || cs[j] == '」' || cs[j] == '）' || cs[j]
                == ')' || cs[j] == '、' || cs[j] == '。')
                invariant
                    t == cs@,
                    i < j <= cs.len(),
                    url_end(t, j as int) == url_end(t, i + 1),
                decreases cs.len() - j,
            {
                j = j + 1;
            }
            proof {
                lemma_url_end_bounds(t, i + 1);
            }
            assert(strip_urls_from(t, i as int) == seq!['・'] + strip_urls_from(t, j as int));
            assert(out@ + strip_urls_from(t, j as int) =~= strip_urls_from(t, 0));
            i = j;
        } else {
            push_char(&mut out, cs[i]);
            assert(out@ + strip_urls_from(t, i + 1) =~= strip_urls_from(t, 0));
            i = i + 1;
        }
    }
    assert(out@ =~= strip_urls_from(t, 0));
    out
}

/// Without a URL run from `i` on, `t[i..]` is left as it is.
proof fn lemma_strip_plain_from(t: Seq<char>, i: int)
    requires
        0 <= i <= t.len(),
        forall|k: int| i <= k < t.len() ==> !url_at(t, k),
    ensures
        strip_urls_from(t, i) == t.subrange(i, t.len() as int),
    decreases t.len() - i,
{
    if i < t.len() {
        lemma_strip_plain_from(t, i + 1);
        assert(t.subrange(i, t.len() as int) =~= seq![t[i]] + t.subrange(i + 1, t.len() as int));
    } else {
        assert(t.subrange(i, t.len() as int) =~= Seq::<char>::empty());
    }
}

/// Text without `http://` or `https://` comes out of [`strip_urls`] unchanged.
pub proof fn law_strip_urls_keeps_plain_text(t: Seq<char>)
    requires
        !contains_seq(t, http_scheme()),
        !contains_seq(t, https_scheme()),
    ensures
        strip_urls_from(t, 0) == t,
{
    assert forall|k: int| 0 <= k < t.len() implies !url_at(t, k) by {
        if occurs_at(t, k, http_scheme()) {
            assert(contains_seq(t, http_scheme()));
        }
        if occurs_at(t, k, https_scheme()) {
            assert(contains_seq(t, https_scheme()));
        }
    }
    lemma_strip_plain_from(t, 0);
    assert(t.subrange(0, t.len() as int) =~= t);
}

/// A pattern without `・` at the start of the stripped `t[i..]` stands at `i` in `t`.
proof fn lemma_strip_prefix(t: Seq<char>, i: int, p: Seq<char>)
    requires
        0 <= i <= t.len(),
        forall|k: int| 0 <= k < p.len() ==> p[k] != '・',
        occurs_at(strip_urls_from(t, i), 0, p),
    ensures
        occurs_at(t, i, p),
    decreases p.len(),
{
    let s = strip_urls_from(t, i);
    if p.len() == 0 {
        assert(t.subrange(i, i) =~= p);
    } else {
        assert(s.subrange(0, p.len() as int)[0] == p[0]);
        if i >= t.len() {
            assert(false);
        } else if url_at(t, i) {
            assert(s[0] == '・');
            assert(false);
        } else {
            let r = strip_urls_from(t, i + 1);
            assert(s == seq![t[i]] + r);
            assert(r.subrange(0, p.len() - 1) =~= p.drop_first()) by {
                assert forall|k: int| 0 <= k < p.len() - 1 implies r[k] == p.drop_first()[k] by {
                    assert(s[k + 1] == r[k]);
                    assert(s.subrange(0, p.len() as int)[k + 1] == p[k + 1]);
                }
            }
            lemma_strip_prefix(t, i + 1, p.drop_first());
            assert(t.subrange(i, i + p.len()) =~= seq![t[i]] + t.subrange(i + 1, i + p.len()));
            assert(p =~= seq![p[0]] + p.drop_first());
        }
    }
}

/// A URL scheme occurs nowhere in the stripped `t[i..]`.
proof fn lemma_strip_no_scheme(t: Seq<char>, i: int, j: int, p: Seq<char>)
    requires
        0 <= i <= t.len(),
        p == http_scheme() || p == https_scheme(),
    ensures
        !occurs_at(strip_urls_from(t, i), j, p),
    decreases t.len() - i,
{
    let s = strip_urls_from(t, i);
    if occurs_at(s, j, p) {
        if j == 0 {
            lemma_strip_prefix(t, i, p);
            assert(url_at(t, i));
            assert(s[0] == '・');
            assert(s.subrange(0, p.len() as int)[0] == p[0]);
        } else {
            assert(i < t.len());
            let next = if url_at(t, i) {
                url_end(t, i + 1)
            } else {
                i + 1
            };
            lemma_url_end_bounds(t, i + 1);
            let r = strip_urls_from(t, next);
            assert(s =~= seq![s[0]] + r);
            assert(r.subrange(j - 1, j - 1 + p.len()) =~= s.subrange(j, j + p.len()));
            lemma_strip_no_scheme(t, next, j - 1, p);
        }
    }
}

/// What [`strip_urls`] returns holds no `http://` or `https://`, so stripping it again
/// changes nothing.
pub proof fn law_strip_urls_is_idempotent(t: Seq<char>)
    ensures
        !contains_seq(strip_urls_from(t, 0), http_scheme()),
        !contains_seq(strip_urls_from(t, 0), https_scheme()),
        strip_urls_from(strip_urls_from(t, 0), 0) == strip_urls_from(t, 0),
{
    let s = strip_urls_from(t, 0);
    assert forall|j: int| !occurs_at(s, j, http_scheme()) by {
        lemma_strip_no_scheme(t, 0, j, http_scheme());
    }
    assert forall|j: int| !occurs_at(s, j, https_scheme()) by {
        lemma_strip_no_scheme(t, 0, j, https_scheme());
    }
    law_strip_urls_keeps_plain_text(s);
}

/// Whether `c` is a Han ideograph in CJK Unified (`U+4E00..=U+9FFF`) or Extension A
/// (`U+3400..=U+4DBF`). The iteration mark `々` (U+3005), CJK Compatibility Ideographs, and
/// Extension B+ are excluded.
pub open spec fn spec_is_kanji(c: char) -> bool {
    (0x4E00 <= (c as u32) && (c as u32) <= 0x9FFF) || (0x3400 <= (c as u32) && (c as u32)
        <= 0x4DBF)
}

#[verifier::when_used_as_spec(spec_is_kanji)]
pub fn is_kanji(c: char) -> (b: bool)
    ensures
        b == spec_is_kanji(c),
{
    let v = c as u32;
    (0x4E00 <= v && v <= 0x9FFF) || (0x3400 <= v && v <= 0x4DBF)
}

/// Whether `c` is in the half-width katakana block (`U+FF61..=U+FF9F`), which also holds the
/// half-width punctuation, brackets and sound marks.
pub open spec fn spec_is_halfwidth_kana(c: char) -> bool {
    0xFF61 <= (c as u32) && (c as u32) <= 0xFF9F
}

#[verifier::when_used_as_spec(spec_is_halfwidth_kana)]
pub fn is_halfwidth_kana(c: char) -> (b: bool)
    ensures
        b == spec_is_halfwidth_kana(c),
{
    let v = c as u32;
    0xFF61 <= v && v <= 0xFF9F
}

/// Whether `c` is a full-width Latin letter (`Ａ–Ｚ` `U+FF21..=U+FF3A`, `ａ–ｚ` `U+FF41..=U+FF5A`).
pub open spec fn spec_is_fullwidth_alpha(c: char) -> bool {
    (0xFF21 <= (c as u32) && (c as u32) <= 0xFF3A) || (0xFF41 <= (c as u32) && (c as u32)
        <= 0xFF5A)
}

#[verifier::when_used_as_spec(spec_is_fullwidth_alpha)]
pub fn is_fullwidth_alpha(c: char) -> (b: bool)
    ensures
        b == spec_is_fullwidth_alpha(c),
{
    let v = c as u32;
    (0xFF21 <= v && v <= 0xFF3A) || (0xFF41 <= v && v <= 0xFF5A)
}

} // verus!
