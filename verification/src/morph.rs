//! Morphological tokens: the surface span of each word of a node, its dictionary features and
//! base form, ordered by surface, and the source text a surface covers.
use vstd::prelude::*;
use crate::ast::Span;
use crate::text::{byte_at, byte_len, index_of_byte, is_boundary, lemma_index_of_byte, offsets_ok, str_chars, str_eq};

verus! {

/// A dictionary feature column.
#[derive(Clone, Copy, Debug, PartialEq, Eq, Structural)]
pub enum FeatureKey {
    Pos,
    PosSub1,
    PosSub2,
    PosSub3,
    ConjugationType,
    ConjugationForm,
}

/// One feature of a token: its column and its value, if the dictionary gives one.
#[derive(Debug)]
pub struct Feature {
    pub key: FeatureKey,
    pub value: Option<String>,
}

/// One morphological token.
#[derive(Debug)]
pub struct Token {
    /// The absolute byte span of the token's surface.
    pub surface: Span,
    /// An out-of-vocabulary guess of the tokenizer.
    pub unknown: bool,
    /// The dictionary base form.
    pub base_form: Option<String>,
    pub features: Vec<Feature>,
}

pub open spec fn opt_view(o: Option<String>) -> Option<Seq<char>> {
    match o {
        Some(s) => Some(s@),
        None => None,
    }
}

/// The value of the first feature of column `key` (`None` when absent or valueless).
pub open spec fn feature_value(fs: Seq<Feature>, key: FeatureKey) -> Option<Seq<char>>
    decreases fs.len(),
{
    if fs.len() == 0 {
        None
    } else if fs[0].key == key {
        opt_view(fs[0].value)
    } else {
        feature_value(fs.drop_first(), key)
    }
}

impl Token {
    pub open spec fn feature_spec(&self, key: FeatureKey) -> Option<Seq<char>> {
        feature_value(self.features@, key)
    }

    pub open spec fn base_spec(&self) -> Option<Seq<char>> {
        opt_view(self.base_form)
    }

    /// The value of feature `key`.
    pub fn feature(&self, key: FeatureKey) -> (r: Option<&str>)
        ensures
            match r {
                Some(s) => self.feature_spec(key) == Some(s@),
                None => self.feature_spec(key).is_none(),
            },
    {
        let mut i: usize = 0;
        assert(self.features@.skip(0) =~= self.features@);
        while i < self.features.len()
            invariant
                i <= self.features.len(),
                feature_value(self.features@, key) == feature_value(self.features@.skip(i as int), key),
            decreases self.features.len() - i,
        {
            assert(self.features@.skip(i as int).drop_first() =~= self.features@.skip(i + 1));
            if self.features[i].key == key {
                return match &self.features[i].value {
                    Some(v) => Some(v.as_str()),
                    None => None,
                };
            }
            i = i + 1;
        }
        None
    }

    /// Whether feature `key` is exactly `lit`.
    pub fn feature_is(&self, key: FeatureKey, lit: &str) -> (b: bool)
        ensures
            b == (self.feature_spec(key) == Some(lit@)),
    {
        match self.feature(key) {
            Some(v) => str_eq(v, lit),
            None => false,
        }
    }

    /// Whether the base form is exactly `lit`.
    pub fn base_is(&self, lit: &str) -> (b: bool)
        ensures
            b == (self.base_spec() == Some(lit@)),
    {
        match &self.base_form {
            Some(v) => str_eq(v.as_str(), lit),
            None => false,
        }
    }
}

// ---------------------------------------------------------------------------
// Source order
// ---------------------------------------------------------------------------

/// `a` sorts before `b` by `(start, end)`.
pub open spec fn span_lt(a: Span, b: Span) -> bool {
    a.start < b.start || (a.start == b.start && a.end < b.end)
}

/// Stable insertion of token index `i` into the surface-sorted index list `o`.
pub open spec fn insert_by_surface(o: Seq<int>, i: int, ts: Seq<Token>) -> Seq<int>
    decreases o.len(),
{
    if o.len() == 0 {
        seq![i]
    } else if span_lt(ts[i].surface, ts[o.last()].surface) {
        insert_by_surface(o.drop_last(), i, ts).push(o.last())
    } else {
        o.push(i)
    }
}

/// The indices `0..n` of `ts`, stably sorted by surface `(start, end)`.
pub open spec fn surface_order_upto(ts: Seq<Token>, n: int) -> Seq<int>
    decreases n,
{
    if n <= 0 {
        seq![]
    } else {
        insert_by_surface(surface_order_upto(ts, n - 1), n - 1, ts)
    }
}

/// The tokens of `ts` in source order (a stable sort by surface `(start, end)`).
pub open spec fn sorted_tokens(ts: Seq<Token>) -> Seq<Token> {
    surface_order_upto(ts, ts.len() as int).map_values(|i: int| ts[i])
}

/// `o` lists distinct indices below `n`, ordered by surface, equal surfaces in index order.
pub open spec fn is_stable_order(o: Seq<int>, ts: Seq<Token>, n: int) -> bool {
    &&& forall|k: int| 0 <= k < o.len() ==> 0 <= #[trigger] o[k] < n
    &&& forall|a: int, b: int| 0 <= a < b < o.len() ==> o[a] != o[b]
    &&& forall|a: int, b: int|
        0 <= a < b < o.len() ==> !span_lt(#[trigger] ts[o[b]].surface, #[trigger] ts[o[a]].surface)
    &&& forall|a: int, b: int|
        0 <= a < b < o.len() && ts[o[a]].surface == ts[o[b]].surface ==> #[trigger] o[a] < #[trigger] o[b]
}

proof fn lemma_insert_stable(o: Seq<int>, i: int, ts: Seq<Token>)
    requires
        0 <= i < ts.len(),
        is_stable_order(o, ts, i),
    ensures
        is_stable_order(insert_by_surface(o, i, ts), ts, i + 1),
        insert_by_surface(o, i, ts).len() == o.len() + 1,
        forall|x: int| #[trigger] insert_by_surface(o, i, ts).contains(x) <==> (o.contains(x) || x == i),
    decreases o.len(),
{
    let r = insert_by_surface(o, i, ts);
    if o.len() == 0 {
        assert(r == seq![i]);
        assert forall|x: int| r.contains(x) <==> (o.contains(x) || x == i) by {
            if r.contains(x) {
                assert(r[0] == x);
            }
            if x == i {
                assert(r[0] == i);
            }
        }
    } else if span_lt(ts[i].surface, ts[o.last()].surface) {
        let o2 = o.drop_last();
        assert(is_stable_order(o2, ts, i)) by {
            assert forall|a: int, b: int| 0 <= a < b < o2.len() implies !span_lt(#[trigger] ts[o2[b]].surface, #[trigger] ts[o2[a]].surface) by {
                assert(o2[a] == o[a] && o2[b] == o[b]);
            }
            assert forall|a: int, b: int| 0 <= a < b < o2.len() && ts[o2[a]].surface == ts[o2[b]].surface implies #[trigger] o2[a] < #[trigger] o2[b] by {
                assert(o2[a] == o[a] && o2[b] == o[b]);
            }
        }
        lemma_insert_stable(o2, i, ts);
        let r2 = insert_by_surface(o2, i, ts);
        let last = o.last();
        assert(r == r2.push(last));
        assert forall|x: int| r.contains(x) <==> (o.contains(x) || x == i) by {
            if r.contains(x) {
                let k = choose|k: int| 0 <= k < r.len() && r[k] == x;
                if k < r2.len() {
                    assert(r2[k] == x);
                    assert(r2.contains(x));
                    if o2.contains(x) {
                        let q = choose|q: int| 0 <= q < o2.len() && o2[q] == x;
                        assert(o[q] == x);
                    }
                } else {
                    assert(o[o.len() - 1] == x);
                }
            }
            if o.contains(x) {
                let q = choose|q: int| 0 <= q < o.len() && o[q] == x;
                if q < o.len() - 1 {
                    assert(o2[q] == x);
                    assert(o2.contains(x));
                    assert(r2.contains(x));
                    let k = choose|k: int| 0 <= k < r2.len() && r2[k] == x;
                    assert(r[k] == x);
                } else {
                    assert(r[r2.len() as int] == x);
                }
            }
            if x == i {
                assert(r2.contains(i));
                let k = choose|k: int| 0 <= k < r2.len() && r2[k] == i;
                assert(r[k] == i);
            }
        }
        // every element of r2 sorts no later than `last`, and differs from it
        assert forall|k: int| 0 <= k < r2.len() implies !span_lt(ts[last].surface, #[trigger] ts[r2[k]].surface)
            && r2[k] != last && (ts[r2[k]].surface == ts[last].surface ==> r2[k] < last) by {
            assert(r2.contains(r2[k]));
            if r2[k] != i {
                assert(o2.contains(r2[k]));
                let q = choose|q: int| 0 <= q < o2.len() && o2[q] == r2[k];
                assert(o[q] == r2[k]);
                assert(o[o.len() - 1] == last);
            }
        }
        assert(is_stable_order(r, ts, i + 1)) by {
            assert forall|k: int| 0 <= k < r.len() implies 0 <= #[trigger] r[k] < i + 1 by {
                if k < r2.len() {
                    assert(r[k] == r2[k]);
                } else {
                    assert(r[k] == last);
                    assert(o[o.len() - 1] == last);
                }
            }
            assert forall|a: int, b: int| 0 <= a < b < r.len() implies r[a] != r[b] by {
                if b < r2.len() {
                    assert(r[a] == r2[a] && r[b] == r2[b]);
                } else {
                    assert(r[a] == r2[a]);
                }
            }
            assert forall|a: int, b: int| 0 <= a < b < r.len() implies !span_lt(#[trigger] ts[r[b]].surface, #[trigger] ts[r[a]].surface) by {
                if b < r2.len() {
                    assert(r[a] == r2[a] && r[b] == r2[b]);
                } else {
                    assert(r[a] == r2[a]);
                }
            }
            assert forall|a: int, b: int| 0 <= a < b < r.len() && ts[r[a]].surface == ts[r[b]].surface implies #[trigger] r[a] < #[trigger] r[b] by {
                if b < r2.len() {
                    assert(r[a] == r2[a] && r[b] == r2[b]);
                } else {
                    assert(r[a] == r2[a]);
                }
            }
        }
    } else {
        let last = o.last();
        assert(r == o.push(i));
        assert forall|x: int| r.contains(x) <==> (o.contains(x) || x == i) by {
            if r.contains(x) {
                let k = choose|k: int| 0 <= k < r.len() && r[k] == x;
                if k < o.len() {
                    assert(o[k] == x);
                }
            }
            if o.contains(x) {
                let q = choose|q: int| 0 <= q < o.len() && o[q] == x;
                assert(r[q] == x);
            }
            if x == i {
                assert(r[o.len() as int] == i);
            }
        }
        assert(is_stable_order(r, ts, i + 1)) by {
            assert forall|k: int| 0 <= k < r.len() implies 0 <= #[trigger] r[k] < i + 1 by {
                if k < o.len() {
                    assert(r[k] == o[k]);
                }
            }
            assert forall|a: int, b: int| 0 <= a < b < r.len() implies r[a] != r[b] by {
                if b < o.len() {
                    assert(r[a] == o[a] && r[b] == o[b]);
                } else {
                    assert(r[a] == o[a]);
                }
            }
            assert forall|a: int, b: int| 0 <= a < b < r.len() implies !span_lt(#[trigger] ts[r[b]].surface, #[trigger] ts[r[a]].surface) by {
                if b < o.len() {
                    assert(r[a] == o[a] && r[b] == o[b]);
                } else {
                    assert(r[a] == o[a]);
                    assert(o[o.len() - 1] == last);
                    if a < o.len() - 1 {
                        assert(!span_lt(ts[o[o.len() - 1]].surface, ts[o[a]].surface));
                    }
                }
            }
            assert forall|a: int, b: int| 0 <= a < b < r.len() && ts[r[a]].surface == ts[r[b]].surface implies #[trigger] r[a] < #[trigger] r[b] by {
                if b < o.len() {
                    assert(r[a] == o[a] && r[b] == o[b]);
                } else {
                    assert(r[a] == o[a]);
                }
            }
        }
    }
}

/// Tokens are read in source order: the surface order of `ts` lists every token index exactly
/// once, ordered by surface `(start, end)`, tokens with equal surfaces in their given order.
pub proof fn law_surface_order(ts: Seq<Token>, n: int)
    requires
        0 <= n <= ts.len(),
    ensures
        surface_order_upto(ts, n).len() == n,
        is_stable_order(surface_order_upto(ts, n), ts, n),
        forall|x: int| #[trigger] surface_order_upto(ts, n).contains(x) <==> 0 <= x < n,
    decreases n,
{
    if n > 0 {
        law_surface_order(ts, n - 1);
        lemma_insert_stable(surface_order_upto(ts, n - 1), n - 1, ts);
        assert forall|x: int| #[trigger] surface_order_upto(ts, n).contains(x) <==> 0 <= x < n by {
            assert(surface_order_upto(ts, n).contains(x) <==> (surface_order_upto(ts, n - 1).contains(x) || x == n - 1));
        }
    } else {
        assert forall|x: int| #[trigger] surface_order_upto(ts, n).contains(x) <==> 0 <= x < n by {
            assert(surface_order_upto(ts, n) == Seq::<int>::empty());
        }
    }
}

proof fn lemma_insert_at(o: Seq<int>, i: int, ts: Seq<Token>, p: int)
    requires
        0 <= p <= o.len(),
        forall|q: int| p <= q < o.len() ==> span_lt(ts[i].surface, #[trigger] ts[o[q]].surface),
        p == 0 || !span_lt(ts[i].surface, ts[o[p - 1]].surface),
    ensures
        insert_by_surface(o, i, ts) == o.take(p) + seq![i] + o.skip(p),
    decreases o.len(),
{
    if o.len() == p {
        assert(o.take(p) =~= o);
        assert(o.skip(p) =~= Seq::<int>::empty());
        if p > 0 {
            assert(o.last() == o[p - 1]);
        }
        assert(insert_by_surface(o, i, ts) =~= o.take(p) + seq![i] + o.skip(p));
    } else {
        let q = o.len() - 1;
        assert(span_lt(ts[i].surface, ts[o[q]].surface));
        let o2 = o.drop_last();
        assert forall|r: int| p <= r < o2.len() implies span_lt(ts[i].surface, #[trigger] ts[o2[r]].surface) by {
            assert(o2[r] == o[r]);
        }
        if p > 0 {
            assert(o2[p - 1] == o[p - 1]);
        }
        lemma_insert_at(o2, i, ts, p);
        assert(insert_by_surface(o, i, ts) =~= o.take(p) + seq![i] + o.skip(p));
    }
}

/// The source order of `ts`: token indices stably sorted by surface `(start, end)`.
pub fn surface_order(ts: &Vec<Token>) -> (o: Vec<usize>)
    ensures
        o@.len() == ts@.len(),
        forall|k: int| 0 <= k < o@.len() ==> #[trigger] o@[k] < ts@.len(),
        o@.map_values(|i: usize| i as int) == surface_order_upto(ts@, ts@.len() as int),
{
    let mut o: Vec<usize> = Vec::new();
    let mut i: usize = 0;
    while i < ts.len()
        invariant
            i <= ts.len(),
            o@.len() == i,
            forall|k: int| 0 <= k < o@.len() ==> #[trigger] o@[k] < i,
            o@.map_values(|x: usize| x as int) == surface_order_upto(ts@, i as int),
        decreases ts.len() - i,
    {
        let mut p: usize = o.len();
        while p > 0 && (ts[i].surface.start < ts[o[p - 1]].surface.start || (ts[i].surface.start
            == ts[o[p - 1]].surface.start && ts[i].surface.end < ts[o[p - 1]].surface.end))
            invariant
                i < ts.len(),
                p <= o@.len(),
                o@.len() == i,
                forall|k: int| 0 <= k < o@.len() ==> #[trigger] o@[k] < i,
                forall|q: int| p <= q < o@.len() ==> span_lt(ts@[i as int].surface, #[trigger] ts@[o@[q] as int].surface),
            decreases p,
        {
            p = p - 1;
        }
        let ghost om = o@.map_values(|x: usize| x as int);
        proof {
            assert forall|q: int| p <= q < om.len() implies span_lt(ts@[i as int].surface, #[trigger] ts@[om[q]].surface) by {
                assert(om[q] == o@[q] as int);
            }
            if p > 0 {
                assert(om[p - 1] == o@[p - 1] as int);
            }
            lemma_insert_at(om, i as int, ts@, p as int);
        }
        let ghost o0 = o@;
        o.insert(p, i);
        proof {
            assert(o@ =~= o0.take(p as int) + seq![i] + o0.skip(p as int));
            assert(o@.map_values(|x: usize| x as int) =~= om.take(p as int) + seq![i as int] + om.skip(p as int));
            assert forall|k: int| 0 <= k < o@.len() implies #[trigger] o@[k] < i + 1 by {
                if k < p {
                    assert(o@[k] == o0[k]);
                } else if k > p {
                    assert(o@[k] == o0[k - 1]);
                }
            }
        }
        i = i + 1;
    }
    o
}

// ---------------------------------------------------------------------------
// Surface text
// ---------------------------------------------------------------------------

/// The text of a node (starting at absolute byte `base`) that the absolute span `sp` covers, when
/// `sp` is an ordered range of character boundaries inside it.
pub open spec fn text_of(base: u32, t: Seq<char>, sp: Span) -> Option<Seq<char>> {
    let s = sp.start - base;
    let e = sp.end - base;
    if base <= sp.start && sp.start <= sp.end && is_boundary(t, s) && is_boundary(t, e) {
        Some(t.subrange(index_of_byte(t, s), index_of_byte(t, e)))
    } else {
        None
    }
}

/// `text_of`, with the empty text for a span that covers none.
pub open spec fn text_or_empty(base: u32, t: Seq<char>, sp: Span) -> Seq<char> {
    match text_of(base, t, sp) {
        Some(s) => s,
        None => seq![],
    }
}

/// The character index at byte offset `b`, when `b` is a boundary.
pub fn boundary_index(offs: &Vec<usize>, t: Ghost<Seq<char>>, b: u32) -> (r: Option<usize>)
    requires
        offsets_ok(t@, offs@),
    ensures
        match r {
            Some(k) => is_boundary(t@, b as int) && k == index_of_byte(t@, b as int) && k <= t@.len(),
            None => !is_boundary(t@, b as int),
        },
{
    let mut k: usize = 0;
    while k < offs.len()
        invariant
            offsets_ok(t@, offs@),
            k <= offs.len(),
            forall|j: int| 0 <= j < k ==> byte_at(t@, j) != b,
        decreases offs.len() - k,
    {
        if offs[k] as u64 == b as u64 {
            proof {
                lemma_index_of_byte(t@, k as int);
            }
            return Some(k);
        }
        k = k + 1;
    }
    None
}

/// The characters of `t` under the absolute span `sp` (see [`text_of`]).
pub fn surface_text(base: u32, t: &Vec<char>, offs: &Vec<usize>, sp: Span) -> (r: Option<Vec<char>>)
    requires
        offsets_ok(t@, offs@),
    ensures
        match r {
            Some(v) => text_of(base, t@, sp) == Some(v@),
            None => text_of(base, t@, sp).is_none(),
        },
{
    if sp.start < base || sp.end < sp.start {
        return None;
    }
    let ks = match boundary_index(offs, Ghost(t@), sp.start - base) {
        Some(k) => k,
        None => return None,
    };
    let ke = match boundary_index(offs, Ghost(t@), sp.end - base) {
        Some(k) => k,
        None => return None,
    };
    proof {
        if ke < ks {
            crate::text::lemma_byte_at_strict(t@, ke as int, ks as int);
        }
    }
    let mut v: Vec<char> = Vec::new();
    let mut k = ks;
    while k < ke
        invariant
            ks <= k <= ke <= t@.len(),
            v@ == t@.subrange(ks as int, k as int),
        decreases ke - k,
    {
        v.push(t[k]);
        assert(t@.subrange(ks as int, k + 1) =~= t@.subrange(ks as int, k as int).push(t@[k as int]));
        k = k + 1;
    }
    Some(v)
}

/// [`surface_text`], empty for a span that covers none.
pub fn surface_text_or_empty(base: u32, t: &Vec<char>, offs: &Vec<usize>, sp: Span) -> (r: Vec<char>)
    requires
        offsets_ok(t@, offs@),
    ensures
        r@ == text_or_empty(base, t@, sp),
{
    match surface_text(base, t, offs, sp) {
        Some(v) => v,
        None => Vec::new(),
    }
}

} // verus!
