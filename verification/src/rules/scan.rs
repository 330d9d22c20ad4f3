//! Drivers shared by the rules that judge text one character at a time.
use vstd::prelude::*;
use crate::ast::{abs_span, make_span, plain, Context, NodeRef, Report};
use crate::text::{
    byte_at, fits_usize, lemma_byte_at_bounded, lemma_byte_at_step, lemma_byte_at_zero, len_utf8,
    str_chars,
};

verus! {

/// A rule that reports single characters: `hit` says whether a character is reported, and with
/// which message.
pub trait CharRule {
    spec fn spec_hit(&self, c: char) -> Option<Seq<char>>;

    fn hit(&self, c: char) -> (r: Option<String>)
        ensures
            match self.spec_hit(c) {
                Some(m) => r.is_some() && r.unwrap()@ == m,
                None => r.is_none(),
            },
    ;
}

/// The reports of a character rule over `t[i..]`: one per hit character, covering its bytes.
pub open spec fn char_reports_from(base: u32, t: Seq<char>, i: int, hit: spec_fn(char) -> Option<Seq<char>>) -> Seq<Report>
    decreases t.len() - i,
{
    if i < 0 || i >= t.len() {
        seq![]
    } else {
        let here = match hit(t[i]) {
            Some(m) => seq![plain(abs_span(base, byte_at(t, i) as int, byte_at(t, i + 1) as int), m)],
            None => seq![],
        };
        here + char_reports_from(base, t, i + 1, hit)
    }
}

/// Run a character rule over `node`, reporting each hit.
pub fn check_chars<R: CharRule>(rule: &R, node: &NodeRef, cx: &mut Context)
    requires
        old(cx).wf(),
        fits_usize(node.text@),
    ensures
        final(cx).wf(),
        final(cx).id() == old(cx).id(),
        final(cx).severity() == old(cx).severity(),
        final(cx).reports() == old(cx).reports() + char_reports_from(
            node.span.start,
            node.text@,
            0,
            |c: char| rule.spec_hit(c),
        ),
{
    let base = node.span.start;
    let cs = str_chars(node.text.as_str());
    let ghost t = cs@;
    let ghost hit = |c: char| rule.spec_hit(c);
    let ghost r0 = cx.reports();
    let mut off: usize = 0;
    let mut i: usize = 0;
    proof {
        lemma_byte_at_zero(t);
    }
    while i < cs.len()
        invariant
            t == cs@,
            fits_usize(t),
            i <= cs.len(),
            off == byte_at(t, i as int),
            hit == (|c: char| rule.spec_hit(c)),
            cx.wf(),
            cx.id() == old(cx).id(),
            cx.severity() == old(cx).severity(),
            r0 == old(cx).reports(),
            r0 + char_reports_from(base, t, 0, hit) == cx.reports() + char_reports_from(base, t, i as int, hit),
        decreases cs.len() - i,
    {
        let c = cs[i];
        proof {
            lemma_byte_at_step(t, i as int);
            lemma_byte_at_bounded(t, i + 1);
        }
        let next = off + len_utf8(c);
        match rule.hit(c) {
            Some(m) => {
                cx.report(make_span(base, off, next), m);
            },
            None => {},
        }
        assert(cx.reports() + char_reports_from(base, t, i + 1, hit) =~= r0 + char_reports_from(base, t, 0, hit));
        off = next;
        i = i + 1;
    }
}

} // verus!

verus! {

/// A character class whose maximal runs a rule inspects.
pub trait RunClass {
    spec fn spec_in(&self, c: char) -> bool;

    fn is_in(&self, c: char) -> (b: bool)
        ensures
            b == self.spec_in(c),
    ;
}

pub open spec fn not_in(p: spec_fn(char) -> bool) -> spec_fn(char) -> bool {
    |c: char| !p(c)
}

/// The maximal runs of characters satisfying `p` in `t[i..]`, as `(start, end)` index ranges.
pub open spec fn runs_from(t: Seq<char>, i: int, p: spec_fn(char) -> bool) -> Seq<(int, int)>
    decreases t.len() - i,
{
    if i < 0 || i >= t.len() {
        seq![]
    } else if p(t[i]) {
        let e = crate::text::next_index(t, i, not_in(p));
        proof {
            crate::text::lemma_next_index_bounds(t, i, not_in(p));
        }
        seq![(i, e)] + runs_from(t, e, p)
    } else {
        runs_from(t, i + 1, p)
    }
}

/// `rs` are the maximal runs of `p` in `t[i..]`: each a non-empty range of `p` characters that
/// cannot be extended (at its start, only back to `i`), in order with a gap between any two,
/// and every `p` character of `t[i..]` lies in one.
pub open spec fn maximal_runs(t: Seq<char>, i: int, p: spec_fn(char) -> bool, rs: Seq<(int, int)>) -> bool {
    &&& forall|k: int| 0 <= k < rs.len() ==> i <= (#[trigger] rs[k]).0 < rs[k].1 <= t.len()
    &&& forall|k: int, j: int| 0 <= k < rs.len() && (#[trigger] rs[k]).0 <= j < rs[k].1 ==> p(#[trigger] t[j])
    &&& forall|k: int| 0 <= k < rs.len() ==> ((#[trigger] rs[k]).1 == t.len() || !p(t[rs[k].1]))
    &&& forall|k: int| 0 <= k < rs.len() ==> ((#[trigger] rs[k]).0 == i || !p(t[rs[k].0 - 1]))
    &&& forall|k: int| 0 <= k < rs.len() - 1 ==> (#[trigger] rs[k]).1 < rs[k + 1].0
    &&& forall|j: int| i <= j < t.len() && p(#[trigger] t[j]) ==> exists|k: int| 0 <= k < rs.len() && (#[trigger] rs[k]).0 <= j < rs[k].1
}

/// [`runs_from`] gives exactly the maximal runs: from the start of the text, each run is a
/// longest stretch of `p` characters, they come in order, and together they hold every `p`
/// character.
pub proof fn law_runs_are_maximal(t: Seq<char>, i: int, p: spec_fn(char) -> bool)
    requires
        0 <= i <= t.len(),
    ensures
        maximal_runs(t, i, p, runs_from(t, i, p)),
    decreases t.len() - i,
{
    let rs = runs_from(t, i, p);
    if i < t.len() {
        if p(t[i]) {
            let e = crate::text::next_index(t, i, not_in(p));
            crate::text::lemma_next_index_bounds(t, i, not_in(p));
            law_runs_are_maximal(t, e, p);
            let rest = runs_from(t, e, p);
            assert(rs == seq![(i, e)] + rest);
            assert forall|k: int| 0 <= k < rest.len() implies (#[trigger] rest[k]).0 != e by {
                assert(p(t[rest[k].0]));
            }
            assert forall|k: int| 0 <= k < rs.len() implies i <= (#[trigger] rs[k]).0 < rs[k].1 <= t.len() by {
                if k > 0 {
                    assert(rs[k] == rest[k - 1]);
                }
            }
            assert forall|k: int, j: int| 0 <= k < rs.len() && (#[trigger] rs[k]).0 <= j < rs[k].1 implies p(#[trigger] t[j]) by {
                if k > 0 {
                    assert(rs[k] == rest[k - 1]);
                } else {
                    assert(!not_in(p)(t[j]));
                }
            }
            assert forall|k: int| 0 <= k < rs.len() implies ((#[trigger] rs[k]).1 == t.len() || !p(t[rs[k].1])) by {
                if k > 0 {
                    assert(rs[k] == rest[k - 1]);
                } else if e < t.len() {
                    assert(not_in(p)(t[e]));
                }
            }
            assert forall|k: int| 0 <= k < rs.len() implies ((#[trigger] rs[k]).0 == i || !p(t[rs[k].0 - 1])) by {
                if k > 0 {
                    assert(rs[k] == rest[k - 1]);
                }
            }
            assert forall|k: int| 0 <= k < rs.len() - 1 implies (#[trigger] rs[k]).1 < rs[k + 1].0 by {
                assert(rs[k + 1] == rest[k]);
                if k > 0 {
                    assert(rs[k] == rest[k - 1]);
                }
            }
            assert forall|j: int| i <= j < t.len() && p(#[trigger] t[j]) implies exists|k: int|
                0 <= k < rs.len() && (#[trigger] rs[k]).0 <= j < rs[k].1 by {
                if j < e {
                    assert(rs[0] == (i, e));
                } else {
                    let k = choose|k: int| 0 <= k < rest.len() && (#[trigger] rest[k]).0 <= j < rest[k].1;
                    assert(rs[k + 1] == rest[k]);
                }
            }
        } else {
            law_runs_are_maximal(t, i + 1, p);
            assert forall|j: int| i <= j < t.len() && p(#[trigger] t[j]) implies exists|k: int|
                0 <= k < rs.len() && (#[trigger] rs[k]).0 <= j < rs[k].1 by {
                assert(j != i);
            }
        }
    }
}

/// The maximal runs of `class` in `cs`, left to right.
pub fn find_runs<R: RunClass>(class: &R, cs: &[char]) -> (runs: Vec<(usize, usize)>)
    ensures
        runs@.len() == runs_from(cs@, 0, |c: char| class.spec_in(c)).len(),
        forall|k: int| 0 <= k < runs@.len() ==> (#[trigger] runs@[k]).0 as int == runs_from(cs@, 0, |c: char| class.spec_in(c))[k].0
            && runs@[k].1 as int == runs_from(cs@, 0, |c: char| class.spec_in(c))[k].1,
        forall|k: int| 0 <= k < runs@.len() ==> (#[trigger] runs@[k]).0 < runs@[k].1 <= cs@.len(),
{
    let ghost t = cs@;
    let ghost p = |c: char| class.spec_in(c);
    let ghost all = runs_from(t, 0, p);
    let mut runs: Vec<(usize, usize)> = Vec::new();
    let mut i: usize = 0;
    while i < cs.len()
        invariant
            t == cs@,
            p == (|c: char| class.spec_in(c)),
            all == runs_from(t, 0, p),
            i <= cs.len(),
            all == runs@.map_values(|r: (usize, usize)| (r.0 as int, r.1 as int)) + runs_from(t, i as int, p),
            forall|k: int| 0 <= k < runs@.len() ==> (#[trigger] runs@[k]).0 < runs@[k].1 <= cs@.len(),
        decreases cs.len() - i,
    {
        if class.is_in(cs[i]) {
            let mut e = i + 1;
            proof {
                crate::text::lemma_next_index_bounds(t, i as int, not_in(p));
            }
            while e < cs.len() && class.is_in(cs[e])
                invariant
                    t == cs@,
                    p == (|c: char| class.spec_in(c)),
                    i < e <= cs.len(),
                    crate::text::next_index(t, e as int, not_in(p)) == crate::text::next_index(t, i as int, not_in(p)),
                decreases cs.len() - e,
            {
                e = e + 1;
            }
            let ghost before = runs@;
            runs.push((i, e));
            assert(runs@.map_values(|r: (usize, usize)| (r.0 as int, r.1 as int)) =~= before.map_values(|r: (usize, usize)| (r.0 as int, r.1 as int)).push((i as int, e as int)));
            i = e;
        } else {
            i = i + 1;
        }
    }
    proof {
        assert forall|k: int| 0 <= k < runs@.len() implies (#[trigger] runs@[k]).0 as int == all[k].0 && runs@[k].1 as int == all[k].1 by {
            assert(runs@.map_values(|r: (usize, usize)| (r.0 as int, r.1 as int))[k] == (runs@[k].0 as int, runs@[k].1 as int));
        }
    }
    runs
}

} // verus!
