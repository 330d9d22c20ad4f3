//! Choosing the files to lint: inclusion and exclusion glob patterns, matched by `globset`, and the
//! sorted, repeat-free selection of candidate paths. Paths are their bytes; walking the disk is
//! left to the caller.
use vstd::prelude::*;
use crate::pdk::types::{opt_string_chars, strings_chars};
use crate::text::push_str;

verus! {

/// What `globset::Glob::new(p)` gives: `None` when it succeeds, else the text of its error.
pub uninterp spec fn glob_error_of(p: Seq<char>) -> Option<Seq<char>>;

/// What building a glob set of the patterns `ps` gives (`GlobSet::new`, which
/// `GlobSetBuilder::build` calls): `None` when it succeeds, else the text of its error.
pub uninterp spec fn globset_error_of(ps: Seq<Seq<char>>) -> Option<Seq<char>>;

/// Whether the glob set of the patterns `ps` matches the path with bytes `path`
/// (`GlobSet::is_match_candidate` on `Candidate::from_bytes(path)`).
pub uninterp spec fn globs_match(ps: Seq<Seq<char>>, path: Seq<u8>) -> bool;

/// Whether `p` is a valid glob.
pub open spec fn glob_valid(p: Seq<char>) -> bool {
    glob_error_of(p) is None
}

/// The first pattern of `ps` from `i` on that is not a valid glob.
pub open spec fn first_invalid_from(ps: Seq<Seq<char>>, i: int) -> Option<int>
    decreases ps.len() - i,
{
    if i < 0 || i >= ps.len() {
        None
    } else if !glob_valid(ps[i]) {
        Some(i)
    } else {
        first_invalid_from(ps, i + 1)
    }
}

/// The first pattern of `ps` that is not a valid glob.
pub open spec fn first_invalid(ps: Seq<Seq<char>>) -> Option<int> {
    first_invalid_from(ps, 0)
}

/// The first invalid pattern from `i` on lies in range at or after `i`, and is invalid.
pub proof fn lemma_first_invalid_from(ps: Seq<Seq<char>>, i: int)
    requires
        0 <= i,
    ensures
        first_invalid_from(ps, i) matches Some(k) ==> i <= k < ps.len() && !glob_valid(ps[k]),
    decreases ps.len() - i,
{
    if i < ps.len() && glob_valid(ps[i]) {
        lemma_first_invalid_from(ps, i + 1);
    }
}

/// `Glob::new(p)`: whether `p` is a valid glob, and if not, its error's text.
#[verifier::external_body]
fn glob_error(p: &str) -> (r: Option<String>)
    ensures
        opt_string_chars(r) == glob_error_of(p@),
{
    match globset::Glob::new(p) {
        Ok(_) => None,
        Err(e) => Some(e.to_string()),
    }
}

/// `GlobSet::new` over the globs of `ps`: whether the set builds, and if not, its error's text.
#[verifier::external_body]
fn globset_error(ps: &Vec<String>) -> (r: Option<String>)
    requires
        forall|i: int| 0 <= i < ps@.len() ==> glob_valid(#[trigger] ps@[i]@),
    ensures
        opt_string_chars(r) == globset_error_of(strings_chars(ps@)),
{
    let globs: Result<Vec<globset::Glob>, globset::Error> = ps.iter().map(|p| globset::Glob::new(p)).collect();
    match globs {
        Ok(gs) => match globset::GlobSet::new(gs) {
            Ok(_) => None,
            Err(e) => Some(e.to_string()),
        },
        Err(e) => Some(e.to_string()),
    }
}

/// `GlobSet::is_match_candidate` of the set of `ps` on `Candidate::from_bytes(path)`.
#[verifier::external_body]
fn globset_is_match(ps: &Vec<String>, path: &[u8]) -> (b: bool)
    requires
        forall|i: int| 0 <= i < ps@.len() ==> glob_valid(#[trigger] ps@[i]@),
        globset_error_of(strings_chars(ps@)) is None,
    ensures
        b == globs_match(strings_chars(ps@), path@),
{
    let globs: Result<Vec<globset::Glob>, globset::Error> = ps.iter().map(|p| globset::Glob::new(p)).collect();
    match globs {
        Ok(gs) => match globset::GlobSet::new(gs) {
            Ok(set) => set.is_match_candidate(&globset::Candidate::from_bytes(path)),
            Err(_) => false,
        },
        Err(_) => false,
    }
}

/// A non-empty list of valid glob patterns whose set builds.
pub struct GlobList {
    patterns: Vec<String>,
}

impl View for GlobList {
    type V = Seq<Seq<char>>;

    closed spec fn view(&self) -> Seq<Seq<char>> {
        strings_chars(self.patterns@)
    }
}

/// Why a list of patterns is refused: the first invalid pattern (its index and error text), or
/// the error of building their set.
pub enum GlobError {
    InvalidPattern { index: usize, message: String },
    Build(String),
}

impl GlobList {
    #[verifier::type_invariant]
    spec fn inv(self) -> bool {
        &&& self.patterns@.len() > 0
        &&& forall|i: int| 0 <= i < self.patterns@.len() ==> glob_valid(#[trigger] self.patterns@[i]@)
        &&& globset_error_of(strings_chars(self.patterns@)) is None
    }

    /// The patterns as a glob list: refused at the first invalid pattern, or when their set does
    /// not build.
    pub fn from_patterns(patterns: &Vec<String>) -> (r: Result<GlobList, GlobError>)
        requires
            patterns@.len() > 0,
        ensures
            r is Ok <==> (first_invalid(strings_chars(patterns@)) is None && globset_error_of(
                strings_chars(patterns@),
            ) is None),
            r matches Ok(g) ==> g@ == strings_chars(patterns@),
            r matches Err(GlobError::InvalidPattern { index, message }) ==> first_invalid(
                strings_chars(patterns@),
            ) == Some(index as int) && glob_error_of(patterns@[index as int]@) == Some(message@),
            r matches Err(GlobError::Build(m)) ==> first_invalid(strings_chars(patterns@)) is None
                && globset_error_of(strings_chars(patterns@)) == Some(m@),
    {
        let ghost ps = strings_chars(patterns@);
        let mut i: usize = 0;
        while i < patterns.len()
            invariant
                i <= patterns@.len(),
                ps == strings_chars(patterns@),
                first_invalid(ps) == first_invalid_from(ps, i as int),
                forall|k: int| 0 <= k < i ==> glob_valid(#[trigger] patterns@[k]@),
            decreases patterns.len() - i,
        {
            assert(ps[i as int] == patterns@[i as int]@);
            match glob_error(patterns[i].as_str()) {
                Some(message) => {
                    return Err(GlobError::InvalidPattern { index: i, message });
                },
                None => {},
            }
            i = i + 1;
        }
        assert(first_invalid_from(ps, i as int) is None);
        let mut copy: Vec<String> = Vec::new();
        let mut j: usize = 0;
        while j < patterns.len()
            invariant
                j <= patterns@.len(),
                copy@.len() == j,
                forall|k: int| 0 <= k < j ==> (#[trigger] copy@[k])@ == patterns@[k]@,
            decreases patterns.len() - j,
        {
            let mut s = String::new();
            push_str(&mut s, patterns[j].as_str());
            copy.push(s);
            j = j + 1;
        }
        assert(strings_chars(copy@) =~= ps);
        match globset_error(&copy) {
            Some(m) => Err(GlobError::Build(m)),
            None => Ok(GlobList { patterns: copy }),
        }
    }

    /// Whether the set of these patterns matches the path with bytes `path`.
    pub fn is_match(&self, path: &[u8]) -> (b: bool)
        ensures
            b == globs_match(self@, path@),
    {
        proof {
            use_type_invariant(self);
        }
        globset_is_match(&self.patterns, path)
    }
}

/// The message for an invalid include or exclude pattern.
pub open spec fn invalid_glob_message(p: Seq<char>, e: Seq<char>) -> Seq<char> {
    "Invalid glob pattern: "@ + e
}

/// The message for an invalid pattern among the paths asked for.
pub open spec fn invalid_pattern_message(p: Seq<char>, e: Seq<char>) -> Seq<char> {
    "Invalid pattern '"@ + p + "': "@ + e
}

/// What a list of patterns gives: no set when it is empty, else the set of all of them; refused
/// at the first invalid pattern (`walk` picks the message of the paths asked for over that of
/// the inclusion and exclusion patterns), or when their set does not build.
pub open spec fn list_result(ps: Seq<Seq<char>>, walk: bool) -> Result<Option<Seq<Seq<char>>>, Seq<char>> {
    if ps.len() == 0 {
        Ok(None)
    } else {
        match first_invalid(ps) {
            Some(i) => Err(
                if walk {
                    invalid_pattern_message(ps[i], glob_error_of(ps[i])->0)
                } else {
                    invalid_glob_message(ps[i], glob_error_of(ps[i])->0)
                },
            ),
            None => match globset_error_of(ps) {
                Some(e) => Err("Failed to build globset: "@ + e),
                None => Ok(Some(ps)),
            },
        }
    }
}

/// The patterns of an optional glob list.
pub open spec fn opt_list_view(o: Option<GlobList>) -> Option<Seq<Seq<char>>> {
    match o {
        Some(g) => Some(g@),
        None => None,
    }
}

/// The glob list of `patterns`, none when there are none; refused with the message of
/// [`list_result`].
pub fn glob_list(patterns: &Vec<String>, walk: bool) -> (r: Result<Option<GlobList>, String>)
    ensures
        match (r, list_result(strings_chars(patterns@), walk)) {
            (Ok(g), Ok(v)) => opt_list_view(g) == v,
            (Err(e), Err(m)) => e@ == m,
            _ => false,
        },
{
    if patterns.len() == 0 {
        return Ok(None);
    }
    match GlobList::from_patterns(patterns) {
        Ok(g) => Ok(Some(g)),
        Err(GlobError::InvalidPattern { index, message }) => {
            proof {
                lemma_first_invalid_from(strings_chars(patterns@), 0);
            }
            let mut m = String::new();
            if walk {
                push_str(&mut m, "Invalid pattern '");
                push_str(&mut m, patterns[index].as_str());
                push_str(&mut m, "': ");
            } else {
                push_str(&mut m, "Invalid glob pattern: ");
            }
            push_str(&mut m, message.as_str());
            Err(m)
        },
        Err(GlobError::Build(e)) => {
            let mut m = String::new();
            push_str(&mut m, "Failed to build globset: ");
            push_str(&mut m, e.as_str());
            Err(m)
        },
    }
}

/// Include and exclude patterns over file paths.
pub struct FileFinder {
    pub inclusions: Option<GlobList>,
    pub exclusions: Option<GlobList>,
}

impl FileFinder {
    /// Whether a path (by its bytes) is excluded, or not included when inclusion patterns are
    /// given.
    pub open spec fn ignores(&self, path: Seq<u8>) -> bool {
        ||| (self.exclusions matches Some(e) && globs_match(e@, path))
        ||| (self.inclusions matches Some(i) && !globs_match(i@, path))
    }

    /// A finder for the inclusion and exclusion patterns; an empty list leaves that side open. The
    /// inclusion patterns are checked first.
    pub fn new(inclusion_patterns: &Vec<String>, exclusion_patterns: &Vec<String>) -> (r: Result<FileFinder, String>)
        ensures
            match (list_result(strings_chars(inclusion_patterns@), false), list_result(strings_chars(exclusion_patterns@), false)) {
                (Err(m), _) => r matches Err(e) && e@ == m,
                (Ok(_), Err(m)) => r matches Err(e) && e@ == m,
                (Ok(i), Ok(x)) => r matches Ok(f) && opt_list_view(f.inclusions) == i && opt_list_view(f.exclusions) == x,
            },
    {
        let inclusions = match glob_list(inclusion_patterns, false) {
            Ok(g) => g,
            Err(e) => {
                return Err(e);
            },
        };
        let exclusions = match glob_list(exclusion_patterns, false) {
            Ok(g) => g,
            Err(e) => {
                return Err(e);
            },
        };
        Ok(FileFinder { inclusions, exclusions })
    }

    /// Whether a path (by its bytes) is excluded, or not included when inclusion patterns are
    /// given.
    pub fn should_ignore(&self, path: &[u8]) -> (b: bool)
        ensures
            b == self.ignores(path@),
    {
        let excluded = match &self.exclusions {
            Some(e) => e.is_match(path),
            None => false,
        };
        if excluded {
            return true;
        }
        match &self.inclusions {
            Some(i) => !i.is_match(path),
            None => false,
        }
    }
}

/// The key of one piece of a path between separators: nothing for an empty piece, or for `.`
/// past the start (`Path::components` skips both); `.` at the start of a relative path is the
/// current directory, `..` the parent, anything else a normal component. Kinds come in the
/// order `Component` derives (root, current, parent, normal), then the bytes, each one up, then
/// a 0 that ends the component.
pub open spec fn piece_key(piece: Seq<u8>, first: bool) -> Seq<u16> {
    if piece.len() == 0 {
        seq![]
    } else if piece == seq![46u8] {
        if first {
            seq![2u16, 0u16]
        } else {
            seq![]
        }
    } else if piece == seq![46u8, 46u8] {
        seq![3u16, 0u16]
    } else {
        seq![4u16] + piece.map_values(|b: u8| (b + 1) as u16) + seq![0u16]
    }
}

/// The key of `p` from byte `i` on, with `piece` the bytes of the current piece so far.
pub open spec fn key_from(p: Seq<u8>, i: int, piece: Seq<u8>, first: bool) -> Seq<u16>
    decreases p.len() - i,
{
    if i < 0 || i >= p.len() {
        piece_key(piece, first)
    } else if p[i] == 47u8 {
        piece_key(piece, first) + key_from(p, i + 1, seq![], false)
    } else {
        key_from(p, i + 1, piece.push(p[i]), first)
    }
}

/// The sort key of a path: its components in order. Two paths compare as `Path` does exactly
/// when their keys compare by [`key_lt`], and are equal as paths exactly when their keys are.
pub open spec fn path_key(p: Seq<u8>) -> Seq<u16> {
    if p.len() > 0 && p[0] == 47u8 {
        seq![1u16, 0u16] + key_from(p, 1, seq![], false)
    } else {
        key_from(p, 0, seq![], true)
    }
}

/// Lexicographic order on keys: a proper prefix comes first.
pub open spec fn key_lt(a: Seq<u16>, b: Seq<u16>) -> bool
    decreases a.len(),
{
    if b.len() == 0 {
        false
    } else if a.len() == 0 {
        true
    } else if a[0] < b[0] {
        true
    } else if a[0] > b[0] {
        false
    } else {
        key_lt(a.drop_first(), b.drop_first())
    }
}

pub proof fn lemma_key_lt_trans(a: Seq<u16>, b: Seq<u16>, c: Seq<u16>)
    requires
        key_lt(a, b),
        key_lt(b, c),
    ensures
        key_lt(a, c),
    decreases a.len(),
{
    if a.len() > 0 && b.len() > 0 && c.len() > 0 && a[0] == b[0] && b[0] == c[0] {
        lemma_key_lt_trans(a.drop_first(), b.drop_first(), c.drop_first());
    }
}

pub proof fn lemma_key_lt_irrefl(a: Seq<u16>)
    ensures
        !key_lt(a, a),
    decreases a.len(),
{
    if a.len() > 0 {
        lemma_key_lt_irrefl(a.drop_first());
    }
}

/// The order of keys is strict: `a < b` rules out `a == b` and `b < a`.
pub proof fn lemma_key_lt_strict(a: Seq<u16>, b: Seq<u16>)
    requires
        key_lt(a, b),
    ensures
        a != b,
        !key_lt(b, a),
    decreases a.len(),
{
    lemma_key_lt_irrefl(a);
    if a.len() > 0 && b.len() > 0 && a[0] == b[0] {
        lemma_key_lt_strict(a.drop_first(), b.drop_first());
    }
}

/// The order of keys is total.
pub proof fn lemma_key_lt_total(a: Seq<u16>, b: Seq<u16>)
    ensures
        a == b || key_lt(a, b) || key_lt(b, a),
    decreases a.len(),
{
    if a.len() > 0 && b.len() > 0 && a[0] == b[0] {
        lemma_key_lt_total(a.drop_first(), b.drop_first());
        if a.drop_first() == b.drop_first() {
            assert(a =~= seq![a[0]] + a.drop_first());
            assert(b =~= seq![b[0]] + b.drop_first());
        }
    } else if a.len() == 0 && b.len() == 0 {
        assert(a =~= b);
    }
}

/// How two keys compare.
pub enum KeyOrder {
    Less,
    Same,
    Greater,
}

/// Compare two keys by [`key_lt`].
pub fn compare_keys(a: &Vec<u16>, b: &Vec<u16>) -> (r: KeyOrder)
    ensures
        (r is Less) == key_lt(a@, b@),
        (r is Same) == (a@ == b@),
        (r is Greater) == key_lt(b@, a@),
{
    let mut i: usize = 0;
    assert(a@.skip(0) =~= a@);
    assert(b@.skip(0) =~= b@);
    assert(a@.take(0) =~= b@.take(0));
    while i < a.len() && i < b.len()
        invariant
            i <= a@.len(),
            i <= b@.len(),
            a@.take(i as int) == b@.take(i as int),
            key_lt(a@, b@) == key_lt(a@.skip(i as int), b@.skip(i as int)),
            key_lt(b@, a@) == key_lt(b@.skip(i as int), a@.skip(i as int)),
        decreases a.len() - i,
    {
        let x = a[i];
        let y = b[i];
        assert(a@.skip(i as int)[0] == x && b@.skip(i as int)[0] == y);
        if x < y {
            return KeyOrder::Less;
        }
        if x > y {
            return KeyOrder::Greater;
        }
        assert(a@.skip(i as int).drop_first() =~= a@.skip(i + 1));
        assert(b@.skip(i as int).drop_first() =~= b@.skip(i + 1));
        assert(a@.take(i + 1) =~= a@.take(i as int).push(x));
        assert(b@.take(i + 1) =~= b@.take(i as int).push(y));
        i = i + 1;
    }
    if a.len() == b.len() {
        assert(a@ =~= a@.take(i as int));
        assert(b@ =~= b@.take(i as int));
        proof {
            lemma_key_lt_irrefl(a@);
        }
        KeyOrder::Same
    } else if a.len() < b.len() {
        assert(b@.skip(i as int).len() > 0);
        KeyOrder::Less
    } else {
        assert(a@.skip(i as int).len() > 0);
        KeyOrder::Greater
    }
}

/// Append the key of the piece `p[start..end]`.
fn push_piece(out: &mut Vec<u16>, p: &Vec<u8>, start: usize, end: usize, first: bool)
    requires
        start <= end <= p@.len(),
    ensures
        final(out)@ == old(out)@ + piece_key(p@.subrange(start as int, end as int), first),
{
    let ghost piece = p@.subrange(start as int, end as int);
    if end == start {
        assert(old(out)@ + piece_key(piece, first) =~= old(out)@);
        return;
    }
    if end - start == 1 && p[start] == 46u8 {
        assert(piece =~= seq![46u8]);
        if first {
            out.push(2u16);
            out.push(0u16);
            assert(out@ =~= old(out)@ + piece_key(piece, first));
        } else {
            assert(old(out)@ + piece_key(piece, first) =~= old(out)@);
        }
        return;
    }
    if end - start == 2 && p[start] == 46u8 && p[start + 1] == 46u8 {
        assert(piece =~= seq![46u8, 46u8]);
        out.push(3u16);
        out.push(0u16);
        assert(out@ =~= old(out)@ + piece_key(piece, first));
        return;
    }
    assert(piece.len() == end - start);
    proof {
        if piece == seq![46u8] {
            assert(piece[0] == p@[start as int]);
        }
        if piece == seq![46u8, 46u8] {
            assert(piece[0] == p@[start as int] && piece[1] == p@[start + 1]);
        }
    }
    out.push(4u16);
    let mut i: usize = start;
    while i < end
        invariant
            start <= i <= end <= p@.len(),
            piece == p@.subrange(start as int, end as int),
            out@ == old(out)@ + seq![4u16] + p@.subrange(start as int, i as int).map_values(
                |b: u8| (b + 1) as u16,
            ),
        decreases end - i,
    {
        let b = p[i];
        out.push((b as u16) + 1);
        assert(p@.subrange(start as int, i + 1) =~= p@.subrange(start as int, i as int).push(b));
        assert(p@.subrange(start as int, i + 1).map_values(|b: u8| (b + 1) as u16) =~= p@.subrange(
            start as int,
            i as int,
        ).map_values(|b: u8| (b + 1) as u16).push((b + 1) as u16));
        i = i + 1;
    }
    out.push(0u16);
    assert(out@ =~= old(out)@ + piece_key(piece, first));
}

/// The key of a path, by [`path_key`].
pub fn path_key_of(p: &Vec<u8>) -> (k: Vec<u16>)
    ensures
        k@ == path_key(p@),
{
    let mut out: Vec<u16> = Vec::new();
    let mut i: usize;
    let mut first: bool;
    if p.len() > 0 && p[0] == 47u8 {
        out.push(1u16);
        out.push(0u16);
        i = 1;
        first = false;
    } else {
        i = 0;
        first = true;
    }
    let mut start: usize = i;
    assert(p@.subrange(start as int, i as int) =~= Seq::<u8>::empty());
    while i < p.len()
        invariant
            start <= i <= p@.len(),
            out@ + key_from(p@, i as int, p@.subrange(start as int, i as int), first) == path_key(p@),
        decreases p.len() - i,
    {
        if p[i] == 47u8 {
            let ghost before = out@;
            push_piece(&mut out, p, start, i, first);
            assert(p@.subrange(i + 1, i + 1) =~= Seq::<u8>::empty());
            assert(before + (piece_key(p@.subrange(start as int, i as int), first) + key_from(
                p@,
                i + 1,
                seq![],
                false,
            )) =~= out@ + key_from(p@, i + 1, seq![], false));
            first = false;
            i = i + 1;
            start = i;
        } else {
            assert(p@.subrange(start as int, i + 1) =~= p@.subrange(start as int, i as int).push(p@[i as int]));
            i = i + 1;
        }
    }
    push_piece(&mut out, p, start, i, first);
    out
}

/// A copy of a byte string.
fn copy_bytes(v: &Vec<u8>) -> (r: Vec<u8>)
    ensures
        r@ == v@,
{
    let mut r: Vec<u8> = Vec::new();
    let mut i: usize = 0;
    while i < v.len()
        invariant
            i <= v@.len(),
            r@ == v@.take(i as int),
        decreases v.len() - i,
    {
        r.push(v[i]);
        assert(v@.take(i + 1) =~= v@.take(i as int).push(v@[i as int]));
        i = i + 1;
    }
    assert(v@.take(i as int) =~= v@);
    r
}

/// Keys in strictly increasing order.
pub open spec fn keys_sorted(ks: Seq<Vec<u16>>) -> bool {
    forall|i: int, j: int| 0 <= i < j < ks.len() ==> key_lt(#[trigger] ks[i]@, #[trigger] ks[j]@)
}

/// Where key `k` belongs among the sorted keys `ks`: the first position whose key is not below
/// `k`, and whether the key there is `k`.
fn find_slot(ks: &Vec<Vec<u16>>, k: &Vec<u16>) -> (r: (usize, bool))
    requires
        keys_sorted(ks@),
    ensures
        r.0 <= ks@.len(),
        forall|i: int| 0 <= i < r.0 ==> key_lt((#[trigger] ks@[i])@, k@),
        r.1 ==> r.0 < ks@.len() && ks@[r.0 as int]@ == k@,
        !r.1 ==> (r.0 < ks@.len() ==> key_lt(k@, ks@[r.0 as int]@)),
{
    let mut j: usize = 0;
    while j < ks.len()
        invariant
            j <= ks@.len(),
            forall|i: int| 0 <= i < j ==> key_lt((#[trigger] ks@[i])@, k@),
        decreases ks.len() - j,
    {
        match compare_keys(&ks[j], k) {
            KeyOrder::Less => {
                j = j + 1;
            },
            KeyOrder::Same => {
                return (j, true);
            },
            KeyOrder::Greater => {
                return (j, false);
            },
        }
    }
    (j, false)
}

/// Inserting a key at the slot [`find_slot`] finds keeps the keys sorted.
proof fn lemma_insert_sorted(ks: Seq<Vec<u16>>, k: Vec<u16>, j: int)
    requires
        keys_sorted(ks),
        0 <= j <= ks.len(),
        forall|i: int| 0 <= i < j ==> key_lt((#[trigger] ks[i])@, k@),
        j < ks.len() ==> key_lt(k@, ks[j]@),
    ensures
        keys_sorted(ks.insert(j, k)),
{
    let n = ks.insert(j, k);
    assert forall|a: int, b: int| 0 <= a < b < n.len() implies key_lt(#[trigger] n[a]@, #[trigger] n[b]@) by {
        if b > j {
            if b - 1 > j {
                lemma_key_lt_trans(k@, ks[j]@, ks[b - 1]@);
            }
            assert(key_lt(k@, ks[b - 1]@));
        }
        if a < j && b > j {
            lemma_key_lt_trans(ks[a]@, k@, ks[b - 1]@);
        } else if a > j {
            assert(n[a] == ks[a - 1] && n[b] == ks[b - 1]);
        } else if b < j {
            assert(n[a] == ks[a] && n[b] == ks[b]);
        }
    }
}

/// Some key of `ks` is `key`.
pub open spec fn covered(ks: Seq<Vec<u16>>, key: Seq<u16>) -> bool {
    exists|m: int| 0 <= m < ks.len() && ks[m]@ == key
}

/// A key stays covered when another is inserted.
proof fn lemma_covered_insert(ks: Seq<Vec<u16>>, k: Vec<u16>, j: int, key: Seq<u16>)
    requires
        covered(ks, key),
        0 <= j <= ks.len(),
    ensures
        covered(ks.insert(j, k), key),
{
    let m = choose|m: int| 0 <= m < ks.len() && ks[m]@ == key;
    let n = ks.insert(j, k);
    if m < j {
        assert(n[m] == ks[m]);
    } else {
        assert(n[m + 1] == ks[m]);
    }
}

/// A key not found by [`find_slot`] is not covered.
proof fn lemma_not_covered(ks: Seq<Vec<u16>>, k: Seq<u16>, j: int, key: Seq<u16>)
    requires
        keys_sorted(ks),
        0 <= j <= ks.len(),
        forall|i: int| 0 <= i < j ==> key_lt((#[trigger] ks[i])@, k),
        j < ks.len() ==> key_lt(k, ks[j]@),
        covered(ks, key),
    ensures
        key != k,
{
    let m = choose|m: int| 0 <= m < ks.len() && ks[m]@ == key;
    if m < j {
        lemma_key_lt_strict(ks[m]@, k);
    } else {
        if m > j {
            lemma_key_lt_trans(k, ks[j]@, ks[m]@);
        }
        lemma_key_lt_strict(k, ks[m]@);
    }
}

/// The byte strings of the paths.
pub open spec fn byte_views(v: Seq<Vec<u8>>) -> Seq<Seq<u8>> {
    v.map_values(|b: Vec<u8>| b@)
}

impl FileFinder {
    /// Candidate `c` is kept and is the first kept candidate of its path.
    pub open spec fn first_kept(&self, cs: Seq<Seq<u8>>, c: int) -> bool {
        &&& 0 <= c < cs.len()
        &&& !self.ignores(cs[c])
        &&& forall|d: int| 0 <= d < c && !self.ignores(#[trigger] cs[d]) ==> path_key(cs[d]) != path_key(cs[c])
    }

    /// `p` is the path of the first kept candidate of its path among `cands`.
    pub open spec fn first_kept_path(&self, cands: Seq<Vec<u8>>, p: Seq<u8>) -> bool {
        exists|c: int| #[trigger] self.first_kept(byte_views(cands), c) && cands[c]@ == p
    }

    /// What selection keeps up to candidate `c`: `out` in strictly increasing key order with
    /// `keys` their keys, each the first kept candidate of its path (`src` says which), and
    /// every kept candidate before `c` covered.
    #[verifier::opaque]
    pub open spec fn selected(
        &self,
        cs: Seq<Seq<u8>>,
        c: int,
        out: Seq<Vec<u8>>,
        keys: Seq<Vec<u16>>,
        src: Seq<int>,
    ) -> bool {
        &&& out.len() == keys.len()
        &&& src.len() == out.len()
        &&& forall|m: int| 0 <= m < keys.len() ==> (#[trigger] keys[m])@ == path_key(out[m]@)
        &&& forall|m: int|
            0 <= m < out.len() ==> 0 <= #[trigger] src[m] < c && self.first_kept(cs, src[m]) && out[m]@ == cs[src[m]]
        &&& keys_sorted(keys)
        &&& forall|d: int| 0 <= d < c && !self.ignores(#[trigger] cs[d]) ==> covered(keys, path_key(cs[d]))
    }

    /// Selection goes on past a candidate that is ignored or whose path is already covered.
    proof fn lemma_selected_skip(
        &self,
        cs: Seq<Seq<u8>>,
        c: int,
        out: Seq<Vec<u8>>,
        keys: Seq<Vec<u16>>,
        src: Seq<int>,
    )
        requires
            self.selected(cs, c, out, keys, src),
            0 <= c < cs.len(),
            !self.ignores(cs[c]) ==> covered(keys, path_key(cs[c])),
        ensures
            self.selected(cs, c + 1, out, keys, src),
    {
        reveal(FileFinder::selected);
    }

    /// Selection goes on by inserting candidate `c`, not yet covered, at its slot.
    proof fn lemma_selected_insert(
        &self,
        cs: Seq<Seq<u8>>,
        c: int,
        out: Seq<Vec<u8>>,
        keys: Seq<Vec<u16>>,
        src: Seq<int>,
        k: Vec<u16>,
        v: Vec<u8>,
        j: int,
    )
        requires
            self.selected(cs, c, out, keys, src),
            0 <= c < cs.len(),
            !self.ignores(cs[c]),
            k@ == path_key(cs[c]),
            v@ == cs[c],
            0 <= j <= keys.len(),
            forall|i: int| 0 <= i < j ==> key_lt((#[trigger] keys[i])@, k@),
            j < keys.len() ==> key_lt(k@, keys[j]@),
        ensures
            self.selected(cs, c + 1, out.insert(j, v), keys.insert(j, k), src.insert(j, c)),
            keys_sorted(keys.insert(j, k)),
    {
        reveal(FileFinder::selected);
        let nk = keys.insert(j, k);
        let no = out.insert(j, v);
        let ns = src.insert(j, c);
        assert forall|d: int| 0 <= d < c && !self.ignores(#[trigger] cs[d]) implies path_key(cs[d]) != path_key(cs[c]) by {
            lemma_not_covered(keys, k@, j, path_key(cs[d]));
        }
        lemma_insert_sorted(keys, k, j);
        assert forall|m: int| 0 <= m < nk.len() implies (#[trigger] nk[m])@ == path_key(no[m]@) by {
            if m < j {
                assert(nk[m] == keys[m] && no[m] == out[m]);
            } else if m > j {
                assert(nk[m] == keys[m - 1] && no[m] == out[m - 1]);
            }
        }
        assert forall|m: int| 0 <= m < no.len() implies 0 <= #[trigger] ns[m] < c + 1 && self.first_kept(cs, ns[m])
            && no[m]@ == cs[ns[m]] by {
            if m < j {
                assert(ns[m] == src[m] && no[m] == out[m]);
            } else if m > j {
                assert(ns[m] == src[m - 1] && no[m] == out[m - 1]);
            }
        }
        assert forall|d: int| 0 <= d < c + 1 && !self.ignores(#[trigger] cs[d]) implies covered(nk, path_key(cs[d])) by {
            if d == c {
                assert(nk[j]@ == path_key(cs[d]));
            } else {
                lemma_covered_insert(keys, k, j, path_key(cs[d]));
            }
        }
    }

    /// What selection has kept once every candidate has been seen.
    proof fn lemma_selected_done(&self, cands: Seq<Vec<u8>>, out: Seq<Vec<u8>>, keys: Seq<Vec<u16>>, src: Seq<int>)
        requires
            self.selected(byte_views(cands), cands.len() as int, out, keys, src),
        ensures
            forall|i: int, j: int|
                0 <= i < j < out.len() ==> key_lt(path_key(#[trigger] out[i]@), path_key(#[trigger] out[j]@)),
            forall|m: int| 0 <= m < out.len() ==> self.first_kept_path(cands, #[trigger] out[m]@),
            forall|c: int|
                0 <= c < cands.len() && !self.ignores(#[trigger] cands[c]@) ==> exists|m: int|
                    0 <= m < out.len() && path_key(out[m]@) == path_key(cands[c]@),
    {
        reveal(FileFinder::selected);
        let cs = byte_views(cands);
        assert forall|i: int, j: int| 0 <= i < j < out.len() implies key_lt(
            path_key(#[trigger] out[i]@),
            path_key(#[trigger] out[j]@),
        ) by {
            assert(keys[i]@ == path_key(out[i]@) && keys[j]@ == path_key(out[j]@));
        }
        assert forall|m: int| 0 <= m < out.len() implies self.first_kept_path(cands, #[trigger] out[m]@) by {
            let c = src[m];
            assert(0 <= c < cs.len());
            assert(cs[c] == cands[c]@);
            assert(self.first_kept(cs, c));
            assert(out[m]@ == cands[c]@);
        }
        assert forall|c: int| 0 <= c < cands.len() && !self.ignores(#[trigger] cands[c]@) implies exists|m: int|
            0 <= m < out.len() && path_key(out[m]@) == path_key(cands[c]@) by {
            assert(cs[c] == cands[c]@);
            let m = choose|m: int| 0 <= m < keys.len() && keys[m]@ == path_key(cs[c]);
            assert(keys[m]@ == path_key(out[m]@));
        }
    }

    /// The candidates that are not ignored, sorted in path order with repeats removed (the
    /// first spelling of a path is the one kept).
    pub fn select_files(&self, candidates: Vec<Vec<u8>>) -> (fs: Vec<Vec<u8>>)
        ensures
            forall|i: int, j: int|
                0 <= i < j < fs@.len() ==> key_lt(path_key(#[trigger] fs@[i]@), path_key(#[trigger] fs@[j]@)),
            forall|m: int| 0 <= m < fs@.len() ==> self.first_kept_path(candidates@, #[trigger] fs@[m]@),
            forall|c: int|
                0 <= c < candidates@.len() && !self.ignores(#[trigger] candidates@[c]@) ==> exists|m: int|
                    0 <= m < fs@.len() && path_key(fs@[m]@) == path_key(candidates@[c]@),
    {
        let ghost cs = byte_views(candidates@);
        let mut out: Vec<Vec<u8>> = Vec::new();
        let mut keys: Vec<Vec<u16>> = Vec::new();
        let ghost mut src: Seq<int> = Seq::empty();
        let mut c: usize = 0;
        proof {
            reveal(FileFinder::selected);
        }
        while c < candidates.len()
            invariant
                c <= candidates@.len(),
                cs == byte_views(candidates@),
                self.selected(cs, c as int, out@, keys@, src),
                keys_sorted(keys@),
                out@.len() == keys@.len(),
            decreases candidates.len() - c,
        {
            assert(cs[c as int] == candidates@[c as int]@);
            if !self.should_ignore(candidates[c].as_slice()) {
                let k = path_key_of(&candidates[c]);
                let (j, found) = find_slot(&keys, &k);
                if !found {
                    let copy = copy_bytes(&candidates[c]);
                    proof {
                        self.lemma_selected_insert(cs, c as int, out@, keys@, src, k, copy, j as int);
                        src = src.insert(j as int, c as int);
                    }
                    keys.insert(j, k);
                    out.insert(j, copy);
                } else {
                    proof {
                        self.lemma_selected_skip(cs, c as int, out@, keys@, src);
                    }
                }
            } else {
                proof {
                    self.lemma_selected_skip(cs, c as int, out@, keys@, src);
                }
            }
            c = c + 1;
        }
        proof {
            self.lemma_selected_done(candidates@, out@, keys@, src);
        }
        out
    }
}

} // verus!
