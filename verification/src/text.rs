//! Character-level primitives shared by every rule: UTF-8 byte lengths, byte offsets of
//! character positions, and string assembly.
use vstd::prelude::*;

verus! {

/// Number of bytes in the UTF-8 encoding of `c`.
pub open spec fn utf8_len(c: char) -> nat {
    if (c as u32) < 0x80 {
        1
    } else if (c as u32) < 0x800 {
        2
    } else if (c as u32) < 0x10000 {
        3
    } else {
        4
    }
}

/// Number of bytes in the UTF-8 encoding of `s`.
pub open spec fn byte_len(s: Seq<char>) -> nat
    decreases s.len(),
{
    if s.len() == 0 {
        0
    } else {
        byte_len(s.drop_last()) + utf8_len(s.last())
    }
}

/// Byte offset of character index `i` in `s`.
pub open spec fn byte_at(s: Seq<char>, i: int) -> nat {
    byte_len(s.take(i))
}

/// Whether every byte offset of `s` fits in a `usize`.
pub open spec fn fits_usize(s: Seq<char>) -> bool {
    byte_len(s) <= usize::MAX
}

pub proof fn lemma_byte_at_step(s: Seq<char>, i: int)
    requires
        0 <= i < s.len(),
    ensures
        byte_at(s, i + 1) == byte_at(s, i) + utf8_len(s[i]),
{
    assert(s.take(i + 1).drop_last() =~= s.take(i));
}

pub proof fn lemma_byte_at_mono(s: Seq<char>, i: int, j: int)
    requires
        0 <= i <= j <= s.len(),
    ensures
        byte_at(s, i) <= byte_at(s, j),
    decreases j - i,
{
    if i < j {
        lemma_byte_at_step(s, j - 1);
        lemma_byte_at_mono(s, i, j - 1);
    }
}

pub proof fn lemma_byte_at_full(s: Seq<char>)
    ensures
        byte_at(s, s.len() as int) == byte_len(s),
{
    assert(s.take(s.len() as int) =~= s);
}

pub proof fn lemma_byte_at_zero(s: Seq<char>)
    ensures
        byte_at(s, 0) == 0,
{
    assert(s.take(0).len() == 0);
}

/// Every offset of `s` is at most its byte length, so it fits wherever the whole does.
pub proof fn lemma_byte_at_bounded(s: Seq<char>, i: int)
    requires
        0 <= i <= s.len(),
    ensures
        byte_at(s, i) <= byte_len(s),
{
    lemma_byte_at_mono(s, i, s.len() as int);
    lemma_byte_at_full(s);
}

/// Byte length of a concatenation.
pub proof fn lemma_byte_len_add(a: Seq<char>, b: Seq<char>)
    ensures
        byte_len(a + b) == byte_len(a) + byte_len(b),
    decreases b.len(),
{
    if b.len() == 0 {
        assert(a + b =~= a);
    } else {
        assert((a + b).drop_last() =~= a + b.drop_last());
        lemma_byte_len_add(a, b.drop_last());
    }
}

/// A piece of `s` is no longer in bytes than `s`.
pub proof fn lemma_byte_len_subrange_le(s: Seq<char>, i: int, j: int)
    requires
        0 <= i <= j <= s.len(),
    ensures
        byte_len(s.subrange(i, j)) <= byte_len(s),
{
    lemma_byte_len_subrange(s, i, j);
    lemma_byte_at_bounded(s, j);
}

/// Byte length of `s[i..j]` is the difference of the offsets.
pub proof fn lemma_byte_len_subrange(s: Seq<char>, i: int, j: int)
    requires
        0 <= i <= j <= s.len(),
    ensures
        byte_len(s.subrange(i, j)) == byte_at(s, j) - byte_at(s, i),
{
    assert(s.take(j) =~= s.take(i) + s.subrange(i, j));
    lemma_byte_len_add(s.take(i), s.subrange(i, j));
}

/// `char::len_utf8`.
pub fn len_utf8(c: char) -> (n: usize)
    ensures
        n == utf8_len(c),
{
    let v = c as u32;
    if v < 0x80 {
        1
    } else if v < 0x800 {
        2
    } else if v < 0x10000 {
        3
    } else {
        4
    }
}

/// The characters of `s`, in order.
pub fn str_chars(s: &str) -> (res: Vec<char>)
    ensures
        res@ == s@,
{
    let mut v: Vec<char> = Vec::new();
    for c in it: s.chars()
        invariant
            v@ == it.seq().take(it.index() as int),
    {
        v.push(c);
    }
    v
}

/// `str::char_indices`: each character with the byte offset at which it starts.
pub fn char_indices(s: &Vec<char>) -> (res: Vec<(usize, char)>)
    requires
        fits_usize(s@),
    ensures
        res.len() == s.len(),
        forall|i: int|
            0 <= i < s.len() ==> #[trigger] res[i] == (byte_at(s@, i) as usize, s@[i]),
{
    let mut res: Vec<(usize, char)> = Vec::new();
    let mut off: usize = 0;
    let mut i: usize = 0;
    proof {
        lemma_byte_at_zero(s@);
    }
    while i < s.len()
        invariant
            i <= s.len(),
            fits_usize(s@),
            off == byte_at(s@, i as int),
            res.len() == i,
            forall|k: int| 0 <= k < i ==> #[trigger] res[k] == (byte_at(s@, k) as usize, s@[k]),
        decreases s.len() - i,
    {
        let c = s[i];
        res.push((off, c));
        proof {
            lemma_byte_at_step(s@, i as int);
            lemma_byte_at_bounded(s@, i + 1);
        }
        off = off + len_utf8(c);
        i = i + 1;
    }
    res
}

/// `String::push`.
#[verifier::external_body]
pub(crate) fn push_char(s: &mut String, c: char)
    ensures
        final(s)@ == old(s)@.push(c),
{
    s.push(c);
}

/// Append the characters of `cs` to `s`.
pub fn push_chars(s: &mut String, cs: &[char])
    ensures
        final(s)@ == old(s)@ + cs@,
{
    let ghost s0 = s@;
    let mut i: usize = 0;
    while i < cs.len()
        invariant
            i <= cs.len(),
            s@ == s0 + cs@.take(i as int),
        decreases cs.len() - i,
    {
        push_char(s, cs[i]);
        assert(cs@.take(i + 1) =~= cs@.take(i as int).push(cs@[i as int]));
        i = i + 1;
    }
    assert(cs@.take(cs.len() as int) =~= cs@);
}

/// A string holding exactly `cs[from..to]`.
pub fn string_of(cs: &[char], from: usize, to: usize) -> (res: String)
    requires
        from <= to <= cs.len(),
    ensures
        res@ == cs@.subrange(from as int, to as int),
{
    let mut s = String::new();
    let mut i = from;
    while i < to
        invariant
            from <= i <= to <= cs.len(),
            s@ == cs@.subrange(from as int, i as int),
        decreases to - i,
    {
        push_char(&mut s, cs[i]);
        assert(cs@.subrange(from as int, i + 1) =~= cs@.subrange(from as int, i as int).push(
            cs@[i as int],
        ));
        i = i + 1;
    }
    s
}

/// Append the string `t` to `s`.
pub fn push_str(s: &mut String, t: &str)
    ensures
        final(s)@ == old(s)@ + t@,
{
    let cs = str_chars(t);
    push_chars(s, cs.as_slice());
}

/// Decimal digits of `n` (no sign, no leading zeros; `"0"` for zero).
pub open spec fn decimal(n: nat) -> Seq<char>
    decreases n,
{
    if n < 10 {
        seq![digit_char(n)]
    } else {
        decimal(n / 10).push(digit_char(n % 10))
    }
}

pub open spec fn digit_char(d: nat) -> char {
    if d == 0 {
        '0'
    } else if d == 1 {
        '1'
    } else if d == 2 {
        '2'
    } else if d == 3 {
        '3'
    } else if d == 4 {
        '4'
    } else if d == 5 {
        '5'
    } else if d == 6 {
        '6'
    } else if d == 7 {
        '7'
    } else if d == 8 {
        '8'
    } else {
        '9'
    }
}

fn digit(d: usize) -> (c: char)
    requires
        d < 10,
    ensures
        c == digit_char(d as nat),
{
    if d == 0 {
        '0'
    } else if d == 1 {
        '1'
    } else if d == 2 {
        '2'
    } else if d == 3 {
        '3'
    } else if d == 4 {
        '4'
    } else if d == 5 {
        '5'
    } else if d == 6 {
        '6'
    } else if d == 7 {
        '7'
    } else if d == 8 {
        '8'
    } else {
        '9'
    }
}

/// Append the decimal spelling of `n` to `s` (what `format!("{n}")` writes).
pub fn push_decimal(s: &mut String, n: usize)
    ensures
        final(s)@ == old(s)@ + decimal(n as nat),
    decreases n,
{
    if n < 10 {
        push_char(s, digit(n));
    } else {
        push_decimal(s, n / 10);
        push_char(s, digit(n % 10));
    }
}

/// The decimal spelling of `n`.
pub fn decimal_string(n: usize) -> (s: String)
    ensures
        s@ == decimal(n as nat),
{
    let mut s = String::new();
    push_decimal(&mut s, n);
    assert(s@ =~= decimal(n as nat));
    s
}

/// `char::is_ascii_digit`.
pub open spec fn is_ascii_digit(c: char) -> bool {
    '0' <= c && c <= '9'
}

pub fn ascii_digit(c: char) -> (b: bool)
    ensures
        b == is_ascii_digit(c),
{
    '0' <= c && c <= '9'
}

/// Whether `p` occurs in `s` starting at character index `i`.
pub open spec fn occurs_at(s: Seq<char>, i: int, p: Seq<char>) -> bool {
    0 <= i && i + p.len() <= s.len() && s.subrange(i, i + p.len()) == p
}

/// Exec check of [`occurs_at`].
pub fn matches_at(s: &[char], i: usize, p: &[char]) -> (b: bool)
    ensures
        b == occurs_at(s@, i as int, p@),
{
    if i > s.len() || p.len() > s.len() - i {
        return false;
    }
    let mut k: usize = 0;
    while k < p.len()
        invariant
            k <= p.len(),
            i + p.len() <= s.len(),
            forall|j: int| 0 <= j < k ==> s@[i + j] == p@[j],
        decreases p.len() - k,
    {
        if s[i + k] != p[k] {
            assert(s@.subrange(i as int, i + p.len())[k as int] != p@[k as int]);
            return false;
        }
        k = k + 1;
    }
    assert(s@.subrange(i as int, i + p.len()) =~= p@);
    true
}

/// Whether `p` occurs anywhere in `s` (`str::contains`).
pub open spec fn contains_seq(s: Seq<char>, p: Seq<char>) -> bool {
    exists|i: int| occurs_at(s, i, p)
}

/// `str::contains` on character sequences.
pub fn contains_chars(s: &[char], p: &[char]) -> (b: bool)
    ensures
        b == contains_seq(s@, p@),
{
    let mut i: usize = 0;
    while i < s.len()
        invariant
            i <= s.len(),
            forall|j: int| 0 <= j < i ==> !occurs_at(s@, j, p@),
        decreases s.len() - i,
    {
        if matches_at(s, i, p) {
            return true;
        }
        i = i + 1;
    }
    if matches_at(s, i, p) {
        return true;
    }
    assert forall|j: int| !occurs_at(s@, j, p@) by {
        if 0 <= j < i {
        }
    }
    false
}

/// Whether `c` is one of `cs`.
pub fn contains_char(cs: &[char], c: char) -> (b: bool)
    ensures
        b == cs@.contains(c),
{
    let mut j: usize = 0;
    while j < cs.len()
        invariant
            j <= cs.len(),
            forall|q: int| 0 <= q < j ==> cs@[q] != c,
        decreases cs.len() - j,
    {
        if cs[j] == c {
            assert(cs@[j as int] == c);
            return true;
        }
        j = j + 1;
    }
    false
}

/// `str::starts_with` on character sequences.
pub fn starts_with_chars(s: &[char], p: &[char]) -> (b: bool)
    ensures
        b == occurs_at(s@, 0, p@),
{
    matches_at(s, 0, p)
}

/// `==` on two strings, by their characters.
pub fn str_eq(a: &str, b: &str) -> (r: bool)
    ensures
        r == (a@ == b@),
{
    let x = str_chars(a);
    let y = str_chars(b);
    seq_eq(&x, &y)
}

/// `==` on two character slices.
pub fn seq_eq(x: &[char], y: &[char]) -> (r: bool)
    ensures
        r == (x@ == y@),
{
    if x.len() != y.len() {
        return false;
    }
    let r = matches_at(x, 0, y);
    assert(r ==> x@.subrange(0, y@.len() as int) =~= x@);
    proof {
        if x@ == y@ {
            assert(x@.subrange(0, y@.len() as int) =~= y@);
        }
    }
    r
}

} // verus!

verus! {

/// Index of the first character at or after `i` satisfying `p` (or `t.len()`).
pub open spec fn next_index(t: Seq<char>, i: int, p: spec_fn(char) -> bool) -> int
    decreases t.len() - i,
{
    if i < 0 {
        next_index(t, 0, p)
    } else if i >= t.len() {
        t.len() as int
    } else if p(t[i]) {
        i
    } else {
        next_index(t, i + 1, p)
    }
}

pub proof fn lemma_next_index_bounds(t: Seq<char>, i: int, p: spec_fn(char) -> bool)
    requires
        0 <= i <= t.len(),
    ensures
        i <= next_index(t, i, p) <= t.len(),
        next_index(t, i, p) < t.len() ==> p(t[next_index(t, i, p)]),
        forall|k: int| i <= k < next_index(t, i, p) ==> !p(#[trigger] t[k]),
    decreases t.len() - i,
{
    if i < t.len() && !p(t[i]) {
        lemma_next_index_bounds(t, i + 1, p);
    }
}

/// Offsets into a concatenation: those inside `u` are `u`'s, those past it are shifted by
/// `u`'s length.
pub proof fn lemma_byte_at_concat(u: Seq<char>, v: Seq<char>, i: int)
    requires
        0 <= i <= u.len() + v.len(),
    ensures
        i <= u.len() ==> byte_at(u + v, i) == byte_at(u, i),
        i >= u.len() ==> byte_at(u + v, i) == byte_len(u) + byte_at(v, i - u.len()),
{
    if i <= u.len() {
        assert((u + v).take(i) =~= u.take(i));
    }
    if i >= u.len() {
        assert((u + v).take(i) =~= u + v.take(i - u.len()));
        lemma_byte_len_add(u, v.take(i - u.len()));
    }
}

/// Searching past `u` in `u + v` is searching `v`, shifted.
pub proof fn lemma_next_index_shift(u: Seq<char>, v: Seq<char>, i: int, p: spec_fn(char) -> bool)
    requires
        0 <= i <= v.len(),
    ensures
        next_index(u + v, u.len() + i, p) == u.len() + next_index(v, i, p),
    decreases v.len() - i,
{
    if i < v.len() {
        assert((u + v)[u.len() + i] == v[i]);
        if !p(v[i]) {
            lemma_next_index_shift(u, v, i + 1, p);
        }
    }
}

/// A hit found inside `u` is the hit in `u + v`.
pub proof fn lemma_next_index_prefix(u: Seq<char>, v: Seq<char>, i: int, p: spec_fn(char) -> bool)
    requires
        0 <= i <= u.len(),
        next_index(u, i, p) < u.len(),
    ensures
        next_index(u + v, i, p) == next_index(u, i, p),
    decreases u.len() - i,
{
    assert((u + v)[i] == u[i]);
    if !p(u[i]) {
        lemma_next_index_prefix(u, v, i + 1, p);
    }
}

/// Number of characters of `s` satisfying `p`.
pub open spec fn count_in(s: Seq<char>, p: spec_fn(char) -> bool) -> nat
    decreases s.len(),
{
    if s.len() == 0 {
        0
    } else {
        count_in(s.drop_last(), p) + if p(s.last()) {
            1nat
        } else {
            0nat
        }
    }
}

pub proof fn lemma_count_in_step(t: Seq<char>, i: int, j: int, p: spec_fn(char) -> bool)
    requires
        0 <= i <= j < t.len(),
    ensures
        count_in(t.subrange(i, j + 1), p) == count_in(t.subrange(i, j), p) + if p(t[j]) {
            1nat
        } else {
            0nat
        },
{
    assert(t.subrange(i, j + 1).drop_last() =~= t.subrange(i, j));
}

pub proof fn lemma_count_in_le_len(s: Seq<char>, p: spec_fn(char) -> bool)
    ensures
        count_in(s, p) <= s.len(),
    decreases s.len(),
{
    if s.len() > 0 {
        lemma_count_in_le_len(s.drop_last(), p);
    }
}

} // verus!

verus! {

pub open spec fn hex_digit_char(d: nat) -> char {
    if d < 10 {
        digit_char(d)
    } else if d == 10 {
        'A'
    } else if d == 11 {
        'B'
    } else if d == 12 {
        'C'
    } else if d == 13 {
        'D'
    } else if d == 14 {
        'E'
    } else {
        'F'
    }
}

/// Upper-case hexadecimal digits of `n` (no leading zeros; `"0"` for zero).
pub open spec fn hex_upper(n: nat) -> Seq<char>
    decreases n,
{
    if n < 16 {
        seq![hex_digit_char(n)]
    } else {
        hex_upper(n / 16).push(hex_digit_char(n % 16))
    }
}

/// `s` left-padded with `'0'` to at least `w` characters.
pub open spec fn zero_pad(s: Seq<char>, w: nat) -> Seq<char> {
    if s.len() < w {
        Seq::new((w - s.len()) as nat, |i: int| '0') + s
    } else {
        s
    }
}

fn hex_digit(d: u32) -> (c: char)
    requires
        d < 16,
    ensures
        c == hex_digit_char(d as nat),
{
    if d < 10 {
        digit(d as usize)
    } else if d == 10 {
        'A'
    } else if d == 11 {
        'B'
    } else if d == 12 {
        'C'
    } else if d == 13 {
        'D'
    } else if d == 14 {
        'E'
    } else {
        'F'
    }
}

fn hex_digits(n: u32) -> (v: Vec<char>)
    ensures
        v@ == hex_upper(n as nat),
    decreases n,
{
    if n < 16 {
        let mut v = Vec::new();
        v.push(hex_digit(n));
        assert(v@ =~= hex_upper(n as nat));
        v
    } else {
        let mut v = hex_digits(n / 16);
        v.push(hex_digit(n % 16));
        v
    }
}

/// Append `format!("{:04X}", n)` to `s`.
pub fn push_hex4(s: &mut String, n: u32)
    ensures
        final(s)@ == old(s)@ + zero_pad(hex_upper(n as nat), 4),
{
    let digits = hex_digits(n);
    let ghost s0 = s@;
    let mut pad: usize = 0;
    if digits.len() < 4 {
        let k = 4 - digits.len();
        while pad < k
            invariant
                pad <= k,
                k == 4 - digits.len(),
                s@ == s0 + Seq::new(pad as nat, |i: int| '0'),
            decreases k - pad,
        {
            push_char(s, '0');
            assert(Seq::new((pad + 1) as nat, |i: int| '0') =~= Seq::new(pad as nat, |i: int| '0').push('0'));
            pad = pad + 1;
        }
    }
    push_chars(s, digits.as_slice());
    assert(s@ =~= s0 + zero_pad(hex_upper(n as nat), 4));
}

} // verus!

verus! {

/// The byte offsets of every character position `0..=t.len()`.
pub open spec fn offsets_ok(t: Seq<char>, offs: Seq<usize>) -> bool {
    offs.len() == t.len() + 1 && forall|k: int| 0 <= k <= t.len() ==> #[trigger] offs[k] == byte_at(t, k)
}

pub fn byte_offsets(cs: &Vec<char>) -> (offs: Vec<usize>)
    requires
        fits_usize(cs@),
    ensures
        offsets_ok(cs@, offs@),
{
    let mut offs: Vec<usize> = Vec::new();
    let mut off: usize = 0;
    let mut i: usize = 0;
    proof {
        lemma_byte_at_zero(cs@);
    }
    offs.push(0);
    while i < cs.len()
        invariant
            i <= cs.len(),
            fits_usize(cs@),
            off == byte_at(cs@, i as int),
            offs.len() == i + 1,
            forall|k: int| 0 <= k <= i ==> #[trigger] offs[k] == byte_at(cs@, k),
        decreases cs.len() - i,
    {
        proof {
            lemma_byte_at_step(cs@, i as int);
            lemma_byte_at_bounded(cs@, i + 1);
        }
        off = off + len_utf8(cs[i]);
        offs.push(off);
        i = i + 1;
    }
    offs
}

} // verus!

verus! {

/// The characters of `c.to_lowercase()` (Unicode's full lower-case mapping of `c`).
pub uninterp spec fn lowercase_of(c: char) -> Seq<char>;

/// The characters of `c.to_uppercase()` (Unicode's full upper-case mapping of `c`).
pub uninterp spec fn uppercase_of(c: char) -> Seq<char>;

/// `char::to_lowercase`, collected.
#[verifier::external_body]
pub(crate) fn to_lowercase_chars(c: char) -> (r: Vec<char>)
    ensures
        r@ == lowercase_of(c),
{
    c.to_lowercase().collect()
}

/// `char::to_uppercase`, collected; std documents the mapping as one or more characters.
#[verifier::external_body]
pub(crate) fn to_uppercase_chars(c: char) -> (r: Vec<char>)
    ensures
        r@ == uppercase_of(c),
        r@.len() > 0,
{
    c.to_uppercase().collect()
}

pub proof fn lemma_byte_at_strict(s: Seq<char>, i: int, j: int)
    requires
        0 <= i < j <= s.len(),
    ensures
        byte_at(s, i) < byte_at(s, j),
{
    lemma_byte_at_step(s, i);
    lemma_byte_at_mono(s, i + 1, j);
}

/// Whether the byte offset `b` of `s` lies on a character boundary (or at the end).
pub open spec fn is_boundary(s: Seq<char>, b: int) -> bool {
    exists|k: int| 0 <= k <= s.len() && byte_at(s, k) == b
}

/// The character index at byte offset `b` (a boundary).
pub open spec fn index_of_byte(s: Seq<char>, b: int) -> int {
    choose|k: int| 0 <= k <= s.len() && byte_at(s, k) == b
}

pub proof fn lemma_index_of_byte(s: Seq<char>, k: int)
    requires
        0 <= k <= s.len(),
    ensures
        is_boundary(s, byte_at(s, k) as int),
        index_of_byte(s, byte_at(s, k) as int) == k,
{
    let b = byte_at(s, k) as int;
    assert(0 <= k <= s.len() && byte_at(s, k) == b);
    let j = index_of_byte(s, b);
    if j < k {
        lemma_byte_at_strict(s, j, k);
    } else if k < j {
        lemma_byte_at_strict(s, k, j);
    }
}

/// The char index whose byte offset is `b`, searched in `offs` (the offsets of `s`).
pub(crate) fn find_index_of_byte(offs: &Vec<usize>, s: Ghost<Seq<char>>, b: usize) -> (k: usize)
    requires
        offsets_ok(s@, offs@),
        is_boundary(s@, b as int),
    ensures
        k == index_of_byte(s@, b as int),
        0 <= k <= s@.len(),
{
    let ghost kk = index_of_byte(s@, b as int);
    proof {
        lemma_index_of_byte(s@, kk);
    }
    let mut k: usize = 0;
    while k < offs.len()
        invariant
            offsets_ok(s@, offs@),
            0 <= kk <= s@.len(),
            byte_at(s@, kk) == b,
            k <= kk,
            index_of_byte(s@, b as int) == kk,
        decreases offs.len() - k,
    {
        if offs[k] == b {
            proof {
                lemma_index_of_byte(s@, k as int);
            }
            return k;
        }
        k = k + 1;
    }
    k
}

} // verus!
