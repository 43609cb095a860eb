//! Character-level text utilities shared by the path classifier and the
//! frontmatter parser: conversions between `&str`, `Vec<char>` and `String`,
//! and a few spec-level sequence helpers.

use vstd::prelude::*;
use vstd::string::*;
use vstd::utf8::{decode_utf8, valid_utf8};

verus! {

/// True when `p` is a prefix of `s`.
pub open spec fn starts_with(s: Seq<char>, p: Seq<char>) -> bool {
    p.len() <= s.len() && s.subrange(0, p.len() as int) == p
}

/// Index of the first occurrence of `c` in `s`, or -1 when absent.
pub open spec fn find_ch(s: Seq<char>, c: char) -> int
    decreases s.len(),
{
    if s.len() == 0 {
        -1
    } else if s[0] == c {
        0
    } else {
        let r = find_ch(s.drop_first(), c);
        if r < 0 {
            -1
        } else {
            r + 1
        }
    }
}

pub proof fn lemma_find_ch_bounds(s: Seq<char>, c: char)
    ensures
        find_ch(s, c) >= 0 ==> find_ch(s, c) < s.len() && s[find_ch(s, c)] == c,
        find_ch(s, c) >= 0 ==> forall|i: int| 0 <= i < find_ch(s, c) ==> s[i] != c,
        find_ch(s, c) < 0 ==> forall|i: int| 0 <= i < s.len() ==> s[i] != c,
    decreases s.len(),
{
    if s.len() > 0 && s[0] != c {
        lemma_find_ch_bounds(s.drop_first(), c);
        assert(forall|i: int| 1 <= i < s.len() ==> s[i] == s.drop_first()[i - 1]);
    }
}

/// A sequence without `c` followed by `c` puts the first occurrence at the
/// end of that prefix.
pub proof fn lemma_find_ch_concat(pre: Seq<char>, c: char, rest: Seq<char>)
    requires
        forall|i: int| 0 <= i < pre.len() ==> pre[i] != c,
    ensures
        find_ch(pre + seq![c] + rest, c) == pre.len(),
    decreases pre.len(),
{
    let s = pre + seq![c] + rest;
    if pre.len() == 0 {
        assert(s[0] == c);
    } else {
        assert(s[0] == pre[0]);
        assert(s.drop_first() =~= pre.drop_first() + seq![c] + rest);
        lemma_find_ch_concat(pre.drop_first(), c, rest);
    }
}

pub proof fn lemma_find_ch_absent(s: Seq<char>, c: char)
    requires
        forall|i: int| 0 <= i < s.len() ==> s[i] != c,
    ensures
        find_ch(s, c) < 0,
    decreases s.len(),
{
    if s.len() > 0 {
        lemma_find_ch_absent(s.drop_first(), c);
    }
}

/// Index of the first element of `ls` satisfying `p`, or -1 when none does.
pub open spec fn find_first<A>(ls: Seq<A>, p: spec_fn(A) -> bool) -> int
    decreases ls.len(),
{
    if ls.len() == 0 {
        -1
    } else if p(ls[0]) {
        0
    } else {
        let r = find_first(ls.drop_first(), p);
        if r < 0 {
            -1
        } else {
            r + 1
        }
    }
}

pub proof fn lemma_find_first_bounds<A>(ls: Seq<A>, p: spec_fn(A) -> bool)
    ensures
        find_first(ls, p) >= 0 ==> find_first(ls, p) < ls.len() && p(ls[find_first(ls, p)]),
        find_first(ls, p) >= 0 ==> forall|i: int| 0 <= i < find_first(ls, p) ==> !p(ls[i]),
        find_first(ls, p) < 0 ==> forall|i: int| 0 <= i < ls.len() ==> !p(ls[i]),
    decreases ls.len(),
{
    if ls.len() > 0 && !p(ls[0]) {
        lemma_find_first_bounds(ls.drop_first(), p);
        assert(forall|i: int| 1 <= i < ls.len() ==> ls[i] == ls.drop_first()[i - 1]);
    }
}

pub proof fn lemma_find_first_is<A>(ls: Seq<A>, p: spec_fn(A) -> bool, j: int)
    requires
        0 <= j < ls.len(),
        p(ls[j]),
        forall|i: int| 0 <= i < j ==> !p(ls[i]),
    ensures
        find_first(ls, p) == j,
    decreases ls.len(),
{
    if j > 0 {
        lemma_find_first_is(ls.drop_first(), p, j - 1);
        assert(forall|i: int| 1 <= i < ls.len() ==> ls[i] == ls.drop_first()[i - 1]);
    }
}

pub proof fn lemma_find_first_none<A>(ls: Seq<A>, p: spec_fn(A) -> bool)
    requires
        forall|i: int| 0 <= i < ls.len() ==> !p(ls[i]),
    ensures
        find_first(ls, p) < 0,
    decreases ls.len(),
{
    if ls.len() > 0 {
        lemma_find_first_none(ls.drop_first(), p);
    }
}

/// A found occurrence with nothing equal before it is the first.
pub proof fn lemma_find_ch_is(s: Seq<char>, c: char, j: int)
    requires
        0 <= j < s.len(),
        s[j] == c,
        forall|i: int| 0 <= i < j ==> s[i] != c,
    ensures
        find_ch(s, c) == j,
{
    lemma_find_ch_bounds(s, c);
}

/// Index of the first occurrence of `c`, if any.
pub fn find_in(s: &[char], c: char) -> (r: Option<usize>)
    ensures
        r matches Some(i) ==> i < s@.len() && find_ch(s@, c) == i,
        r is None ==> find_ch(s@, c) < 0,
{
    let mut i: usize = 0;
    while i < s.len()
        invariant
            i <= s@.len(),
            forall|j: int| 0 <= j < i ==> s@[j] != c,
        decreases s@.len() - i,
    {
        if s[i] == c {
            proof {
                lemma_find_ch_is(s@, c, i as int);
            }
            return Some(i);
        }
        i = i + 1;
    }
    proof {
        lemma_find_ch_absent(s@, c);
    }
    None
}

/// Collects the characters of `s` into a vector.
pub fn to_chars(s: &str) -> (r: Vec<char>)
    ensures
        r@ == s@,
{
    let n = s.unicode_len();
    let mut r: Vec<char> = Vec::new();
    let mut i: usize = 0;
    while i < n
        invariant
            n == s@.len(),
            i <= n,
            r@ == s@.subrange(0, i as int),
        decreases n - i,
    {
        r.push(s.get_char(i));
        i = i + 1;
        assert(r@ =~= s@.subrange(0, i as int));
    }
    proof {
        assert(s@.subrange(0, n as int) =~= s@);
    }
    r
}

/// Copies the characters of `s` between `a` and `b` into a fresh vector.
pub fn copy_range(s: &[char], a: usize, b: usize) -> (v: Vec<char>)
    requires
        a <= b <= s@.len(),
    ensures
        v@ == s@.subrange(a as int, b as int),
{
    let mut v: Vec<char> = Vec::new();
    let mut k: usize = a;
    while k < b
        invariant
            a <= k <= b <= s@.len(),
            v@ == s@.subrange(a as int, k as int),
        decreases b - k,
    {
        v.push(s[k]);
        k = k + 1;
        assert(v@ =~= s@.subrange(a as int, k as int));
    }
    v
}

/// The deep view of a character vector is its view.
pub proof fn lemma_vec_chars_deep(v: Vec<char>)
    ensures
        v.deep_view() == v@,
{
    assert(v.deep_view() =~= v@);
}

/// Relies on `String::push`: appends the given character to the end of the
/// string.
#[verifier::external_body]
fn push_char(s: &mut String, c: char)
    ensures
        final(s)@ == old(s)@.push(c),
{
    s.push(c);
}

/// Builds a `String` out of a character slice.
pub fn string_of(v: &[char]) -> (r: String)
    ensures
        r@ == v@,
{
    let mut r = String::new();
    let mut i: usize = 0;
    while i < v.len()
        invariant
            i <= v@.len(),
            r@ == v@.subrange(0, i as int),
        decreases v@.len() - i,
    {
        push_char(&mut r, v[i]);
        i = i + 1;
        assert(r@ =~= v@.subrange(0, i as int));
    }
    proof {
        assert(v@.subrange(0, v@.len() as int) =~= v@);
    }
    r
}

/// Relies on `core::str::from_utf8`: returns `Ok` exactly when the bytes are
/// valid UTF-8, and the resulting string slice is their decoding.
#[verifier::external_body]
pub fn bytes_to_str(bytes: &[u8]) -> (r: Option<&str>)
    ensures
        r is Some <==> valid_utf8(bytes@),
        r matches Some(s) ==> s@ == decode_utf8(bytes@),
{
    core::str::from_utf8(bytes).ok()
}

/// Character-by-character equality of two slices.
pub fn chars_eq(a: &[char], b: &[char]) -> (r: bool)
    ensures
        r == (a@ == b@),
{
    if a.len() != b.len() {
        return false;
    }
    let mut i: usize = 0;
    while i < a.len()
        invariant
            a@.len() == b@.len(),
            i <= a@.len(),
            forall|j: int| 0 <= j < i ==> a@[j] == b@[j],
        decreases a@.len() - i,
    {
        if a[i] != b[i] {
            return false;
        }
        i = i + 1;
    }
    proof {
        assert(a@ =~= b@);
    }
    true
}

/// Clones a vector of strings, keeping its contents.
pub fn copy_strings(v: &Vec<String>) -> (r: Vec<String>)
    ensures
        r.deep_view() == v.deep_view(),
{
    let mut r: Vec<String> = Vec::new();
    let mut i: usize = 0;
    while i < v.len()
        invariant
            i <= v@.len(),
            r@.len() == i,
            forall|j: int| 0 <= j < i ==> r@[j]@ == v@[j]@,
        decreases v@.len() - i,
    {
        r.push(v[i].clone());
        i = i + 1;
    }
    proof {
        assert forall|j: int| 0 <= j < r@.len() implies r.deep_view()[j] == v.deep_view()[j] by {
            assert(r@[j]@ == v@[j]@);
        }
        assert(r.deep_view() =~= v.deep_view());
    }
    r
}

/// Equality of two string slices.
pub fn str_eq(a: &str, b: &str) -> (r: bool)
    ensures
        r == (a@ == b@),
{
    let av = to_chars(a);
    let bv = to_chars(b);
    chars_eq(av.as_slice(), bv.as_slice())
}

} // verus!
