//! The frontmatter parser: splits raw document bytes into a metadata block
//! delimited by `---` lines and a verbatim body, and decodes the block's
//! key/value grammar into a document record.
//!
//! The metadata grammar, line by line after trimming: blank lines are
//! skipped; `key: value` binds a scalar; `key:` alone opens a list to which
//! following `- item` lines append; any other line is invalid. A later
//! binding of a key replaces an earlier one. Unrecognized keys are accepted
//! and ignored.

use vstd::prelude::*;
use vstd::string::*;
use vstd::utf8::{decode_utf8, valid_utf8};

use crate::models::{Doc, DocV};
use crate::text::{
    bytes_to_str, chars_eq, copy_range, copy_strings, find_ch, find_first, find_in,
    lemma_find_first_is, lemma_find_first_none, lemma_vec_chars_deep, string_of, to_chars,
};

verus! {

/// Failure modes of the frontmatter parser, in the order they are checked.
#[derive(Debug, Clone, Copy, PartialEq, Eq, Structural)]
pub enum FrontmatterError {
    InvalidEncoding,
    MissingOpeningDelimiter,
    MissingClosingDelimiter,
    InvalidMetadata,
}

// ------------------------------------------------------------------
// The line model: a character sequence as a sequence of lines.
// ------------------------------------------------------------------

/// `s` split at every newline; always at least one line.
pub open spec fn split_lines(s: Seq<char>) -> Seq<Seq<char>>
    decreases s.len(),
{
    let i = find_ch(s, '\n');
    if i < 0 || i >= s.len() {
        seq![s]
    } else {
        seq![s.subrange(0, i)] + split_lines(s.subrange(i + 1, s.len() as int))
    }
}

/// The lines joined back with newlines; the inverse of `split_lines`.
pub open spec fn join_lines(ls: Seq<Seq<char>>) -> Seq<char>
    decreases ls.len(),
{
    if ls.len() == 0 {
        Seq::empty()
    } else if ls.len() == 1 {
        ls[0]
    } else {
        ls[0] + seq!['\n'] + join_lines(ls.drop_first())
    }
}

proof fn lemma_split_no_newline(s: Seq<char>)
    requires
        forall|i: int| 0 <= i < s.len() ==> s[i] != '\n',
    ensures
        split_lines(s) == seq![s],
{
    crate::text::lemma_find_ch_absent(s, '\n');
}

proof fn lemma_split_concat(pre: Seq<char>, rest: Seq<char>)
    requires
        forall|i: int| 0 <= i < pre.len() ==> pre[i] != '\n',
    ensures
        split_lines(pre + seq!['\n'] + rest) == seq![pre] + split_lines(rest),
{
    let s = pre + seq!['\n'] + rest;
    crate::text::lemma_find_ch_concat(pre, '\n', rest);
    assert(s.subrange(0, pre.len() as int) =~= pre);
    assert(s.subrange(pre.len() as int + 1, s.len() as int) =~= rest);
}

proof fn lemma_join_push(ls: Seq<Seq<char>>, l: Seq<char>)
    ensures
        ls.len() == 0 ==> join_lines(ls.push(l)) == l,
        ls.len() > 0 ==> join_lines(ls.push(l)) == join_lines(ls) + seq!['\n'] + l,
    decreases ls.len(),
{
    let p = ls.push(l);
    if ls.len() == 0 {
        assert(p.len() == 1 && p[0] == l);
    } else {
        assert(p[0] == ls[0]);
        assert(p.drop_first() =~= ls.drop_first().push(l));
        lemma_join_push(ls.drop_first(), l);
        if ls.len() == 1 {
            assert(join_lines(p) == ls[0] + seq!['\n'] + l);
            assert(join_lines(ls) == ls[0]);
        } else {
            assert(join_lines(p) == ls[0] + seq!['\n'] + (join_lines(ls.drop_first())
                + seq!['\n'] + l));
            assert(ls[0] + seq!['\n'] + (join_lines(ls.drop_first()) + seq!['\n'] + l) =~= (ls[0]
                + seq!['\n'] + join_lines(ls.drop_first())) + seq!['\n'] + l);
        }
    }
}

/// Splits characters into lines, matching `split_lines`.
fn split_chars(s: &[char]) -> (r: Vec<Vec<char>>)
    ensures
        r.deep_view() == split_lines(s@),
{
    let mut res: Vec<Vec<char>> = Vec::new();
    let mut cur: Vec<char> = Vec::new();
    let mut i: usize = 0;
    proof {
        assert(res.deep_view() =~= Seq::<Seq<char>>::empty());
        assert(cur@ + s@.subrange(0, s@.len() as int) =~= s@);
        assert(Seq::<Seq<char>>::empty() + split_lines(s@) =~= split_lines(s@));
    }
    while i < s.len()
        invariant
            i <= s@.len(),
            forall|j: int| 0 <= j < cur@.len() ==> cur@[j] != '\n',
            split_lines(s@) == res.deep_view() + split_lines(
                cur@ + s@.subrange(i as int, s@.len() as int),
            ),
        decreases s@.len() - i,
    {
        let ghost old_res = res;
        let ghost old_cur = cur@;
        let ghost cur_vec = cur;
        let ghost rest = s@.subrange(i as int, s@.len() as int);
        if s[i] == '\n' {
            proof {
                assert(old_cur + rest =~= old_cur + seq!['\n'] + s@.subrange(
                    i + 1,
                    s@.len() as int,
                ));
                lemma_split_concat(old_cur, s@.subrange(i + 1, s@.len() as int));
            }
            res.push(cur);
            cur = Vec::new();
            proof {
                lemma_vec_chars_deep(cur_vec);
                assert(res.deep_view() =~= old_res.deep_view().push(old_cur));
                assert(cur@ + s@.subrange(i + 1, s@.len() as int) =~= s@.subrange(
                    i + 1,
                    s@.len() as int,
                ));
                assert(old_res.deep_view().push(old_cur) =~= old_res.deep_view() + seq![old_cur]);
            }
        } else {
            cur.push(s[i]);
            proof {
                assert(cur@ + s@.subrange(i + 1, s@.len() as int) =~= old_cur + rest);
            }
        }
        i = i + 1;
    }
    proof {
        assert(cur@ + s@.subrange(i as int, s@.len() as int) =~= cur@);
        lemma_split_no_newline(cur@);
    }
    let ghost old_res = res;
    let ghost cur_vec = cur;
    res.push(cur);
    proof {
        lemma_vec_chars_deep(cur_vec);
        assert(res.deep_view() =~= old_res.deep_view().push(cur_vec@));
        assert(old_res.deep_view().push(cur_vec@) =~= old_res.deep_view() + seq![cur_vec@]);
    }
    res
}

// ------------------------------------------------------------------
// Trimming and line predicates.
// ------------------------------------------------------------------

/// Horizontal whitespace (and a carriage return, so CRLF input works).
pub open spec fn is_ws(c: char) -> bool {
    c == ' ' || c == '\t' || c == '\r'
}

pub open spec fn trim_start(s: Seq<char>) -> Seq<char>
    decreases s.len(),
{
    if s.len() > 0 && is_ws(s[0]) {
        trim_start(s.drop_first())
    } else {
        s
    }
}

pub open spec fn trim_end(s: Seq<char>) -> Seq<char>
    decreases s.len(),
{
    if s.len() > 0 && is_ws(s.last()) {
        trim_end(s.drop_last())
    } else {
        s
    }
}

/// `s` without leading and trailing whitespace.
pub open spec fn trimmed(s: Seq<char>) -> Seq<char> {
    trim_start(trim_end(s))
}

/// A line whose trimmed content is empty.
pub open spec fn is_blank(l: Seq<char>) -> bool {
    trimmed(l).len() == 0
}

/// A frontmatter delimiter line: three dashes, surrounding whitespace aside.
pub open spec fn is_delim(l: Seq<char>) -> bool {
    trimmed(l) == "---"@
}

/// Trims whitespace from both ends, matching `trimmed`.
fn trim_chars(s: &[char]) -> (v: Vec<char>)
    ensures
        v@ == trimmed(s@),
{
    let mut b: usize = s.len();
    proof {
        assert(s@.subrange(0, s@.len() as int) =~= s@);
    }
    while b > 0 && (s[b - 1] == ' ' || s[b - 1] == '\t' || s[b - 1] == '\r')
        invariant
            b <= s@.len(),
            trim_end(s@) == trim_end(s@.subrange(0, b as int)),
        decreases b,
    {
        proof {
            assert(s@.subrange(0, b as int).drop_last() =~= s@.subrange(0, b - 1));
        }
        b = b - 1;
    }
    proof {
        assert(trim_end(s@.subrange(0, b as int)) == s@.subrange(0, b as int));
    }
    let mut a: usize = 0;
    while a < b && (s[a] == ' ' || s[a] == '\t' || s[a] == '\r')
        invariant
            a <= b <= s@.len(),
            trim_end(s@) == s@.subrange(0, b as int),
            trimmed(s@) == trim_start(s@.subrange(a as int, b as int)),
        decreases b - a,
    {
        proof {
            assert(s@.subrange(a as int, b as int).drop_first() =~= s@.subrange(
                a as int + 1,
                b as int,
            ));
        }
        a = a + 1;
    }
    copy_range(s, a, b)
}

/// Whether the line is blank.
fn is_blank_line(l: &[char]) -> (r: bool)
    ensures
        r == is_blank(l@),
{
    let t = trim_chars(l);
    t.len() == 0
}

/// Whether the line is a frontmatter delimiter.
fn is_delim_line(l: &[char]) -> (r: bool)
    ensures
        r == is_delim(l@),
{
    let t = trim_chars(l);
    let d = to_chars("---");
    chars_eq(t.as_slice(), d.as_slice())
}

/// Joins the lines of `ls` from index `from` on with newlines.
fn join_lines_exec(ls: &Vec<Vec<char>>, from: usize) -> (r: Vec<char>)
    requires
        from <= ls@.len(),
    ensures
        r@ == join_lines(ls.deep_view().subrange(from as int, ls.deep_view().len() as int)),
{
    let ghost d = ls.deep_view();
    proof {
        assert(d.len() == ls@.len());
    }
    let mut r: Vec<char> = Vec::new();
    let mut j: usize = from;
    proof {
        assert(d.subrange(from as int, from as int) =~= Seq::<Seq<char>>::empty());
    }
    while j < ls.len()
        invariant
            from <= j <= ls@.len(),
            d == ls.deep_view(),
            d.len() == ls@.len(),
            r@ == join_lines(d.subrange(from as int, j as int)),
        decreases ls@.len() - j,
    {
        let ghost pre = d.subrange(from as int, j as int);
        if j > from {
            r.push('\n');
        }
        let line = &ls[j];
        let mut k: usize = 0;
        let ghost base = r@;
        while k < line.len()
            invariant
                k <= line@.len(),
                r@ == base + line@.subrange(0, k as int),
            decreases line@.len() - k,
        {
            r.push(line[k]);
            k = k + 1;
            assert(r@ =~= base + line@.subrange(0, k as int));
        }
        proof {
            lemma_vec_chars_deep(ls@[j as int]);
            assert(d[j as int] == ls@[j as int]@);
            assert(line@.subrange(0, line@.len() as int) =~= line@);
            lemma_join_push(pre, d[j as int]);
            assert(pre.push(d[j as int]) =~= d.subrange(from as int, j + 1));
            if pre.len() == 0 {
                assert(r@ =~= join_lines(pre) + line@);
                assert(join_lines(pre.push(d[j as int])) == d[j as int]);
            } else {
                assert(r@ =~= join_lines(pre) + seq!['\n'] + line@);
            }
        }
        j = j + 1;
    }
    proof {
        assert(d.subrange(from as int, d.len() as int) == d.subrange(from as int, j as int));
    }
    r
}

// ------------------------------------------------------------------
// Delimiter extraction.
// ------------------------------------------------------------------

pub open spec fn nonblank_pred() -> spec_fn(Seq<char>) -> bool {
    |l: Seq<char>| !is_blank(l)
}

pub open spec fn delim_pred() -> spec_fn(Seq<char>) -> bool {
    |l: Seq<char>| is_delim(l)
}

/// What extraction yields on a character sequence: the metadata lines
/// between the first pair of delimiter lines (the opening one being the
/// first non-blank line), and the body after the closing delimiter.
pub open spec fn extract_model(s: Seq<char>) -> Result<
    (Seq<Seq<char>>, Seq<char>),
    FrontmatterError,
> {
    let ls = split_lines(s);
    let o = find_first(ls, nonblank_pred());
    if o < 0 || !is_delim(ls[o]) {
        Err(FrontmatterError::MissingOpeningDelimiter)
    } else {
        let rest = ls.subrange(o + 1, ls.len() as int);
        let c = find_first(rest, delim_pred());
        if c < 0 {
            Err(FrontmatterError::MissingClosingDelimiter)
        } else {
            Ok((rest.subrange(0, c), join_lines(rest.subrange(c + 1, rest.len() as int))))
        }
    }
}

/// Splits a document into metadata lines and body.
fn extract_parts(chars: &[char]) -> (r: Result<(Vec<Vec<char>>, Vec<char>), FrontmatterError>)
    ensures
        r is Ok <==> extract_model(chars@) is Ok,
        r matches Ok(p) ==> (extract_model(chars@) matches Ok(q) && p.0.deep_view() == q.0
            && p.1@ == q.1),
        r matches Err(e) ==> extract_model(chars@) == Err::<(Seq<Seq<char>>, Seq<char>),
            FrontmatterError,
        >(e),
{
    let ls = split_chars(chars);
    let ghost d = ls.deep_view();
    let n = ls.len();
    proof {
        assert(d.len() == n);
    }
    // Find the first non-blank line.
    let mut o: usize = 0;
    loop
        invariant
            o <= n,
            n == ls@.len(),
            d == ls.deep_view(),
            d == split_lines(chars@),
            forall|j: int| 0 <= j < o ==> is_blank(d[j]),
        ensures
            o < n && !is_blank(d[o as int]) && find_first(d, nonblank_pred()) == o
                || o == n && find_first(d, nonblank_pred()) < 0,
        decreases n - o,
    {
        if o == n {
            proof {
                lemma_find_first_none(d, nonblank_pred());
            }
            break;
        }
        proof {
            lemma_vec_chars_deep(ls@[o as int]);
        }
        if !is_blank_line(ls[o].as_slice()) {
            proof {
                lemma_find_first_is(d, nonblank_pred(), o as int);
            }
            break;
        }
        o = o + 1;
    }
    if o == n {
        return Err(FrontmatterError::MissingOpeningDelimiter);
    }
    proof {
        lemma_vec_chars_deep(ls@[o as int]);
    }
    if !is_delim_line(ls[o].as_slice()) {
        return Err(FrontmatterError::MissingOpeningDelimiter);
    }
    let ghost rest = d.subrange(o + 1, d.len() as int);
    // Find the closing delimiter.
    let mut c: usize = o + 1;
    loop
        invariant
            o + 1 <= c <= n,
            n == ls@.len(),
            d == ls.deep_view(),
            d == split_lines(chars@),
            rest == d.subrange(o + 1, d.len() as int),
            forall|j: int| o + 1 <= j < c ==> !is_delim(d[j]),
        ensures
            c < n && is_delim(d[c as int]) && find_first(rest, delim_pred()) == c - (o + 1)
                || c == n && find_first(rest, delim_pred()) < 0,
        decreases n - c,
    {
        if c == n {
            proof {
                assert(forall|j: int| 0 <= j < rest.len() ==> rest[j] == d[j + o + 1]);
                lemma_find_first_none(rest, delim_pred());
            }
            break;
        }
        proof {
            lemma_vec_chars_deep(ls@[c as int]);
        }
        if is_delim_line(ls[c].as_slice()) {
            proof {
                assert(forall|j: int| 0 <= j < rest.len() ==> rest[j] == d[j + o + 1]);
                lemma_find_first_is(rest, delim_pred(), c - (o + 1));
            }
            break;
        }
        c = c + 1;
    }
    if c == n {
        return Err(FrontmatterError::MissingClosingDelimiter);
    }
    // Copy the metadata lines.
    let mut meta: Vec<Vec<char>> = Vec::new();
    let mut j: usize = o + 1;
    proof {
        assert(meta.deep_view() =~= d.subrange(o + 1, o + 1).subrange(
            0,
            0,
        ));
        assert(meta.deep_view() =~= rest.subrange(0, 0));
    }
    while j < c
        invariant
            o + 1 <= j <= c <= n,
            n == ls@.len(),
            d == ls.deep_view(),
            rest == d.subrange(o + 1, d.len() as int),
            meta.deep_view() == rest.subrange(0, j - (o + 1)),
        decreases c - j,
    {
        let ghost old_meta = meta;
        let line = copy_range(ls[j].as_slice(), 0, ls[j].len());
        let ghost line_vec = line;
        meta.push(line);
        proof {
            lemma_vec_chars_deep(ls@[j as int]);
            lemma_vec_chars_deep(line_vec);
            assert(line_vec@ =~= d[j as int]);
            assert(meta.deep_view() =~= old_meta.deep_view().push(d[j as int]));
            assert(old_meta.deep_view().push(d[j as int]) =~= rest.subrange(0, j + 1 - (o + 1)));
        }
        j = j + 1;
    }
    // Join the body lines after the closing delimiter.
    let body = join_lines_exec(&ls, c + 1);
    proof {
        assert(d.subrange(c + 1, d.len() as int) =~= rest.subrange(
            c + 1 - (o + 1),
            rest.len() as int,
        ));
        assert(meta.deep_view() == rest.subrange(0, c - (o + 1)));
    }
    Ok((meta, body))
}

// ------------------------------------------------------------------
// The metadata grammar.
// ------------------------------------------------------------------

/// A decoded metadata value: a scalar or a list of scalars.
pub enum MetaVal {
    Scalar(Seq<char>),
    List(Seq<Seq<char>>),
}

pub open spec fn scalar_val(v: MetaVal) -> Seq<char> {
    match v {
        MetaVal::Scalar(s) => s,
        MetaVal::List(_) => Seq::empty(),
    }
}

pub open spec fn list_items(v: MetaVal) -> Seq<Seq<char>> {
    match v {
        MetaVal::Scalar(_) => Seq::empty(),
        MetaVal::List(ls) => ls,
    }
}

/// Decoder state: the bindings so far, and the key of the list the decoder
/// is currently inside, if any.
pub struct MetaState {
    pub map: Map<Seq<char>, MetaVal>,
    pub open_list: Option<Seq<char>>,
}

pub open spec fn init_meta() -> MetaState {
    MetaState { map: Map::empty(), open_list: None }
}

/// One line of the grammar: blank lines are skipped, `- item` appends to the
/// open list, `key:` opens a list, `key: value` binds a scalar; anything
/// else, an item with no open list or an empty key is invalid.
pub open spec fn decode_step(st: MetaState, l: Seq<char>) -> Option<MetaState> {
    let t = trimmed(l);
    if t.len() == 0 {
        Some(st)
    } else if t.len() >= 2 && t[0] == '-' && t[1] == ' ' {
        match st.open_list {
            Some(key) => if st.map.contains_key(key) && st.map[key] is List {
                Some(
                    MetaState {
                        map: st.map.insert(
                            key,
                            MetaVal::List(
                                list_items(st.map[key]).push(trimmed(t.subrange(2, t.len() as int))),
                            ),
                        ),
                        open_list: st.open_list,
                    },
                )
            } else {
                None
            },
            None => None,
        }
    } else {
        let c = find_ch(t, ':');
        if c < 0 {
            None
        } else {
            let key = trimmed(t.subrange(0, c));
            let value = trimmed(t.subrange(c + 1, t.len() as int));
            if key.len() == 0 {
                None
            } else if value.len() == 0 {
                Some(
                    MetaState {
                        map: st.map.insert(key, MetaVal::List(Seq::empty())),
                        open_list: Some(key),
                    },
                )
            } else {
                Some(
                    MetaState {
                        map: st.map.insert(key, MetaVal::Scalar(value)),
                        open_list: None,
                    },
                )
            }
        }
    }
}

pub open spec fn decode_from(st: MetaState, ls: Seq<Seq<char>>) -> Option<MetaState>
    decreases ls.len(),
{
    if ls.len() == 0 {
        Some(st)
    } else {
        match decode_step(st, ls[0]) {
            None => None,
            Some(st2) => decode_from(st2, ls.drop_first()),
        }
    }
}

/// The bindings of a metadata block, or nothing when a line is invalid.
pub open spec fn decode_lines(ls: Seq<Seq<char>>) -> Option<Map<Seq<char>, MetaVal>> {
    match decode_from(init_meta(), ls) {
        None => None,
        Some(st) => Some(st.map),
    }
}

/// The recognized keys, by position: the five string fields, the three
/// reference lists, and the three layout coordinates.
pub open spec fn key_at(i: int) -> Seq<char> {
    if i == 0 {
        "title"@
    } else if i == 1 {
        "slug"@
    } else if i == 2 {
        "description"@
    } else if i == 3 {
        "banner_path"@
    } else if i == 4 {
        "icon"@
    } else if i == 5 {
        "tags"@
    } else if i == 6 {
        "posts"@
    } else if i == 7 {
        "projects"@
    } else if i == 8 {
        "x"@
    } else if i == 9 {
        "y"@
    } else {
        "z"@
    }
}

proof fn lemma_keys_distinct()
    ensures
        forall|i: int, j: int| 0 <= i < 11 && 0 <= j < 11 && i != j ==> key_at(i) != key_at(j),
{
    reveal_strlit("title");
    reveal_strlit("slug");
    reveal_strlit("description");
    reveal_strlit("banner_path");
    reveal_strlit("icon");
    reveal_strlit("tags");
    reveal_strlit("posts");
    reveal_strlit("projects");
    reveal_strlit("x");
    reveal_strlit("y");
    reveal_strlit("z");
    assert(key_at(0).len() == 5 && key_at(0)[0] == 't');
    assert(key_at(1).len() == 4 && key_at(1)[0] == 's');
    assert(key_at(2).len() == 11 && key_at(2)[0] == 'd');
    assert(key_at(3).len() == 11 && key_at(3)[0] == 'b');
    assert(key_at(4).len() == 4 && key_at(4)[0] == 'i');
    assert(key_at(5).len() == 4 && key_at(5)[0] == 't');
    assert(key_at(6).len() == 5 && key_at(6)[0] == 'p');
    assert(key_at(7).len() == 8 && key_at(7)[0] == 'p');
    assert(key_at(8).len() == 1 && key_at(8)[0] == 'x');
    assert(key_at(9).len() == 1 && key_at(9)[0] == 'y');
    assert(key_at(10).len() == 1 && key_at(10)[0] == 'z');
}

// ------------------------------------------------------------------
// Reading fields out of the bindings.
// ------------------------------------------------------------------

pub open spec fn upd_str(m: Map<Seq<char>, MetaVal>, key: Seq<char>, alt: Seq<char>) -> Seq<char> {
    if m.contains_key(key) && m[key] is Scalar {
        scalar_val(m[key])
    } else {
        alt
    }
}

pub open spec fn upd_list(
    m: Map<Seq<char>, MetaVal>,
    key: Seq<char>,
    alt: Seq<Seq<char>>,
) -> Seq<Seq<char>> {
    if m.contains_key(key) && m[key] is List {
        list_items(m[key])
    } else {
        alt
    }
}

pub open spec fn all_digits(s: Seq<char>) -> bool {
    forall|i: int| 0 <= i < s.len() ==> '0' <= s[i] && s[i] <= '9'
}

/// A plain decimal number: an optional minus sign, digits, and at most one
/// point with digits on both sides.
pub open spec fn is_decimal(s: Seq<char>) -> bool {
    let body = if s.len() > 0 && s[0] == '-' {
        s.drop_first()
    } else {
        s
    };
    let d = find_ch(body, '.');
    if d < 0 {
        body.len() > 0 && all_digits(body)
    } else {
        0 < d && d < body.len() - 1 && all_digits(body.subrange(0, d)) && all_digits(
            body.subrange(d + 1, body.len() as int),
        )
    }
}

/// A coordinate keeps its previous value unless a decimal scalar is bound.
pub open spec fn upd_num(m: Map<Seq<char>, MetaVal>, key: Seq<char>, alt: Seq<char>) -> Seq<char> {
    if m.contains_key(key) && m[key] is Scalar && is_decimal(scalar_val(m[key])) {
        scalar_val(m[key])
    } else {
        alt
    }
}

/// The document record after the bindings are applied: recognized keys
/// overwrite their fields, the body is stored verbatim, and the path, hash
/// and timestamps are untouched.
pub open spec fn populate_model(
    d: DocV,
    m: Map<Seq<char>, MetaVal>,
    body: Seq<char>,
) -> DocV {
    DocV {
        title: upd_str(m, "title"@, d.title),
        path: d.path,
        slug: upd_str(m, "slug"@, d.slug),
        description: upd_str(m, "description"@, d.description),
        content: body,
        banner_path: upd_str(m, "banner_path"@, d.banner_path),
        icon: upd_str(m, "icon"@, d.icon),
        created_at: d.created_at,
        updated_at: d.updated_at,
        tags: upd_list(m, "tags"@, d.tags),
        posts: upd_list(m, "posts"@, d.posts),
        projects: upd_list(m, "projects"@, d.projects),
        hash: d.hash,
        x: upd_num(m, "x"@, d.x),
        y: upd_num(m, "y"@, d.y),
        z: upd_num(m, "z"@, d.z),
    }
}

/// What processing a document's raw bytes yields: the updated record, or
/// the first failure encountered.
pub open spec fn process_markdown_model(d: DocV, content: Seq<u8>) -> Result<
    DocV,
    FrontmatterError,
> {
    if !valid_utf8(content) {
        Err(FrontmatterError::InvalidEncoding)
    } else {
        match extract_model(decode_utf8(content)) {
            Err(e) => Err(e),
            Ok(q) => match decode_lines(q.0) {
                None => Err(FrontmatterError::InvalidMetadata),
                Some(m) => Ok(populate_model(d, m, q.1)),
            },
        }
    }
}

// ------------------------------------------------------------------
// The executable decoder.
// ------------------------------------------------------------------

/// A decoded value held by the decoder.
enum MV {
    S(Vec<char>),
    L(Vec<Vec<char>>),
}

spec fn mv_view(mv: MV) -> MetaVal {
    match mv {
        MV::S(v) => MetaVal::Scalar(v@),
        MV::L(ls) => MetaVal::List(ls.deep_view()),
    }
}

/// Where items of the grammar currently land.
#[derive(Clone, Copy)]
enum OpenTag {
    Closed,
    KnownOpen(usize),
    OtherOpen,
}

/// The decoder's record of the recognized keys.
struct MetaAcc {
    title: Option<MV>,
    slug: Option<MV>,
    description: Option<MV>,
    banner_path: Option<MV>,
    icon: Option<MV>,
    tags: Option<MV>,
    posts: Option<MV>,
    projects: Option<MV>,
    x: Option<MV>,
    y: Option<MV>,
    z: Option<MV>,
    open_t: OpenTag,
}

spec fn field_of(a: MetaAcc, i: int) -> Option<MV> {
    if i == 0 {
        a.title
    } else if i == 1 {
        a.slug
    } else if i == 2 {
        a.description
    } else if i == 3 {
        a.banner_path
    } else if i == 4 {
        a.icon
    } else if i == 5 {
        a.tags
    } else if i == 6 {
        a.posts
    } else if i == 7 {
        a.projects
    } else if i == 8 {
        a.x
    } else if i == 9 {
        a.y
    } else {
        a.z
    }
}

spec fn view_opt(o: Option<MV>) -> Option<MetaVal> {
    match o {
        Option::None => Option::None,
        Option::Some(mv) => Option::Some(mv_view(mv)),
    }
}

/// The accumulator agrees with the decoder state at one key.
spec fn tracks(m: Map<Seq<char>, MetaVal>, key: Seq<char>, o: Option<MV>) -> bool {
    match view_opt(o) {
        Option::None => !m.contains_key(key),
        Option::Some(mv) => m.contains_key(key) && m[key] == mv,
    }
}

/// The accumulator agrees with the decoder state everywhere it matters.
spec fn acc_rel(a: MetaAcc, st: MetaState) -> bool {
    &&& forall|i: int| 0 <= i < 11 ==> #[trigger] tracks(st.map, key_at(i), field_of(a, i))
    &&& match a.open_t {
        OpenTag::Closed => st.open_list is None,
        OpenTag::KnownOpen(i) => i < 11 && st.open_list == Some(key_at(i as int)) && (field_of(
            a,
            i as int,
        ) matches Some(MV::L(_))),
        OpenTag::OtherOpen => st.open_list matches Some(k) && (forall|i: int|
            0 <= i < 11 ==> k != key_at(i)) && st.map.contains_key(k) && st.map[k] is List,
    }
}

fn key_index(key: &[char]) -> (r: Option<usize>)
    ensures
        r matches Some(i) ==> i < 11 && key@ == key_at(i as int),
        r is None ==> forall|i: int| 0 <= i < 11 ==> key@ != key_at(i),
{
    if chars_eq(key, to_chars("title").as_slice()) {
        Some(0)
    } else if chars_eq(key, to_chars("slug").as_slice()) {
        Some(1)
    } else if chars_eq(key, to_chars("description").as_slice()) {
        Some(2)
    } else if chars_eq(key, to_chars("banner_path").as_slice()) {
        Some(3)
    } else if chars_eq(key, to_chars("icon").as_slice()) {
        Some(4)
    } else if chars_eq(key, to_chars("tags").as_slice()) {
        Some(5)
    } else if chars_eq(key, to_chars("posts").as_slice()) {
        Some(6)
    } else if chars_eq(key, to_chars("projects").as_slice()) {
        Some(7)
    } else if chars_eq(key, to_chars("x").as_slice()) {
        Some(8)
    } else if chars_eq(key, to_chars("y").as_slice()) {
        Some(9)
    } else if chars_eq(key, to_chars("z").as_slice()) {
        Some(10)
    } else {
        None
    }
}

fn take_field(a: &mut MetaAcc, i: usize) -> (r: Option<MV>)
    requires
        i < 11,
    ensures
        r == field_of(*old(a), i as int),
        field_of(*final(a), i as int) is None,
        forall|j: int| 0 <= j < 11 && j != i ==> field_of(*final(a), j) == field_of(*old(a), j),
        final(a).open_t == old(a).open_t,
{
    match i {
        0 => a.title.take(),
        1 => a.slug.take(),
        2 => a.description.take(),
        3 => a.banner_path.take(),
        4 => a.icon.take(),
        5 => a.tags.take(),
        6 => a.posts.take(),
        7 => a.projects.take(),
        8 => a.x.take(),
        9 => a.y.take(),
        _ => a.z.take(),
    }
}

fn set_field(a: &mut MetaAcc, i: usize, v: MV)
    requires
        i < 11,
    ensures
        field_of(*final(a), i as int) == Some(v),
        forall|j: int| 0 <= j < 11 && j != i ==> field_of(*final(a), j) == field_of(*old(a), j),
        final(a).open_t == old(a).open_t,
{
    match i {
        0 => a.title = Some(v),
        1 => a.slug = Some(v),
        2 => a.description = Some(v),
        3 => a.banner_path = Some(v),
        4 => a.icon = Some(v),
        5 => a.tags = Some(v),
        6 => a.posts = Some(v),
        7 => a.projects = Some(v),
        8 => a.x = Some(v),
        9 => a.y = Some(v),
        _ => a.z = Some(v),
    }
}

/// Runs one grammar step, keeping the accumulator in sync with the ghost
/// decoder state.
fn decode_step_exec(a: &mut MetaAcc, line: &[char], Ghost(st): Ghost<MetaState>) -> (r: (
    bool,
    Ghost<MetaState>,
))
    requires
        acc_rel(*old(a), st),
    ensures
        ({
            let (ok, g) = r;
            match decode_step(st, line@) {
                Option::None => !ok,
                Option::Some(st2) => ok && g@ == st2 && acc_rel(*final(a), st2),
            }
        }),
{
    proof {
        lemma_keys_distinct();
    }
    let ghost a0 = *a;
    let t = trim_chars(line);
    if t.len() == 0 {
        return (true, Ghost(st));
    }
    if t.len() >= 2 && t[0] == '-' && t[1] == ' ' {
        let tail = copy_range(t.as_slice(), 2, t.len());
        let item = trim_chars(tail.as_slice());
        match a.open_t {
            OpenTag::Closed => (false, Ghost(st)),
            OpenTag::OtherOpen => {
                let ghost k = st.open_list->Some_0;
                let ghost st2 = MetaState {
                    map: st.map.insert(k, MetaVal::List(list_items(st.map[k]).push(item@))),
                    open_list: st.open_list,
                };
                proof {
                    assert forall|ii: int| 0 <= ii < 11 implies #[trigger] tracks(
                        st2.map,
                        key_at(ii),
                        field_of(*a, ii),
                    ) by {
                        assert(tracks(st.map, key_at(ii), field_of(a0, ii)));
                        assert(k != key_at(ii));
                    }
                }
                (true, Ghost(st2))
            },
            OpenTag::KnownOpen(i) => {
                let ghost k = key_at(i as int);
                proof {
                    assert(tracks(st.map, key_at(i as int), field_of(a0, i as int)));
                }
                let cur = take_field(a, i);
                match cur {
                    Some(MV::L(mut items)) => {
                        items.push(item);
                        let ghost items_snap = items;
                        set_field(a, i, MV::L(items));
                        let ghost st2 = MetaState {
                            map: st.map.insert(
                                k,
                                MetaVal::List(list_items(st.map[k]).push(item@)),
                            ),
                            open_list: st.open_list,
                        };
                        proof {
                            lemma_vec_chars_deep(item);
                            assert(items_snap.deep_view() =~= list_items(st.map[k]).push(item@));
                            assert(mv_view(MV::L(items_snap)) == MetaVal::List(
                                list_items(st.map[k]).push(item@),
                            ));
                            assert forall|ii: int| 0 <= ii < 11 implies #[trigger] tracks(
                                st2.map,
                                key_at(ii),
                                field_of(*a, ii),
                            ) by {
                                assert(tracks(st.map, key_at(ii), field_of(a0, ii)));
                                if ii != i as int {
                                    assert(key_at(ii) != k);
                                }
                            }
                        }
                        (true, Ghost(st2))
                    },
                    _ => {
                        proof {
                            assert(false);
                        }
                        (false, Ghost(st))
                    },
                }
            },
        }
    } else {
        match find_in(t.as_slice(), ':') {
            None => (false, Ghost(st)),
            Some(ci) => {
                let keypart = copy_range(t.as_slice(), 0, ci);
                let key = trim_chars(keypart.as_slice());
                let valpart = copy_range(t.as_slice(), ci + 1, t.len());
                let value = trim_chars(valpart.as_slice());
                if key.len() == 0 {
                    return (false, Ghost(st));
                }
                if value.len() == 0 {
                    let ghost st2 = MetaState {
                        map: st.map.insert(key@, MetaVal::List(Seq::empty())),
                        open_list: Some(key@),
                    };
                    match key_index(key.as_slice()) {
                        Some(i) => {
                            let empty_list: Vec<Vec<char>> = Vec::new();
                            proof {
                                assert(empty_list.deep_view() =~= Seq::<Seq<char>>::empty());
                            }
                            set_field(a, i, MV::L(empty_list));
                            a.open_t = OpenTag::KnownOpen(i);
                            proof {
                                assert forall|ii: int| 0 <= ii < 11 implies #[trigger] tracks(
                                    st2.map,
                                    key_at(ii),
                                    field_of(*a, ii),
                                ) by {
                                    assert(tracks(st.map, key_at(ii), field_of(a0, ii)));
                                }
                            }
                        },
                        None => {
                            a.open_t = OpenTag::OtherOpen;
                            proof {
                                assert forall|ii: int| 0 <= ii < 11 implies #[trigger] tracks(
                                    st2.map,
                                    key_at(ii),
                                    field_of(*a, ii),
                                ) by {
                                    assert(tracks(st.map, key_at(ii), field_of(a0, ii)));
                                    assert(key@ != key_at(ii));
                                }
                            }
                        },
                    }
                    (true, Ghost(st2))
                } else {
                    let ghost st2 = MetaState {
                        map: st.map.insert(key@, MetaVal::Scalar(value@)),
                        open_list: None,
                    };
                    match key_index(key.as_slice()) {
                        Some(i) => {
                            set_field(a, i, MV::S(value));
                            a.open_t = OpenTag::Closed;
                            proof {
                                assert forall|ii: int| 0 <= ii < 11 implies #[trigger] tracks(
                                    st2.map,
                                    key_at(ii),
                                    field_of(*a, ii),
                                ) by {
                                    assert(tracks(st.map, key_at(ii), field_of(a0, ii)));
                                }
                            }
                        },
                        None => {
                            a.open_t = OpenTag::Closed;
                            proof {
                                assert forall|ii: int| 0 <= ii < 11 implies #[trigger] tracks(
                                    st2.map,
                                    key_at(ii),
                                    field_of(*a, ii),
                                ) by {
                                    assert(tracks(st.map, key_at(ii), field_of(a0, ii)));
                                    assert(key@ != key_at(ii));
                                }
                            }
                        },
                    }
                    (true, Ghost(st2))
                }
            },
        }
    }
}

/// Decodes a metadata block, returning the accumulator and the final ghost
/// state when every line is valid.
fn decode_meta(meta: &Vec<Vec<char>>) -> (r: (Option<MetaAcc>, Ghost<MetaState>))
    ensures
        ({
            let (o, g) = r;
            match decode_from(init_meta(), meta.deep_view()) {
                Option::None => o is None,
                Option::Some(st) => o matches Some(acc) && g@ == st && acc_rel(acc, st),
            }
        }),
{
    let mut acc = MetaAcc {
        title: None,
        slug: None,
        description: None,
        banner_path: None,
        icon: None,
        tags: None,
        posts: None,
        projects: None,
        x: None,
        y: None,
        z: None,
        open_t: OpenTag::Closed,
    };
    let ghost mut st = init_meta();
    let ghost d = meta.deep_view();
    let mut i: usize = 0;
    proof {
        assert(d.subrange(0, d.len() as int) =~= d);
    }
    while i < meta.len()
        invariant
            i <= meta@.len(),
            d == meta.deep_view(),
            d.len() == meta@.len(),
            acc_rel(acc, st),
            decode_from(init_meta(), d) == decode_from(st, d.subrange(i as int, d.len() as int)),
        decreases meta@.len() - i,
    {
        let ghost rem = d.subrange(i as int, d.len() as int);
        proof {
            lemma_vec_chars_deep(meta@[i as int]);
            assert(rem[0] == meta@[i as int]@);
            assert(rem.drop_first() =~= d.subrange(i + 1, d.len() as int));
        }
        let (ok, g) = decode_step_exec(&mut acc, meta[i].as_slice(), Ghost(st));
        if !ok {
            return (None, Ghost(st));
        }
        proof {
            st = g@;
        }
        i = i + 1;
    }
    proof {
        assert(d.subrange(i as int, d.len() as int) =~= Seq::<Seq<char>>::empty());
    }
    (Some(acc), Ghost(st))
}

// ------------------------------------------------------------------
// Building the record.
// ------------------------------------------------------------------

fn digits_only(s: &[char]) -> (r: bool)
    ensures
        r == all_digits(s@),
{
    let mut i: usize = 0;
    while i < s.len()
        invariant
            i <= s@.len(),
            forall|j: int| 0 <= j < i ==> '0' <= s@[j] && s@[j] <= '9',
        decreases s@.len() - i,
    {
        if !(s[i] >= '0' && s[i] <= '9') {
            return false;
        }
        i = i + 1;
    }
    true
}

fn is_decimal_chars(s: &[char]) -> (r: bool)
    ensures
        r == is_decimal(s@),
{
    let start: usize = if s.len() > 0 && s[0] == '-' {
        1
    } else {
        0
    };
    let body = copy_range(s, start, s.len());
    proof {
        if start == 1 {
            assert(body@ =~= s@.drop_first());
        } else {
            assert(body@ =~= s@);
        }
    }
    match find_in(body.as_slice(), '.') {
        None => {
            if body.len() == 0 {
                return false;
            }
            digits_only(body.as_slice())
        },
        Some(dp) => {
            if dp == 0 || dp + 1 >= body.len() {
                return false;
            }
            let whole = copy_range(body.as_slice(), 0, dp);
            let frac = copy_range(body.as_slice(), dp + 1, body.len());
            digits_only(whole.as_slice()) && digits_only(frac.as_slice())
        },
    }
}

fn strings_of(v: &Vec<Vec<char>>) -> (r: Vec<String>)
    ensures
        r.deep_view() == v.deep_view(),
{
    let mut r: Vec<String> = Vec::new();
    let mut i: usize = 0;
    while i < v.len()
        invariant
            i <= v@.len(),
            r@.len() == i,
            forall|j: int| 0 <= j < i ==> r@[j]@ == v@[j]@,
        decreases v@.len() - i,
    {
        r.push(string_of(v[i].as_slice()));
        i = i + 1;
    }
    proof {
        assert forall|j: int| 0 <= j < r@.len() implies r.deep_view()[j] == v.deep_view()[j] by {
            lemma_vec_chars_deep(v@[j]);
            assert(r@[j]@ == v@[j]@);
        }
        assert(r.deep_view() =~= v.deep_view());
    }
    r
}

fn scalar_or(field: &Option<MV>, alt: &String) -> (r: String)
    ensures
        ({
            match view_opt(*field) {
                Option::Some(MetaVal::Scalar(v)) => r@ == v,
                _ => r@ == alt@,
            }
        }),
{
    match field {
        Option::Some(MV::S(cs)) => string_of(cs.as_slice()),
        _ => alt.clone(),
    }
}

fn list_or(field: &Option<MV>, alt: &Vec<String>) -> (r: Vec<String>)
    ensures
        ({
            match view_opt(*field) {
                Option::Some(MetaVal::List(ls)) => r.deep_view() == ls,
                _ => r.deep_view() == alt.deep_view(),
            }
        }),
{
    match field {
        Option::Some(MV::L(ls)) => strings_of(ls),
        _ => copy_strings(alt),
    }
}

fn num_or(field: &Option<MV>, alt: &String) -> (r: String)
    ensures
        ({
            match view_opt(*field) {
                Option::Some(MetaVal::Scalar(v)) => r@ == (if is_decimal(v) {
                    v
                } else {
                    alt@
                }),
                _ => r@ == alt@,
            }
        }),
{
    match field {
        Option::Some(MV::S(cs)) => {
            if is_decimal_chars(cs.as_slice()) {
                string_of(cs.as_slice())
            } else {
                alt.clone()
            }
        },
        _ => alt.clone(),
    }
}

/// Process markdown content with frontmatter: on success every recognized
/// metadata key is applied to the record and the body is stored verbatim;
/// on failure the record is untouched.
pub fn process_markdown(content: &[u8], doc: &mut Doc) -> (r: Result<(), FrontmatterError>)
    ensures
        r is Ok <==> process_markdown_model(old(doc)@, content@) is Ok,
        r is Ok ==> (process_markdown_model(old(doc)@, content@) matches Ok(dv) && final(doc)@
            == dv),
        r matches Err(e) ==> process_markdown_model(old(doc)@, content@) == Err::<
            DocV,
            FrontmatterError,
        >(e) && *final(doc) == *old(doc),
{
    let s = match bytes_to_str(content) {
        Some(s) => s,
        None => {
            return Err(FrontmatterError::InvalidEncoding);
        },
    };
    let chars = to_chars(s);
    let (meta, body) = match extract_parts(chars.as_slice()) {
        Ok(p) => p,
        Err(e) => {
            return Err(e);
        },
    };
    let (acc, g) = decode_meta(&meta);
    let acc = match acc {
        Some(a) => a,
        None => {
            return Err(FrontmatterError::InvalidMetadata);
        },
    };
    let ghost m = g@.map;
    proof {
        lemma_keys_distinct();
    }
    let new_title = scalar_or(&acc.title, &doc.title);
    let new_slug = scalar_or(&acc.slug, &doc.slug);
    let new_description = scalar_or(&acc.description, &doc.description);
    let new_banner = scalar_or(&acc.banner_path, &doc.banner_path);
    let new_icon = scalar_or(&acc.icon, &doc.icon);
    let new_tags = list_or(&acc.tags, &doc.tags);
    let new_posts = list_or(&acc.posts, &doc.posts);
    let new_projects = list_or(&acc.projects, &doc.projects);
    let new_x = num_or(&acc.x, &doc.x);
    let new_y = num_or(&acc.y, &doc.y);
    let new_z = num_or(&acc.z, &doc.z);
    let new_content = string_of(body.as_slice());
    doc.title = new_title;
    doc.slug = new_slug;
    doc.description = new_description;
    doc.banner_path = new_banner;
    doc.icon = new_icon;
    doc.tags = new_tags;
    doc.posts = new_posts;
    doc.projects = new_projects;
    doc.x = new_x;
    doc.y = new_y;
    doc.z = new_z;
    doc.content = new_content;
    proof {
        let dv = populate_model(old(doc)@, m, body@);
        assert(tracks(m, key_at(0), field_of(acc, 0)));
        assert(tracks(m, key_at(1), field_of(acc, 1)));
        assert(tracks(m, key_at(2), field_of(acc, 2)));
        assert(tracks(m, key_at(3), field_of(acc, 3)));
        assert(tracks(m, key_at(4), field_of(acc, 4)));
        assert(tracks(m, key_at(5), field_of(acc, 5)));
        assert(tracks(m, key_at(6), field_of(acc, 6)));
        assert(tracks(m, key_at(7), field_of(acc, 7)));
        assert(tracks(m, key_at(8), field_of(acc, 8)));
        assert(tracks(m, key_at(9), field_of(acc, 9)));
        assert(tracks(m, key_at(10), field_of(acc, 10)));
        assert(doc@.title == dv.title);
        assert(doc@.slug == dv.slug);
        assert(doc@.description == dv.description);
        assert(doc@.banner_path == dv.banner_path);
        assert(doc@.icon == dv.icon);
        assert(doc@.tags == dv.tags);
        assert(doc@.posts == dv.posts);
        assert(doc@.projects == dv.projects);
        assert(doc@.x == dv.x);
        assert(doc@.y == dv.y);
        assert(doc@.z == dv.z);
        assert(doc@.content == dv.content);
        assert(doc@ == dv);
    }
    Ok(())
}

/// Extract frontmatter and content from a document: the metadata block as
/// one newline-joined string, and the verbatim body.
pub fn extract_frontmatter(content: &str) -> (r: Result<(String, String), FrontmatterError>)
    ensures
        r is Ok <==> extract_model(content@) is Ok,
        r matches Ok(p) ==> (extract_model(content@) matches Ok(q) && p.0@ == join_lines(q.0)
            && p.1@ == q.1),
        r matches Err(e) ==> extract_model(content@) == Err::<(Seq<Seq<char>>, Seq<char>),
            FrontmatterError,
        >(e),
{
    let chars = to_chars(content);
    match extract_parts(chars.as_slice()) {
        Ok((meta, body)) => {
            let joined = join_lines_exec(&meta, 0);
            proof {
                assert(meta.deep_view().subrange(0, meta.deep_view().len() as int)
                    =~= meta.deep_view());
            }
            Ok((string_of(joined.as_slice()), string_of(body.as_slice())))
        },
        Err(e) => Err(e),
    }
}

} // verus!
