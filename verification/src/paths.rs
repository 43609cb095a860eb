//! Path classification: deciding whether a vault file is a document or a
//! media asset, and deriving its slug and page path from its location under
//! the vault's container directories.

use vstd::prelude::*;
use vstd::string::*;

use crate::text::{
    chars_eq, copy_range, find_ch, lemma_find_ch_absent, lemma_find_ch_is, starts_with, string_of,
    to_chars,
};

verus! {

/// A path that matches no recognized vault prefix cannot be addressed.
#[derive(Debug, Clone, Copy, PartialEq, Eq, Structural)]
pub enum PathError {
    InvalidPath,
}

/// What a scanned file is to the pipeline.
#[derive(Debug, Clone, Copy, PartialEq, Eq, Structural)]
pub enum FileClass {
    Document,
    MediaAsset,
    Ignored,
}

/// The suffix of `s` after a prefix of length `n`.
pub open spec fn strip_n(s: Seq<char>, n: int) -> Seq<char> {
    s.subrange(n, s.len() as int)
}

/// The remainder of a path after its container-directory prefix
/// (posts/, projects/, tags/ or assets/), if it has one.
pub open spec fn pathify_model(s: Seq<char>) -> Option<Seq<char>> {
    if starts_with(s, "posts/"@) {
        Some(strip_n(s, "posts/"@.len() as int))
    } else if starts_with(s, "projects/"@) {
        Some(strip_n(s, "projects/"@.len() as int))
    } else if starts_with(s, "tags/"@) {
        Some(strip_n(s, "tags/"@.len() as int))
    } else if starts_with(s, "assets/"@) {
        Some(strip_n(s, "assets/"@.len() as int))
    } else {
        None
    }
}

pub open spec fn is_path_sep(c: char) -> bool {
    c == '/' || c == '\\'
}

/// `s` with every trailing path separator removed.
pub open spec fn trim_end_seps(s: Seq<char>) -> Seq<char>
    decreases s.len(),
{
    if s.len() > 0 && is_path_sep(s.last()) {
        trim_end_seps(s.drop_last())
    } else {
        s
    }
}

/// The part of `s` before its first dot (all of `s` when it has none).
pub open spec fn before_dot(s: Seq<char>) -> Seq<char> {
    let i = find_ch(s, '.');
    if i < 0 {
        s
    } else {
        s.subrange(0, i)
    }
}

/// The slug of a path: an asset keeps its whole path below assets/, a
/// document drops its container prefix, trailing separators and extension.
pub open spec fn slug_model(s: Seq<char>) -> Option<Seq<char>> {
    if starts_with(s, "assets/"@) {
        Some(strip_n(s, "assets/"@.len() as int))
    } else {
        match pathify_model(s) {
            Some(p) => Some(before_dot(trim_end_seps(p))),
            None => None,
        }
    }
}

/// Index of the last occurrence of `c` in `s`, or -1 when absent.
pub open spec fn rfind_ch(s: Seq<char>, c: char) -> int
    decreases s.len(),
{
    if s.len() == 0 {
        -1
    } else if s.last() == c {
        s.len() - 1
    } else {
        rfind_ch(s.drop_last(), c)
    }
}

proof fn lemma_rfind_ch_bounds(s: Seq<char>, c: char)
    ensures
        rfind_ch(s, c) >= 0 ==> rfind_ch(s, c) < s.len() && s[rfind_ch(s, c)] == c,
        rfind_ch(s, c) >= 0 ==> forall|i: int| rfind_ch(s, c) < i < s.len() ==> s[i] != c,
        rfind_ch(s, c) < 0 ==> forall|i: int| 0 <= i < s.len() ==> s[i] != c,
    decreases s.len(),
{
    if s.len() > 0 && s.last() != c {
        lemma_rfind_ch_bounds(s.drop_last(), c);
        assert(forall|i: int| 0 <= i < s.len() - 1 ==> s[i] == s.drop_last()[i]);
    }
}

proof fn lemma_rfind_ch_is(s: Seq<char>, c: char, j: int)
    requires
        0 <= j < s.len(),
        s[j] == c,
        forall|i: int| j < i < s.len() ==> s[i] != c,
    ensures
        rfind_ch(s, c) == j,
{
    lemma_rfind_ch_bounds(s, c);
}

/// The final path component of `s` (after the last '/').
pub open spec fn file_component(s: Seq<char>) -> Seq<char> {
    let i = rfind_ch(s, '/');
    if i < 0 {
        s
    } else {
        strip_n(s, i + 1)
    }
}

/// The extension of the final component: the part after its last dot,
/// unless that dot is absent or begins the component.
pub open spec fn extension_model(s: Seq<char>) -> Option<Seq<char>> {
    let comp = file_component(s);
    let d = rfind_ch(comp, '.');
    if d <= 0 {
        None
    } else {
        Some(strip_n(comp, d + 1))
    }
}

/// The fixed allow-list of media extensions.
pub open spec fn is_media_extension(e: Seq<char>) -> bool {
    ||| e == "jpg"@
    ||| e == "jpeg"@
    ||| e == "png"@
    ||| e == "gif"@
    ||| e == "webp"@
    ||| e == "avif"@
    ||| e == "tiff"@
    ||| e == "svg"@
    ||| e == "pdf"@
}

pub open spec fn is_media_path(s: Seq<char>) -> bool {
    match extension_model(s) {
        Some(e) => is_media_extension(e),
        None => false,
    }
}

pub open spec fn is_document_path(s: Seq<char>) -> bool {
    s.len() >= 3 && s.subrange(s.len() - 3, s.len() as int) == ".md"@
}

/// Strips `p` from the front of `s` when it is a prefix.
fn strip_prefix_chars(s: &[char], p: &[char]) -> (r: Option<Vec<char>>)
    ensures
        r is Some <==> starts_with(s@, p@),
        r matches Some(v) ==> v@ == strip_n(s@, p@.len() as int),
{
    if p.len() > s.len() {
        proof {
            assert(!starts_with(s@, p@));
        }
        return None;
    }
    let mut i: usize = 0;
    while i < p.len()
        invariant
            p@.len() <= s@.len(),
            i <= p@.len(),
            forall|j: int| 0 <= j < i ==> s@[j] == p@[j],
        decreases p@.len() - i,
    {
        if s[i] != p[i] {
            proof {
                assert(s@.subrange(0, p@.len() as int)[i as int] != p@[i as int]);
            }
            return None;
        }
        i = i + 1;
    }
    proof {
        assert(s@.subrange(0, p@.len() as int) =~= p@);
    }
    let mut v: Vec<char> = Vec::new();
    let mut k: usize = p.len();
    while k < s.len()
        invariant
            p@.len() <= k <= s@.len(),
            v@ == s@.subrange(p@.len() as int, k as int),
        decreases s@.len() - k,
    {
        v.push(s[k]);
        k = k + 1;
        assert(v@ =~= s@.subrange(p@.len() as int, k as int));
    }
    Some(v)
}

/// Pathify returns the path to the document or media asset page, stripping
/// the recognized container prefix; a path under none of them is invalid.
pub fn pathify(path: &str) -> (r: Result<String, PathError>)
    ensures
        r is Ok <==> pathify_model(path@) is Some,
        r matches Ok(s) ==> Some(s@) == pathify_model(path@),
{
    let chars = to_chars(path);
    let posts = to_chars("posts/");
    let projects = to_chars("projects/");
    let tags = to_chars("tags/");
    let assets = to_chars("assets/");
    if let Some(v) = strip_prefix_chars(chars.as_slice(), posts.as_slice()) {
        return Ok(string_of(v.as_slice()));
    }
    if let Some(v) = strip_prefix_chars(chars.as_slice(), projects.as_slice()) {
        return Ok(string_of(v.as_slice()));
    }
    if let Some(v) = strip_prefix_chars(chars.as_slice(), tags.as_slice()) {
        return Ok(string_of(v.as_slice()));
    }
    if let Some(v) = strip_prefix_chars(chars.as_slice(), assets.as_slice()) {
        return Ok(string_of(v.as_slice()));
    }
    Err(PathError::InvalidPath)
}

/// Slugify returns the slugified path of a document or media asset: the
/// identity key used for upserts and cross-references.
pub fn slugify(path: &str) -> (r: Result<String, PathError>)
    ensures
        r is Ok <==> slug_model(path@) is Some,
        r matches Ok(s) ==> Some(s@) == slug_model(path@),
{
    let chars = to_chars(path);
    let assets = to_chars("assets/");
    if let Some(v) = strip_prefix_chars(chars.as_slice(), assets.as_slice()) {
        return Ok(string_of(v.as_slice()));
    }
    let mut v = match pathify(path) {
        Ok(s) => to_chars(s.as_str()),
        Err(e) => {
            return Err(e);
        },
    };
    while v.len() > 0 && (v[v.len() - 1] == '/' || v[v.len() - 1] == '\\')
        invariant
            trim_end_seps(v@) == trim_end_seps(pathify_model(chars@)->Some_0),
        decreases v@.len(),
    {
        let ghost prev = v@;
        v.pop();
        proof {
            assert(v@ =~= prev.drop_last());
        }
    }
    proof {
        assert(trim_end_seps(v@) == v@);
        assert(v@ == trim_end_seps(pathify_model(chars@)->Some_0));
        assert(!starts_with(chars@, "assets/"@));
        assert(slug_model(chars@) == Some(before_dot(v@)));
    }
    let mut i: usize = 0;
    let n = v.len();
    while i < n
        invariant
            n == v@.len(),
            i <= n,
            forall|j: int| 0 <= j < i ==> v@[j] != '.',
            chars@ == path@,
            slug_model(chars@) == Some(before_dot(v@)),
        decreases n - i,
    {
        if v[i] == '.' {
            proof {
                lemma_find_ch_is(v@, '.', i as int);
            }
            let mut out: Vec<char> = Vec::new();
            let mut k: usize = 0;
            while k < i
                invariant
                    k <= i,
                    i < v@.len(),
                    out@ == v@.subrange(0, k as int),
                decreases i - k,
            {
                out.push(v[k]);
                k = k + 1;
                assert(out@ =~= v@.subrange(0, k as int));
            }
            return Ok(string_of(out.as_slice()));
        }
        i = i + 1;
    }
    proof {
        lemma_find_ch_absent(v@, '.');
    }
    Ok(string_of(v.as_slice()))
}

/// Index of the last occurrence of `c`, if any.
fn rfind_in(s: &[char], c: char) -> (r: Option<usize>)
    ensures
        r matches Some(i) ==> i < s@.len() && rfind_ch(s@, c) == i,
        r is None ==> rfind_ch(s@, c) < 0,
{
    let mut i: usize = s.len();
    while i > 0
        invariant
            i <= s@.len(),
            forall|j: int| i <= j < s@.len() ==> s@[j] != c,
        decreases i,
    {
        i = i - 1;
        if s[i] == c {
            proof {
                lemma_rfind_ch_is(s@, c, i as int);
            }
            return Some(i);
        }
    }
    proof {
        lemma_rfind_ch_bounds(s@, c);
        if rfind_ch(s@, c) >= 0 {
            assert(s@[rfind_ch(s@, c)] == c);
        }
    }
    None
}

/// Whether the file extension marks a valid media type.
pub fn is_allowed_media_type(path: &str) -> (r: bool)
    ensures
        r == is_media_path(path@),
{
    let chars = to_chars(path);
    let n = chars.len();
    let comp_start: usize = match rfind_in(chars.as_slice(), '/') {
        Some(i) => i + 1,
        None => 0,
    };
    let comp = copy_range(chars.as_slice(), comp_start, n);
    proof {
        assert(file_component(chars@) =~= comp@);
    }
    match rfind_in(comp.as_slice(), '.') {
        None => false,
        Some(d) => {
            if d == 0 {
                return false;
            }
            let ext = copy_range(comp.as_slice(), d + 1, comp.len());
            proof {
                assert(extension_model(chars@) matches Some(e) && e =~= ext@);
            }
            is_media_ext(ext.as_slice())
        },
    }
}

/// Compares an extension against the allow-list.
fn is_media_ext(e: &[char]) -> (r: bool)
    ensures
        r == is_media_extension(e@),
{
    let jpg = to_chars("jpg");
    let jpeg = to_chars("jpeg");
    let png = to_chars("png");
    let gif = to_chars("gif");
    let webp = to_chars("webp");
    let avif = to_chars("avif");
    let tiff = to_chars("tiff");
    let svg = to_chars("svg");
    let pdf = to_chars("pdf");
    chars_eq(e, jpg.as_slice()) || chars_eq(e, jpeg.as_slice()) || chars_eq(e, png.as_slice())
        || chars_eq(e, gif.as_slice()) || chars_eq(e, webp.as_slice()) || chars_eq(
        e,
        avif.as_slice(),
    ) || chars_eq(e, tiff.as_slice()) || chars_eq(e, svg.as_slice()) || chars_eq(
        e,
        pdf.as_slice(),
    )
}

/// Whether the file extension marks a valid document type (a markdown file).
pub fn is_allowed_document_type(path: &str) -> (r: bool)
    ensures
        r == is_document_path(path@),
{
    let chars = to_chars(path);
    let n = chars.len();
    if n < 3 {
        return false;
    }
    proof {
        reveal_strlit(".md");
    }
    let r = chars[n - 3] == '.' && chars[n - 2] == 'm' && chars[n - 1] == 'd';
    proof {
        let tail = chars@.subrange(n - 3, n as int);
        assert(tail.len() == 3);
        assert(tail[0] == chars@[n - 3] && tail[1] == chars@[n - 2] && tail[2] == chars@[n - 1]);
        if r {
            assert(tail =~= ".md"@);
        } else {
            assert(tail != ".md"@);
        }
    }
    r
}

/// Whether the file is either a media type or a document type.
pub fn is_allowed_asset(path: &str) -> (r: bool)
    ensures
        r == (is_media_path(path@) || is_document_path(path@)),
{
    is_allowed_media_type(path) || is_allowed_document_type(path)
}

/// Classifies a scanned file the way the scanner does: media first, then
/// documents; everything else is ignored, never an error.
pub fn classify(path: &str) -> (r: FileClass)
    ensures
        is_media_path(path@) ==> r == FileClass::MediaAsset,
        !is_media_path(path@) && is_document_path(path@) ==> r == FileClass::Document,
        !is_media_path(path@) && !is_document_path(path@) ==> r == FileClass::Ignored,
{
    if is_allowed_media_type(path) {
        FileClass::MediaAsset
    } else if is_allowed_document_type(path) {
        FileClass::Document
    } else {
        FileClass::Ignored
    }
}

/// Which entity table a document belongs to, by its container directory.
#[derive(Debug, Clone, Copy, PartialEq, Eq, Structural)]
pub enum DocKind {
    Post,
    Project,
    Tag,
}

/// The entity kind of a document path, decided by its container prefix.
pub open spec fn doc_kind_model(s: Seq<char>) -> Option<DocKind> {
    if starts_with(s, "posts/"@) {
        Some(DocKind::Post)
    } else if starts_with(s, "projects/"@) {
        Some(DocKind::Project)
    } else if starts_with(s, "tags/"@) {
        Some(DocKind::Tag)
    } else {
        None
    }
}

/// Classifies a document path into its entity kind.
pub fn doc_kind(path: &str) -> (r: Option<DocKind>)
    ensures
        r == doc_kind_model(path@),
{
    let chars = to_chars(path);
    let posts = to_chars("posts/");
    let projects = to_chars("projects/");
    let tags = to_chars("tags/");
    if let Some(_v) = strip_prefix_chars(chars.as_slice(), posts.as_slice()) {
        return Some(DocKind::Post);
    }
    if let Some(_v) = strip_prefix_chars(chars.as_slice(), projects.as_slice()) {
        return Some(DocKind::Project);
    }
    if let Some(_v) = strip_prefix_chars(chars.as_slice(), tags.as_slice()) {
        return Some(DocKind::Tag);
    }
    None
}

/// What an outside MIME lookup returns for a path: a pure function of the
/// path's extension.
pub uninterp spec fn mime_of(path: Seq<char>) -> Option<Seq<char>>;

/// Relies on `mime_guess::from_path` followed by `MimeGuess::first_raw`: the
/// first guessed media type, a lookup of the path's extension in a fixed
/// table, so a function of the path alone.
#[verifier::external_body]
fn guess_mime(path: &str) -> (r: Option<&'static str>)
    ensures
        r is Some <==> mime_of(path@) is Some,
        r matches Some(m) ==> Some(m@) == mime_of(path@),
{
    mime_guess::from_path(path).first_raw()
}

/// The content type for a file based on its extension, with the generic
/// byte-stream type as fallback.
pub fn get_content_type(path: &str) -> (r: String)
    ensures
        mime_of(path@) matches Some(m) ==> r@ == m,
        mime_of(path@) is None ==> r@ == "application/octet-stream"@,
{
    match guess_mime(path) {
        Some(m) => String::from_str(m),
        None => String::from_str("application/octet-stream"),
    }
}

} // verus!
