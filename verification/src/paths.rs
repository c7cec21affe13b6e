//! Paths, held as strings: their parent, joining, stripping a prefix,
//! extension, and the hint files that stand beside generated files.
//!
//! The names below stand for what `std::path` computes on a Unix target,
//! where this crate runs (Debian): there `/` is the only separator and no
//! path has a drive prefix. On a Windows target std parses paths otherwise,
//! and the names would stand for other results.

use vstd::prelude::*;
use vstd::string::*;

use crate::config::opt_view;
use crate::text::{str_chars, string_of};

verus! {

/// The parent of `p` as `std::path::Path::parent` gives it.
pub uninterp spec fn path_parent(p: Seq<char>) -> Option<Seq<char>>;

/// `a` joined with `b` as `std::path::Path::join` gives it.
pub uninterp spec fn path_join(a: Seq<char>, b: Seq<char>) -> Seq<char>;

/// `p` without the leading components `base`, as
/// `std::path::Path::strip_prefix` gives it.
pub uninterp spec fn path_strip_prefix(p: Seq<char>, base: Seq<char>) -> Option<Seq<char>>;

/// The extension of `p` as `std::path::Path::extension` gives it.
pub uninterp spec fn path_extension(p: Seq<char>) -> Option<Seq<char>>;

/// The components of `p` as `std::path::Path::components` gives them.
pub uninterp spec fn path_components(p: Seq<char>) -> Seq<Seq<char>>;

/// The text `{:?}` makes of `p` as a `std::path::Path`.
pub uninterp spec fn path_debug(p: Seq<char>) -> Seq<char>;

/// `std::path::Path::parent`.
#[verifier::external_body]
pub(crate) fn parent(p: &str) -> (r: Option<String>)
    ensures
        opt_view(r) == path_parent(p@),
{
    std::path::Path::new(p).parent().map(|q| q.to_string_lossy().into_owned())
}

/// `std::path::Path::join`.
#[verifier::external_body]
pub(crate) fn join(a: &str, b: &str) -> (r: String)
    ensures
        r@ == path_join(a@, b@),
{
    std::path::Path::new(a).join(b).to_string_lossy().into_owned()
}

/// `std::path::Path::strip_prefix`.
#[verifier::external_body]
pub(crate) fn strip_prefix(p: &str, base: &str) -> (r: Option<String>)
    ensures
        opt_view(r) == path_strip_prefix(p@, base@),
{
    match std::path::Path::new(p).strip_prefix(base) {
        Ok(q) => Some(q.to_string_lossy().into_owned()),
        Err(_) => None,
    }
}

/// `std::path::Path::extension`.
#[verifier::external_body]
pub(crate) fn extension(p: &str) -> (r: Option<String>)
    ensures
        opt_view(r) == path_extension(p@),
{
    std::path::Path::new(p).extension().map(|e| e.to_string_lossy().into_owned())
}

/// `std::path::Path::components`.
#[verifier::external_body]
pub(crate) fn components(p: &str) -> (r: Vec<String>)
    ensures
        crate::text::views(r@) == path_components(p@),
{
    let mut v = Vec::new();
    for c in std::path::Path::new(p).components() {
        v.push(c.as_os_str().to_string_lossy().into_owned());
    }
    v
}

/// `{:?}` of a `std::path::Path`.
#[verifier::external_body]
pub(crate) fn debug_text(p: &str) -> (r: String)
    ensures
        r@ == path_debug(p@),
{
    format!("{:?}", std::path::Path::new(p))
}

/// The suffix of hint files.
pub const HINT_SUFFIX: &'static str = ".debcargo.hint";

/// The file a hint file stands beside: its path without the hint suffix.
pub open spec fn hint_partner(p: Seq<char>) -> Option<Seq<char>> {
    let n = HINT_SUFFIX@.len();
    if p.len() >= n && p.subrange(p.len() - n, p.len() as int) == HINT_SUFFIX@ {
        Some(p.subrange(0, p.len() - n))
    } else {
        None
    }
}

/// A file's hint file is the file's path with the hint suffix, and the file
/// is the partner of its hint file.
pub proof fn lemma_hint_partner_of_hint(p: Seq<char>)
    ensures
        hint_partner(p + HINT_SUFFIX@) == Some(p),
{
    let q = p + HINT_SUFFIX@;
    let n = HINT_SUFFIX@.len();
    assert(q.subrange(q.len() - n, q.len() as int) =~= HINT_SUFFIX@);
    assert(q.subrange(0, q.len() - n) =~= p);
}

/// The file a hint file stands beside, or none if `file` is no hint file.
pub fn hint_file_for(file: &str) -> (r: Option<String>)
    ensures
        opt_view(r) == hint_partner(file@),
{
    let cs = str_chars(file);
    let sx = str_chars(HINT_SUFFIX);
    if cs.len() < sx.len() {
        return None;
    }
    let n = cs.len();
    let start = n - sx.len();
    let mut k: usize = 0;
    while k < sx.len()
        invariant
            n == cs@.len(),
            cs@ == file@,
            sx@ == HINT_SUFFIX@,
            start + sx@.len() == cs@.len(),
            k <= sx@.len(),
            forall|j: int| 0 <= j < k ==> cs@[start + j] == sx@[j],
        decreases sx.len() - k,
    {
        if cs[start + k] != sx[k] {
            assert(cs@.subrange(start as int, cs@.len() as int)[k as int] != sx@[k as int]);
            return None;
        }
        k = k + 1;
    }
    assert(cs@.subrange(start as int, cs@.len() as int) =~= sx@);
    let mut out: Vec<char> = Vec::new();
    let mut i: usize = 0;
    while i < start
        invariant
            start <= cs@.len(),
            i <= start,
            out@ == cs@.subrange(0, i as int),
        decreases start - i,
    {
        out.push(cs[i]);
        i = i + 1;
    }
    Some(string_of(&out))
}

/// `path` relative to `base` when it lies under it, else as it is.
pub open spec fn relative_path(path: Seq<char>, base: Seq<char>) -> Seq<char> {
    match path_strip_prefix(path, base) {
        Some(q) => q,
        None => path,
    }
}

/// `path` relative to `base` when it lies under it, else as it is.
pub fn rel_p(path: &str, base: &str) -> (r: String)
    ensures
        r@ == relative_path(path@, base@),
{
    match strip_prefix(path, base) {
        Some(q) => q,
        None => String::from_str(path),
    }
}

/// `dir`'s parent joined with `sub`, when `dir` and `sub` are given and
/// `dir` has a parent.
pub open spec fn beside(dir: Option<Seq<char>>, sub: Option<Seq<char>>) -> Option<Seq<char>> {
    match dir {
        None => None,
        Some(d) => match path_parent(d) {
            None => None,
            Some(p) => match sub {
                None => None,
                Some(s) => Some(path_join(p, s)),
            },
        },
    }
}

/// `dir`'s parent joined with `sub`, when `dir` and `sub` are given and
/// `dir` has a parent.
pub fn path_beside(dir: Option<&str>, sub: Option<&str>) -> (r: Option<String>)
    ensures
        opt_view(r) == beside(
            match dir {
                Some(d) => Some(d@),
                None => None,
            },
            match sub {
                Some(s) => Some(s@),
                None => None,
            },
        ),
{
    match dir {
        None => None,
        Some(d) => match parent(d) {
            None => None,
            Some(p) => match sub {
                None => None,
                Some(s) => Some(join(p.as_str(), s)),
            },
        },
    }
}

/// Of the files that hold a FIXME, those to report: all but the hint
/// files whose partner exists and holds no FIXME. `partner_exists[i]`
/// tells whether the partner of `fixmes[i]` exists, for a hint file.
pub open spec fn reported_fixme(fixmes: Seq<Seq<char>>, f: Seq<char>, partner_exists: bool) -> bool {
    match hint_partner(f) {
        Some(p) => fixmes.contains(p) || !partner_exists,
        None => true,
    }
}

/// The first `n` files with a FIXME that are to be reported, in order.
pub open spec fn kept_fixmes(fixmes: Seq<Seq<char>>, partner_exists: Seq<bool>, n: int) -> Seq<Seq<char>>
    decreases n,
{
    if n <= 0 {
        Seq::empty()
    } else {
        let r = kept_fixmes(fixmes, partner_exists, n - 1);
        if reported_fixme(fixmes, fixmes[n - 1], partner_exists[n - 1]) {
            r.push(fixmes[n - 1])
        } else {
            r
        }
    }
}

/// The files with a FIXME to report, in order.
pub fn relevant_fixmes(fixmes: &Vec<String>, partner_exists: &Vec<bool>) -> (r: Vec<String>)
    requires
        partner_exists@.len() == fixmes@.len(),
    ensures
        crate::text::views(r@) == kept_fixmes(crate::text::views(fixmes@), partner_exists@, fixmes@.len() as int),
{
    let ghost fv = crate::text::views(fixmes@);
    let mut out: Vec<String> = Vec::new();
    let mut i: usize = 0;
    while i < fixmes.len()
        invariant
            i <= fixmes@.len(),
            partner_exists@.len() == fixmes@.len(),
            fv == crate::text::views(fixmes@),
            crate::text::views(out@) == kept_fixmes(fv, partner_exists@, i as int),
        decreases fixmes.len() - i,
    {
        let keep = match hint_file_for(fixmes[i].as_str()) {
            Some(p) => crate::text::contains_string(fixmes.as_slice(), p.as_str()) || !partner_exists[i],
            None => true,
        };
        if keep {
            let ghost prev = crate::text::views(out@);
            out.push(fixmes[i].clone());
            assert(crate::text::views(out@) =~= prev.push(fixmes@[i as int]@));
        }
        i = i + 1;
    }
    out
}

} // verus!
