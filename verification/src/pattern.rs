//! Regular expressions, compiled once and then used to split a text or to
//! pick a group out of the first match.

use vstd::prelude::*;

use crate::config::opt_view;
use crate::text::views;

verus! {

#[verifier::external_type_specification]
#[verifier::external_body]
pub struct ExRegex(regex::Regex);

/// Whether `regex::Regex::new` accepts `source`.
pub uninterp spec fn regex_valid(source: Seq<char>) -> bool;

/// The pieces of `text` between the matches of the expression `source`, as
/// `regex::Regex::split` yields them.
pub uninterp spec fn regex_split(source: Seq<char>, text: Seq<char>) -> Seq<Seq<char>>;

/// The text of group `group` in the leftmost match of `source` in `text`, as
/// `regex::Regex::captures` and `regex::Captures::get` give it; none when
/// there is no match or the group took no part in it.
pub uninterp spec fn regex_capture(source: Seq<char>, text: Seq<char>, group: usize) -> Option<
    Seq<char>,
>;

/// The text `regex::Regex::replace` makes of `text` by replacing the
/// leftmost match of `source` with `rep` (taken as a replacement template).
pub uninterp spec fn regex_replace(source: Seq<char>, text: Seq<char>, rep: Seq<char>) -> Seq<char>;

#[verifier::external_type_specification]
#[verifier::external_body]
pub struct ExGlobPattern(glob::Pattern);

/// Whether `glob::Pattern::new` accepts `source`.
pub uninterp spec fn glob_valid(source: Seq<char>) -> bool;

/// Whether the shell pattern `source` matches the path `path`, as
/// `glob::Pattern::matches_path` decides.
pub uninterp spec fn glob_matches(source: Seq<char>, path: Seq<char>) -> bool;

/// A compiled shell pattern together with its source text. The fields are
/// private and `Glob::new` is the only constructor, which compiles `pat`
/// from `source`: `pat` is always the compiled form of `source`, and the
/// wrappers below state their results over `source` on that ground. The
/// part of this that Verus can check is the type invariant: `source` is a
/// valid pattern.
pub struct Glob {
    source: String,
    pat: glob::Pattern,
}

/// `glob::Pattern::new`: compiles a shell pattern.
#[verifier::external_body]
fn compile_glob(source: &str) -> (r: Option<glob::Pattern>)
    ensures
        r is Some <==> glob_valid(source@),
{
    match glob::Pattern::new(source) {
        Ok(p) => Some(p),
        Err(_) => None,
    }
}

/// `glob::Pattern::matches_path`.
#[verifier::external_body]
fn glob_matches_path(g: &Glob, path: &str) -> (r: bool)
    ensures
        r == glob_matches(g.source@, path@),
{
    g.pat.matches_path(std::path::Path::new(path))
}

impl Glob {
    /// `source` is a pattern that `glob::Pattern::new` accepts.
    #[verifier::type_invariant]
    spec fn compiled_from_valid_source(&self) -> bool {
        glob_valid(self.source@)
    }

    /// The source text of the pattern.
    pub closed spec fn source(&self) -> Seq<char> {
        self.source@
    }

    /// Compiles `source`; none when it is not a valid pattern.
    pub fn new(source: &str) -> (r: Option<Glob>)
        ensures
            r is Some <==> glob_valid(source@),
            r matches Some(g) ==> g.source() == source@,
    {
        match compile_glob(source) {
            Some(pat) => Some(Glob { source: String::from_str(source), pat }),
            None => None,
        }
    }

    /// Whether the pattern matches `path`.
    pub fn matches_path(&self, path: &str) -> (r: bool)
        ensures
            r == glob_matches(self.source(), path@),
            glob_valid(self.source()),
    {
        proof {
            use_type_invariant(self);
        }
        glob_matches_path(self, path)
    }
}

/// A compiled regular expression together with its source text. The
/// fields are private and `RegexMatcher::new` is the only constructor,
/// which compiles `re` from `source`: `re` is always the compiled form of
/// `source`, and the wrappers below state their results over `source` on
/// that ground. The part of this that Verus can check is the type
/// invariant: `source` is an expression that compiles.
pub struct RegexMatcher {
    source: String,
    re: regex::Regex,
}

/// `regex::Regex::new`: compiles `source`; it fails on a pattern that is not
/// valid or would exceed the default size limit.
#[verifier::external_body]
fn compile(source: &str) -> (r: Option<regex::Regex>)
    ensures
        r is Some <==> regex_valid(source@),
{
    match regex::Regex::new(source) {
        Ok(re) => Some(re),
        Err(_) => None,
    }
}

/// `regex::Regex::split`: the pieces of `text` between the matches.
#[verifier::external_body]
fn split_pieces(p: &RegexMatcher, text: &str) -> (r: Vec<String>)
    ensures
        views(r@) == regex_split(p.source@, text@),
{
    let mut v = Vec::new();
    for piece in p.re.split(text) {
        v.push(piece.to_string());
    }
    v
}

/// `regex::Regex::captures` followed by `regex::Captures::get`: the text of
/// one group of the leftmost match.
#[verifier::external_body]
fn captured(p: &RegexMatcher, text: &str, group: usize) -> (r: Option<String>)
    ensures
        opt_view(r) == regex_capture(p.source@, text@, group),
{
    match p.re.captures(text) {
        Some(caps) => match caps.get(group) {
            Some(m) => Some(m.as_str().to_string()),
            None => None,
        },
        None => None,
    }
}

/// `regex::Regex::replace`: the leftmost match replaced.
#[verifier::external_body]
fn replaced(p: &RegexMatcher, text: &str, rep: &str) -> (r: String)
    ensures
        r@ == regex_replace(p.source@, text@, rep@),
{
    p.re.replace(text, rep).into_owned()
}

impl RegexMatcher {
    /// `source` is an expression that `regex::Regex::new` accepts.
    #[verifier::type_invariant]
    spec fn compiled_from_valid_source(&self) -> bool {
        regex_valid(self.source@)
    }

    /// The source text the expression was compiled from.
    pub closed spec fn source(&self) -> Seq<char> {
        self.source@
    }

    /// Compiles `source`; none when the expression is refused.
    pub fn new(source: &str) -> (r: Option<RegexMatcher>)
        ensures
            r is Some <==> regex_valid(source@),
            r matches Some(p) ==> p.source() == source@,
    {
        match compile(source) {
            Some(re) => Some(RegexMatcher { source: String::from_str(source), re }),
            None => None,
        }
    }

    /// The pieces of `text` between the matches.
    pub fn split(&self, text: &str) -> (r: Vec<String>)
        ensures
            views(r@) == regex_split(self.source(), text@),
            regex_valid(self.source()),
    {
        proof {
            use_type_invariant(self);
        }
        split_pieces(self, text)
    }

    /// `text` with the leftmost match replaced by `rep`.
    pub fn replace_first(&self, text: &str, rep: &str) -> (r: String)
        ensures
            r@ == regex_replace(self.source(), text@, rep@),
            regex_valid(self.source()),
    {
        proof {
            use_type_invariant(self);
        }
        replaced(self, text, rep)
    }

    /// The text of group `group` in the leftmost match in `text`.
    pub fn capture(&self, text: &str, group: usize) -> (r: Option<String>)
        ensures
            opt_view(r) == regex_capture(self.source(), text@, group),
            regex_valid(self.source()),
    {
        proof {
            use_type_invariant(self);
        }
        captured(self, text, group)
    }
}

} // verus!
