//! The paragraphs of `debian/control` and `debian/tests/control`, and the
//! names of the packages they describe.

use vstd::prelude::*;
use vstd::string::*;

use crate::config::{opt_ref_vec, opt_vec_view, Config};
use crate::dependency::{ascii_dashed, dashed, dashed_spec};
use crate::config::{field_for_feature_spec, package_field_for_feature, PackageField, PackageKey};
use crate::text::{
    ascii_seq, is_ws, clone_strings, concat2, concat3, contains_str, contains_string, decimal, extend_strings, fill,
    filter_out, join_spec, join_strings, lines, lines_spec, prefixed, prefixed_spec, push_str,
    starts_with, starts_with_spec, str_eq, suffixed, suffixed_spec, textwrap_fill, to_strings,
    trim, trim_end, trim_end_spec, trim_spec, u64_to_string, views,
};
use vstd::utf8::encode_utf8;

verus! {

/// A semantic version, as the crate manifest gives it.
pub struct Version {
    pub major: u64,
    pub minor: u64,
    pub patch: u64,
    /// The pre-release part, such as `alpha.1`; empty if there is none.
    pub pre: String,
    /// The build metadata; empty if there is none.
    pub build: String,
}

/// The text of a version: `M.m.p`, then `-pre` and `+build` where present.
pub open spec fn version_spec(v: Version) -> Seq<char> {
    decimal(v.major as nat) + "."@ + decimal(v.minor as nat) + "."@ + decimal(v.patch as nat) + (
    if v.pre@.len() == 0 {
        Seq::empty()
    } else {
        "-"@ + v.pre@
    }) + (if v.build@.len() == 0 {
        Seq::empty()
    } else {
        "+"@ + v.build@
    })
}

/// `M.m.p`.
pub open spec fn mmp_text(major: u64, minor: u64, patch: u64) -> Seq<char> {
    decimal(major as nat) + "."@ + decimal(minor as nat) + "."@ + decimal(patch as nat)
}

/// `M.m.p`.
fn mmp_string(major: u64, minor: u64, patch: u64) -> (r: String)
    ensures
        r@ == mmp_text(major, minor, patch),
{
    let mut s = u64_to_string(major);
    push_str(&mut s, ".");
    push_str(&mut s, u64_to_string(minor).as_str());
    push_str(&mut s, ".");
    push_str(&mut s, u64_to_string(patch).as_str());
    s
}

impl Version {
    /// The text of the version, as semver writes it.
    pub fn to_string(&self) -> (r: String)
        ensures
            r@ == version_spec(*self),
    {
        let mut s = mmp_string(self.major, self.minor, self.patch);
        if !self.pre.as_str().is_empty() {
            push_str(&mut s, "-");
            push_str(&mut s, self.pre.as_str());
        }
        if !self.build.as_str().is_empty() {
            push_str(&mut s, "+");
            push_str(&mut s, self.build.as_str());
        }
        s
    }
}

/// The Debian upstream version of a crate version: build metadata is left
/// out, and a pre-release follows a `~` so that it sorts before the release.
pub open spec fn deb_upstream_version_spec(v: Version) -> Seq<char> {
    mmp_text(v.major, v.minor, v.patch) + (if v.pre@.len() == 0 {
        Seq::empty()
    } else {
        "~"@ + v.pre@
    })
}

/// Translates a crate version into a Debian upstream version.
pub fn deb_upstream_version(v: &Version) -> (r: String)
    ensures
        r@ == deb_upstream_version_spec(*v),
{
    let mut s = mmp_string(v.major, v.minor, v.patch);
    if !v.pre.as_str().is_empty() {
        push_str(&mut s, "~");
        push_str(&mut s, v.pre.as_str());
    }
    s
}

/// The name prefix of source packages.
pub open spec fn src_prefix() -> Seq<char> {
    "rust"@
}

/// The name prefix of library packages.
pub open spec fn lib_prefix() -> Seq<char> {
    "librust"@
}

/// `rust-<name>`.
pub open spec fn dsc_name_spec(name: Seq<char>) -> Seq<char> {
    src_prefix() + "-"@ + dashed_spec(name)
}

/// `librust-<name>-dev`.
pub open spec fn deb_name_spec(name: Seq<char>) -> Seq<char> {
    lib_prefix() + "-"@ + dashed_spec(name) + "-dev"@
}

/// `librust-<name>+<feature>-dev`.
pub open spec fn deb_feature_name_spec(name: Seq<char>, feature: Seq<char>) -> Seq<char> {
    lib_prefix() + "-"@ + dashed_spec(name) + "+"@ + dashed_spec(feature) + "-dev"@
}

/// The base of a Debian package name for a crate: `_` becomes `-`, then
/// lowercase. For an ASCII name this is the ASCII lowercase of the dashed
/// name, which `lemma_ascii_dashed` shows to be its own base name.
pub fn base_deb_name(crate_name: &str) -> (r: String)
    ensures
        r@ == dashed_spec(crate_name@),
        ascii_seq(crate_name@) ==> r@ == ascii_dashed(crate_name@),
{
    dashed(crate_name)
}

/// The name of the source package of a crate.
pub fn dsc_name(name: &str) -> (r: String)
    ensures
        r@ == dsc_name_spec(name@),
{
    let mut s = String::from_str(Source::pkg_prefix());
    push_str(&mut s, "-");
    push_str(&mut s, base_deb_name(name).as_str());
    s
}

/// The name of the library package of a crate.
pub fn deb_name(name: &str) -> (r: String)
    ensures
        r@ == deb_name_spec(name@),
{
    let mut s = String::from_str(Package::pkg_prefix());
    push_str(&mut s, "-");
    push_str(&mut s, base_deb_name(name).as_str());
    push_str(&mut s, "-dev");
    s
}

/// The name of the package of one feature of a crate.
pub fn deb_feature_name(name: &str, feature: &str) -> (r: String)
    ensures
        r@ == deb_feature_name_spec(name@, feature@),
{
    let mut s = String::from_str(Package::pkg_prefix());
    push_str(&mut s, "-");
    push_str(&mut s, base_deb_name(name).as_str());
    push_str(&mut s, "+");
    push_str(&mut s, base_deb_name(feature).as_str());
    push_str(&mut s, "-dev");
    s
}

/// The text of a package description: a prefix and a suffix.
pub struct Description {
    pub prefix: String,
    pub suffix: String,
}

impl Description {
    /// Applies the overrides of the summary or description: a per-package
    /// value replaces the whole text, else a global one replaces the prefix.
    pub fn apply_overrides(&mut self, global: &Option<String>, per_package: Option<&str>)
        ensures
            match per_package {
                Some(p) => final(self).prefix@ == p@ && final(self).suffix@.len() == 0,
                None => match global {
                    Some(g) => final(self).prefix@ == g@ && final(self).suffix == old(self).suffix,
                    None => *final(self) == *old(self),
                },
            },
    {
        if let Some(per_package) = per_package {
            self.prefix = String::from_str(per_package);
            self.suffix = String::new();
        } else if let Some(global) = global {
            self.prefix = global.clone();
        }
    }

    /// The text: the prefix followed by the suffix.
    pub fn to_string(&self) -> (r: String)
        ensures
            r@ == self.prefix@ + self.suffix@,
    {
        concat2(self.prefix.as_str(), self.suffix.as_str())
    }
}

/// One paragraph of `debian/tests/control`: a test of one feature package.
pub struct PkgTest {
    pub name: String,
    pub crate_name: String,
    pub feature: String,
    pub version: String,
    pub extra_test_args: Vec<String>,
    pub depends: Vec<String>,
    pub extra_restricts: Vec<String>,
}

/// The text of a test paragraph. Each line ends with its last value, so that
/// no line carries trailing whitespace when the values carry none.
pub open spec fn pkgtest_text(t: PkgTest) -> Seq<char> {
    "Test-Command: /usr/share/cargo/bin/cargo-auto-test "@ + t.crate_name@ + " "@ + t.version@
        + " --all-targets"@ + prefixed_spec(views(t.extra_test_args@), " "@) + "\n"@
        + "Features: test-name="@ + t.name@ + ":"@ + t.feature@ + "\n"@
        + "Depends: dh-cargo (>= 18), "@ + (if t.depends@.len() == 0 {
        "@"@
    } else {
        join_spec(views(t.depends@), ", "@) + ", @"@
    }) + "\n"@ + "Restrictions: allow-stderr, skip-not-installable"@ + (
    if t.extra_restricts@.len() == 0 {
        Seq::empty()
    } else {
        ", "@ + join_spec(views(t.extra_restricts@), ", "@)
    }) + "\n"@
}

impl PkgTest {
    /// A test of the package `name` (feature `feature`) of crate `crate_name`
    /// at `version`.
    pub fn new(
        name: &str,
        crate_name: &str,
        feature: &str,
        version: &str,
        extra_test_args: Vec<&str>,
        depends: &[String],
        extra_restricts: Vec<&str>,
    ) -> (r: Result<PkgTest, ()>)
        ensures
            r matches Ok(t) && t.name@ == name@ && t.crate_name@ == crate_name@ && t.feature@ == feature@
                && t.version@ == version@
                && views(t.extra_test_args@) == extra_test_args@.map_values(|s: &str| s@)
                && views(t.depends@) == views(depends@)
                && views(t.extra_restricts@) == extra_restricts@.map_values(|s: &str| s@),
    {
        Ok(PkgTest {
            name: String::from_str(name),
            crate_name: String::from_str(crate_name),
            feature: String::from_str(feature),
            version: String::from_str(version),
            extra_test_args: to_strings(&extra_test_args),
            depends: clone_strings(depends),
            extra_restricts: to_strings(&extra_restricts),
        })
    }

    /// The text of the paragraph.
    pub fn to_string(&self) -> (r: String)
        ensures
            r@ == pkgtest_text(*self),
    {
        let mut s = String::from_str("Test-Command: /usr/share/cargo/bin/cargo-auto-test ");
        push_str(&mut s, self.crate_name.as_str());
        push_str(&mut s, " ");
        push_str(&mut s, self.version.as_str());
        push_str(&mut s, " --all-targets");
        push_str(&mut s, prefixed(&self.extra_test_args, " ").as_str());
        push_str(&mut s, "\n");
        push_str(&mut s, "Features: test-name=");
        push_str(&mut s, self.name.as_str());
        push_str(&mut s, ":");
        push_str(&mut s, self.feature.as_str());
        push_str(&mut s, "\n");
        push_str(&mut s, "Depends: dh-cargo (>= 18), ");
        if self.depends.len() == 0 {
            push_str(&mut s, "@");
        } else {
            push_str(&mut s, join_strings(&self.depends, ", ").as_str());
            push_str(&mut s, ", @");
        }
        push_str(&mut s, "\n");
        push_str(&mut s, "Restrictions: allow-stderr, skip-not-installable");
        if self.extra_restricts.len() != 0 {
            push_str(&mut s, ", ");
            push_str(&mut s, join_strings(&self.extra_restricts, ", ").as_str());
        }
        push_str(&mut s, "\n");
        s
    }
}

/// `s` holds no line break.
pub open spec fn has_no_newline(s: Seq<char>) -> bool {
    forall|i: int| 0 <= i < s.len() ==> s[i] != '\n'
}

/// `s` is not empty and does not end in whitespace.
pub open spec fn ends_clean(s: Seq<char>) -> bool {
    s.len() > 0 && !is_ws(s.last())
}

/// No line of `s` ends in whitespace: every line break follows a character
/// that is not whitespace, or starts the text.
pub open spec fn lines_end_clean(s: Seq<char>) -> bool {
    forall|i: int| #![trigger s[i]] 0 < i < s.len() && s[i] == '\n' ==> !is_ws(s[i - 1])
}

proof fn lemma_clean_concat(a: Seq<char>, b: Seq<char>)
    requires
        lines_end_clean(a),
        lines_end_clean(b),
        b.len() > 0 && b[0] == '\n' ==> ends_clean(a),
    ensures
        lines_end_clean(a + b),
{
    let s = a + b;
    assert forall|i: int| #![trigger s[i]] 0 < i < s.len() && s[i] == '\n' implies !is_ws(s[i - 1]) by {
        if i < a.len() {
            assert(s[i] == a[i] && s[i - 1] == a[i - 1]);
        } else if i == a.len() {
            assert(s[i] == b[0]);
            assert(s[i - 1] == a.last());
        } else {
            assert(s[i] == b[i - a.len()]);
            assert(s[i - 1] == b[i - 1 - a.len()]);
        }
    }
}

proof fn lemma_no_newline_concat(a: Seq<char>, b: Seq<char>)
    requires
        has_no_newline(a),
        has_no_newline(b),
    ensures
        has_no_newline(a + b),
        ends_clean(b) ==> ends_clean(a + b),
{
    assert forall|i: int| 0 <= i < (a + b).len() implies (a + b)[i] != '\n' by {
        if i < a.len() {
            assert((a + b)[i] == a[i]);
        } else {
            assert((a + b)[i] == b[i - a.len()]);
        }
    }
    if b.len() > 0 {
        assert((a + b).last() == b.last());
    }
}

proof fn lemma_join_no_newline(parts: Seq<Seq<char>>, sep: Seq<char>)
    requires
        has_no_newline(sep),
        forall|k: int| 0 <= k < parts.len() ==> has_no_newline(#[trigger] parts[k]),
    ensures
        has_no_newline(join_spec(parts, sep)),
        parts.len() > 0 && ends_clean(parts.last()) ==> ends_clean(join_spec(parts, sep)),
    decreases parts.len(),
{
    if parts.len() > 1 {
        lemma_join_no_newline(parts.drop_last(), sep);
        lemma_no_newline_concat(join_spec(parts.drop_last(), sep), sep);
        lemma_no_newline_concat(join_spec(parts.drop_last(), sep) + sep, parts.last());
    }
}

proof fn lemma_prefixed_no_newline(parts: Seq<Seq<char>>, pre: Seq<char>)
    requires
        has_no_newline(pre),
        forall|k: int| 0 <= k < parts.len() ==> has_no_newline(#[trigger] parts[k]),
    ensures
        has_no_newline(prefixed_spec(parts, pre)),
        parts.len() > 0 && ends_clean(parts.last()) ==> ends_clean(prefixed_spec(parts, pre)),
    decreases parts.len(),
{
    if parts.len() > 0 {
        lemma_prefixed_no_newline(parts.drop_last(), pre);
        lemma_no_newline_concat(prefixed_spec(parts.drop_last(), pre), pre);
        lemma_no_newline_concat(prefixed_spec(parts.drop_last(), pre) + pre, parts.last());
    }
}

/// The first line of a test paragraph, without its line break.
pub open spec fn pkgtest_line1(t: PkgTest) -> Seq<char> {
    "Test-Command: /usr/share/cargo/bin/cargo-auto-test "@ + t.crate_name@ + " "@ + t.version@ + " --all-targets"@
        + prefixed_spec(views(t.extra_test_args@), " "@)
}

/// The second line of a test paragraph, without its line break.
pub open spec fn pkgtest_line2(t: PkgTest) -> Seq<char> {
    "Features: test-name="@ + t.name@ + ":"@ + t.feature@
}

/// The third line of a test paragraph, without its line break.
pub open spec fn pkgtest_line3(t: PkgTest) -> Seq<char> {
    "Depends: dh-cargo (>= 18), "@ + (if t.depends@.len() == 0 {
        "@"@
    } else {
        join_spec(views(t.depends@), ", "@) + ", @"@
    })
}

/// The fourth line of a test paragraph, without its line break.
pub open spec fn pkgtest_line4(t: PkgTest) -> Seq<char> {
    "Restrictions: allow-stderr, skip-not-installable"@ + (if t.extra_restricts@.len() == 0 {
        Seq::empty()
    } else {
        ", "@ + join_spec(views(t.extra_restricts@), ", "@)
    })
}

proof fn lemma_pkgtest_four_lines(t: PkgTest)
    ensures
        pkgtest_text(t) =~= pkgtest_line1(t) + "\n"@ + pkgtest_line2(t) + "\n"@ + pkgtest_line3(t) + "\n"@
            + pkgtest_line4(t) + "\n"@,
{
}

proof fn lemma_pkgtest_line1(t: PkgTest)
    requires
        has_no_newline(t.crate_name@),
        has_no_newline(t.version@),
        forall|k: int| 0 <= k < t.extra_test_args@.len() ==> has_no_newline(#[trigger] t.extra_test_args@[k]@)
            && ends_clean(t.extra_test_args@[k]@),
    ensures
        has_no_newline(pkgtest_line1(t)),
        ends_clean(pkgtest_line1(t)),
{
    reveal_strlit("Test-Command: /usr/share/cargo/bin/cargo-auto-test ");
    reveal_strlit(" ");
    reveal_strlit(" --all-targets");
    let args = views(t.extra_test_args@);
    assert forall|k: int| 0 <= k < args.len() implies has_no_newline(#[trigger] args[k]) && ends_clean(args[k]) by {
        assert(args[k] == t.extra_test_args@[k]@);
    }
    let a1 = "Test-Command: /usr/share/cargo/bin/cargo-auto-test "@ + t.crate_name@;
    lemma_no_newline_concat("Test-Command: /usr/share/cargo/bin/cargo-auto-test "@, t.crate_name@);
    lemma_no_newline_concat(a1, " "@);
    lemma_no_newline_concat(a1 + " "@, t.version@);
    let a2 = a1 + " "@ + t.version@;
    assert(ends_clean(" --all-targets"@));
    lemma_no_newline_concat(a2, " --all-targets"@);
    lemma_prefixed_no_newline(args, " "@);
    if args.len() > 0 {
        assert(ends_clean(args.last()));
    }
    lemma_no_newline_concat(a2 + " --all-targets"@, prefixed_spec(args, " "@));
    if args.len() == 0 {
        assert(prefixed_spec(args, " "@) =~= Seq::<char>::empty());
        assert(pkgtest_line1(t) =~= a2 + " --all-targets"@);
    }
}

proof fn lemma_pkgtest_line2(t: PkgTest)
    requires
        has_no_newline(t.name@),
        has_no_newline(t.feature@),
        t.feature@.len() == 0 || ends_clean(t.feature@),
    ensures
        has_no_newline(pkgtest_line2(t)),
        ends_clean(pkgtest_line2(t)),
{
    reveal_strlit("Features: test-name=");
    reveal_strlit(":");
    let b1 = "Features: test-name="@ + t.name@;
    lemma_no_newline_concat("Features: test-name="@, t.name@);
    lemma_no_newline_concat(b1, ":"@);
    lemma_no_newline_concat(b1 + ":"@, t.feature@);
    if t.feature@.len() == 0 {
        assert(pkgtest_line2(t) =~= b1 + ":"@);
    }
}

proof fn lemma_pkgtest_line3(t: PkgTest)
    requires
        forall|k: int| 0 <= k < t.depends@.len() ==> has_no_newline(#[trigger] t.depends@[k]@),
    ensures
        has_no_newline(pkgtest_line3(t)),
        ends_clean(pkgtest_line3(t)),
{
    reveal_strlit("Depends: dh-cargo (>= 18), ");
    reveal_strlit("@");
    reveal_strlit(", ");
    reveal_strlit(", @");
    let deps = views(t.depends@);
    assert forall|k: int| 0 <= k < deps.len() implies has_no_newline(#[trigger] deps[k]) by {
        assert(deps[k] == t.depends@[k]@);
    }
    lemma_join_no_newline(deps, ", "@);
    let tail = if deps.len() == 0 {
        "@"@
    } else {
        join_spec(deps, ", "@) + ", @"@
    };
    if deps.len() > 0 {
        lemma_no_newline_concat(join_spec(deps, ", "@), ", @"@);
    }
    lemma_no_newline_concat("Depends: dh-cargo (>= 18), "@, tail);
}

proof fn lemma_pkgtest_line4(t: PkgTest)
    requires
        forall|k: int| 0 <= k < t.extra_restricts@.len() ==> has_no_newline(#[trigger] t.extra_restricts@[k]@)
            && ends_clean(t.extra_restricts@[k]@),
    ensures
        has_no_newline(pkgtest_line4(t)),
        ends_clean(pkgtest_line4(t)),
{
    reveal_strlit("Restrictions: allow-stderr, skip-not-installable");
    reveal_strlit(", ");
    let rs = views(t.extra_restricts@);
    assert forall|k: int| 0 <= k < rs.len() implies has_no_newline(#[trigger] rs[k]) && ends_clean(rs[k]) by {
        assert(rs[k] == t.extra_restricts@[k]@);
    }
    lemma_join_no_newline(rs, ", "@);
    if rs.len() > 0 {
        assert(ends_clean(rs.last()));
        lemma_no_newline_concat(", "@, join_spec(rs, ", "@));
        lemma_no_newline_concat("Restrictions: allow-stderr, skip-not-installable"@, ", "@ + join_spec(rs, ", "@));
    } else {
        assert(pkgtest_line4(t) =~= "Restrictions: allow-stderr, skip-not-installable"@);
    }
}

/// No line of a test paragraph ends in whitespace, when its values hold no
/// line break, the feature (if any), each extra test argument and each extra
/// restriction end in something else than whitespace; the paragraph ends
/// with a line break.
pub proof fn lemma_pkgtest_lines_end_clean(t: PkgTest)
    requires
        has_no_newline(t.name@),
        has_no_newline(t.crate_name@),
        has_no_newline(t.feature@),
        has_no_newline(t.version@),
        t.feature@.len() == 0 || ends_clean(t.feature@),
        forall|k: int| 0 <= k < t.extra_test_args@.len() ==> has_no_newline(#[trigger] t.extra_test_args@[k]@)
            && ends_clean(t.extra_test_args@[k]@),
        forall|k: int| 0 <= k < t.depends@.len() ==> has_no_newline(#[trigger] t.depends@[k]@),
        forall|k: int| 0 <= k < t.extra_restricts@.len() ==> has_no_newline(#[trigger] t.extra_restricts@[k]@)
            && ends_clean(t.extra_restricts@[k]@),
    ensures
        lines_end_clean(pkgtest_text(t)),
        pkgtest_text(t).last() == '\n',
{
    reveal_strlit("\n");
    lemma_pkgtest_line1(t);
    lemma_pkgtest_line2(t);
    lemma_pkgtest_line3(t);
    lemma_pkgtest_line4(t);
    lemma_pkgtest_four_lines(t);
    let nl = "\n"@;
    let l1 = pkgtest_line1(t);
    let l2 = pkgtest_line2(t);
    let l3 = pkgtest_line3(t);
    let l4 = pkgtest_line4(t);
    lemma_clean_concat(l1, nl);
    lemma_clean_concat(l1 + nl, l2);
    lemma_clean_concat(l1 + nl + l2, nl);
    lemma_clean_concat(l1 + nl + l2 + nl, l3);
    lemma_clean_concat(l1 + nl + l2 + nl + l3, nl);
    lemma_clean_concat(l1 + nl + l2 + nl + l3 + nl, l4);
    lemma_clean_concat(l1 + nl + l2 + nl + l3 + nl + l4, nl);
}

/// The source paragraph of `debian/control`.
pub struct Source {
    pub name: String,
    pub section: String,
    pub priority: String,
    pub maintainer: String,
    pub uploaders: Vec<String>,
    pub standards: String,
    pub build_deps: Vec<String>,
    pub vcs_git: String,
    pub vcs_browser: String,
    pub homepage: String,
    pub crate_name: String,
    pub requires_root: String,
}

/// A binary paragraph of `debian/control`.
pub struct Package {
    pub name: String,
    pub arch: String,
    pub multi_arch: String,
    pub section: Option<String>,
    pub depends: Vec<String>,
    pub recommends: Vec<String>,
    pub suggests: Vec<String>,
    pub provides: Vec<String>,
    pub summary: Description,
    pub description: Description,
    pub extra_lines: Vec<String>,
}

impl Source {
    /// The name prefix of source packages.
    pub fn pkg_prefix() -> (r: &'static str)
        ensures
            r@ == src_prefix(),
    {
        "rust"
    }
}

/// The first changelog entry of a source package at `version`, packaging
/// `crate_name` `crate_version`, signed by the uploaders on `date`.
pub open spec fn changelog_entry_spec(
    name: Seq<char>,
    version: Seq<char>,
    distribution: Seq<char>,
    crate_name: Seq<char>,
    crate_version: Seq<char>,
    selfversion: Seq<char>,
    uploaders: Seq<Seq<char>>,
    date: Seq<char>,
) -> Seq<char> {
    name + " ("@ + version + ") "@ + distribution + "; urgency=medium\n\n"@ + "  * Package "@ + crate_name + " "@
        + crate_version + " from crates.io with debcargo "@ + selfversion + "\n\n"@ + " -- "@ + join_spec(uploaders, ", "@)
        + "  "@ + date + "\n"@
}

impl Source {
    /// The first changelog entry of this package at `version` (a Debian
    /// version), packaging `crate_name` at `crate_version` with debcargo
    /// `selfversion`, signed on `date` (an RFC 2822 date).
    pub fn changelog_entry(
        &self,
        version: &str,
        crate_name: &str,
        crate_version: &str,
        distribution: &str,
        selfversion: &str,
        date: &str,
    ) -> (r: String)
        ensures
            r@ == changelog_entry_spec(
                self.name@,
                version@,
                distribution@,
                crate_name@,
                crate_version@,
                selfversion@,
                views(self.uploaders@),
                date@,
            ),
    {
        let mut s = String::from_str(self.name.as_str());
        push_str(&mut s, " (");
        push_str(&mut s, version);
        push_str(&mut s, ") ");
        push_str(&mut s, distribution);
        push_str(&mut s, "; urgency=medium\n\n");
        push_str(&mut s, "  * Package ");
        push_str(&mut s, crate_name);
        push_str(&mut s, " ");
        push_str(&mut s, crate_version);
        push_str(&mut s, " from crates.io with debcargo ");
        push_str(&mut s, selfversion);
        push_str(&mut s, "\n\n");
        push_str(&mut s, " -- ");
        push_str(&mut s, join_strings(&self.uploaders, ", ").as_str());
        push_str(&mut s, "  ");
        push_str(&mut s, date);
        push_str(&mut s, "\n");
        s
    }
}

impl Package {
    /// The name prefix of library packages.
    pub fn pkg_prefix() -> (r: &'static str)
        ensures
            r@ == lib_prefix(),
    {
        "librust"
    }
}

/// `<basename><name_suffix>`.
pub open spec fn pkgbase_spec(basename: Seq<char>, name_suffix: Option<&str>) -> Seq<char> {
    match name_suffix {
        None => basename,
        Some(suf) => basename + suf@,
    }
}

fn pkgbase(basename: &str, name_suffix: Option<&str>) -> (r: String)
    ensures
        r@ == pkgbase_spec(basename@, name_suffix),
{
    match name_suffix {
        None => String::from_str(basename),
        Some(suf) => concat2(basename, suf),
    }
}

/// The source paragraph `Source::new` makes.
pub open spec fn source_new_spec(
    s: Source,
    basename: Seq<char>,
    name_suffix: Option<&str>,
    crate_name: Seq<char>,
    home: Seq<char>,
    lib: bool,
    maintainer: Seq<char>,
    uploaders: Seq<Seq<char>>,
    build_deps: Seq<Seq<char>>,
) -> bool {
    let base = pkgbase_spec(basename, name_suffix);
    &&& s.name@ == dsc_name_spec(base)
    &&& s.section@ == (if lib { "rust"@ } else { "FIXME-IN-THE-SOURCE-SECTION"@ })
    &&& s.priority@ == "optional"@
    &&& s.maintainer@ == maintainer
    &&& views(s.uploaders@) == uploaders
    &&& s.standards@ == "4.6.0"@
    &&& views(s.build_deps@) == build_deps
    &&& s.vcs_git@ == "https://salsa.debian.org/rust-team/debcargo-conf.git [src/"@ + base + "]"@
    &&& s.vcs_browser@ == "https://salsa.debian.org/rust-team/debcargo-conf/tree/master/src/"@ + base
    &&& s.homepage@ == home
    &&& s.crate_name@ == crate_name
    &&& s.requires_root@ == "no"@
}

/// A field block `<name>:\n <v1>,\n <v2>...\n`, or nothing for an empty list.
pub open spec fn list_field_spec(name: Seq<char>, v: Seq<Seq<char>>) -> Seq<char> {
    if v.len() == 0 {
        Seq::empty()
    } else {
        name + ":\n "@ + join_spec(v, ",\n "@) + "\n"@
    }
}

fn list_field(name: &str, v: &Vec<String>) -> (r: String)
    ensures
        r@ == list_field_spec(name@, views(v@)),
{
    if v.len() == 0 {
        String::new()
    } else {
        let mut s = String::from_str(name);
        push_str(&mut s, ":\n ");
        push_str(&mut s, join_strings(v, ",\n ").as_str());
        push_str(&mut s, "\n");
        s
    }
}

/// `<name>: <value>\n`.
pub open spec fn field_spec(name: Seq<char>, value: Seq<char>) -> Seq<char> {
    name + ": "@ + value + "\n"@
}

fn field(name: &str, value: &str) -> (r: String)
    ensures
        r@ == field_spec(name@, value@),
{
    let mut s = String::from_str(name);
    push_str(&mut s, ": ");
    push_str(&mut s, value);
    push_str(&mut s, "\n");
    s
}

/// The text of the source paragraph.
pub open spec fn source_text(s: Source) -> Seq<char> {
    field_spec("Source"@, s.name@) + field_spec("Section"@, s.section@) + field_spec("Priority"@, s.priority@)
        + field_spec("Build-Depends"@, join_spec(views(s.build_deps@), ",\n "@)) + field_spec(
        "Maintainer"@,
        s.maintainer@,
    ) + list_field_spec("Uploaders"@, views(s.uploaders@)) + field_spec("Standards-Version"@, s.standards@)
        + field_spec("Vcs-Git"@, s.vcs_git@) + field_spec("Vcs-Browser"@, s.vcs_browser@) + (
    if s.homepage@.len() == 0 {
        Seq::empty()
    } else {
        field_spec("Homepage"@, s.homepage@)
    }) + field_spec("X-Cargo-Crate"@, s.crate_name@) + field_spec("Rules-Requires-Root"@, s.requires_root@)
}

/// An optional borrowed string viewed as an optional character sequence.
pub open spec fn ostr(o: Option<&str>) -> Option<Seq<char>> {
    match o {
        None => None,
        Some(s) => Some(s@),
    }
}

/// `value` where the override is set, else `old`.
pub open spec fn overridden(old: Seq<char>, value: Option<Seq<char>>) -> Seq<char> {
    match value {
        None => old,
        Some(v) => v,
    }
}

fn set_if(target: &mut String, value: Option<&str>)
    ensures
        final(target)@ == overridden(old(target)@, ostr(value)),
{
    if let Some(v) = value {
        *target = String::from_str(v);
    }
}

impl Source {
    /// The source paragraph of the package for crate `crate_name`.
    pub fn new(
        basename: &str,
        name_suffix: Option<&str>,
        crate_name: &str,
        home: &str,
        lib: bool,
        maintainer: String,
        uploaders: Vec<String>,
        build_deps: Vec<String>,
        _requires_root: String,
    ) -> (r: Result<Source, ()>)
        ensures
            r matches Ok(s) && source_new_spec(
                s,
                basename@,
                name_suffix,
                crate_name@,
                home@,
                lib,
                maintainer@,
                views(uploaders@),
                views(build_deps@),
            ),
    {
        let base = pkgbase(basename, name_suffix);
        let section = if lib {
            "rust"
        } else {
            "FIXME-IN-THE-SOURCE-SECTION"
        };
        let mut vcs_browser = String::from_str("https://salsa.debian.org/rust-team/debcargo-conf/tree/master/src/");
        push_str(&mut vcs_browser, base.as_str());
        let mut vcs_git = String::from_str("https://salsa.debian.org/rust-team/debcargo-conf.git [src/");
        push_str(&mut vcs_git, base.as_str());
        push_str(&mut vcs_git, "]");
        Ok(Source {
            name: dsc_name(base.as_str()),
            section: String::from_str(section),
            priority: String::from_str("optional"),
            maintainer,
            uploaders,
            standards: String::from_str("4.6.0"),
            build_deps,
            vcs_git,
            vcs_browser,
            homepage: String::from_str(home),
            crate_name: String::from_str(crate_name),
            requires_root: String::from_str("no"),
        })
    }

    /// The name of the source package.
    pub fn name(&self) -> (r: &str)
        ensures
            r@ == self.name@,
    {
        self.name.as_str()
    }

    /// Applies the source overrides of `config`: each given value replaces
    /// the generated one, extra build dependencies are appended, and the
    /// excluded ones removed.
    pub fn apply_overrides(&mut self, config: &Config)
        ensures
            final(self).name == old(self).name,
            final(self).priority == old(self).priority,
            final(self).maintainer == old(self).maintainer,
            final(self).uploaders == old(self).uploaders,
            final(self).crate_name == old(self).crate_name,
            final(self).section@ == overridden(old(self).section@, source_opt(*config, |s: crate::config::SourceOverride| s.section)),
            final(self).standards@ == overridden(old(self).standards@, source_opt(*config, |s: crate::config::SourceOverride| s.policy)),
            final(self).homepage@ == overridden(old(self).homepage@, source_opt(*config, |s: crate::config::SourceOverride| s.homepage)),
            final(self).vcs_git@ == overridden(old(self).vcs_git@, source_opt(*config, |s: crate::config::SourceOverride| s.vcs_git)),
            final(self).vcs_browser@ == overridden(old(self).vcs_browser@, source_opt(*config, |s: crate::config::SourceOverride| s.vcs_browser)),
            final(self).requires_root@ == overridden(old(self).requires_root@, crate::config::opt_view(config.requires_root)),
            views(final(self).build_deps@) == filter_out(
                views(old(self).build_deps@) + opt_vec_view(source_list(*config, true)),
                opt_vec_view(source_list(*config, false)),
            ),
    {
        set_if(&mut self.section, config.section());
        set_if(&mut self.standards, config.policy_version());
        let extra = config.build_depends();
        if let Some(extra) = extra {
            crate::text::extend_strings(&mut self.build_deps, extra);
        } else {
            assert(views(self.build_deps@) =~= views(self.build_deps@) + Seq::<Seq<char>>::empty());
        }
        let excludes: Vec<String> = match config.build_depends_excludes() {
            Some(v) => clone_strings(v.as_slice()),
            None => Vec::new(),
        };
        let ghost all = views(self.build_deps@);
        let ghost excl = views(excludes@);
        assert(excl == opt_vec_view(source_list(*config, false)));
        let mut kept: Vec<String> = Vec::new();
        let mut i: usize = 0;
        while i < self.build_deps.len()
            invariant
                i <= self.build_deps@.len(),
                all == views(self.build_deps@),
                excl == views(excludes@),
                views(kept@) == filter_out(all.subrange(0, i as int), excl),
            decreases self.build_deps.len() - i,
        {
            assert(all.subrange(0, i + 1).drop_last() =~= all.subrange(0, i as int));
            assert(all.subrange(0, i + 1).last() == self.build_deps@[i as int]@);
            if !contains_string(excludes.as_slice(), self.build_deps[i].as_str()) {
                let ghost prev = kept@;
                kept.push(self.build_deps[i].clone());
                assert(views(kept@) =~= views(prev).push(self.build_deps@[i as int]@));
            }
            i = i + 1;
        }
        assert(all.subrange(0, all.len() as int) =~= all);
        self.build_deps = kept;
        set_if(&mut self.homepage, config.homepage());
        set_if(&mut self.vcs_git, config.vcs_git());
        set_if(&mut self.vcs_browser, config.vcs_browser());
        match config.requires_root() {
            Some(r) => self.requires_root = r.clone(),
            None => {},
        }
    }

    /// The text of the paragraph.
    pub fn to_string(&self) -> (r: String)
        ensures
            r@ == source_text(*self),
    {
        let mut s = field("Source", self.name.as_str());
        push_str(&mut s, field("Section", self.section.as_str()).as_str());
        push_str(&mut s, field("Priority", self.priority.as_str()).as_str());
        push_str(&mut s, field("Build-Depends", join_strings(&self.build_deps, ",\n ").as_str()).as_str());
        push_str(&mut s, field("Maintainer", self.maintainer.as_str()).as_str());
        push_str(&mut s, list_field("Uploaders", &self.uploaders).as_str());
        push_str(&mut s, field("Standards-Version", self.standards.as_str()).as_str());
        push_str(&mut s, field("Vcs-Git", self.vcs_git.as_str()).as_str());
        push_str(&mut s, field("Vcs-Browser", self.vcs_browser.as_str()).as_str());
        if !self.homepage.as_str().is_empty() {
            push_str(&mut s, field("Homepage", self.homepage.as_str()).as_str());
        }
        push_str(&mut s, field("X-Cargo-Crate", self.crate_name.as_str()).as_str());
        push_str(&mut s, field("Rules-Requires-Root", self.requires_root.as_str()).as_str());
        s
    }
}

/// A string option of the source override of `config`.
pub open spec fn source_opt(config: Config, f: spec_fn(crate::config::SourceOverride) -> Option<String>) -> Option<Seq<char>> {
    match config.source {
        None => None,
        Some(s) => crate::config::opt_view(f(s)),
    }
}

/// The extra build dependencies (`extra`) or their exclusions (`!extra`) of
/// the source override.
pub open spec fn source_list(config: Config, extra: bool) -> Option<Vec<String>> {
    match config.source {
        None => None,
        Some(s) => if extra { s.build_depends } else { s.build_depends_excludes },
    }
}

/// The views of borrowed strings.
pub open spec fn strs(v: Seq<&str>) -> Seq<Seq<char>> {
    v.map_values(|s: &str| s@)
}

/// The versioned dependency on the package of feature `f` (the bare library
/// for the empty feature) of package base `p`.
pub open spec fn feature_dep_spec(p: Seq<char>, f: Seq<char>) -> Seq<char> {
    (if f.len() == 0 {
        deb_name_spec(p)
    } else {
        deb_feature_name_spec(p, f)
    }) + " (= ${binary:Version})"@
}

/// The name suffixes under which a library package is also provided: none,
/// `-M`, `-M.m` and `-M.m.p`.
pub open spec fn version_suffixes(v: Version) -> Seq<Seq<char>> {
    seq![
        Seq::empty(),
        "-"@ + decimal(v.major as nat),
        "-"@ + decimal(v.major as nat) + "."@ + decimal(v.minor as nat),
        "-"@ + mmp_text(v.major, v.minor, v.patch),
    ]
}

/// What the package of `feat` provides under package base `p`: itself and
/// the features in `fp`.
pub open spec fn provides_at(p: Seq<char>, feat: Seq<char>, fp: Seq<Seq<char>>) -> Seq<Seq<char>> {
    seq![feature_dep_spec(p, feat)] + fp.map_values(|f: Seq<char>| feature_dep_spec(p, f))
}

/// Everything provided, under each versioned name in turn.
pub open spec fn all_provides(basename: Seq<char>, v: Version, feat: Seq<char>, fp: Seq<Seq<char>>) -> Seq<Seq<char>> {
    let sfx = version_suffixes(v);
    provides_at(basename + sfx[0], feat, fp) + provides_at(basename + sfx[1], feat, fp)
        + provides_at(basename + sfx[2], feat, fp) + provides_at(basename + sfx[3], feat, fp)
}

/// What is provided under the first `k` of the versioned names `sfx`.
pub open spec fn provides_upto(basename: Seq<char>, sfx: Seq<Seq<char>>, feat: Seq<char>, fp: Seq<Seq<char>>, k: int) -> Seq<Seq<char>>
    decreases k,
{
    if k <= 0 {
        Seq::empty()
    } else {
        provides_upto(basename, sfx, feat, fp, k - 1) + provides_at(basename + sfx[k - 1], feat, fp)
    }
}

/// `s` without its first occurrence of `x`.
pub open spec fn remove_first(s: Seq<Seq<char>>, x: Seq<char>) -> Seq<Seq<char>> {
    match s.index_of_first(x) {
        Some(i) => s.remove(i),
        None => s,
    }
}

/// The feature a package is for; the bare library has the empty one.
pub open spec fn feat_of(feature: Option<&str>) -> Seq<char> {
    match feature {
        None => Seq::empty(),
        Some(f) => f@,
    }
}

/// The binary paragraph `Package::new` makes for the library package of
/// `feature` (or the bare library for `None`).
pub open spec fn package_new_spec(
    pkg: Package,
    basename: Seq<char>,
    name_suffix: Option<&str>,
    version: Version,
    summary: Description,
    description: Description,
    feature: Option<&str>,
    f_deps: Seq<Seq<char>>,
    o_deps: Seq<Seq<char>>,
    f_provides: Seq<Seq<char>>,
    f_recommends: Seq<Seq<char>>,
    f_suggests: Seq<Seq<char>>,
) -> bool {
    let base = pkgbase_spec(basename, name_suffix);
    let dep = |f: Seq<char>| feature_dep_spec(base, f);
    &&& pkg.name@ == (match feature {
        None => deb_name_spec(base),
        Some(f) => deb_feature_name_spec(base, f@),
    })
    &&& pkg.arch@ == "any"@
    &&& pkg.multi_arch@ == "same"@
    &&& pkg.section is None
    &&& views(pkg.recommends@) == (match feature {
        Some(_) => Seq::empty(),
        None => filter_out(f_recommends, f_provides).map_values(dep),
    })
    &&& views(pkg.suggests@) == (match feature {
        Some(_) => Seq::empty(),
        None => filter_out(f_suggests, f_provides).map_values(dep),
    })
    &&& views(pkg.provides@) == remove_first(
        all_provides(basename, version, feat_of(feature), f_provides),
        dep(feat_of(feature)),
    )
    &&& views(pkg.depends@) == seq!["${misc:Depends}"@] + (if feature is Some && !f_deps.contains(
        Seq::empty(),
    ) {
        seq![dep(Seq::empty())]
    } else {
        Seq::empty()
    }) + f_deps.map_values(dep) + o_deps
    &&& pkg.summary == summary
    &&& pkg.description == description
    &&& views(pkg.extra_lines@) == (match (name_suffix, feature) {
        (Some(_), None) => {
            let full = basename + "-"@ + version_spec(version);
            seq!["Replaces: "@ + deb_name_spec(full), "Breaks: "@ + deb_name_spec(full)]
        },
        _ => Seq::empty(),
    })
}

/// The dependency of a feature package on its bare library package,
/// `librust-<base>-dev (= ${binary:Version})`.
pub open spec fn bare_dep(base: Seq<char>) -> Seq<char> {
    "librust-"@ + dashed_spec(base) + "-dev (= ${binary:Version})"@
}

proof fn lemma_feature_dep_not_bare(base: Seq<char>, g: Seq<char>)
    requires
        g.len() > 0,
    ensures
        feature_dep_spec(base, g) != bare_dep(base),
        "${misc:Depends}"@ != bare_dep(base),
{
    reveal_strlit("librust");
    reveal_strlit("librust-");
    reveal_strlit("-");
    reveal_strlit("+");
    reveal_strlit("-dev");
    reveal_strlit("-dev (= ${binary:Version})");
    reveal_strlit("${misc:Depends}");
    let d = dashed_spec(base);
    let n: int = 8 + d.len() as int;
    let fd = feature_dep_spec(base, g);
    let b = bare_dep(base);
    assert(fd[n] == '+');
    assert(b[n] == '-');
    assert("${misc:Depends}"@[0] != b[0]);
}

/// Every feature package depends directly on its bare library package,
/// whatever other features it needs; it does so once when the features it
/// needs name the bare library at most once and its overridden
/// dependencies do not name it.
pub proof fn lemma_feature_package_needs_bare(
    pkg: Package,
    basename: Seq<char>,
    name_suffix: Option<&str>,
    version: Version,
    summary: Description,
    description: Description,
    feature: Option<&str>,
    f_deps: Seq<Seq<char>>,
    o_deps: Seq<Seq<char>>,
    f_provides: Seq<Seq<char>>,
    f_recommends: Seq<Seq<char>>,
    f_suggests: Seq<Seq<char>>,
)
    requires
        package_new_spec(pkg, basename, name_suffix, version, summary, description, feature, f_deps, o_deps,
            f_provides, f_recommends, f_suggests),
        feature is Some,
    ensures
        views(pkg.depends@).contains(bare_dep(pkgbase_spec(basename, name_suffix))),
        (forall|j: int, k: int| 0 <= j < k < f_deps.len() ==> !(#[trigger] f_deps[j].len() == 0 && #[trigger] f_deps[k].len() == 0))
            && !o_deps.contains(bare_dep(pkgbase_spec(basename, name_suffix))) ==> exists|i: int|
            0 <= i < pkg.depends@.len() && views(pkg.depends@)[i] == bare_dep(pkgbase_spec(basename, name_suffix))
                && forall|j: int| 0 <= j < pkg.depends@.len() && j != i
                    ==> #[trigger] views(pkg.depends@)[j] != bare_dep(pkgbase_spec(basename, name_suffix)),
{
    let base = pkgbase_spec(basename, name_suffix);
    let b = bare_dep(base);
    let d = views(pkg.depends@);
    let dep = |f: Seq<char>| feature_dep_spec(base, f);
    reveal_strlit("librust");
    reveal_strlit("librust-");
    reveal_strlit("-");
    reveal_strlit("-dev");
    reveal_strlit(" (= ${binary:Version})");
    reveal_strlit("-dev (= ${binary:Version})");
    assert(dep(Seq::empty()) =~= b);
    lemma_feature_dep_not_bare(base, seq!['x']);
    let fl = f_deps.len();
    let has = f_deps.contains(Seq::empty());
    let h: int = if has { 0 } else { 1 };
    assert(d.len() == 1 + h + fl + o_deps.len());
    assert(forall|j: int| 0 <= j < fl ==> d[1 + h + j] == dep(f_deps[j]));
    assert(forall|j: int| 0 <= j < o_deps.len() ==> d[1 + h + fl + j] == o_deps[j]);
    let i: int = if has {
        let k0 = choose|k: int| 0 <= k < fl && f_deps[k] == Seq::<char>::empty();
        1 + k0
    } else {
        1
    };
    assert(d[i] == b);
    if (forall|j: int, k: int| 0 <= j < k < f_deps.len() ==> !(#[trigger] f_deps[j].len() == 0 && #[trigger] f_deps[k].len() == 0))
        && !o_deps.contains(b) {
        assert forall|j: int| 0 <= j < d.len() && j != i implies #[trigger] d[j] != b by {
            if j == 0 {
                lemma_feature_dep_not_bare(base, seq!['x']);
            } else if j < 1 + h {
            } else if j < 1 + h + fl {
                let g = f_deps[j - 1 - h];
                if g.len() == 0 {
                    assert(g =~= Seq::<char>::empty());
                    assert(f_deps[j - 1 - h] == Seq::<char>::empty());
                    assert(has);
                    assert(f_deps[i - 1].len() == 0);
                    assert(j - 1 != i - 1);
                } else {
                    lemma_feature_dep_not_bare(base, g);
                }
            } else {
                assert(o_deps[j - 1 - h - fl] == d[j]);
            }
        }
    }
}

/// The versioned dependency on the package of feature `f` of base `p`.
fn feature_dep(p: &str, f: &str) -> (r: String)
    ensures
        r@ == feature_dep_spec(p@, f@),
{
    let mut s = if f.is_empty() {
        deb_name(p)
    } else {
        deb_feature_name(p, f)
    };
    push_str(&mut s, " (= ${binary:Version})");
    s
}

/// The dependencies on the packages of `fs` that are not in `excl`.
fn filter_deps(base: &str, fs: &Vec<&str>, excl: &Vec<&str>) -> (r: Vec<String>)
    ensures
        views(r@) == filter_out(strs(fs@), strs(excl@)).map_values(|f: Seq<char>| feature_dep_spec(base@, f)),
{
    let mut r: Vec<String> = Vec::new();
    let ghost all = strs(fs@);
    let mut i: usize = 0;
    while i < fs.len()
        invariant
            i <= fs@.len(),
            all == strs(fs@),
            views(r@) == filter_out(all.subrange(0, i as int), strs(excl@)).map_values(|f: Seq<char>| feature_dep_spec(base@, f)),
        decreases fs.len() - i,
    {
        assert(all.subrange(0, i + 1).drop_last() =~= all.subrange(0, i as int));
        assert(all.subrange(0, i + 1).last() == fs@[i as int]@);
        if !contains_str(excl, fs[i]) {
            let ghost prev = views(r@);
            r.push(feature_dep(base, fs[i]));
            assert(views(r@) =~= prev.push(feature_dep_spec(base@, fs@[i as int]@)));
            assert(filter_out(all.subrange(0, i + 1), strs(excl@)) =~= filter_out(all.subrange(0, i as int), strs(excl@)).push(fs@[i as int]@));
            assert(filter_out(all.subrange(0, i + 1), strs(excl@)).map_values(|f: Seq<char>| feature_dep_spec(base@, f)) =~= prev.push(feature_dep_spec(base@, fs@[i as int]@)));
        }
        i = i + 1;
    }
    assert(all.subrange(0, all.len() as int) =~= all);
    r
}

/// The dependencies on the packages of each of `fs`.
fn map_deps(base: &str, fs: &Vec<&str>) -> (r: Vec<String>)
    ensures
        views(r@) == strs(fs@).map_values(|f: Seq<char>| feature_dep_spec(base@, f)),
{
    let mut r: Vec<String> = Vec::new();
    let mut i: usize = 0;
    while i < fs.len()
        invariant
            i <= fs@.len(),
            views(r@) == strs(fs@.subrange(0, i as int)).map_values(|f: Seq<char>| feature_dep_spec(base@, f)),
        decreases fs.len() - i,
    {
        let ghost prev = views(r@);
        r.push(feature_dep(base, fs[i]));
        assert(views(r@) =~= prev.push(feature_dep_spec(base@, fs@[i as int]@)));
        assert(strs(fs@.subrange(0, i + 1)).map_values(|f: Seq<char>| feature_dep_spec(base@, f)) =~= prev.push(feature_dep_spec(base@, fs@[i as int]@)));
        i = i + 1;
    }
    assert(fs@.subrange(0, fs@.len() as int) =~= fs@);
    r
}

/// The name suffixes under which a library package is also provided.
fn make_version_suffixes(v: &Version) -> (r: Vec<String>)
    ensures
        views(r@) == version_suffixes(*v),
{
    let mut r: Vec<String> = Vec::new();
    r.push(String::new());
    let mut a = String::from_str("-");
    push_str(&mut a, u64_to_string(v.major).as_str());
    r.push(a);
    let mut b = String::from_str("-");
    push_str(&mut b, u64_to_string(v.major).as_str());
    push_str(&mut b, ".");
    push_str(&mut b, u64_to_string(v.minor).as_str());
    r.push(b);
    let mut c = String::from_str("-");
    push_str(&mut c, mmp_string(v.major, v.minor, v.patch).as_str());
    r.push(c);
    assert(views(r@) =~= version_suffixes(*v));
    r
}

/// Removes the first occurrence of `x` from `v`, if any.
fn remove_first_str(v: &mut Vec<String>, x: &str)
    ensures
        views(final(v)@) == remove_first(views(old(v)@), x@),
{
    let ghost vs = views(v@);
    let mut i: usize = 0;
    while i < v.len()
        invariant
            i <= v@.len(),
            vs == views(v@),
            vs == views(old(v)@),
            forall|k: int| 0 <= k < i ==> vs[k] != x@,
        decreases v.len() - i,
    {
        if str_eq(v[i].as_str(), x) {
            proof {
                vs.index_of_first_ensures(x@);
                assert(vs.contains(x@)) by {
                    assert(vs[i as int] == x@);
                }
                let j = vs.index_of_first(x@)->0;
                if j < i {
                    assert(vs[j] != x@);
                } else if j > i {
                    assert(vs[i as int] != x@);
                }
                assert(vs.index_of_first(x@) == Some(i as int));
            }
            v.remove(i);
            assert(views(v@) =~= vs.remove(i as int));
            assert(views(v@) == remove_first(vs, x@));
            return;
        }
        i = i + 1;
    }
    proof {
        vs.index_of_first_ensures(x@);
        if vs.contains(x@) {
            let k = choose|k: int| 0 <= k < vs.len() && vs[k] == x@;
            assert(vs[k] != x@);
        }
    }
}

impl Package {
    /// The binary paragraph of the library package of `feature` (the bare
    /// library for `None`).
    pub fn new(
        basename: &str,
        name_suffix: Option<&str>,
        version: &Version,
        summary: Description,
        description: Description,
        feature: Option<&str>,
        f_deps: Vec<&str>,
        o_deps: Vec<String>,
        f_provides: Vec<&str>,
        f_recommends: Vec<&str>,
        f_suggests: Vec<&str>,
    ) -> (r: Result<Package, ()>)
        ensures
            r matches Ok(pkg) && package_new_spec(
                pkg,
                basename@,
                name_suffix,
                *version,
                summary,
                description,
                feature,
                strs(f_deps@),
                views(o_deps@),
                strs(f_provides@),
                strs(f_recommends@),
                strs(f_suggests@),
            ),
    {
        let base = pkgbase(basename, name_suffix);
        let (recs, sugs) = match feature {
            Some(_) => (Vec::new(), Vec::new()),
            None => (
                filter_deps(base.as_str(), &f_recommends, &f_provides),
                filter_deps(base.as_str(), &f_suggests, &f_provides),
            ),
        };
        let feat: &str = match feature {
            Some(f) => f,
            None => "",
        };
        let ghost fp = strs(f_provides@);
        let sfx = make_version_suffixes(version);
        assert(views(sfx@).len() == 4);
        let mut provides: Vec<String> = Vec::new();
        let mut k: usize = 0;
        while k < 4
            invariant
                k <= 4,
                sfx@.len() == 4,
                views(sfx@) == version_suffixes(*version),
                fp == strs(f_provides@),
                views(provides@) == provides_upto(basename@, views(sfx@), feat@, fp, k as int),
            decreases 4 - k,
        {
            let p = concat2(basename, sfx[k].as_str());
            let ghost prev = views(provides@);
            provides.push(feature_dep(p.as_str(), feat));
            let more = map_deps(p.as_str(), &f_provides);
            crate::text::extend_strings(&mut provides, &more);
            assert(views(sfx@)[k as int] == sfx@[k as int]@);
            assert(views(provides@) =~= prev + provides_at(p@, feat@, fp));
            k = k + 1;
        }
        proof {
            reveal_with_fuel(provides_upto, 5);
            assert(views(provides@) == all_provides(basename@, *version, feat@, fp));
        }
        let provides_self = feature_dep(base.as_str(), feat);
        remove_first_str(&mut provides, provides_self.as_str());
        let mut depends: Vec<String> = Vec::new();
        depends.push(String::from_str("${misc:Depends}"));
        proof {
            reveal_strlit("");
            assert(""@ =~= Seq::<char>::empty());
        }
        let ghost head = views(depends@);
        assert(head =~= seq!["${misc:Depends}"@]);
        if feature.is_some() && !contains_str(&f_deps, "") {
            depends.push(feature_dep(base.as_str(), ""));
            assert(views(depends@) =~= head + seq![feature_dep_spec(base@, Seq::empty())]);
        } else {
            assert(views(depends@) =~= head + Seq::<Seq<char>>::empty());
        }
        let ghost mid = views(depends@);
        let fd = map_deps(base.as_str(), &f_deps);
        crate::text::extend_strings(&mut depends, &fd);
        crate::text::extend_strings(&mut depends, &o_deps);
        assert(views(depends@) == mid + strs(f_deps@).map_values(|f: Seq<char>| feature_dep_spec(base@, f)) + views(o_deps@));
        let name = match feature {
            None => deb_name(base.as_str()),
            Some(f) => deb_feature_name(base.as_str(), f),
        };
        let extra_lines = match (name_suffix, feature) {
            (Some(_), None) => {
                let mut full = String::from_str(basename);
                push_str(&mut full, "-");
                push_str(&mut full, version.to_string().as_str());
                let dn = deb_name(full.as_str());
                let mut v: Vec<String> = Vec::new();
                v.push(concat2("Replaces: ", dn.as_str()));
                v.push(concat2("Breaks: ", dn.as_str()));
                v
            },
            _ => Vec::new(),
        };
        proof {
            assert(views(depends@) =~= seq!["${misc:Depends}"@] + (if feature is Some && !strs(f_deps@).contains(Seq::empty()) {
                seq![feature_dep_spec(base@, Seq::empty())]
            } else {
                Seq::<Seq<char>>::empty()
            }) + strs(f_deps@).map_values(|f: Seq<char>| feature_dep_spec(base@, f)) + views(o_deps@));
        }
        let pkg = Package {
            name,
            arch: String::from_str("any"),
            multi_arch: String::from_str("same"),
            section: None,
            depends,
            recommends: recs,
            suggests: sugs,
            provides,
            summary,
            description,
            extra_lines,
        };
        let ghost b = base@;
        assert(pkg.name@ == (match feature {
            None => deb_name_spec(b),
            Some(f) => deb_feature_name_spec(b, f@),
        }));
        assert(views(pkg.recommends@) == (match feature {
            Some(_) => Seq::empty(),
            None => filter_out(strs(f_recommends@), strs(f_provides@)).map_values(|f: Seq<char>| feature_dep_spec(b, f)),
        }));
        assert(views(pkg.provides@) == remove_first(
            all_provides(basename@, *version, feat_of(feature), strs(f_provides@)),
            feature_dep_spec(b, feat_of(feature)),
        ));
        assert(views(pkg.extra_lines@) == (match (name_suffix, feature) {
            (Some(_), None) => {
                let full = basename@ + "-"@ + version_spec(*version);
                seq!["Replaces: "@ + deb_name_spec(full), "Breaks: "@ + deb_name_spec(full)]
            },
            _ => Seq::empty(),
        }));
        Ok(pkg)
    }
}

/// One line of a long description: trailing whitespace removed; an empty
/// line becomes ` .`, a list item (`- `) is indented by two spaces, any other
/// line by one.
pub open spec fn desc_line(line: Seq<char>) -> Seq<char> {
    let l = trim_end_spec(line);
    (if l.len() == 0 {
        " ."@
    } else if starts_with_spec(l, "- "@) {
        "  "@ + l
    } else {
        " "@ + l
    }) + "\n"@
}

/// The long description lines, each as `desc_line` writes it.
pub open spec fn desc_body(ls: Seq<Seq<char>>) -> Seq<char>
    decreases ls.len(),
{
    if ls.len() == 0 {
        Seq::empty()
    } else {
        desc_body(ls.drop_last()) + desc_line(ls.last())
    }
}

/// The `Description` field: the summary, then the description wrapped at
/// 79 columns.
pub open spec fn description_text(summary: Description, description: Description) -> Seq<char> {
    field_spec("Description"@, summary.prefix@ + summary.suffix@) + desc_body(
        lines_spec(textwrap_fill(trim_spec(description.prefix@ + description.suffix@), 79)),
    )
}

/// The text of a binary paragraph.
pub open spec fn package_text(p: Package) -> Seq<char> {
    field_spec("Package"@, p.name@) + field_spec("Architecture"@, p.arch@) + field_spec(
        "Multi-Arch"@,
        p.multi_arch@,
    ) + (match p.section {
        None => Seq::empty(),
        Some(s) => field_spec("Section"@, s@),
    }) + list_field_spec("Depends"@, views(p.depends@)) + list_field_spec(
        "Recommends"@,
        views(p.recommends@),
    ) + list_field_spec("Suggests"@, views(p.suggests@)) + list_field_spec(
        "Provides"@,
        views(p.provides@),
    ) + suffixed_spec(views(p.extra_lines@), "\n"@) + description_text(p.summary, p.description)
}

fn write_desc_line(line: &str) -> (r: String)
    ensures
        r@ == desc_line(line@),
{
    let l = trim_end(line);
    let mut s = if l.as_str().is_empty() {
        String::from_str(" .")
    } else if starts_with(l.as_str(), "- ") {
        concat2("  ", l.as_str())
    } else {
        concat2(" ", l.as_str())
    };
    push_str(&mut s, "\n");
    s
}

fn write_description(summary: &Description, description: &Description) -> (r: String)
    ensures
        r@ == description_text(*summary, *description),
{
    let mut s = field("Description", summary.to_string().as_str());
    let d = description.to_string();
    let wrapped = fill(trim(d.as_str()).as_str(), 79);
    let ls = lines(wrapped.as_str());
    let ghost all = views(ls@);
    let ghost start = s@;
    let mut i: usize = 0;
    while i < ls.len()
        invariant
            i <= ls@.len(),
            all == views(ls@),
            s@ == start + desc_body(all.subrange(0, i as int)),
        decreases ls.len() - i,
    {
        assert(all.subrange(0, i + 1).drop_last() =~= all.subrange(0, i as int));
        push_str(&mut s, write_desc_line(ls[i].as_str()).as_str());
        i = i + 1;
    }
    assert(all.subrange(0, all.len() as int) =~= all);
    s
}

/// The binary paragraph `Package::new_bin` makes.
pub open spec fn package_new_bin_spec(
    p: Package,
    basename: Seq<char>,
    name_suffix: Option<&str>,
    section: Option<&str>,
    summary: Description,
    description: Description,
) -> bool {
    &&& p.name@ == pkgbase_spec(basename, name_suffix)
    &&& views(p.provides@) == (match name_suffix {
        None => seq!["${cargo:Provides}"@],
        Some(_) => seq![basename + " (= ${binary:Version})"@, "${cargo:Provides}"@],
    })
    &&& p.arch@ == "any"@
    &&& p.multi_arch@ == "allowed"@
    &&& ostr_opt(p.section) == ostr(section)
    &&& views(p.depends@) == seq!["${misc:Depends}"@, "${shlibs:Depends}"@, "${cargo:Depends}"@]
    &&& views(p.recommends@) == seq!["${cargo:Recommends}"@]
    &&& views(p.suggests@) == seq!["${cargo:Suggests}"@]
    &&& p.summary == summary
    &&& p.description == description
    &&& views(p.extra_lines@) == seq![
        "Built-Using: ${cargo:Built-Using}"@,
        "XB-X-Cargo-Built-Using: ${cargo:X-Cargo-Built-Using}"@,
    ]
}

/// An optional owned string viewed as an optional character sequence.
pub open spec fn ostr_opt(o: Option<String>) -> Option<Seq<char>> {
    match o {
        None => None,
        Some(s) => Some(s@),
    }
}

/// Three strings in a vector.
fn vec3(a: &str, b: &str, c: &str) -> (r: Vec<String>)
    ensures
        views(r@) == seq![a@, b@, c@],
{
    let mut v: Vec<String> = Vec::new();
    v.push(String::from_str(a));
    v.push(String::from_str(b));
    v.push(String::from_str(c));
    assert(views(v@) =~= seq![a@, b@, c@]);
    v
}

/// One string in a vector.
fn vec1(a: &str) -> (r: Vec<String>)
    ensures
        views(r@) == seq![a@],
{
    let mut v: Vec<String> = Vec::new();
    v.push(String::from_str(a));
    assert(views(v@) =~= seq![a@]);
    v
}

/// The strings of a list field gathered over the package of `key` and the
/// features it provides.
pub open spec fn gathered(config: Config, field: PackageField, key: PackageKey, f_provides: Seq<&str>) -> Seq<Seq<char>> {
    field_for_feature_spec(config, field, key, f_provides)
}

impl Package {
    /// The binary paragraph of the package of the crate's binaries.
    pub fn new_bin(
        basename: &str,
        name_suffix: Option<&str>,
        section: Option<&str>,
        summary: Description,
        description: Description,
    ) -> (r: Package)
        ensures
            package_new_bin_spec(r, basename@, name_suffix, section, summary, description),
    {
        let (name, mut provides) = match name_suffix {
            None => (String::from_str(basename), Vec::new()),
            Some(suf) => (concat2(basename, suf), vec1(concat2(basename, " (= ${binary:Version})").as_str())),
        };
        let ghost before = views(provides@);
        provides.push(String::from_str("${cargo:Provides}"));
        assert(views(provides@) =~= before.push("${cargo:Provides}"@));
        let mut extra: Vec<String> = Vec::new();
        extra.push(String::from_str("Built-Using: ${cargo:Built-Using}"));
        extra.push(String::from_str("XB-X-Cargo-Built-Using: ${cargo:X-Cargo-Built-Using}"));
        assert(views(extra@) =~= seq![
            "Built-Using: ${cargo:Built-Using}"@,
            "XB-X-Cargo-Built-Using: ${cargo:X-Cargo-Built-Using}"@,
        ]);
        let sec = match section {
            Some(s) => Some(String::from_str(s)),
            None => None,
        };
        assert(ostr_opt(sec) == ostr(section));
        assert(name@ == pkgbase_spec(basename@, name_suffix));
        assert(views(provides@) == (match name_suffix {
            None => seq!["${cargo:Provides}"@],
            Some(_) => seq![basename@ + " (= ${binary:Version})"@, "${cargo:Provides}"@],
        }));
        Package {
            name,
            arch: String::from_str("any"),
            multi_arch: String::from_str("allowed"),
            section: sec,
            depends: vec3("${misc:Depends}", "${shlibs:Depends}", "${cargo:Depends}"),
            recommends: vec1("${cargo:Recommends}"),
            suggests: vec1("${cargo:Suggests}"),
            provides,
            summary,
            description,
            extra_lines: extra,
        }
    }

    /// The name of the package.
    pub fn name(&self) -> (r: &str)
        ensures
            r@ == self.name@,
    {
        self.name.as_str()
    }

    /// `Ok` if the summary fits in 80 bytes.
    pub fn summary_check_len(&self) -> (r: Result<(), ()>)
        ensures
            r is Ok <==> (encode_utf8(self.summary.prefix@).len() as usize) <= 80,
    {
        if self.summary.prefix.as_str().len() <= 80 {
            Ok(())
        } else {
            Err(())
        }
    }

    /// Applies the overrides of `config` for the package of `key`, which
    /// provides the features `f_provides`.
    pub fn apply_overrides(&mut self, config: &Config, key: PackageKey, f_provides: Vec<&str>)
        ensures
            final(self).name == old(self).name,
            final(self).arch == old(self).arch,
            final(self).multi_arch == old(self).multi_arch,
            ostr_opt(final(self).section) == match crate::config::package_spec(*config, key) {
                Some(p) => match p.section {
                    Some(s) => Some(s@),
                    None => ostr_opt(old(self).section),
                },
                None => ostr_opt(old(self).section),
            },
            views(final(self).depends@) == views(old(self).depends@) + gathered(*config, PackageField::Depends, key, f_provides@),
            views(final(self).recommends@) == views(old(self).recommends@) + gathered(*config, PackageField::Recommends, key, f_provides@),
            views(final(self).suggests@) == views(old(self).suggests@) + gathered(*config, PackageField::Suggests, key, f_provides@),
            views(final(self).provides@) == views(old(self).provides@) + gathered(*config, PackageField::Provides, key, f_provides@),
            views(final(self).extra_lines@) == views(old(self).extra_lines@) + opt_vec_view(crate::config::package_field_spec(*config, key, PackageField::ExtraLines)),
    {
        let section = config.package_section(key);
        if let Some(sec) = section {
            self.section = Some(String::from_str(sec));
        }
        self.summary.apply_overrides(&config.summary, config.package_summary(key));
        self.description.apply_overrides(&config.description, config.package_description(key));
        extend_strings(&mut self.depends, &package_field_for_feature(config, PackageField::Depends, key, f_provides.as_slice()));
        extend_strings(&mut self.recommends, &package_field_for_feature(config, PackageField::Recommends, key, f_provides.as_slice()));
        extend_strings(&mut self.suggests, &package_field_for_feature(config, PackageField::Suggests, key, f_provides.as_slice()));
        extend_strings(&mut self.provides, &package_field_for_feature(config, PackageField::Provides, key, f_provides.as_slice()));
        match config.package_extra_lines(key) {
            Some(v) => extend_strings(&mut self.extra_lines, v),
            None => {
                assert(views(self.extra_lines@) =~= views(self.extra_lines@) + Seq::<Seq<char>>::empty());
            },
        }
    }

    /// The text of the paragraph.
    pub fn to_string(&self) -> (r: String)
        ensures
            r@ == package_text(*self),
    {
        let mut s = field("Package", self.name.as_str());
        push_str(&mut s, field("Architecture", self.arch.as_str()).as_str());
        push_str(&mut s, field("Multi-Arch", self.multi_arch.as_str()).as_str());
        if let Some(section) = &self.section {
            push_str(&mut s, field("Section", section.as_str()).as_str());
        }
        push_str(&mut s, list_field("Depends", &self.depends).as_str());
        push_str(&mut s, list_field("Recommends", &self.recommends).as_str());
        push_str(&mut s, list_field("Suggests", &self.suggests).as_str());
        push_str(&mut s, list_field("Provides", &self.provides).as_str());
        push_str(&mut s, suffixed(&self.extra_lines, "\n").as_str());
        push_str(&mut s, write_description(&self.summary, &self.description).as_str());
        s
    }
}

/// What the environment holds for a variable.
pub enum EnvVar {
    Present(String),
    NotUnicode,
    NotPresent,
}

/// The value of the first of the variables that is set: an error for one
/// that is not valid UTF-8, none if none is set.
pub open spec fn envs_spec(vars: Seq<(String, EnvVar)>) -> Result<Option<Seq<char>>, Seq<char>>
    decreases vars.len(),
{
    if vars.len() == 0 {
        Ok(None)
    } else {
        match vars[0].1 {
            EnvVar::Present(v) => Ok(Some(v@)),
            EnvVar::NotUnicode => Err("Environment variable $"@ + vars[0].0@ + " not valid UTF-8"@),
            EnvVar::NotPresent => envs_spec(vars.drop_first()),
        }
    }
}

/// A result viewed as plain sequences.
pub open spec fn env_result_view(r: Result<Option<String>, String>) -> Result<Option<Seq<char>>, Seq<char>> {
    match r {
        Ok(Some(v)) => Ok(Some(v@)),
        Ok(None) => Ok(None),
        Err(e) => Err(e@),
    }
}

/// The value of the first of the variables (each with its name) that is
/// set.
pub fn get_envs(vars: &Vec<(String, EnvVar)>) -> (r: Result<Option<String>, String>)
    ensures
        env_result_view(r) == envs_spec(vars@),
{
    let mut i: usize = 0;
    assert(vars@.skip(0) =~= vars@);
    while i < vars.len()
        invariant
            i <= vars@.len(),
            envs_spec(vars@) == envs_spec(vars@.skip(i as int)),
        decreases vars.len() - i,
    {
        match &vars[i].1 {
            EnvVar::Present(v) => {
                return Ok(Some(v.clone()));
            },
            EnvVar::NotUnicode => {
                return Err(concat3("Environment variable $", vars[i].0.as_str(), " not valid UTF-8"));
            },
            EnvVar::NotPresent => {},
        }
        assert(vars@.skip(i as int).drop_first() =~= vars@.skip(i + 1));
        i = i + 1;
    }
    Ok(None)
}

/// The packager as `<name> <<email>>`, from the variables for the name
/// (`DEBFULLNAME`, then `NAME`) and for the email address (`DEBEMAIL`,
/// then `EMAIL`).
pub open spec fn deb_author_spec(names: Seq<(String, EnvVar)>, emails: Seq<(String, EnvVar)>) -> Result<Seq<char>, Seq<char>> {
    match envs_spec(names) {
        Err(e) => Err(e),
        Ok(None) => Err("Unable to determine your name; please set $DEBFULLNAME or $NAME"@),
        Ok(Some(n)) => match envs_spec(emails) {
            Err(e) => Err(e),
            Ok(None) => Err("Unable to determine your email; please set $DEBEMAIL or $EMAIL"@),
            Ok(Some(m)) => Ok(n + " <"@ + m + ">"@),
        },
    }
}

/// The packager, from the variables for the name and for the email.
pub fn get_deb_author(names: &Vec<(String, EnvVar)>, emails: &Vec<(String, EnvVar)>) -> (r: Result<String, String>)
    ensures
        match r {
            Ok(a) => deb_author_spec(names@, emails@) == Ok::<Seq<char>, Seq<char>>(a@),
            Err(e) => deb_author_spec(names@, emails@) == Err::<Seq<char>, Seq<char>>(e@),
        },
{
    let name = match get_envs(names) {
        Err(e) => {
            return Err(e);
        },
        Ok(None) => {
            return Err(String::from_str("Unable to determine your name; please set $DEBFULLNAME or $NAME"));
        },
        Ok(Some(n)) => n,
    };
    let email = match get_envs(emails) {
        Err(e) => {
            return Err(e);
        },
        Ok(None) => {
            return Err(String::from_str("Unable to determine your email; please set $DEBEMAIL or $EMAIL"));
        },
        Ok(Some(m)) => m,
    };
    let s = concat3(name.as_str(), " <", email.as_str());
    Ok(concat2(s.as_str(), ">"))
}

} // verus!
