//! The naming of a source package and the contents of the small files of
//! its `debian/` directory: which tests are broken, the watch file, the
//! rules, the build dependencies and the binary package text.

use vstd::prelude::*;
use vstd::string::*;
use vstd::utf8::encode_utf8;

use crate::config::{
    feature_key_spec, field_for_feature_spec, lookup_spec, package_field_for_feature, Config,
    PackageField, PackageKey,
};
use crate::control::{deb_upstream_version, deb_upstream_version_spec, Version};
use crate::dependency::{
    dashed, dashed_spec, deb_dep_add_nocheck, deb_deps, deb_deps_spec, nocheck_alt, DepError,
    Dependency,
};
use crate::text::{
    concat2, concat3, contains_string, decimal, extend_strings, join_spec, join_strings, push_str,
    replace_char, replace_char_spec, split_spec, strictly_sorted, trim_end_spec, u64_to_string,
    views,
};

verus! {

/// The names derived from a crate for its source package.
pub struct BaseInfo {
    pub upstream_name: String,
    pub base_package_name: String,
    pub name_suffix: Option<String>,
    pub uscan_version_pattern: Option<String>,
    pub package_name: String,
    pub debian_version: String,
    pub debcargo_version: String,
    pub package_source_dir: String,
    pub orig_tarball_path: String,
}

/// The semver series of a version: `0.<minor>` before 1.0, else `<major>`.
pub open spec fn semver_spec(v: Version) -> Seq<char> {
    if v.major == 0 {
        "0."@ + decimal(v.minor as nat)
    } else {
        decimal(v.major as nat)
    }
}

/// The semver series of a version.
pub fn semver(v: &Version) -> (r: String)
    ensures
        r@ == semver_spec(*v),
{
    if v.major == 0 {
        concat2("0.", u64_to_string(v.minor).as_str())
    } else {
        u64_to_string(v.major)
    }
}

/// The version pattern of the watch file for the semver series of `v`, in
/// the form of uscan's `@ANY_VERSION@`: an optional `-` or `_`, then the
/// series with its dot escaped, a dot, a digit and any version characters.
pub open spec fn semver_uscan_pattern_spec(v: Version) -> Seq<char> {
    "[-_]?("@ + (if v.major == 0 {
        "0\\."@ + decimal(v.minor as nat)
    } else {
        decimal(v.major as nat)
    }) + "\\.\\d[\\-+\\.:\\~\\da-zA-Z]*)"@
}

/// The version pattern of the watch file for the semver series of `v`.
pub fn semver_uscan_pattern(v: &Version) -> (r: String)
    ensures
        r@ == semver_uscan_pattern_spec(*v),
{
    let series = if v.major == 0 {
        concat2("0\\.", u64_to_string(v.minor).as_str())
    } else {
        u64_to_string(v.major)
    };
    concat3("[-_]?(", series.as_str(), "\\.\\d[\\-+\\.:\\~\\da-zA-Z]*)")
}

/// An optional string as an optional sequence.
pub open spec fn opt_seq(o: Option<String>) -> Option<Seq<char>> {
    match o {
        Some(s) => Some(s@),
        None => None,
    }
}

/// The suffix, or nothing.
pub open spec fn suffix_text(o: Option<String>) -> Seq<char> {
    match o {
        Some(s) => s@,
        None => Seq::empty(),
    }
}

/// The names of the source package of crate `name` at `version`; with a
/// semver suffix the package names carry `-<semver>` and the watch file
/// follows `uscan_pattern`.
pub open spec fn base_info_spec(
    b: BaseInfo,
    name: Seq<char>,
    version: Version,
    debcargo_version: Seq<char>,
    semver_suffix: bool,
    uscan_pattern: Seq<char>,
) -> bool {
    let base = dashed_spec(name);
    let suffix = if semver_suffix {
        "-"@ + semver_spec(version)
    } else {
        Seq::empty()
    };
    let source = "rust-"@ + base + suffix;
    let dv = deb_upstream_version_spec(version);
    &&& b.upstream_name@ == name
    &&& b.base_package_name@ == base
    &&& opt_seq(b.name_suffix) == (if semver_suffix {
        Some(suffix)
    } else {
        None
    })
    &&& opt_seq(b.uscan_version_pattern) == (if semver_suffix {
        Some(uscan_pattern)
    } else {
        None
    })
    &&& b.package_name@ == base + suffix
    &&& b.debian_version@ == dv
    &&& b.debcargo_version@ == debcargo_version
    &&& b.package_source_dir@ == source + "-"@ + dv
    &&& b.orig_tarball_path@ == source + "_"@ + dv + ".orig.tar.gz"@
}

impl BaseInfo {
    /// The names of the source package of crate `name` at `version`.
    /// `uscan_pattern` is the version pattern of the watch file, used only
    /// with a semver suffix.
    pub fn new(
        name: &str,
        version: &Version,
        debcargo_version: &str,
        semver_suffix: bool,
        uscan_pattern: &str,
    ) -> (r: BaseInfo)
        ensures
            base_info_spec(r, name@, *version, debcargo_version@, semver_suffix, uscan_pattern@),
    {
        proof {
            reveal_strlit("");
        }
        let base = dashed(name);
        let suffix: String = if semver_suffix {
            concat2("-", semver(version).as_str())
        } else {
            String::new()
        };
        let debian_version = deb_upstream_version(version);
        let source = concat3("rust-", base.as_str(), suffix.as_str());
        let package_source_dir = concat3(source.as_str(), "-", debian_version.as_str());
        let orig_tarball_path = concat3(source.as_str(), "_", debian_version.as_str());
        let orig_tarball_path = concat2(orig_tarball_path.as_str(), ".orig.tar.gz");
        let package_name = concat2(base.as_str(), suffix.as_str());
        let (name_suffix, uscan_version_pattern) = if semver_suffix {
            (Some(suffix), Some(String::from_str(uscan_pattern)))
        } else {
            (None, None)
        };
        BaseInfo {
            upstream_name: String::from_str(name),
            base_package_name: base,
            name_suffix,
            uscan_version_pattern,
            package_name,
            debian_version,
            debcargo_version: String::from_str(debcargo_version),
            package_source_dir,
            orig_tarball_path,
        }
    }

    /// The crate's own name.
    pub fn upstream_name(&self) -> (r: &str)
        ensures
            r@ == self.upstream_name@,
    {
        self.upstream_name.as_str()
    }

    /// The crate name as packages spell it.
    pub fn base_package_name(&self) -> (r: &str)
        ensures
            r@ == self.base_package_name@,
    {
        self.base_package_name.as_str()
    }

    /// The semver suffix of the package names, if any.
    pub fn name_suffix(&self) -> (r: Option<&str>)
        ensures
            match r {
                Some(s) => self.name_suffix matches Some(t) && s@ == t@,
                None => self.name_suffix is None,
            },
    {
        match &self.name_suffix {
            Some(s) => Some(s.as_str()),
            None => None,
        }
    }

    /// The base name with its suffix.
    pub fn package_name(&self) -> (r: &str)
        ensures
            r@ == self.package_name@,
    {
        self.package_name.as_str()
    }

    /// The Debian upstream version.
    pub fn debian_version(&self) -> (r: &str)
        ensures
            r@ == self.debian_version@,
    {
        self.debian_version.as_str()
    }

    /// The version of the packaging tool.
    pub fn debcargo_version(&self) -> (r: &str)
        ensures
            r@ == self.debcargo_version@,
    {
        self.debcargo_version.as_str()
    }

    /// The directory the source package is prepared in.
    pub fn package_source_dir(&self) -> (r: &str)
        ensures
            r@ == self.package_source_dir@,
    {
        self.package_source_dir.as_str()
    }

    /// The path of the upstream tarball.
    pub fn orig_tarball_path(&self) -> (r: &str)
        ensures
            r@ == self.orig_tarball_path@,
    {
        self.orig_tarball_path.as_str()
    }
}

/// A map from each feature to the features it needs, as plain sequences.
pub open spec fn fmap_view(m: Seq<(String, Vec<String>)>) -> Seq<(Seq<char>, Seq<Seq<char>>)> {
    m.map_values(|e: (String, Vec<String>)| (e.0@, views(e.1@)))
}

/// The features that `key` needs directly: those of its first entry.
pub open spec fn needs(m: Seq<(Seq<char>, Seq<Seq<char>>)>, key: Seq<char>) -> Option<Seq<Seq<char>>>
    decreases m.len(),
{
    if m.len() == 0 {
        None
    } else if m[0].0 == key {
        Some(m[0].1)
    } else {
        needs(m.drop_first(), key)
    }
}

/// The features `key` needs, depth first: its direct needs, then, for each
/// of them in turn, what it needs; none if that takes more than `fuel`
/// levels.
pub open spec fn needs_deep(m: Seq<(Seq<char>, Seq<Seq<char>>)>, key: Seq<char>, fuel: nat) -> Option<
    Seq<Seq<char>>,
>
    decreases fuel, 0nat,
{
    match needs(m, key) {
        None => Some(Seq::empty()),
        Some(pp) => if fuel == 0 {
            None
        } else {
            match needs_deep_all(m, pp, (fuel - 1) as nat) {
                Some(rest) => Some(pp + rest),
                None => None,
            }
        },
    }
}

/// What each of `ps` needs, depth first, one after the other.
pub open spec fn needs_deep_all(m: Seq<(Seq<char>, Seq<Seq<char>>)>, ps: Seq<Seq<char>>, fuel: nat) -> Option<
    Seq<Seq<char>>,
>
    decreases fuel, ps.len(),
{
    if ps.len() == 0 {
        Some(Seq::empty())
    } else {
        match needs_deep_all(m, ps.drop_last(), fuel) {
            Some(a) => match needs_deep(m, ps.last(), fuel) {
                Some(b) => Some(a + b),
                None => None,
            },
            None => None,
        }
    }
}

/// Whether the needs of `key` bottom out: the map has no cycle through it.
pub open spec fn needs_finite(m: Seq<(Seq<char>, Seq<Seq<char>>)>, key: Seq<char>) -> bool {
    exists|n: nat| #[trigger] needs_deep(m, key, n) is Some
}

/// More fuel does not change a result.
pub proof fn lemma_needs_deep_mono(m: Seq<(Seq<char>, Seq<Seq<char>>)>, key: Seq<char>, n1: nat, n2: nat)
    requires
        n1 <= n2,
        needs_deep(m, key, n1) is Some,
    ensures
        needs_deep(m, key, n2) == needs_deep(m, key, n1),
    decreases n1, 0nat,
{
    match needs(m, key) {
        None => {},
        Some(pp) => {
            lemma_needs_deep_all_mono(m, pp, (n1 - 1) as nat, (n2 - 1) as nat);
        },
    }
}

/// More fuel does not change a result.
pub proof fn lemma_needs_deep_all_mono(m: Seq<(Seq<char>, Seq<Seq<char>>)>, ps: Seq<Seq<char>>, n1: nat, n2: nat)
    requires
        n1 <= n2,
        needs_deep_all(m, ps, n1) is Some,
    ensures
        needs_deep_all(m, ps, n2) == needs_deep_all(m, ps, n1),
    decreases n1, ps.len(),
{
    if ps.len() > 0 {
        lemma_needs_deep_all_mono(m, ps.drop_last(), n1, n2);
        lemma_needs_deep_mono(m, ps.last(), n1, n2);
    }
}

/// A prefix of a list whose needs bottom out also bottoms out.
proof fn lemma_needs_deep_all_prefix(m: Seq<(Seq<char>, Seq<Seq<char>>)>, ps: Seq<Seq<char>>, fuel: nat, j: int)
    requires
        0 <= j <= ps.len(),
        needs_deep_all(m, ps, fuel) is Some,
    ensures
        needs_deep_all(m, ps.subrange(0, j), fuel) is Some,
    decreases ps.len() - j,
{
    if j < ps.len() {
        assert(ps.drop_last() =~= ps.subrange(0, ps.len() - 1));
        lemma_needs_deep_all_prefix(m, ps.drop_last(), fuel, j);
        assert(ps.drop_last().subrange(0, j) =~= ps.subrange(0, j));
    } else {
        assert(ps.subrange(0, j) =~= ps);
    }
}

/// The index of the first entry for `key`.
fn find_feature(m: &Vec<(String, Vec<String>)>, key: &str) -> (r: Option<usize>)
    ensures
        match r {
            Some(i) => i < m@.len() && needs(fmap_view(m@), key@) == Some(views(m@[i as int].1@)),
            None => needs(fmap_view(m@), key@) is None,
        },
{
    let ghost full = fmap_view(m@);
    assert(full.skip(0) =~= full);
    let mut i: usize = 0;
    while i < m.len()
        invariant
            i <= m@.len(),
            full == fmap_view(m@),
            needs(full, key@) == needs(full.skip(i as int), key@),
        decreases m.len() - i,
    {
        if crate::text::str_eq(m[i].0.as_str(), key) {
            return Some(i);
        }
        assert(full.skip(i as int).drop_first() =~= full.skip(i + 1));
        i = i + 1;
    }
    assert(full.skip(i as int) =~= Seq::<(Seq<char>, Seq<Seq<char>>)>::empty());
    None
}

fn needs_deep_exec(m: &Vec<(String, Vec<String>)>, key: &str, Ghost(fuel): Ghost<nat>) -> (r: Vec<String>)
    requires
        needs_deep(fmap_view(m@), key@, fuel) is Some,
    ensures
        Some(views(r@)) == needs_deep(fmap_view(m@), key@, fuel),
    decreases fuel,
{
    let ghost fm = fmap_view(m@);
    match find_feature(m, key) {
        None => Vec::new(),
        Some(i) => {
            let pp = &m[i].1;
            let ghost pv = views(pp@);
            let ghost f1 = (fuel - 1) as nat;
            let mut x: Vec<String> = crate::text::clone_strings(pp.as_slice());
            let mut rest: Vec<String> = Vec::new();
            let mut j: usize = 0;
            while j < pp.len()
                invariant
                    fuel > 0,
                    f1 == fuel - 1,
                    j <= pp@.len(),
                    pv == views(pp@),
                    fm == fmap_view(m@),
                    needs_deep_all(fm, pv, f1) is Some,
                    Some(views(rest@)) == needs_deep_all(fm, pv.subrange(0, j as int), f1),
                decreases pp.len() - j,
            {
                proof {
                    lemma_needs_deep_all_prefix(fm, pv, f1, j + 1);
                    assert(pv.subrange(0, j + 1).drop_last() =~= pv.subrange(0, j as int));
                    assert(pv.subrange(0, j + 1).last() == pp@[j as int]@);
                }
                let sub = needs_deep_exec(m, pp[j].as_str(), Ghost(f1));
                let ghost prev = views(rest@);
                crate::text::extend_strings(&mut rest, &sub);
                assert(views(rest@) =~= prev + views(sub@));
                j = j + 1;
            }
            assert(pv.subrange(0, pv.len() as int) =~= pv);
            let ghost xv = views(x@);
            crate::text::extend_strings(&mut x, &rest);
            assert(views(x@) =~= xv + views(rest@));
            x
        },
    }
}

/// The features `key` needs, as `traverse_depth_2` finds them, where that
/// takes no more than `fuel` nested lookups; none where it goes deeper.
pub fn traverse_depth_2_within(map: &Vec<(String, Vec<String>)>, key: &str, fuel: u64) -> (r: Option<Vec<String>>)
    ensures
        r is Some <==> needs_deep(fmap_view(map@), key@, fuel as nat) is Some,
        r matches Some(v) ==> needs_deep(fmap_view(map@), key@, fuel as nat) == Some(views(v@)),
    decreases fuel,
{
    let ghost fm = fmap_view(map@);
    match find_feature(map, key) {
        None => Some(Vec::new()),
        Some(i) => {
            if fuel == 0 {
                return None;
            }
            let pp = &map[i].1;
            let ghost pv = views(pp@);
            let f1: u64 = fuel - 1;
            let mut x: Vec<String> = crate::text::clone_strings(pp.as_slice());
            let mut rest: Vec<String> = Vec::new();
            let mut j: usize = 0;
            while j < pp.len()
                invariant
                    fuel > 0,
                    f1 == fuel - 1,
                    j <= pp@.len(),
                    pv == views(pp@),
                    fm == fmap_view(map@),
                    needs(fm, key@) == Some(pv),
                    Some(views(rest@)) == needs_deep_all(fm, pv.subrange(0, j as int), f1 as nat),
                decreases pp.len() - j,
            {
                proof {
                    assert(pv.subrange(0, j + 1).drop_last() =~= pv.subrange(0, j as int));
                    assert(pv.subrange(0, j + 1).last() == pp@[j as int]@);
                }
                let sub = match traverse_depth_2_within(map, pp[j].as_str(), f1) {
                    None => {
                        proof {
                            if needs_deep_all(fm, pv, f1 as nat) is Some {
                                lemma_needs_deep_all_prefix(fm, pv, f1 as nat, j + 1);
                            }
                        }
                        return None;
                    },
                    Some(sub) => sub,
                };
                let ghost prev = views(rest@);
                crate::text::extend_strings(&mut rest, &sub);
                assert(views(rest@) =~= prev + views(sub@));
                j = j + 1;
            }
            assert(pv.subrange(0, pv.len() as int) =~= pv);
            let ghost xv = views(x@);
            crate::text::extend_strings(&mut x, &rest);
            assert(views(x@) =~= xv + views(rest@));
            Some(x)
        },
    }
}

/// The features `key` needs, directly and through other features, depth
/// first. The needs of `key` must bottom out, as they do in any map of
/// features that Cargo accepts.
pub fn traverse_depth_2(map: &Vec<(String, Vec<String>)>, key: &str) -> (r: Vec<String>)
    requires
        needs_finite(fmap_view(map@), key@),
    ensures
        forall|n: nat| #[trigger] needs_deep(fmap_view(map@), key@, n) is Some ==> needs_deep(fmap_view(map@), key@, n)
            == Some(views(r@)),
{
    let ghost n = choose|n: nat| #[trigger] needs_deep(fmap_view(map@), key@, n) is Some;
    let r = needs_deep_exec(map, key, Ghost(n));
    proof {
        assert forall|n2: nat| #[trigger] needs_deep(fmap_view(map@), key@, n2) is Some implies needs_deep(
            fmap_view(map@),
            key@,
            n2,
        ) == Some(views(r@)) by {
            if n <= n2 {
                lemma_needs_deep_mono(fmap_view(map@), key@, n, n2);
            } else {
                lemma_needs_deep_mono(fmap_view(map@), key@, n2, n);
            }
        }
    }
    r
}

/// The key of the overrides of the package of feature `f`.
pub open spec fn feature_key_text(f: Seq<char>) -> Seq<char> {
    if f.len() == 0 {
        "lib"@
    } else {
        "lib+"@ + f
    }
}

/// Whether the overrides mark the tests of feature `f` as broken.
pub open spec fn test_broken(config: Config, f: Seq<char>) -> bool {
    match config.packages {
        None => false,
        Some(ps) => match lookup_spec(ps@, feature_key_text(f)) {
            Some(p) => p.test_is_broken == Some(true),
            None => false,
        },
    }
}

/// Whether the overrides mark the tests of feature `f` as broken.
pub fn is_test_broken(config: &Config, f: &str) -> (r: bool)
    ensures
        r == test_broken(*config, f@),
{
    match config.package_test_is_broken(PackageKey::feature(f)) {
        Some(b) => b,
        None => false,
    }
}

/// Whether the tests of one of `fs` are marked broken.
pub open spec fn any_broken(config: Config, fs: Seq<Seq<char>>) -> bool {
    exists|i: int| 0 <= i < fs.len() && #[trigger] test_broken(config, fs[i])
}

/// What `f` needs, directly and through other features.
pub open spec fn deep_needs(m: Seq<(Seq<char>, Seq<Seq<char>>)>, f: Seq<char>) -> Seq<Seq<char>> {
    needs_deep(m, f, choose|n: nat| #[trigger] needs_deep(m, f, n) is Some)->0
}

/// Whether the needs of every feature of the map bottom out.
pub open spec fn all_needs_finite(m: Seq<(Seq<char>, Seq<Seq<char>>)>) -> bool {
    forall|i: int| 0 <= i < m.len() ==> needs_finite(m, #[trigger] m[i].0)
}

/// Whether the tests of feature `f` fail: they are marked broken for `f`
/// or for a feature it needs.
pub open spec fn feature_tests_broken(config: Config, m: Seq<(Seq<char>, Seq<Seq<char>>)>, f: Seq<char>) -> bool {
    test_broken(config, f) || any_broken(config, deep_needs(m, f))
}

fn any_test_broken(config: &Config, fs: &Vec<String>) -> (r: bool)
    ensures
        r == any_broken(*config, views(fs@)),
{
    let mut i: usize = 0;
    while i < fs.len()
        invariant
            i <= fs@.len(),
            forall|k: int| 0 <= k < i ==> !test_broken(*config, #[trigger] views(fs@)[k]),
        decreases fs.len() - i,
    {
        if is_test_broken(config, fs[i].as_str()) {
            assert(test_broken(*config, views(fs@)[i as int]));
            return true;
        }
        i = i + 1;
    }
    false
}

/// Which tests are broken: for each feature of `features` (a feature and
/// the features it needs), whether its tests fail, and whether the tests
/// with all features fail (marked broken for `@` or for any one feature).
pub fn broken_tests(config: &Config, features: &Vec<(String, Vec<String>)>) -> (r: (bool, Vec<(String, bool)>))
    requires
        all_needs_finite(fmap_view(features@)),
    ensures
        r.0 == (test_broken(*config, "@"@) || exists|i: int|
            0 <= i < features@.len() && #[trigger] test_broken(*config, features@[i].0@)),
        r.1@.len() == features@.len(),
        forall|i: int|
            0 <= i < features@.len() ==> (#[trigger] r.1@[i]).0@ == features@[i].0@ && r.1@[i].1
                == feature_tests_broken(*config, fmap_view(features@), features@[i].0@),
{
    let ghost fm = fmap_view(features@);
    let mut out: Vec<(String, bool)> = Vec::new();
    let mut any = false;
    let mut i: usize = 0;
    while i < features.len()
        invariant
            i <= features@.len(),
            fm == fmap_view(features@),
            all_needs_finite(fm),
            out@.len() == i,
            any == exists|k: int| 0 <= k < i && #[trigger] test_broken(*config, features@[k].0@),
            forall|k: int|
                0 <= k < i ==> (#[trigger] out@[k]).0@ == features@[k].0@ && out@[k].1
                    == feature_tests_broken(*config, fm, features@[k].0@),
        decreases features.len() - i,
    {
        let f = features[i].0.as_str();
        assert(fm[i as int].0 == f@);
        assert(needs_finite(fm, fm[i as int].0));
        let broken = is_test_broken(config, f);
        let deps = traverse_depth_2(features, f);
        let deep = any_test_broken(config, &deps);
        proof {
            let n = choose|n: nat| #[trigger] needs_deep(fm, f@, n) is Some;
            assert(needs_deep(fm, f@, n) is Some);
            assert(deep_needs(fm, f@) == views(deps@));
        }
        if broken {
            any = true;
        }
        out.push((String::from_str(f), broken || deep));
        i = i + 1;
    }
    let all = is_test_broken(config, "@");
    (all || any, out)
}

/// The text of `debian/cargo-checksum.json`.
pub open spec fn checksum_json_text(checksum: Option<Seq<char>>) -> Seq<char> {
    "{\"package\":\""@ + (match checksum {
        Some(c) => c,
        None => "Could not get crate checksum"@,
    }) + "\",\"files\":{}}\n"@
}

/// The text of `debian/cargo-checksum.json`, with the crate's checksum.
pub fn checksum_json(checksum: Option<&str>) -> (r: String)
    ensures
        r@ == checksum_json_text(match checksum {
            Some(c) => Some(c@),
            None => None,
        }),
{
    let c = match checksum {
        Some(c) => c,
        None => "Could not get crate checksum",
    };
    let s = concat3("{\"package\":\"", c, "\",\"files\":{}}\n");
    s
}

/// The version pattern of the watch file when none is given.
pub const ANY_VERSION: &'static str = "@ANY_VERSION@";

/// The lines of `debian/watch` for crate `name`.
pub open spec fn watch_lines_spec(name: Seq<char>, version_pattern: Seq<char>) -> Seq<Seq<char>> {
    seq![
        "version=4"@,
        r"opts=filenamemangle=s/.*\/(.*)\/download/"@ + name + r"-$1\.tar\.gz/g,\"@,
        r"uversionmangle=s/(\d)[_\.\-\+]?((RC|rc|pre|dev|beta|alpha)\d*)$/$1~$2/ \"@,
        "https://qa.debian.org/cgi-bin/fakeupstream.cgi?upstream=crates.io/"@ + name + " .*/crates/"@ + name + "/"@
            + version_pattern + "/download"@,
    ]
}

/// The text of `debian/watch`: the lines, each ended by a line break.
pub open spec fn watch_text(name: Seq<char>, version_pattern: Option<Seq<char>>) -> Seq<char> {
    crate::text::suffixed_spec(
        watch_lines_spec(
            name,
            match version_pattern {
                Some(p) => p,
                None => ANY_VERSION@,
            },
        ),
        "\n"@,
    )
}

/// The text of `debian/watch` for crate `name`, following the versions
/// that match `uscan_version_pattern`, or any version.
pub fn watch(name: &str, uscan_version_pattern: Option<&str>) -> (r: String)
    ensures
        r@ == watch_text(name@, match uscan_version_pattern {
            Some(p) => Some(p@),
            None => None,
        }),
{
    let vp = match uscan_version_pattern {
        Some(p) => p,
        None => ANY_VERSION,
    };
    let mut lines: Vec<String> = Vec::new();
    lines.push(String::from_str("version=4"));
    lines.push(concat3(r"opts=filenamemangle=s/.*\/(.*)\/download/", name, r"-$1\.tar\.gz/g,\"));
    lines.push(String::from_str(r"uversionmangle=s/(\d)[_\.\-\+]?((RC|rc|pre|dev|beta|alpha)\d*)$/$1~$2/ \"));
    let a = concat3("https://qa.debian.org/cgi-bin/fakeupstream.cgi?upstream=crates.io/", name, " .*/crates/");
    let b = concat3(a.as_str(), name, "/");
    lines.push(concat3(b.as_str(), vp, "/download"));
    assert(views(lines@) =~= watch_lines_spec(name@, vp@));
    crate::text::suffixed(&lines, "\n")
}

/// The head of `debian/rules`.
pub const RULES_HEAD: &'static str = "#!/usr/bin/make -f\n%:\n\tdh $@ --buildsystem cargo\n";

/// The text of `debian/rules`: with dev-dependencies the plain rules;
/// without, the test target too, which may not fail when the default
/// tests are broken.
pub open spec fn rules_text(has_dev_depends: bool, default_tests_broken: bool) -> Seq<char> {
    if has_dev_depends {
        RULES_HEAD@
    } else {
        RULES_HEAD@ + "\noverride_dh_auto_test:\n"@ + (if default_tests_broken {
            "\tdh_auto_test -- test --all || true\n"@
        } else {
            "\tdh_auto_test -- test --all\n"@
        })
    }
}

/// The text of `debian/rules`.
pub fn rules(has_dev_depends: bool, default_tests_broken: bool) -> (r: String)
    ensures
        r@ == rules_text(has_dev_depends, default_tests_broken),
{
    if has_dev_depends {
        String::from_str(RULES_HEAD)
    } else {
        let tail = if default_tests_broken {
            "\tdh_auto_test -- test --all || true\n"
        } else {
            "\tdh_auto_test -- test --all\n"
        };
        concat3(RULES_HEAD, "\noverride_dh_auto_test:\n", tail)
    }
}

/// Whether `s` ends with `t`.
pub open spec fn ends_with(s: Seq<char>, t: Seq<char>) -> bool {
    t.len() <= s.len() && s.subrange(s.len() - t.len(), s.len() as int) == t
}

/// The rules run the tests of a crate without dev-dependencies, and let
/// them fail exactly when its default tests are marked broken; a crate
/// with dev-dependencies gets no test target, so nothing is let fail.
pub proof fn lemma_rules_tolerate_failures_iff_broken(has_dev_depends: bool, default_tests_broken: bool)
    ensures
        ends_with(rules_text(has_dev_depends, default_tests_broken), " || true\n"@)
            <==> !has_dev_depends && default_tests_broken,
        !has_dev_depends ==> ends_with(
            rules_text(has_dev_depends, default_tests_broken).subrange(0, rules_text(has_dev_depends, default_tests_broken).len() - (if default_tests_broken { 9int } else { 1int })),
            "\noverride_dh_auto_test:\n\tdh_auto_test -- test --all"@,
        ),
{
    reveal_strlit(" || true\n");
    reveal_strlit("#!/usr/bin/make -f\n%:\n\tdh $@ --buildsystem cargo\n");
    reveal_strlit("\noverride_dh_auto_test:\n");
    reveal_strlit("\tdh_auto_test -- test --all || true\n");
    reveal_strlit("\tdh_auto_test -- test --all\n");
    reveal_strlit("\noverride_dh_auto_test:\n\tdh_auto_test -- test --all");
    let t = rules_text(has_dev_depends, default_tests_broken);
    let e = " || true\n"@;
    if has_dev_depends {
        assert(t.subrange(t.len() - e.len(), t.len() as int)[1] != e[1]);
    } else if default_tests_broken {
        assert(t.subrange(t.len() - e.len(), t.len() as int) =~= e);
        assert(t.subrange(0, t.len() - 9).subrange(t.len() - 9 - 51, t.len() - 9) =~= "\noverride_dh_auto_test:\n\tdh_auto_test -- test --all"@);
    } else {
        assert(t.subrange(t.len() - e.len(), t.len() as int)[1] != e[1]);
        assert(t.subrange(0, t.len() - 1).subrange(t.len() - 1 - 51, t.len() - 1) =~= "\noverride_dh_auto_test:\n\tdh_auto_test -- test --all"@);
    }
}

/// An or-clause with every alternative marked as not needed when the
/// package tests are not run.
pub open spec fn nocheck_spec(x: Seq<char>) -> Seq<char> {
    trim_end_spec(join_spec(split_spec(x, '|').map_values(|a: Seq<char>| nocheck_alt(a)), "|"@))
}

/// The build dependencies of the source package: the tools, then the
/// toolchain, the translated dependencies of the default feature (`deps`)
/// and the dependencies its overrides add; without binaries to build, all
/// but the tools are needed only for the tests.
pub open spec fn build_depends_text(
    config: Config,
    default_features: Seq<&str>,
    deps: Seq<Seq<char>>,
    has_bins: bool,
) -> Seq<Seq<char>> {
    let extra = seq!["cargo:native"@, "rustc:native"@, "libstd-rust-dev"@] + deps + field_for_feature_spec(
        config,
        PackageField::Depends,
        feature_key_spec("default"),
        default_features,
    );
    seq!["debhelper (>= 11)"@, "dh-cargo (>= 18)"@] + (if has_bins {
        extra
    } else {
        extra.map_values(|d: Seq<char>| nocheck_spec(d))
    })
}

/// The build dependencies of the source package. `default_features` and
/// `default_deps` are the features and crates the default feature needs.
pub fn source_build_depends(
    config: &Config,
    default_features: &[&str],
    default_deps: &[Dependency],
    has_bins: bool,
) -> (r: Result<Vec<String>, DepError>)
    ensures
        match deb_deps_spec(config.allow_prerelease_deps, default_deps@) {
            Err(e) => r == Err::<Vec<String>, DepError>(e),
            Ok(all) => r matches Ok(v) && exists|t: Seq<Seq<char>>|
                strictly_sorted(t) && t.to_set() == all.to_set() && views(v@) == build_depends_text(
                    *config,
                    default_features@,
                    t,
                    has_bins,
                ),
        },
{
    let translated = match deb_deps(config, default_deps) {
        Ok(t) => t,
        Err(e) => {
            return Err(e);
        },
    };
    let overrides = package_field_for_feature(config, PackageField::Depends, PackageKey::feature("default"), default_features);
    let mut extra: Vec<String> = Vec::new();
    extra.push(String::from_str("cargo:native"));
    extra.push(String::from_str("rustc:native"));
    extra.push(String::from_str("libstd-rust-dev"));
    let ghost e0 = views(extra@);
    extend_strings(&mut extra, &translated);
    extend_strings(&mut extra, &overrides);
    let ghost ev = views(extra@);
    assert(ev =~= seq!["cargo:native"@, "rustc:native"@, "libstd-rust-dev"@] + views(translated@) + views(overrides@)) by {
        assert(e0 =~= seq!["cargo:native"@, "rustc:native"@, "libstd-rust-dev"@]);
    }
    let mut out: Vec<String> = Vec::new();
    out.push(String::from_str("debhelper (>= 11)"));
    out.push(String::from_str("dh-cargo (>= 18)"));
    let ghost head = views(out@);
    assert(head =~= seq!["debhelper (>= 11)"@, "dh-cargo (>= 18)"@]);
    if has_bins {
        extend_strings(&mut out, &extra);
    } else {
        let mut i: usize = 0;
        while i < extra.len()
            invariant
                i <= extra@.len(),
                ev == views(extra@),
                views(out@) == head + ev.subrange(0, i as int).map_values(|d: Seq<char>| nocheck_spec(d)),
            decreases extra.len() - i,
        {
            let m = deb_dep_add_nocheck(extra[i].as_str());
            let ghost prev = views(out@);
            out.push(m);
            assert(views(out@) =~= prev.push(m@));
            assert(ev.subrange(0, i + 1).map_values(|d: Seq<char>| nocheck_spec(d)) =~= ev.subrange(0, i as int).map_values(
                |d: Seq<char>| nocheck_spec(d),
            ).push(nocheck_spec(ev[i as int])));
            i = i + 1;
        }
        assert(ev.subrange(0, ev.len() as int) =~= ev);
    }
    assert(views(out@) == build_depends_text(*config, default_features@, views(translated@), has_bins));
    Ok(out)
}

/// An optional borrowed string as an optional sequence.
pub open spec fn opt_str(o: Option<&str>) -> Option<Seq<char>> {
    match o {
        Some(s) => Some(s@),
        None => None,
    }
}

/// The override if there is one, else the crate's own text.
pub open spec fn chosen(over: Option<Seq<char>>, own: Option<Seq<char>>) -> Option<Seq<char>> {
    match over {
        Some(s) => Some(s),
        None => own,
    }
}

/// A comment that asks to override a long summary.
pub const LONG_SUMMARY_NOTE: &'static str = "\n# FIXME (packages.\"(name)\".section) debcargo auto-generated summaries are very long, consider overriding\n";

/// Whether the crate's own summary is used and is longer than 80 bytes.
pub open spec fn needs_long_summary_note(config_summary: Option<&str>, crate_summary: Option<&str>) -> bool {
    match config_summary {
        Some(_) => false,
        None => match crate_summary {
            Some(s) => (encode_utf8(s@).len() as usize) > 80,
            None => false,
        },
    }
}

/// The summary of the packages: the configured one, else the crate's; and
/// whether to note in the control file that the crate's own is longer
/// than 80 bytes.
pub fn choose_summary(config_summary: Option<&str>, crate_summary: Option<&str>) -> (r: (Option<String>, bool))
    ensures
        opt_seq(r.0) == chosen(opt_str(config_summary), opt_str(crate_summary)),
        r.1 == needs_long_summary_note(config_summary, crate_summary),
{
    match config_summary {
        Some(s) => (Some(String::from_str(s)), false),
        None => match crate_summary {
            Some(s) => (Some(String::from_str(s)), s.len() > 80),
            None => (None, false),
        },
    }
}

/// The description of the packages: the configured one, else the crate's.
pub fn choose_description(config_description: Option<&str>, crate_description: Option<&str>) -> (r: Option<String>)
    ensures
        opt_seq(r) == chosen(opt_str(config_description), opt_str(crate_description)),
{
    match config_description {
        Some(s) => Some(String::from_str(s)),
        None => match crate_description {
            Some(s) => Some(String::from_str(s)),
            None => None,
        },
    }
}

/// Whether the package of feature `f`, which provides `fs`, is recommended
/// by the bare library package: it is the default feature or provides it.
pub open spec fn recommended(f: Seq<char>, fs: Seq<Seq<char>>) -> bool {
    f == "default"@ || fs.contains("default"@)
}

/// The recommended (`want` true) or suggested feature packages, in order.
pub open spec fn feature_picks(ps: Seq<(Seq<char>, Seq<Seq<char>>)>, want: bool) -> Seq<Seq<char>>
    decreases ps.len(),
{
    if ps.len() == 0 {
        Seq::empty()
    } else {
        let rest = feature_picks(ps.drop_last(), want);
        let (f, fs) = ps.last();
        if f.len() > 0 && recommended(f, fs) == want {
            rest.push(f)
        } else {
            rest
        }
    }
}

/// The features whose packages the bare library package recommends and
/// those it suggests, from each feature and the features it provides.
pub fn recommends_suggests(provides: &Vec<(String, Vec<String>)>) -> (r: (Vec<String>, Vec<String>))
    ensures
        views(r.0@) == feature_picks(fmap_view(provides@), true),
        views(r.1@) == feature_picks(fmap_view(provides@), false),
{
    let ghost pv = fmap_view(provides@);
    let mut rec: Vec<String> = Vec::new();
    let mut sug: Vec<String> = Vec::new();
    let mut i: usize = 0;
    while i < provides.len()
        invariant
            i <= provides@.len(),
            pv == fmap_view(provides@),
            views(rec@) == feature_picks(pv.subrange(0, i as int), true),
            views(sug@) == feature_picks(pv.subrange(0, i as int), false),
        decreases provides.len() - i,
    {
        assert(pv.subrange(0, i + 1).drop_last() =~= pv.subrange(0, i as int));
        assert(pv.subrange(0, i + 1).last() == (provides@[i as int].0@, views(provides@[i as int].1@)));
        let f = provides[i].0.as_str();
        if !f.is_empty() {
            let is_default = crate::text::str_eq(f, "default") || contains_string(provides[i].1.as_slice(), "default");
            let ghost prev_r = views(rec@);
            let ghost prev_s = views(sug@);
            if is_default {
                rec.push(String::from_str(f));
                assert(views(rec@) =~= prev_r.push(f@));
            } else {
                sug.push(String::from_str(f));
                assert(views(sug@) =~= prev_s.push(f@));
            }
        }
        i = i + 1;
    }
    assert(pv.subrange(0, pv.len() as int) =~= pv);
    (rec, sug)
}

/// The arguments of the test of the package of feature `f`.
pub open spec fn feature_test_args_spec(f: Seq<char>) -> Seq<Seq<char>> {
    if f.len() == 0 {
        seq!["--no-default-features"@]
    } else {
        seq!["--features"@, f]
    }
}

/// The arguments of the test of the package of feature `f`.
pub fn feature_test_args(f: &str) -> (r: Vec<String>)
    ensures
        views(r@) == feature_test_args_spec(f@),
{
    let mut v: Vec<String> = Vec::new();
    if f.is_empty() {
        v.push(String::from_str("--no-default-features"));
    } else {
        v.push(String::from_str("--features"));
        v.push(String::from_str(f));
    }
    assert(views(v@) =~= feature_test_args_spec(f@));
    v
}

/// Whether the tests of feature `f` fail, by the table of broken tests.
pub open spec fn broken_in(b: Seq<(String, bool)>, f: Seq<char>) -> Option<bool>
    decreases b.len(),
{
    if b.len() == 0 {
        None
    } else if b[0].0@ == f {
        Some(b[0].1)
    } else {
        broken_in(b.drop_first(), f)
    }
}

fn lookup_broken(b: &Vec<(String, bool)>, f: &str) -> (r: Option<bool>)
    ensures
        r == broken_in(b@, f@),
{
    let mut i: usize = 0;
    assert(b@.skip(0) =~= b@);
    while i < b.len()
        invariant
            i <= b@.len(),
            broken_in(b@, f@) == broken_in(b@.skip(i as int), f@),
        decreases b.len() - i,
    {
        if crate::text::str_eq(b[i].0.as_str(), f) {
            return Some(b[i].1);
        }
        assert(b@.skip(i as int).drop_first() =~= b@.skip(i + 1));
        i = i + 1;
    }
    None
}

/// Whether the test of the package of feature `f`, which provides the
/// features `provides`, fails: it fails for `f` or for one of them. Every
/// one of them is in the table.
pub fn package_tests_broken(broken: &Vec<(String, bool)>, f: &str, provides: &Vec<String>) -> (r: bool)
    requires
        broken_in(broken@, f@) is Some,
        forall|i: int| 0 <= i < provides@.len() ==> broken_in(broken@, #[trigger] provides@[i]@) is Some,
    ensures
        r == (broken_in(broken@, f@) == Some(true) || exists|i: int|
            0 <= i < provides@.len() && broken_in(broken@, #[trigger] provides@[i]@) == Some(true)),
{
    if lookup_broken(broken, f) == Some(true) {
        return true;
    }
    let mut i: usize = 0;
    while i < provides.len()
        invariant
            i <= provides@.len(),
            forall|k: int| 0 <= k < i ==> broken_in(broken@, #[trigger] provides@[k]@) != Some(true),
        decreases provides.len() - i,
    {
        if lookup_broken(broken, provides[i].as_str()) == Some(true) {
            return true;
        }
        i = i + 1;
    }
    false
}

/// The description of the package of the crate's binaries.
pub open spec fn bins_boilerplate_text(upstream: Seq<char>, bins: Seq<Seq<char>>) -> Seq<char> {
    "This package contains the following binaries built from the Rust crate\n\""@ + upstream + "\":\n - "@
        + join_spec(bins, "\n - "@)
}

/// The description of the package of the crate's binaries.
pub fn bins_boilerplate(upstream: &str, bins: &Vec<String>) -> (r: String)
    ensures
        r@ == bins_boilerplate_text(upstream@, views(bins@)),
{
    let s = concat3("This package contains the following binaries built from the Rust crate\n\"", upstream, "\":\n - ");
    concat2(s.as_str(), join_strings(bins, "\n - ").as_str())
}

/// The binaries to package: none from a library whose configuration asks
/// for no binary package.
pub fn binaries_to_package(lib: bool, bins: Vec<String>, build_bin_package: bool) -> (r: Vec<String>)
    ensures
        r@ == (if lib && bins@.len() > 0 && !build_bin_package {
            Seq::empty()
        } else {
            bins@
        }),
{
    if lib && bins.len() > 0 && !build_bin_package {
        Vec::new()
    } else {
        bins
    }
}

/// The name of the package of the crate's binaries: the configured one,
/// else the crate name with `-` for `_`.
pub fn bin_package_name(config: &Config, crate_name: &str) -> (r: String)
    ensures
        r@ == (if config.bin_name@ == "<default>"@ {
            replace_char_spec(crate_name@, '_', "-"@)
        } else {
            config.bin_name@
        }),
{
    if crate::text::str_eq(config.bin_name.as_str(), "<default>") {
        replace_char(crate_name, '_', "-")
    } else {
        config.bin_name.clone()
    }
}

/// The years of the packaging: with a finished changelog, those of its
/// first and last entries (none when they cannot be read); otherwise from
/// its first entry, or this year, to this year.
pub fn copyright_years(changelog_ready: bool, changelog_years: Option<(i32, i32)>, this_year: i32) -> (r: Option<(i32, i32)>)
    ensures
        r == (if changelog_ready {
            changelog_years
        } else {
            match changelog_years {
                Some((first, _)) => Some((first, this_year)),
                None => Some((this_year, this_year)),
            }
        }),
{
    if changelog_ready {
        changelog_years
    } else {
        match changelog_years {
            Some((first, _)) => Some((first, this_year)),
            None => Some((this_year, this_year)),
        }
    }
}

} // verus!
