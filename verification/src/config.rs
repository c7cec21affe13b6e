//! The package configuration (`debcargo.toml`), as the library reads it: the
//! top-level options, the source override and the per-package overrides.

use vstd::prelude::*;
use vstd::string::*;

use crate::paths::{beside, path_beside};
use crate::text::{push_str, str_eq};

verus! {

/// The default maintainer of generated packages.
pub const RUST_MAINT: &'static str = "Debian Rust Maintainers <pkg-rust-maintainers@alioth-lists.debian.net>";

/// Overrides for the source package.
pub struct SourceOverride {
    pub section: Option<String>,
    pub policy: Option<String>,
    pub homepage: Option<String>,
    pub vcs_git: Option<String>,
    pub vcs_browser: Option<String>,
    pub build_depends: Option<Vec<String>>,
    pub build_depends_excludes: Option<Vec<String>>,
}

/// Overrides for one binary package.
pub struct PackageOverride {
    pub section: Option<String>,
    pub summary: Option<String>,
    pub description: Option<String>,
    pub depends: Option<Vec<String>>,
    pub recommends: Option<Vec<String>>,
    pub suggests: Option<Vec<String>>,
    pub provides: Option<Vec<String>>,
    pub extra_lines: Option<Vec<String>>,
    pub test_is_broken: Option<bool>,
    pub test_depends: Option<Vec<String>>,
}

/// The whole configuration. `packages` lists the per-package overrides under
/// their keys (`bin`, `lib`, `lib+<feature>`); a key occurs at most once.
pub struct Config {
    pub bin: Option<bool>,
    pub bin_name: String,
    pub semver_suffix: bool,
    pub overlay: Option<String>,
    pub excludes: Option<Vec<String>>,
    pub whitelist: Option<Vec<String>>,
    pub allow_prerelease_deps: bool,
    pub crate_src_path: Option<String>,
    pub summary: Option<String>,
    pub description: Option<String>,
    pub maintainer: String,
    pub uploaders: Option<Vec<String>>,
    pub collapse_features: bool,
    pub requires_root: Option<String>,
    pub source: Option<SourceOverride>,
    pub packages: Option<Vec<(String, PackageOverride)>>,
}

/// Which binary package an override is meant for.
#[derive(Clone, Copy)]
pub enum PackageKey<'a> {
    Bin,
    BareLib,
    FeatureLib(&'a str),
}

/// Which list-valued per-package field to read.
#[derive(Clone, Copy)]
pub enum PackageField {
    Depends,
    Recommends,
    Suggests,
    Provides,
    ExtraLines,
    TestDepends,
}

/// The key under which the overrides of a package are written.
pub open spec fn package_key_spec(key: PackageKey) -> Seq<char> {
    match key {
        PackageKey::Bin => "bin"@,
        PackageKey::BareLib => "lib"@,
        PackageKey::FeatureLib(f) => "lib+"@ + f@,
    }
}

/// The first entry of `ps` whose key is `k`.
pub open spec fn lookup_spec(ps: Seq<(String, PackageOverride)>, k: Seq<char>) -> Option<PackageOverride>
    decreases ps.len(),
{
    if ps.len() == 0 {
        None
    } else if ps[0].0@ == k {
        Some(ps[0].1)
    } else {
        lookup_spec(ps.drop_first(), k)
    }
}

/// Whether no two entries of a list of named entries have the same key.
pub open spec fn keys_unique<T>(s: Seq<(String, T)>) -> bool {
    forall|i: int, j: int| 0 <= i < j < s.len() ==> #[trigger] s[i].0@ != #[trigger] s[j].0@
}

/// Whether no two entries of a list of named entries have the same key.
pub fn has_unique_keys<T>(s: &Vec<(String, T)>) -> (r: bool)
    ensures
        r == keys_unique(s@),
{
    let mut i: usize = 0;
    while i < s.len()
        invariant
            i <= s@.len(),
            forall|a: int, b: int| 0 <= a < i && a < b < s@.len() ==> #[trigger] s@[a].0@ != #[trigger] s@[b].0@,
        decreases s.len() - i,
    {
        let mut j: usize = i + 1;
        while j < s.len()
            invariant
                i < j <= s@.len(),
                forall|a: int, b: int| 0 <= a < i && a < b < s@.len() ==> #[trigger] s@[a].0@ != #[trigger] s@[b].0@,
                forall|b: int| i < b < j ==> s@[i as int].0@ != #[trigger] s@[b].0@,
            decreases s.len() - j,
        {
            if str_eq(s[i].0.as_str(), s[j].0.as_str()) {
                return false;
            }
            j = j + 1;
        }
        i = i + 1;
    }
    true
}

/// With distinct keys, the entry found for a key is the one under that key.
pub proof fn lemma_lookup_unique(ps: Seq<(String, PackageOverride)>, i: int)
    requires
        keys_unique(ps),
        0 <= i < ps.len(),
    ensures
        lookup_spec(ps, ps[i].0@) == Some(ps[i].1),
    decreases i,
{
    if i > 0 {
        let t = ps.drop_first();
        assert(ps[0].0@ != ps[i].0@);
        assert forall|a: int, b: int| 0 <= a < b < t.len() implies #[trigger] t[a].0@ != #[trigger] t[b].0@ by {
            assert(t[a] == ps[a + 1] && t[b] == ps[b + 1]);
        }
        assert(t[i - 1] == ps[i]);
        lemma_lookup_unique(t, i - 1);
    }
}

/// The overrides of the package with key `key`, if any.
pub open spec fn package_spec(config: Config, key: PackageKey) -> Option<PackageOverride> {
    match config.packages {
        None => None,
        Some(ps) => lookup_spec(ps@, package_key_spec(key)),
    }
}

/// A list-valued field of a package override.
pub open spec fn field_of(p: PackageOverride, field: PackageField) -> Option<Vec<String>> {
    match field {
        PackageField::Depends => p.depends,
        PackageField::Recommends => p.recommends,
        PackageField::Suggests => p.suggests,
        PackageField::Provides => p.provides,
        PackageField::ExtraLines => p.extra_lines,
        PackageField::TestDepends => p.test_depends,
    }
}

/// A list-valued field of the package with key `key`, if set.
pub open spec fn package_field_spec(config: Config, key: PackageKey, field: PackageField) -> Option<Vec<String>> {
    match package_spec(config, key) {
        None => None,
        Some(p) => field_of(p, field),
    }
}

/// An optional string viewed as an optional sequence of characters.
pub open spec fn opt_view(o: Option<String>) -> Option<Seq<char>> {
    match o {
        None => None,
        Some(s) => Some(s@),
    }
}

/// A borrowed optional string viewed as an optional sequence of characters.
pub open spec fn opt_str_view(o: Option<&str>) -> Option<Seq<char>> {
    match o {
        None => None,
        Some(s) => Some(s@),
    }
}

/// The strings of an optional list, or none.
pub open spec fn opt_vec_view(o: Option<Vec<String>>) -> Seq<Seq<char>> {
    match o {
        None => Seq::empty(),
        Some(v) => v@.map_values(|s: String| s@),
    }
}

/// The view of a borrowed optional list.
pub open spec fn opt_ref_vec(o: Option<&Vec<String>>) -> Option<Vec<String>> {
    match o {
        None => None,
        Some(v) => Some(*v),
    }
}

fn opt_as_str(o: &Option<String>) -> (r: Option<&str>)
    ensures
        opt_str_view(r) == opt_view(*o),
{
    match o {
        Some(s) => Some(s.as_str()),
        None => None,
    }
}

impl<'a> PackageKey<'a> {
    /// The key of the package of feature `f`; the empty feature is the bare library.
    pub fn feature(f: &'a str) -> (r: PackageKey<'a>)
        ensures
            f@.len() == 0 ==> r == PackageKey::BareLib,
            f@.len() != 0 ==> r == PackageKey::FeatureLib(f),
    {
        if f.is_empty() {
            PackageKey::BareLib
        } else {
            PackageKey::FeatureLib(f)
        }
    }
}

/// The key under which the overrides of the package are written: `bin`, `lib`
/// or `lib+<feature>`.
pub fn package_key_string(key: PackageKey) -> (r: String)
    ensures
        r@ == package_key_spec(key),
{
    match key {
        PackageKey::Bin => String::from_str("bin"),
        PackageKey::BareLib => String::from_str("lib"),
        PackageKey::FeatureLib(feature) => {
            let mut s = String::from_str("lib+");
            push_str(&mut s, feature);
            s
        },
    }
}

impl Config {
    /// A package key occurs at most once among the per-package overrides.
    pub open spec fn wf(&self) -> bool {
        match self.packages {
            Some(ps) => keys_unique(ps@),
            None => true,
        }
    }

    /// Whether a package key occurs at most once among the per-package
    /// overrides.
    pub fn is_wf(&self) -> (r: bool)
        ensures
            r == self.wf(),
    {
        match &self.packages {
            Some(ps) => has_unique_keys(ps),
            None => true,
        }
    }

    /// The configuration used when no `debcargo.toml` is given.
    pub fn default() -> (r: Config)
        ensures
            r.wf(),
            r.bin is None,
            r.bin_name@ == "<default>"@,
            !r.semver_suffix,
            r.overlay is None,
            r.excludes is None,
            r.whitelist is None,
            !r.allow_prerelease_deps,
            r.crate_src_path is None,
            r.summary is None,
            r.description is None,
            r.maintainer@ == RUST_MAINT@,
            r.uploaders is None,
            !r.collapse_features,
            r.requires_root is None,
            r.source is None,
            r.packages is None,
    {
        Config {
            bin: None,
            bin_name: String::from_str("<default>"),
            semver_suffix: false,
            overlay: None,
            excludes: None,
            whitelist: None,
            allow_prerelease_deps: false,
            crate_src_path: None,
            summary: None,
            description: None,
            maintainer: String::from_str(RUST_MAINT),
            uploaders: None,
            collapse_features: false,
            source: None,
            packages: None,
            requires_root: None,
        }
    }

    /// The overlay directory: the configured one, beside the configuration
    /// file.
    pub fn overlay_dir(&self, config_path: Option<&str>) -> (r: Option<String>)
        ensures
            opt_view(r) == beside(opt_str_view(config_path), opt_view(self.overlay)),
    {
        let o: Option<&str> = match &self.overlay {
            Some(o) => Some(o.as_str()),
            None => None,
        };
        path_beside(config_path, o)
    }

    /// The directory of the crate's sources, when configured: beside the
    /// configuration file.
    pub fn crate_src_path(&self, config_path: Option<&str>) -> (r: Option<String>)
        ensures
            opt_view(r) == beside(opt_str_view(config_path), opt_view(self.crate_src_path)),
    {
        let c: Option<&str> = match &self.crate_src_path {
            Some(c) => Some(c.as_str()),
            None => None,
        };
        path_beside(config_path, c)
    }

    /// Whether a binary package is built: as configured, else unless the
    /// package name carries a semver suffix.
    pub fn build_bin_package(&self) -> (r: bool)
        ensures
            r == match self.bin {
                None => !self.semver_suffix,
                Some(b) => b,
            },
    {
        match self.bin {
            None => !self.semver_suffix,
            Some(b) => b,
        }
    }

    pub fn orig_tar_excludes(&self) -> (r: Option<&Vec<String>>)
        ensures
            opt_ref_vec(r) == self.excludes,
    {
        self.excludes.as_ref()
    }

    pub fn orig_tar_whitelist(&self) -> (r: Option<&Vec<String>>)
        ensures
            opt_ref_vec(r) == self.whitelist,
    {
        self.whitelist.as_ref()
    }

    pub fn maintainer(&self) -> (r: &str)
        ensures
            r@ == self.maintainer@,
    {
        self.maintainer.as_str()
    }

    pub fn uploaders(&self) -> (r: Option<&Vec<String>>)
        ensures
            opt_ref_vec(r) == self.uploaders,
    {
        self.uploaders.as_ref()
    }

    pub fn requires_root(&self) -> (r: Option<&String>)
        ensures
            match r {
                None => self.requires_root is None,
                Some(s) => self.requires_root == Some(*s),
            },
    {
        self.requires_root.as_ref()
    }

    pub fn section(&self) -> (r: Option<&str>)
        ensures
            opt_str_view(r) == match self.source {
                None => None,
                Some(s) => opt_view(s.section),
            },
    {
        match &self.source {
            Some(s) => opt_as_str(&s.section),
            None => None,
        }
    }

    pub fn policy_version(&self) -> (r: Option<&str>)
        ensures
            opt_str_view(r) == match self.source {
                None => None,
                Some(s) => opt_view(s.policy),
            },
    {
        match &self.source {
            Some(s) => opt_as_str(&s.policy),
            None => None,
        }
    }

    pub fn homepage(&self) -> (r: Option<&str>)
        ensures
            opt_str_view(r) == match self.source {
                None => None,
                Some(s) => opt_view(s.homepage),
            },
    {
        match &self.source {
            Some(s) => opt_as_str(&s.homepage),
            None => None,
        }
    }

    pub fn vcs_git(&self) -> (r: Option<&str>)
        ensures
            opt_str_view(r) == match self.source {
                None => None,
                Some(s) => opt_view(s.vcs_git),
            },
    {
        match &self.source {
            Some(s) => opt_as_str(&s.vcs_git),
            None => None,
        }
    }

    pub fn vcs_browser(&self) -> (r: Option<&str>)
        ensures
            opt_str_view(r) == match self.source {
                None => None,
                Some(s) => opt_view(s.vcs_browser),
            },
    {
        match &self.source {
            Some(s) => opt_as_str(&s.vcs_browser),
            None => None,
        }
    }

    pub fn build_depends(&self) -> (r: Option<&Vec<String>>)
        ensures
            opt_ref_vec(r) == match self.source {
                None => None,
                Some(s) => s.build_depends,
            },
    {
        match &self.source {
            Some(s) => s.build_depends.as_ref(),
            None => None,
        }
    }

    pub fn build_depends_excludes(&self) -> (r: Option<&Vec<String>>)
        ensures
            opt_ref_vec(r) == match self.source {
                None => None,
                Some(s) => s.build_depends_excludes,
            },
    {
        match &self.source {
            Some(s) => s.build_depends_excludes.as_ref(),
            None => None,
        }
    }

    /// The overrides of the package with key `key`, if any.
    fn with_package(&self, key: PackageKey) -> (r: Option<&PackageOverride>)
        ensures
            match r {
                None => package_spec(*self, key) is None,
                Some(p) => package_spec(*self, key) == Some(*p),
            },
    {
        match &self.packages {
            None => None,
            Some(ps) => {
                let k = package_key_string(key);
                let mut i: usize = 0;
                assert(ps@.subrange(0, ps@.len() as int) =~= ps@);
                while i < ps.len()
                    invariant
                        i <= ps@.len(),
                        k@ == package_key_spec(key),
                        self.packages == Some(*ps),
                        lookup_spec(ps@, k@) == lookup_spec(ps@.subrange(i as int, ps@.len() as int), k@),
                    decreases ps.len() - i,
                {
                    assert(ps@.subrange(i as int, ps@.len() as int).drop_first() =~= ps@.subrange(i + 1, ps@.len() as int));
                    if ps[i].0 == k {
                        return Some(&ps[i].1);
                    }
                    i = i + 1;
                }
                None
            },
        }
    }

    pub fn package_section(&self, key: PackageKey) -> (r: Option<&str>)
        ensures
            opt_str_view(r) == match package_spec(*self, key) {
                None => None,
                Some(p) => opt_view(p.section),
            },
    {
        match self.with_package(key) {
            Some(p) => opt_as_str(&p.section),
            None => None,
        }
    }

    pub fn package_summary(&self, key: PackageKey) -> (r: Option<&str>)
        ensures
            opt_str_view(r) == match package_spec(*self, key) {
                None => None,
                Some(p) => opt_view(p.summary),
            },
    {
        match self.with_package(key) {
            Some(p) => opt_as_str(&p.summary),
            None => None,
        }
    }

    pub fn package_description(&self, key: PackageKey) -> (r: Option<&str>)
        ensures
            opt_str_view(r) == match package_spec(*self, key) {
                None => None,
                Some(p) => opt_view(p.description),
            },
    {
        match self.with_package(key) {
            Some(p) => opt_as_str(&p.description),
            None => None,
        }
    }

    /// A list-valued field of the package with key `key`.
    pub fn package_field(&self, key: PackageKey, field: PackageField) -> (r: Option<&Vec<String>>)
        ensures
            opt_ref_vec(r) == package_field_spec(*self, key, field),
    {
        match self.with_package(key) {
            Some(p) => match field {
                PackageField::Depends => p.depends.as_ref(),
                PackageField::Recommends => p.recommends.as_ref(),
                PackageField::Suggests => p.suggests.as_ref(),
                PackageField::Provides => p.provides.as_ref(),
                PackageField::ExtraLines => p.extra_lines.as_ref(),
                PackageField::TestDepends => p.test_depends.as_ref(),
            },
            None => None,
        }
    }

    pub fn package_depends(&self, key: PackageKey) -> (r: Option<&Vec<String>>)
        ensures
            opt_ref_vec(r) == package_field_spec(*self, key, PackageField::Depends),
    {
        self.package_field(key, PackageField::Depends)
    }

    pub fn package_recommends(&self, key: PackageKey) -> (r: Option<&Vec<String>>)
        ensures
            opt_ref_vec(r) == package_field_spec(*self, key, PackageField::Recommends),
    {
        self.package_field(key, PackageField::Recommends)
    }

    pub fn package_suggests(&self, key: PackageKey) -> (r: Option<&Vec<String>>)
        ensures
            opt_ref_vec(r) == package_field_spec(*self, key, PackageField::Suggests),
    {
        self.package_field(key, PackageField::Suggests)
    }

    pub fn package_provides(&self, key: PackageKey) -> (r: Option<&Vec<String>>)
        ensures
            opt_ref_vec(r) == package_field_spec(*self, key, PackageField::Provides),
    {
        self.package_field(key, PackageField::Provides)
    }

    pub fn package_extra_lines(&self, key: PackageKey) -> (r: Option<&Vec<String>>)
        ensures
            opt_ref_vec(r) == package_field_spec(*self, key, PackageField::ExtraLines),
    {
        self.package_field(key, PackageField::ExtraLines)
    }

    pub fn package_test_is_broken(&self, key: PackageKey) -> (r: Option<bool>)
        ensures
            r == match package_spec(*self, key) {
                None => None,
                Some(p) => p.test_is_broken,
            },
    {
        match self.with_package(key) {
            Some(p) => p.test_is_broken,
            None => None,
        }
    }

    pub fn package_test_depends(&self, key: PackageKey) -> (r: Option<&Vec<String>>)
        ensures
            opt_ref_vec(r) == package_field_spec(*self, key, PackageField::TestDepends),
    {
        self.package_field(key, PackageField::TestDepends)
    }
}

/// The values of a per-package list field gathered over the package of
/// `feature` and then the packages of each feature in `f_provides`, in order.
pub open spec fn field_for_feature_spec(
    config: Config,
    field: PackageField,
    feature: PackageKey,
    f_provides: Seq<&str>,
) -> Seq<Seq<char>>
    decreases f_provides.len(),
{
    if f_provides.len() == 0 {
        opt_vec_view(package_field_spec(config, feature, field))
    } else {
        field_for_feature_spec(config, field, feature, f_provides.drop_last()) + opt_vec_view(
            package_field_spec(config, feature_key_spec(f_provides.last()), field),
        )
    }
}

/// The key of the package of a feature.
pub open spec fn feature_key_spec<'a>(f: &'a str) -> PackageKey<'a> {
    if f@.len() == 0 {
        PackageKey::BareLib
    } else {
        PackageKey::FeatureLib(f)
    }
}

fn extend_from(out: &mut Vec<String>, v: Option<&Vec<String>>)
    ensures
        final(out)@.map_values(|s: String| s@) == old(out)@.map_values(|s: String| s@)
            + opt_vec_view(opt_ref_vec(v)),
{
    if let Some(v) = v {
        let ghost start = out@;
        let mut i: usize = 0;
        while i < v.len()
            invariant
                i <= v@.len(),
                out@.map_values(|s: String| s@) == start.map_values(|s: String| s@)
                    + v@.subrange(0, i as int).map_values(|s: String| s@),
            decreases v.len() - i,
        {
            let ghost prev = out@;
            out.push(v[i].clone());
            assert(out@ =~= prev.push(v@[i as int]));
            assert(out@.map_values(|s: String| s@) =~= prev.map_values(|s: String| s@).push(v@[i as int]@));
            assert(v@.subrange(0, i + 1) =~= v@.subrange(0, i as int).push(v@[i as int]));
            assert(v@.subrange(0, i + 1).map_values(|s: String| s@) =~= v@.subrange(0, i as int).map_values(|s: String| s@).push(v@[i as int]@));
            assert(out@.map_values(|s: String| s@) =~= start.map_values(|s: String| s@)
                + v@.subrange(0, i + 1).map_values(|s: String| s@));
            i = i + 1;
        }
        assert(v@.subrange(0, v@.len() as int) =~= v@);
    } else {
        assert(out@.map_values(|s: String| s@) =~= out@.map_values(|s: String| s@) + Seq::<Seq<char>>::empty());
    }
}

/// Gathers a per-package list field over the package of `feature` and the
/// packages of the features it provides.
pub fn package_field_for_feature(
    config: &Config,
    field: PackageField,
    feature: PackageKey,
    f_provides: &[&str],
) -> (r: Vec<String>)
    ensures
        r@.map_values(|s: String| s@) == field_for_feature_spec(*config, field, feature, f_provides@),
{
    let mut out: Vec<String> = Vec::new();
    extend_from(&mut out, config.package_field(feature, field));
    assert(out@.map_values(|s: String| s@) =~= field_for_feature_spec(*config, field, feature, f_provides@.subrange(0, 0)));
    let mut i: usize = 0;
    while i < f_provides.len()
        invariant
            i <= f_provides@.len(),
            out@.map_values(|s: String| s@) == field_for_feature_spec(*config, field, feature, f_provides@.subrange(0, i as int)),
        decreases f_provides.len() - i,
    {
        let key = PackageKey::feature(f_provides[i]);
        extend_from(&mut out, config.package_field(key, field));
        assert(f_provides@.subrange(0, i + 1).drop_last() =~= f_provides@.subrange(0, i as int));
        i = i + 1;
    }
    assert(f_provides@.subrange(0, f_provides@.len() as int) =~= f_provides@);
    out
}

} // verus!
