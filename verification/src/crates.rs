//! What the packaging needs to know of a crate: its targets, its
//! dependencies, and the requirement that names a version of it.

use vstd::prelude::*;
use vstd::string::*;

use crate::dependency::{dep_same, DepKind, Dependency};
use crate::paths::{components, debug_text, extension, path_components, path_debug, path_extension};
use crate::pattern::{glob_matches, glob_valid, regex_replace, regex_valid, Glob, RegexMatcher};
use crate::text::{
    char_to_uppercase, clone_strings, concat2, concat3, occurs_at, replace_spec, replace_str,
    sort_dedup, starts_with_spec, str_chars, str_eq, strictly_sorted, string_of, trim,
    trim_end_matches, trim_end_matches_spec, trim_spec, uppercase_char, views,
};

verus! {

/// What a target of a crate builds.
#[derive(Clone, Copy, PartialEq, Eq, Structural)]
pub enum TargetKind {
    Lib,
    Bin,
    Other,
}

/// A target of a crate.
pub struct Target {
    pub kind: TargetKind,
    pub name: String,
}

/// Whether the crate has a library target.
pub fn is_lib(targets: &Vec<Target>) -> (r: bool)
    ensures
        r == exists|i: int| 0 <= i < targets@.len() && #[trigger] targets@[i].kind == TargetKind::Lib,
{
    let mut i: usize = 0;
    while i < targets.len()
        invariant
            i <= targets@.len(),
            forall|k: int| 0 <= k < i ==> #[trigger] targets@[k].kind != TargetKind::Lib,
        decreases targets.len() - i,
    {
        if targets[i].kind == TargetKind::Lib {
            return true;
        }
        i = i + 1;
    }
    false
}

/// Whether `name` is the name of a binary target.
pub open spec fn is_bin_named(targets: Seq<Target>, name: Seq<char>) -> bool {
    exists|i: int| 0 <= i < targets.len() && targets[i].kind == TargetKind::Bin && #[trigger] targets[i].name@ == name
}

/// The names of the binary targets, in increasing order.
pub fn get_binary_targets(targets: &Vec<Target>) -> (r: Vec<String>)
    ensures
        strictly_sorted(views(r@)),
        forall|n: Seq<char>| #[trigger] views(r@).contains(n) <==> is_bin_named(targets@, n),
{
    let mut bins: Vec<String> = Vec::new();
    let mut i: usize = 0;
    while i < targets.len()
        invariant
            i <= targets@.len(),
            forall|n: Seq<char>| #[trigger] views(bins@).contains(n) <==> is_bin_named(targets@.subrange(0, i as int), n),
        decreases targets.len() - i,
    {
        let ghost prev = views(bins@);
        if targets[i].kind == TargetKind::Bin {
            bins.push(targets[i].name.clone());
            assert(views(bins@) =~= prev.push(targets@[i as int].name@));
        }
        proof {
            let sub = targets@.subrange(0, i + 1);
            assert forall|n: Seq<char>| #[trigger] views(bins@).contains(n) <==> is_bin_named(sub, n) by {
                if is_bin_named(sub, n) {
                    let k = choose|k: int| 0 <= k < sub.len() && sub[k].kind == TargetKind::Bin && #[trigger] sub[k].name@ == n;
                    if k < i {
                        assert(targets@.subrange(0, i as int)[k] == sub[k]);
                        assert(is_bin_named(targets@.subrange(0, i as int), n));
                        assert(prev.contains(n));
                        let j = choose|j: int| 0 <= j < prev.len() && prev[j] == n;
                        assert(views(bins@)[j] == n);
                    } else {
                        assert(views(bins@)[prev.len() as int] == n);
                    }
                }
                if views(bins@).contains(n) {
                    let j = choose|j: int| 0 <= j < views(bins@).len() && views(bins@)[j] == n;
                    if j < prev.len() {
                        assert(prev[j] == n);
                        assert(prev.contains(n));
                        let k = choose|k: int|
                            0 <= k < i && targets@.subrange(0, i as int)[k].kind == TargetKind::Bin
                                && #[trigger] targets@.subrange(0, i as int)[k].name@ == n;
                        assert(sub[k] == targets@.subrange(0, i as int)[k]);
                    } else {
                        assert(sub[i as int].name@ == n);
                    }
                }
            }
        }
        i = i + 1;
    }
    assert(targets@.subrange(0, targets@.len() as int) =~= targets@);
    let r = sort_dedup(bins);
    proof {
        assert forall|n: Seq<char>| #[trigger] views(r@).contains(n) <==> is_bin_named(targets@, n) by {
            assert(views(r@).to_set().contains(n) == views(r@).contains(n));
            assert(views(bins@).to_set().contains(n) == views(bins@).contains(n));
        }
    }
    r
}

/// The development dependencies, in order.
pub open spec fn dev_deps_spec(deps: Seq<Dependency>, r: Seq<Dependency>) -> bool {
    let devs = deps.filter(|d: Dependency| d.kind == DepKind::Development);
    &&& r.len() == devs.len()
    &&& forall|i: int| 0 <= i < r.len() ==> dep_same(#[trigger] r[i], devs[i])
}

/// The development dependencies of a crate.
pub fn dev_dependencies(deps: &Vec<Dependency>) -> (r: Vec<Dependency>)
    ensures
        dev_deps_spec(deps@, r@),
{
    let mut out: Vec<Dependency> = Vec::new();
    let mut i: usize = 0;
    while i < deps.len()
        invariant
            i <= deps@.len(),
            dev_deps_spec(deps@.subrange(0, i as int), out@),
        decreases deps.len() - i,
    {
        let ghost prev = out@;
        proof {
            let pre = deps@.subrange(0, i as int);
            assert(deps@.subrange(0, i + 1) =~= pre.push(deps@[i as int]));
            pre.lemma_filter_push(deps@[i as int], |d: Dependency| d.kind == DepKind::Development);
        }
        if deps[i].kind == DepKind::Development {
            out.push(deps[i].copy());
        }
        i = i + 1;
    }
    assert(deps@.subrange(0, deps@.len() as int) =~= deps@);
    out
}

/// The version requirement for a version given on the command line:
/// none when empty, `=<v>` for a bare version, else as given.
pub open spec fn version_req_for(v: Option<Seq<char>>) -> Option<Seq<char>> {
    match v {
        None => None,
        Some(s) => if s.len() == 0 {
            None
        } else if '0' <= s[0] && s[0] <= '9' {
            Some("="@ + s)
        } else {
            Some(s)
        },
    }
}

/// The version requirement for a version given on the command line.
pub fn normalize_version_req(version: Option<&str>) -> (r: Option<String>)
    ensures
        match r {
            Some(s) => version_req_for(match version {
                Some(v) => Some(v@),
                None => None,
            }) == Some(s@),
            None => version_req_for(match version {
                Some(v) => Some(v@),
                None => None,
            }) is None,
        },
{
    match version {
        None => None,
        Some(v) => {
            if v.is_empty() {
                None
            } else {
                let c = v.get_char(0);
                if '0' <= c && c <= '9' {
                    Some(concat2("=", v))
                } else {
                    Some(String::from_str(v))
                }
            }
        },
    }
}

/// A dependency as `<package> <requirement>`.
pub fn show_dep(dep: &Dependency) -> (r: String)
    ensures
        r@ == dep.package_name@ + " "@ + dep.version_req@,
{
    concat3(dep.package_name.as_str(), " ", dep.version_req.as_str())
}

/// One thing a feature of a crate enables.
pub enum FeatureValue {
    /// Another feature of the crate.
    Feature(String),
    /// An optional dependency, by the name the manifest gives it.
    Dep(String),
    /// A feature of a dependency: the dependency's name, then the feature.
    DepFeature(String, String),
}

/// What a feature needs: other features of the crate (the empty name is the
/// bare library), and dependencies.
pub struct FeatureDeps {
    pub features: Vec<String>,
    pub deps: Vec<Dependency>,
}

/// Whether a dependency is needed to build (it is not only for development).
pub open spec fn non_dev(d: Dependency) -> bool {
    d.kind != DepKind::Development
}

/// The dependencies needed to build that the manifest calls `n`, in order.
pub open spec fn deps_named(deps: Seq<Dependency>, n: Seq<char>) -> Seq<Dependency>
    decreases deps.len(),
{
    if deps.len() == 0 {
        Seq::empty()
    } else {
        let r = deps_named(deps.drop_last(), n);
        if non_dev(deps.last()) && deps.last().name_in_toml@ == n {
            r.push(deps.last())
        } else {
            r
        }
    }
}

/// The dependencies needed to build that are not optional and that the
/// manifest calls `n`, in order.
pub open spec fn required_named(deps: Seq<Dependency>, n: Seq<char>) -> Seq<Dependency>
    decreases deps.len(),
{
    if deps.len() == 0 {
        Seq::empty()
    } else {
        let r = required_named(deps.drop_last(), n);
        if non_dev(deps.last()) && !deps.last().optional && deps.last().name_in_toml@ == n {
            r.push(deps.last())
        } else {
            r
        }
    }
}

/// The required dependencies, grouped by the names `ns` in turn.
pub open spec fn required_by_names(deps: Seq<Dependency>, ns: Seq<Seq<char>>) -> Seq<Dependency>
    decreases ns.len(),
{
    if ns.len() == 0 {
        Seq::empty()
    } else {
        required_by_names(deps, ns.drop_last()) + required_named(deps, ns.last())
    }
}

/// The last optional dependency needed to build that the manifest calls `n`.
pub open spec fn last_optional(deps: Seq<Dependency>, n: Seq<char>) -> Option<Dependency>
    decreases deps.len(),
{
    if deps.len() == 0 {
        None
    } else if non_dev(deps.last()) && deps.last().optional && deps.last().name_in_toml@ == n {
        Some(deps.last())
    } else {
        last_optional(deps.drop_last(), n)
    }
}

/// Whether some development dependency is called `n`.
pub open spec fn dev_named(deps: Seq<Dependency>, n: Seq<char>) -> bool {
    exists|i: int| 0 <= i < deps.len() && !non_dev(deps[i]) && #[trigger] deps[i].name_in_toml@ == n
}

/// The names of the dependencies needed to build.
pub open spec fn build_dep_names(deps: Seq<Dependency>) -> Set<Seq<char>> {
    Set::new(|n: Seq<char>| exists|i: int| 0 <= i < deps.len() && non_dev(deps[i]) && #[trigger] deps[i].name_in_toml@ == n)
}

/// The features that the values name.
pub open spec fn value_features(vs: Seq<FeatureValue>) -> Seq<Seq<char>>
    decreases vs.len(),
{
    if vs.len() == 0 {
        Seq::empty()
    } else {
        let r = value_features(vs.drop_last());
        match vs.last() {
            FeatureValue::Feature(f) => r.push(f@),
            _ => r,
        }
    }
}

/// The dependencies that the values name, each with the one feature it is
/// restricted to, if any.
pub open spec fn value_deps(deps: Seq<Dependency>, vs: Seq<FeatureValue>) -> Seq<(Dependency, Option<Seq<char>>)>
    decreases vs.len(),
{
    if vs.len() == 0 {
        Seq::empty()
    } else {
        let r = value_deps(deps, vs.drop_last());
        match vs.last() {
            FeatureValue::Feature(_) => r,
            FeatureValue::Dep(n) => r + deps_named(deps, n@).map_values(|d: Dependency| (d, None::<Seq<char>>)),
            FeatureValue::DepFeature(n, f) => r + deps_named(deps, n@).map_values(|d: Dependency| (d, Some(f@))),
        }
    }
}

/// The features a feature needs: those it names, or the bare library.
pub open spec fn entry_features(vs: Seq<FeatureValue>) -> Seq<Seq<char>> {
    if value_features(vs).len() == 0 {
        seq![Seq::<char>::empty()]
    } else {
        value_features(vs)
    }
}

/// `a` is `x.0`, restricted to the feature `x.1` (without the default
/// features) where there is one.
pub open spec fn dep_as(a: Dependency, x: (Dependency, Option<Seq<char>>)) -> bool {
    match x.1 {
        None => dep_same(a, x.0),
        Some(f) => {
            &&& a.package_name@ == x.0.package_name@
            &&& a.name_in_toml@ == x.0.name_in_toml@
            &&& a.version_req@ == x.0.version_req@
            &&& !a.uses_default_features
            &&& views(a.features@) == seq![f]
            &&& a.kind == x.0.kind
            &&& a.optional == x.0.optional
        },
    }
}

/// The entry holds the features `fs` and the dependencies `ds`.
pub open spec fn entry_is(e: FeatureDeps, fs: Seq<Seq<char>>, ds: Seq<(Dependency, Option<Seq<char>>)>) -> bool {
    &&& views(e.features@) == fs
    &&& e.deps@.len() == ds.len()
    &&& forall|i: int| 0 <= i < ds.len() ==> dep_as(#[trigger] e.deps@[i], ds[i])
}

/// The values of feature `k`, if it is one.
pub open spec fn feature_values(features: Seq<(String, Vec<FeatureValue>)>, k: Seq<char>) -> Option<Seq<FeatureValue>>
    decreases features.len(),
{
    if features.len() == 0 {
        None
    } else if features[0].0@ == k {
        Some(features[0].1@)
    } else {
        feature_values(features.drop_first(), k)
    }
}

/// Whether every dependency that a feature names exists: one needed to
/// build, or, for a feature of a dependency, one for development.
pub open spec fn features_resolvable(deps: Seq<Dependency>, features: Seq<(String, Vec<FeatureValue>)>) -> bool {
    forall|i: int, j: int|
        0 <= i < features.len() && 0 <= j < features[i].1@.len() ==> match #[trigger] features[i].1@[j] {
            FeatureValue::Feature(_) => true,
            FeatureValue::Dep(n) => deps_named(deps, n@).len() > 0,
            FeatureValue::DepFeature(n, _) => deps_named(deps, n@).len() > 0 || dev_named(deps, n@),
        }
}

/// The keys of the feature map, in the order given.
pub open spec fn feature_keys(features: Seq<(String, Vec<FeatureValue>)>) -> Seq<Seq<char>> {
    features.map_values(|e: (String, Vec<FeatureValue>)| e.0@)
}

/// The entry of `k` in the map of features and dependencies: the bare
/// library needs the required dependencies; an optional dependency is a
/// feature that needs the bare library and the last dependency of that
/// name; a feature needs what it names; and the default feature, when the
/// crate has none, needs the bare library.
pub open spec fn dep_info_entry(
    deps: Seq<Dependency>,
    features: Seq<(String, Vec<FeatureValue>)>,
    k: Seq<char>,
    e: FeatureDeps,
) -> bool {
    if k.len() == 0 {
        &&& e.features@.len() == 0
        &&& exists|ns: Seq<Seq<char>>|
            strictly_sorted(ns) && ns.to_set() == build_dep_names(deps) && entry_is(
                e,
                Seq::empty(),
                required_by_names(deps, ns).map_values(|d: Dependency| (d, None::<Seq<char>>)),
            )
    } else if last_optional(deps, k) is Some {
        entry_is(e, seq![Seq::<char>::empty()], seq![(last_optional(deps, k)->0, None::<Seq<char>>)])
    } else if feature_values(features, k) is Some {
        let vs = feature_values(features, k)->0;
        entry_is(e, entry_features(vs), value_deps(deps, vs))
    } else {
        &&& k == "default"@
        &&& entry_is(e, seq![Seq::<char>::empty()], Seq::empty())
    }
}

/// Whether `k` is a key of the map of features and dependencies.
pub open spec fn dep_info_key(deps: Seq<Dependency>, features: Seq<(String, Vec<FeatureValue>)>, k: Seq<char>) -> bool {
    k.len() == 0 || k == "default"@ || last_optional(deps, k) is Some || feature_keys(features).contains(k)
}

fn deps_named_exec(deps: &Vec<Dependency>, n: &str, restrict: Option<&str>) -> (r: Vec<Dependency>)
    ensures
        r@.len() == deps_named(deps@, n@).len(),
        forall|i: int| 0 <= i < r@.len() ==> dep_as(#[trigger] r@[i], (deps_named(deps@, n@)[i], match restrict {
            Some(f) => Some(f@),
            None => None,
        })),
{
    let ghost rv = match restrict {
        Some(f) => Some(f@),
        None => None::<Seq<char>>,
    };
    let mut out: Vec<Dependency> = Vec::new();
    let mut i: usize = 0;
    while i < deps.len()
        invariant
            i <= deps@.len(),
            rv == match restrict {
                Some(f) => Some(f@),
                None => None::<Seq<char>>,
            },
            out@.len() == deps_named(deps@.subrange(0, i as int), n@).len(),
            forall|k: int| 0 <= k < out@.len() ==> dep_as(#[trigger] out@[k], (deps_named(deps@.subrange(0, i as int), n@)[k], rv)),
        decreases deps.len() - i,
    {
        assert(deps@.subrange(0, i + 1).drop_last() =~= deps@.subrange(0, i as int));
        if deps[i].kind != DepKind::Development && str_eq(deps[i].name_in_toml.as_str(), n) {
            let mut d = deps[i].copy();
            match restrict {
                Some(f) => {
                    let mut fs: Vec<String> = Vec::new();
                    fs.push(String::from_str(f));
                    assert(views(fs@) =~= seq![f@]);
                    d.features = fs;
                    d.uses_default_features = false;
                },
                None => {},
            }
            out.push(d);
        }
        i = i + 1;
    }
    assert(deps@.subrange(0, deps@.len() as int) =~= deps@);
    out
}

fn append_deps(out: &mut Vec<Dependency>, more: Vec<Dependency>)
    ensures
        final(out)@ == old(out)@ + more@,
{
    let mut more = more;
    out.append(&mut more);
}

/// What one feature needs.
pub fn feature_entry(deps: &Vec<Dependency>, vs: &Vec<FeatureValue>) -> (r: FeatureDeps)
    ensures
        entry_is(r, entry_features(vs@), value_deps(deps@, vs@)),
{
    let mut fs: Vec<String> = Vec::new();
    let mut ds: Vec<Dependency> = Vec::new();
    let mut i: usize = 0;
    while i < vs.len()
        invariant
            i <= vs@.len(),
            views(fs@) == value_features(vs@.subrange(0, i as int)),
            ds@.len() == value_deps(deps@, vs@.subrange(0, i as int)).len(),
            forall|k: int| 0 <= k < ds@.len() ==> dep_as(#[trigger] ds@[k], value_deps(deps@, vs@.subrange(0, i as int))[k]),
        decreases vs.len() - i,
    {
        assert(vs@.subrange(0, i + 1).drop_last() =~= vs@.subrange(0, i as int));
        let ghost prev_ds = ds@;
        let ghost prev_vd = value_deps(deps@, vs@.subrange(0, i as int));
        match &vs[i] {
            FeatureValue::Feature(f) => {
                let ghost pf = views(fs@);
                fs.push(f.clone());
                assert(views(fs@) =~= pf.push(f@));
            },
            FeatureValue::Dep(n) => {
                let more = deps_named_exec(deps, n.as_str(), None);
                append_deps(&mut ds, more);
                proof {
                    let add = deps_named(deps@, n@).map_values(|d: Dependency| (d, None::<Seq<char>>));
                    assert(value_deps(deps@, vs@.subrange(0, i + 1)) =~= prev_vd + add);
                    assert forall|k: int| 0 <= k < ds@.len() implies dep_as(#[trigger] ds@[k], (prev_vd + add)[k]) by {
                        if k >= prev_ds.len() {
                            assert(ds@[k] == more@[k - prev_ds.len()]);
                        } else {
                            assert(ds@[k] == prev_ds[k]);
                        }
                    }
                }
            },
            FeatureValue::DepFeature(n, f) => {
                let more = deps_named_exec(deps, n.as_str(), Some(f.as_str()));
                append_deps(&mut ds, more);
                proof {
                    let add = deps_named(deps@, n@).map_values(|d: Dependency| (d, Some(f@)));
                    assert(value_deps(deps@, vs@.subrange(0, i + 1)) =~= prev_vd + add);
                    assert forall|k: int| 0 <= k < ds@.len() implies dep_as(#[trigger] ds@[k], (prev_vd + add)[k]) by {
                        if k >= prev_ds.len() {
                            assert(ds@[k] == more@[k - prev_ds.len()]);
                        } else {
                            assert(ds@[k] == prev_ds[k]);
                        }
                    }
                }
            },
        }
        i = i + 1;
    }
    assert(vs@.subrange(0, vs@.len() as int) =~= vs@);
    if fs.len() == 0 {
        fs.push(String::new());
        assert(views(fs@) =~= seq![Seq::<char>::empty()]);
    }
    FeatureDeps { features: fs, deps: ds }
}

/// `last_optional` finds a dependency exactly when there is one.
proof fn lemma_last_optional(deps: Seq<Dependency>, n: Seq<char>)
    ensures
        last_optional(deps, n) is Some <==> exists|i: int|
            0 <= i < deps.len() && non_dev(deps[i]) && deps[i].optional && #[trigger] deps[i].name_in_toml@ == n,
        last_optional(deps, n) matches Some(d) ==> non_dev(d) && d.optional && d.name_in_toml@ == n,
    decreases deps.len(),
{
    if deps.len() > 0 {
        lemma_last_optional(deps.drop_last(), n);
        if exists|i: int| 0 <= i < deps.len() && non_dev(deps[i]) && deps[i].optional && #[trigger] deps[i].name_in_toml@ == n {
            let i = choose|i: int| 0 <= i < deps.len() && non_dev(deps[i]) && deps[i].optional && #[trigger] deps[i].name_in_toml@ == n;
            if i < deps.len() - 1 {
                assert(deps.drop_last()[i] == deps[i]);
            }
        }
        if exists|i: int|
            0 <= i < deps.drop_last().len() && non_dev(deps.drop_last()[i]) && deps.drop_last()[i].optional
                && #[trigger] deps.drop_last()[i].name_in_toml@ == n {
            let i = choose|i: int|
                0 <= i < deps.drop_last().len() && non_dev(deps.drop_last()[i]) && deps.drop_last()[i].optional
                    && #[trigger] deps.drop_last()[i].name_in_toml@ == n;
            assert(deps[i] == deps.drop_last()[i]);
        }
    }
}

fn last_optional_exec(deps: &Vec<Dependency>, n: &str) -> (r: Option<Dependency>)
    ensures
        match last_optional(deps@, n@) {
            Some(d) => r matches Some(x) && dep_same(x, d),
            None => r is None,
        },
{
    let mut i: usize = deps.len();
    assert(deps@.subrange(0, i as int) =~= deps@);
    while i > 0
        invariant
            i <= deps@.len(),
            last_optional(deps@, n@) == last_optional(deps@.subrange(0, i as int), n@),
        decreases i,
    {
        let d = &deps[i - 1];
        if d.kind != DepKind::Development && d.optional && str_eq(d.name_in_toml.as_str(), n) {
            return Some(d.copy());
        }
        assert(deps@.subrange(0, i as int).drop_last() =~= deps@.subrange(0, i - 1));
        i = i - 1;
    }
    None
}

fn lookup_feature(features: &Vec<(String, Vec<FeatureValue>)>, k: &str) -> (r: Option<usize>)
    ensures
        match r {
            Some(i) => i < features@.len() && feature_values(features@, k@) == Some(features@[i as int].1@),
            None => feature_values(features@, k@) is None,
        },
{
    let mut i: usize = 0;
    assert(features@.skip(0) =~= features@);
    while i < features.len()
        invariant
            i <= features@.len(),
            feature_values(features@, k@) == feature_values(features@.skip(i as int), k@),
        decreases features.len() - i,
    {
        if str_eq(features[i].0.as_str(), k) {
            return Some(i);
        }
        assert(features@.skip(i as int).drop_first() =~= features@.skip(i + 1));
        i = i + 1;
    }
    None
}

fn required_exec(deps: &Vec<Dependency>, ns: &Vec<String>) -> (r: Vec<Dependency>)
    ensures
        r@.len() == required_by_names(deps@, views(ns@)).len(),
        forall|i: int| 0 <= i < r@.len() ==> dep_same(#[trigger] r@[i], required_by_names(deps@, views(ns@))[i]),
{
    let mut out: Vec<Dependency> = Vec::new();
    let mut j: usize = 0;
    while j < ns.len()
        invariant
            j <= ns@.len(),
            out@.len() == required_by_names(deps@, views(ns@).subrange(0, j as int)).len(),
            forall|k: int| 0 <= k < out@.len() ==> dep_same(#[trigger] out@[k], required_by_names(deps@, views(ns@).subrange(0, j as int))[k]),
        decreases ns.len() - j,
    {
        assert(views(ns@).subrange(0, j + 1).drop_last() =~= views(ns@).subrange(0, j as int));
        let n = ns[j].as_str();
        let ghost prev = required_by_names(deps@, views(ns@).subrange(0, j as int));
        let mut i: usize = 0;
        while i < deps.len()
            invariant
                i <= deps@.len(),
                j < ns@.len(),
                n@ == views(ns@)[j as int],
                out@.len() == prev.len() + required_named(deps@.subrange(0, i as int), n@).len(),
                forall|k: int| 0 <= k < out@.len() ==> dep_same(#[trigger] out@[k], (prev + required_named(deps@.subrange(0, i as int), n@))[k]),
            decreases deps.len() - i,
        {
            assert(deps@.subrange(0, i + 1).drop_last() =~= deps@.subrange(0, i as int));
            let d = &deps[i];
            if d.kind != DepKind::Development && !d.optional && str_eq(d.name_in_toml.as_str(), n) {
                out.push(d.copy());
            }
            proof {
                let a = prev + required_named(deps@.subrange(0, i + 1), n@);
                let b = prev + required_named(deps@.subrange(0, i as int), n@);
                assert forall|k: int| 0 <= k < out@.len() implies dep_same(#[trigger] out@[k], a[k]) by {
                    if k < b.len() {
                        assert(a[k] == b[k]);
                    }
                }
            }
            i = i + 1;
        }
        assert(deps@.subrange(0, deps@.len() as int) =~= deps@);
        j = j + 1;
    }
    assert(views(ns@).subrange(0, ns@.len() as int) =~= views(ns@));
    out
}

/// The names of the dependencies needed to build, in increasing order.
fn build_names_exec(deps: &Vec<Dependency>) -> (r: Vec<String>)
    ensures
        strictly_sorted(views(r@)),
        views(r@).to_set() == build_dep_names(deps@),
{
    let mut names: Vec<String> = Vec::new();
    let mut i: usize = 0;
    while i < deps.len()
        invariant
            i <= deps@.len(),
            views(names@).to_set() == build_dep_names(deps@.subrange(0, i as int)),
        decreases deps.len() - i,
    {
        let ghost prev = views(names@);
        if deps[i].kind != DepKind::Development {
            names.push(deps[i].name_in_toml.clone());
            proof {
                assert(views(names@) =~= prev.push(deps@[i as int].name_in_toml@));
                prev.lemma_push_to_set_commute(deps@[i as int].name_in_toml@);
            }
        }
        proof {
            let pre = deps@.subrange(0, i as int);
            let cur = deps@.subrange(0, i + 1);
            assert forall|n: Seq<char>| #[trigger] build_dep_names(cur).contains(n) <==> views(names@).to_set().contains(n) by {
                if build_dep_names(cur).contains(n) {
                    let j = choose|j: int| 0 <= j < cur.len() && non_dev(cur[j]) && #[trigger] cur[j].name_in_toml@ == n;
                    if j < i {
                        assert(pre[j] == cur[j]);
                        assert(build_dep_names(pre).contains(n));
                        assert(prev.to_set().contains(n));
                        let b = choose|b: int| 0 <= b < prev.len() && prev[b] == n;
                        assert(views(names@)[b] == n);
                    } else {
                        assert(views(names@)[views(names@).len() - 1] == n);
                    }
                    assert(views(names@).contains(n));
                }
                if views(names@).to_set().contains(n) {
                    let b = choose|b: int| 0 <= b < views(names@).len() && views(names@)[b] == n;
                    if b < prev.len() {
                        assert(prev[b] == n);
                        assert(prev.to_set().contains(n));
                        assert(build_dep_names(pre).contains(n));
                        let j = choose|j: int| 0 <= j < pre.len() && non_dev(pre[j]) && #[trigger] pre[j].name_in_toml@ == n;
                        assert(cur[j] == pre[j]);
                    } else {
                        assert(cur[i as int].name_in_toml@ == n);
                    }
                }
            }
            assert(build_dep_names(cur) =~= views(names@).to_set());
        }
        i = i + 1;
    }
    assert(deps@.subrange(0, deps@.len() as int) =~= deps@);
    sort_dedup(names)
}

/// Whether every dependency that a feature names exists; the map of
/// features and dependencies is only defined for such crates.
pub fn check_features_resolvable(deps: &Vec<Dependency>, features: &Vec<(String, Vec<FeatureValue>)>) -> (r: bool)
    ensures
        r == features_resolvable(deps@, features@),
{
    let mut i: usize = 0;
    while i < features.len()
        invariant
            i <= features@.len(),
            forall|a: int, b: int|
                0 <= a < i && 0 <= b < features@[a].1@.len() ==> match #[trigger] features@[a].1@[b] {
                    FeatureValue::Feature(_) => true,
                    FeatureValue::Dep(n) => deps_named(deps@, n@).len() > 0,
                    FeatureValue::DepFeature(n, _) => deps_named(deps@, n@).len() > 0 || dev_named(deps@, n@),
                },
        decreases features.len() - i,
    {
        let vs = &features[i].1;
        let mut j: usize = 0;
        while j < vs.len()
            invariant
                i < features@.len(),
                *vs == features@[i as int].1,
                j <= vs@.len(),
                forall|a: int, b: int|
                    0 <= a < i && 0 <= b < features@[a].1@.len() ==> match #[trigger] features@[a].1@[b] {
                        FeatureValue::Feature(_) => true,
                        FeatureValue::Dep(n) => deps_named(deps@, n@).len() > 0,
                        FeatureValue::DepFeature(n, _) => deps_named(deps@, n@).len() > 0 || dev_named(deps@, n@),
                    },
                forall|b: int|
                    0 <= b < j ==> match #[trigger] vs@[b] {
                        FeatureValue::Feature(_) => true,
                        FeatureValue::Dep(n) => deps_named(deps@, n@).len() > 0,
                        FeatureValue::DepFeature(n, _) => deps_named(deps@, n@).len() > 0 || dev_named(deps@, n@),
                    },
            decreases vs.len() - j,
        {
            let ok = match &vs[j] {
                FeatureValue::Feature(_) => true,
                FeatureValue::Dep(n) => deps_named_exec(deps, n.as_str(), None).len() > 0,
                FeatureValue::DepFeature(n, _) => deps_named_exec(deps, n.as_str(), None).len() > 0 || has_dev_named(
                    deps,
                    n.as_str(),
                ),
            };
            if !ok {
                return false;
            }
            j = j + 1;
        }
        i = i + 1;
    }
    true
}

fn has_dev_named(deps: &Vec<Dependency>, n: &str) -> (r: bool)
    ensures
        r == dev_named(deps@, n@),
{
    let mut i: usize = 0;
    while i < deps.len()
        invariant
            i <= deps@.len(),
            forall|k: int| 0 <= k < i ==> !(!non_dev(deps@[k]) && #[trigger] deps@[k].name_in_toml@ == n@),
        decreases deps.len() - i,
    {
        if deps[i].kind == DepKind::Development && str_eq(deps[i].name_in_toml.as_str(), n) {
            return true;
        }
        i = i + 1;
    }
    false
}

/// The keys of a map of features and dependencies.
pub open spec fn dep_info_keys(r: Seq<(String, FeatureDeps)>) -> Seq<Seq<char>> {
    r.map_values(|e: (String, FeatureDeps)| e.0@)
}

/// The features of a crate and what each needs, by name in increasing
/// order: its own features, its optional dependencies (which are features
/// too), the bare library (the empty name) and the default feature.
pub fn all_dependencies_and_features(deps: &Vec<Dependency>, features: &Vec<(String, Vec<FeatureValue>)>) -> (r: Vec<(String, FeatureDeps)>)
    requires
        features_resolvable(deps@, features@),
    ensures
        strictly_sorted(dep_info_keys(r@)),
        forall|k: Seq<char>| #[trigger] dep_info_keys(r@).contains(k) <==> dep_info_key(deps@, features@, k),
        forall|i: int| 0 <= i < r@.len() ==> dep_info_entry(deps@, features@, (#[trigger] r@[i]).0@, r@[i].1),
{
    let mut keys: Vec<String> = Vec::new();
    let mut i: usize = 0;
    while i < features.len()
        invariant
            i <= features@.len(),
            views(keys@) == feature_keys(features@.subrange(0, i as int)),
        decreases features.len() - i,
    {
        let ghost prev = views(keys@);
        keys.push(features[i].0.clone());
        assert(views(keys@) =~= prev.push(features@[i as int].0@));
        assert(feature_keys(features@.subrange(0, i + 1)) =~= feature_keys(features@.subrange(0, i as int)).push(features@[i as int].0@));
        i = i + 1;
    }
    assert(features@.subrange(0, features@.len() as int) =~= features@);
    let ghost fk = views(keys@);
    let mut j: usize = 0;
    while j < deps.len()
        invariant
            j <= deps@.len(),
            fk == feature_keys(features@),
            views(keys@).len() >= fk.len(),
            views(keys@).subrange(0, fk.len() as int) == fk,
            forall|k: int| fk.len() <= k < views(keys@).len() ==> last_optional(deps@, #[trigger] views(keys@)[k]) is Some,
            forall|n: Seq<char>| (exists|a: int| 0 <= a < j && non_dev(deps@[a]) && deps@[a].optional && #[trigger] deps@[a].name_in_toml@ == n)
                ==> views(keys@).contains(n),
        decreases deps.len() - j,
    {
        let ghost prev = views(keys@);
        if deps[j].kind != DepKind::Development && deps[j].optional {
            keys.push(deps[j].name_in_toml.clone());
            proof {
                assert(views(keys@) =~= prev.push(deps@[j as int].name_in_toml@));
                lemma_last_optional(deps@, deps@[j as int].name_in_toml@);
                assert(views(keys@).subrange(0, fk.len() as int) =~= prev.subrange(0, fk.len() as int));
                assert forall|n: Seq<char>| (exists|a: int| 0 <= a < j + 1 && non_dev(deps@[a]) && deps@[a].optional && #[trigger] deps@[a].name_in_toml@ == n)
                    implies views(keys@).contains(n) by {
                    let a = choose|a: int| 0 <= a < j + 1 && non_dev(deps@[a]) && deps@[a].optional && #[trigger] deps@[a].name_in_toml@ == n;
                    if a < j {
                        assert(prev.contains(n));
                        let b = choose|b: int| 0 <= b < prev.len() && prev[b] == n;
                        assert(views(keys@)[b] == n);
                    } else {
                        assert(views(keys@)[prev.len() as int] == n);
                    }
                }
            }
        }
        j = j + 1;
    }
    let ghost kk = views(keys@);
    keys.push(String::new());
    keys.push(String::from_str("default"));
    let ghost all = views(keys@);
    proof {
        assert(all =~= kk.push(Seq::<char>::empty()).push("default"@));
        assert forall|k: Seq<char>| all.contains(k) <==> dep_info_key(deps@, features@, k) by {
            if all.contains(k) {
                let a = choose|a: int| 0 <= a < all.len() && all[a] == k;
                if a < fk.len() {
                    assert(kk[a] == k);
                    assert(kk.subrange(0, fk.len() as int)[a] == k);
                    assert(fk[a] == k);
                    assert(feature_keys(features@).contains(k));
                } else if a < all.len() - 2 {
                    assert(kk[a] == k);
                } else if a == all.len() - 2 {
                    assert(k =~= Seq::<char>::empty());
                }
            }
            if dep_info_key(deps@, features@, k) {
                if k.len() == 0 {
                    assert(all[all.len() - 2] =~= k);
                } else if k == "default"@ {
                    assert(all[all.len() - 1] == k);
                } else if last_optional(deps@, k) is Some {
                    lemma_last_optional(deps@, k);
                    let a = choose|a: int| 0 <= a < deps@.len() && non_dev(deps@[a]) && deps@[a].optional && #[trigger] deps@[a].name_in_toml@ == k;
                    assert(kk.contains(k));
                    let b = choose|b: int| 0 <= b < kk.len() && kk[b] == k;
                    assert(all[b] == k);
                } else {
                    let a = choose|a: int| 0 <= a < fk.len() && fk[a] == k;
                    assert(kk.subrange(0, fk.len() as int)[a] == k);
                    assert(all[a] == k);
                }
            }
        }
    }
    let sorted = sort_dedup(keys);
    proof {
        assert forall|k: Seq<char>| #[trigger] views(sorted@).contains(k) <==> dep_info_key(deps@, features@, k) by {
            assert(views(sorted@).to_set().contains(k) == views(sorted@).contains(k));
            assert(all.to_set().contains(k) == all.contains(k));
        }
    }
    let names = build_names_exec(deps);
    let mut out: Vec<(String, FeatureDeps)> = Vec::new();
    let mut m: usize = 0;
    while m < sorted.len()
        invariant
            m <= sorted@.len(),
            features_resolvable(deps@, features@),
            strictly_sorted(views(names@)),
            views(names@).to_set() == build_dep_names(deps@),
            forall|k: Seq<char>| #[trigger] views(sorted@).contains(k) <==> dep_info_key(deps@, features@, k),
            out@.len() == m,
            forall|a: int| 0 <= a < m ==> (#[trigger] out@[a]).0@ == sorted@[a]@ && dep_info_entry(deps@, features@, out@[a].0@, out@[a].1),
        decreases sorted.len() - m,
    {
        let k = sorted[m].as_str();
        proof {
            assert(views(sorted@)[m as int] == k@);
            assert(views(sorted@).contains(k@));
        }
        let entry = if k.is_empty() {
            let req = required_exec(deps, &names);
            let e = FeatureDeps { features: Vec::new(), deps: req };
            proof {
                let ds = required_by_names(deps@, views(names@)).map_values(|d: Dependency| (d, None::<Seq<char>>));
                assert(views(e.features@) =~= Seq::<Seq<char>>::empty());
                assert forall|x: int| 0 <= x < ds.len() implies dep_as(#[trigger] e.deps@[x], ds[x]) by {
                    assert(dep_same(e.deps@[x], required_by_names(deps@, views(names@))[x]));
                }
                assert(entry_is(e, Seq::empty(), ds));
            }
            e
        } else {
            match last_optional_exec(deps, k) {
                Some(d) => {
                    let mut fs: Vec<String> = Vec::new();
                    fs.push(String::new());
                    let mut ds: Vec<Dependency> = Vec::new();
                    ds.push(d);
                    let e = FeatureDeps { features: fs, deps: ds };
                    proof {
                        assert(views(e.features@) =~= seq![Seq::<char>::empty()]);
                    }
                    e
                },
                None => match lookup_feature(features, k) {
                    Some(fi) => feature_entry(deps, &features[fi].1),
                    None => {
                        let mut fs: Vec<String> = Vec::new();
                        fs.push(String::new());
                        let e = FeatureDeps { features: fs, deps: Vec::new() };
                        proof {
                            assert(views(e.features@) =~= seq![Seq::<char>::empty()]);
                            if !(k@ == "default"@) {
                                assert(feature_keys(features@).contains(k@));
                                let a = choose|a: int| 0 <= a < feature_keys(features@).len() && feature_keys(features@)[a] == k@;
                                lemma_feature_values_found(features@, k@, a);
                            }
                        }
                        e
                    },
                },
            }
        };
        out.push((String::from_str(k), entry));
        m = m + 1;
    }
    proof {
        assert(dep_info_keys(out@) =~= views(sorted@));
    }
    out
}

/// A key of the feature list has values.
proof fn lemma_feature_values_found(features: Seq<(String, Vec<FeatureValue>)>, k: Seq<char>, a: int)
    requires
        0 <= a < features.len(),
        features[a].0@ == k,
    ensures
        feature_values(features, k) is Some,
    decreases a,
{
    if features[0].0@ != k {
        lemma_feature_values_found(features.drop_first(), k, a - 1);
    }
}

/// The files to leave out of the upstream tarball and the suspicious files
/// to keep, as shell patterns.
pub struct CrateFilter {
    pub excludes: Vec<Glob>,
    pub includes: Vec<Glob>,
}

/// The sources of some patterns.
pub open spec fn glob_sources(gs: Seq<Glob>) -> Seq<Seq<char>> {
    gs.map_values(|g: Glob| g.source())
}

/// The patterns for some configured paths: each under any directory.
pub open spec fn anywhere(ps: Seq<Seq<char>>) -> Seq<Seq<char>> {
    ps.map_values(|p: Seq<char>| "*/"@ + p)
}

/// The configured paths, or none.
pub open spec fn opt_paths(o: Option<&Vec<String>>) -> Seq<Seq<char>> {
    match o {
        Some(v) => views(v@),
        None => Seq::empty(),
    }
}

fn compile_all(ps: Option<&Vec<String>>) -> (r: Option<Vec<Glob>>)
    ensures
        r is Some <==> forall|i: int| 0 <= i < anywhere(opt_paths(ps)).len() ==> glob_valid(#[trigger] anywhere(opt_paths(ps))[i]),
        r matches Some(gs) ==> glob_sources(gs@) == anywhere(opt_paths(ps)),
{
    let mut out: Vec<Glob> = Vec::new();
    match ps {
        None => {
            assert(glob_sources(out@) =~= anywhere(opt_paths(ps)));
            Some(out)
        },
        Some(v) => {
            let ghost want = anywhere(opt_paths(ps));
            let mut i: usize = 0;
            while i < v.len()
                invariant
                    ps == Some(v),
                    want == anywhere(opt_paths(ps)),
                    want.len() == v@.len(),
                    i <= v@.len(),
                    glob_sources(out@) == want.subrange(0, i as int),
                    forall|k: int| 0 <= k < i ==> glob_valid(#[trigger] want[k]),
                decreases v.len() - i,
            {
                let src = concat2("*/", v[i].as_str());
                match Glob::new(src.as_str()) {
                    Some(g) => {
                        let ghost prev = glob_sources(out@);
                        out.push(g);
                        assert(glob_sources(out@) =~= prev.push(src@));
                        assert(want.subrange(0, i + 1) =~= want.subrange(0, i as int).push(want[i as int]));
                    },
                    None => {
                        assert(!glob_valid(want[i as int]));
                        return None;
                    },
                }
                i = i + 1;
            }
            assert(want.subrange(0, want.len() as int) =~= want);
            Some(out)
        },
    }
}

/// The filter of a crate's files for the configured excludes and
/// includes; none when a pattern is not valid.
pub fn set_includes_excludes(excludes: Option<&Vec<String>>, includes: Option<&Vec<String>>) -> (r: Option<CrateFilter>)
    ensures
        r is Some <==> (forall|i: int| 0 <= i < anywhere(opt_paths(excludes)).len() ==> glob_valid(#[trigger] anywhere(opt_paths(excludes))[i]))
            && (forall|i: int| 0 <= i < anywhere(opt_paths(includes)).len() ==> glob_valid(#[trigger] anywhere(opt_paths(includes))[i])),
        r matches Some(f) ==> glob_sources(f.excludes@) == anywhere(opt_paths(excludes)) && glob_sources(f.includes@) == anywhere(
            opt_paths(includes),
        ),
{
    let ex = compile_all(excludes);
    let inc = compile_all(includes);
    match (ex, inc) {
        (Some(e), Some(i)) => Some(CrateFilter { excludes: e, includes: i }),
        _ => None,
    }
}

/// Whether one of the patterns matches `path`.
pub open spec fn any_matches(gs: Seq<Glob>, path: Seq<char>) -> bool {
    exists|i: int| 0 <= i < gs.len() && glob_matches(#[trigger] gs[i].source(), path)
}

fn any_glob_matches(gs: &Vec<Glob>, path: &str) -> (r: bool)
    ensures
        r == any_matches(gs@, path@),
{
    let mut i: usize = 0;
    while i < gs.len()
        invariant
            i <= gs@.len(),
            forall|k: int| 0 <= k < i ==> !glob_matches(#[trigger] gs@[k].source(), path@),
        decreases gs.len() - i,
    {
        if gs[i].matches_path(path) {
            return true;
        }
        i = i + 1;
    }
    false
}

/// Whether a file looks like C code or a static library.
pub open spec fn suspicious(path: Seq<char>) -> bool {
    path_extension(path) == Some("c"@) || path_extension(path) == Some("a"@)
}

impl CrateFilter {
    /// Whether to leave `path` out of the upstream tarball: `Ok(true)` for
    /// an excluded file, `Ok(false)` to keep it, and an error for a
    /// suspicious file that is neither excluded nor included, unless
    /// `ignore_suspicious`.
    pub fn filter_path(&self, path: &str, ignore_suspicious: bool) -> (r: Result<bool, String>)
        ensures
            any_matches(self.excludes@, path@) ==> r == Ok::<bool, String>(true),
            !any_matches(self.excludes@, path@) && (!suspicious(path@) || any_matches(self.includes@, path@)
                || ignore_suspicious) ==> r == Ok::<bool, String>(false),
            !any_matches(self.excludes@, path@) && suspicious(path@) && !any_matches(self.includes@, path@)
                && !ignore_suspicious ==> (r matches Err(m) && m@ == "Suspicious file, should probably be excluded: "@
                + path_debug(path@)),
    {
        if any_glob_matches(&self.excludes, path) {
            return Ok(true);
        }
        let sus = match extension(path) {
            Some(e) => str_eq(e.as_str(), "c") || str_eq(e.as_str(), "a"),
            None => false,
        };
        if sus {
            if any_glob_matches(&self.includes, path) {
                Ok(false)
            } else if ignore_suspicious {
                Ok(false)
            } else {
                Err(concat2("Suspicious file, should probably be excluded: ", debug_text(path).as_str()))
            }
        } else {
            Ok(false)
        }
    }
}

/// The expression for a leading phrase naming the crate itself.
pub open spec fn self_reference(name: Seq<char>) -> Seq<char> {
    "^(?i)("@ + name + r"|This(\s+\w+)?)(\s*,|\s+is|\s+provides)\s+"@
}

/// The expression for a leading article.
pub const ARTICLE: &'static str = r"^(?i)(a|an|the)\s+";

/// The expression for a leading kind of crate.
pub const CRATE_KIND: &'static str = r"^(?i)(rust\s+)?(implementation|library|tool|crate)\s+(of|to|for)\s+";

/// The description with manual line breaks joined: an empty line is a line
/// break, any other line break a space; then trimmed.
pub open spec fn normalized_description(d: Seq<char>) -> Seq<char> {
    trim_spec(replace_spec(replace_spec(replace_spec(d, "\n\n"@, "\r"@), "\n"@, " "@), "\r"@, "\n"@))
}

/// The description without a leading phrase naming the crate, article or
/// kind of crate.
pub open spec fn stripped_description(name: Seq<char>, d: Seq<char>) -> Seq<char> {
    regex_replace(
        CRATE_KIND@,
        regex_replace(ARTICLE@, regex_replace(self_reference(name), normalized_description(d), Seq::empty()), Seq::empty()),
        Seq::empty(),
    )
}

/// The text with its first character in uppercase.
pub open spec fn capitalized(s: Seq<char>) -> Seq<char> {
    if s.len() == 0 {
        s
    } else {
        uppercase_char(s[0]) + s.drop_first()
    }
}

/// The first place at or after `i` where `pat` occurs in `s`.
pub open spec fn first_occurrence(s: Seq<char>, pat: Seq<char>, i: int) -> Option<int>
    decreases s.len() - i,
{
    if i < 0 || i >= s.len() || i + pat.len() > s.len() {
        None
    } else if starts_with_spec(s.skip(i), pat) {
        Some(i)
    } else {
        first_occurrence(s, pat, i + 1)
    }
}

/// Where the first sentence or first line ends, whichever comes first.
pub open spec fn break_at(s: Seq<char>) -> Option<int> {
    match (first_occurrence(s, "\n"@, 0), first_occurrence(s, ". "@, 0)) {
        (None, None) => None,
        (Some(a), None) => Some(a),
        (None, Some(b)) => Some(b),
        (Some(a), Some(b)) => Some(if a <= b {
            a
        } else {
            b
        }),
    }
}

/// The summary and the description that a crate's description gives: the
/// first sentence or line (without trailing dots), then the rest, if any.
pub open spec fn summary_parts(s: Seq<char>) -> (Option<Seq<char>>, Option<Seq<char>>) {
    match break_at(s) {
        Some(p) => {
            let rest = trim_spec(s.skip(p + 1));
            (Some(trim_end_matches_spec(s.take(p), "."@)), if rest.len() == 0 {
                None
            } else {
                Some(rest)
            })
        },
        None => (Some(trim_end_matches_spec(s, "."@)), None),
    }
}

/// A place where `pat` occurs leaves room for it.
pub proof fn lemma_occurrence_fits(s: Seq<char>, pat: Seq<char>, i: int)
    requires
        first_occurrence(s, pat, i) is Some,
    ensures
        first_occurrence(s, pat, i)->0 + pat.len() <= s.len(),
    decreases s.len() - i,
{
    if !(i < 0 || i >= s.len() || i + pat.len() > s.len()) && !starts_with_spec(s.skip(i), pat) {
        lemma_occurrence_fits(s, pat, i + 1);
    }
}

pub(crate) fn first_occurrence_exec(cs: &Vec<char>, pat: &str) -> (r: Option<usize>)
    requires
        pat@.len() > 0,
    ensures
        match r {
            Some(i) => first_occurrence(cs@, pat@, 0) == Some(i as int) && i < cs@.len(),
            None => first_occurrence(cs@, pat@, 0) is None,
        },
{
    let pc = str_chars(pat);
    let mut i: usize = 0;
    while i < cs.len()
        invariant
            pc@ == pat@,
            pc@.len() > 0,
            i <= cs@.len(),
            first_occurrence(cs@, pat@, 0) == first_occurrence(cs@, pat@, i as int),
        decreases cs.len() - i,
    {
        if pc.len() <= cs.len() - i && occurs_at(cs, &pc, i) {
            return Some(i);
        }
        i = i + 1;
    }
    proof {
        assert(first_occurrence(cs@, pat@, i as int) is None);
    }
    None
}

pub(crate) fn chars_from(cs: &Vec<char>, a: usize, b: usize) -> (r: String)
    requires
        a <= b <= cs@.len(),
    ensures
        r@ == cs@.subrange(a as int, b as int),
{
    let mut out: Vec<char> = Vec::new();
    let mut i: usize = a;
    while i < b
        invariant
            a <= i <= b,
            b <= cs@.len(),
            out@ == cs@.subrange(a as int, i as int),
        decreases b - i,
    {
        out.push(cs[i]);
        i = i + 1;
    }
    string_of(&out)
}

/// The summary and the description of the packages, from the crate's
/// description and name; none when one of the expressions that strip
/// leading phrases is refused.
pub fn get_summary_description(description: Option<&str>, crate_name: &str) -> (r: Option<(Option<String>, Option<String>)>)
    ensures
        match description {
            None => r == Some((None::<String>, None::<String>)),
            Some(d) => if regex_valid(self_reference(crate_name@)) && regex_valid(ARTICLE@) && regex_valid(CRATE_KIND@) {
                r matches Some(p) && (match p.0 {
                    Some(x) => Some(x@),
                    None => None,
                }, match p.1 {
                    Some(x) => Some(x@),
                    None => None,
                }) == summary_parts(capitalized(stripped_description(crate_name@, d@)))
            } else {
                r is None
            },
        },
{
    proof {
        reveal_strlit("");
        reveal_strlit("\n");
        reveal_strlit(". ");
        assert(""@ =~= Seq::<char>::empty());
    }
    let d = match description {
        None => {
            return Some((None, None));
        },
        Some(d) => d,
    };
    let a = replace_str(d, "\n\n", "\r");
    let b = replace_str(a.as_str(), "\n", " ");
    let c = replace_str(b.as_str(), "\r", "\n");
    let t = trim(c.as_str());
    let p1 = concat3("^(?i)(", crate_name, r"|This(\s+\w+)?)(\s*,|\s+is|\s+provides)\s+");
    let r1 = match RegexMatcher::new(p1.as_str()) {
        Some(r) => r,
        None => {
            return None;
        },
    };
    let r2 = match RegexMatcher::new(ARTICLE) {
        Some(r) => r,
        None => {
            return None;
        },
    };
    let r3 = match RegexMatcher::new(CRATE_KIND) {
        Some(r) => r,
        None => {
            return None;
        },
    };
    let empty = "";
    assert(empty@ =~= Seq::<char>::empty());
    assert(t@ == normalized_description(d@));
    assert(r1.source() == self_reference(crate_name@));
    let s1 = r1.replace_first(t.as_str(), empty);
    let s2 = r2.replace_first(s1.as_str(), empty);
    let s3 = r3.replace_first(s2.as_str(), empty);
    assert(s3@ == stripped_description(crate_name@, d@));
    let cs0 = str_chars(s3.as_str());
    let capital = if cs0.len() == 0 {
        String::new()
    } else {
        let up = char_to_uppercase(cs0[0]);
        let rest = chars_from(&cs0, 1, cs0.len());
        assert(rest@ =~= cs0@.drop_first());
        concat2(up.as_str(), rest.as_str())
    };
    assert(capital@ =~= capitalized(s3@));
    let cs = str_chars(capital.as_str());
    let p_nl = first_occurrence_exec(&cs, "\n");
    let p_dot = first_occurrence_exec(&cs, ". ");
    let brk: Option<usize> = match (p_nl, p_dot) {
        (None, None) => None,
        (Some(x), None) => Some(x),
        (None, Some(y)) => Some(y),
        (Some(x), Some(y)) => Some(if x <= y { x } else { y }),
    };
    match brk {
        Some(p) => {
            let head = chars_from(&cs, 0, p);
            let n = cs.len();
            let tail = chars_from(&cs, p + 1, n);
            assert(head@ =~= cs@.take(p as int));
            assert(tail@ =~= cs@.skip(p + 1));
            let s = trim_end_matches(head.as_str(), ".");
            let rest = trim(tail.as_str());
            if rest.as_str().is_empty() {
                Some((Some(s), None))
            } else {
                Some((Some(s), Some(rest)))
            }
        },
        None => Some((Some(trim_end_matches(capital.as_str(), ".")), None)),
    }
}

/// What to do with an entry of the crate archive when repacking it.
#[derive(Clone, Copy, Debug, PartialEq, Eq, Structural)]
pub enum RepackAction {
    /// The top-level `Cargo.toml`: put the rewritten and the original one.
    ReplaceManifest,
    /// Keep the entry.
    Keep,
    /// Leave the entry out.
    Drop,
}

/// Whether a path in the archive is the crate's top-level `Cargo.toml`.
pub open spec fn is_top_manifest(path: Seq<char>) -> bool {
    let cs = path_components(path);
    cs.len() == 2 && cs.last() == "Cargo.toml"@
}

/// What to do with the archive entry at `path` when repacking; an error for
/// a suspicious file.
pub fn repack_action(filter: &CrateFilter, path: &str, ignore_suspicious: bool) -> (r: Result<RepackAction, String>)
    ensures
        is_top_manifest(path@) ==> r == Ok::<RepackAction, String>(RepackAction::ReplaceManifest),
        !is_top_manifest(path@) ==> match r {
            Ok(a) => (a == RepackAction::Drop && any_matches(filter.excludes@, path@)) || (a == RepackAction::Keep && !any_matches(
                filter.excludes@,
                path@,
            ) && (!suspicious(path@) || any_matches(filter.includes@, path@) || ignore_suspicious)),
            Err(m) => !any_matches(filter.excludes@, path@) && suspicious(path@) && !any_matches(filter.includes@, path@)
                && !ignore_suspicious && m@ == "Suspicious file, should probably be excluded: "@ + path_debug(path@),
        },
{
    let cs = components(path);
    if cs.len() == 2 && str_eq(cs[1].as_str(), "Cargo.toml") {
        return Ok(RepackAction::ReplaceManifest);
    }
    proof {
        if path_components(path@).len() == 2 {
            assert(views(cs@)[1] == cs@[1]@);
        }
    }
    match filter.filter_path(path, ignore_suspicious) {
        Ok(true) => Ok(RepackAction::Drop),
        Ok(false) => Ok(RepackAction::Keep),
        Err(m) => Err(m),
    }
}

/// What extracting a crate's archive has found so far.
pub struct ExtractScan {
    /// Whether an entry was left out.
    pub source_modified: bool,
    /// The latest modification time of an unpacked entry.
    pub last_mtime: u64,
    /// The suspicious files.
    pub errors: Vec<String>,
}

impl ExtractScan {
    /// Nothing found yet.
    pub fn new() -> (r: ExtractScan)
        ensures
            !r.source_modified,
            r.last_mtime == 0,
            r.errors@.len() == 0,
    {
        ExtractScan { source_modified: false, last_mtime: 0, errors: Vec::new() }
    }

    /// Takes in what the filter said of an entry; whether to unpack it: an
    /// entry left out is not, a suspicious one is noted and still unpacked.
    pub fn entry(&mut self, filtered: Result<bool, String>) -> (unpack: bool)
        ensures
            unpack == !(filtered == Ok::<bool, String>(true)),
            final(self).source_modified == (old(self).source_modified || filtered == Ok::<bool, String>(true)),
            final(self).last_mtime == old(self).last_mtime,
            final(self).errors@ == (match filtered {
                Err(e) => old(self).errors@.push(e),
                Ok(_) => old(self).errors@,
            }),
    {
        match filtered {
            Ok(true) => {
                self.source_modified = true;
                false
            },
            Ok(false) => true,
            Err(e) => {
                self.errors.push(e);
                true
            },
        }
    }

    /// Takes in the modification time of an unpacked entry, if it has one.
    pub fn unpacked(&mut self, mtime: Option<u64>)
        ensures
            final(self).last_mtime == (match mtime {
                Some(m) => if m > old(self).last_mtime {
                    m
                } else {
                    old(self).last_mtime
                },
                None => old(self).last_mtime,
            }),
            final(self).source_modified == old(self).source_modified,
            final(self).errors@ == old(self).errors@,
    {
        if let Some(m) = mtime {
            if m > self.last_mtime {
                self.last_mtime = m;
            }
        }
    }

    /// The error to stop with when suspicious files were found.
    pub fn failure(&self) -> (r: Option<String>)
        ensures
            r is Some <==> self.errors@.len() > 0,
            r matches Some(m) ==> m@ == "Suspicious files detected, aborting. Ask on #debian-rust if you are stuck."@,
    {
        if self.errors.len() > 0 {
            Some(String::from_str("Suspicious files detected, aborting. Ask on #debian-rust if you are stuck."))
        } else {
            None
        }
    }
}

/// The error when an archive does not unpack to one top-level directory.
pub fn single_top_dir_error(name: &str, version: &str, n_entries: usize, first_is_dir: bool) -> (r: Option<String>)
    ensures
        r is Some <==> (n_entries != 1 || !first_is_dir),
        r matches Some(m) ==> m@ == name@ + "-"@ + version@ + ".crate did not unpack to a single top-level directory"@,
{
    if n_entries != 1 || !first_is_dir {
        let a = concat3(name, "-", version);
        Some(concat2(a.as_str(), ".crate did not unpack to a single top-level directory"))
    } else {
        None
    }
}

/// The mark of a manifest that Cargo normalized.
pub const CARGO_GENERATED: &'static str = "AUTOMATICALLY GENERATED BY CARGO";

/// Whether a crate's manifest has to be rewritten in normalized form: it
/// lacks Cargo's mark.
pub fn needs_normalized_manifest(manifest: &str) -> (r: bool)
    ensures
        r == (first_occurrence(manifest@, CARGO_GENERATED@, 0) is None),
{
    proof {
        reveal_strlit("AUTOMATICALLY GENERATED BY CARGO");
    }
    let cs = str_chars(manifest);
    first_occurrence_exec(&cs, CARGO_GENERATED).is_none()
}

} // verus!
