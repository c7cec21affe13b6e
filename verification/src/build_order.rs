//! What a package needs built before it: the dependencies of a feature,
//! followed through the features it enables, and the sets of them that
//! come first.

use vstd::prelude::*;
use vstd::string::*;

use crate::control::Version;
use crate::crates::{FeatureDeps, non_dev};
use crate::dependency::{dep_same, DepKind, Dependency};
use crate::text::{concat2, concat3, str_eq, u64_to_string, views, decimal};

verus! {

/// The features and dependencies of `feature` in the map `info`, followed
/// through the features it enables, depth first; none when a feature is
/// missing from the map or the chain is longer than `fuel`.
pub open spec fn trans_deps(info: Seq<(String, FeatureDeps)>, feature: Seq<char>, fuel: nat) -> Option<
    (Seq<Seq<char>>, Seq<Dependency>),
>
    decreases fuel, 0nat,
{
    match info_entry(info, feature) {
        None => None,
        Some(e) => if fuel == 0 {
            None
        } else {
            match trans_deps_all(info, views(e.features@), (fuel - 1) as nat) {
                Some(rest) => Some((views(e.features@) + rest.0, e.deps@ + rest.1)),
                None => None,
            }
        },
    }
}

/// `trans_deps` of each of `fs`, one after the other.
pub open spec fn trans_deps_all(info: Seq<(String, FeatureDeps)>, fs: Seq<Seq<char>>, fuel: nat) -> Option<
    (Seq<Seq<char>>, Seq<Dependency>),
>
    decreases fuel, fs.len(),
{
    if fs.len() == 0 {
        Some((Seq::empty(), Seq::empty()))
    } else {
        match trans_deps_all(info, fs.drop_last(), fuel) {
            Some(a) => match trans_deps(info, fs.last(), fuel) {
                Some(b) => Some((a.0 + b.0, a.1 + b.1)),
                None => None,
            },
            None => None,
        }
    }
}

/// The entry of `feature` in `info`.
pub open spec fn info_entry(info: Seq<(String, FeatureDeps)>, feature: Seq<char>) -> Option<FeatureDeps>
    decreases info.len(),
{
    if info.len() == 0 {
        None
    } else if info[0].0@ == feature {
        Some(info[0].1)
    } else {
        info_entry(info.drop_first(), feature)
    }
}

/// Whether following the features of `feature` ends, every one of them
/// being in the map.
pub open spec fn trans_defined(info: Seq<(String, FeatureDeps)>, feature: Seq<char>) -> bool {
    exists|n: nat| #[trigger] trans_deps(info, feature, n) is Some
}

/// More fuel does not change a result.
pub proof fn lemma_trans_deps_mono(info: Seq<(String, FeatureDeps)>, feature: Seq<char>, n1: nat, n2: nat)
    requires
        n1 <= n2,
        trans_deps(info, feature, n1) is Some,
    ensures
        trans_deps(info, feature, n2) == trans_deps(info, feature, n1),
    decreases n1, 0nat,
{
    match info_entry(info, feature) {
        None => {},
        Some(e) => {
            lemma_trans_deps_all_mono(info, views(e.features@), (n1 - 1) as nat, (n2 - 1) as nat);
        },
    }
}

/// More fuel does not change a result.
pub proof fn lemma_trans_deps_all_mono(info: Seq<(String, FeatureDeps)>, fs: Seq<Seq<char>>, n1: nat, n2: nat)
    requires
        n1 <= n2,
        trans_deps_all(info, fs, n1) is Some,
    ensures
        trans_deps_all(info, fs, n2) == trans_deps_all(info, fs, n1),
    decreases n1, fs.len(),
{
    if fs.len() > 0 {
        lemma_trans_deps_all_mono(info, fs.drop_last(), n1, n2);
        lemma_trans_deps_mono(info, fs.last(), n1, n2);
    }
}

proof fn lemma_trans_deps_all_prefix(info: Seq<(String, FeatureDeps)>, fs: Seq<Seq<char>>, fuel: nat, j: int)
    requires
        0 <= j <= fs.len(),
        trans_deps_all(info, fs, fuel) is Some,
    ensures
        trans_deps_all(info, fs.subrange(0, j), fuel) is Some,
    decreases fs.len() - j,
{
    if j < fs.len() {
        assert(fs.drop_last() =~= fs.subrange(0, fs.len() - 1));
        lemma_trans_deps_all_prefix(info, fs.drop_last(), fuel, j);
        assert(fs.drop_last().subrange(0, j) =~= fs.subrange(0, j));
    } else {
        assert(fs.subrange(0, j) =~= fs);
    }
}

fn find_entry(info: &Vec<(String, FeatureDeps)>, feature: &str) -> (r: Option<usize>)
    ensures
        match r {
            Some(i) => i < info@.len() && info_entry(info@, feature@) == Some(info@[i as int].1),
            None => info_entry(info@, feature@) is None,
        },
{
    let mut i: usize = 0;
    assert(info@.skip(0) =~= info@);
    while i < info.len()
        invariant
            i <= info@.len(),
            info_entry(info@, feature@) == info_entry(info@.skip(i as int), feature@),
        decreases info.len() - i,
    {
        if str_eq(info[i].0.as_str(), feature) {
            return Some(i);
        }
        assert(info@.skip(i as int).drop_first() =~= info@.skip(i + 1));
        i = i + 1;
    }
    None
}

/// Copies of dependencies.
pub fn copy_deps(v: &Vec<Dependency>) -> (r: Vec<Dependency>)
    ensures
        r@.len() == v@.len(),
        forall|i: int| 0 <= i < v@.len() ==> dep_same(#[trigger] r@[i], v@[i]),
{
    let mut out: Vec<Dependency> = Vec::new();
    let mut i: usize = 0;
    while i < v.len()
        invariant
            i <= v@.len(),
            out@.len() == i,
            forall|k: int| 0 <= k < i ==> dep_same(#[trigger] out@[k], v@[k]),
        decreases v.len() - i,
    {
        out.push(v[i].copy());
        i = i + 1;
    }
    out
}

/// Pointwise the same dependencies.
pub open spec fn deps_same(a: Seq<Dependency>, b: Seq<Dependency>) -> bool {
    &&& a.len() == b.len()
    &&& forall|i: int| 0 <= i < a.len() ==> dep_same(#[trigger] a[i], b[i])
}

fn trans_exec(info: &Vec<(String, FeatureDeps)>, feature: &str, Ghost(fuel): Ghost<nat>) -> (r: (Vec<String>, Vec<Dependency>))
    requires
        trans_deps(info@, feature@, fuel) is Some,
    ensures
        views(r.0@) == (trans_deps(info@, feature@, fuel)->0).0,
        deps_same(r.1@, (trans_deps(info@, feature@, fuel)->0).1),
    decreases fuel,
{
    let i = find_entry(info, feature).unwrap();
    let e = &info[i].1;
    let ghost fv = views(e.features@);
    let ghost f1 = (fuel - 1) as nat;
    let mut all_features = crate::text::clone_strings(e.features.as_slice());
    let mut all_deps = copy_deps(&e.deps);
    let mut rest_f: Vec<String> = Vec::new();
    let mut rest_d: Vec<Dependency> = Vec::new();
    let mut j: usize = 0;
    while j < e.features.len()
        invariant
            fuel > 0,
            f1 == fuel - 1,
            j <= fv.len(),
            fv == views(e.features@),
            trans_deps_all(info@, fv, f1) is Some,
            trans_deps_all(info@, fv.subrange(0, j as int), f1) matches Some(t) && views(rest_f@) == t.0 && deps_same(rest_d@, t.1),
        decreases e.features.len() - j,
    {
        proof {
            lemma_trans_deps_all_prefix(info@, fv, f1, j + 1);
            assert(fv.subrange(0, j + 1).drop_last() =~= fv.subrange(0, j as int));
            assert(fv.subrange(0, j + 1).last() == e.features@[j as int]@);
        }
        let sub = trans_exec(info, e.features[j].as_str(), Ghost(f1));
        let ghost pf = views(rest_f@);
        let ghost pd = rest_d@;
        crate::text::extend_strings(&mut rest_f, &sub.0);
        let mut sd = sub.1;
        rest_d.append(&mut sd);
        proof {
            assert(views(rest_f@) =~= pf + views(sub.0@));
            let t = trans_deps_all(info@, fv.subrange(0, j + 1), f1)->0;
            assert forall|k: int| 0 <= k < rest_d@.len() implies dep_same(#[trigger] rest_d@[k], t.1[k]) by {
                if k < pd.len() {
                    assert(rest_d@[k] == pd[k]);
                } else {
                    assert(rest_d@[k] == sub.1@[k - pd.len()]);
                }
            }
        }
        j = j + 1;
    }
    assert(fv.subrange(0, fv.len() as int) =~= fv);
    let ghost af = views(all_features@);
    let ghost ad = all_deps@;
    crate::text::extend_strings(&mut all_features, &rest_f);
    all_deps.append(&mut rest_d);
    proof {
        assert(views(all_features@) =~= af + views(rest_f@));
        let t = trans_deps(info@, feature@, fuel)->0;
        assert forall|k: int| 0 <= k < all_deps@.len() implies dep_same(#[trigger] all_deps@[k], t.1[k]) by {
            if k < ad.len() {
                assert(all_deps@[k] == ad[k]);
            }
        }
    }
    (all_features, all_deps)
}

/// The features and dependencies that `feature` needs, as
/// `transitive_deps` finds them, where that takes no more than `fuel`
/// nested lookups; none where a feature on the way is missing or the
/// lookups go deeper.
pub fn transitive_deps_within(info: &Vec<(String, FeatureDeps)>, feature: &str, fuel: u64) -> (r: Option<(Vec<String>, Vec<Dependency>)>)
    ensures
        r is Some <==> trans_deps(info@, feature@, fuel as nat) is Some,
        r matches Some(x) ==> views(x.0@) == (trans_deps(info@, feature@, fuel as nat)->0).0
            && deps_same(x.1@, (trans_deps(info@, feature@, fuel as nat)->0).1),
    decreases fuel,
{
    let i = match find_entry(info, feature) {
        None => {
            return None;
        },
        Some(i) => i,
    };
    if fuel == 0 {
        return None;
    }
    let e = &info[i].1;
    let ghost fv = views(e.features@);
    let f1: u64 = fuel - 1;
    let mut all_features = crate::text::clone_strings(e.features.as_slice());
    let mut all_deps = copy_deps(&e.deps);
    let mut rest_f: Vec<String> = Vec::new();
    let mut rest_d: Vec<Dependency> = Vec::new();
    let mut j: usize = 0;
    while j < e.features.len()
        invariant
            fuel > 0,
            f1 == fuel - 1,
            j <= fv.len(),
            fv == views(e.features@),
            info_entry(info@, feature@) == Some(*e),
            trans_deps_all(info@, fv.subrange(0, j as int), f1 as nat) matches Some(t) && views(rest_f@) == t.0 && deps_same(rest_d@, t.1),
        decreases e.features.len() - j,
    {
        proof {
            assert(fv.subrange(0, j + 1).drop_last() =~= fv.subrange(0, j as int));
            assert(fv.subrange(0, j + 1).last() == e.features@[j as int]@);
        }
        let sub = match transitive_deps_within(info, e.features[j].as_str(), f1) {
            None => {
                proof {
                    if trans_deps_all(info@, fv, f1 as nat) is Some {
                        lemma_trans_deps_all_prefix(info@, fv, f1 as nat, j + 1);
                    }
                }
                return None;
            },
            Some(sub) => sub,
        };
        let ghost pf = views(rest_f@);
        let ghost pd = rest_d@;
        crate::text::extend_strings(&mut rest_f, &sub.0);
        let mut sd = sub.1;
        rest_d.append(&mut sd);
        proof {
            assert(views(rest_f@) =~= pf + views(sub.0@));
            let t = trans_deps_all(info@, fv.subrange(0, j + 1), f1 as nat)->0;
            assert forall|k: int| 0 <= k < rest_d@.len() implies dep_same(#[trigger] rest_d@[k], t.1[k]) by {
                if k < pd.len() {
                    assert(rest_d@[k] == pd[k]);
                } else {
                    assert(rest_d@[k] == sub.1@[k - pd.len()]);
                }
            }
        }
        j = j + 1;
    }
    assert(fv.subrange(0, fv.len() as int) =~= fv);
    let ghost af = views(all_features@);
    let ghost ad = all_deps@;
    crate::text::extend_strings(&mut all_features, &rest_f);
    all_deps.append(&mut rest_d);
    proof {
        assert(views(all_features@) =~= af + views(rest_f@));
        let t = trans_deps(info@, feature@, fuel as nat)->0;
        assert forall|k: int| 0 <= k < all_deps@.len() implies dep_same(#[trigger] all_deps@[k], t.1[k]) by {
            if k < ad.len() {
                assert(all_deps@[k] == ad[k]);
            }
        }
    }
    Some((all_features, all_deps))
}

/// The features and dependencies that `feature` needs, directly and
/// through the features it enables, depth first. Every feature on the way
/// is in `info`, and following them ends, as for any map of features that
/// Cargo accepts.
pub fn transitive_deps(info: &Vec<(String, FeatureDeps)>, feature: &str) -> (r: (Vec<String>, Vec<Dependency>))
    requires
        trans_defined(info@, feature@),
    ensures
        forall|n: nat| #[trigger] trans_deps(info@, feature@, n) is Some ==> views(r.0@) == (trans_deps(info@, feature@, n)->0).0
            && deps_same(r.1@, (trans_deps(info@, feature@, n)->0).1),
{
    let ghost n = choose|n: nat| #[trigger] trans_deps(info@, feature@, n) is Some;
    let r = trans_exec(info, feature, Ghost(n));
    proof {
        assert forall|n2: nat| #[trigger] trans_deps(info@, feature@, n2) is Some implies views(r.0@) == (trans_deps(
            info@,
            feature@,
            n2,
        )->0).0 && deps_same(r.1@, (trans_deps(info@, feature@, n2)->0).1) by {
            if n <= n2 {
                lemma_trans_deps_mono(info@, feature@, n, n2);
            } else {
                lemma_trans_deps_mono(info@, feature@, n2, n);
            }
        }
    }
    r
}

/// The features to build of a package that a dependency needs: those it
/// names, the default features unless it turns them off, and the bare
/// library.
pub open spec fn dep_features_spec(dep: Dependency) -> Seq<Seq<char>> {
    views(dep.features@) + (if dep.uses_default_features {
        seq!["default"@]
    } else {
        Seq::empty()
    }) + seq![Seq::<char>::empty()]
}

/// The features to build of a package that a dependency needs.
pub fn dep_features(dep: &Dependency) -> (r: Vec<String>)
    ensures
        views(r@) == dep_features_spec(*dep),
{
    let mut feats = crate::text::clone_strings(dep.features.as_slice());
    let ghost f0 = views(feats@);
    if dep.uses_default_features {
        feats.push(String::from_str("default"));
    }
    let ghost f1 = views(feats@);
    feats.push(String::new());
    proof {
        assert(f1 =~= f0 + (if dep.uses_default_features {
            seq!["default"@]
        } else {
            Seq::<Seq<char>>::empty()
        }));
        assert(views(feats@) =~= f1.push(Seq::<char>::empty()));
    }
    feats
}

/// The directories where the configuration of a crate may be, from the
/// most specific: `<name>-<major>.<minor>.<patch>`, `<name>-<major>.<minor>`,
/// `<name>-<major>`, then `<name>`.
pub open spec fn config_candidates_spec(name: Seq<char>, v: Version) -> Seq<Seq<char>> {
    let maj = decimal(v.major as nat);
    let min = decimal(v.minor as nat);
    let pat = decimal(v.patch as nat);
    seq![
        name + "-"@ + maj + "."@ + min + "."@ + pat,
        name + "-"@ + maj + "."@ + min,
        name + "-"@ + maj,
        name,
    ]
}

/// The directories where the configuration of a crate may be, from the
/// most specific; `name` is the crate's package base name.
pub fn config_candidates(name: &str, v: &Version) -> (r: Vec<String>)
    ensures
        views(r@) == config_candidates_spec(name@, *v),
{
    let maj = u64_to_string(v.major);
    let min = u64_to_string(v.minor);
    let pat = u64_to_string(v.patch);
    let a = concat3(name, "-", maj.as_str());
    let b = concat3(a.as_str(), ".", min.as_str());
    let c = concat3(b.as_str(), ".", pat.as_str());
    let mut r: Vec<String> = Vec::new();
    r.push(c);
    r.push(b);
    r.push(a);
    r.push(String::from_str(name));
    assert(views(r@) =~= config_candidates_spec(name@, *v));
    r
}

/// How the build order is resolved.
#[derive(Clone, Copy, PartialEq, Eq, Structural)]
pub enum ResolveType {
    /// What a source package in Debian unstable needs to build.
    SourceForDebianUnstable,
    /// Also what else has to reach Debian testing first.
    BinaryAllForDebianTesting,
}

/// The arguments of the build order command.
pub struct BuildOrderArgs {
    /// Name of the crate to package.
    pub crate_name: String,
    /// Version of the crate to package; may contain dependency operators.
    pub version: Option<String>,
    /// Directory for configs, looked up by crate name and version.
    pub config_dir: Option<String>,
    /// Resolution type.
    pub resolve_type: ResolveType,
    /// Emulate resolution as if every package were built with collapsed
    /// features.
    pub emulate_collapse_features: bool,
}

/// What identifies a dependency.
pub open spec fn dep_key(d: Dependency) -> (Seq<char>, Seq<char>, Seq<char>, bool, Seq<Seq<char>>, DepKind, bool) {
    (d.package_name@, d.name_in_toml@, d.version_req@, d.uses_default_features, views(d.features@), d.kind, d.optional)
}

/// The identities of some dependencies.
pub open spec fn dep_keys(s: Seq<Dependency>) -> Set<(Seq<char>, Seq<char>, Seq<char>, bool, Seq<Seq<char>>, DepKind, bool)> {
    s.map_values(|d: Dependency| dep_key(d)).to_set()
}

/// No dependency occurs twice.
pub open spec fn unique_deps(s: Seq<Dependency>) -> bool {
    forall|i: int, j: int| 0 <= i < j < s.len() ==> dep_key(#[trigger] s[i]) != dep_key(#[trigger] s[j])
}

fn strings_eq(a: &Vec<String>, b: &Vec<String>) -> (r: bool)
    ensures
        r == (views(a@) == views(b@)),
{
    if a.len() != b.len() {
        return false;
    }
    let mut i: usize = 0;
    while i < a.len()
        invariant
            a@.len() == b@.len(),
            i <= a@.len(),
            forall|k: int| 0 <= k < i ==> a@[k]@ == b@[k]@,
        decreases a.len() - i,
    {
        if !str_eq(a[i].as_str(), b[i].as_str()) {
            assert(views(a@)[i as int] != views(b@)[i as int]);
            return false;
        }
        i = i + 1;
    }
    assert(views(a@) =~= views(b@));
    true
}

/// Whether two dependencies are the same.
pub fn dep_eq(a: &Dependency, b: &Dependency) -> (r: bool)
    ensures
        r == (dep_key(*a) == dep_key(*b)),
{
    str_eq(a.package_name.as_str(), b.package_name.as_str()) && str_eq(a.name_in_toml.as_str(), b.name_in_toml.as_str())
        && str_eq(a.version_req.as_str(), b.version_req.as_str()) && a.uses_default_features == b.uses_default_features
        && strings_eq(&a.features, &b.features) && a.kind == b.kind && a.optional == b.optional
}

/// Whether `d` is among `s`.
fn contains_dep(s: &Vec<Dependency>, d: &Dependency) -> (r: bool)
    ensures
        r == dep_keys(s@).contains(dep_key(*d)),
{
    let mut i: usize = 0;
    while i < s.len()
        invariant
            i <= s@.len(),
            forall|k: int| 0 <= k < i ==> dep_key(#[trigger] s@[k]) != dep_key(*d),
        decreases s.len() - i,
    {
        if dep_eq(&s[i], d) {
            assert(s@.map_values(|x: Dependency| dep_key(x))[i as int] == dep_key(*d));
            return true;
        }
        i = i + 1;
    }
    proof {
        if dep_keys(s@).contains(dep_key(*d)) {
            let m = s@.map_values(|x: Dependency| dep_key(x));
            let k = choose|k: int| 0 <= k < m.len() && #[trigger] m[k] == dep_key(*d);
            assert(dep_key(s@[k]) == dep_key(*d));
        }
    }
    false
}

/// Adds `d` to `out` unless it is there.
fn add_unique(out: &mut Vec<Dependency>, d: &Dependency)
    requires
        unique_deps(old(out)@),
    ensures
        unique_deps(final(out)@),
        dep_keys(final(out)@) == dep_keys(old(out)@).insert(dep_key(*d)),
{
    if contains_dep(out, d) {
        assert(dep_keys(out@).insert(dep_key(*d)) =~= dep_keys(out@));
        return;
    }
    let ghost prev = out@;
    out.push(d.copy());
    proof {
        let f = |x: Dependency| dep_key(x);
        assert(out@.map_values(f) =~= prev.map_values(f).push(dep_key(*d)));
        prev.map_values(f).lemma_push_to_set_commute(dep_key(*d));
        assert forall|i: int, j: int| 0 <= i < j < out@.len() implies dep_key(#[trigger] out@[i]) != dep_key(#[trigger] out@[j]) by {
            if j == prev.len() {
                assert(prev.map_values(f)[i] == dep_key(prev[i]));
            }
        }
    }
}

/// Adds the dependencies of `s` to `out`, each once.
fn add_all_unique(out: &mut Vec<Dependency>, s: &Vec<Dependency>)
    requires
        unique_deps(old(out)@),
    ensures
        unique_deps(final(out)@),
        dep_keys(final(out)@) == dep_keys(old(out)@) + dep_keys(s@),
{
    let ghost start = dep_keys(out@);
    let mut i: usize = 0;
    while i < s.len()
        invariant
            i <= s@.len(),
            unique_deps(out@),
            dep_keys(out@) == start + dep_keys(s@.subrange(0, i as int)),
        decreases s.len() - i,
    {
        add_unique(out, &s[i]);
        proof {
            let f = |x: Dependency| dep_key(x);
            assert(s@.subrange(0, i + 1).map_values(f) =~= s@.subrange(0, i as int).map_values(f).push(dep_key(s@[i as int])));
            s@.subrange(0, i as int).map_values(f).lemma_push_to_set_commute(dep_key(s@[i as int]));
            assert(dep_keys(out@) =~= start + dep_keys(s@.subrange(0, i + 1)));
        }
        i = i + 1;
    }
    assert(s@.subrange(0, s@.len() as int) =~= s@);
}

/// Every dependency of every feature.
pub open spec fn all_info_deps(info: Seq<(String, FeatureDeps)>) -> Set<(Seq<char>, Seq<char>, Seq<char>, bool, Seq<Seq<char>>, DepKind, bool)>
    decreases info.len(),
{
    if info.len() == 0 {
        Set::empty()
    } else {
        all_info_deps(info.drop_last()) + dep_keys(info.last().1.deps@)
    }
}

/// Pointwise-same dependencies have the same identities.
proof fn lemma_same_keys(a: Seq<Dependency>, b: Seq<Dependency>)
    requires
        deps_same(a, b),
    ensures
        dep_keys(a) == dep_keys(b),
{
    let f = |x: Dependency| dep_key(x);
    assert(a.map_values(f) =~= b.map_values(f)) by {
        assert forall|i: int| 0 <= i < a.len() implies a.map_values(f)[i] == b.map_values(f)[i] by {
            assert(dep_same(a[i], b[i]));
            assert(views(a[i].features@) == views(b[i].features@));
        }
    }
}

/// What a package needs built before it, when it is asked for with
/// `feature`: the dependencies of that feature and those of the default
/// feature (of every feature when features are collapsed); and, for
/// Debian testing, the other dependencies too, apart. Each comes once.
pub fn get_build_deps(
    info: &Vec<(String, FeatureDeps)>,
    feature: &str,
    resolve_type: ResolveType,
    collapse_features: bool,
) -> (r: (Vec<Dependency>, Vec<Dependency>))
    requires
        trans_defined(info@, feature@),
        !collapse_features ==> trans_defined(info@, "default"@),
    ensures
        unique_deps(r.0@),
        unique_deps(r.1@),
        forall|n: nat, m: nat| #[trigger] trans_deps(info@, feature@, n) is Some && #[trigger] trans_deps(info@, "default"@, m) is Some
            ==> dep_keys(r.0@) == dep_keys((trans_deps(info@, feature@, n)->0).1) + (if collapse_features {
            all_info_deps(info@)
        } else {
            dep_keys((trans_deps(info@, "default"@, m)->0).1)
        }),
        collapse_features ==> forall|n: nat| #[trigger] trans_deps(info@, feature@, n) is Some ==> dep_keys(r.0@) == dep_keys(
            (trans_deps(info@, feature@, n)->0).1,
        ) + all_info_deps(info@),
        resolve_type == ResolveType::SourceForDebianUnstable ==> r.1@.len() == 0,
        resolve_type == ResolveType::BinaryAllForDebianTesting ==> dep_keys(r.1@) == all_info_deps(info@).difference(
            dep_keys(r.0@),
        ),
{
    let mut all: Vec<Dependency> = Vec::new();
    let mut i: usize = 0;
    while i < info.len()
        invariant
            i <= info@.len(),
            unique_deps(all@),
            dep_keys(all@) == all_info_deps(info@.subrange(0, i as int)),
        decreases info.len() - i,
    {
        add_all_unique(&mut all, &info[i].1.deps);
        assert(info@.subrange(0, i + 1).drop_last() =~= info@.subrange(0, i as int));
        i = i + 1;
    }
    assert(info@.subrange(0, info@.len() as int) =~= info@);
    let (_, fdeps) = transitive_deps(info, feature);
    let mut hard: Vec<Dependency> = Vec::new();
    add_all_unique(&mut hard, &fdeps);
    let ghost h0 = dep_keys(hard@);
    if collapse_features {
        add_all_unique(&mut hard, &all);
    } else {
        let (_, ddeps) = transitive_deps(info, "default");
        add_all_unique(&mut hard, &ddeps);
        proof {
            assert forall|n: nat, m: nat| #[trigger] trans_deps(info@, feature@, n) is Some && #[trigger] trans_deps(info@, "default"@, m) is Some
                implies dep_keys(hard@) == dep_keys((trans_deps(info@, feature@, n)->0).1) + dep_keys((trans_deps(info@, "default"@, m)->0).1) by {
                lemma_same_keys(fdeps@, (trans_deps(info@, feature@, n)->0).1);
                lemma_same_keys(ddeps@, (trans_deps(info@, "default"@, m)->0).1);
                assert(dep_keys(hard@) =~= dep_keys(fdeps@) + dep_keys(ddeps@));
            }
        }
    }
    proof {
        if collapse_features {
            assert forall|n: nat| #[trigger] trans_deps(info@, feature@, n) is Some implies dep_keys(hard@) == dep_keys(
                (trans_deps(info@, feature@, n)->0).1,
            ) + all_info_deps(info@) by {
                lemma_same_keys(fdeps@, (trans_deps(info@, feature@, n)->0).1);
                assert(dep_keys(hard@) =~= dep_keys(fdeps@) + dep_keys(all@));
            }
        }
    }
    let mut soft: Vec<Dependency> = Vec::new();
    if resolve_type == ResolveType::BinaryAllForDebianTesting {
        let mut j: usize = 0;
        while j < all.len()
            invariant
                j <= all@.len(),
                unique_deps(all@),
                unique_deps(soft@),
                dep_keys(soft@) == dep_keys(all@.subrange(0, j as int)).difference(dep_keys(hard@)),
            decreases all.len() - j,
        {
            let ghost prev = dep_keys(soft@);
            if !contains_dep(&hard, &all[j]) {
                add_unique(&mut soft, &all[j]);
            }
            proof {
                let f = |x: Dependency| dep_key(x);
                assert(all@.subrange(0, j + 1).map_values(f) =~= all@.subrange(0, j as int).map_values(f).push(dep_key(all@[j as int])));
                all@.subrange(0, j as int).map_values(f).lemma_push_to_set_commute(dep_key(all@[j as int]));
                assert(dep_keys(soft@) =~= dep_keys(all@.subrange(0, j + 1)).difference(dep_keys(hard@)));
            }
            j = j + 1;
        }
        assert(all@.subrange(0, all@.len() as int) =~= all@);
    }
    (hard, soft)
}

} // verus!
