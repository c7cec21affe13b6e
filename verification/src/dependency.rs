//! Translation of Cargo dependencies into Debian dependency clauses.
//!
//! A Cargo version requirement is a conjunction of predicates. Each predicate
//! narrows a half-open version range `[ge, lt)`; the range is then written as
//! a Debian or-clause over the semver-suffixed package names that cover it.

use vstd::prelude::*;
use vstd::string::*;

use semver_parser::range::{Op as P, WildcardVersion as W};

use crate::config::Config;
use crate::text::{
    ascii_lower, ascii_seq, concat2, concat3, decimal, is_ascii_upper, join_spec, join_strings,
    lowercase, push_str, replace_char,
    replace_char_spec, sort_dedup, split_char, split_spec, strictly_sorted, to_lowercase, trim_end,
    trim_end_spec, u64_to_string, views,
};

verus! {

/// The `*` part of a wildcard predicate.
#[derive(Clone, Copy)]
pub enum WildcardVersion {
    Minor,
    Patch,
}

/// The operator of a version predicate.
#[derive(Clone, Copy)]
pub enum Op {
    Ex,
    Gt,
    GtEq,
    Lt,
    LtEq,
    Tilde,
    Compatible,
    Wildcard(WildcardVersion),
}

/// One predicate of a version requirement, such as `>= 1.2`.
pub struct Predicate {
    pub op: Op,
    pub major: u64,
    pub minor: Option<u64>,
    pub patch: Option<u64>,
    /// The pre-release identifiers, such as `alpha.1`.
    pub pre: Vec<String>,
}

/// The value of a predicate.
pub ghost struct PredicateView {
    pub op: Op,
    pub major: u64,
    pub minor: Option<u64>,
    pub patch: Option<u64>,
    pub pre: Seq<Seq<char>>,
}

impl DeepView for Predicate {
    type V = PredicateView;

    open spec fn deep_view(&self) -> PredicateView {
        PredicateView {
            op: self.op,
            major: self.major,
            minor: self.minor,
            patch: self.patch,
            pre: views(self.pre@),
        }
    }
}

/// What can go wrong when translating a dependency.
#[derive(Clone, Copy)]
pub enum DepError {
    /// A predicate gives a patch version but no minor version.
    PatchWithoutMinor,
    /// A predicate names a pre-release and pre-release dependencies are not allowed.
    Prerelease,
    /// The predicate `< 0` (or `< 0.0`, `< 0.0.0`) has no Debian form.
    Unrepresentable,
    /// The predicates leave an empty range.
    BadRange,
    /// The version requirement could not be parsed.
    UnparsableRequirement,
    /// A version bound would not fit in 64 bits.
    VersionTooLarge,
}

/// The message that reports a dependency error.
pub open spec fn dep_error_message(e: DepError) -> Seq<char> {
    match e {
        DepError::PatchWithoutMinor => "semver had patch without minor"@,
        DepError::Prerelease => "Cannot represent prerelease part of dependency"@,
        DepError::Unrepresentable => "Unrepresentable dependency version predicate"@,
        DepError::BadRange => "bad version range"@,
        DepError::UnparsableRequirement => "could not parse version requirement"@,
        DepError::VersionTooLarge => "dependency version does not fit in 64 bits"@,
    }
}

impl DepError {
    /// The message that reports this error.
    pub fn message(&self) -> (r: &'static str)
        ensures
            r@ == dep_error_message(*self),
    {
        match self {
            DepError::PatchWithoutMinor => "semver had patch without minor",
            DepError::Prerelease => "Cannot represent prerelease part of dependency",
            DepError::Unrepresentable => "Unrepresentable dependency version predicate",
            DepError::BadRange => "bad version range",
            DepError::UnparsableRequirement => "could not parse version requirement",
            DepError::VersionTooLarge => "dependency version does not fit in 64 bits",
        }
    }
}

/// What kind of dependency it is.
#[derive(Clone, Copy, PartialEq, Eq, Structural)]
pub enum DepKind {
    Normal,
    Development,
    Build,
}

/// A dependency of a crate, as its manifest states it.
pub struct Dependency {
    /// The name of the depended-upon package.
    pub package_name: String,
    /// The name under which the manifest refers to it.
    pub name_in_toml: String,
    /// The version requirement, as text (such as `^1.2, <1.5`).
    pub version_req: String,
    pub uses_default_features: bool,
    pub features: Vec<String>,
    pub kind: DepKind,
    pub optional: bool,
}

/// Whether two dependencies say the same.
pub open spec fn dep_same(a: Dependency, b: Dependency) -> bool {
    &&& a.package_name@ == b.package_name@
    &&& a.name_in_toml@ == b.name_in_toml@
    &&& a.version_req@ == b.version_req@
    &&& a.uses_default_features == b.uses_default_features
    &&& views(a.features@) == views(b.features@)
    &&& a.kind == b.kind
    &&& a.optional == b.optional
}

impl Dependency {
    /// A copy of the dependency.
    pub fn copy(&self) -> (r: Dependency)
        ensures
            dep_same(r, *self),
    {
        Dependency {
            package_name: self.package_name.clone(),
            name_in_toml: self.name_in_toml.clone(),
            version_req: self.version_req.clone(),
            uses_default_features: self.uses_default_features,
            features: crate::text::clone_strings(self.features.as_slice()),
            kind: self.kind,
            optional: self.optional,
        }
    }
}

/// A version with a major, and optionally minor and patch, part.
#[derive(Clone, Copy)]
pub enum V {
    M(u64),
    MM(u64, u64),
    MMP(u64, u64, u64),
}

/// A version range `[ge, lt)`; a missing bound is unbounded.
#[derive(Clone, Copy)]
pub struct VRange {
    pub ge: Option<V>,
    pub lt: Option<V>,
}

/// The result of parsing a version requirement with `semver_parser`: its
/// predicates, or `None` where the text does not parse.
pub uninterp spec fn parsed_predicates(req: Seq<char>) -> Option<Seq<PredicateView>>;

/// Parses a version requirement with `semver_parser::range::parse`.
#[verifier::external_body]
fn parse_version_req(req: &str) -> (r: Option<Vec<Predicate>>)
    ensures
        r.deep_view() == parsed_predicates(req@),
{
    let parsed = semver_parser::range::parse(req).ok()?;
    Some(parsed.predicates.into_iter().map(|p| Predicate {
        op: match p.op {
            P::Ex => Op::Ex, P::Gt => Op::Gt, P::GtEq => Op::GtEq, P::Lt => Op::Lt,
            P::LtEq => Op::LtEq, P::Tilde => Op::Tilde, P::Compatible => Op::Compatible,
            P::Wildcard(W::Minor) => Op::Wildcard(WildcardVersion::Minor),
            P::Wildcard(W::Patch) => Op::Wildcard(WildcardVersion::Patch),
        },
        major: p.major, minor: p.minor, patch: p.patch,
        pre: p.pre.iter().map(|i| i.to_string()).collect(),
    }).collect())
}

/// The (major, minor, patch) triple of a version; missing parts are 0.
pub open spec fn mmp(v: V) -> (int, int, int) {
    match v {
        V::M(a) => (a as int, 0, 0),
        V::MM(a, b) => (a as int, b as int, 0),
        V::MMP(a, b, c) => (a as int, b as int, c as int),
    }
}

/// Versions are ordered by their triples, lexicographically.
pub open spec fn v_lt(a: V, b: V) -> bool {
    let (a0, a1, a2) = mmp(a);
    let (b0, b1, b2) = mmp(b);
    a0 < b0 || (a0 == b0 && (a1 < b1 || (a1 == b1 && a2 < b2)))
}

/// Two versions are equal when their triples are.
pub open spec fn v_eq(a: V, b: V) -> bool {
    mmp(a) == mmp(b)
}

/// The major part of a version.
pub open spec fn v_major(v: V) -> u64 {
    match v {
        V::M(a) => a,
        V::MM(a, _) => a,
        V::MMP(a, _, _) => a,
    }
}

/// The minor part of a version, 0 where it has none.
pub open spec fn v_minor(v: V) -> u64 {
    match v {
        V::M(_) => 0,
        V::MM(_, b) => b,
        V::MMP(_, b, _) => b,
    }
}

/// The text of a version: `1`, `1.2` or `1.2.3`.
pub open spec fn v_str(v: V) -> Seq<char> {
    match v {
        V::M(a) => decimal(a as nat),
        V::MM(a, b) => decimal(a as nat) + "."@ + decimal(b as nat),
        V::MMP(a, b, c) => decimal(a as nat) + "."@ + decimal(b as nat) + "."@ + decimal(c as nat),
    }
}

/// The version of a predicate, if it is well formed.
pub open spec fn pred_v(p: PredicateView) -> Option<V> {
    match (p.minor, p.patch) {
        (None, None) => Some(V::M(p.major)),
        (Some(b), None) => Some(V::MM(p.major, b)),
        (Some(b), Some(c)) => Some(V::MMP(p.major, b, c)),
        (None, Some(_)) => None,
    }
}

/// The version with its last part increased by one, unless that overflows.
pub open spec fn inclast_spec(v: V) -> Option<V> {
    match v {
        V::M(a) => if a < u64::MAX { Some(V::M((a + 1) as u64)) } else { None },
        V::MM(a, b) => if b < u64::MAX { Some(V::MM(a, (b + 1) as u64)) } else { None },
        V::MMP(a, b, c) => if c < u64::MAX { Some(V::MMP(a, b, (c + 1) as u64)) } else { None },
    }
}

/// The next patch version, unless that overflows.
pub open spec fn incpatch_spec(v: V) -> Option<V> {
    match v {
        V::M(a) => Some(V::MMP(a, 0, 1)),
        V::MM(a, b) => Some(V::MMP(a, b, 1)),
        V::MMP(a, b, c) => if c < u64::MAX { Some(V::MMP(a, b, (c + 1) as u64)) } else { None },
    }
}

/// A major version bumped by one, unless that overflows.
pub open spec fn next_major(a: u64) -> Option<V> {
    if a < u64::MAX { Some(V::M((a + 1) as u64)) } else { None }
}

/// A minor version bumped by one, unless that overflows.
pub open spec fn next_minor(a: u64, b: u64) -> Option<V> {
    if b < u64::MAX { Some(V::MM(a, (b + 1) as u64)) } else { None }
}

/// Raising the lower bound keeps the greater of the two (the new one on a tie).
pub open spec fn constrain_ge_spec(r: VRange, ge: V) -> VRange {
    match r.ge {
        Some(g) => if v_lt(ge, g) { r } else { VRange { ge: Some(ge), lt: r.lt } },
        None => VRange { ge: Some(ge), lt: r.lt },
    }
}

/// Lowering the upper bound keeps the smaller of the two (the old one on a tie).
pub open spec fn constrain_lt_spec(r: VRange, lt: V) -> VRange {
    match r.lt {
        Some(l) => if !v_lt(lt, l) { r } else { VRange { ge: r.ge, lt: Some(lt) } },
        None => VRange { ge: r.ge, lt: Some(lt) },
    }
}

/// `x` (a version triple) lies in the range `r`.
pub open spec fn in_range(r: VRange, x: (int, int, int)) -> bool {
    let ge_ok = match r.ge {
        Some(g) => !triple_lt(x, mmp(g)),
        None => true,
    };
    let lt_ok = match r.lt {
        Some(l) => triple_lt(x, mmp(l)),
        None => true,
    };
    ge_ok && lt_ok
}

/// Triples are ordered lexicographically.
pub open spec fn triple_lt(a: (int, int, int), b: (int, int, int)) -> bool {
    a.0 < b.0 || (a.0 == b.0 && (a.1 < b.1 || (a.1 == b.1 && a.2 < b.2)))
}

/// Raising the lower bound to `ge` leaves exactly the versions of the range
/// that are at least `ge`.
pub proof fn lemma_constrain_ge_intersects(r: VRange, ge: V, x: (int, int, int))
    ensures
        in_range(constrain_ge_spec(r, ge), x) <==> in_range(r, x) && !triple_lt(x, mmp(ge)),
{
}

/// Lowering the upper bound to `lt` leaves exactly the versions of the range
/// that are below `lt`.
pub proof fn lemma_constrain_lt_intersects(r: VRange, lt: V, x: (int, int, int))
    ensures
        in_range(constrain_lt_spec(r, lt), x) <==> in_range(r, x) && triple_lt(x, mmp(lt)),
{
}

/// Both bounds at once: first the upper bound `lt` (if computable), then `ge`.
pub open spec fn constrain_both(r: VRange, lt: Option<V>, ge: V) -> Result<VRange, DepError> {
    match lt {
        None => Err(DepError::VersionTooLarge),
        Some(l) => Ok(constrain_ge_spec(constrain_lt_spec(r, l), ge)),
    }
}

/// The operator a predicate is translated with: prerelease predicates are
/// refused unless allowed, and `>= 0` becomes `> 0`.
pub open spec fn coerce_spec(p: PredicateView, allow_prerelease_deps: bool) -> Result<Op, DepError> {
    match pred_v(p) {
        None => Err(DepError::PatchWithoutMinor),
        Some(v) => if p.pre.len() != 0 && !allow_prerelease_deps {
            Err(DepError::Prerelease)
        } else {
            match (p.op, v) {
                (Op::GtEq, V::M(0)) => Ok(Op::Gt),
                _ => Ok(p.op),
            }
        },
    }
}

/// How one predicate, read with operator `op`, narrows a range.
pub open spec fn generate_spec(r: VRange, p: PredicateView, op: Op) -> Result<VRange, DepError> {
    match pred_v(p) {
        None => Err(DepError::PatchWithoutMinor),
        Some(v) => match op {
            Op::Lt => if mmp(v) == (0int, 0int, 0int) {
                Err(DepError::Unrepresentable)
            } else {
                Ok(constrain_lt_spec(r, v))
            },
            Op::LtEq => match incpatch_spec(v) {
                None => Err(DepError::VersionTooLarge),
                Some(w) => Ok(constrain_lt_spec(r, w)),
            },
            Op::Gt => match incpatch_spec(v) {
                None => Err(DepError::VersionTooLarge),
                Some(w) => Ok(constrain_ge_spec(r, w)),
            },
            Op::GtEq => Ok(constrain_ge_spec(r, v)),
            Op::Ex => constrain_both(r, incpatch_spec(v), v),
            Op::Tilde => match v {
                V::MMP(a, b, _) => constrain_both(r, next_minor(a, b), v),
                _ => constrain_both(r, inclast_spec(v), v),
            },
            Op::Compatible => match v {
                V::MMP(0, 0, _) => constrain_both(r, inclast_spec(v), v),
                V::MMP(0, b, _) => constrain_both(r, next_minor(0, b), v),
                V::MM(0, b) => constrain_both(r, next_minor(0, b), v),
                _ => constrain_both(r, next_major(v_major(v)), v),
            },
            Op::Wildcard(WildcardVersion::Minor) => constrain_both(
                r,
                next_major(v_major(v)),
                V::M(v_major(v)),
            ),
            Op::Wildcard(WildcardVersion::Patch) => constrain_both(
                r,
                next_minor(v_major(v), v_minor(v)),
                v,
            ),
        },
    }
}

/// The range left by the predicates `ps`, applied in order to `r`.
pub open spec fn constrain_all(r: VRange, ps: Seq<PredicateView>, allow_prerelease_deps: bool) -> Result<VRange, DepError>
    decreases ps.len(),
{
    if ps.len() == 0 {
        Ok(r)
    } else {
        match coerce_spec(ps[0], allow_prerelease_deps) {
            Err(e) => Err(e),
            Ok(op) => match generate_spec(r, ps[0], op) {
                Err(e) => Err(e),
                Ok(r2) => constrain_all(r2, ps.drop_first(), allow_prerelease_deps),
            },
        }
    }
}

/// A package alternative `<base>-<ver><suffix>`.
pub open spec fn alt_name(base: Seq<char>, ver: V, suffix: Seq<char>) -> Seq<char> {
    base + "-"@ + v_str(ver) + suffix
}

/// A version bound in Debian form: `<ver>-~~` sorts before any Debian revision.
pub open spec fn bound(v: V) -> Seq<char> {
    v_str(v) + "-~~"@
}

/// The version at `level` (0 major, 1 minor, 2 patch) built from the parts of
/// `ge` above that level and `n`.
pub open spec fn level_v(level: int, ge: V, n: u64) -> V {
    if level == 0 {
        V::M(n)
    } else if level == 1 {
        V::MM(v_major(ge), n)
    } else {
        V::MMP(v_major(ge), v_minor(ge), n)
    }
}

/// The part of a version at `level`.
pub open spec fn level_part(level: int, v: V) -> u64 {
    let (a, b, c) = mmp(v);
    if level == 0 {
        a as u64
    } else if level == 1 {
        b as u64
    } else {
        c as u64
    }
}

/// The first level at which `ge` and `lt` differ.
pub open spec fn split_level(ge: V, lt: V) -> int {
    if mmp(ge).0 != mmp(lt).0 {
        0
    } else if mmp(ge).1 != mmp(lt).1 {
        1
    } else {
        2
    }
}

/// The alternatives that cover `[ge, lt)`, highest version first: the
/// alternative at the top (bounded by `lt`, dropped where `lt` is its very
/// version), those in between, and the one at the bottom (bounded by `ge`,
/// unbounded where `ge` is its very version).
pub open spec fn range_alternatives(base: Seq<char>, suffix: Seq<char>, ge: V, lt: V) -> Seq<Seq<char>> {
    let lvl = split_level(ge, lt);
    let lo = level_part(lvl, ge);
    let hi = level_part(lvl, lt);
    let top = level_v(lvl, ge, hi);
    let bottom = level_v(lvl, ge, lo);
    let top_alt = if v_eq(lt, top) {
        Seq::<Seq<char>>::empty()
    } else {
        seq![alt_name(base, top, suffix) + " (<< "@ + bound(lt) + ")"@]
    };
    let middle = Seq::new(
        (hi - lo - 1) as nat,
        |i: int| alt_name(base, level_v(lvl, ge, (hi - 1 - i) as u64), suffix),
    );
    let bottom_alt = if v_eq(ge, bottom) {
        alt_name(base, bottom, suffix)
    } else {
        alt_name(base, bottom, suffix) + " (>= "@ + bound(ge) + ")"@
    };
    top_alt + middle + seq![bottom_alt]
}

/// Whether a range is non-empty where it is bounded on both sides.
pub open spec fn range_ok(r: VRange) -> bool {
    match (r.ge, r.lt) {
        (Some(ge), Some(lt)) => v_lt(ge, lt),
        _ => true,
    }
}

/// The Debian or-clause for a range, for packages `<base>...<suffix>`.
pub open spec fn or_clause_text(r: VRange, base: Seq<char>, suffix: Seq<char>) -> Seq<char> {
    match (r.ge, r.lt) {
        (None, None) => base + suffix,
        (Some(ge), None) => base + suffix + " (>= "@ + bound(ge) + ")"@,
        (None, Some(lt)) => base + suffix + " (<< "@ + bound(lt) + ")"@,
        (Some(ge), Some(lt)) => join_spec(range_alternatives(base, suffix, ge, lt), " | "@),
    }
}

/// The Debian or-clause for a range, or the error for an empty one.
pub open spec fn or_clause_spec(r: VRange, base: Seq<char>, suffix: Seq<char>) -> Result<Seq<char>, DepError> {
    if range_ok(r) {
        Ok(or_clause_text(r, base, suffix))
    } else {
        Err(DepError::BadRange)
    }
}

/// One alternative of an or-clause: the packages of a version series (all
/// versions with the major, the major and minor, or the whole version of
/// `series`), with an optional lower and upper bound on the version.
pub ghost struct Alt {
    pub series: V,
    pub lower: Option<V>,
    pub upper: Option<V>,
}

/// Whether the version triple `x` belongs to the series `s`.
pub open spec fn in_series(s: V, x: (int, int, int)) -> bool {
    match s {
        V::M(a) => x.0 == a,
        V::MM(a, b) => x.0 == a && x.1 == b,
        V::MMP(a, b, c) => x.0 == a && x.1 == b && x.2 == c,
    }
}

/// Whether the alternative `a` is met by a package of version `x`.
pub open spec fn admits(a: Alt, x: (int, int, int)) -> bool {
    &&& in_series(a.series, x)
    &&& (a.lower matches Some(l) ==> !triple_lt(x, mmp(l)))
    &&& (a.upper matches Some(u) ==> triple_lt(x, mmp(u)))
}

/// The Debian text of an alternative: the package of its series, then its
/// bound, `(<< ...)` for the upper and `(>= ...)` for the lower one.
pub open spec fn render_alt(base: Seq<char>, suffix: Seq<char>, a: Alt) -> Seq<char> {
    alt_name(base, a.series, suffix) + (match a.upper {
        Some(u) => " (<< "@ + bound(u) + ")"@,
        None => Seq::empty(),
    }) + (match a.lower {
        Some(l) => " (>= "@ + bound(l) + ")"@,
        None => Seq::empty(),
    })
}

/// The or-clause of alternatives: their texts joined by ` | `.
pub open spec fn alts_text(base: Seq<char>, suffix: Seq<char>, alts: Seq<Alt>) -> Seq<char> {
    join_spec(alts.map_values(|a: Alt| render_alt(base, suffix, a)), " | "@)
}

/// A version triple: no part is negative.
pub open spec fn is_triple(x: (int, int, int)) -> bool {
    x.0 >= 0 && x.1 >= 0 && x.2 >= 0
}

/// The part of a triple at `level`.
pub open spec fn triple_part(level: int, x: (int, int, int)) -> int {
    if level == 0 {
        x.0
    } else if level == 1 {
        x.1
    } else {
        x.2
    }
}

/// The alternatives behind `range_alternatives`, as series and bounds.
pub open spec fn range_alts(ge: V, lt: V) -> Seq<Alt> {
    let lvl = split_level(ge, lt);
    let lo = level_part(lvl, ge);
    let hi = level_part(lvl, lt);
    let top = level_v(lvl, ge, hi);
    let bottom = level_v(lvl, ge, lo);
    let top_alt = if v_eq(lt, top) {
        Seq::<Alt>::empty()
    } else {
        seq![Alt { series: top, lower: None, upper: Some(lt) }]
    };
    let middle = Seq::new(
        (hi - lo - 1) as nat,
        |i: int| Alt { series: level_v(lvl, ge, (hi - 1 - i) as u64), lower: None, upper: None },
    );
    let bottom_alt = if v_eq(ge, bottom) {
        Alt { series: bottom, lower: None, upper: None }
    } else {
        Alt { series: bottom, lower: Some(ge), upper: None }
    };
    top_alt + middle + seq![bottom_alt]
}

proof fn lemma_range_alts_text(base: Seq<char>, suffix: Seq<char>, ge: V, lt: V)
    requires
        v_lt(ge, lt),
    ensures
        range_alternatives(base, suffix, ge, lt) == range_alts(ge, lt).map_values(|a: Alt| render_alt(base, suffix, a)),
{
    let lvl = split_level(ge, lt);
    let lo = level_part(lvl, ge);
    let hi = level_part(lvl, lt);
    assert(lo < hi);
    let t = range_alternatives(base, suffix, ge, lt);
    let w = range_alts(ge, lt).map_values(|a: Alt| render_alt(base, suffix, a));
    assert(t.len() == w.len());
    assert forall|i: int| 0 <= i < t.len() implies t[i] == w[i] by {
        assert(" (<< "@ + bound(lt) + ")"@ + Seq::<char>::empty() =~= " (<< "@ + bound(lt) + ")"@);
    }
    assert(t =~= w);
}

/// The or-clause of a range bounded on both sides lists alternatives that
/// together take exactly the versions of the range: each version in the
/// range meets one of them, and no version outside it meets any.
pub proof fn lemma_or_clause_covers_range(r: VRange, base: Seq<char>, suffix: Seq<char>)
    requires
        r.ge is Some,
        r.lt is Some,
        v_lt(r.ge->0, r.lt->0),
    ensures
        exists|alts: Seq<Alt>| {
            &&& or_clause_spec(r, base, suffix) == Ok::<Seq<char>, DepError>(#[trigger] alts_text(base, suffix, alts))
            &&& forall|x: (int, int, int)| is_triple(x) && in_range(r, x) ==> exists|i: int|
                0 <= i < alts.len() && #[trigger] admits(alts[i], x)
            &&& forall|i: int, x: (int, int, int)| 0 <= i < alts.len() && is_triple(x) && #[trigger] admits(alts[i], x)
                ==> in_range(r, x)
        },
{
    let ge = r.ge->0;
    let lt = r.lt->0;
    let alts = range_alts(ge, lt);
    lemma_range_alts_text(base, suffix, ge, lt);
    let lvl = split_level(ge, lt);
    let lo = level_part(lvl, ge);
    let hi = level_part(lvl, lt);
    let top = level_v(lvl, ge, hi);
    let bottom = level_v(lvl, ge, lo);
    let h: int = if v_eq(lt, top) { 0 } else { 1 };
    assert(lo < hi);
    assert(alts.len() == h + (hi - lo - 1) + 1);
    assert forall|x: (int, int, int)| is_triple(x) && in_range(r, x) implies exists|i: int|
        0 <= i < alts.len() && #[trigger] admits(alts[i], x) by {
        let n = triple_part(lvl, x);
        assert(lo <= n <= hi);
        if n == hi {
            assert(h == 1);
            assert(admits(alts[0], x));
        } else if n > lo {
            let i = h + (hi - 1 - n);
            assert(alts[i].series == level_v(lvl, ge, n as u64));
            assert(admits(alts[i], x));
        } else {
            assert(admits(alts[alts.len() - 1], x));
        }
    }
    assert(or_clause_spec(r, base, suffix) == Ok::<Seq<char>, DepError>(alts_text(base, suffix, alts)));
    assert forall|i: int, x: (int, int, int)| 0 <= i < alts.len() && is_triple(x) && #[trigger] admits(alts[i], x)
        implies in_range(r, x) by {
        if i < h {
        } else if i < h + (hi - lo - 1) {
            assert(alts[i].series == level_v(lvl, ge, (hi - 1 - (i - h)) as u64));
        } else {
            assert(alts[i].series == bottom);
        }
    }
}

/// A string result viewed as a result over character sequences.
pub open spec fn res_view(r: Result<String, DepError>) -> Result<Seq<char>, DepError> {
    match r {
        Ok(s) => Ok(s@),
        Err(e) => Err(e),
    }
}

/// A result of strings viewed as a result over sequences of characters.
pub open spec fn res_vec_view(r: Result<Vec<String>, DepError>) -> Result<Seq<Seq<char>>, DepError> {
    match r {
        Ok(v) => Ok(views(v@)),
        Err(e) => Err(e),
    }
}

/// The package name a crate name maps to: `_` becomes `-`, then lowercase.
pub open spec fn dashed_spec(name: Seq<char>) -> Seq<char> {
    lowercase(replace_char_spec(name, '_', "-"@))
}

/// The package name of an ASCII crate name: `_` becomes `-`, then each
/// ASCII uppercase letter its lowercase letter.
pub open spec fn ascii_dashed(name: Seq<char>) -> Seq<char> {
    ascii_lower(replace_char_spec(name, '_', "-"@))
}

/// Replacing `_` by `-` keeps a string ASCII and leaves no `_`; a string
/// without `_` stays as it is.
proof fn lemma_replace_underscore(s: Seq<char>)
    ensures
        ascii_seq(s) ==> ascii_seq(replace_char_spec(s, '_', "-"@)),
        !replace_char_spec(s, '_', "-"@).contains('_'),
        !s.contains('_') ==> replace_char_spec(s, '_', "-"@) == s,
    decreases s.len(),
{
    reveal_strlit("-");
    if s.len() > 0 {
        let p = s.drop_last();
        lemma_replace_underscore(p);
        if ascii_seq(s) {
            assert forall|i: int| 0 <= i < p.len() implies (#[trigger] p[i] as u32) < 128 by {
                assert(p[i] == s[i]);
            }
        }
        if !s.contains('_') {
            assert forall|i: int| 0 <= i < p.len() implies #[trigger] p[i] != '_' by {
                assert(p[i] == s[i]);
            }
            assert(s.last() == s[s.len() - 1]);
            assert(s =~= p.push(s.last()));
        }
        let t = replace_char_spec(p, '_', "-"@);
        let tail = if s.last() == '_' { "-"@ } else { seq![s.last()] };
        assert(replace_char_spec(s, '_', "-"@) == t + tail);
        assert forall|c: char| #![auto] (t + tail).contains(c) implies t.contains(c) || tail.contains(c) by {
            let i = choose|i: int| 0 <= i < (t + tail).len() && (t + tail)[i] == c;
            if i < t.len() {
                assert(t[i] == c);
            } else {
                assert(tail[i - t.len()] == c);
            }
        }
        if ascii_seq(s) {
            assert(s[s.len() - 1] == s.last());
            assert forall|i: int| 0 <= i < (t + tail).len() implies (#[trigger] (t + tail)[i] as u32) < 128 by {
                if i >= t.len() {
                    assert(tail[i - t.len()] == (t + tail)[i]);
                }
            }
        }
    }
}

/// Lowering ASCII letters keeps a string ASCII, adds no `_`, leaves no
/// uppercase letter, and changes nothing in a string without one.
proof fn lemma_ascii_lower(s: Seq<char>)
    ensures
        ascii_seq(s) ==> ascii_seq(ascii_lower(s)),
        !s.contains('_') ==> !ascii_lower(s).contains('_'),
        forall|i: int| 0 <= i < s.len() ==> !is_ascii_upper(#[trigger] ascii_lower(s)[i]),
        (forall|i: int| 0 <= i < s.len() ==> !is_ascii_upper(#[trigger] s[i])) ==> ascii_lower(s) == s,
{
    let l = ascii_lower(s);
    assert forall|i: int| 0 <= i < s.len() implies !is_ascii_upper(#[trigger] l[i]) && (l[i] == '_' ==> s[i] == '_') && ((s[i] as u32) < 128 ==> (l[i] as u32) < 128) by {
        let c = s[i];
        if is_ascii_upper(c) {
            let u = c as u32;
            assert(65 <= u <= 90);
            assert((((u + 32) as char) as u32) == u + 32);
        }
    }
    if !s.contains('_') {
        assert forall|c: char| l.contains(c) implies c != '_' by {
            let i = choose|i: int| 0 <= i < l.len() && l[i] == c;
            assert(l[i] == '_' ==> s[i] == '_');
            assert(!(s[i] == '_'));
        }
    }
    if forall|i: int| 0 <= i < s.len() ==> !is_ascii_upper(#[trigger] s[i]) {
        assert(l =~= s);
    }
}

/// On an ASCII name the package name is ASCII, holds no `_` and no
/// uppercase letter, and is its own package name.
pub proof fn lemma_ascii_dashed(name: Seq<char>)
    requires
        ascii_seq(name),
    ensures
        ascii_seq(ascii_dashed(name)),
        !ascii_dashed(name).contains('_'),
        forall|i: int| 0 <= i < ascii_dashed(name).len() ==> !is_ascii_upper(#[trigger] ascii_dashed(name)[i]),
        ascii_dashed(ascii_dashed(name)) == ascii_dashed(name),
{
    let r = replace_char_spec(name, '_', "-"@);
    lemma_replace_underscore(name);
    lemma_ascii_lower(r);
    let d = ascii_lower(r);
    lemma_replace_underscore(d);
    lemma_ascii_lower(d);
}

/// The suffix of the package of one feature: `+<feature>-dev`.
pub open spec fn feature_suffix(f: Seq<char>) -> Seq<char> {
    "+"@ + dashed_spec(f) + "-dev"@
}

/// The package suffixes a dependency needs: `+default-dev` if it uses the
/// default features, `+<f>-dev` for each feature `f` it names, and `-dev`
/// where it needs neither.
pub open spec fn suffixes_spec(dep: Dependency) -> Seq<Seq<char>> {
    let s = (if dep.uses_default_features {
        seq!["+default-dev"@]
    } else {
        Seq::empty()
    }) + views(dep.features@).map_values(|f: Seq<char>| feature_suffix(f));
    if s.len() == 0 {
        seq!["-dev"@]
    } else {
        s
    }
}

/// The Debian dependencies for `dep` given the predicates of its version
/// requirement: one or-clause per suffix, all over the same range.
pub open spec fn deb_dep_spec(allow_prerelease_deps: bool, dep: Dependency, ps: Seq<PredicateView>) -> Result<Seq<Seq<char>>, DepError> {
    let base = "librust-"@ + dashed_spec(dep.package_name@);
    match constrain_all(VRange { ge: None, lt: None }, ps, allow_prerelease_deps) {
        Err(e) => Err(e),
        Ok(r) => if range_ok(r) {
            Ok(suffixes_spec(dep).map_values(|s: Seq<char>| or_clause_text(r, base, s)))
        } else {
            Err(DepError::BadRange)
        },
    }
}

/// The Debian dependencies for `dep`, through the parse of its version
/// requirement.
pub open spec fn deb_dep_full_spec(allow_prerelease_deps: bool, dep: Dependency) -> Result<Seq<Seq<char>>, DepError> {
    match parsed_predicates(dep.version_req@) {
        None => Err(DepError::UnparsableRequirement),
        Some(ps) => deb_dep_spec(allow_prerelease_deps, dep, ps),
    }
}

impl V {
    /// The version of a predicate; a patch without a minor part is an error.
    pub fn new(p: &Predicate) -> (r: Result<V, DepError>)
        ensures
            match pred_v(p.deep_view()) {
                Some(v) => r == Ok::<V, DepError>(v),
                None => r == Err::<V, DepError>(DepError::PatchWithoutMinor),
            },
    {
        match (p.minor, p.patch) {
            (None, None) => Ok(V::M(p.major)),
            (Some(minor), None) => Ok(V::MM(p.major, minor)),
            (Some(minor), Some(patch)) => Ok(V::MMP(p.major, minor, patch)),
            (None, Some(_)) => Err(DepError::PatchWithoutMinor),
        }
    }

    pub fn major(&self) -> (r: u64)
        ensures
            r == v_major(*self),
    {
        match *self {
            V::M(a) => a,
            V::MM(a, _) => a,
            V::MMP(a, _, _) => a,
        }
    }

    pub fn minor(&self) -> (r: u64)
        ensures
            r == v_minor(*self),
    {
        match *self {
            V::M(_) => 0,
            V::MM(_, b) => b,
            V::MMP(_, b, _) => b,
        }
    }

    /// The version with its last part increased by one; `None` on overflow.
    pub fn inclast(&self) -> (r: Option<V>)
        ensures
            r == inclast_spec(*self),
    {
        match *self {
            V::M(a) => if a < u64::MAX { Some(V::M(a + 1)) } else { None },
            V::MM(a, b) => if b < u64::MAX { Some(V::MM(a, b + 1)) } else { None },
            V::MMP(a, b, c) => if c < u64::MAX { Some(V::MMP(a, b, c + 1)) } else { None },
        }
    }

    /// The next patch version; `None` on overflow.
    pub fn incpatch(&self) -> (r: Option<V>)
        ensures
            r == incpatch_spec(*self),
    {
        match *self {
            V::M(a) => Some(V::MMP(a, 0, 1)),
            V::MM(a, b) => Some(V::MMP(a, b, 1)),
            V::MMP(a, b, c) => if c < u64::MAX { Some(V::MMP(a, b, c + 1)) } else { None },
        }
    }

    /// The (major, minor, patch) triple.
    pub fn mmp(&self) -> (r: (u64, u64, u64))
        ensures
            (r.0 as int, r.1 as int, r.2 as int) == mmp(*self),
    {
        match *self {
            V::M(a) => (a, 0, 0),
            V::MM(a, b) => (a, b, 0),
            V::MMP(a, b, c) => (a, b, c),
        }
    }

    /// Whether `self` sorts before `other`.
    pub fn lt(&self, other: &V) -> (r: bool)
        ensures
            r == v_lt(*self, *other),
    {
        let (a0, a1, a2) = self.mmp();
        let (b0, b1, b2) = other.mmp();
        a0 < b0 || (a0 == b0 && (a1 < b1 || (a1 == b1 && a2 < b2)))
    }

    /// Whether the two versions have equal triples.
    pub fn eq(&self, other: &V) -> (r: bool)
        ensures
            r == v_eq(*self, *other),
    {
        let (a0, a1, a2) = self.mmp();
        let (b0, b1, b2) = other.mmp();
        a0 == b0 && a1 == b1 && a2 == b2
    }

    /// The text of the version: `1`, `1.2` or `1.2.3`.
    pub fn to_string(&self) -> (r: String)
        ensures
            r@ == v_str(*self),
    {
        match *self {
            V::M(a) => u64_to_string(a),
            V::MM(a, b) => {
                let mut s = u64_to_string(a);
                push_str(&mut s, ".");
                push_str(&mut s, u64_to_string(b).as_str());
                s
            },
            V::MMP(a, b, c) => {
                let mut s = u64_to_string(a);
                push_str(&mut s, ".");
                push_str(&mut s, u64_to_string(b).as_str());
                push_str(&mut s, ".");
                push_str(&mut s, u64_to_string(c).as_str());
                s
            },
        }
    }
}

/// The version at `level` made of the parts of `ge` above it and `n`.
fn make_level_v(level: u8, ge: &V, n: u64) -> (r: V)
    ensures
        r == level_v(level as int, *ge, n),
{
    if level == 0 {
        V::M(n)
    } else if level == 1 {
        V::MM(ge.major(), n)
    } else {
        V::MMP(ge.major(), ge.minor(), n)
    }
}

/// `<base>-<ver><suffix>`.
fn make_alt_name(base: &str, ver: &V, suffix: &str) -> (r: String)
    ensures
        r@ == alt_name(base@, *ver, suffix@),
{
    let mut s = String::from_str(base);
    push_str(&mut s, "-");
    push_str(&mut s, ver.to_string().as_str());
    push_str(&mut s, suffix);
    s
}

/// `<text> (<op> <ver>-~~)`.
fn with_bound(text: String, op: &str, v: &V) -> (r: String)
    ensures
        r@ == text@ + op@ + bound(*v) + ")"@,
{
    let mut s = text;
    push_str(&mut s, op);
    push_str(&mut s, v.to_string().as_str());
    push_str(&mut s, "-~~");
    push_str(&mut s, ")");
    s
}

impl VRange {
    /// The unbounded range.
    pub fn new() -> (r: VRange)
        ensures
            r.ge is None,
            r.lt is None,
    {
        VRange { ge: None, lt: None }
    }

    /// Raises the lower bound to `ge`, unless it is already higher.
    pub fn constrain_ge(&mut self, ge: V)
        ensures
            *final(self) == constrain_ge_spec(*old(self), ge),
    {
        match self.ge {
            Some(g) if ge.lt(&g) => {},
            _ => self.ge = Some(ge),
        }
    }

    /// Lowers the upper bound to `lt`, unless it is already as low.
    pub fn constrain_lt(&mut self, lt: V)
        ensures
            *final(self) == constrain_lt_spec(*old(self), lt),
    {
        match self.lt {
            Some(l) if !lt.lt(&l) => {},
            _ => self.lt = Some(lt),
        }
    }

    /// Lowers the upper bound to `lt`, if there is one, then raises the lower
    /// bound to `ge`.
    fn constrain_both(&mut self, lt: Option<V>, ge: V) -> (r: Result<(), DepError>)
        ensures
            match constrain_both(*old(self), lt, ge) {
                Ok(r2) => r is Ok && *final(self) == r2,
                Err(e) => r == Err::<(), DepError>(e),
            },
    {
        match lt {
            None => Err(DepError::VersionTooLarge),
            Some(l) => {
                self.constrain_lt(l);
                self.constrain_ge(ge);
                Ok(())
            },
        }
    }

    /// The Debian or-clause over packages `<base>...<suffix>` that covers the
    /// range.
    pub fn to_deb_or_clause(&self, base: &str, suffix: &str) -> (r: Result<String, DepError>)
        ensures
            res_view(r) == or_clause_spec(*self, base@, suffix@),
    {
        match (self.ge, self.lt) {
            (None, None) => Ok(concat2(base, suffix)),
            (Some(ge), None) => Ok(with_bound(concat2(base, suffix), " (>= ", &ge)),
            (None, Some(lt)) => Ok(with_bound(concat2(base, suffix), " (<< ", &lt)),
            (Some(ge), Some(lt)) => {
                if !ge.lt(&lt) {
                    return Err(DepError::BadRange);
                }
                let (lt_maj, lt_min, lt_pat) = lt.mmp();
                let (ge_maj, ge_min, ge_pat) = ge.mmp();
                let (lvl, lo, hi): (u8, u64, u64) = if ge_maj != lt_maj {
                    (0, ge_maj, lt_maj)
                } else if ge_min != lt_min {
                    (1, ge_min, lt_min)
                } else {
                    (2, ge_pat, lt_pat)
                };
                assert(lvl as int == split_level(ge, lt));
                assert(lo == level_part(lvl as int, ge));
                assert(hi == level_part(lvl as int, lt));
                assert(lo < hi);
                let ghost alts = range_alternatives(base@, suffix@, ge, lt);
                let ghost top_len: int = if v_eq(lt, level_v(lvl as int, ge, hi)) { 0 } else { 1 };
                let mut parts: Vec<String> = Vec::new();
                let top = make_level_v(lvl, &ge, hi);
                if !lt.eq(&top) {
                    parts.push(with_bound(make_alt_name(base, &top, suffix), " (<< ", &lt));
                }
                assert(views(parts@) =~= alts.subrange(0, top_len));
                let mut k: u64 = hi - 1;
                while k > lo
                    invariant
                        lo <= k < hi,
                        lo == level_part(lvl as int, ge),
                        hi == level_part(lvl as int, lt),
                        lvl as int == split_level(ge, lt),
                        alts == range_alternatives(base@, suffix@, ge, lt),
                        top_len == (if v_eq(lt, level_v(lvl as int, ge, hi)) { 0int } else { 1int }),
                        alts.len() == top_len + (hi - lo - 1) + 1,
                        views(parts@) == alts.subrange(0, top_len + (hi - 1 - k)),
                    decreases k,
                {
                    let ghost prev = views(parts@);
                    parts.push(make_alt_name(base, &make_level_v(lvl, &ge, k), suffix));
                    assert(alts[top_len + (hi - 1 - k)] == alt_name(base@, level_v(lvl as int, ge, k), suffix@));
                    assert(views(parts@) =~= prev.push(alt_name(base@, level_v(lvl as int, ge, k), suffix@)));
                    assert(views(parts@) =~= alts.subrange(0, top_len + (hi - 1 - k) + 1));
                    k = k - 1;
                }
                let bottom = make_level_v(lvl, &ge, lo);
                let ghost prev = views(parts@);
                if ge.eq(&bottom) {
                    parts.push(make_alt_name(base, &bottom, suffix));
                } else {
                    parts.push(with_bound(make_alt_name(base, &bottom, suffix), " (>= ", &ge));
                }
                assert(views(parts@) =~= prev.push(parts@.last()@));
                assert(prev =~= alts.subrange(0, alts.len() - 1));
                assert(parts@.last()@ == alts.last());
                assert(views(parts@) =~= alts);
                Ok(join_strings(&parts, " | "))
            },
        }
    }
}

/// The operator a predicate is translated with; see `coerce_spec`.
pub fn coerce_unacceptable_predicate(p: &Predicate, allow_prerelease_deps: bool) -> (r: Result<Op, DepError>)
    ensures
        r == coerce_spec(p.deep_view(), allow_prerelease_deps),
{
    let mmp = V::new(p)?;
    if p.pre.len() != 0 && !allow_prerelease_deps {
        return Err(DepError::Prerelease);
    }
    match (p.op, mmp) {
        (Op::GtEq, V::M(0)) => Ok(Op::Gt),
        _ => Ok(p.op),
    }
}

/// Narrows `vr` by the predicate `p` read with operator `op`; see
/// `generate_spec`.
pub fn generate_version_constraints(vr: &mut VRange, p: &Predicate, op: Op) -> (r: Result<(), DepError>)
    ensures
        match generate_spec(*old(vr), p.deep_view(), op) {
            Ok(r2) => r is Ok && *final(vr) == r2,
            Err(e) => r == Err::<(), DepError>(e),
        },
{
    let mmp = V::new(p)?;
    match op {
        Op::Lt => {
            let (a, b, c) = mmp.mmp();
            if a == 0 && b == 0 && c == 0 {
                return Err(DepError::Unrepresentable);
            }
            vr.constrain_lt(mmp);
            Ok(())
        },
        Op::LtEq => match mmp.incpatch() {
            None => Err(DepError::VersionTooLarge),
            Some(w) => {
                vr.constrain_lt(w);
                Ok(())
            },
        },
        Op::Gt => match mmp.incpatch() {
            None => Err(DepError::VersionTooLarge),
            Some(w) => {
                vr.constrain_ge(w);
                Ok(())
            },
        },
        Op::GtEq => {
            vr.constrain_ge(mmp);
            Ok(())
        },
        Op::Ex => vr.constrain_both(mmp.incpatch(), mmp),
        Op::Tilde => match mmp {
            V::MMP(a, b, _) => vr.constrain_both(
                if b < u64::MAX { Some(V::MM(a, b + 1)) } else { None },
                mmp,
            ),
            _ => vr.constrain_both(mmp.inclast(), mmp),
        },
        Op::Compatible => match mmp {
            V::MMP(0, 0, _) => vr.constrain_both(mmp.inclast(), mmp),
            V::MMP(0, b, _) => vr.constrain_both(
                if b < u64::MAX { Some(V::MM(0, b + 1)) } else { None },
                mmp,
            ),
            V::MM(0, b) => vr.constrain_both(
                if b < u64::MAX { Some(V::MM(0, b + 1)) } else { None },
                mmp,
            ),
            _ => {
                let a = mmp.major();
                vr.constrain_both(if a < u64::MAX { Some(V::M(a + 1)) } else { None }, mmp)
            },
        },
        Op::Wildcard(WildcardVersion::Minor) => {
            let a = mmp.major();
            vr.constrain_both(if a < u64::MAX { Some(V::M(a + 1)) } else { None }, V::M(a))
        },
        Op::Wildcard(WildcardVersion::Patch) => {
            let a = mmp.major();
            let b = mmp.minor();
            vr.constrain_both(if b < u64::MAX { Some(V::MM(a, b + 1)) } else { None }, mmp)
        },
    }
}

/// `dashed_spec`: `_` becomes `-`, then lowercase.
pub fn dashed(name: &str) -> (r: String)
    ensures
        r@ == dashed_spec(name@),
        ascii_seq(name@) ==> r@ == ascii_dashed(name@),
{
    proof {
        lemma_replace_underscore(name@);
    }
    to_lowercase(replace_char(name, '_', "-").as_str())
}

/// The package suffixes a dependency needs; see `suffixes_spec`.
fn dep_suffixes(dep: &Dependency) -> (r: Vec<String>)
    ensures
        views(r@) == suffixes_spec(*dep),
{
    let mut suffixes: Vec<String> = Vec::new();
    if dep.uses_default_features {
        suffixes.push(String::from_str("+default-dev"));
    }
    let ghost head = views(suffixes@);
    let ghost fs = views(dep.features@);
    let mut j: usize = 0;
    while j < dep.features.len()
        invariant
            j <= dep.features@.len(),
            fs == views(dep.features@),
            head == (if dep.uses_default_features { seq!["+default-dev"@] } else { Seq::<Seq<char>>::empty() }),
            views(suffixes@) == head + fs.subrange(0, j as int).map_values(|f: Seq<char>| feature_suffix(f)),
        decreases dep.features.len() - j,
    {
        let ghost prev = views(suffixes@);
        suffixes.push(concat3("+", dashed(dep.features[j].as_str()).as_str(), "-dev"));
        assert(fs.subrange(0, j + 1) =~= fs.subrange(0, j as int).push(fs[j as int]));
        assert(views(suffixes@) =~= prev.push(feature_suffix(fs[j as int])));
        assert(fs.subrange(0, j + 1).map_values(|f: Seq<char>| feature_suffix(f)) =~= fs.subrange(0, j as int).map_values(|f: Seq<char>| feature_suffix(f)).push(feature_suffix(fs[j as int])));
        j = j + 1;
    }
    assert(fs.subrange(0, fs.len() as int) =~= fs);
    if suffixes.len() == 0 {
        suffixes.push(String::from_str("-dev"));
        assert(views(suffixes@) =~= seq!["-dev"@]);
    }
    suffixes
}

/// Translates a dependency into Debian dependencies, given the predicates of
/// its version requirement. The result is an and-clause: one or-clause for
/// each feature package the dependency needs.
pub fn deb_dep_from_predicates(allow_prerelease_deps: bool, dep: &Dependency, preds: &Vec<Predicate>) -> (r: Result<Vec<String>, DepError>)
    ensures
        res_vec_view(r) == deb_dep_spec(allow_prerelease_deps, *dep, preds.deep_view()),
{
    let ghost dv = preds.deep_view();
    let base = concat2("librust-", dashed(dep.package_name.as_str()).as_str());
    let suffixes = dep_suffixes(dep);
    let mut vr = VRange::new();
    let mut i: usize = 0;
    assert(dv.skip(0) =~= dv);
    while i < preds.len()
        invariant
            i <= preds@.len(),
            dv == preds.deep_view(),
            dv.len() == preds@.len(),
            constrain_all(VRange { ge: None, lt: None }, dv, allow_prerelease_deps)
                == constrain_all(vr, dv.skip(i as int), allow_prerelease_deps),
        decreases preds.len() - i,
    {
        assert(dv.skip(i as int)[0] == preds@[i as int].deep_view());
        assert(dv.skip(i as int).drop_first() =~= dv.skip(i + 1));
        let op = coerce_unacceptable_predicate(&preds[i], allow_prerelease_deps)?;
        generate_version_constraints(&mut vr, &preds[i], op)?;
        i = i + 1;
    }
    assert(dv.skip(i as int) =~= Seq::<PredicateView>::empty());
    assert(constrain_all(VRange { ge: None, lt: None }, dv, allow_prerelease_deps) == Ok::<VRange, DepError>(vr));
    let ghost sv = suffixes_spec(*dep);
    let mut deps: Vec<String> = Vec::new();
    let mut j: usize = 0;
    while j < suffixes.len()
        invariant
            j <= suffixes@.len(),
            views(suffixes@) == sv,
            constrain_all(VRange { ge: None, lt: None }, dv, allow_prerelease_deps) == Ok::<VRange, DepError>(vr),
            dv == preds.deep_view(),
            base@ == "librust-"@ + dashed_spec(dep.package_name@),
            views(deps@) == sv.subrange(0, j as int).map_values(|s: Seq<char>| or_clause_text(vr, base@, s)),
        decreases suffixes.len() - j,
    {
        match vr.to_deb_or_clause(base.as_str(), suffixes[j].as_str()) {
            Err(e) => {
                return Err(e);
            },
            Ok(s) => {
                let ghost prev = views(deps@);
                deps.push(s);
                assert(views(deps@) =~= prev.push(s@));
                assert(sv.subrange(0, j + 1).map_values(|s: Seq<char>| or_clause_text(vr, base@, s)) =~= sv.subrange(0, j as int).map_values(|s: Seq<char>| or_clause_text(vr, base@, s)).push(or_clause_text(vr, base@, sv[j as int])));
            },
        }
        j = j + 1;
    }
    assert(sv.subrange(0, sv.len() as int) =~= sv);
    if !range_ok_exec(&vr) {
        return Err(DepError::BadRange);
    }
    Ok(deps)
}

fn range_ok_exec(r: &VRange) -> (b: bool)
    ensures
        b == range_ok(*r),
{
    match (r.ge, r.lt) {
        (Some(ge), Some(lt)) => ge.lt(&lt),
        _ => true,
    }
}

/// Translates a Cargo dependency into Debian dependencies (an and-clause of
/// or-clauses), through the parse of its version requirement.
pub fn deb_dep(config: &Config, dep: &Dependency) -> (r: Result<Vec<String>, DepError>)
    ensures
        res_vec_view(r) == deb_dep_full_spec(config.allow_prerelease_deps, *dep),
{
    match parse_version_req(dep.version_req.as_str()) {
        None => Err(DepError::UnparsableRequirement),
        Some(preds) => deb_dep_from_predicates(config.allow_prerelease_deps, dep, &preds),
    }
}

/// The Debian dependencies of the first `deps.len()` dependencies, in order,
/// or the first error met.
pub open spec fn deb_deps_spec(allow_prerelease_deps: bool, deps: Seq<Dependency>) -> Result<Seq<Seq<char>>, DepError>
    decreases deps.len(),
{
    if deps.len() == 0 {
        Ok(Seq::empty())
    } else {
        match deb_deps_spec(allow_prerelease_deps, deps.drop_last()) {
            Err(e) => Err(e),
            Ok(prev) => match deb_dep_full_spec(allow_prerelease_deps, deps.last()) {
                Err(e) => Err(e),
                Ok(v) => Ok(prev + v),
            },
        }
    }
}

/// Translates a list of dependencies: the and-clause of all their
/// translations, sorted and without repeats.
pub fn deb_deps(config: &Config, cdeps: &[Dependency]) -> (r: Result<Vec<String>, DepError>)
    ensures
        match deb_deps_spec(config.allow_prerelease_deps, cdeps@) {
            Err(e) => r == Err::<Vec<String>, DepError>(e),
            Ok(all) => r matches Ok(v) && strictly_sorted(views(v@)) && views(v@).to_set() == all.to_set(),
        },
{
    let mut deps: Vec<String> = Vec::new();
    let mut i: usize = 0;
    assert(cdeps@.subrange(0, 0) =~= Seq::<Dependency>::empty());
    assert(views(deps@) =~= Seq::<Seq<char>>::empty());
    while i < cdeps.len()
        invariant
            i <= cdeps@.len(),
            deb_deps_spec(config.allow_prerelease_deps, cdeps@.subrange(0, i as int)) == Ok::<Seq<Seq<char>>, DepError>(views(deps@)),
        decreases cdeps.len() - i,
    {
        assert(cdeps@.subrange(0, i + 1).drop_last() =~= cdeps@.subrange(0, i as int));
        assert(cdeps@.subrange(0, i + 1).last() == cdeps@[i as int]);
        let d = deb_dep(config, &cdeps[i]);
        match d {
            Err(e) => {
                proof {
                    lemma_deb_deps_err_prefix(config.allow_prerelease_deps, cdeps@, i as int + 1, e);
                }
                return Err(e);
            },
            Ok(v) => {
                let ghost prev = views(deps@);
                let mut j: usize = 0;
                while j < v.len()
                    invariant
                        j <= v@.len(),
                        views(deps@) == prev + views(v@).subrange(0, j as int),
                    decreases v.len() - j,
                {
                    let ghost before = deps@;
                    deps.push(v[j].clone());
                    assert(deps@ =~= before.push(v@[j as int]));
                    assert(views(deps@) =~= views(before).push(v@[j as int]@));
                    assert(views(v@).subrange(0, j + 1) =~= views(v@).subrange(0, j as int).push(v@[j as int]@));
                    assert(views(deps@) =~= prev + views(v@).subrange(0, j + 1));
                    j = j + 1;
                }
                assert(views(v@).subrange(0, v@.len() as int) =~= views(v@));
            },
        }
        i = i + 1;
    }
    assert(cdeps@.subrange(0, cdeps@.len() as int) =~= cdeps@);
    Ok(sort_dedup(deps))
}

/// An error for a prefix of the dependencies is the error for all of them.
proof fn lemma_deb_deps_err_prefix(allow: bool, deps: Seq<Dependency>, n: int, e: DepError)
    requires
        0 <= n <= deps.len(),
        deb_deps_spec(allow, deps.subrange(0, n)) == Err::<Seq<Seq<char>>, DepError>(e),
    ensures
        deb_deps_spec(allow, deps) == Err::<Seq<Seq<char>>, DepError>(e),
    decreases deps.len() - n,
{
    if n < deps.len() {
        assert(deps.subrange(0, n + 1).drop_last() =~= deps.subrange(0, n));
        lemma_deb_deps_err_prefix(allow, deps, n + 1, e);
    } else {
        assert(deps.subrange(0, n) =~= deps);
    }
}

/// Each alternative of an or-clause, with trailing whitespace removed and
/// ` <!nocheck> ` appended.
pub open spec fn nocheck_alt(a: Seq<char>) -> Seq<char> {
    trim_end_spec(a) + " <!nocheck> "@
}

/// Marks every alternative of the or-clause `x` as not needed when the
/// package tests are not run.
pub fn deb_dep_add_nocheck(x: &str) -> (r: String)
    ensures
        r@ == trim_end_spec(join_spec(split_spec(x@, '|').map_values(|a: Seq<char>| nocheck_alt(a)), "|"@)),
{
    let pieces = split_char(x, '|');
    let mut alts: Vec<String> = Vec::new();
    let mut i: usize = 0;
    while i < pieces.len()
        invariant
            i <= pieces@.len(),
            views(alts@) == views(pieces@).subrange(0, i as int).map_values(|a: Seq<char>| nocheck_alt(a)),
        decreases pieces.len() - i,
    {
        let ghost prev = views(alts@);
        let mut a = trim_end(pieces[i].as_str());
        push_str(&mut a, " <!nocheck> ");
        alts.push(a);
        assert(views(alts@) =~= prev.push(nocheck_alt(pieces@[i as int]@)));
        assert(views(pieces@).subrange(0, i + 1).map_values(|a: Seq<char>| nocheck_alt(a)) =~= views(pieces@).subrange(0, i as int).map_values(|a: Seq<char>| nocheck_alt(a)).push(nocheck_alt(pieces@[i as int]@)));
        i = i + 1;
    }
    assert(views(pieces@).subrange(0, pieces@.len() as int) =~= views(pieces@));
    let joined = join_strings(&alts, "|");
    trim_end(joined.as_str())
}

} // verus!
