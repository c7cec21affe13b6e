use debcargo::dependency::{
    coerce_unacceptable_predicate, dashed, deb_dep_from_predicates, generate_version_constraints, DepError,
    DepKind, Dependency, Op, Predicate, WildcardVersion, VRange, V,
};

fn pred(op: Op, major: u64, minor: Option<u64>, patch: Option<u64>) -> Predicate {
    Predicate { op, major, minor, patch, pre: vec![] }
}

fn bounds(r: &VRange) -> (Option<String>, Option<String>) {
    (r.ge.map(|v| v.to_string()), r.lt.map(|v| v.to_string()))
}

fn s(x: &str) -> Option<String> {
    Some(x.to_string())
}

#[test]
fn versions() {
    assert_eq!(V::MMP(1, 2, 3).to_string(), "1.2.3");
    assert_eq!(V::MM(1, 2).to_string(), "1.2");
    assert_eq!(V::M(7).major(), 7);
    assert_eq!(V::M(7).minor(), 0);
    assert_eq!(V::MM(1, 2).inclast().unwrap().to_string(), "1.3");
    assert_eq!(V::M(1).incpatch().unwrap().to_string(), "1.0.1");
    assert!(V::M(u64::MAX).inclast().is_none());
    assert_eq!(V::MM(1, 2).mmp(), (1, 2, 0));
    assert!(V::M(1).lt(&V::MM(1, 1)));
    assert!(V::MM(1, 0).eq(&V::M(1)));
    assert!(matches!(V::new(&pred(Op::Ex, 1, None, Some(2))), Err(DepError::PatchWithoutMinor)));
    assert_eq!(V::new(&pred(Op::Ex, 1, Some(2), None)).ok().unwrap().to_string(), "1.2");
}

#[test]
fn narrowing_ranges() {
    let mut r = VRange::new();
    r.constrain_ge(V::MM(1, 2));
    r.constrain_ge(V::M(1));
    r.constrain_lt(V::M(3));
    r.constrain_lt(V::MM(2, 5));
    r.constrain_lt(V::M(4));
    assert_eq!(bounds(&r), (s("1.2"), s("2.5")));
}

#[test]
fn debian_alternatives_for_a_range() {
    let r = VRange { ge: Some(V::MMP(1, 2, 3)), lt: Some(V::M(2)) };
    assert_eq!(r.to_deb_or_clause("librust-foo", "-dev").ok().unwrap(), "librust-foo-1-dev (>= 1.2.3-~~)");
    let r = VRange { ge: Some(V::MM(0, 3)), lt: Some(V::MM(0, 5)) };
    assert_eq!(r.to_deb_or_clause("librust-foo", "-dev").ok().unwrap(), "librust-foo-0.4-dev | librust-foo-0.3-dev");
    let r = VRange { ge: Some(V::MM(1, 2)), lt: None };
    assert_eq!(r.to_deb_or_clause("librust-foo", "+std-dev").ok().unwrap(), "librust-foo+std-dev (>= 1.2-~~)");
    let r = VRange { ge: None, lt: Some(V::M(2)) };
    assert_eq!(r.to_deb_or_clause("librust-foo", "-dev").ok().unwrap(), "librust-foo-dev (<< 2-~~)");
    assert_eq!(VRange::new().to_deb_or_clause("librust-foo", "-dev").ok().unwrap(), "librust-foo-dev");
    let bad = VRange { ge: Some(V::M(2)), lt: Some(V::M(2)) };
    assert!(matches!(bad.to_deb_or_clause("librust-foo", "-dev"), Err(DepError::BadRange)));
}

#[test]
fn predicates_as_ranges() {
    let cases = [
        (pred(Op::Compatible, 1, Some(2), Some(3)), (s("1.2.3"), s("2"))),
        (pred(Op::Compatible, 0, Some(2), Some(3)), (s("0.2.3"), s("0.3"))),
        (pred(Op::Compatible, 0, Some(0), Some(3)), (s("0.0.3"), s("0.0.4"))),
        (pred(Op::Tilde, 1, Some(2), Some(3)), (s("1.2.3"), s("1.3"))),
        (pred(Op::Tilde, 1, None, None), (s("1"), s("2"))),
        (pred(Op::Ex, 1, Some(2), Some(3)), (s("1.2.3"), s("1.2.4"))),
        (pred(Op::Gt, 1, Some(2), None), (s("1.2.1"), None)),
        (pred(Op::GtEq, 1, None, None), (s("1"), None)),
        (pred(Op::Lt, 2, None, None), (None, s("2"))),
        (pred(Op::LtEq, 2, Some(1), None), (None, s("2.1.1"))),
        (pred(Op::Wildcard(WildcardVersion::Minor), 1, None, None), (s("1"), s("2"))),
        (pred(Op::Wildcard(WildcardVersion::Patch), 1, Some(4), None), (s("1.4"), s("1.5"))),
    ];
    for (p, expected) in cases.iter() {
        let mut r = VRange::new();
        generate_version_constraints(&mut r, p, p.op).ok().unwrap();
        assert_eq!(&bounds(&r), expected);
    }
    let mut r = VRange::new();
    assert!(matches!(
        generate_version_constraints(&mut r, &pred(Op::Lt, 0, None, None), Op::Lt),
        Err(DepError::Unrepresentable)
    ));
}

#[test]
fn unacceptable_predicates() {
    assert!(matches!(coerce_unacceptable_predicate(&pred(Op::GtEq, 0, None, None), false), Ok(Op::Gt)));
    assert!(matches!(coerce_unacceptable_predicate(&pred(Op::GtEq, 1, None, None), false), Ok(Op::GtEq)));
    let mut p = pred(Op::Ex, 1, Some(0), Some(0));
    p.pre = vec!["beta".to_string()];
    assert!(matches!(coerce_unacceptable_predicate(&p, false), Err(DepError::Prerelease)));
    assert!(matches!(coerce_unacceptable_predicate(&p, true), Ok(Op::Ex)));
}

#[test]
fn names_and_clauses_from_predicates() {
    assert_eq!(dashed("Foo_Bar"), "foo-bar");
    let d = Dependency {
        package_name: "rand_core".to_string(),
        name_in_toml: "rand_core".to_string(),
        version_req: "^0.6".to_string(),
        uses_default_features: false,
        features: vec!["std".to_string()],
        kind: DepKind::Normal,
        optional: false,
    };
    let r = deb_dep_from_predicates(false, &d, &vec![pred(Op::Compatible, 0, Some(6), None)]).ok().unwrap();
    assert_eq!(r, vec!["librust-rand-core-0.6+std-dev".to_string()]);
}

#[test]
fn dependency_error_messages() {
    assert_eq!(DepError::BadRange.message(), "bad version range");
    assert_eq!(DepError::PatchWithoutMinor.message(), "semver had patch without minor");
    assert_eq!(DepError::VersionTooLarge.message(), "dependency version does not fit in 64 bits");
}
