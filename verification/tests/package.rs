use rpm_version::{
    nevra_compare, parse_nevra_values, version_sortkey, Evr, EvrSortKey, Nevra, ReqOperator,
    Requirement,
};

#[test]
fn nevra_parse_readme() {
    let nevra = Nevra::parse("foo-1:2.3.4-5.x86_64");
    assert_eq!(nevra.name(), "foo");
    assert_eq!(nevra.epoch(), "1");
    assert_eq!(nevra.version(), "2.3.4");
    assert_eq!(nevra.release(), "5");
    assert_eq!(nevra.arch(), "x86_64");
}

#[test]
fn parse_nevra_values_cases() {
    assert_eq!(
        parse_nevra_values("bash-1:5.2.26-3.fc40.x86_64"),
        ("bash", "1", "5.2.26", "3.fc40", "x86_64")
    );
    assert_eq!(
        parse_nevra_values("python3-foo-bar-2.0-1.noarch"),
        ("python3-foo-bar", "", "2.0", "1", "noarch")
    );
    assert_eq!(parse_nevra_values("foo"), ("foo", "", "", "", ""));
    assert_eq!(parse_nevra_values(""), ("", "", "", "", ""));
}

#[test]
fn nevra_compare_sorts_readme() {
    let mut v = vec!["foo-2.0-1.x86_64", "bar-1.0-1.x86_64", "foo-1.0-1.x86_64"];
    v.sort_by(|a, b| nevra_compare(a, b).cmp(&0));
    assert_eq!(v, vec!["bar-1.0-1.x86_64", "foo-1.0-1.x86_64", "foo-2.0-1.x86_64"]);
}

#[test]
fn nevra_compare_orders_arch_last() {
    assert_eq!(nevra_compare("foo-1.0-1.i686", "foo-1.0-1.x86_64"), -1);
    assert_eq!(nevra_compare("foo-1.0-1.x86_64", "foo-0:1.0-1.x86_64"), 0);
    assert_eq!(nevra_compare("foo-1:1.0-1.i686", "foo-2.0-1.x86_64"), 1);
}

#[test]
fn nevra_texts() {
    let n = Nevra::parse("foo-1.2.3-4.x86_64");
    assert_eq!(n.to_string(), "foo-1.2.3-4.x86_64");
    assert_eq!(n.as_normalized_form(), "foo-0:1.2.3-4.x86_64");
    assert_eq!(n.nvra(), "foo-1.2.3-4.x86_64");
    let m = Nevra::new("bar", "2", "1.0", "3", "noarch");
    assert_eq!(m.to_string(), "bar-2:1.0-3.noarch");
    assert_eq!(m.nvra(), "bar-1.0-3.noarch");
    assert_eq!(m.evr().as_normalized_form(), "2:1.0-3");
}

#[test]
fn evr_parse_and_order() {
    let v1 = Evr::parse("1:2.3.4-5");
    let v2 = Evr::parse("1:2.3.4-6");
    assert_eq!(v1.compare(&v2), -1);
    assert_eq!(v1.epoch(), "1");
    assert_eq!(v1.version(), "2.3.4");
    assert_eq!(v1.release(), "5");
    assert_eq!(Evr::parse("1.0~rc1-1").compare(&Evr::parse("1.0-1")), -1);
    assert_eq!(Evr::parse("1.0-1").compare(&Evr::parse("1.0^git1-1")), -1);
    assert_eq!(Evr::parse("1.0^git1-1").compare(&Evr::parse("1.1-1")), -1);
}

#[test]
fn evr_epoch_empty_equals_zero() {
    let a = Evr::new("", "1.0", "1");
    let b = Evr::new("0", "1.0", "1");
    assert_eq!(a.compare(&b), 0);
    assert_eq!(a.sort_key(), b.sort_key());
}

#[test]
fn evr_texts() {
    assert_eq!(Evr::parse("1.2.3-4").as_normalized_form(), "0:1.2.3-4");
    assert_eq!(Evr::parse("5:1.2.3-4").as_normalized_form(), "5:1.2.3-4");
    assert_eq!(Evr::parse("1.2.3-4").to_string(), "1.2.3-4");
    assert_eq!(Evr::parse("5:1.2.3").to_string(), "5:1.2.3");
    assert_eq!(Evr::parse("1.2.3").as_normalized_form(), "0:1.2.3");
}

#[test]
fn evr_sort_key_matches_parse() {
    assert_eq!(Evr::parse("2:1.0~rc1-3.fc40").sort_key(), EvrSortKey::parse("2:1.0~rc1-3.fc40"));
}

#[test]
fn requirement_readme() {
    let req = Requirement::with_constraint("foo", ReqOperator::GE, Evr::parse("2.0-1"));
    assert!(req.satisfies("foo", &Evr::parse("2.0-1")));
    assert!(req.satisfies("foo", &Evr::parse("3.0-1")));
    assert!(!req.satisfies("foo", &Evr::parse("1.0-1")));
    assert!(!req.satisfies("bar", &Evr::parse("3.0-1")));
}

#[test]
fn requirement_operators() {
    let evr = Evr::parse("2.0-1");
    let cases = [
        (ReqOperator::LT, [true, false, false]),
        (ReqOperator::LE, [true, true, false]),
        (ReqOperator::EQ, [false, true, false]),
        (ReqOperator::GE, [false, true, true]),
        (ReqOperator::GT, [false, false, true]),
    ];
    for (op, expected) in cases {
        let req = Requirement::with_constraint("foo", op, evr.clone());
        let got = [
            req.satisfies("foo", &Evr::parse("1.0-1")),
            req.satisfies("foo", &Evr::parse("2.0-1")),
            req.satisfies("foo", &Evr::parse("3.0-1")),
        ];
        assert_eq!(got, expected);
    }
}

#[test]
fn requirement_without_constraint() {
    let req = Requirement::new("foo");
    assert_eq!(req.name(), "foo");
    assert!(req.constraint().is_none());
    assert!(req.satisfies("foo", &Evr::parse("0.1-1")));
    assert!(!req.satisfies("fo", &Evr::parse("0.1-1")));
}

#[test]
fn requirement_from_parts() {
    assert!(Requirement::from_parts("foo", None, None).is_some());
    assert!(Requirement::from_parts("foo", Some(ReqOperator::GE), None).is_none());
    assert!(Requirement::from_parts("foo", None, Some(Evr::parse("1.0"))).is_none());
    let req = Requirement::from_parts("foo", Some(ReqOperator::LT), Some(Evr::parse("1.0-1"))).unwrap();
    let (op, evr) = req.constraint().unwrap();
    assert_eq!(op, ReqOperator::LT);
    assert_eq!(evr.version(), "1.0");
    assert_eq!(op.symbol(), "<");
    assert!(op.holds_for(-1));
    assert!(!op.holds_for(0));
}

#[test]
fn law_leading_zero_examples() {
    assert_eq!(version_sortkey("1.01"), version_sortkey("1.1"));
    assert_eq!(version_sortkey("1.00"), version_sortkey("1.0"));
    assert_eq!(version_sortkey("a007"), version_sortkey("a7"));
}

#[test]
fn law_separator_examples() {
    assert_eq!(version_sortkey("1.2"), version_sortkey("1_2"));
    assert_eq!(version_sortkey("1.2"), version_sortkey("1+-+2"));
    assert_eq!(version_sortkey("1\u{e9}2"), version_sortkey("1-2"));
    assert_eq!(version_sortkey("..1.2"), version_sortkey("1.2"));
    assert_eq!(version_sortkey("1.2.."), version_sortkey("1.2"));
}

#[test]
fn law_dot_join_example() {
    let a = version_sortkey("1.0a");
    let b = version_sortkey("2~x");
    let mut expected = a[..a.len() - 1].to_vec();
    expected.extend_from_slice(&b);
    assert_eq!(version_sortkey("1.0a.2~x"), expected);
}

#[test]
fn law_tilde_caret_examples() {
    for a in ["", "1.0", "2a"] {
        for b in ["", "rc1", "^x"] {
            assert!(version_sortkey(&format!("{a}~{b}")) < version_sortkey(a));
            assert!(version_sortkey(a) < version_sortkey(&format!("{a}^{b}")));
        }
    }
}

#[test]
fn law_version_key_decides_example() {
    let k1 = EvrSortKey::from_values("3", "1.0", "999");
    let k2 = EvrSortKey::from_values("3", "1.1", "0");
    assert!(version_sortkey("1.0") < version_sortkey("1.1"));
    assert!(k1 < k2);
}

#[test]
fn evr_sort_readme() {
    let input: Vec<String> = ["2.0-1", "1.0-1", "1:0.5-1", "3.0-1"].iter().map(|s| s.to_string()).collect();
    assert_eq!(rpm_version::evr_sort(input), vec!["1.0-1", "2.0-1", "3.0-1", "1:0.5-1"]);
}

#[test]
fn nevra_sort_readme() {
    let input: Vec<String> = ["foo-2.0-1.x86_64", "bar-1.0-1.x86_64", "foo-1.0-1.x86_64"]
        .iter()
        .map(|s| s.to_string())
        .collect();
    assert_eq!(
        rpm_version::nevra_sort(input),
        vec!["bar-1.0-1.x86_64", "foo-1.0-1.x86_64", "foo-2.0-1.x86_64"]
    );
}

#[test]
fn sorts_keep_every_item() {
    let input: Vec<String> = ["1.0", "1.0", "0.9", "1.0~rc1", "1_0", ""].iter().map(|s| s.to_string()).collect();
    let out = rpm_version::evr_sort(input.clone());
    let mut a = out.clone();
    let mut b = input.clone();
    a.sort();
    b.sort();
    assert_eq!(a, b);
    for w in out.windows(2) {
        assert!(rpm_version::evr_compare(&w[0], &w[1]) <= 0);
    }
    assert_eq!(rpm_version::evr_sort(Vec::new()), Vec::<String>::new());
}

#[test]
fn requirement_without_release_ignores_package_release() {
    let req = Requirement::with_constraint("foo", ReqOperator::EQ, Evr::parse("2.0"));
    assert!(req.satisfies("foo", &Evr::parse("2.0-1")));
    assert!(req.satisfies("foo", &Evr::parse("2.0-7")));
    assert!(!req.satisfies("foo", &Evr::parse("2.1-1")));
    let lt = Requirement::with_constraint("foo", ReqOperator::LT, Evr::parse("2.0"));
    assert!(!lt.satisfies("foo", &Evr::parse("2.0-1")));
    let with_rel = Requirement::with_constraint("foo", ReqOperator::EQ, Evr::parse("2.0-1"));
    assert!(!with_rel.satisfies("foo", &Evr::parse("2.0-2")));
}

#[test]
fn requirement_text_and_equivalence() {
    let a = Requirement::with_constraint("foo", ReqOperator::GE, Evr::parse("2.0-1"));
    assert_eq!(a.to_string(), "foo >= 2.0-1");
    assert_eq!(Requirement::new("bar").to_string(), "bar");
    let b = Requirement::with_constraint("foo", ReqOperator::GE, Evr::parse("0:2.0-1"));
    assert!(a.equivalent(&b));
    let c = Requirement::with_constraint("foo", ReqOperator::GT, Evr::parse("2.0-1"));
    assert!(!a.equivalent(&c));
    assert!(!a.equivalent(&Requirement::new("foo")));
    assert!(Requirement::new("foo").equivalent(&Requirement::new("foo")));
}

#[test]
fn evr_setters() {
    let mut e = Evr::parse("1:2.0-3");
    e.set_epoch("4");
    e.set_version("5.0");
    e.set_release("6");
    assert_eq!(e.to_string(), "4:5.0-6");
}
