use rpm_version::{compare_evr_values, compare_versions, evr_compare, parse_epoch, parse_values, ReqOperator};

#[test]
fn readme_evr_compare() {
    assert_eq!(evr_compare("1.2.3-4", "1.2.3-5"), -1);
    assert_eq!(evr_compare("2:1.0-1", "1:9.9-1"), 1);
    assert_eq!(evr_compare("1:2.3.4-5", "1:2.3.4-6"), -1);
}

#[test]
fn tilde_and_caret_ordering() {
    assert_eq!(evr_compare("1.0~rc1-1", "1.0-1"), -1);
    assert_eq!(evr_compare("1.0-1", "1.0^git1-1"), -1);
    assert_eq!(evr_compare("1.0^git1-1", "1.1-1"), -1);
    assert_eq!(compare_versions("1.0~rc1", "1.0~rc2"), -1);
    assert_eq!(compare_versions("1.0^", "1.0"), 1);
    assert_eq!(compare_versions("1.0^a", "1.0a"), -1);
}

#[test]
fn evr_sort_example() {
    let mut v = vec!["2.0-1", "1.0-1", "1:0.5-1", "3.0-1"];
    v.sort_by(|a, b| evr_compare(a, b).cmp(&0));
    assert_eq!(v, vec!["1.0-1", "2.0-1", "3.0-1", "1:0.5-1"]);
}

#[test]
fn version_segment_rules() {
    assert_eq!(compare_versions("1.0", "1.0"), 0);
    assert_eq!(compare_versions("1.0", "1_0"), 0);
    assert_eq!(compare_versions("1.01", "1.1"), 0);
    assert_eq!(compare_versions("1.a", "1.1"), -1);
    assert_eq!(compare_versions("1.1", "1.a"), 1);
    assert_eq!(compare_versions("1.0", "1.0.1"), -1);
    assert_eq!(compare_versions("1.0a", "1.0"), 1);
    assert_eq!(compare_versions("10", "9"), 1);
    assert_eq!(compare_versions("abc", "abd"), -1);
    assert_eq!(compare_versions("ab", "abc"), -1);
    assert_eq!(compare_versions("", ""), 0);
    assert_eq!(compare_versions("", "1"), -1);
    assert_eq!(compare_versions("~", ""), -1);
    let long_a: String = std::iter::repeat('9').take(300).collect();
    let long_b: String = std::iter::repeat('9').take(299).collect();
    assert_eq!(compare_versions(&long_a, &long_b), 1);
}

#[test]
fn compare_evr_values_epoch_first() {
    assert_eq!(compare_evr_values("1", "0.1", "1", "", "9.9", "9"), 1);
    assert_eq!(compare_evr_values("", "1.0", "1", "0", "1.0", "1"), 0);
    assert_eq!(compare_evr_values("x", "1.0", "2", "0", "1.0", "1"), 1);
}

#[test]
fn parse_values_splits() {
    assert_eq!(parse_values("1:2.3.4-5"), ("1", "2.3.4", "5"));
    assert_eq!(parse_values("2.3.4-5"), ("", "2.3.4", "5"));
    assert_eq!(parse_values("2.3.4"), ("", "2.3.4", ""));
    assert_eq!(parse_values("1:2-3-4"), ("1", "2-3", "4"));
    assert_eq!(parse_values(""), ("", "", ""));
    assert_eq!(parse_values("\u{e9}:\u{e8}-\u{ea}"), ("\u{e9}", "\u{e8}", "\u{ea}"));
}

#[test]
fn parse_epoch_like_u32_from_str() {
    assert_eq!(parse_epoch("0"), Some(0));
    assert_eq!(parse_epoch("+12"), Some(12));
    assert_eq!(parse_epoch("4294967295"), Some(u32::MAX));
    assert_eq!(parse_epoch("4294967296"), None);
    assert_eq!(parse_epoch(""), None);
    assert_eq!(parse_epoch("+"), None);
    assert_eq!(parse_epoch("-1"), None);
    assert_eq!(parse_epoch("1a"), None);
    for s in ["0", "+7", "007", "99999999999", " 1", "1 ", "abc", "+", ""] {
        assert_eq!(parse_epoch(s), s.parse::<u32>().ok(), "{s:?}");
    }
}

#[test]
fn operator_names() {
    assert_eq!(ReqOperator::from_name("<"), Some(ReqOperator::LT));
    assert_eq!(ReqOperator::from_name("LT"), Some(ReqOperator::LT));
    assert_eq!(ReqOperator::from_name("<="), Some(ReqOperator::LE));
    assert_eq!(ReqOperator::from_name("LE"), Some(ReqOperator::LE));
    assert_eq!(ReqOperator::from_name("="), Some(ReqOperator::EQ));
    assert_eq!(ReqOperator::from_name("=="), Some(ReqOperator::EQ));
    assert_eq!(ReqOperator::from_name("EQ"), Some(ReqOperator::EQ));
    assert_eq!(ReqOperator::from_name(">="), Some(ReqOperator::GE));
    assert_eq!(ReqOperator::from_name("GE"), Some(ReqOperator::GE));
    assert_eq!(ReqOperator::from_name(">"), Some(ReqOperator::GT));
    assert_eq!(ReqOperator::from_name("GT"), Some(ReqOperator::GT));
    assert_eq!(ReqOperator::from_name("=>"), None);
    assert_eq!(ReqOperator::from_name("lt"), None);
    assert_eq!(ReqOperator::from_name(""), None);
}
