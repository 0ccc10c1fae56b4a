use reqspec::marker::{MarkerExpr, MarkerOp};
use reqspec::requirement::parse_specification;
use reqspec::specifier::{Comparison, VersionSpec};
use reqspec::version::LocalVersionPart;
use reqspec::version_parse::{parse_version, version_scheme};
use std::cmp::Ordering;

#[test]
fn test_prefix_wildcard_contains_original() {
    // The wildcard prefix of a version, used as an `==` constraint, always
    // contains that version (two or more release components).
    for text in ["1.2.3", "2!3.4", "1.0a1", "10.200.3000+local.7", "0.0"] {
        let (_, v) = version_scheme(text).unwrap();
        let prefix = v.prefix_str();
        let spec = VersionSpec(Comparison::Equal, prefix.clone());
        assert!(spec.contains(text), "{} not in =={}", text, prefix);
    }
    assert_eq!(
        version_scheme("1.2.3").unwrap().1.prefix_str(),
        "1.2.*".to_string()
    );
    assert_eq!(
        version_scheme("2!3.4").unwrap().1.prefix_str(),
        "2!3.*".to_string()
    );
    // A single release component leaves only `.*`, which no version matches.
    assert_eq!(version_scheme("2").unwrap().1.prefix_str(), ".*".to_string());
    assert!(!VersionSpec(Comparison::Equal, ".*".to_string()).contains("2"));
}

#[test]
fn test_canonical_roundtrip() {
    // Re-parsing the canonical text yields a version equal by ordering key.
    for text in [
        "3!1.1.2-Beta3+Ubuntu.3-release",
        "1.0.post456.dev34",
        "v1.2",
        "1!2.0.0.PRE7",
        "0.1",
        "1.0b2-346",
        "18446744073709551615",
    ] {
        let (_, v) = version_scheme(text).unwrap();
        let canon = v.canonicalize_str(false, true);
        let (rest, w) = version_scheme(canon.as_str()).unwrap();
        assert_eq!(rest, "".to_string(), "leftover after {}", canon);
        assert!(v == w, "{} re-parsed as {}", text, canon);
    }
    assert_eq!(
        version_scheme("3!1.1.2-Beta3+Ubuntu.3-release")
            .unwrap()
            .1
            .canonicalize_str(false, true),
        "3!1.1.2b3+ubuntu.3.release".to_string()
    );
}

#[test]
fn test_canonicalize_toggles() {
    let (_, v) = version_scheme("1.2.0+abc").unwrap();
    assert_eq!(v.canonicalize_str(true, false), "1.2".to_string());
    assert_eq!(v.canonicalize_str(false, false), "1.2.0".to_string());
    assert_eq!(v.canonicalize_str(false, true), "1.2.0+abc".to_string());
    assert_eq!(v.public_str(), "1.2.0".to_string());
    assert_eq!(v.full_str(), "1.2.0+abc".to_string());
    let (_, big) = version_scheme("18446744073709551615").unwrap();
    assert_eq!(big.public_str(), "18446744073709551615".to_string());
    // Stripping never leaves the release empty: all-zero releases keep one
    // component.
    let (_, zz) = version_scheme("0.0").unwrap();
    assert_eq!(zz.canonicalize_str(true, false), "0".to_string());
    let (_, z) = version_scheme("0").unwrap();
    assert_eq!(z.canonicalize_str(true, false), "0".to_string());
    let (_, zl) = version_scheme("0.0.0+x").unwrap();
    assert_eq!(zl.canonicalize_str(true, true), "0+x".to_string());
}

#[test]
fn test_dev_release_boundary() {
    // A dev release of 2.0 is not at or above 2; the release itself and its
    // post release are.
    assert!(!VersionSpec(Comparison::GreaterThanOrEqual, "2".to_string()).contains("2.0.dev1"));
    assert!(VersionSpec(Comparison::GreaterThanOrEqual, "2".to_string()).contains("2.0"));
    assert!(VersionSpec(Comparison::GreaterThanOrEqual, "2".to_string()).contains("2.0.post1"));
}

#[test]
fn test_wildcard_zero_padding() {
    assert!(VersionSpec(Comparison::Equal, "2.0.*".to_string()).contains("2"));
    assert!(!VersionSpec(Comparison::Equal, "2.0.*".to_string()).contains("2.1"));
}

#[test]
fn test_compatible_release() {
    assert!(VersionSpec(Comparison::CompatibleRelease, "1.0".to_string()).contains("1.1"));
    assert!(!VersionSpec(Comparison::CompatibleRelease, "1.0".to_string()).contains("2.0"));
}

#[test]
fn test_local_part_num_above_str() {
    // A numeric local part outranks every string part, whatever the values.
    assert_eq!(
        LocalVersionPart::Num(0).cmp(&LocalVersionPart::LowerStr("zzz".to_string())),
        Ordering::Greater
    );
    assert_eq!(
        LocalVersionPart::LowerStr("zzz".to_string()).cmp(&LocalVersionPart::Num(0)),
        Ordering::Less
    );
}

#[test]
fn test_arbitrary_equality() {
    // `===` compares the candidate's full canonical text, ignoring ASCII
    // case, against the literal constraint text.
    assert!(VersionSpec(Comparison::ArbitraryEqual, "1.0+ABC".to_string()).contains("1.0+abc"));
    assert!(!VersionSpec(Comparison::ArbitraryEqual, "1.0+abc".to_string()).contains("1.0"));
    assert!(!VersionSpec(Comparison::ArbitraryEqual, "1.0.0".to_string()).contains("1.0"));
}

#[test]
fn test_comparison_tokens() {
    assert_eq!(Comparison::try_from("<"), Ok(Comparison::LessThan));
    assert_eq!(Comparison::try_from("<="), Ok(Comparison::LessThanOrEqual));
    assert_eq!(Comparison::try_from("!="), Ok(Comparison::NotEqual));
    assert_eq!(Comparison::try_from("=="), Ok(Comparison::Equal));
    assert_eq!(Comparison::try_from(">="), Ok(Comparison::GreaterThanOrEqual));
    assert_eq!(Comparison::try_from(">"), Ok(Comparison::GreaterThan));
    assert_eq!(Comparison::try_from("~="), Ok(Comparison::CompatibleRelease));
    assert_eq!(Comparison::try_from("==="), Ok(Comparison::ArbitraryEqual));
    assert_eq!(Comparison::try_from("=>"), Err(()));
    assert_eq!(Comparison::try_from(""), Err(()));
}

#[test]
fn test_parse_version_errors() {
    assert!(parse_version("1.0").is_ok());
    assert!(parse_version("v1!2.3rc4.post5.dev6+seven.8").is_ok());
    let e = parse_version("abc").unwrap_err();
    assert_eq!(e.rest, "abc".to_string());
    let e = parse_version("1.0 ").unwrap_err();
    assert_eq!(e.rest, " ".to_string());
    // A number group too large for the numeric type is a parse failure.
    assert!(parse_version("18446744073709551616").is_err());
}

#[test]
fn test_parse_specification_end_to_end() {
    let req = parse_specification("name[fred,bar] @ http://foo.com ; python_version=='2.7'")
        .unwrap();
    assert_eq!(req.name, "name".to_string());
    assert_eq!(req.extras, vec!["fred".to_string(), "bar".to_string()]);
    assert_eq!(req.urlspec, Some("http://foo.com".to_string()));
    assert!(req.version_specs.is_empty());
    assert_eq!(
        req.marker_expr,
        Some(MarkerExpr::Basic(
            "python_version".to_string(),
            MarkerOp::Comparison(Comparison::Equal),
            "2.7".to_string()
        ))
    );
}

#[test]
fn test_parse_specification_errors() {
    assert!(parse_specification("[foo]").is_err());
    assert!(parse_specification("").is_err());
    // A constraint that does not parse leaves a remainder, which full
    // parsing refuses.
    let e = parse_specification("name==").unwrap_err();
    assert_eq!(e.rest, "==".to_string());
}

#[test]
fn test_marker_membership_operators() {
    let req = parse_specification("name; os_name not in 'a b'").unwrap();
    assert_eq!(
        req.marker_expr,
        Some(MarkerExpr::Basic(
            "os_name".to_string(),
            MarkerOp::NotIn,
            "a b".to_string()
        ))
    );
    let req = parse_specification("name; 'x' in sys_platform").unwrap();
    assert_eq!(
        req.marker_expr,
        Some(MarkerExpr::Basic(
            "x".to_string(),
            MarkerOp::In,
            "sys_platform".to_string()
        ))
    );
}

#[test]
fn test_empty_extras_and_parenthesized_constraints() {
    let req = parse_specification("name[]").unwrap();
    assert_eq!(req.name, "name".to_string());
    assert!(req.extras.is_empty());
    let req = parse_specification("name(>=1.0,<2.0)").unwrap();
    assert_eq!(req.version_specs.len(), 2);
    assert_eq!(
        req.version_specs[0],
        (Comparison::GreaterThanOrEqual, "1.0".to_string()).into()
    );
    assert_eq!(
        req.version_specs[1],
        (Comparison::LessThan, "2.0".to_string()).into()
    );
}

#[test]
fn test_requirement_contains() {
    let req = parse_specification("name>=1.0,<2.0").unwrap();
    assert!(req.contains("1.5"));
    assert!(!req.contains("2.1"));
    assert!(!req.contains("not a version"));
    let unconstrained = parse_specification("name").unwrap();
    assert!(unconstrained.contains("0.0.1"));
    assert!(unconstrained.contains("anything at all"));
}

#[test]
fn test_url_with_address_literal() {
    let req = parse_specification("name @ http://[::1]/pkg?q=1#frag ; extra=='x'").unwrap();
    assert_eq!(req.urlspec, Some("http://[::1]/pkg?q=1#frag".to_string()));
    assert_eq!(
        req.marker_expr,
        Some(MarkerExpr::Basic(
            "extra".to_string(),
            MarkerOp::Comparison(Comparison::Equal),
            "x".to_string()
        ))
    );
    let req = parse_specification("name@https://user@host.example:80/a/b").unwrap();
    assert_eq!(
        req.urlspec,
        Some("https://user@host.example:80/a/b".to_string())
    );
}

#[test]
fn test_arbitrary_operator_parses() {
    // A written `===` is the arbitrary-equality operator, not `==` with a
    // leftover `=`: the longer token is tried first.
    let req = parse_specification("name===1.0").unwrap();
    assert_eq!(req.version_specs.len(), 1);
    assert_eq!(
        req.version_specs[0],
        (Comparison::ArbitraryEqual, "1.0".to_string()).into()
    );
    assert!(req.contains("1.0"));
    assert!(!req.contains("1.0.0"));
    let (rest, vs) = reqspec::requirement::version_one("=== 1.0b1 ", 0).unwrap();
    assert_eq!(rest, 10);
    assert_eq!(vs, (Comparison::ArbitraryEqual, "1.0b1".to_string()).into());
}
