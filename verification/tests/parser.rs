use reqspec::marker::{MarkerExpr, MarkerOp};
use reqspec::requirement::{specification, RequirementSpecifier};
use reqspec::specifier::Comparison;
use reqspec::version::{LocalVersionPart, Version};
use reqspec::version_parse::version_scheme;

#[test]
fn test_requirement_specifier() {
    assert_eq!(
        specification("A"),
        Ok((
            "".to_string(),
            RequirementSpecifier {
                name: "A".to_string(),
                ..Default::default()
            }
        ))
    );
    assert_eq!(
        specification("A.B-C_D"),
        Ok((
            "".to_string(),
            RequirementSpecifier {
                name: "A.B-C_D".to_string(),
                ..Default::default()
            }
        ))
    );
    assert_eq!(
        specification("aa"),
        Ok((
            "".to_string(),
            RequirementSpecifier {
                name: "aa".to_string(),
                ..Default::default()
            }
        ))
    );
    assert_eq!(
        specification("name"),
        Ok((
            "".to_string(),
            RequirementSpecifier {
                name: "name".to_string(),
                ..Default::default()
            }
        ))
    );
    assert_eq!(
        specification("name<=1"),
        Ok((
            "".to_string(),
            RequirementSpecifier {
                name: "name".to_string(),
                version_specs: vec![(Comparison::LessThanOrEqual, "1".to_string()).into()],
                ..Default::default()
            }
        ))
    );
    assert_eq!(
        specification("name>=3"),
        Ok((
            "".to_string(),
            RequirementSpecifier {
                name: "name".to_string(),
                version_specs: vec![(Comparison::GreaterThanOrEqual, "3".to_string()).into()],
                ..Default::default()
            }
        ))
    );
    assert_eq!(
        specification("name>=3,<2"),
        Ok((
            "".to_string(),
            RequirementSpecifier {
                name: "name".to_string(),
                version_specs: vec![
                    (Comparison::GreaterThanOrEqual, "3".to_string()).into(),
                    (Comparison::LessThan, "2".to_string()).into()
                ],
                ..Default::default()
            }
        ))
    );
    assert_eq!(
        specification("name@http://foo.com"),
        Ok((
            "".to_string(),
            RequirementSpecifier {
                name: "name".to_string(),
                urlspec: Some("http://foo.com".to_string()),
                ..Default::default()
            }
        ))
    );
    assert_eq!(
        specification("name [fred,bar] @ http://foo.com ; python_version=='2.7'"),
        Ok((
            "".to_string(),
            RequirementSpecifier {
                name: "name".to_string(),
                extras: vec!["fred".to_string(), "bar".to_string()],
                urlspec: Some("http://foo.com".to_string()),
                marker_expr: Some(MarkerExpr::Basic(
                    "python_version".to_string(),
                    MarkerOp::Comparison(Comparison::Equal),
                    "2.7".to_string()
                )),
                ..Default::default()
            }
        ))
    );
    assert_eq!(
        specification("name[quux, strange];python_version<'2.7' and platform_version=='2'"),
        Ok((
            "".to_string(),
            RequirementSpecifier {
                name: "name".to_string(),
                extras: vec!["quux".to_string(), "strange".to_string()],
                marker_expr: Some(MarkerExpr::And(
                    Box::new(MarkerExpr::Basic(
                        "python_version".to_string(),
                        MarkerOp::Comparison(Comparison::LessThan),
                        "2.7".to_string()
                    )),
                    Box::new(MarkerExpr::Basic(
                        "platform_version".to_string(),
                        MarkerOp::Comparison(Comparison::Equal),
                        "2".to_string()
                    ))
                )),
                ..Default::default()
            }
        ))
    );
    assert_eq!(
        specification("name; os_name=='a' or os_name=='b'"),
        Ok((
            "".to_string(),
            RequirementSpecifier {
                name: "name".to_string(),
                marker_expr: Some(MarkerExpr::Or(
                    Box::new(MarkerExpr::Basic(
                        "os_name".to_string(),
                        MarkerOp::Comparison(Comparison::Equal),
                        "a".to_string()
                    )),
                    Box::new(MarkerExpr::Basic(
                        "os_name".to_string(),
                        MarkerOp::Comparison(Comparison::Equal),
                        "b".to_string()
                    ))
                )),
                ..Default::default()
            }
        ))
    );
    assert_eq!(
        specification("name; os_name=='a' and os_name=='b' or os_name=='c'"),
        Ok((
            "".to_string(),
            RequirementSpecifier {
                name: "name".to_string(),
                marker_expr: Some(MarkerExpr::Or(
                    Box::new(MarkerExpr::And(
                        Box::new(MarkerExpr::Basic(
                            "os_name".to_string(),
                            MarkerOp::Comparison(Comparison::Equal),
                            "a".to_string()
                        )),
                        Box::new(MarkerExpr::Basic(
                            "os_name".to_string(),
                            MarkerOp::Comparison(Comparison::Equal),
                            "b".to_string()
                        ))
                    )),
                    Box::new(MarkerExpr::Basic(
                        "os_name".to_string(),
                        MarkerOp::Comparison(Comparison::Equal),
                        "c".to_string()
                    ))
                )),
                ..Default::default()
            }
        ))
    );
    assert_eq!(
        specification("name; os_name=='a' and (os_name=='b' or os_name=='c')"),
        Ok((
            "".to_string(),
            RequirementSpecifier {
                name: "name".to_string(),
                marker_expr: Some(MarkerExpr::And(
                    Box::new(MarkerExpr::Basic(
                        "os_name".to_string(),
                        MarkerOp::Comparison(Comparison::Equal),
                        "a".to_string()
                    )),
                    Box::new(MarkerExpr::Or(
                        Box::new(MarkerExpr::Basic(
                            "os_name".to_string(),
                            MarkerOp::Comparison(Comparison::Equal),
                            "b".to_string()
                        )),
                        Box::new(MarkerExpr::Basic(
                            "os_name".to_string(),
                            MarkerOp::Comparison(Comparison::Equal),
                            "c".to_string()
                        ))
                    ))
                )),
                ..Default::default()
            }
        ))
    );
    assert_eq!(
        specification("name; os_name=='a' or os_name=='b' and os_name=='c'"),
        Ok((
            "".to_string(),
            RequirementSpecifier {
                name: "name".to_string(),
                marker_expr: Some(MarkerExpr::Or(
                    Box::new(MarkerExpr::Basic(
                        "os_name".to_string(),
                        MarkerOp::Comparison(Comparison::Equal),
                        "a".to_string()
                    )),
                    Box::new(MarkerExpr::And(
                        Box::new(MarkerExpr::Basic(
                            "os_name".to_string(),
                            MarkerOp::Comparison(Comparison::Equal),
                            "b".to_string()
                        )),
                        Box::new(MarkerExpr::Basic(
                            "os_name".to_string(),
                            MarkerOp::Comparison(Comparison::Equal),
                            "c".to_string()
                        ))
                    ))
                )),
                ..Default::default()
            }
        ))
    );
    assert_eq!(
        specification("name; (os_name=='a' or os_name=='b') and os_name=='c'"),
        Ok((
            "".to_string(),
            RequirementSpecifier {
                name: "name".to_string(),
                marker_expr: Some(MarkerExpr::And(
                    Box::new(MarkerExpr::Or(
                        Box::new(MarkerExpr::Basic(
                            "os_name".to_string(),
                            MarkerOp::Comparison(Comparison::Equal),
                            "a".to_string()
                        )),
                        Box::new(MarkerExpr::Basic(
                            "os_name".to_string(),
                            MarkerOp::Comparison(Comparison::Equal),
                            "b".to_string()
                        ))
                    )),
                    Box::new(MarkerExpr::Basic(
                        "os_name".to_string(),
                        MarkerOp::Comparison(Comparison::Equal),
                        "c".to_string()
                    ))
                )),
                ..Default::default()
            }
        ))
    );
}

#[test]
fn test_version_scheme() {
    assert_eq!(
        version_scheme("0.1"),
        Ok((
            "".to_string(),
            Version {
                epoch: 0,
                release: vec![0, 1],
                ..Default::default()
            }
        ))
    );
    assert_eq!(
        version_scheme("1.1.0"),
        Ok((
            "".to_string(),
            Version {
                epoch: 0,
                release: vec![1, 1, 0],
                ..Default::default()
            }
        ))
    );
    assert_eq!(
        version_scheme("1.1a1"),
        Ok((
            "".to_string(),
            Version {
                epoch: 0,
                release: vec![1, 1],
                pre: Some(("a".to_string(), 1)),
                ..Default::default()
            }
        ))
    );
    assert_eq!(
        version_scheme("1.1.0.PoSt1"),
        Ok((
            "".to_string(),
            Version {
                epoch: 0,
                release: vec![1, 1, 0],
                post: Some(("post".to_string(), 1)),
                ..Default::default()
            }
        ))
    );
    assert_eq!(
        version_scheme("3!1.1.2-Beta3+Ubuntu.3-release"),
        Ok((
            "".to_string(),
            Version {
                epoch: 3,
                release: vec![1, 1, 2],
                pre: Some(("b".to_string(), 3)),
                local: Some(vec![
                    LocalVersionPart::LowerStr("ubuntu".to_string()),
                    LocalVersionPart::Num(3),
                    LocalVersionPart::LowerStr("release".to_string()),
                ]),
                ..Default::default()
            }
        ))
    );
}
