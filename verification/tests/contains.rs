use reqspec::requirement::version_one;

#[test]
fn test_spec_contains_version() {
    let contains = [
        ("2.0", "==2"),
        ("2.0", "==2.0"),
        ("2.0", "==2.0.0"),
        ("2.0+deadbeef", "==2"),
        ("2.0+deadbeef", "==2.0"),
        ("2.0+deadbeef", "==2.0.0"),
        ("2.0+deadbeef", "==2+deadbeef"),
        ("2.0+deadbeef", "==2.0+deadbeef"),
        ("2.0+deadbeef", "==2.0.0+deadbeef"),
        ("2.0+deadbeef.0", "==2.0.0+deadbeef.00"),
        ("2.dev1", "==2.*"),
        ("2a1", "==2.*"),
        ("2a1.post1", "==2.*"),
        ("2b1", "==2.*"),
        ("2b1.dev1", "==2.*"),
        ("2c1", "==2.*"),
        ("2c1.post1.dev1", "==2.*"),
        ("2c1.post1.dev1", "==2.0.*"),
        ("2rc1", "==2.*"),
        ("2rc1", "==2.0.*"),
        ("2", "==2.*"),
        ("2", "==2.0.*"),
        ("2", "==0!2.*"),
        ("0!2", "==2.*"),
        ("2.0", "==2.*"),
        ("2.0.0", "==2.*"),
        ("2.1+local.version", "==2.1.*"),
        ("2.1", "!=2"),
        ("2.1", "!=2.0"),
        ("2.0.1", "!=2"),
        ("2.0.1", "!=2.0"),
        ("2.0.1", "!=2.0.0"),
        ("2.0", "!=2.0+deadbeef"),
        ("2.0", "!=3.*"),
        ("2.1", "!=2.0.*"),
        ("2.0", ">=2"),
        ("2.0", ">=2.0"),
        ("2.0", ">=2.0.0"),
        ("2.0.post1", ">=2"),
        ("2.0.post1.dev1", ">=2"),
        ("2.0", "<=2"),
        ("2.0", "<=2.0"),
        ("2.0", "<=2.0.0"),
        ("2.0.dev1", "<=2"),
        ("2.0a1", "<=2"),
        ("2.0a1.dev1", "<=2"),
        ("2.0b1", "<=2"),
        ("2.0b1.post1", "<=2"),
        ("2.0c1", "<=2"),
        ("2.0c1.post1.dev1", "<=2"),
        ("2.0rc1", "<=2"),
        ("1", "<=2"),
        ("3", ">2"),
        ("2.1", ">2.0"),
        ("2.0.1", ">2"),
        ("2.1.post1", ">2"),
        ("2.1+local.version", ">2"),
        ("1", "<2"),
        ("2.0", "<2.1"),
        ("2.0.dev0", "<2.1"),
        ("1", "~=1.0"),
        ("1.0.1", "~=1.0"),
        ("1.1", "~=1.0"),
        ("1.9999999", "~=1.0"),
        ("1.1", "~=1.0a1"),
        ("2022.01.01", "~=2022.01.01"),
        ("2!1.0", "~=2!1.0"),
        ("2!1.0", "==2!1.*"),
        ("2!1.0", "==2!1.0"),
        ("2!1.0", "!=1.0"),
        ("2!1.0.0", "==2!1.0.*"),
        ("2!1.0.0", "==2!1.*"),
        ("1.0", "!=2!1.0"),
        ("1.0", "<=2!0.1"),
        ("2!1.0", ">=2.0"),
        ("1.0", "<2!0.1"),
        ("2!1.0", ">2.0"),
        ("2.0.5", ">2.0dev"),
    ];
    let not_contains = [
        ("2.1", "==2"),
        ("2.1", "==2.0"),
        ("2.1", "==2.0.0"),
        ("2.0", "==2.0+deadbeef"),
        ("2.0", "==3.*"),
        ("2.1", "==2.0.*"),
        ("2.0", "!=2"),
        ("2.0", "!=2.0"),
        ("2.0", "!=2.0.0"),
        ("2.0+deadbeef", "!=2"),
        ("2.0+deadbeef", "!=2.0"),
        ("2.0+deadbeef", "!=2.0.0"),
        ("2.0+deadbeef", "!=2+deadbeef"),
        ("2.0+deadbeef", "!=2.0+deadbeef"),
        ("2.0+deadbeef", "!=2.0.0+deadbeef"),
        ("2.0+deadbeef.0", "!=2.0.0+deadbeef.00"),
        ("2.dev1", "!=2.*"),
        ("2a1", "!=2.*"),
        ("2a1.post1", "!=2.*"),
        ("2b1", "!=2.*"),
        ("2b1.dev1", "!=2.*"),
        ("2c1", "!=2.*"),
        ("2c1.post1.dev1", "!=2.*"),
        ("2c1.post1.dev1", "!=2.0.*"),
        ("2rc1", "!=2.*"),
        ("2rc1", "!=2.0.*"),
        ("2", "!=2.*"),
        ("2", "!=2.0.*"),
        ("2.0", "!=2.*"),
        ("2.0.0", "!=2.*"),
        ("2.0.dev1", ">=2"),
        ("2.0a1", ">=2"),
        ("2.0a1.dev1", ">=2"),
        ("2.0b1", ">=2"),
        ("2.0b1.post1", ">=2"),
        ("2.0c1", ">=2"),
        ("2.0c1.post1.dev1", ">=2"),
        ("2.0rc1", ">=2"),
        ("1", ">=2"),
        ("2.0.post1", "<=2"),
        ("2.0.post1.dev1", "<=2"),
        ("3", "<=2"),
        ("1", ">2"),
        ("2.0.dev1", ">2"),
        ("2.0a1", ">2"),
        ("2.0a1.post1", ">2"),
        ("2.0b1", ">2"),
        ("2.0b1.dev1", ">2"),
        ("2.0c1", ">2"),
        ("2.0c1.post1.dev1", ">2"),
        ("2.0rc1", ">2"),
        ("2.0", ">2"),
        ("2.0.post1", ">2"),
        ("2.0.post1.dev1", ">2"),
        ("2.0+local.version", ">2"),
        ("2.0.dev1", "<2"),
        ("2.0a1", "<2"),
        ("2.0a1.post1", "<2"),
        ("2.0b1", "<2"),
        ("2.0b2.dev1", "<2"),
        ("2.0c1", "<2"),
        ("2.0c1.post1.dev1", "<2"),
        ("2.0rc1", "<2"),
        ("2.0", "<2"),
        ("2.post1", "<2"),
        ("2.post1.dev1", "<2"),
        ("3", "<2"),
        ("2.0", "~=1.0"),
        ("1.1.0", "~=1.0.0"),
        ("1.1.post1", "~=1.0.0"),
        ("1.0", "~=2!1.0"),
        ("2!1.0", "~=1.0"),
        ("2!1.0", "==1.0"),
        ("1.0", "==2!1.0"),
        ("2!1.0", "==1.*"),
        ("1.0", "==2!1.*"),
        ("2!1.0", "!=2!1.0"),
    ];
    for (ver, spec) in contains {
        let (_, s) = version_one(spec, 0).unwrap();
        assert!(s.contains(ver));
    }
    for (ver, spec) in not_contains {
        let (_, s) = version_one(spec, 0).unwrap();
        assert!(!s.contains(ver));
    }
}
