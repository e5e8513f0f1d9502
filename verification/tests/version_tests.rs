use uhpm_core::dependency::parse_dependency;
use uhpm_core::dependency::Dependency;
use uhpm_core::dependency::DependencyKind;
use uhpm_core::dependency::VersionConstraint;
use uhpm_core::reference::PackageReference;
use uhpm_core::repoindex::RepositoryIndex;
use uhpm_core::repoindex::RepositoryPackageEntry;
use uhpm_core::version::parse_version_str;
use uhpm_core::version::Version;
use uhpm_core::vreq::VersionReq;

fn v(s: &str) -> Version {
    parse_version_str(s).unwrap()
}

#[test]
fn version_display_round_trip() {
    for s in ["0.1.0", "1.2.3", "10.20.30", "1.0.0-alpha", "1.0.0-alpha.1+build5"] {
        let parsed = parse_version_str(s).unwrap();
        assert_eq!(parsed.to_string(), s);
        let again = parse_version_str(&parsed.to_string()).unwrap();
        assert_eq!(parsed, again);
    }
}

#[test]
fn version_parse_rejects_bad_forms() {
    for s in ["", "1", "1.2", "1.2.3.4", "01.2.3", "1.2.x", "a.b.c", "1.2.3-", "1.2.3+"] {
        assert!(parse_version_str(s).is_none(), "{} should not parse", s);
    }
}

#[test]
fn version_ordering() {
    assert!(v("1.0.0").lt(&v("2.0.0")));
    assert!(v("2.1.0").lt(&v("2.2.0")));
    assert!(v("2.2.0").lt(&v("2.2.1")));
    assert!(v("1.0.0-alpha").lt(&v("1.0.0")));
    assert!(!v("1.0.0").lt(&v("1.0.0")));
    assert!(v("1.0.0-alpha").lt(&v("1.0.0-beta")));
    assert!(v("1.0.0-alpha.2").lt(&v("1.0.0-alpha.10")));
    assert!(!v("1.0.0-alpha.10").lt(&v("1.0.0-alpha.2")));
    assert!(v("1.0.0-alpha").lt(&v("1.0.0-alpha.1")));
    assert!(v("1.0.0-2").lt(&v("1.0.0-10")));
    assert!(v("1.0.0-9").lt(&v("1.0.0-a")));
}

#[test]
fn reference_round_trip() {
    let r = PackageReference::new("my-pkg".to_string(), v("1.2.3"));
    let text = r.to_string();
    assert_eq!(text, "my-pkg@1.2.3");
    let back = PackageReference::try_from(&text).unwrap();
    assert!(back.matches(&r));
}

#[test]
fn reference_rejects_bad_forms() {
    assert!(PackageReference::try_from("no-at-sign").is_err());
    assert!(PackageReference::try_from("a@b@1.0.0").is_err());
    assert!(PackageReference::try_from("name@not-a-version").is_err());
}

#[test]
fn requirement_caret_and_friends() {
    let caret = VersionReq::parse("^1.2.3").unwrap();
    assert!(caret.matches(&v("1.2.3")));
    assert!(caret.matches(&v("1.9.0")));
    assert!(!caret.matches(&v("2.0.0")));
    assert!(!caret.matches(&v("1.2.2")));

    let bare = VersionReq::parse("1.2").unwrap();
    assert!(bare.matches(&v("1.4.0")));
    assert!(!bare.matches(&v("2.0.0")));

    let tilde = VersionReq::parse("~1.2.3").unwrap();
    assert!(tilde.matches(&v("1.2.9")));
    assert!(!tilde.matches(&v("1.3.0")));

    let range = VersionReq::parse(">=1.2.0, <2.0.0").unwrap();
    assert!(range.matches(&v("1.5.0")));
    assert!(!range.matches(&v("2.0.0")));
    assert!(!range.matches(&v("1.1.9")));

    let wild = VersionReq::parse("1.*").unwrap();
    assert!(wild.matches(&v("1.7.1")));
    assert!(!wild.matches(&v("2.0.0")));

    let star = VersionReq::parse("*").unwrap();
    assert!(star.matches(&v("3.4.5")));
    assert!(!star.matches(&v("1.0.0-alpha")));
}

#[test]
fn requirement_pre_release_rule() {
    let req = VersionReq::parse("^1.0.0-alpha").unwrap();
    assert!(req.matches(&v("1.0.0-beta")));
    assert!(req.matches(&v("1.0.0")));
    let req2 = VersionReq::parse("^1.0.0").unwrap();
    assert!(!req2.matches(&v("1.2.0-alpha")));
}

#[test]
fn requirement_rejects_bad_forms() {
    assert!(VersionReq::parse("").is_none());
    assert!(VersionReq::parse("not a req").is_none());
    assert!(VersionReq::parse(">=x.2").is_none());
}

#[test]
fn dependency_line_forms() {
    let d = parse_dependency("libx@^1.0.0").unwrap();
    assert_eq!(d.name, "libx");
    assert_eq!(d.kind, DependencyKind::Required);
    assert!(d.matches_version(&v("1.5.0")));
    assert!(!d.matches_version(&v("2.0.0")));

    let bare = parse_dependency("  libx  ").unwrap();
    assert_eq!(bare.name, "libx");
    assert!(bare.matches_version(&v("9.9.9")));

    assert!(parse_dependency("libx@oops").is_err());
}

#[test]
fn feature_lists_round_trip_through_their_column_form() {
    let fs = vec!["tls".to_string(), "static".to_string()];
    let joined = uhpm_core::dependency::join_features(&fs);
    assert_eq!(joined, "tls,static");
    let back = uhpm_core::dependency::split_features(&joined);
    assert_eq!(back, fs);
    assert_eq!(uhpm_core::dependency::join_features(&Vec::new()), "");
    assert_eq!(
        uhpm_core::dependency::join_features(&vec!["solo".to_string()]),
        "solo"
    );
}

#[test]
fn latest_satisfying_takes_the_highest_match() {
    let index = RepositoryIndex {
        name: "main".to_string(),
        url: "https://example.com".to_string(),
        packages: vec![RepositoryPackageEntry {
            name: "libx".to_string(),
            versions: vec![
                "1.0.0".to_string(),
                "1.4.2".to_string(),
                "2.0.0".to_string(),
                "not-a-version".to_string(),
                "1.9.0".to_string(),
            ],
        }],
    };
    let dep = Dependency {
        name: "libx".to_string(),
        constraint: VersionConstraint { requirement: VersionReq::parse("^1.0.0").unwrap() },
        kind: DependencyKind::Required,
        provides: None,
        features: vec![],
    };
    assert_eq!(index.latest_satisfying(&dep), Some("1.9.0".to_string()));

    let too_new = Dependency {
        name: "libx".to_string(),
        constraint: VersionConstraint { requirement: VersionReq::parse("^3.0.0").unwrap() },
        kind: DependencyKind::Required,
        provides: None,
        features: vec![],
    };
    assert_eq!(index.latest_satisfying(&too_new), None);

    let absent = Dependency {
        name: "nosuch".to_string(),
        constraint: VersionConstraint { requirement: VersionReq::parse("*").unwrap() },
        kind: DependencyKind::Required,
        provides: None,
        features: vec![],
    };
    assert_eq!(index.latest_satisfying(&absent), None);
    assert!(index.get_versions("libx").is_some());
    assert!(index.get_versions("nosuch").is_none());
}
