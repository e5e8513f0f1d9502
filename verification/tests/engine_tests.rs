use uhpm_core::checksum::Checksum;
use uhpm_core::dependency::parse_dependency;
use uhpm_core::errors::UhpmError;
use uhpm_core::events::PackageEvent;
use uhpm_core::factory::PackageFactory;
use uhpm_core::installer::AvailablePackage;
use uhpm_core::installer::Engine;
use uhpm_core::installer::Remote;
use uhpm_core::installer::StoreFile;
use uhpm_core::meta::PackageMeta;
use uhpm_core::package::Package;
use uhpm_core::package::PackageSource;
use uhpm_core::reference::PackageReference;
use uhpm_core::resolver::resolve;
use uhpm_core::symlink::SymlinkType;
use uhpm_core::target::Target;
use uhpm_core::version::parse_version_str;

fn pkg(name: &str, version: &str, deps: &[&str], checksum: Option<Checksum>) -> Package {
    let parsed_deps = deps.iter().map(|d| parse_dependency(d).unwrap()).collect();
    PackageFactory::create(
        name.to_string(),
        parse_version_str(version).unwrap(),
        "someone".to_string(),
        PackageSource::Http { url: format!("https://repo.example/packages/{}-{}.uhp", name, version) },
        Target::current(),
        checksum,
        parsed_deps,
    )
    .unwrap()
}

fn avail(name: &str, version: &str, deps: &[&str], checksum: Option<Checksum>) -> AvailablePackage {
    let package = pkg(name, version, deps, checksum);
    AvailablePackage {
        package,
        archive: vec![1, 2, 3],
        meta: PackageMeta {
            name: name.to_string(),
            version: version.to_string(),
            author: "someone".to_string(),
            description: None,
            dependencies: deps.iter().map(|d| d.to_string()).collect(),
            provides: None,
            conflicts: None,
        },
        instlist_text: format!("bin/{} /home/user/bin/{}-{}", name, name, version),
        files: vec![StoreFile { path: format!("bin/{}", name), data: vec![7, 7, 7] }],
    }
}

fn engine_with(packages: Vec<AvailablePackage>) -> Engine {
    Engine::new(Remote { packages }, "/home/user/.uhpm/packages".to_string(), true)
}

fn r(name: &str, version: &str) -> PackageReference {
    PackageReference::new(name.to_string(), parse_version_str(version).unwrap())
}

#[test]
fn install_with_dependencies_orders_events_and_rows() {
    let mut engine = engine_with(vec![
        avail("libx", "1.0.0", &[], None),
        avail("app", "2.1.0", &["libx@^1.0.0"], None),
    ]);
    let result = engine.install(&r("app", "2.1.0")).unwrap();
    assert_eq!(result.package_id.as_str(), "app@2.1.0");
    assert!(!result.installed_files.is_empty());

    assert!(matches!(engine.events.first(), Some(PackageEvent::InstallationStarted { .. })));
    assert!(matches!(engine.events.last(), Some(PackageEvent::InstallationCompleted { .. })));
    let downloads = engine
        .events
        .iter()
        .filter(|e| matches!(e, PackageEvent::DownloadStarted { .. }))
        .count();
    let completions = engine
        .events
        .iter()
        .filter(|e| matches!(e, PackageEvent::DownloadCompleted { .. }))
        .count();
    assert_eq!(downloads, 2);
    assert_eq!(completions, 2);

    assert_eq!(engine.ledger.installations.len(), 2);
    let app_info = engine.info(&r("app", "2.1.0")).unwrap();
    assert!(app_info.is_installed());
    assert!(app_info.is_active());
    let libx_info = engine.info(&r("libx", "1.0.0")).unwrap();
    assert!(libx_info.is_installed());
    assert!(!libx_info.is_active());
}

#[test]
fn install_twice_is_a_no_op() {
    let mut engine = engine_with(vec![
        avail("libx", "1.0.0", &[], None),
        avail("app", "2.1.0", &["libx@^1.0.0"], None),
    ]);
    engine.install(&r("app", "2.1.0")).unwrap();
    let rows_before = engine.ledger.installations.len();
    let events_before = engine.events.len();
    let fs_before = engine.fs.entries.len();

    let second = engine.install(&r("app", "2.1.0")).unwrap();
    assert!(second.installed_files.is_empty());
    assert_eq!(second.symlinks_created, 0);
    assert_eq!(engine.ledger.installations.len(), rows_before);
    assert_eq!(engine.events.len(), events_before);
    assert_eq!(engine.fs.entries.len(), fs_before);
}

#[test]
fn switch_moves_the_active_version() {
    let mut engine = engine_with(vec![
        avail("libx", "1.0.0", &[], None),
        avail("app", "2.1.0", &["libx@^1.0.0"], None),
        avail("app", "2.2.0", &["libx@^1.0.0"], None),
    ]);
    engine.install(&r("app", "2.1.0")).unwrap();

    let switched = engine.switch("app", &parse_version_str("2.2.0").unwrap()).unwrap();
    assert_eq!(switched.package_name, "app");
    assert_eq!(switched.from_version, Some(parse_version_str("2.1.0").unwrap()));
    assert_eq!(switched.to_version, parse_version_str("2.2.0").unwrap());

    let old_info = engine.info(&r("app", "2.1.0")).unwrap();
    assert!(!old_info.is_installed());
    let new_info = engine.info(&r("app", "2.2.0")).unwrap();
    assert!(new_info.is_active());
}

#[test]
fn remove_of_an_active_package_is_refused() {
    let mut engine = engine_with(vec![
        avail("libx", "1.0.0", &[], None),
        avail("app", "2.2.0", &["libx@^1.0.0"], None),
    ]);
    engine.install(&r("app", "2.2.0")).unwrap();
    let rows_before = engine.ledger.installations.len();

    let outcome = engine.remove(&r("app", "2.2.0"));
    assert!(matches!(outcome, Err(UhpmError::PackageIsActive)));
    assert_eq!(engine.ledger.installations.len(), rows_before);
    assert!(engine.info(&r("app", "2.2.0")).unwrap().is_active());
}

#[test]
fn install_then_remove_clears_everything_materialized() {
    let mut engine = engine_with(vec![avail("solo", "1.0.0", &[], None)]);
    let fs_before = engine.fs.entries.len();
    let rows_before = engine.ledger.installations.len();

    engine.install(&r("solo", "1.0.0")).unwrap();
    assert!(engine.fs.entries.len() > fs_before);

    engine.deactivate(&r("solo", "1.0.0"));
    engine.remove(&r("solo", "1.0.0")).unwrap();

    assert_eq!(engine.fs.entries.len(), fs_before);
    assert_eq!(engine.ledger.installations.len(), rows_before);
    assert!(!engine.info(&r("solo", "1.0.0")).unwrap().is_installed());
}

#[test]
fn conflicting_requirements_are_reported() {
    let available = vec![
        pkg("a", "1.0.0", &[], None),
        pkg("a", "2.0.0", &[], None),
        pkg("b", "1.0.0", &["a@^2.0.0"], None),
    ];
    let roots = vec![
        parse_dependency("a@^1.0.0").unwrap(),
        parse_dependency("b@^1.0.0").unwrap(),
    ];
    let result = resolve(&available, &roots, &vec![]).unwrap();
    assert!(!result.conflicts.is_empty());
    assert_eq!(result.conflicts[0].package, "a");
    assert_eq!(result.conflicts[0].required, "^2.0.0");
    assert_eq!(result.conflicts[0].installed, "1.0.0");
}

#[test]
fn remote_checksum_failure_keeps_the_cache_clean() {
    let wrong = Checksum {
        algorithm: "sha256".to_string(),
        hash: "aaaaaaaaaaaaaaaaaaaaaaaaaaaaaaaaaaaaaaaaaaaaaaaaaaaaaaaaaaaaaaaa".to_string(),
    };
    let mut engine = engine_with(vec![avail("evil", "1.0.0", &[], Some(wrong))]);
    let outcome = engine.install(&r("evil", "1.0.0"));
    match outcome {
        Err(UhpmError::ChecksumMismatch(what)) => assert_eq!(what, "evil@1.0.0"),
        other => panic!("expected a checksum mismatch, got {:?}", other),
    }
    assert!(!engine.cache.has_package("evil@1.0.0"));
    assert!(matches!(engine.events.last(), Some(PackageEvent::InstallationFailed { .. })));
}

#[test]
fn prohibited_targets_write_nothing() {
    let mut bad = avail("nasty", "1.0.0", &[], None);
    bad.instlist_text = "bin/nasty /usr/bin/nasty".to_string();
    let mut engine = engine_with(vec![bad]);
    let fs_before = engine.fs.entries.len();
    let rows_before = engine.ledger.installations.len();

    let outcome = engine.install(&r("nasty", "1.0.0"));
    assert!(matches!(outcome, Err(UhpmError::ValidationError(_))));
    assert_eq!(engine.fs.entries.len(), fs_before);
    assert_eq!(engine.ledger.installations.len(), rows_before);
}

#[test]
fn materialization_is_idempotent_for_the_same_package() {
    let mut engine = engine_with(vec![
        avail("again", "1.0.0", &[], None),
    ]);
    engine.install(&r("again", "1.0.0")).unwrap();
    let fs_after_first = engine.fs.entries.len();

    // the same content installed again over its own materialization
    engine.deactivate(&r("again", "1.0.0"));
    let second = engine.install(&r("again", "1.0.0")).unwrap();
    assert_eq!(engine.fs.entries.len(), fs_after_first);
    assert_eq!(second.symlinks_created, 1);
}

#[test]
fn search_and_listing() {
    let mut engine = engine_with(vec![
        avail("alpha-tool", "1.0.0", &[], None),
        avail("beta-tool", "1.0.0", &[], None),
    ]);
    let hits = engine.search("alpha");
    assert_eq!(hits.len(), 1);
    assert_eq!(hits[0].name(), "alpha-tool");

    engine.install(&r("beta-tool", "1.0.0")).unwrap();
    let installed = engine.list_installed();
    assert_eq!(installed.len(), 1);
    assert_eq!(installed[0].name(), "beta-tool");
}

#[test]
fn search_sorts_by_name_and_deduplicates() {
    let mut packages = vec![
        avail("zeta-tool", "1.0.0", &[], None),
        avail("alpha-tool", "1.0.0", &[], None),
        avail("mid-tool", "1.0.0", &[], None),
    ];
    packages.push(avail("mid-tool", "1.0.0", &[], None));
    let engine = engine_with(packages);
    let hits = engine.search("tool");
    assert_eq!(hits.len(), 3);
    assert_eq!(hits[0].name(), "alpha-tool");
    assert_eq!(hits[1].name(), "mid-tool");
    assert_eq!(hits[2].name(), "zeta-tool");
}

#[test]
fn directory_sources_are_linked_as_directories() {
    let mut p = avail("dirpkg", "1.0.0", &[], None);
    p.files = vec![
        StoreFile { path: "share/docs/readme".to_string(), data: vec![1, 2, 3, 4] },
        StoreFile { path: "bin/dirpkg".to_string(), data: vec![9; 10] },
    ];
    p.instlist_text =
        "share /home/user/share-link\nbin/dirpkg /home/user/bin/dirpkg".to_string();
    let mut engine = engine_with(vec![p]);
    engine.install(&r("dirpkg", "1.0.0")).unwrap();

    let inst = engine.ledger.installations.first().unwrap();
    assert_eq!(inst.symlinks.len(), 2);
    assert!(matches!(inst.symlinks[0].link_type, SymlinkType::Directory));
    assert!(matches!(inst.symlinks[1].link_type, SymlinkType::File));
    // a directory source has no stored byte count of its own; a file keeps its
    assert_eq!(inst.installed_files[0].1.size, 0);
    assert_eq!(inst.installed_files[1].1.size, 10);
}

#[test]
fn info_reports_snapshot_packages_not_yet_installed() {
    let engine = engine_with(vec![avail("fresh", "1.0.0", &[], None)]);
    let p = engine.info(&r("fresh", "1.0.0")).unwrap();
    assert!(!p.is_installed());
    assert!(!p.is_active());
    assert_eq!(p.name(), "fresh");
    assert!(engine.info(&r("absent", "1.0.0")).is_err());
}

#[test]
fn packing_refuses_an_overlong_path() {
    let long_name = format!("{}file", "d/".repeat(60));
    let files = vec![StoreFile { path: long_name, data: vec![1] }];
    assert!(uhpm_core::archive::pack_store_files(&files).is_err());
}

#[test]
fn packing_store_files_yields_an_archive() {
    let files = vec![
        StoreFile { path: "meta.toml".to_string(), data: b"name = \"x\"".to_vec() },
        StoreFile { path: "bin/x".to_string(), data: vec![0, 1, 2] },
    ];
    let bytes = uhpm_core::archive::pack_store_files(&files).unwrap();
    // a gzip stream begins with the two magic bytes
    assert!(bytes.len() > 2);
    assert_eq!(bytes[0], 0x1f);
    assert_eq!(bytes[1], 0x8b);
}
