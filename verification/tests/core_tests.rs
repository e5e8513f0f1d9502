use uhpm_core::checksum::accept_download;
use uhpm_core::checksum::compute_digest_hex;
use uhpm_core::checksum::Checksum;
use uhpm_core::errors::UhpmError;
use uhpm_core::factory::InstallationFactory;
use uhpm_core::factory::PackageFactory;
use uhpm_core::filemeta::FilePermissions;
use uhpm_core::filemeta::FileType;
use uhpm_core::filemeta::{file_type_to_string, string_to_file_type};
use uhpm_core::instlist::parse_instlist_text;
use uhpm_core::package::PackageSource;
use uhpm_core::reference::PackageId;
use uhpm_core::symlink::Symlink;
use uhpm_core::symlink::SymlinkBatch;
use uhpm_core::target::Target;
use uhpm_core::version::parse_version_str;

#[test]
fn test_create_installation() {
    let package_id = PackageId::new("test-pkg", &parse_version_str("1.0.0").unwrap());
    let installation = InstallationFactory::create(package_id);

    assert!(!installation.is_active());
    assert!(installation.installed_files().is_empty());
    assert!(installation.symlinks().is_empty());
}

#[test]
fn test_validate_activation_empty_installation() {
    let package_id = PackageId::new("test-pkg", &parse_version_str("1.0.0").unwrap());
    let installation = InstallationFactory::create(package_id);

    let result = InstallationFactory::validate_activation(&installation);
    assert!(result.is_err());
}

#[test]
fn test_create_valid_package() {
    let package = PackageFactory::create(
        "my-package".to_string(),
        parse_version_str("1.0.0").unwrap(),
        "John Doe".to_string(),
        PackageSource::Local { path: "/tmp".into() },
        Target::current(),
        None,
        vec![],
    )
    .unwrap();

    assert_eq!(package.name(), "my-package");
    assert!(!package.is_installed());
    assert!(!package.is_active());
}

#[test]
fn test_invalid_package_name() {
    let result = PackageFactory::create(
        "".to_string(),
        parse_version_str("1.0.0").unwrap(),
        "John Doe".to_string(),
        PackageSource::Local { path: "/tmp".into() },
        Target::current(),
        None,
        vec![],
    );

    assert!(result.is_err());
}

#[test]
fn package_id_text_form() {
    let id = PackageId::new("libx", &parse_version_str("1.0.0").unwrap());
    assert_eq!(id.as_str(), "libx@1.0.0");
}

#[test]
fn system_directory_targets_are_refused() {
    assert!(InstallationFactory::is_system_directory(&"/bin/ls".to_string()));
    assert!(InstallationFactory::is_system_directory(&"/usr/lib".to_string()));
    assert!(InstallationFactory::is_system_directory(&"/etc/passwd".to_string()));
    assert!(!InstallationFactory::is_system_directory(&"/home/user/bin/tool".to_string()));
    assert!(!InstallationFactory::is_system_directory(&"/binx/tool".to_string()));
}

#[test]
fn sha256_digest_hex_of_known_input() {
    let hex = compute_digest_hex("sha256", b"abc").unwrap();
    assert_eq!(hex, "ba7816bf8f01cfea414140de5dae2223b00361a396177a9cb410ff61f20015ad");
    assert!(compute_digest_hex("nope", b"abc").is_none());
}

#[test]
fn checksum_gate_accepts_and_refuses() {
    let good = Checksum {
        algorithm: "sha256".to_string(),
        hash: "ba7816bf8f01cfea414140de5dae2223b00361a396177a9cb410ff61f20015ad".to_string(),
    };
    assert!(accept_download(&Some(good), b"abc", "pkg@1.0.0").is_ok());

    let bad = Checksum { algorithm: "sha256".to_string(), hash: "aaaa".to_string() };
    match accept_download(&Some(bad), b"abc", "pkg@1.0.0") {
        Err(UhpmError::ChecksumMismatch(what)) => assert_eq!(what, "pkg@1.0.0"),
        other => panic!("expected a checksum mismatch, got {:?}", other),
    }

    assert!(accept_download(&None, b"anything", "pkg@1.0.0").is_ok());
}

#[test]
fn install_list_parsing() {
    let text = "# comment\n\n  bin/app   /home/user/bin/app  \nlib/x /home/user/lib/x\nonly-one-field\n";
    let entries = parse_instlist_text(text);
    assert_eq!(entries.len(), 2);
    assert_eq!(entries[0].source_rel, "bin/app");
    assert_eq!(entries[0].target_abs, "/home/user/bin/app");
    assert_eq!(entries[1].source_rel, "lib/x");
    assert_eq!(entries[1].target_abs, "/home/user/lib/x");
}

#[test]
fn symlink_batch_validation() {
    let mut batch = SymlinkBatch::new("/home/user".to_string());
    batch.add_file_link("a".to_string(), "/home/user/a".to_string()).unwrap();
    batch.add_directory_link("d".to_string(), "/home/user/d".to_string()).unwrap();
    assert!(batch.validate_all().is_ok());

    batch.add_file_link("b".to_string(), "/home/user/a".to_string()).unwrap();
    assert!(batch.validate_all().is_err());

    assert!(batch.add_link(Symlink::file("".to_string(), "/x".to_string())).is_err());
    assert!(batch.add_link(Symlink::file("/x".to_string(), "/x".to_string())).is_err());
}

#[test]
fn permissions_octal_values() {
    assert_eq!(FilePermissions::read_only().octal(), 0o400);
    assert_eq!(FilePermissions::read_write().octal(), 0o600);
    assert_eq!(FilePermissions::executable().octal(), 0o500);
    assert!(FilePermissions::executable().is_executable());
}

#[test]
fn file_type_tokens_round_trip() {
    for t in [FileType::Regular, FileType::Directory, FileType::Symlink, FileType::Executable] {
        let token = file_type_to_string(&t);
        assert_eq!(string_to_file_type(&token), t);
    }
    assert_eq!(string_to_file_type("whatever"), FileType::Regular);
}

#[test]
fn source_validation_rules() {
    assert!(PackageFactory::validate_source(&PackageSource::Http {
        url: "https://example.com/p".to_string()
    })
    .is_ok());
    assert!(PackageFactory::validate_source(&PackageSource::Http { url: "ftp://x".to_string() })
        .is_err());
    assert!(PackageFactory::validate_source(&PackageSource::Git {
        url: "git@host:repo".to_string(),
        release: None
    })
    .is_ok());
    assert!(
        PackageFactory::validate_source(&PackageSource::Local { path: "".to_string() }).is_err()
    );
}

#[test]
fn factory_rejects_broken_pre_release() {
    let result = PackageFactory::create(
        "fine-name".to_string(),
        parse_version_str("1.0.0-broken.1").unwrap(),
        "A. Author".to_string(),
        PackageSource::Local { path: "/tmp".into() },
        Target::current(),
        None,
        vec![],
    );
    assert!(result.is_err());
}
