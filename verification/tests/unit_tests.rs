use uhpm_core::installation::InstallationId;
use uhpm_core::meta::{remote_archive_url, remote_index_url, remote_meta_url};
use uhpm_core::package::{strings_to_source, PackageSource};
use uhpm_core::paths::Paths;
use uhpm_core::reference::PackageReference;
use uhpm_core::symlink::Symlink;
use uhpm_core::target::{strings_to_target, Architecture, OperatingSystem, Target};
use uhpm_core::timestamp::Timestamp;
use uhpm_core::version::parse_version_str;

#[test]
fn paths_layout() {
    let paths = Paths::new(
        "/home/user/.uhpm".to_string(),
        "/home/user/.config/uhpm.toml".to_string(),
        "/home/user/.cache/uhpm".to_string(),
        "/tmp/uhpm".to_string(),
    );
    assert_eq!(paths.packages_dir(), "/home/user/.uhpm/packages");
    assert_eq!(paths.db_path(), "/home/user/.uhpm/packages.db");
    assert_eq!(paths.log_dir(), "/home/user/.uhpm/logs");
    assert_eq!(paths.cache_dir(), "/home/user/.cache/uhpm");
}

#[test]
fn remote_url_layout() {
    let version = parse_version_str("1.2.3").unwrap();
    assert_eq!(
        remote_meta_url("https://repo.example", "libx", &version),
        "https://repo.example/packages/libx-1.2.3-meta.toml"
    );
    assert_eq!(
        remote_archive_url("https://repo.example", "libx", &version),
        "https://repo.example/packages/libx-1.2.3.uhp"
    );
    assert_eq!(remote_index_url("https://repo.example"), "https://repo.example/index.toml");
}

#[test]
fn installation_id_text_forms() {
    let id = InstallationId::new();
    let text = id.to_string();
    let back = InstallationId::try_from(&text).unwrap();
    assert!(back.same(&id));

    assert!(InstallationId::try_from("not-a-uuid").is_err());
    assert!(InstallationId::try_from("123e4567-e89b-12d3-a456-426614174000").is_ok());
}

#[test]
fn timestamp_text_round_trip() {
    let t = Timestamp::from_rfc3339("2024-05-06T07:08:09+00:00");
    assert_eq!(t.to_rfc3339(), "2024-05-06T07:08:09+00:00");
    assert_eq!(t.duplicate(), t);
}

#[test]
fn source_strings_round_trip() {
    let git = strings_to_source("git", Some("https://host/repo"));
    assert!(matches!(git, PackageSource::Git { .. }));
    let http = strings_to_source("http", Some("https://host/p.uhp"));
    assert!(matches!(http, PackageSource::Http { .. }));
    let local = strings_to_source("local", Some("/somewhere"));
    assert_eq!(local, PackageSource::Local { path: "/somewhere".to_string() });
    let unknown = strings_to_source("carrier-pigeon", Some("x"));
    assert_eq!(unknown, PackageSource::Local { path: "/unknown".to_string() });
}

#[test]
fn target_strings_round_trip() {
    let t = strings_to_target("linux", "x86_64");
    assert_eq!(t.os, OperatingSystem::Linux);
    assert_eq!(t.arch, Architecture::X86_64);
    let m = strings_to_target("macos", "aarch64");
    assert_eq!(m.os, OperatingSystem::MacOS);
    assert_eq!(m.arch, Architecture::Aarch64);
    let c = strings_to_target("plan9", "mips");
    assert_eq!(c.os, OperatingSystem::Custom("plan9".to_string()));
    assert_eq!(c.arch, Architecture::Custom("mips".to_string()));
    assert!(Target::current().matches(&strings_to_target("linux", "x86_64")));
}

#[test]
fn symlink_paths() {
    let relative = Symlink::file("store/file".to_string(), "bin/tool".to_string());
    assert!(relative.is_relative());
    assert_eq!(relative.resolve_absolute_path("/home/user"), "/home/user/bin/tool");

    let absolute = Symlink::file("store/file".to_string(), "/usr/local/bin/tool".to_string());
    assert!(absolute.is_absolute());
    assert_eq!(absolute.resolve_absolute_path("/home/user"), "/usr/local/bin/tool");
}

#[test]
fn largest_version_numbers_survive() {
    let big = "18446744073709551615.0.18446744073709551615";
    let v = parse_version_str(big).unwrap();
    assert_eq!(v.to_string(), big);
    assert!(parse_version_str("18446744073709551616.0.0").is_none());
}

#[test]
fn reference_id_matches_to_string() {
    let r = PackageReference::new("tool".to_string(), parse_version_str("0.3.1").unwrap());
    assert_eq!(r.id(), r.to_string());
    assert_eq!(r.package_id().as_str(), "tool@0.3.1");
}
