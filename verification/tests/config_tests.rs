use uhpm_core::config::InstallMode;
use uhpm_core::config::RepositoryAuth;
use uhpm_core::config::RepositoryConfig;
use uhpm_core::config::RepositoryType;

#[test]
fn test_repository_config_creation() {
    let repo = RepositoryConfig::new("test-repo", "https://example.com", RepositoryType::Binary);

    assert_eq!(repo.name, "test-repo");
    assert_eq!(repo.url, "https://example.com");
    assert_eq!(repo.repo_type, RepositoryType::Binary);
    assert_eq!(repo.enabled, true);
    assert_eq!(repo.priority, 100);
    assert_eq!(repo.authentication, None);
}

#[test]
fn test_repository_config_builder_methods() {
    let auth = RepositoryAuth::token("test-token");
    let repo = RepositoryConfig::new("test-repo", "file:///local/path", RepositoryType::Source)
        .with_priority(50)
        .with_auth(auth.clone())
        .disabled();

    assert_eq!(repo.priority, 50);
    assert_eq!(repo.authentication, Some(auth));
    assert_eq!(repo.enabled, false);
}

#[test]
fn test_repository_type_display() {
    assert_eq!(RepositoryType::Binary.to_string(), "binary");
    assert_eq!(RepositoryType::Source.to_string(), "source");
    assert_eq!(RepositoryType::Universal.to_string(), "universal");
    assert_eq!(RepositoryType::Mixed.to_string(), "mixed");
}

#[test]
fn test_repository_type_default() {
    assert_eq!(RepositoryType::default(), RepositoryType::Binary);
}

#[test]
fn test_repository_auth_creation() {
    let token_auth = RepositoryAuth::token("my-token");
    assert_eq!(token_auth.token, Some("my-token".to_string()));
    assert_eq!(token_auth.username, None);
    assert_eq!(token_auth.password, None);

    let basic_auth = RepositoryAuth::basic("user", "pass");
    assert_eq!(basic_auth.username, Some("user".to_string()));
    assert_eq!(basic_auth.password, Some("pass".to_string()));
    assert_eq!(basic_auth.token, None);
}

#[test]
fn test_install_mode_methods() {
    assert!(InstallMode::Symlink.is_symlink());
    assert!(InstallMode::Direct.is_direct());
    assert!(InstallMode::Auto.is_auto());

    assert!(!InstallMode::Symlink.is_direct());
    assert!(!InstallMode::Direct.is_symlink());
    assert!(!InstallMode::Auto.is_direct());
}

#[test]
fn test_install_mode_should_use_symlinks() {
    assert_eq!(InstallMode::Symlink.should_use_symlinks(true), true);
    assert_eq!(InstallMode::Direct.should_use_symlinks(true), false);
    assert_eq!(InstallMode::Auto.should_use_symlinks(true), true);

    assert_eq!(InstallMode::Symlink.should_use_symlinks(false), true);
    assert_eq!(InstallMode::Direct.should_use_symlinks(false), false);
    assert_eq!(InstallMode::Auto.should_use_symlinks(false), false);
}

#[test]
fn test_install_mode_display() {
    assert_eq!(InstallMode::Symlink.to_string(), "symlink");
    assert_eq!(InstallMode::Direct.to_string(), "direct");
    assert_eq!(InstallMode::Auto.to_string(), "auto");
}

#[test]
fn test_install_mode_default() {
    assert_eq!(InstallMode::default(), InstallMode::Auto);
}

#[test]
fn test_install_mode_try_from_valid() {
    assert_eq!(InstallMode::try_from("symlink").unwrap(), InstallMode::Symlink);
    assert_eq!(InstallMode::try_from("SYMLINK").unwrap(), InstallMode::Symlink);
    assert_eq!(InstallMode::try_from("symbolic").unwrap(), InstallMode::Symlink);
    assert_eq!(InstallMode::try_from("link").unwrap(), InstallMode::Symlink);

    assert_eq!(InstallMode::try_from("direct").unwrap(), InstallMode::Direct);
    assert_eq!(InstallMode::try_from("DIRECT").unwrap(), InstallMode::Direct);
    assert_eq!(InstallMode::try_from("copy").unwrap(), InstallMode::Direct);
    assert_eq!(InstallMode::try_from("hard").unwrap(), InstallMode::Direct);

    assert_eq!(InstallMode::try_from("auto").unwrap(), InstallMode::Auto);
    assert_eq!(InstallMode::try_from("AUTO").unwrap(), InstallMode::Auto);
    assert_eq!(InstallMode::try_from("automatic").unwrap(), InstallMode::Auto);
}

#[test]
fn test_install_mode_try_from_invalid() {
    assert!(InstallMode::try_from("invalid").is_err());
    assert!(InstallMode::try_from("").is_err());
    assert!(InstallMode::try_from("unknown").is_err());
}

#[test]
fn test_repository_config_local_detection() {
    let file_repo =
        RepositoryConfig::new("file-repo", "file:///path/to/repo", RepositoryType::Binary);
    assert!(file_repo.is_local());
    assert!(!file_repo.is_remote());

    let path_repo = RepositoryConfig::new("path-repo", "/path/to/repo", RepositoryType::Binary);
    assert!(path_repo.is_local());
    assert!(!path_repo.is_remote());

    let http_repo =
        RepositoryConfig::new("http-repo", "http://example.com", RepositoryType::Binary);
    assert!(!http_repo.is_local());
    assert!(http_repo.is_remote());

    let https_repo =
        RepositoryConfig::new("https-repo", "https://example.com", RepositoryType::Binary);
    assert!(!https_repo.is_local());
    assert!(https_repo.is_remote());

    let ftp_repo = RepositoryConfig::new("ftp-repo", "ftp://example.com", RepositoryType::Binary);
    assert!(!ftp_repo.is_local());
    assert!(!ftp_repo.is_remote());
}

#[test]
fn test_repository_config_local_path() {
    let file_repo =
        RepositoryConfig::new("file-repo", "file:///absolute/path", RepositoryType::Binary);
    assert_eq!(file_repo.local_path().unwrap(), "/absolute/path");

    let path_repo = RepositoryConfig::new("path-repo", "relative/path", RepositoryType::Binary);
    assert_eq!(path_repo.local_path().unwrap(), "relative/path");

    let http_repo =
        RepositoryConfig::new("http-repo", "http://example.com", RepositoryType::Binary);
    assert!(http_repo.local_path().is_none());

    let https_repo =
        RepositoryConfig::new("https-repo", "https://example.com", RepositoryType::Binary);
    assert!(https_repo.local_path().is_none());
}

#[test]
fn test_repository_config_equality() {
    let repo1 = RepositoryConfig::new("repo", "url", RepositoryType::Binary);
    let repo2 = RepositoryConfig::new("repo", "url", RepositoryType::Binary);
    let repo3 = RepositoryConfig::new("different", "url", RepositoryType::Binary);

    assert_eq!(repo1, repo2);
    assert_ne!(repo1, repo3);
}

#[test]
fn test_install_mode_equality() {
    assert_eq!(InstallMode::Symlink, InstallMode::Symlink);
    assert_ne!(InstallMode::Symlink, InstallMode::Direct);
}
