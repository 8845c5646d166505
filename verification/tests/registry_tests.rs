use yanvm::config::{Config, RegistryError};
use yanvm::versions::Version;

#[test]
fn test_install_records_version() {
    // Starting from an empty registry, installing one version leaves
    // exactly that version installed and no current version.
    let mut config = Config::new();
    assert!(config.versions.is_empty());
    assert_eq!(config.current, None);

    config.record_install(Version::new(16, 15, 1));

    assert_eq!(config.versions, vec![Version::new(16, 15, 1)]);
    assert_eq!(config.current, None);
}

#[test]
fn test_set_current_requires_installed() {
    let mut config = Config::new();
    config.record_install(Version::new(16, 15, 1));

    assert_eq!(config.set_current(Version::new(16, 15, 1)), Ok(()));
    assert_eq!(config.current, Some(Version::new(16, 15, 1)));

    assert_eq!(
        config.set_current(Version::new(18, 0, 0)),
        Err(RegistryError::NotInstalled)
    );
    assert_eq!(config.current, Some(Version::new(16, 15, 1)));
    assert_eq!(config.versions, vec![Version::new(16, 15, 1)]);
}

#[test]
fn test_is_installed() {
    let mut config = Config::new();
    assert!(!config.is_installed(&Version::new(1, 0, 0)));
    config.record_install(Version::new(1, 0, 0));
    assert!(config.is_installed(&Version::new(1, 0, 0)));
    assert!(!config.is_installed(&Version::new(1, 0, 1)));
}
