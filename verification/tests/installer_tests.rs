use yanvm::installer::{append_chunk, progress_after, InstallStep, Installer, NodeBinary, Platform};
use yanvm::versions::{Arch, Version};

#[test]
fn test_installer() {
    let version = Version::new(1, 2, 3);
    let arch = Arch::X64;
    let installer = Installer::new(version, arch);

    let platform = Platform::Linux;
    let (os, ext) = (platform.os_str(), platform.archive_type().get_ext());

    assert_eq!(
        installer.parse_installer(&platform),
        format!(
            "node-v1.2.3-{os}-{arch}.{ext}",
            os = os,
            ext = ext,
            arch = arch.as_str()
        )
    );
}

#[test]
fn test_installer_names_per_platform() {
    let installer = Installer::new(Version::new(16, 15, 1), Arch::X64);

    assert_eq!(
        installer.parse_installer(&Platform::Linux),
        "node-v16.15.1-linux-x64.tar.xz"
    );
    assert_eq!(
        installer.parse_installer(&Platform::Darwin),
        "node-v16.15.1-darwin-x64.tar.gz"
    );
    assert_eq!(
        installer.parse_installer(&Platform::Win),
        "node-v16.15.1-win-x64.zip"
    );
    assert_eq!(
        installer.parse_installer_no_ext(&Platform::Linux),
        "node-v16.15.1-linux-x64"
    );
}

#[test]
fn test_installer_link() {
    let installer = Installer::new(Version::new(16, 15, 1), Arch::ARM64);
    assert_eq!(
        installer.get_installer_link(&Platform::Linux),
        "https://nodejs.org/dist/v16.15.1/node-v16.15.1-linux-arm64.tar.xz"
    );
}

#[test]
fn test_platform_labels() {
    assert_eq!(Platform::new("windows"), Some(Platform::Win));
    assert_eq!(Platform::new("macos"), Some(Platform::Darwin));
    assert_eq!(Platform::new("linux"), Some(Platform::Linux));
    assert_eq!(Platform::new("freebsd"), None);
}

#[test]
fn test_node_binary_holds_parts() {
    let binary = NodeBinary::new(vec![1, 2, 3], "node-v1.2.3-linux-x64".to_string());
    assert_eq!(binary.bytes, vec![1, 2, 3]);
    assert_eq!(binary.binary_name, "node-v1.2.3-linux-x64");
}

#[test]
fn test_progress_after() {
    // A known total caps the reported progress and never lets it drop.
    assert_eq!(progress_after(0, 10, 100), 10);
    assert_eq!(progress_after(90, 30, 100), 100);
    assert_eq!(progress_after(100, 5, 100), 100);
    // With no known total, progress reports bytes transferred alone.
    assert_eq!(progress_after(0, 10, 0), 10);
    assert_eq!(progress_after(50, 25, 0), 75);
    assert_eq!(progress_after(u64::MAX - 1, 10, 0), u64::MAX);
}

#[test]
fn test_append_chunk() {
    let mut buf = vec![1u8, 2];
    append_chunk(&mut buf, &[3, 4, 5]);
    assert_eq!(buf, vec![1, 2, 3, 4, 5]);
    append_chunk(&mut buf, &[]);
    assert_eq!(buf, vec![1, 2, 3, 4, 5]);
}

#[test]
fn test_install_steps_in_order() {
    assert_eq!(InstallStep::Pending.next(), Some(InstallStep::Resolved));
    assert_eq!(InstallStep::Resolved.next(), Some(InstallStep::Downloaded));
    assert_eq!(
        InstallStep::Downloaded.next(),
        Some(InstallStep::Decompressed)
    );
    assert_eq!(
        InstallStep::Decompressed.next(),
        Some(InstallStep::Materialized)
    );
    assert_eq!(InstallStep::Materialized.next(), Some(InstallStep::Recorded));
    assert_eq!(InstallStep::Recorded.next(), None);

    assert!(InstallStep::Materialized.may_record());
    assert!(!InstallStep::Downloaded.may_record());
}
