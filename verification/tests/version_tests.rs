use yanvm::versions::{parse_version, Arch, Version};

#[test]
fn test_version() {
    let version = Version::new(1, 2, 3);

    assert_eq!(version.major, 1);
    assert_eq!(version.minor, 2);
    assert_eq!(version.patch, 3);

    assert_eq!(version.to_version_string(), "v1.2.3");
}

#[test]
fn test_parse_version() {
    assert_eq!(parse_version("v1.2.3").unwrap(), (1, 2, 3));

    assert_eq!(parse_version("v16.15.1").unwrap(), (16, 15, 1));
}

#[test]
fn test_round_trip() {
    let triples = [
        (0, 0, 0),
        (1, 2, 3),
        (16, 15, 1),
        (10, 0, 255),
        (u32::MAX, 0, u32::MAX),
    ];
    for (a, b, c) in triples {
        let text = Version::new(a, b, c).to_version_string();
        assert_eq!(parse_version(&text).unwrap(), (a, b, c));
    }
}

#[test]
fn test_parse_version_rejects_malformed() {
    assert!(parse_version("").is_err());
    assert!(parse_version("1.2.3").is_err());
    assert!(parse_version("v1.2").is_err());
    assert!(parse_version("v1.2.x").is_err());
    assert!(parse_version("v1..3").is_err());
    assert!(parse_version("v1.2.3.4").is_err());
    assert!(parse_version("v.2.3").is_err());
    assert!(parse_version("v1.2.").is_err());
    // value does not fit in a u32
    assert!(parse_version("v4294967296.0.0").is_err());
    // largest value that does fit
    assert_eq!(parse_version("v4294967295.0.0").unwrap(), (u32::MAX, 0, 0));
}

#[test]
fn test_arch_labels() {
    assert_eq!(Arch::new("x86_64"), Some(Arch::X64));
    assert_eq!(Arch::new("x86"), Some(Arch::X86));
    assert_eq!(Arch::new("arm"), Some(Arch::ARMv7));
    assert_eq!(Arch::new("aarch64"), Some(Arch::ARM64));
    assert_eq!(Arch::new("riscv64"), None);

    assert_eq!(Arch::X64.as_str(), "x64");
    assert_eq!(Arch::ARMv7.as_str(), "armv7l");
}

#[test]
fn test_version_key_order() {
    let low = Version::new(1, 2, 1);
    let mid = Version::new(1, 2, 2);
    let high = Version::new(1, 2, 3);
    assert!(low.key() < mid.key());
    assert!(mid.key() < high.key());
    assert_eq!(high.key(), (1u64 << 16) | (2u64 << 8) | 3u64);
}
