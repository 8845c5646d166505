use yanvm::index::{
    canonicalize_index, resolve_latest, resolve_lts, sort_index, LtsEnum, LtsUnion,
    NodeIndexElement, ResolutionError,
};
use yanvm::versions::Version;

#[test]
fn test_sort_index() {
    let mut index = vec![
        NodeIndexElement {
            version: "v1.2.1".to_string(),
            ..Default::default()
        },
        NodeIndexElement {
            version: "v1.2.3".to_string(),
            ..Default::default()
        },
        NodeIndexElement {
            version: "v1.2.2".to_string(),
            ..Default::default()
        },
    ];

    sort_index(&mut index);

    assert_eq!(
        index,
        vec![
            NodeIndexElement {
                version: "v1.2.3".to_string(),
                ..Default::default()
            },
            NodeIndexElement {
                version: "v1.2.2".to_string(),
                ..Default::default()
            },
            NodeIndexElement {
                version: "v1.2.1".to_string(),
                ..Default::default()
            },
        ]
    );
}

#[test]
fn test_canonicalize_filters_and_sorts() {
    let index = vec![
        NodeIndexElement {
            version: "v1.2.1".to_string(),
            ..Default::default()
        },
        NodeIndexElement {
            version: "not-a-version".to_string(),
            ..Default::default()
        },
        NodeIndexElement {
            version: "v1.2.3".to_string(),
            ..Default::default()
        },
    ];

    let canonical = canonicalize_index(index);

    let versions: Vec<&str> = canonical.iter().map(|e| e.version.as_str()).collect();
    assert_eq!(versions, vec!["v1.2.3", "v1.2.1"]);
}

#[test]
fn test_resolve_latest() {
    let mut index = vec![
        NodeIndexElement {
            version: "v16.15.1".to_string(),
            ..Default::default()
        },
        NodeIndexElement {
            version: "v18.0.0".to_string(),
            ..Default::default()
        },
    ];
    sort_index(&mut index);

    assert_eq!(resolve_latest(&index).unwrap(), Version::new(18, 0, 0));
}

#[test]
fn test_resolve_latest_empty_index() {
    let index: Vec<NodeIndexElement> = vec![];
    assert_eq!(resolve_latest(&index), Err(ResolutionError::EmptyIndex));
}

#[test]
fn test_resolve_lts() {
    // A descending index whose newest release is not LTS and whose next
    // one carries a codename: the codename release wins.
    let index = vec![
        NodeIndexElement {
            version: "v18.0.0".to_string(),
            lts: LtsUnion::Bool(false),
            ..Default::default()
        },
        NodeIndexElement {
            version: "v16.15.1".to_string(),
            lts: LtsUnion::Enum(LtsEnum::Argon),
            ..Default::default()
        },
    ];

    assert_eq!(resolve_lts(&index).unwrap(), Version::new(16, 15, 1));
}

#[test]
fn test_resolve_lts_accepts_bool_true() {
    let index = vec![NodeIndexElement {
        version: "v4.0.0".to_string(),
        lts: LtsUnion::Bool(true),
        ..Default::default()
    }];

    assert_eq!(resolve_lts(&index).unwrap(), Version::new(4, 0, 0));
}

#[test]
fn test_resolve_lts_none_qualifies() {
    let index = vec![NodeIndexElement {
        version: "v18.0.0".to_string(),
        lts: LtsUnion::Bool(false),
        ..Default::default()
    }];

    assert_eq!(resolve_lts(&index), Err(ResolutionError::NoLtsRelease));
}
