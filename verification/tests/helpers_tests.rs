use yanvm::helpers::{to_error, NoneError};
use yanvm::versions::Version;

#[test]
fn test_to_error() {
    assert_eq!(to_error(Some(5)), Ok(5));
    assert_eq!(to_error::<u32>(None), Err(NoneError::NoneError));
    assert_eq!(NoneError::NoneError.message(), "Option resolved to none");
}

#[test]
fn test_version_tuple_conversions() {
    let version = Version::from((1, 2, 3));
    assert_eq!(version, Version::new(1, 2, 3));
    let tuple: (u32, u32, u32) = version.into();
    assert_eq!(tuple, (1, 2, 3));
}
