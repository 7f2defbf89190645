use owfs::error::{CONVERSION, ENCODING, SHORT_WRITE};
use owfs::Error;

#[test]
fn error_carries_its_code() {
    assert_eq!(Error::new(0).code(), 0);
    assert_eq!(Error::new(-1).code(), -1);
    assert_eq!(Error::new(42).code(), 42);
    assert_eq!(Error::new(isize::MIN).code(), isize::MIN);
    assert_eq!(Error::new(isize::MAX).code(), isize::MAX);
}

#[test]
fn errors_are_equal_by_code() {
    assert_eq!(Error::new(3), Error::new(3));
    assert_ne!(Error::new(3), Error::new(-3));
}

#[test]
fn the_codes_of_the_library() {
    assert_eq!(ENCODING, 0);
    assert_eq!(CONVERSION, 1);
    assert_eq!(SHORT_WRITE, -2);
}
