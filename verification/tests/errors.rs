use homectrl::error::{Error, ErrorResponse};

#[test]
fn status_codes() {
    assert_eq!(Error::StripNotFound(1).status_code(), 404);
    assert_eq!(Error::UnknownMode("x".to_string()).status_code(), 400);
    assert_eq!(Error::DebugModeRequired.status_code(), 403);
    assert_eq!(Error::LockPoisoned.status_code(), 500);
    assert_eq!(Error::Network("n".to_string()).status_code(), 500);
}

#[test]
fn messages() {
    assert_eq!(Error::StripNotFound(42).to_string(), "LED strip 42 not found");
    assert_eq!(Error::UnknownMode("Foo".to_string()).to_string(), "unknown animation mode: Foo");
    assert_eq!(Error::DebugModeRequired.to_string(), "debug mode is required for this operation");
    assert_eq!(Error::Network("down".to_string()).to_string(), "network error: down");
    assert_eq!(Error::LockPoisoned.to_string(), "state lock poisoned");
    assert_eq!(Error::InvalidConfig("c".to_string()).to_string(), "invalid configuration: c");
    assert_eq!(Error::InvalidColor("#zz".to_string()).to_string(), "invalid color format: #zz");
    assert_eq!(Error::Serialization("s".to_string()).to_string(), "serialization error: s");
}

#[test]
fn error_responses() {
    let r = ErrorResponse::new("boom".to_string());
    assert_eq!(r.error, "boom");
    assert!(r.code.is_none());
    let r = ErrorResponse::with_code("boom".to_string(), "E1".to_string());
    assert_eq!(r.code, Some("E1".to_string()));
    let r = ErrorResponse::from_error(&Error::StripNotFound(3));
    assert_eq!(r.error, "LED strip 3 not found");
}
