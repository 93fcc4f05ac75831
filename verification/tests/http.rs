//! Tests for the HTTP method type.

use heph::http::{cmp_lower_case, Method, UnknownMethod};

#[test]
fn from_str_known_methods() {
    assert_eq!(Method::from_str("GET"), Ok(Method::Get));
    assert_eq!(Method::from_str("PUT"), Ok(Method::Put));
    assert_eq!(Method::from_str("HEAD"), Ok(Method::Head));
    assert_eq!(Method::from_str("POST"), Ok(Method::Post));
    assert_eq!(Method::from_str("TRACE"), Ok(Method::Trace));
    assert_eq!(Method::from_str("PATCH"), Ok(Method::Patch));
    assert_eq!(Method::from_str("DELETE"), Ok(Method::Delete));
    assert_eq!(Method::from_str("CONNECT"), Ok(Method::Connect));
    assert_eq!(Method::from_str("OPTIONS"), Ok(Method::Options));
}

#[test]
fn from_str_ignores_ascii_case() {
    assert_eq!(Method::from_str("get"), Ok(Method::Get));
    assert_eq!(Method::from_str("Get"), Ok(Method::Get));
    assert_eq!(Method::from_str("oPtIoNs"), Ok(Method::Options));
    assert_eq!(Method::from_str("delete"), Ok(Method::Delete));
}

#[test]
fn from_str_unknown_methods() {
    assert_eq!(Method::from_str(""), Err(UnknownMethod));
    assert_eq!(Method::from_str("GETS"), Err(UnknownMethod));
    assert_eq!(Method::from_str("got"), Err(UnknownMethod));
    assert_eq!(Method::from_str("PURGE"), Err(UnknownMethod));
    assert_eq!(Method::from_str("VERYLONGMETHOD"), Err(UnknownMethod));
}

#[test]
fn is_head() {
    assert!(Method::Head.is_head());
    assert!(!Method::Get.is_head());
    assert!(!Method::Post.is_head());
}

#[test]
fn is_safe() {
    assert!(Method::Get.is_safe());
    assert!(Method::Head.is_safe());
    assert!(Method::Options.is_safe());
    assert!(Method::Trace.is_safe());
    assert!(!Method::Post.is_safe());
    assert!(!Method::Put.is_safe());
    assert!(!Method::Delete.is_safe());
    assert!(!Method::Connect.is_safe());
    assert!(!Method::Patch.is_safe());
}

#[test]
fn is_idempotent() {
    assert!(Method::Get.is_idempotent());
    assert!(Method::Head.is_idempotent());
    assert!(Method::Options.is_idempotent());
    assert!(Method::Trace.is_idempotent());
    assert!(Method::Put.is_idempotent());
    assert!(Method::Delete.is_idempotent());
    assert!(!Method::Post.is_idempotent());
    assert!(!Method::Connect.is_idempotent());
    assert!(!Method::Patch.is_idempotent());
}

#[test]
fn method_names() {
    assert_eq!(Method::Get.as_str(), "GET");
    assert_eq!(Method::Head.as_str(), "HEAD");
    assert_eq!(Method::Post.as_str(), "POST");
    assert_eq!(Method::Put.as_str(), "PUT");
    assert_eq!(Method::Delete.as_str(), "DELETE");
    assert_eq!(Method::Connect.as_str(), "CONNECT");
    assert_eq!(Method::Options.as_str(), "OPTIONS");
    assert_eq!(Method::Trace.as_str(), "TRACE");
    assert_eq!(Method::Patch.as_str(), "PATCH");
}

#[test]
fn compare_lower_case() {
    assert!(cmp_lower_case("get", "GET"));
    assert!(cmp_lower_case("get", "get"));
    assert!(cmp_lower_case("get", "GeT"));
    assert!(!cmp_lower_case("get", "PUT"));
    assert!(!cmp_lower_case("get", "GETS"));
    assert!(!cmp_lower_case("get", "GE"));
}
