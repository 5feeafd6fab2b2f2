//! Errors that the interface answers with.

use llamesh::errors::{ApiError, AppError};

#[test]
fn test_app_error_new() {
    let err = AppError::new(400, "test message", "test_type");
    assert_eq!(err.status, 400);
    assert_eq!(err.error.message, "test message");
    assert_eq!(err.error.type_, "test_type");
    assert!(err.error.param.is_none());
    assert!(err.error.code.is_none());
    assert!(err.headers.is_none());
}

#[test]
fn test_with_param() {
    let err = AppError::new(400, "msg", "type").with_param("model");
    assert_eq!(err.error.param, Some("model".to_string()));
}

#[test]
fn test_with_code() {
    let err = AppError::new(400, "msg", "type").with_code("ERR001");
    assert_eq!(err.error.code, Some("ERR001".to_string()));
}

#[test]
fn test_with_header() {
    let err = AppError::new(429, "msg", "type").with_header("retry-after".into(), "60".into());
    assert!(err.headers.is_some());
    let headers = err.headers.unwrap();
    assert_eq!(
        headers.iter().find(|h| h.0 == "retry-after").unwrap().1,
        "60"
    );
}

#[test]
fn test_invalid_request() {
    let err = AppError::invalid_request("bad input");
    assert_eq!(err.status, 400);
    assert_eq!(err.error.type_, "invalid_request_error");
}

#[test]
fn test_authentication_error() {
    let err = AppError::authentication_error("invalid key");
    assert_eq!(err.status, 401);
    assert_eq!(err.error.type_, "authentication_error");
}

#[test]
fn test_model_not_found() {
    let err = AppError::model_not_found("unknown model");
    assert_eq!(err.status, 404);
    assert_eq!(err.error.type_, "model_not_found");
}

#[test]
fn test_service_unavailable() {
    let err = AppError::service_unavailable("overloaded", "rate_limit_error");
    assert_eq!(err.status, 503);
    assert_eq!(err.error.type_, "rate_limit_error");
}

#[test]
fn test_internal_server_error() {
    let err = AppError::internal_server_error("oops");
    assert_eq!(err.status, 500);
    assert_eq!(err.error.type_, "internal_error");
}

#[test]
fn test_builder_chain() {
    let err = AppError::new(400, "msg", "type")
        .with_param("p")
        .with_code("c")
        .with_header("x-custom".into(), "val".into());
    assert_eq!(err.error.param, Some("p".to_string()));
    assert_eq!(err.error.code, Some("c".to_string()));
    assert!(err.headers.is_some());
}

#[test]
fn timeouts_and_lost_clients() {
    let err = AppError::request_timeout("late");
    assert_eq!(err.status, 408);
    assert_eq!(err.error.message, "late");
    let gone = AppError::client_disconnected();
    assert!(gone.headers.is_none());
    assert!(gone.status >= 400);
}

#[test]
fn a_second_header_of_one_name_replaces_the_first() {
    let err = AppError::new(400, "m", "t")
        .with_header("a".into(), "1".into())
        .with_header("b".into(), "2".into())
        .with_header("a".into(), "3".into());
    let headers = err.headers.unwrap();
    assert_eq!(headers.len(), 2);
    assert_eq!(headers.iter().find(|h| h.0 == "a").unwrap().1, "3");
}

#[test]
fn errors_can_be_copied() {
    let error = ApiError {
        message: "m".to_string(),
        type_: "t".to_string(),
        param: None,
        code: None,
    };
    assert_eq!(error.clone().message, "m");
}

#[test]
fn a_header_is_set_in_whatever_case() {
    let err = AppError::new(429, "m", "t")
        .with_header("Retry-After".to_string(), "30".to_string())
        .with_header("x-other".to_string(), "o".to_string())
        .with_header("retry-after".to_string(), "60".to_string());
    assert_eq!(
        err.headers.unwrap(),
        vec![
            ("retry-after".to_string(), "60".to_string()),
            ("x-other".to_string(), "o".to_string()),
        ]
    );
}
