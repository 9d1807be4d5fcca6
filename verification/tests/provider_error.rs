use adaclaw::providers::error::{classify_error, ChatError, ProviderError, ProviderErrorKind};

#[test]
fn test_from_status_400() {
    let e = ProviderError::from_status(400, "bad request", None);
    assert_eq!(e.kind, ProviderErrorKind::BadRequest);
    assert!(!e.kind.is_retryable());
    assert!(!e.kind.counts_as_circuit_failure());
}

#[test]
fn test_from_status_401() {
    let e = ProviderError::from_status(401, "unauthorized", None);
    assert_eq!(e.kind, ProviderErrorKind::AuthError);
    assert!(!e.kind.is_retryable());
    assert!(!e.kind.counts_as_circuit_failure());
}

#[test]
fn test_from_status_402_billing() {
    let e = ProviderError::from_status(402, "payment required", None);
    assert_eq!(e.kind, ProviderErrorKind::Billing);
    assert!(!e.kind.is_retryable());
    assert!(e.kind.counts_as_circuit_failure());
}

#[test]
fn test_from_status_403() {
    let e = ProviderError::from_status(403, "forbidden", None);
    assert_eq!(e.kind, ProviderErrorKind::AuthError);
}

#[test]
fn test_from_status_408_timeout() {
    let e = ProviderError::from_status(408, "request timeout", None);
    assert_eq!(e.kind, ProviderErrorKind::Timeout);
    assert!(e.kind.is_retryable());
    assert!(e.kind.counts_as_circuit_failure());
}

#[test]
fn test_from_status_429_with_retry_after() {
    let e = ProviderError::from_status(429, "rate limited", Some(30));
    assert_eq!(e.kind, ProviderErrorKind::RateLimit);
    assert_eq!(e.retry_after_secs, Some(30));
    assert!(!e.kind.is_retryable());
    assert!(e.kind.counts_as_circuit_failure());
}

#[test]
fn test_from_status_500() {
    let e = ProviderError::from_status(500, "internal error", None);
    assert_eq!(e.kind, ProviderErrorKind::ServerError);
    assert!(e.kind.is_retryable());
    assert!(e.kind.counts_as_circuit_failure());
}

#[test]
fn test_from_status_unknown() {
    let e = ProviderError::from_status(418, "I'm a teapot", None);
    assert_eq!(e.kind, ProviderErrorKind::Unknown);
    assert!(e.kind.is_retryable());
}

#[test]
fn test_classify_error_downcast() {
    let pe = ProviderError::from_status(429, "rate limited", Some(10));
    let ae = ChatError::Provider(pe);
    assert_eq!(classify_error(&ae), ProviderErrorKind::RateLimit);
}

#[test]
fn test_classify_error_downcast_billing() {
    let pe = ProviderError::from_status(402, "payment required", None);
    let ae = ChatError::Provider(pe);
    assert_eq!(classify_error(&ae), ProviderErrorKind::Billing);
}

#[test]
fn test_classify_rate_limit_429_string() {
    assert_eq!(classify_error(&ChatError::Other("HTTP 429 Too Many Requests".to_string())), ProviderErrorKind::RateLimit);
}

#[test]
fn test_classify_rate_limit_patterns() {
    for pattern in &[
        "rate limit exceeded", "rate_limit reached", "too many requests",
        "exceeded your current quota", "resource has been exhausted",
        "resource_exhausted", "quota exceeded", "usage limit reached",
    ] {
        assert_eq!(classify_error(&ChatError::Other(pattern.to_string())), ProviderErrorKind::RateLimit,
            "pattern should classify as RateLimit: {pattern}");
    }
}

#[test]
fn test_classify_overloaded_as_rate_limit() {
    for pattern in &["overloaded_error", r#"{"type": "overloaded_error"}"#, "server is overloaded"] {
        assert_eq!(classify_error(&ChatError::Other(pattern.to_string())), ProviderErrorKind::RateLimit,
            "overloaded should → RateLimit: {pattern}");
    }
}

#[test]
fn test_classify_billing_patterns() {
    for pattern in &[
        "402 payment required", "payment required", "insufficient credits to complete the request",
        "credit balance too low", "visit plans & billing page", "insufficient balance in your account",
    ] {
        assert_eq!(classify_error(&ChatError::Other(pattern.to_string())), ProviderErrorKind::Billing,
            "billing pattern: {pattern}");
    }
}

#[test]
fn test_classify_timeout_patterns() {
    for pattern in &[
        "408 request timeout", "request timeout", "connection timed out",
        "deadline exceeded", "context deadline exceeded",
    ] {
        assert_eq!(classify_error(&ChatError::Other(pattern.to_string())), ProviderErrorKind::Timeout,
            "timeout pattern: {pattern}");
    }
}

#[test]
fn test_classify_auth_patterns() {
    for pattern in &[
        "HTTP 401 Unauthorized: invalid api key", "invalid_api_key",
        "incorrect api key provided", "authentication failed",
        "re-authenticate to continue", "oauth token refresh failed",
        "access denied for this resource", "token has expired",
        "no credentials found", "no api key found",
    ] {
        assert_eq!(classify_error(&ChatError::Other(pattern.to_string())), ProviderErrorKind::AuthError,
            "auth pattern: {pattern}");
    }
}

#[test]
fn test_classify_bad_request_patterns() {
    for pattern in &[
        "HTTP 400 Bad Request: invalid_request_error", "invalid request format",
        "string should match pattern for tool_use.id", "tool_use.id is required",
        "messages.1.content.1.tool_use.id must be a string",
    ] {
        assert_eq!(classify_error(&ChatError::Other(pattern.to_string())), ProviderErrorKind::BadRequest,
            "bad request pattern: {pattern}");
    }
}

#[test]
fn test_classify_server_error_patterns() {
    for pattern in &["HTTP 500 internal server error", "502 bad gateway", "503 service unavailable"] {
        assert_eq!(classify_error(&ChatError::Other(pattern.to_string())), ProviderErrorKind::ServerError,
            "server error pattern: {pattern}");
    }
}

#[test]
fn test_classify_unknown() {
    assert_eq!(classify_error(&ChatError::Other("some completely random error".to_string())), ProviderErrorKind::Unknown);
}

#[test]
fn test_display() {
    let e = ProviderError::from_status(429, "rate limited", Some(30));
    assert!(e.to_text().contains("429"));
    assert!(e.to_text().contains("RateLimit"));
}

#[test]
fn test_display_billing() {
    let e = ProviderError::from_status(402, "insufficient credits", None);
    assert!(e.to_text().contains("402"));
    assert!(e.to_text().contains("Billing"));
}

#[test]
fn test_display_timeout() {
    let e = ProviderError::from_status(408, "request timeout", None);
    assert!(e.to_text().contains("408"));
    assert!(e.to_text().contains("Timeout"));
}
