use kube_vault::vault::error::VaultClientError;

#[test]
fn an_answer_is_told_by_its_status() {
    let e = VaultClientError::from_http(Some(401), Some("u".to_string()), "c".to_string());
    assert!(matches!(e, VaultClientError::NotAuthorized(cause) if cause == "c"));
    let e = VaultClientError::from_http(Some(403), None, "c".to_string());
    assert!(matches!(e, VaultClientError::NotAuthorized(cause) if cause == "c"));
    let e = VaultClientError::from_http(Some(404), Some("http://v/x".to_string()), "c".to_string());
    assert!(matches!(e, VaultClientError::NotFound(url) if url == "http://v/x"));
    let e = VaultClientError::from_http(Some(404), None, "c".to_string());
    assert!(matches!(e, VaultClientError::NotFound(url) if url.is_empty()));
    let e = VaultClientError::from_http(Some(500), Some("u".to_string()), "c".to_string());
    assert!(matches!(e, VaultClientError::Unknown(cause) if cause == "c"));
    let e = VaultClientError::from_http(None, Some("u".to_string()), "c".to_string());
    assert!(matches!(e, VaultClientError::Unknown(cause) if cause == "c"));
}

#[test]
fn other_failures_keep_their_kind() {
    let e = VaultClientError::from_url_error("relative URL without a base".to_string());
    assert!(matches!(e, VaultClientError::InvalidUrl(_)));
    let e = VaultClientError::from_json_error("eof".to_string());
    assert!(matches!(e, VaultClientError::InvalidPayload(_)));
}

#[test]
fn an_error_says_what_went_wrong() {
    assert_eq!(VaultClientError::NotFound("http://v/x".to_string()).describe(), "Not Found: http://v/x");
    assert_eq!(VaultClientError::NotAuthorized("no".to_string()).describe(), "Not Authorized: no");
    assert_eq!(VaultClientError::InvalidUrl("bad".to_string()).describe(), "Invalid Url: bad");
    assert_eq!(
        VaultClientError::InvalidPayload("bad".to_string()).describe(),
        "Invalid Payload: bad"
    );
    assert_eq!(
        VaultClientError::Unknown("boom".to_string()).describe(),
        "Unknown Client error: boom"
    );
}
