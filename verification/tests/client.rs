use kube_vault::vault::client::strip_leading_slash;
use std::borrow::Cow;

#[test]
fn test_strip_leading_slash() {
    assert_eq!(&strip_leading_slash("/abc/123"), &"abc/123");
    match strip_leading_slash("abc/123") {
        Cow::Borrowed(s) => assert_eq!(s, "abc/123"),
        _ => panic!("Was not borrowed"),
    }
    match strip_leading_slash("/abc/123") {
        Cow::Owned(s) => assert_eq!(s, "abc/123"),
        _ => panic!("Should be owned"),
    }

    match strip_leading_slash("///abc/123") {
        Cow::Owned(s) => assert_eq!(s, "abc/123"),
        _ => panic!("Should be owned"),
    }
}

#[test]
fn only_separators_strip_to_nothing() {
    assert_eq!(strip_leading_slash("///"), "");
    assert_eq!(strip_leading_slash(""), "");
    assert_eq!(strip_leading_slash("a//b"), "a//b");
}

#[test]
fn the_address_of_a_secret_lies_below_its_engine() {
    let base = url::Url::parse("http://vault.example:8200").unwrap();
    let address = kube_vault::vault::client::kv_secret_url(&base, "kv", "/apps/web/db").unwrap();
    assert_eq!(address.as_str(), "http://vault.example:8200/v1/kv/data/apps/web/db");
    let address = kube_vault::vault::client::kv_secret_url(&base, "kv", "apps/web").unwrap();
    assert_eq!(address.as_str(), "http://vault.example:8200/v1/kv/data/apps/web");
}

#[test]
fn names_are_listed_at_the_metadata_of_an_engine() {
    let base = url::Url::parse("https://vault.example/ignored/base").unwrap();
    let address = kube_vault::vault::client::kv_keys_url(&base, "secret", "///apps").unwrap();
    assert_eq!(address.as_str(), "https://vault.example/v1/secret/metadata/apps");
}

#[test]
fn a_base_that_cannot_be_a_base_is_an_invalid_url() {
    let base = url::Url::parse("mailto:ops@example.com").unwrap();
    let failed = kube_vault::vault::client::kv_secret_url(&base, "kv", "apps");
    assert!(matches!(
        failed,
        Err(kube_vault::vault::error::VaultClientError::InvalidUrl(cause)) if !cause.is_empty()
    ));
}

#[test]
fn a_backend_logs_in_below_the_address_of_the_store() {
    let base = url::Url::parse("http://vault.example:8200/").unwrap();
    let backend = kube_vault::vault::auth::Backend::new_from_github_token("t".to_string());
    let address = kube_vault::vault::client::login_address(&base, &backend).unwrap();
    assert_eq!(address.as_str(), "http://vault.example:8200/v1/auth/github/login");
    let resolved = kube_vault::vault::client::resolve(&base, "a/b?c=d").unwrap();
    assert_eq!(resolved.as_str(), "http://vault.example:8200/a/b?c=d");
}

#[test]
fn an_address_is_read_as_its_text() {
    let base = url::Url::parse("HTTP://Vault.Example:8200/a/../b").unwrap();
    assert_eq!(kube_vault::vault::client::address_text(&base), "http://vault.example:8200/b");
}
