use kube_vault::export::{secrets_in_path, single_secret};
use kube_vault::vault::error::VaultClientError;
use kube_vault::vault_path::{
    join_path, parse_mappings, parse_vault_path, validate_mapping, validate_vault_path,
    SecretMapping, VaultPath,
};

fn path(engine: &str, path: &str) -> VaultPath {
    VaultPath { engine: engine.to_string(), path: path.to_string() }
}

#[test]
fn a_key_is_joined_with_one_separator() {
    assert_eq!(join_path(&path("kv", "apps/web"), "db").path, "apps/web/db");
    assert_eq!(join_path(&path("kv", "apps/web/"), "db").path, "apps/web/db");
    assert_eq!(join_path(&path("kv", ""), "db").path, "/db");
    assert_eq!(join_path(&path("kv", "/"), "db").path, "/db");
    assert_eq!(join_path(&path("kv", "a//"), "").path, "a//");
    assert_eq!(join_path(&path("kv", "apps"), "db").engine, "kv");
}

#[test]
fn a_mapping_holds_what_it_was_given() {
    let m = SecretMapping::new("db".to_string(), path("kv", "apps/db"));
    assert_eq!(m.kubernetes_name, "db");
    assert_eq!(m.vault_path.engine, "kv");
    assert_eq!(m.vault_path.path, "apps/db");
}

#[test]
fn names_are_mapped_below_a_path() {
    let names = vec!["db".to_string(), "api".to_string()];
    let mappings = SecretMapping::from_secret_names_and_vault_path(names, path("kv", "apps/web"));
    assert_eq!(mappings.len(), 2);
    assert_eq!(mappings[0].kubernetes_name, "db");
    assert_eq!(mappings[0].vault_path.path, "apps/web/db");
    assert_eq!(mappings[0].vault_path.engine, "kv");
    assert_eq!(mappings[1].kubernetes_name, "api");
    assert_eq!(mappings[1].vault_path.path, "apps/web/api");
    let slashed =
        SecretMapping::from_secret_names_and_vault_path(vec!["x".to_string()], path("kv", "a/"));
    assert_eq!(slashed[0].vault_path.path, "a/x");
    assert!(SecretMapping::from_secret_names_and_vault_path(vec![], path("kv", "a")).is_empty());
}

#[test]
fn a_vault_path_needs_a_colon() {
    assert_eq!(validate_vault_path("kv:apps/web"), Ok(()));
    assert_eq!(validate_vault_path(":"), Ok(()));
    assert_eq!(
        validate_vault_path("apps/web"),
        Err("Invalid vault path: apps/web.  Path should have the pattern 'engine:path/to/secret'"
            .to_string())
    );
    assert!(validate_vault_path("").is_err());
}

#[test]
fn a_mapping_needs_an_equals_sign_and_a_colon() {
    assert_eq!(validate_mapping("db=kv:apps/db".to_string()), Ok(()));
    assert_eq!(validate_mapping("db=kv:a=b".to_string()), Ok(()));
    assert_eq!(
        validate_mapping("db:kv".to_string()),
        Err("Invalid mapping (missing =): db:kv".to_string())
    );
    assert_eq!(
        validate_mapping("a:b=apps".to_string()),
        Err("Invalid vault path: apps.  Path should have the pattern 'engine:path/to/secret'"
            .to_string())
    );
}

#[test]
fn a_vault_path_is_cut_at_the_first_colon() {
    let p = parse_vault_path("kv:apps/web");
    assert_eq!(p.engine, "kv");
    assert_eq!(p.path, "apps/web");
    let p = parse_vault_path("kv:a:b");
    assert_eq!(p.engine, "kv");
    assert_eq!(p.path, "a:b");
    let p = parse_vault_path(":");
    assert_eq!(p.engine, "");
    assert_eq!(p.path, "");
}

#[test]
fn mappings_are_cut_at_the_first_equals_sign() {
    let parsed = parse_mappings(&vec!["db=kv:apps/db".to_string(), "x=e:p=q".to_string()]);
    assert_eq!(parsed.len(), 2);
    assert_eq!(parsed[0].kubernetes_name, "db");
    assert_eq!(parsed[0].vault_path.engine, "kv");
    assert_eq!(parsed[0].vault_path.path, "apps/db");
    assert_eq!(parsed[1].kubernetes_name, "x");
    assert_eq!(parsed[1].vault_path.engine, "e");
    assert_eq!(parsed[1].vault_path.path, "p=q");
}

#[test]
fn listed_names_become_mappings() {
    let found = secrets_in_path(Ok(vec!["a".to_string(), "b".to_string()]), &path("kv", "apps"))
        .unwrap();
    assert_eq!(found.len(), 2);
    assert_eq!(found[1].kubernetes_name, "b");
    assert_eq!(found[1].vault_path.path, "apps/b");
    let failed = secrets_in_path(Err(VaultClientError::Unknown("down".to_string())), &path("kv", "a"));
    assert!(matches!(failed, Err(VaultClientError::Unknown(cause)) if cause == "down"));
}

#[test]
fn one_key_is_read_from_a_secret() {
    let pairs = vec![
        ("user".to_string(), "admin".to_string()),
        ("password".to_string(), "hunter2".to_string()),
    ];
    assert_eq!(single_secret(Ok(pairs.clone()), "password").unwrap(), Some("hunter2".to_string()));
    assert_eq!(single_secret(Ok(pairs), "missing").unwrap(), None);
    let failed = single_secret(Err(VaultClientError::NotFound("u".to_string())), "k");
    assert!(matches!(failed, Err(VaultClientError::NotFound(_))));
}
