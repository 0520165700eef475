use kube_vault::haystack::{build_corpus, Corpus};
use kube_vault::vault::error::VaultClientError;
use kube_vault::vault_path::{SecretMapping, VaultPath};
use kube_vault::verify::{
    secret_requests, verify_mapping, verify_paths_exist, verify_secrets,
    verify_secrets_exist_in_vault, verify_secrets_in_path, Answer,
};

const MANIFEST: &str = r#"
envFrom:
  - secretRef:
      name: shared
  - secretRef:
      name: unmapped-whole
env:
  - valueFrom:
      secretKeyRef:
        name: db
        key: user
  - valueFrom:
      secretKeyRef:
        name: db
        key: password
  - valueFrom:
      secretKeyRef:
        name: unmapped
        key: k
"#;

fn corpus() -> Corpus {
    build_corpus(MANIFEST).unwrap()
}

fn mapping(name: &str, engine: &str, path: &str) -> SecretMapping {
    SecretMapping::new(
        name.to_string(),
        VaultPath { engine: engine.to_string(), path: path.to_string() },
    )
}

fn pairs(items: &[(&str, &str)]) -> Vec<(String, String)> {
    items.iter().map(|(k, v)| (k.to_string(), v.to_string())).collect()
}

fn strings(items: &[&str]) -> Vec<String> {
    items.iter().map(|s| s.to_string()).collect()
}

#[test]
fn listed_secrets_are_verified() {
    let names = strings(&["db", "api", "tls"]);
    let listed = Ok(strings(&["tls", "db", "other"]));
    let checked = verify_paths_exist(&names, "kv", "apps/web", &listed);
    assert_eq!(
        checked,
        Ok(strings(&["Secret 'db' maps to kv:apps/web/db", "Secret 'tls' maps to kv:apps/web/tls"]))
    );
    assert_eq!(verify_paths_exist(&names, "kv", "apps", &Ok(vec![])), Ok(vec![]));
}

#[test]
fn a_failed_listing_is_one_complaint() {
    let names = strings(&["db"]);
    let listed = Err(VaultClientError::NotFound("http://vault/v1/kv/metadata/apps".to_string()));
    assert_eq!(
        verify_paths_exist(&names, "kv", "apps", &listed),
        Err(strings(&["Client Error: Not Found: http://vault/v1/kv/metadata/apps"]))
    );
}

#[test]
fn the_secrets_of_a_corpus_are_checked_against_a_listing() {
    let listed = Ok(strings(&["db", "shared"]));
    assert_eq!(
        verify_mapping(&corpus(), "kv", "apps", &listed),
        Ok(strings(&["Secret 'shared' maps to kv:apps/shared", "Secret 'db' maps to kv:apps/db"]))
    );
}

#[test]
fn only_mapped_secrets_are_asked_for() {
    let mappings = vec![mapping("db", "kv", "apps/db"), mapping("shared", "kv2", "apps/shared")];
    let requests = secret_requests(&mappings, &corpus());
    let places: Vec<(&str, &str)> =
        requests.iter().map(|p| (p.engine.as_str(), p.path.as_str())).collect();
    assert_eq!(places, vec![("kv2", "apps/shared"), ("kv", "apps/db")]);
    assert!(secret_requests(&[], &Corpus::new(vec![])).is_empty());
}

#[test]
fn everything_in_place_is_verified() {
    let mappings = vec![
        mapping("db", "kv", "apps/db"),
        mapping("shared", "kv", "apps/shared"),
        mapping("unmapped", "kv", "apps/u"),
    ];
    let answers: Vec<Answer> = vec![
        Ok(pairs(&[("A", "1")])),
        Ok(pairs(&[("password", "x"), ("user", "y")])),
        Ok(pairs(&[("k", "v")])),
    ];
    assert_eq!(
        verify_secrets_exist_in_vault(&mappings, &corpus(), &answers),
        Ok(strings(&[
            "shared maps to kv:apps/shared",
            "db:user maps to kv:apps/db/user",
            "db:password maps to kv:apps/db/password",
            "unmapped:k maps to kv:apps/u/k",
        ]))
    );
}

#[test]
fn every_complaint_is_collected() {
    let mappings = vec![mapping("db", "kv", "apps/db"), mapping("shared", "kv", "apps/shared")];
    let answers: Vec<Answer> = vec![Ok(vec![]), Ok(pairs(&[("user", "y")]))];
    assert_eq!(
        verify_secrets_exist_in_vault(&mappings, &corpus(), &answers),
        Err(strings(&[
            "No secrets for 'shared' found at kv:apps/shared",
            "Key 'password' for secret 'db' not found in kv:apps/db",
            "Couldn't find a vault mapping for kubernetes secret unmapped",
        ]))
    );
}

#[test]
fn a_failed_request_is_a_complaint() {
    let mappings = vec![mapping("db", "kv", "apps/db"), mapping("shared", "kv", "apps/shared")];
    let answers: Vec<Answer> = vec![
        Err(VaultClientError::NotAuthorized("denied".to_string())),
        Err(VaultClientError::Unknown("down".to_string())),
    ];
    assert_eq!(
        verify_secrets_exist_in_vault(&mappings, &corpus(), &answers),
        Err(strings(&[
            "Vault client error: Not Authorized: denied",
            "Vault client error: Unknown Client error: down",
            "Couldn't find a vault mapping for kubernetes secret unmapped",
        ]))
    );
}

#[test]
fn the_first_mapping_of_a_name_counts() {
    let mappings = vec![mapping("shared", "first", "a"), mapping("shared", "second", "b")];
    let doc = build_corpus("x:\n  secretRef:\n    name: shared\n").unwrap();
    let requests = secret_requests(&mappings, &doc);
    assert_eq!(requests.len(), 1);
    assert_eq!(requests[0].engine, "first");
    let answers: Vec<Answer> = vec![Ok(pairs(&[("k", "v")]))];
    assert_eq!(
        verify_secrets_exist_in_vault(&mappings, &doc, &answers),
        Ok(strings(&["shared maps to first:a"]))
    );
}

#[test]
fn the_client_is_asked_for_each_place_in_turn() {
    let mappings = vec![mapping("db", "kv", "apps/db"), mapping("shared", "kv", "apps/shared")];
    let asked = std::cell::RefCell::new(Vec::new());
    let checked = verify_secrets(&mappings, &corpus(), |place: &VaultPath| {
        asked.borrow_mut().push(place.path.clone());
        if place.path == "apps/db" {
            Ok(pairs(&[("user", "u"), ("password", "p")]))
        } else {
            Ok(pairs(&[("x", "y")]))
        }
    });
    assert_eq!(*asked.borrow(), strings(&["apps/shared", "apps/db"]));
    assert_eq!(
        checked,
        Err(strings(&["Couldn't find a vault mapping for kubernetes secret unmapped"]))
    );
}

#[test]
fn a_path_is_listed_once() {
    let place = VaultPath { engine: "kv".to_string(), path: "apps".to_string() };
    let calls = std::cell::Cell::new(0);
    let checked = verify_secrets_in_path(&place, &corpus(), |asked: &VaultPath| {
        calls.set(calls.get() + 1);
        assert_eq!(asked.path, "apps");
        Ok(strings(&["unmapped", "db", "shared", "unmapped-whole"]))
    });
    assert_eq!(calls.get(), 1);
    assert_eq!(
        checked,
        Ok(strings(&[
            "Secret 'shared' maps to kv:apps/shared",
            "Secret 'unmapped-whole' maps to kv:apps/unmapped-whole",
            "Secret 'db' maps to kv:apps/db",
            "Secret 'unmapped' maps to kv:apps/unmapped",
        ]))
    );
}
