use kube_vault::generate::{with_leading_slash, SecretsTemplate};

#[test]
fn values_are_written_in_base64() {
    let data = vec![
        ("user".to_string(), "hello".to_string()),
        ("empty".to_string(), String::new()),
        ("password".to_string(), "hunter2!".to_string()),
    ];
    let template = SecretsTemplate::new("http://vault:8200/", "db", "prod", "kv", "apps/db", data);
    assert_eq!(template.vault_addr, "http://vault:8200/");
    assert_eq!(template.secret_name, "db");
    assert_eq!(template.namespace, "prod");
    assert_eq!(template.vault_engine, "kv");
    assert_eq!(template.vault_path, "apps/db");
    assert_eq!(
        template.encoded_data,
        vec![
            ("user".to_string(), "aGVsbG8=".to_string()),
            ("empty".to_string(), String::new()),
            ("password".to_string(), "aHVudGVyMiE=".to_string()),
        ]
    );
}

#[test]
fn a_path_gets_one_leading_separator() {
    assert_eq!(with_leading_slash("apps/db"), "/apps/db");
    assert_eq!(with_leading_slash("/apps/db"), "/apps/db");
    assert_eq!(with_leading_slash(""), "/");
    assert_eq!(with_leading_slash("//x"), "//x");
}
