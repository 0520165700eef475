use kube_vault::haystack::{build_corpus, Corpus};
use kube_vault::report::list_secrets;

#[test]
fn an_empty_corpus_lists_nothing() {
    let lines = list_secrets(&Corpus::new(vec![]));
    assert_eq!(
        lines,
        vec![
            "REFERENCES TO WHOLE SECRETS",
            "(None)",
            "",
            "REFERENCES TO SECRET KEYS",
            "(None)",
            "",
            "VOLUME SECRETS",
            "(None)",
        ]
    );
}

#[test]
fn the_listing_names_every_reference() {
    let manifest = r#"
volumes:
  - name: creds
    secret:
      secretName: db-creds
containers:
  - name: app
    args: ["--file=/secrets/db/password"]
    env:
      - valueFrom:
          secretKeyRef:
            name: db
            key: user
      - valueFrom:
          secretKeyRef:
            name: db
            key: password
    envFrom:
      - secretRef:
          name: shared
    volumeMounts:
      - name: creds
        mountPath: /secrets/db
"#;
    let lines = list_secrets(&build_corpus(manifest).unwrap());
    assert_eq!(
        lines,
        vec![
            "REFERENCES TO WHOLE SECRETS",
            "  Secret 'shared'",
            "",
            "REFERENCES TO SECRET KEYS",
            "  Secret 'db':",
            "    user",
            "    password",
            "",
            "VOLUME SECRETS",
            "   Secret 'db-creds':",
            "    Container: app",
            "    Volume Name: creds",
            "    Mount Paths:",
            "      /secrets/db",
            "    Usages in deployment:",
            "      --file=/secrets/db/password",
        ]
    );
}
