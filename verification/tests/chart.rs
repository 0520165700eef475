use kube_vault::chart::{
    filter_map_secret_key_ref, filter_map_secret_ref, filter_map_vol_secrets,
    filter_map_vol_usages, find_all_vol_usages, find_secret_key_refs, find_secret_refs,
    find_vol_secrets, find_vol_usages, grouped_secret_key_refs, grouped_secret_refs,
    grouped_vol_secrets, referenced_k8s_secret_names, VolumeSecret,
};
use kube_vault::haystack::{build_corpus, Corpus};
use kube_vault::tree::{MapNode, Node};

const DEPLOYMENT: &str = r#"
apiVersion: apps/v1
kind: Deployment
metadata:
  name: web
spec:
  template:
    spec:
      volumes:
        - name: creds
          secret:
            secretName: db-creds
        - name: scratch
          emptyDir: {}
        - name: tls
          secret:
            secretName: web-tls
      containers:
        - name: app
          image: example/app:1
          args:
            - --db-password-file=/var/secrets/db/password
            - --plain=/var/secrets/db
          env:
            - name: DB_USER
              valueFrom:
                secretKeyRef:
                  name: db
                  key: user
            - name: DB_PASSWORD
              valueFrom:
                secretKeyRef:
                  name: db
                  key: password
            - name: API_TOKEN
              valueFrom:
                secretKeyRef:
                  name: api
                  key: token
          envFrom:
            - secretRef:
                name: shared-env
          volumeMounts:
            - name: creds
              mountPath: /var/secrets/db
            - name: scratch
              mountPath: /tmp/scratch
        - image: example/sidecar:2
          command: ["/bin/watch", "/etc/tls/cert.pem", "/etc/tls"]
          volumeMounts:
            - name: tls
              mountPath: /etc/tls
"#;

fn text(s: &str) -> Node {
    Node::String(s.to_string())
}

fn map_node(entries: Vec<(&str, Node)>) -> MapNode {
    MapNode {
        entries: entries.into_iter().map(|(k, v)| (text(k), v)).collect(),
    }
}

fn mapping(entries: Vec<(&str, Node)>) -> Node {
    Node::Mapping(map_node(entries))
}

fn deployment() -> Corpus {
    build_corpus(DEPLOYMENT).unwrap()
}

#[test]
fn a_key_reference_is_recognised() {
    let m = map_node(vec![(
        "secretKeyRef",
        mapping(vec![("name", text("db")), ("key", text("password"))]),
    )]);
    let found = filter_map_secret_key_ref(&m).unwrap();
    assert_eq!(found.name, "db");
    assert_eq!(found.key, "password");
    let corpus = Corpus::new(vec![Node::Mapping(m)]);
    assert_eq!(find_secret_key_refs(&corpus).len(), 1);
}

#[test]
fn a_scalar_under_secret_key_ref_is_no_reference() {
    let m = map_node(vec![("secretKeyRef", text("db"))]);
    assert!(filter_map_secret_key_ref(&m).is_none());
    let m = map_node(vec![("secretKeyRef", Node::Sequence(vec![text("db")]))]);
    assert!(filter_map_secret_key_ref(&m).is_none());
    let m = map_node(vec![("secretKeyRef", Node::Null)]);
    assert!(filter_map_secret_key_ref(&m).is_none());
    let corpus = build_corpus("env:\n  - secretKeyRef: just-a-string\n").unwrap();
    assert!(find_secret_key_refs(&corpus).is_empty());
    assert!(grouped_secret_key_refs(&corpus).is_empty());
}

#[test]
fn a_key_reference_needs_name_and_key_as_strings() {
    let m = map_node(vec![("secretKeyRef", mapping(vec![("name", text("db"))]))]);
    assert!(filter_map_secret_key_ref(&m).is_none());
    let m = map_node(vec![("secretKeyRef", mapping(vec![("key", text("k"))]))]);
    assert!(filter_map_secret_key_ref(&m).is_none());
    let m = map_node(vec![(
        "secretKeyRef",
        mapping(vec![("name", Node::Bool(true)), ("key", text("k"))]),
    )]);
    assert!(filter_map_secret_key_ref(&m).is_none());
    let m = map_node(vec![("other", text("x"))]);
    assert!(filter_map_secret_key_ref(&m).is_none());
}

#[test]
fn a_whole_secret_reference_is_recognised() {
    let m = map_node(vec![("secretRef", mapping(vec![("name", text("shared"))]))]);
    assert_eq!(filter_map_secret_ref(&m).unwrap().0, "shared");
    let m = map_node(vec![("secretRef", text("shared"))]);
    assert!(filter_map_secret_ref(&m).is_none());
    let m = map_node(vec![("secretRef", mapping(vec![("name", Node::Null)]))]);
    assert!(filter_map_secret_ref(&m).is_none());
}

#[test]
fn references_are_found_in_document_order() {
    let corpus = deployment();
    let refs = find_secret_key_refs(&corpus);
    let pairs: Vec<(&str, &str)> = refs.iter().map(|r| (r.name.as_str(), r.key.as_str())).collect();
    assert_eq!(pairs, vec![("db", "user"), ("db", "password"), ("api", "token")]);
    let whole = find_secret_refs(&corpus);
    assert_eq!(whole.len(), 1);
    assert_eq!(whole[0].0, "shared-env");
    assert_eq!(grouped_secret_refs(&corpus), vec!["shared-env"]);
}

#[test]
fn keys_are_grouped_by_secret_in_first_seen_order() {
    let corpus = deployment();
    let groups = grouped_secret_key_refs(&corpus);
    assert_eq!(groups.len(), 2);
    assert_eq!(groups[0].name, "db");
    assert_eq!(groups[0].members, vec!["user", "password"]);
    assert_eq!(groups[1].name, "api");
    assert_eq!(groups[1].members, vec!["token"]);
}

#[test]
fn two_keys_of_one_secret_make_one_group() {
    let doc = Node::Sequence(vec![
        mapping(vec![(
            "secretKeyRef",
            mapping(vec![("name", text("db")), ("key", text("password"))]),
        )]),
        mapping(vec![(
            "secretKeyRef",
            mapping(vec![("name", text("db")), ("key", text("user"))]),
        )]),
    ]);
    let groups = grouped_secret_key_refs(&Corpus::new(vec![doc]));
    assert_eq!(groups.len(), 1);
    assert_eq!(groups[0].name, "db");
    assert_eq!(groups[0].members, vec!["password", "user"]);
}

#[test]
fn volumes_backed_by_secrets_are_found() {
    let corpus = deployment();
    let found = find_vol_secrets(&corpus);
    let pairs: Vec<(&str, &str)> = found
        .iter()
        .map(|v| (v.volume_name.as_str(), v.secret_name.as_str()))
        .collect();
    assert_eq!(pairs, vec![("creds", "db-creds"), ("tls", "web-tls")]);
}

#[test]
fn a_mapping_without_volumes_declares_none() {
    assert!(filter_map_vol_secrets(&map_node(vec![("name", text("x"))])).is_none());
    assert!(filter_map_vol_secrets(&map_node(vec![("volumes", text("x"))])).is_none());
    let empty = filter_map_vol_secrets(&map_node(vec![("volumes", Node::Sequence(vec![]))]));
    assert_eq!(empty.unwrap().len(), 0);
}

#[test]
fn volumes_of_another_shape_are_passed_over() {
    let m = map_node(vec![(
        "volumes",
        Node::Sequence(vec![
            text("not a mapping"),
            mapping(vec![("name", text("a")), ("secret", text("scalar"))]),
            mapping(vec![("secret", mapping(vec![("secretName", text("s"))]))]),
            mapping(vec![("name", text("b")), ("secret", mapping(vec![]))]),
            mapping(vec![
                ("name", text("good")),
                ("secret", mapping(vec![("secretName", text("s"))])),
            ]),
            mapping(vec![
                ("name", Node::Bool(false)),
                ("secret", mapping(vec![("secretName", text("s"))])),
            ]),
        ]),
    )]);
    let found = filter_map_vol_secrets(&m).unwrap();
    assert_eq!(found.len(), 1);
    assert_eq!(found[0].volume_name, "good");
    assert_eq!(found[0].secret_name, "s");
}

#[test]
fn a_mounted_path_is_a_usage_only_with_something_below_it() {
    let container = mapping(vec![
        ("name", text("app")),
        ("arg", text("/var/secrets/db/password")),
        ("bare", text("/var/secrets/db")),
        (
            "volumeMounts",
            Node::Sequence(vec![mapping(vec![
                ("name", text("creds")),
                ("mountPath", text("/var/secrets/db")),
            ])]),
        ),
    ]);
    let pod = map_node(vec![("containers", Node::Sequence(vec![container]))]);
    let secret = VolumeSecret {
        volume_name: "creds".to_string(),
        secret_name: "db-creds".to_string(),
    };
    let usages = filter_map_vol_usages(&pod, &secret).unwrap();
    assert_eq!(usages.len(), 1);
    let usage = &usages[0];
    assert_eq!(usage.volume_name, "creds");
    assert_eq!(usage.secret_name, "db-creds");
    assert_eq!(usage.mounted_in, "app");
    assert_eq!(usage.mount_paths, vec!["/var/secrets/db"]);
    assert_eq!(usage.usages, vec!["/var/secrets/db/password"]);
    assert!(!usage.usages.contains(&"/var/secrets/db".to_string()));
}

#[test]
fn a_container_without_a_name_is_known_by_its_image() {
    let corpus = deployment();
    let secrets = find_vol_secrets(&corpus);
    let usages = find_vol_usages(&corpus, &secrets[1]);
    assert_eq!(usages.len(), 1);
    assert_eq!(usages[0].mounted_in, "example/sidecar:2");
    assert_eq!(usages[0].mount_paths, vec!["/etc/tls"]);
    assert_eq!(usages[0].usages, vec!["/etc/tls/cert.pem"]);
}

#[test]
fn usages_are_found_for_every_volume() {
    let corpus = deployment();
    let secrets = find_vol_secrets(&corpus);
    let usages = find_all_vol_usages(&corpus, &secrets);
    assert_eq!(usages.len(), 2);
    assert_eq!(usages[0].secret_name, "db-creds");
    assert_eq!(usages[0].mounted_in, "app");
    assert_eq!(usages[0].usages, vec!["--db-password-file=/var/secrets/db/password"]);
    assert_eq!(usages[1].secret_name, "web-tls");
    let groups = grouped_vol_secrets(&corpus);
    assert_eq!(groups.len(), 2);
    assert_eq!(groups[0].name, "db-creds");
    assert_eq!(groups[0].members.len(), 1);
    assert_eq!(groups[1].name, "web-tls");
}

#[test]
fn a_container_that_does_not_mount_the_volume_gives_no_record() {
    let container = mapping(vec![
        ("name", text("app")),
        ("arg", text("/var/secrets/db/password")),
        (
            "volumeMounts",
            Node::Sequence(vec![mapping(vec![
                ("name", text("other")),
                ("mountPath", text("/var/secrets/db")),
            ])]),
        ),
    ]);
    let pod = map_node(vec![("containers", Node::Sequence(vec![container]))]);
    let secret = VolumeSecret {
        volume_name: "creds".to_string(),
        secret_name: "db-creds".to_string(),
    };
    assert_eq!(filter_map_vol_usages(&pod, &secret).unwrap().len(), 0);
}

#[test]
fn a_container_of_another_shape_is_passed_over() {
    let good = mapping(vec![
        ("name", text("app")),
        ("arg", text("/s/x")),
        (
            "volumeMounts",
            Node::Sequence(vec![mapping(vec![("name", text("v")), ("mountPath", text("/s"))])]),
        ),
    ]);
    let without_mounts = mapping(vec![("name", text("bare"))]);
    let nameless = mapping(vec![(
        "volumeMounts",
        Node::Sequence(vec![mapping(vec![("name", text("v")), ("mountPath", text("/s"))])]),
    )]);
    let mounts_are_no_list = mapping(vec![("name", text("odd")), ("volumeMounts", text("v"))]);
    let secret = VolumeSecret { volume_name: "v".to_string(), secret_name: "s".to_string() };
    let pod = map_node(vec![(
        "containers",
        Node::Sequence(vec![
            text("scalar"),
            without_mounts,
            good,
            nameless,
            mounts_are_no_list,
            Node::Null,
        ]),
    )]);
    let usages = filter_map_vol_usages(&pod, &secret).unwrap();
    assert_eq!(usages.len(), 1);
    assert_eq!(usages[0].mounted_in, "app");
    assert_eq!(usages[0].mount_paths, vec!["/s"]);
    assert_eq!(usages[0].usages, vec!["/s/x"]);
    let pod = map_node(vec![("containers", Node::Sequence(vec![text("scalar")]))]);
    assert_eq!(filter_map_vol_usages(&pod, &secret).unwrap().len(), 0);
    let pod = map_node(vec![("containers", Node::Sequence(vec![]))]);
    assert_eq!(filter_map_vol_usages(&pod, &secret).unwrap().len(), 0);
}

#[test]
fn a_mapping_without_a_list_of_containers_has_no_usages() {
    let secret = VolumeSecret { volume_name: "v".to_string(), secret_name: "s".to_string() };
    let pod = map_node(vec![("containers", text("scalar"))]);
    assert!(filter_map_vol_usages(&pod, &secret).is_none());
    assert!(filter_map_vol_usages(&map_node(vec![]), &secret).is_none());
}

#[test]
fn a_container_that_mounts_nothing_leaves_the_others_alone() {
    let corpus = build_corpus(
        "containers: [{name: a, volumeMounts: [{name: creds, mountPath: /s}]}, {name: b}]",
    )
    .unwrap();
    let m = corpus.documents()[0].as_mapping().unwrap();
    let secret = VolumeSecret {
        volume_name: "creds".to_string(),
        secret_name: "db-creds".to_string(),
    };
    let usages = filter_map_vol_usages(m, &secret).unwrap();
    assert_eq!(usages.len(), 1);
    assert_eq!(usages[0].volume_name, "creds");
    assert_eq!(usages[0].secret_name, "db-creds");
    assert_eq!(usages[0].mounted_in, "a");
    assert_eq!(usages[0].mount_paths, vec!["/s"]);
    assert!(usages[0].usages.is_empty());
    assert_eq!(find_vol_usages(&corpus, &secret).len(), 1);
}

#[test]
fn a_name_that_is_no_string_is_not_replaced_by_the_image() {
    let mount = mapping(vec![("name", text("v")), ("mountPath", text("/s"))]);
    let odd = mapping(vec![
        ("name", Node::Bool(true)),
        ("image", text("img")),
        ("volumeMounts", Node::Sequence(vec![mount])),
    ]);
    let mount = mapping(vec![("name", text("v")), ("mountPath", text("/s"))]);
    let by_image = mapping(vec![
        ("image", text("img")),
        ("volumeMounts", Node::Sequence(vec![mount])),
    ]);
    let secret = VolumeSecret { volume_name: "v".to_string(), secret_name: "s".to_string() };
    let pod = map_node(vec![("containers", Node::Sequence(vec![odd, by_image]))]);
    let usages = filter_map_vol_usages(&pod, &secret).unwrap();
    assert_eq!(usages.len(), 1);
    assert_eq!(usages[0].mounted_in, "img");
}

#[test]
fn mounts_of_another_shape_are_passed_over() {
    let container = mapping(vec![
        ("name", text("app")),
        ("a", text("/one/x")),
        ("b", text("/two/y")),
        (
            "volumeMounts",
            Node::Sequence(vec![
                text("scalar"),
                mapping(vec![("name", text("v"))]),
                mapping(vec![("name", text("v")), ("mountPath", Node::Null)]),
                mapping(vec![("name", text("v")), ("mountPath", text("/one"))]),
                mapping(vec![("name", Node::Null), ("mountPath", text("/zero"))]),
                mapping(vec![("name", text("v")), ("mountPath", text("/two"))]),
            ]),
        ),
    ]);
    let secret = VolumeSecret { volume_name: "v".to_string(), secret_name: "s".to_string() };
    let pod = map_node(vec![("containers", Node::Sequence(vec![container]))]);
    let usages = filter_map_vol_usages(&pod, &secret).unwrap();
    assert_eq!(usages.len(), 1);
    assert_eq!(usages[0].mount_paths, vec!["/one", "/two"]);
    assert_eq!(usages[0].usages, vec!["/one/x", "/two/y"]);
}

#[test]
fn every_referenced_secret_is_named_once() {
    let corpus = deployment();
    let names = referenced_k8s_secret_names(&corpus);
    assert_eq!(names, vec!["shared-env", "db", "api", "db-creds", "web-tls"]);
    let twice = build_corpus(
        "a:\n  secretRef:\n    name: s\nb:\n  secretKeyRef:\n    name: s\n    key: k\nvolumes:\n  - name: v\n    secret:\n      secretName: s\n",
    )
    .unwrap();
    assert_eq!(referenced_k8s_secret_names(&twice), vec!["s"]);
    assert!(referenced_k8s_secret_names(&Corpus::new(vec![])).is_empty());
}

#[test]
fn a_mapping_may_match_more_than_one_extractor() {
    let m = map_node(vec![
        ("secretRef", mapping(vec![("name", text("whole"))])),
        ("secretKeyRef", mapping(vec![("name", text("one")), ("key", text("k"))])),
        ("volumes", Node::Sequence(vec![])),
    ]);
    assert!(filter_map_secret_ref(&m).is_some());
    assert!(filter_map_secret_key_ref(&m).is_some());
    assert!(filter_map_vol_secrets(&m).is_some());
}
