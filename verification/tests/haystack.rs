use kube_vault::haystack::{build_corpus, Corpus, CorpusError};
use kube_vault::tree::{MapNode, Node};

const CONTENTS: &str = r#"---
a: "foo"
nested: 
  - name: a
  - name: b
---
- b: "bar"
- b: baz
- c:
    b: 4
    d: 1
    e: 2
"#;

fn get_test_corpus() -> Corpus {
    let res = Corpus::from_reader(CONTENTS.as_bytes());
    assert!(res.is_ok(), "couldn't read bytestring, {:?}", res);
    res.unwrap()
}

fn text(s: &str) -> Node {
    Node::String(s.to_string())
}

fn mapping(entries: Vec<(&str, Node)>) -> Node {
    Node::Mapping(MapNode {
        entries: entries.into_iter().map(|(k, v)| (text(k), v)).collect(),
    })
}

#[test]
fn can_read() {
    let corpus = get_test_corpus();
    assert_eq!(corpus.documents().len(), 2, "Didn't find two documents");
    let doc1 = &corpus.documents()[0];
    let doc2 = &corpus.documents()[1];
    assert!(doc1.is_mapping(), "First document was not a mapping");
    assert!(doc2.is_sequence(), "Second document was not a sequence");
    assert!(
        doc1.as_mapping().unwrap().contains_key("a"),
        "Key 'a' not in first doc mapping"
    );
    assert_eq!(
        doc2.as_sequence().unwrap().len(),
        3,
        "Second document had unexpected sequence length"
    );
}

#[test]
fn can_visit_mappings() {
    let corpus = get_test_corpus();

    let count: usize = corpus.filter_map_mappings(|_m| Some(1)).iter().sum();
    assert_eq!(count, 7, "unexpected number of mappings");
}

#[test]
fn can_filter_mappings() {
    let corpus = get_test_corpus();
    let b_count: usize = corpus
        .filter_map_mappings(|m| {
            if m.contains_key("b") {
                Some(1)
            } else {
                None
            }
        })
        .iter()
        .sum();
    assert_eq!(b_count, 3, "unexpected count of 'b' keys");
    let values = corpus.filter_map_mappings(|m| {
        m.get("name")
            .and_then(|v| Some(v.as_str()?.to_string()))
    });
    assert_eq!(vec!["a", "b"], values);
}

#[test]
fn segments_without_content_are_dropped() {
    let input = "# only a comment\n---\na: 1\n---\n\n   \n---\n- x\n- y\n---\n  # indented comment\n";
    let corpus = build_corpus(input).unwrap();
    assert_eq!(corpus.documents().len(), 2);
    assert!(corpus.documents()[0].is_mapping());
    assert!(corpus.documents()[1].is_sequence());
}

#[test]
fn empty_input_is_an_empty_corpus() {
    assert_eq!(build_corpus("").unwrap().documents().len(), 0);
    assert_eq!(build_corpus("---\n---\n").unwrap().documents().len(), 0);
}

#[test]
fn a_scalar_is_a_document() {
    let corpus = build_corpus("just text\n---\n42\n").unwrap();
    assert_eq!(corpus.documents().len(), 2);
    assert_eq!(corpus.documents()[0].as_str(), Some("just text"));
    assert!(matches!(corpus.documents()[1], Node::Number(_)));
}

#[test]
fn the_error_names_the_segment() {
    let input = "a: 1\n---\n# nothing\n---\nb: [unclosed\n---\nc: {also: [bad\n";
    match build_corpus(input) {
        Err(CorpusError::Document { segment, message }) => {
            assert_eq!(segment, 2);
            assert!(!message.is_empty());
        }
        other => panic!("expected a parse error, got {:?}", other),
    }
}

#[test]
fn bytes_that_are_no_text_are_rejected() {
    let res = Corpus::from_reader(&[b'a', b':', b' ', 0xff, 0xfe]);
    assert!(matches!(res, Err(CorpusError::NotText)));
}

#[test]
fn a_mapping_keeps_the_order_of_the_document() {
    let corpus = build_corpus("z: 1\na: 2\nm: 3\n").unwrap();
    let doc = corpus.documents()[0].as_mapping().unwrap();
    let keys: Vec<&str> = doc.entries.iter().map(|(k, _)| k.as_str().unwrap()).collect();
    assert_eq!(keys, vec!["z", "a", "m"]);
}

#[test]
fn every_mapping_is_counted() {
    let first = mapping(vec![(
        "items",
        Node::Sequence(vec![
            mapping(vec![("k", text("v"))]),
            mapping(vec![("k", text("w"))]),
        ]),
    )]);
    let second = Node::Sequence(vec![
        mapping(vec![("a", Node::Null)]),
        text("scalar"),
        mapping(vec![("b", Node::Bool(true))]),
    ]);
    let corpus = Corpus::new(vec![first, second]);
    let count: usize = corpus.filter_map_mappings(|_| Some(1)).iter().sum();
    assert_eq!(count, 5);
}

#[test]
fn matches_come_in_document_order() {
    let doc = mapping(vec![
        ("a", text("foo")),
        (
            "nested",
            Node::Sequence(vec![
                mapping(vec![("name", text("x"))]),
                mapping(vec![("name", text("y"))]),
            ]),
        ),
    ]);
    let corpus = Corpus::new(vec![doc]);
    let names = corpus.filter_map_mappings(|m| Some(m.get("name")?.as_str()?.to_string()));
    assert_eq!(names, vec!["x", "y"]);
}

#[test]
fn values_are_visited_root_first() {
    let doc = mapping(vec![
        ("a", text("one")),
        ("b", Node::Sequence(vec![text("two"), mapping(vec![("c", text("three"))])])),
        ("d", text("four")),
    ]);
    let all = Corpus::filter_map_values_from(&doc, |v| Some(v.as_str().map(|s| s.to_string())));
    assert_eq!(all.len(), 7);
    assert_eq!(all[0], None);
    let strings: Vec<String> = all.into_iter().flatten().collect();
    assert_eq!(strings, vec!["one", "two", "three", "four"]);
}

#[test]
fn keys_are_not_visited() {
    let doc = Node::Mapping(MapNode {
        entries: vec![(mapping(vec![("inner", text("key"))]), text("value"))],
    });
    let corpus = Corpus::new(vec![doc]);
    let count = corpus.filter_map_mappings(|_| Some(())).len();
    assert_eq!(count, 1);
}

#[test]
fn every_kind_of_node_is_kept() {
    let corpus = build_corpus("flag: true\nnothing: ~\ncount: 3\nratio: 0.5\nname: x\nlist: [1, a]\n")
        .unwrap();
    let doc = corpus.documents()[0].as_mapping().unwrap();
    assert!(matches!(doc.get("flag"), Some(Node::Bool(true))));
    assert!(matches!(doc.get("nothing"), Some(Node::Null)));
    assert!(matches!(doc.get("count"), Some(Node::Number(n)) if n.as_u64() == Some(3)));
    assert!(matches!(doc.get("ratio"), Some(Node::Number(n)) if n.is_f64()));
    assert_eq!(doc.get("name").unwrap().as_str(), Some("x"));
    let list = doc.get("list").unwrap().as_sequence().unwrap();
    assert_eq!(list.len(), 2);
    assert!(matches!(&list[0], Node::Number(n) if n.as_i64() == Some(1)));
    assert_eq!(list[1].as_str(), Some("a"));
    assert!(doc.get("missing").is_none());
    assert!(!doc.contains_key("missing"));
    assert!(doc.get("flag").unwrap().as_str().is_none());
    assert!(doc.get("flag").unwrap().as_mapping().is_none());
    assert!(!doc.get("name").unwrap().is_sequence());
}

#[test]
fn the_first_entry_of_a_key_is_found() {
    let m = MapNode {
        entries: vec![
            (Node::Bool(true), text("under a key that is no string")),
            (text("k"), text("first")),
            (text("k"), text("second")),
        ],
    };
    assert_eq!(m.get("k").unwrap().as_str(), Some("first"));
    assert!(m.get("true").is_none());
}
