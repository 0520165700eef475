//! The YAML parser, and the way from what it returns to the library's own
//! document tree.
//!
//! The parser is `serde_yaml`. Its values are opaque here: the library asks
//! them what they hold, one level at a time, and rebuilds the tree as a
//! [`Node`]. What the parser makes of a text is not stated anywhere in this
//! crate; it only has a name, [`yaml_document`].

use vstd::prelude::*;
use crate::tree::{Entry, MapNode, Node, Tree, lemma_view};

verus! {

/// A node as `serde_yaml` holds it.
#[verifier::external_type_specification]
#[verifier::external_body]
pub struct ExYamlValue(serde_yaml::Value);

/// A mapping as `serde_yaml` holds it.
#[verifier::external_type_specification]
#[verifier::external_body]
pub struct ExYamlMapping(serde_yaml::Mapping);

/// The error with which `serde_yaml` rejects a text.
#[verifier::external_type_specification]
#[verifier::external_body]
pub struct ExYamlError(serde_yaml::Error);

/// The tree that a `serde_yaml::Value` holds: its variant, and below it the
/// trees of its items or entries, in their order.
pub uninterp spec fn yaml_tree(node: serde_yaml::Value) -> Tree;

/// The entries that a `serde_yaml::Mapping` holds, in the order in which it
/// iterates over them, which is the order of insertion.
pub uninterp spec fn yaml_entries(mapping: serde_yaml::Mapping) -> Seq<Entry>;

/// The document that `serde_yaml` reads from a text: `None` where it rejects
/// the text, which it also does where the text holds no document or more
/// than one.
pub uninterp spec fn yaml_document(text: Seq<char>) -> Option<Tree>;

/// `serde_yaml::from_str`, asked for a `serde_yaml::Value`. The contract
/// gives the outcome its name and says nothing else: the same text always
/// yields the same outcome.
#[verifier::external_body]
fn yaml_parse(text: &str) -> (parsed: Result<serde_yaml::Value, serde_yaml::Error>)
    ensures
        match parsed {
            Ok(node) => yaml_document(text@) == Some(yaml_tree(node)),
            Err(_) => yaml_document(text@) is None,
        },
{
    serde_yaml::from_str::<serde_yaml::Value>(text)
}

/// The `Display` text of a `serde_yaml::Error`. Nothing is claimed of it.
#[verifier::external_body]
fn yaml_error_text(error: &serde_yaml::Error) -> String {
    error.to_string()
}

/// `serde_yaml::Value::as_bool`: the boolean of a `Bool` node, `None` for
/// every other node.
#[verifier::external_body]
fn yaml_as_bool(node: &serde_yaml::Value) -> (found: Option<bool>)
    ensures
        match found {
            Some(b) => yaml_tree(*node) == Tree::Bool(b),
            None => !(yaml_tree(*node) is Bool),
        },
{
    node.as_bool()
}

/// The number of a `serde_yaml::Value::Number` node, cloned; `None` for
/// every other node.
#[verifier::external_body]
fn yaml_as_number(node: &serde_yaml::Value) -> (found: Option<serde_yaml::Number>)
    ensures
        match found {
            Some(n) => yaml_tree(*node) == Tree::Number(n),
            None => !(yaml_tree(*node) is Number),
        },
{
    match node {
        serde_yaml::Value::Number(n) => Some(n.clone()),
        _ => None,
    }
}

/// `serde_yaml::Value::as_str`: the text of a `String` node, `None` for
/// every other node.
#[verifier::external_body]
fn yaml_as_str(node: &serde_yaml::Value) -> (found: Option<&str>)
    ensures
        match found {
            Some(text) => yaml_tree(*node) == Tree::String(text@),
            None => !(yaml_tree(*node) is String),
        },
{
    node.as_str()
}

/// `serde_yaml::Value::as_sequence`: the items of a `Sequence` node, `None`
/// for every other node.
#[verifier::external_body]
fn yaml_as_sequence(node: &serde_yaml::Value) -> (found: Option<&Vec<serde_yaml::Value>>)
    ensures
        match found {
            Some(items) => yaml_tree(*node) == Tree::Sequence(
                items@.map_values(|item: serde_yaml::Value| yaml_tree(item)),
            ),
            None => !(yaml_tree(*node) is Sequence),
        },
{
    node.as_sequence()
}

/// `serde_yaml::Value::as_mapping`: the mapping of a `MapNode` node, `None`
/// for every other node.
#[verifier::external_body]
fn yaml_as_mapping(node: &serde_yaml::Value) -> (found: Option<&serde_yaml::Mapping>)
    ensures
        match found {
            Some(mapping) => yaml_tree(*node) == Tree::Mapping(yaml_entries(*mapping)),
            None => !(yaml_tree(*node) is Mapping),
        },
{
    node.as_mapping()
}

/// `serde_yaml::Mapping::iter`, collected: every entry of the mapping, key
/// and value, in the order of iteration.
#[verifier::external_body]
fn yaml_mapping_entries(
    mapping: &serde_yaml::Mapping,
) -> (entries: Vec<(&serde_yaml::Value, &serde_yaml::Value)>)
    ensures
        entries@.len() == yaml_entries(*mapping).len(),
        forall|i: int|
            0 <= i < entries@.len() ==> yaml_entries(*mapping)[i] == (Entry {
                key: yaml_tree(*(#[trigger] entries@[i]).0),
                value: yaml_tree(*entries@[i].1),
            }),
{
    mapping.iter().collect()
}

/// The library's own tree for what the parser returned.
fn value_from_yaml(node: &serde_yaml::Value) -> (val: Node)
    ensures
        val@ == yaml_tree(*node),
    decreases yaml_tree(*node),
{
    if let Some(mapping) = yaml_as_mapping(node) {
        let pairs = yaml_mapping_entries(mapping);
        let mut entries: Vec<(Node, Node)> = Vec::new();
        let mut i: usize = 0;
        while i < pairs.len()
            invariant
                i <= pairs.len(),
                yaml_tree(*node) == Tree::Mapping(yaml_entries(*mapping)),
                pairs@.len() == yaml_entries(*mapping).len(),
                forall|k: int|
                    0 <= k < pairs@.len() ==> yaml_entries(*mapping)[k] == (Entry {
                        key: yaml_tree(*(#[trigger] pairs@[k]).0),
                        value: yaml_tree(*pairs@[k].1),
                    }),
                entries@.len() == i,
                forall|k: int|
                    0 <= k < i ==> (#[trigger] entries@[k]).0@ == yaml_entries(*mapping)[k].key
                        && entries@[k].1@ == yaml_entries(*mapping)[k].value,
            decreases pairs.len() - i,
        {
            let pair = pairs[i];
            proof {
                let held = yaml_entries(*mapping);
                assert(held[i as int].key == yaml_tree(*pair.0));
                assert(held[i as int].value == yaml_tree(*pair.1));
                assert(decreases_to!(yaml_tree(*node) => yaml_tree(*node)->Mapping_0));
            }
            let key = value_from_yaml(pair.0);
            let value = value_from_yaml(pair.1);
            entries.push((key, value));
            i += 1;
        }
        let m = MapNode { entries };
        assert(m@ =~= yaml_entries(*mapping));
        let val = Node::Mapping(m);
        proof {
            lemma_view(val);
        }
        val
    } else if let Some(items) = yaml_as_sequence(node) {
        let mut converted: Vec<Node> = Vec::new();
        let mut i: usize = 0;
        while i < items.len()
            invariant
                i <= items.len(),
                yaml_tree(*node) == Tree::Sequence(
                    items@.map_values(|item: serde_yaml::Value| yaml_tree(item)),
                ),
                converted@.len() == i,
                forall|k: int| 0 <= k < i ==> (#[trigger] converted@[k])@ == yaml_tree(items@[k]),
            decreases items.len() - i,
        {
            proof {
                let held = items@.map_values(|item: serde_yaml::Value| yaml_tree(item));
                assert(held[i as int] == yaml_tree(items@[i as int]));
                assert(decreases_to!(yaml_tree(*node) => yaml_tree(*node)->Sequence_0));
            }
            let item = value_from_yaml(&items[i]);
            converted.push(item);
            i += 1;
        }
        let val = Node::Sequence(converted);
        proof {
            lemma_view(val);
            assert(val@->Sequence_0 =~= items@.map_values(
                |item: serde_yaml::Value| yaml_tree(item),
            ));
        }
        val
    } else if let Some(text) = yaml_as_str(node) {
        Node::String(text.to_owned())
    } else if let Some(n) = yaml_as_number(node) {
        Node::Number(n)
    } else if let Some(b) = yaml_as_bool(node) {
        Node::Bool(b)
    } else {
        Node::Null
    }
}

/// Reads `text` as one YAML document.
pub fn parse_document(text: &str) -> (parsed: Result<Node, String>)
    ensures
        match parsed {
            Ok(val) => yaml_document(text@) == Some(val@),
            Err(_) => yaml_document(text@) is None,
        },
{
    match yaml_parse(text) {
        Ok(node) => Ok(value_from_yaml(&node)),
        Err(error) => Err(yaml_error_text(&error)),
    }
}

} // verus!
