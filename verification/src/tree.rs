//! The document tree: scalars, sequences and mappings, with no schema.

use vstd::prelude::*;
use crate::text::{chars_of, spells};

verus! {

/// A number as the YAML parser holds it. The library hands it on and never
/// looks inside.
#[verifier::external_type_specification]
#[verifier::external_body]
pub struct ExNumber(serde_yaml::Number);

/// The model of one entry of a mapping node.
pub struct Entry {
    pub key: Tree,
    pub value: Tree,
}

/// The mathematical model of a document node: what a [`Node`] stands for.
pub enum Tree {
    Null,
    Bool(bool),
    Number(serde_yaml::Number),
    String(Seq<char>),
    Sequence(Seq<Tree>),
    Mapping(Seq<Entry>),
}

/// A node of a parsed document.
#[derive(Debug)]
pub enum Node {
    Null,
    Bool(bool),
    Number(serde_yaml::Number),
    String(String),
    Sequence(Vec<Node>),
    Mapping(MapNode),
}

/// A mapping node: its entries, key and value, in the order in which the
/// document gives them.
#[derive(Debug)]
pub struct MapNode {
    pub entries: Vec<(Node, Node)>,
}

impl View for Node {
    type V = Tree;

    open spec fn view(&self) -> Tree
        decreases self,
    {
        match self {
            Node::Null => Tree::Null,
            Node::Bool(b) => Tree::Bool(*b),
            Node::Number(n) => Tree::Number(*n),
            Node::String(s) => Tree::String(s@),
            Node::Sequence(items) => Tree::Sequence(
                Seq::new(
                    items@.len(),
                    |i: int|
                        if 0 <= i < items@.len() {
                            items@[i]@
                        } else {
                            Tree::Null
                        },
                ),
            ),
            Node::Mapping(m) => {
                let entries = m.entries@;
                Tree::Mapping(
                    Seq::new(
                        entries.len(),
                        |i: int|
                            if 0 <= i < entries.len() {
                                Entry { key: entries[i].0@, value: entries[i].1@ }
                            } else {
                                Entry { key: Tree::Null, value: Tree::Null }
                            },
                    ),
                )
            },
        }
    }
}

impl View for MapNode {
    type V = Seq<Entry>;

    open spec fn view(&self) -> Seq<Entry> {
        Seq::new(
            self.entries@.len(),
            |i: int| Entry { key: self.entries@[i].0@, value: self.entries@[i].1@ },
        )
    }
}

impl Tree {
    /// The nodes directly below this one: the items of a sequence, the values
    /// (not the keys) of a mapping, nothing for a scalar.
    pub open spec fn children(self) -> Seq<Tree> {
        match self {
            Tree::Sequence(items) => items,
            Tree::Mapping(entries) => entries.map_values(|e: Entry| e.value),
            _ => Seq::empty(),
        }
    }

    /// Every node of the tree in pre-order: the node itself, then the nodes
    /// of each child in turn.
    pub open spec fn nodes(self) -> Seq<Tree>
        decreases self, self.children().len() + 1,
    {
        seq![self] + self.nodes_below(self.children().len())
    }

    /// The nodes of the first `count` children, child after child.
    pub open spec fn nodes_below(self, count: nat) -> Seq<Tree>
        decreases self, count,
    {
        if count == 0 || count > self.children().len() {
            Seq::empty()
        } else {
            self.nodes_below((count - 1) as nat) + self.children()[count - 1].nodes()
        }
    }

    /// The entries of a mapping node; `None` for any other node.
    pub open spec fn as_mapping(self) -> Option<Seq<Entry>> {
        match self {
            Tree::Mapping(entries) => Some(entries),
            _ => None,
        }
    }

    /// The text of a string node; `None` for any other node.
    pub open spec fn as_str(self) -> Option<Seq<char>> {
        match self {
            Tree::String(text) => Some(text),
            _ => None,
        }
    }

    /// The items of a sequence node; `None` for any other node.
    pub open spec fn as_sequence(self) -> Option<Seq<Tree>> {
        match self {
            Tree::Sequence(items) => Some(items),
            _ => None,
        }
    }

    /// The mapping nodes of the tree, in pre-order.
    pub open spec fn mappings(self) -> Seq<Seq<Entry>> {
        self.nodes().filter_map(|node: Tree| node.as_mapping())
    }
}

impl Node {
    /// The text of a string node.
    pub fn as_str(&self) -> (text: Option<&str>)
        ensures
            match text {
                Some(t) => self@ == Tree::String(t@),
                None => !(self@ is String),
            },
    {
        match self {
            Node::String(s) => Some(s.as_str()),
            _ => None,
        }
    }

    /// The mapping of a mapping node.
    pub fn as_mapping(&self) -> (mapping: Option<&MapNode>)
        ensures
            match mapping {
                Some(m) => self@ == Tree::Mapping(m@),
                None => !(self@ is Mapping),
            },
    {
        proof {
            lemma_view(*self);
        }
        match self {
            Node::Mapping(m) => Some(m),
            _ => None,
        }
    }

    /// The items of a sequence node.
    pub fn as_sequence(&self) -> (items: Option<&Vec<Node>>)
        ensures
            match items {
                Some(i) => self@ == Tree::Sequence(i@.map_values(|item: Node| item@)),
                None => !(self@ is Sequence),
            },
    {
        proof {
            lemma_view(*self);
        }
        match self {
            Node::Sequence(items) => Some(items),
            _ => None,
        }
    }

    /// Whether the node is a mapping.
    pub fn is_mapping(&self) -> (yes: bool)
        ensures
            yes == (self@ is Mapping),
    {
        self.as_mapping().is_some()
    }

    /// Whether the node is a sequence.
    pub fn is_sequence(&self) -> (yes: bool)
        ensures
            yes == (self@ is Sequence),
    {
        self.as_sequence().is_some()
    }
}

impl MapNode {
    /// The value of the first entry whose key is the string `key`.
    pub fn get(&self, key: &str) -> (value: Option<&Node>)
        ensures
            match value {
                Some(v) => lookup(self@, key@) == Some(v@),
                None => lookup(self@, key@) is None,
            },
    {
        let wanted = chars_of(key);
        let mut i: usize = 0;
        assert(self@.skip(0) =~= self@);
        while i < self.entries.len()
            invariant
                i <= self.entries.len(),
                wanted@ == key@,
                self@.len() == self.entries@.len(),
                lookup(self@, key@) == lookup(self@.skip(i as int), key@),
            decreases self.entries.len() - i,
        {
            proof {
                assert(self@.skip(i as int).drop_first() =~= self@.skip(i + 1));
                assert(self@.skip(i as int)[0] == self@[i as int]);
            }
            let entry = &self.entries[i];
            if let Node::String(name) = &entry.0 {
                if spells(name.as_str(), &wanted) {
                    return Some(&entry.1);
                }
            }
            i += 1;
        }
        None
    }

    /// Whether some entry has the string `key` as its key.
    pub fn contains_key(&self, key: &str) -> (found: bool)
        ensures
            found == (lookup(self@, key@) is Some),
    {
        self.get(key).is_some()
    }
}

/// The nodes of `trees[0]`, then those of `trees[1]`, and so on.
pub open spec fn forest_nodes(trees: Seq<Tree>) -> Seq<Tree>
    decreases trees.len(),
{
    if trees.len() == 0 {
        Seq::empty()
    } else {
        forest_nodes(trees.drop_last()) + trees.last().nodes()
    }
}

/// The value under the first entry of `entries` whose key is the string
/// `key`; `None` where no entry has that key.
pub open spec fn lookup(entries: Seq<Entry>, key: Seq<char>) -> Option<Tree>
    decreases entries.len(),
{
    if entries.len() == 0 {
        None
    } else if entries[0].key == Tree::String(key) {
        Some(entries[0].value)
    } else {
        lookup(entries.drop_first(), key)
    }
}

/// The nodes of the first `count` children of a tree are the nodes of the
/// forest that those children form.
pub proof fn lemma_nodes_below(tree: Tree, count: nat)
    requires
        count <= tree.children().len(),
    ensures
        tree.nodes_below(count) == forest_nodes(tree.children().take(count as int)),
    decreases count,
{
    let first = tree.children().take(count as int);
    if count > 0 {
        lemma_nodes_below(tree, (count - 1) as nat);
        assert(first.drop_last() =~= tree.children().take(count - 1));
    }
}

/// The nodes of a tree are the node itself, followed by the nodes of its
/// children.
pub proof fn lemma_nodes_unfold(tree: Tree)
    ensures
        tree.nodes() == seq![tree] + forest_nodes(tree.children()),
{
    lemma_nodes_below(tree, tree.children().len());
    assert(tree.children().take(tree.children().len() as int) =~= tree.children());
}

/// How the model of a node relates to the models of the nodes it holds.
pub proof fn lemma_view(val: Node)
    ensures
        match val {
            Node::Null => val@ == Tree::Null,
            Node::Bool(b) => val@ == Tree::Bool(b),
            Node::Number(n) => val@ == Tree::Number(n),
            Node::String(s) => val@ == Tree::String(s@),
            Node::Sequence(items) => {
                &&& val@ == Tree::Sequence(items@.map_values(|item: Node| item@))
                &&& val@.children().len() == items@.len()
                &&& forall|k: int|
                    0 <= k < items@.len() ==> val@.children()[k] == (#[trigger] items@[k])@
            },
            Node::Mapping(m) => {
                &&& val@ == Tree::Mapping(m@)
                &&& val@.children().len() == m.entries@.len()
                &&& forall|k: int|
                    0 <= k < m.entries@.len() ==> val@.children()[k] == (
                    #[trigger] m.entries@[k]).1@
            },
        },
{
    match val {
        Node::Sequence(items) => {
            assert(val@->Sequence_0 =~= items@.map_values(|item: Node| item@));
        },
        Node::Mapping(m) => {
            assert(val@->Mapping_0 =~= m@);
        },
        _ => {},
    }
}

} // verus!
