//! Searching documents of unknown shape: every node, or every mapping, is
//! offered to a function that keeps what it recognises.

use vstd::prelude::*;
use crate::sequences::{
    answered, kept, lemma_concat_contains, lemma_filter_map_concat, lemma_filter_map_one,
};
use crate::split::{cuts, has_content, nonempty_document, segments, split_segments};
use crate::text::{chars_of, utf8_text};
use crate::tree::{Entry, MapNode, Node, Tree, forest_nodes, lemma_view};
use crate::yaml::{parse_document, yaml_document};
use vstd::utf8::{decode_utf8, valid_utf8};

verus! {

/// The models of `values`, one for one.
pub open spec fn trees_of(values: Seq<Node>) -> Seq<Tree> {
    values.map_values(|v: Node| v@)
}

/// The models of `mappings`, one for one.
pub open spec fn entries_of(mappings: Seq<MapNode>) -> Seq<Seq<Entry>> {
    mappings.map_values(|m: MapNode| m@)
}

/// The mapping nodes among `nodes`, in order.
pub open spec fn mappings_among(nodes: Seq<Tree>) -> Seq<Seq<Entry>> {
    nodes.filter_map(|node: Tree| node.as_mapping())
}

/// Why a text could not be read as a set of documents.
#[derive(Debug)]
pub enum CorpusError {
    /// The input is not UTF-8 text.
    NotText,
    /// The segment with this index, counted from 0 over all the segments
    /// that the delimiters cut the text into, holds content that is not one
    /// YAML document. `message` is the parser's own.
    Document { segment: usize, message: String },
}

/// What becomes of one segment: the document that it holds, or nothing
/// where it holds only blank lines and comments or cannot be read.
pub open spec fn document_in(segment: Seq<char>) -> Option<Tree> {
    if has_content(segment) {
        yaml_document(segment)
    } else {
        None
    }
}

/// The documents that `segments` hold, in the order of the segments.
pub open spec fn documents_in(segments: Seq<Seq<char>>) -> Seq<Tree> {
    segments.filter_map(|segment: Seq<char>| document_in(segment))
}

/// The `index`-th of `segments` has content, and the parser rejects it.
pub open spec fn unreadable(segments: Seq<Seq<char>>, index: int) -> bool {
    &&& 0 <= index < segments.len()
    &&& has_content(segments[index])
    &&& yaml_document(segments[index]) is None
}

/// What [`build_corpus`] owes for `text`: the documents of its segments
/// where every segment with content can be read; else the first segment that
/// cannot.
pub open spec fn builds(text: Seq<char>, built: Result<Corpus, CorpusError>) -> bool {
    match built {
        Ok(corpus) => {
            &&& forall|k: int| !unreadable(segments(text), k)
            &&& corpus@ == documents_in(segments(text))
        },
        Err(CorpusError::Document { segment, .. }) => {
            &&& unreadable(segments(text), segment as int)
            &&& forall|k: int| 0 <= k < segment ==> !unreadable(segments(text), k)
        },
        Err(CorpusError::NotText) => false,
    }
}

/// Reads `text` as a stream of YAML documents that `---` separates.
///
/// A segment that holds only blank lines and comments is dropped. Every other
/// segment must be one YAML document: the first that is not makes the whole
/// call fail, and the error names it.
pub fn build_corpus(text: &str) -> (built: Result<Corpus, CorpusError>)
    ensures
        builds(text@, built),
{
    let chars = chars_of(text);
    let bounds = split_segments(&chars);
    let mut documents: Vec<Node> = Vec::new();
    let ghost parts = segments(text@);
    let mut k: usize = 0;
    assert(parts.take(0) =~= Seq::<Seq<char>>::empty());
    assert(trees_of(documents@) =~= documents_in(parts.take(0)));
    while k < bounds.len()
        invariant
            k <= bounds.len(),
            chars@ == text@,
            parts == segments(text@),
            cuts(chars@, bounds@) == parts,
            forall|j: int|
                0 <= j < bounds@.len() ==> (#[trigger] bounds@[j]).0 <= bounds@[j].1
                    <= chars@.len(),
            forall|j: int| 0 <= j < k ==> !unreadable(parts, j),
            trees_of(documents@) == documents_in(parts.take(k as int)),
        decreases bounds.len() - k,
    {
        let (from, to) = bounds[k];
        let segment = text.substring_char(from, to);
        let ghost before = documents@;
        proof {
            assert(parts[k as int] == cuts(chars@, bounds@)[k as int]);
            assert(segment@ == parts[k as int]);
            assert(parts.take(k + 1).drop_last() =~= parts.take(k as int));
            assert(parts.take(k + 1).last() == parts[k as int]);
        }
        if nonempty_document(segment) {
            match parse_document(segment) {
                Ok(doc) => {
                    documents.push(doc);
                    assert(trees_of(documents@) =~= trees_of(before) + seq![doc@]);
                },
                Err(message) => {
                    return Err(CorpusError::Document { segment: k, message });
                },
            }
        }
        k += 1;
    }
    assert(parts.take(k as int) =~= parts);
    Ok(Corpus { documents })
}

/// A set of parsed documents, in the order of the input.
#[derive(Debug)]
pub struct Corpus {
    documents: Vec<Node>,
}

impl View for Corpus {
    type V = Seq<Tree>;

    closed spec fn view(&self) -> Seq<Tree> {
        trees_of(self.documents@)
    }
}

impl Corpus {
    /// Every node of every document: the documents in order, each in
    /// pre-order.
    pub open spec fn nodes(self) -> Seq<Tree> {
        forest_nodes(self@)
    }

    /// Every mapping node of every document, in the order of [`Corpus::nodes`].
    pub open spec fn mappings(self) -> Seq<Seq<Entry>> {
        mappings_among(self.nodes())
    }

    /// Reads the whole of a stream, given as its bytes, as [`build_corpus`]
    /// reads a text. Bytes that are not UTF-8 are rejected as a whole.
    pub fn from_reader(input: &[u8]) -> (built: Result<Corpus, CorpusError>)
        ensures
            !valid_utf8(input@) ==> built matches Err(CorpusError::NotText),
            valid_utf8(input@) ==> builds(decode_utf8(input@), built),
    {
        match utf8_text(input) {
            Some(text) => build_corpus(text),
            None => Err(CorpusError::NotText),
        }
    }

    /// A corpus that holds `documents`.
    pub fn new(documents: Vec<Node>) -> (corpus: Corpus)
        ensures
            corpus@ == trees_of(documents@),
    {
        Corpus { documents }
    }

    /// The documents, in the order of the input.
    pub fn documents(&self) -> (documents: &Vec<Node>)
        ensures
            trees_of(documents@) == self@,
    {
        &self.documents
    }

    /// Visits every mapping of every document, in pre-order, and collects
    /// what `filter_map` returns for them, leaving out each `None`.
    pub fn filter_map_mappings<FM, T>(&self, filter_map: FM) -> (found: Vec<T>) where
        FM: Fn(&MapNode) -> Option<T>,

        requires
            forall|m: MapNode|
                self.nodes().contains(Tree::Mapping(m@)) ==> call_requires(filter_map, (&m,)),
        ensures
            exists|visited: Seq<MapNode>, yields: Seq<Option<T>>|
                {
                    &&& entries_of(visited) == self.mappings()
                    &&& answered(filter_map, visited, yields)
                    &&& found@ == kept(yields)
                },
    {
        let mut res: Vec<T> = Vec::new();
        let ghost mut visited: Seq<MapNode> = Seq::empty();
        let ghost mut yields: Seq<Option<T>> = Seq::empty();
        let mut i: usize = 0;
        assert(self@.take(0) =~= Seq::<Tree>::empty());
        assert(entries_of(visited) =~= mappings_among(forest_nodes(self@.take(0))));
        while i < self.documents.len()
            invariant
                i <= self.documents.len(),
                self@ == trees_of(self.documents@),
                forall|m: MapNode|
                    self.nodes().contains(Tree::Mapping(m@)) ==> call_requires(
                        filter_map,
                        (&m,),
                    ),
                entries_of(visited) == mappings_among(forest_nodes(self@.take(i as int))),
                answered(filter_map, visited, yields),
                res@ == kept(yields),
            decreases self.documents.len() - i,
        {
            let doc = &self.documents[i];
            proof {
                lemma_forest_member(self@, i as int);
                assert(doc@ == self@[i as int]);
            }
            let trace = filter_mapping_visitor(doc, &mut res, &filter_map);
            proof {
                let head = forest_nodes(self@.take(i as int));
                assert(self@.take(i + 1).drop_last() =~= self@.take(i as int));
                assert(forest_nodes(self@.take(i + 1)) == head + doc@.nodes());
                lemma_filter_map_concat(head, doc@.nodes(), |node: Tree| node.as_mapping());
                lemma_filter_map_concat(yields, trace@.1, |y: Option<T>| y);
                assert(entries_of(visited + trace@.0) =~= entries_of(visited) + entries_of(
                    trace@.0,
                ));
                visited = visited + trace@.0;
                yields = yields + trace@.1;
            }
            i += 1;
        }
        assert(self@.take(i as int) =~= self@);
        res
    }

    /// Visits `val` and every node below it, in pre-order, and collects what
    /// `filter_map` returns for them, leaving out each `None`.
    pub fn filter_map_values_from<FM, T>(val: &Node, filter_map: FM) -> (found: Vec<T>) where
        FM: Fn(&Node) -> Option<T>,

        requires
            forall|node: Node| val@.nodes().contains(node@) ==> call_requires(filter_map, (&node,)),
        ensures
            exists|visited: Seq<Node>, yields: Seq<Option<T>>|
                {
                    &&& trees_of(visited) == val@.nodes()
                    &&& answered(filter_map, visited, yields)
                    &&& found@ == kept(yields)
                },
    {
        let mut res: Vec<T> = Vec::new();
        let trace = filter_map_value_visitor(val, &mut res, &filter_map);
        assert(res@ =~= kept(trace@.1));
        res
    }
}

fn filter_map_value_visitor<FM, T>(
    val: &Node,
    acc: &mut Vec<T>,
    filter_map: &FM,
) -> (trace: Ghost<(Seq<Node>, Seq<Option<T>>)>) where FM: Fn(&Node) -> Option<T>
    requires
        forall|node: Node| val@.nodes().contains(node@) ==> call_requires(*filter_map, (&node,)),
    ensures
        trees_of(trace@.0) == val@.nodes(),
        answered(*filter_map, trace@.0, trace@.1),
        final(acc)@ == old(acc)@ + kept(trace@.1),
    decreases val,
{
    proof {
        lemma_view(*val);
    }
    assert(val@.nodes()[0] == val@);
    let out = filter_map(val);
    let ghost mut visited = seq![*val];
    let ghost mut yields = seq![out];
    proof {
        lemma_filter_map_one(out, |y: Option<T>| y);
    }
    if let Some(t) = out {
        acc.push(t);
    }
    assert(acc@ =~= old(acc)@ + kept(yields));
    match val {
        Node::Sequence(items) => {
            let mut i: usize = 0;
            while i < items.len()
                invariant
                    i <= items.len(),
                    *val == Node::Sequence(*items),
                    val@.children().len() == items@.len(),
                    forall|k: int|
                        0 <= k < items@.len() ==> val@.children()[k] == (#[trigger] items@[k])@,
                    forall|node: Node|
                        val@.nodes().contains(node@) ==> call_requires(*filter_map, (&node,)),
                    trees_of(visited) == seq![val@] + val@.nodes_below(i as nat),
                    answered(*filter_map, visited, yields),
                    acc@ == old(acc)@ + kept(yields),
                decreases items.len() - i,
            {
                proof {
                    lemma_child_nodes(val@, i as int);
                }
                let below = filter_map_value_visitor(&items[i], acc, filter_map);
                proof {
                    lemma_filter_map_concat(yields, below@.1, |y: Option<T>| y);
                    assert(trees_of(visited + below@.0) =~= trees_of(visited) + trees_of(
                        below@.0,
                    ));
                    visited = visited + below@.0;
                    yields = yields + below@.1;
                    assert(acc@ =~= old(acc)@ + kept(yields));
                    assert(trees_of(visited) =~= seq![val@] + val@.nodes_below((i + 1) as nat));
                }
                i += 1;
            }
        },
        Node::Mapping(m) => {
            let mut i: usize = 0;
            while i < m.entries.len()
                invariant
                    i <= m.entries.len(),
                    *val == Node::Mapping(*m),
                    val@.children().len() == m.entries@.len(),
                    forall|k: int|
                        0 <= k < m.entries@.len() ==> val@.children()[k] == (
                        #[trigger] m.entries@[k]).1@,
                    forall|node: Node|
                        val@.nodes().contains(node@) ==> call_requires(*filter_map, (&node,)),
                    trees_of(visited) == seq![val@] + val@.nodes_below(i as nat),
                    answered(*filter_map, visited, yields),
                    acc@ == old(acc)@ + kept(yields),
                decreases m.entries.len() - i,
            {
                proof {
                    lemma_child_nodes(val@, i as int);
                }
                let below = filter_map_value_visitor(&m.entries[i].1, acc, filter_map);
                proof {
                    lemma_filter_map_concat(yields, below@.1, |y: Option<T>| y);
                    assert(trees_of(visited + below@.0) =~= trees_of(visited) + trees_of(
                        below@.0,
                    ));
                    visited = visited + below@.0;
                    yields = yields + below@.1;
                    assert(acc@ =~= old(acc)@ + kept(yields));
                    assert(trees_of(visited) =~= seq![val@] + val@.nodes_below((i + 1) as nat));
                }
                i += 1;
            }
        },
        _ => {
            assert(trees_of(visited) =~= val@.nodes());
        },
    }
    Ghost((visited, yields))
}

fn filter_mapping_visitor<FM, T>(
    val: &Node,
    acc: &mut Vec<T>,
    filter_map: &FM,
) -> (trace: Ghost<(Seq<MapNode>, Seq<Option<T>>)>) where FM: Fn(&MapNode) -> Option<T>
    requires
        forall|m: MapNode|
            val@.nodes().contains(Tree::Mapping(m@)) ==> call_requires(*filter_map, (&m,)),
    ensures
        entries_of(trace@.0) == val@.mappings(),
        answered(*filter_map, trace@.0, trace@.1),
        final(acc)@ == old(acc)@ + kept(trace@.1),
    decreases val,
{
    let ghost pick = |node: Tree| node.as_mapping();
    let ghost mut visited: Seq<MapNode> = Seq::empty();
    let ghost mut yields: Seq<Option<T>> = Seq::empty();
    proof {
        lemma_view(*val);
        lemma_filter_map_one(val@, pick);
    }
    assert(val@.nodes()[0] == val@);
    match val {
        Node::Mapping(m) => {
            let out = filter_map(m);
            proof {
                visited = seq![*m];
                yields = seq![out];
                lemma_filter_map_one(out, |y: Option<T>| y);
                assert(entries_of(visited) =~= seq![val@].filter_map(pick));
            }
            if let Some(t) = out {
                acc.push(t);
            }
            assert(acc@ =~= old(acc)@ + kept(yields));
            let mut i: usize = 0;
            while i < m.entries.len()
                invariant
                    i <= m.entries.len(),
                    *val == Node::Mapping(*m),
                    pick == |node: Tree| node.as_mapping(),
                    val@.children().len() == m.entries@.len(),
                    forall|k: int|
                        0 <= k < m.entries@.len() ==> val@.children()[k] == (
                        #[trigger] m.entries@[k]).1@,
                    forall|m: MapNode|
                        val@.nodes().contains(Tree::Mapping(m@)) ==> call_requires(
                            *filter_map,
                            (&m,),
                        ),
                    entries_of(visited) == (seq![val@] + val@.nodes_below(i as nat)).filter_map(
                        pick,
                    ),
                    answered(*filter_map, visited, yields),
                    acc@ == old(acc)@ + kept(yields),
                decreases m.entries.len() - i,
            {
                proof {
                    lemma_child_nodes(val@, i as int);
                }
                let below = filter_mapping_visitor(&m.entries[i].1, acc, filter_map);
                proof {
                    let head = seq![val@] + val@.nodes_below(i as nat);
                    let tail = val@.children()[i as int].nodes();
                    assert(seq![val@] + val@.nodes_below((i + 1) as nat) =~= head + tail);
                    lemma_filter_map_concat(head, tail, pick);
                    lemma_filter_map_concat(yields, below@.1, |y: Option<T>| y);
                    assert(entries_of(visited + below@.0) =~= entries_of(visited) + entries_of(
                        below@.0,
                    ));
                    visited = visited + below@.0;
                    yields = yields + below@.1;
                    assert(acc@ =~= old(acc)@ + kept(yields));
                }
                i += 1;
            }
        },
        Node::Sequence(items) => {
            assert(entries_of(visited) =~= seq![val@].filter_map(pick));
            assert(acc@ =~= old(acc)@ + kept(yields));
            assert(seq![val@] + val@.nodes_below(0) =~= seq![val@]);
            let mut i: usize = 0;
            while i < items.len()
                invariant
                    i <= items.len(),
                    *val == Node::Sequence(*items),
                    pick == |node: Tree| node.as_mapping(),
                    val@.children().len() == items@.len(),
                    forall|k: int|
                        0 <= k < items@.len() ==> val@.children()[k] == (#[trigger] items@[k])@,
                    forall|m: MapNode|
                        val@.nodes().contains(Tree::Mapping(m@)) ==> call_requires(
                            *filter_map,
                            (&m,),
                        ),
                    entries_of(visited) == (seq![val@] + val@.nodes_below(i as nat)).filter_map(
                        pick,
                    ),
                    answered(*filter_map, visited, yields),
                    acc@ == old(acc)@ + kept(yields),
                decreases items.len() - i,
            {
                proof {
                    lemma_child_nodes(val@, i as int);
                }
                let below = filter_mapping_visitor(&items[i], acc, filter_map);
                proof {
                    let head = seq![val@] + val@.nodes_below(i as nat);
                    let tail = val@.children()[i as int].nodes();
                    assert(seq![val@] + val@.nodes_below((i + 1) as nat) =~= head + tail);
                    lemma_filter_map_concat(head, tail, pick);
                    lemma_filter_map_concat(yields, below@.1, |y: Option<T>| y);
                    assert(entries_of(visited + below@.0) =~= entries_of(visited) + entries_of(
                        below@.0,
                    ));
                    visited = visited + below@.0;
                    yields = yields + below@.1;
                    assert(acc@ =~= old(acc)@ + kept(yields));
                }
                i += 1;
            }
        },
        _ => {
            assert(entries_of(visited) =~= val@.mappings());
            assert(acc@ =~= old(acc)@ + kept(yields));
        },
    }
    Ghost((visited, yields))
}

/// The segments that hold content, in order.
pub open spec fn with_content(segments: Seq<Seq<char>>) -> Seq<Seq<char>> {
    segments.filter_map(
        |segment: Seq<char>|
            if has_content(segment) {
                Some(segment)
            } else {
                None
            },
    )
}

/// How many of `segments` hold only blank lines and comments.
pub open spec fn count_blank(segments: Seq<Seq<char>>) -> nat
    decreases segments.len(),
{
    if segments.len() == 0 {
        0
    } else if has_content(segments.last()) {
        count_blank(segments.drop_last())
    } else {
        count_blank(segments.drop_last()) + 1
    }
}

/// Of `n` segments of which `m` hold only blank lines and comments, a corpus
/// holds `n - m` documents: one for each segment with content, in the order
/// of the segments.
pub proof fn lemma_documents_of_segments(segments: Seq<Seq<char>>)
    requires
        forall|k: int| !unreadable(segments, k),
    ensures
        documents_in(segments).len() == segments.len() - count_blank(segments),
        documents_in(segments) == with_content(segments).map_values(
            |segment: Seq<char>| yaml_document(segment)->0,
        ),
    decreases segments.len(),
{
    let read = |segment: Seq<char>| yaml_document(segment)->0;
    if segments.len() == 0 {
        assert(documents_in(segments) =~= with_content(segments).map_values(read));
    } else {
        let rest = segments.drop_last();
        assert forall|k: int| !unreadable(rest, k) by {
            if 0 <= k < rest.len() {
                assert(!unreadable(segments, k));
                assert(rest[k] == segments[k]);
            }
        }
        lemma_documents_of_segments(rest);
        assert(!unreadable(segments, segments.len() - 1));
        if has_content(segments.last()) {
            assert(with_content(segments) == with_content(rest) + seq![segments.last()]);
            assert((with_content(rest) + seq![segments.last()]).map_values(read) =~= with_content(
                rest,
            ).map_values(read) + seq![read(segments.last())]);
        }
    }
}

/// A search keeps at most one result for each mapping of the corpus, and
/// exactly one where the function recognises every mapping.
pub proof fn lemma_total_traversal<T>(
    corpus: Corpus,
    visited: Seq<MapNode>,
    yields: Seq<Option<T>>,
)
    requires
        entries_of(visited) == corpus.mappings(),
        visited.len() == yields.len(),
    ensures
        kept(yields).len() <= corpus.mappings().len(),
        (forall|i: int| 0 <= i < yields.len() ==> yields[i] is Some) ==> kept(yields).len()
            == corpus.mappings().len(),
{
    assert(entries_of(visited).len() == visited.len());
    lemma_kept_len(yields);
}

proof fn lemma_kept_len<T>(yields: Seq<Option<T>>)
    ensures
        kept(yields).len() <= yields.len(),
        (forall|i: int| 0 <= i < yields.len() ==> yields[i] is Some) ==> kept(yields).len()
            == yields.len(),
    decreases yields.len(),
{
    if yields.len() > 0 {
        lemma_kept_len(yields.drop_last());
        if forall|i: int| 0 <= i < yields.len() ==> yields[i] is Some {
            assert forall|i: int| 0 <= i < yields.drop_last().len() implies yields.drop_last()[i] is Some by {
                assert(yields[i] is Some);
            }
            assert(yields[yields.len() - 1] is Some);
        }
    }
}

proof fn lemma_child_nodes_below(tree: Tree, index: int, count: nat)
    requires
        0 <= index < count <= tree.children().len(),
    ensures
        forall|node: Tree| #[trigger]
            tree.children()[index].nodes().contains(node) ==> tree.nodes_below(count).contains(
                node,
            ),
    decreases count,
{
    let head = tree.nodes_below((count - 1) as nat);
    let tail = tree.children()[count - 1].nodes();
    assert(tree.nodes_below(count) == head + tail);
    lemma_concat_contains(head, tail);
    if index < count - 1 {
        lemma_child_nodes_below(tree, index, (count - 1) as nat);
    }
}

/// Every node of a child of `tree` is a node of `tree`.
pub proof fn lemma_child_nodes(tree: Tree, index: int)
    requires
        0 <= index < tree.children().len(),
    ensures
        forall|node: Tree| #[trigger]
            tree.children()[index].nodes().contains(node) ==> tree.nodes().contains(node),
{
    lemma_child_nodes_below(tree, index, tree.children().len());
    lemma_concat_contains(seq![tree], tree.nodes_below(tree.children().len()));
}

/// Every node of a tree of a forest is a node of the forest.
pub proof fn lemma_forest_member(trees: Seq<Tree>, index: int)
    requires
        0 <= index < trees.len(),
    ensures
        forall|node: Tree| #[trigger]
            trees[index].nodes().contains(node) ==> forest_nodes(trees).contains(node),
    decreases trees.len(),
{
    let head = forest_nodes(trees.drop_last());
    let tail = trees.last().nodes();
    lemma_concat_contains(head, tail);
    if index < trees.len() - 1 {
        lemma_forest_member(trees.drop_last(), index);
    }
    assert forall|node: Tree| #[trigger]
        trees[index].nodes().contains(node) implies forest_nodes(trees).contains(node) by {
        if index < trees.len() - 1 {
            assert(trees.drop_last()[index].nodes().contains(node));
            assert(head.contains(node));
        } else {
            assert(tail.contains(node));
        }
        assert((head + tail).contains(node));
    }
}

} // verus!
