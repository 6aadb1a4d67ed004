//! Documents as trees of scalars, lists and tables, and the YAML reader that
//! makes them.

use vstd::prelude::*;
use yaml_rust::{ScanError, Yaml, YamlLoader};
use crate::text::str_equal;

verus! {

/// `yaml_rust::Yaml`, which only the reader below looks into.
#[verifier::external_type_specification]
#[verifier::external_body]
pub struct ExYaml(Yaml);

/// A node of a document. The variants are those of a YAML value.
#[derive(Debug, PartialEq, Eq)]
pub enum Node {
    /// A floating-point scalar, kept as it was written.
    Real(String),
    Integer(i64),
    /// A string scalar.
    Text(String),
    Boolean(bool),
    /// A sequence of nodes.
    List(Vec<Node>),
    /// A mapping, as its entries in the order of the document.
    Table(Vec<(Node, Node)>),
    Alias(usize),
    Null,
    /// What stands for an empty document or a scalar that contradicts its tag.
    BadValue,
}

/// A document node with its texts as sequences of characters.
pub ghost enum Tree {
    Real(Seq<char>),
    Integer(i64),
    Text(Seq<char>),
    Boolean(bool),
    List(Seq<Tree>),
    Table(Seq<(Tree, Tree)>),
    Alias(usize),
    Null,
    BadValue,
}

/// The tree of a node.
pub open spec fn tree_of(node: Node) -> Tree
    decreases node,
{
    match node {
        Node::Real(s) => Tree::Real(s@),
        Node::Integer(i) => Tree::Integer(i),
        Node::Text(s) => Tree::Text(s@),
        Node::Boolean(b) => Tree::Boolean(b),
        Node::List(items) => Tree::List(
            Seq::new(
                items@.len(),
                |i: int|
                    if 0 <= i < items@.len() {
                        tree_of(items@[i])
                    } else {
                        Tree::Null
                    },
            ),
        ),
        Node::Table(entries) => Tree::Table(
            Seq::new(
                entries@.len(),
                |i: int|
                    if 0 <= i < entries@.len() {
                        (tree_of(entries@[i].0), tree_of(entries@[i].1))
                    } else {
                        (Tree::Null, Tree::Null)
                    },
            ),
        ),
        Node::Alias(n) => Tree::Alias(n),
        Node::Null => Tree::Null,
        Node::BadValue => Tree::BadValue,
    }
}

impl View for Node {
    type V = Tree;

    open spec fn view(&self) -> Tree {
        tree_of(*self)
    }
}

/// The trees of a sequence of nodes.
pub open spec fn trees(items: Seq<Node>) -> Seq<Tree> {
    Seq::new(items.len(), |i: int| items[i]@)
}

/// The trees of the entries of a table.
pub open spec fn entry_trees(entries: Seq<(Node, Node)>) -> Seq<(Tree, Tree)> {
    Seq::new(entries.len(), |i: int| (entries[i].0@, entries[i].1@))
}

/// The value of the first entry of a table whose key is the string `key`.
pub open spec fn find(entries: Seq<(Tree, Tree)>, key: Seq<char>) -> Option<Tree>
    decreases entries.len(),
{
    if entries.len() == 0 {
        None
    } else if entries[0].0 == Tree::Text(key) {
        Some(entries[0].1)
    } else {
        find(entries.drop_first(), key)
    }
}

/// The documents that `yaml_rust` reads from a text, or `None` where it
/// reports a scanning error.
pub uninterp spec fn yaml_documents(text: Seq<char>) -> Option<Seq<Tree>>;

/// Copies a `yaml_rust::Yaml` value into a [`Node`], variant by variant: a
/// `Yaml::String` becomes a `Text`, an `Array` a `List` of its items in
/// order, a `Hash` a `Table` of its entries in the order in which the hash
/// iterates, which is that of insertion.
#[verifier::external_body]
fn node_from_yaml(yaml: &Yaml) -> Node {
    match yaml {
        Yaml::Real(s) => Node::Real(s.clone()),
        Yaml::Integer(i) => Node::Integer(*i),
        Yaml::String(s) => Node::Text(s.clone()),
        Yaml::Boolean(b) => Node::Boolean(*b),
        Yaml::Array(a) => Node::List(a.iter().map(node_from_yaml).collect()),
        Yaml::Hash(h) => Node::Table(
            h.iter().map(|(k, v)| (node_from_yaml(k), node_from_yaml(v))).collect(),
        ),
        Yaml::Alias(n) => Node::Alias(*n),
        Yaml::Null => Node::Null,
        Yaml::BadValue => Node::BadValue,
    }
}

/// `yaml_rust::YamlLoader::load_from_str`, with each document copied into a
/// [`Node`]. The loader reads the text and nothing else, so the documents are
/// a function of the text: the contract names them and tells a scanning
/// error from a success.
#[verifier::external_body]
pub(crate) fn load_yaml(text: &str) -> (r: Result<Vec<Node>, ScanError>)
    ensures
        match r {
            Ok(docs) => yaml_documents(text@) == Some(trees(docs@)),
            Err(_) => yaml_documents(text@) is None,
        },
{
    let docs = YamlLoader::load_from_str(text)?;
    Ok(docs.iter().map(node_from_yaml).collect())
}

impl Node {
    /// The text of a string scalar.
    pub fn as_str(&self) -> (r: Option<&str>)
        ensures
            match r {
                Some(s) => self@ == Tree::Text(s@),
                None => !(self@ is Text),
            },
    {
        match self {
            Node::Text(s) => Some(s.as_str()),
            _ => None,
        }
    }

    /// The tree of a list is the list of the trees of its items.
    pub proof fn lemma_list_view(items: Vec<Node>)
        ensures
            Node::List(items)@ == Tree::List(trees(items@)),
    {
        assert(Node::List(items)@->List_0 =~= trees(items@));
    }

    /// The tree of a table is the sequence of the trees of its entries.
    pub proof fn lemma_table_view(entries: Vec<(Node, Node)>)
        ensures
            Node::Table(entries)@ == Tree::Table(entry_trees(entries@)),
    {
        assert(Node::Table(entries)@->Table_0 =~= entry_trees(entries@));
    }
}

/// Looks a string key up in the entries of a table.
pub fn find_entry<'a>(entries: &'a Vec<(Node, Node)>, key: &str) -> (r: Option<&'a Node>)
    ensures
        match r {
            Some(node) => find(entry_trees(entries@), key@) == Some(node@),
            None => find(entry_trees(entries@), key@) is None,
        },
{
    let ghost all = entry_trees(entries@);
    let mut i: usize = 0;
    assert(all.skip(0) == all);
    while i < entries.len()
        invariant
            i <= entries@.len(),
            all == entry_trees(entries@),
            find(all, key@) == find(all.skip(i as int), key@),
        decreases entries@.len() - i,
    {
        let entry = &entries[i];
        assert(all.skip(i as int)[0] == all[i as int]);
        assert(all.skip(i as int).drop_first() == all.skip(i + 1));
        match entry.0.as_str() {
            Some(s) => {
                if str_equal(s, key) {
                    return Some(&entry.1);
                }
            },
            None => {},
        }
        i += 1;
    }
    None
}

} // verus!
