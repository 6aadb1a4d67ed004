//! The database of file types: which pattern belongs to which category.

use vstd::prelude::*;
use crate::document::{entry_trees, load_yaml, trees, yaml_documents, Node, Tree};
use crate::error::{viewed, Failure, VividError};
use crate::text::{clone_strings, str_equal, texts};
use crate::types::{Category, FileType};

verus! {

/// The patterns of a database, each with its category, in the order of the
/// document. No pattern occurs twice in a database that was read from a
/// document.
#[derive(Debug)]
pub struct FileTypes {
    pub mapping: Vec<(FileType, Category)>,
}

/// A file type as the database names it, with the category it stands under.
pub type Item = (Seq<char>, Seq<Seq<char>>);

impl View for FileTypes {
    type V = Seq<(Seq<char>, Seq<Seq<char>>)>;

    open spec fn view(&self) -> Seq<(Seq<char>, Seq<Seq<char>>)> {
        self.mapping@.map_values(|entry: (FileType, Category)| (entry.0@, texts(entry.1@)))
    }
}

/// A letter of `A` to `Z` as its lower-case letter, any other character as
/// itself.
pub open spec fn lower(c: char) -> char {
    if 'A' <= c <= 'Z' {
        (c as int + 32) as char
    } else {
        c
    }
}

/// The pattern that a file type of the database stands for. After a `$` comes
/// a whole file name, which is kept as it is. Anything else is the end of a
/// file name: it is lower-cased, letter by letter of `A` to `Z`, and put
/// behind a `*`.
pub open spec fn pattern_of(filetype: Seq<char>) -> Seq<char> {
    if filetype.len() > 0 && filetype[0] == '$' {
        filetype.skip(1)
    } else {
        seq!['*'] + filetype.map_values(|c: char| lower(c))
    }
}

/// Whether one of the items stands for the pattern.
pub open spec fn has_pattern(items: Seq<Item>, pattern: Seq<char>) -> bool {
    exists|i: int| 0 <= i < items.len() && pattern_of(#[trigger] items[i].0) == pattern
}

/// Whether no two of the items stand for one pattern.
pub open spec fn distinct_patterns(items: Seq<Item>) -> bool {
    forall|i: int, j: int|
        0 <= i < j < items.len() ==> pattern_of(#[trigger] items[i].0) != pattern_of(
            #[trigger] items[j].0,
        )
}

/// The first of `more` whose pattern one of `items` stands for already.
pub open spec fn first_clash(items: Seq<Item>, more: Seq<Item>) -> Option<Seq<char>>
    decreases more.len(),
{
    if more.len() == 0 {
        None
    } else if has_pattern(items, pattern_of(more[0].0)) {
        Some(more[0].0)
    } else {
        first_clash(items, more.drop_first())
    }
}

/// The items of a list of file types under one category. Each has to be a
/// string whose pattern none before it in the list stands for.
pub open spec fn flatten_list(items: Seq<Tree>, category: Seq<Seq<char>>) -> Result<
    Seq<Item>,
    Failure,
>
    decreases items.len(),
{
    if items.len() == 0 {
        Ok(Seq::empty())
    } else {
        match flatten_list(items.drop_last(), category) {
            Err(e) => Err(e),
            Ok(done) => match items.last() {
                Tree::Text(filetype) => if has_pattern(done, pattern_of(filetype)) {
                    Err(Failure::DuplicateFileType(filetype))
                } else {
                    Ok(done.push((filetype, category)))
                },
                _ => Err(Failure::UnexpectedYamlType),
            },
        }
    }
}

/// The category of the children under a key: a string key adds a segment.
pub open spec fn child_category(category: Seq<Seq<char>>, key: Tree) -> Seq<Seq<char>> {
    match key {
        Tree::Text(segment) => category.push(segment),
        _ => category,
    }
}

/// The items of a subtree of the database that stands under `category`. A
/// list holds file types of that category; a table holds, under each key, the
/// subtree of a child category. Anything else is a failure.
pub open spec fn flatten(node: Tree, category: Seq<Seq<char>>) -> Result<Seq<Item>, Failure>
    decreases node, 0int,
{
    match node {
        Tree::List(items) => flatten_list(items, category),
        Tree::Table(entries) => flatten_table(entries, entries.len() as int, category),
        _ => Err(Failure::UnexpectedYamlType),
    }
}

/// The items of the first `n` entries of a table. The subtrees are taken in
/// order; the first that fails, or that holds a file type whose pattern an
/// earlier subtree stands for, decides the failure.
pub open spec fn flatten_table(entries: Seq<(Tree, Tree)>, n: int, category: Seq<Seq<char>>) -> Result<
    Seq<Item>,
    Failure,
>
    decreases entries, n,
{
    if n <= 0 || n > entries.len() {
        Ok(Seq::empty())
    } else {
        match flatten_table(entries, n - 1, category) {
            Err(e) => Err(e),
            Ok(done) => match flatten(entries[n - 1].1, child_category(category, entries[n - 1].0)) {
                Err(e) => Err(e),
                Ok(more) => match first_clash(done, more) {
                    Some(filetype) => Err(Failure::DuplicateFileType(filetype)),
                    None => Ok(done + more),
                },
            },
        }
    }
}

/// The database that a subtree describes: each item under its pattern.
pub open spec fn mapping_of(node: Tree, category: Seq<Seq<char>>) -> Result<
    Seq<(Seq<char>, Seq<Seq<char>>)>,
    Failure,
> {
    match flatten(node, category) {
        Ok(items) => Ok(items.map_values(|item: Item| (pattern_of(item.0), item.1))),
        Err(e) => Err(e),
    }
}

/// The database that the documents of a file describe: that of the first
/// document, from the empty category. A file without a document describes
/// none.
pub open spec fn mapping_of_documents(documents: Seq<Tree>) -> Result<
    Seq<(Seq<char>, Seq<Seq<char>>)>,
    Failure,
> {
    if documents.len() == 0 {
        Err(Failure::UnexpectedYamlType)
    } else {
        mapping_of(documents[0], Seq::empty())
    }
}

/// Whether no pattern occurs twice in a database.
pub open spec fn patterns_occur_once(mapping: Seq<(Seq<char>, Seq<Seq<char>>)>) -> bool {
    forall|i: int, j: int|
        0 <= i < j < mapping.len() ==> (#[trigger] mapping[i]).0 != (#[trigger] mapping[j]).0
}

/// Whether every entry of a database has a category of at least one segment.
pub open spec fn categories_given(mapping: Seq<(Seq<char>, Seq<Seq<char>>)>) -> bool {
    forall|i: int| 0 <= i < mapping.len() ==> (#[trigger] mapping[i]).1.len() > 0
}

/// The category of the first entry of a database with the given pattern.
pub open spec fn category_of(
    mapping: Seq<(Seq<char>, Seq<Seq<char>>)>,
    pattern: Seq<char>,
) -> Option<Seq<Seq<char>>>
    decreases mapping.len(),
{
    if mapping.len() == 0 {
        None
    } else if mapping[0].0 == pattern {
        Some(mapping[0].1)
    } else {
        category_of(mapping.drop_first(), pattern)
    }
}

/// A file type on its way into the database: as it was written, as the
/// pattern it stands for, and with its category.
struct Leaf {
    filetype: String,
    pattern: String,
    category: Category,
}

spec fn items_of(leaves: Seq<Leaf>) -> Seq<Item> {
    leaves.map_values(|leaf: Leaf| (leaf.filetype@, texts(leaf.category@)))
}

spec fn patterns_match(leaves: Seq<Leaf>) -> bool {
    forall|i: int| 0 <= i < leaves.len() ==> (#[trigger] leaves[i]).pattern@ == pattern_of(
        leaves[i].filetype@,
    )
}

/// What collecting the leaves of a subtree has to return.
spec fn collected(r: Result<Vec<Leaf>, VividError>, expected: Result<Seq<Item>, Failure>) -> bool {
    match expected {
        Ok(items) => r matches Ok(leaves) && items_of(leaves@) == items && patterns_match(leaves@),
        Err(e) => r matches Err(failure) && failure@ == e,
    }
}

fn lower_char(c: char) -> (l: char)
    ensures
        l == lower(c),
{
    let n: u32 = c as u32;
    if 65 <= n && n <= 90 {
        ((n + 32) as u8) as char
    } else {
        c
    }
}

fn holds_pattern(leaves: &Vec<Leaf>, pattern: &str) -> (r: bool)
    requires
        patterns_match(leaves@),
    ensures
        r == has_pattern(items_of(leaves@), pattern@),
{
    let mut i: usize = 0;
    while i < leaves.len()
        invariant
            i <= leaves@.len(),
            patterns_match(leaves@),
            forall|j: int| 0 <= j < i ==> pattern_of(#[trigger] items_of(leaves@)[j].0) != pattern@,
        decreases leaves@.len() - i,
    {
        if str_equal(leaves[i].pattern.as_str(), pattern) {
            assert(pattern_of(items_of(leaves@)[i as int].0) == pattern@);
            return true;
        }
        i += 1;
    }
    false
}

fn clash(leaves: &Vec<Leaf>, more: &Vec<Leaf>) -> (r: Option<String>)
    requires
        patterns_match(leaves@),
        patterns_match(more@),
    ensures
        match first_clash(items_of(leaves@), items_of(more@)) {
            Some(filetype) => r matches Some(found) && found@ == filetype,
            None => r is None,
        },
{
    let ghost all = items_of(more@);
    let mut i: usize = 0;
    assert(all.skip(0) == all);
    while i < more.len()
        invariant
            i <= more@.len(),
            all == items_of(more@),
            patterns_match(leaves@),
            patterns_match(more@),
            first_clash(items_of(leaves@), all) == first_clash(
                items_of(leaves@),
                all.skip(i as int),
            ),
        decreases more@.len() - i,
    {
        assert(all.skip(i as int)[0] == all[i as int]);
        assert(all.skip(i as int).drop_first() == all.skip(i + 1));
        if holds_pattern(leaves, more[i].pattern.as_str()) {
            return Some(more[i].filetype.clone());
        }
        i += 1;
    }
    None
}

fn collect_list(items: &Vec<Node>, category: &Category) -> (r: Result<Vec<Leaf>, VividError>)
    ensures
        collected(r, flatten_list(trees(items@), texts(category@))),
{
    let ghost all = trees(items@);
    let ghost under = texts(category@);
    let mut leaves: Vec<Leaf> = Vec::new();
    let mut i: usize = 0;
    assert(items_of(leaves@) == Seq::<Item>::empty());
    while i < items.len()
        invariant
            i <= items@.len(),
            all == trees(items@),
            under == texts(category@),
            patterns_match(leaves@),
            flatten_list(all.take(i as int), under) == Ok::<Seq<Item>, Failure>(items_of(leaves@)),
        decreases items@.len() - i,
    {
        proof {
            assert(all.take(i + 1).drop_last() == all.take(i as int));
            assert(all.take(i + 1).last() == items@[i as int]@);
        }
        match items[i].as_str() {
            Some(filetype) => {
                let pattern = FileTypes::get_code(filetype);
                if holds_pattern(&leaves, pattern.as_str()) {
                    proof {
                        lemma_list_failure(all, under, i + 1);
                    }
                    return Err(VividError::DuplicateFileType(String::from_str(filetype)));
                }
                let ghost before = leaves@;
                let leaf = Leaf {
                    filetype: String::from_str(filetype),
                    pattern,
                    category: clone_strings(category.as_slice()),
                };
                leaves.push(leaf);
                assert(items_of(leaves@) == items_of(before).push((filetype@, under)));
            },
            None => {
                proof {
                    lemma_list_failure(all, under, i + 1);
                }
                return Err(VividError::UnexpectedYamlType);
            },
        }
        i += 1;
    }
    assert(all.take(i as int) == all);
    Ok(leaves)
}

/// A failure among the first `n` file types of a list is the failure of the
/// whole list.
proof fn lemma_list_failure(items: Seq<Tree>, category: Seq<Seq<char>>, n: int)
    requires
        0 <= n <= items.len(),
        flatten_list(items.take(n), category) is Err,
    ensures
        flatten_list(items, category) == flatten_list(items.take(n), category),
    decreases items.len() - n,
{
    if n < items.len() {
        assert(items.take(n + 1).drop_last() == items.take(n));
        lemma_list_failure(items, category, n + 1);
    } else {
        assert(items.take(n) == items);
    }
}

/// A failure among the first `n` entries of a table is the failure of the
/// whole table.
proof fn lemma_table_failure(entries: Seq<(Tree, Tree)>, category: Seq<Seq<char>>, n: int)
    requires
        0 <= n <= entries.len(),
        flatten_table(entries, n, category) is Err,
    ensures
        flatten_table(entries, entries.len() as int, category) == flatten_table(
            entries,
            n,
            category,
        ),
    decreases entries.len() - n,
{
    if n < entries.len() {
        lemma_table_failure(entries, category, n + 1);
    }
}

fn collect(value: &Node, category: &Category) -> (r: Result<Vec<Leaf>, VividError>)
    ensures
        collected(r, flatten(value@, texts(category@))),
    decreases value,
{
    match value {
        Node::List(items) => {
            proof {
                Node::lemma_list_view(*items);
            }
            collect_list(items, category)
        },
        Node::Table(map) => {
            proof {
                Node::lemma_table_view(*map);
            }
            let ghost all = entry_trees(map@);
            let ghost under = texts(category@);
            let mut leaves: Vec<Leaf> = Vec::new();
            let mut i: usize = 0;
            assert(items_of(leaves@) == Seq::<Item>::empty());
            while i < map.len()
                invariant
                    i <= map@.len(),
                    all == entry_trees(map@),
                    under == texts(category@),
                    value == Node::Table(*map),
                    flatten(value@, under) == flatten_table(all, all.len() as int, under),
                    patterns_match(leaves@),
                    flatten_table(all, i as int, under) == Ok::<Seq<Item>, Failure>(
                        items_of(leaves@),
                    ),
                decreases map@.len() - i,
            {
                let entry = &map[i];
                let mut below = clone_strings(category.as_slice());
                match entry.0.as_str() {
                    Some(segment) => {
                        let ghost before = below@;
                        below.push(String::from_str(segment));
                        assert(texts(below@) == texts(before).push(segment@));
                    },
                    None => {},
                }
                assert(texts(below@) == child_category(under, all[i as int].0));
                let mut more = match collect(&entry.1, &below) {
                    Ok(more) => more,
                    Err(e) => {
                        proof {
                            lemma_table_failure(all, under, i + 1);
                        }
                        return Err(e);
                    },
                };
                match clash(&leaves, &more) {
                    Some(filetype) => {
                        proof {
                            lemma_table_failure(all, under, i + 1);
                        }
                        return Err(VividError::DuplicateFileType(filetype));
                    },
                    None => {},
                }
                let ghost before = leaves@;
                let ghost added = more@;
                leaves.append(&mut more);
                assert(items_of(leaves@) == items_of(before) + items_of(added));
                i += 1;
            }
            Ok(leaves)
        },
        _ => Err(VividError::UnexpectedYamlType),
    }
}

impl FileTypes {
    /// The pattern that a file type of the database stands for.
    pub fn get_code(filetype: &str) -> (code: String)
        ensures
            code@ == pattern_of(filetype@),
    {
        let n = filetype.unicode_len();
        if n > 0 && filetype.get_char(0) == '$' {
            String::from_str(filetype.substring_char(1, n))
        } else {
            let mut code = String::new();
            code.push('*');
            let mut i: usize = 0;
            while i < n
                invariant
                    i <= n,
                    n == filetype@.len(),
                    code@ == seq!['*'] + filetype@.take(i as int).map_values(|c: char| lower(c)),
                decreases n - i,
            {
                code.push(lower_char(filetype.get_char(i)));
                assert(filetype@.take(i + 1) == filetype@.take(i as int).push(filetype@[i as int]));
                i += 1;
            }
            assert(filetype@.take(n as int) == filetype@);
            code
        }
    }

    /// The database that a subtree of a document describes, with `category`
    /// as the category that the subtree stands under.
    pub fn get_mapping(value: &Node, category: &Category) -> (r: Result<FileTypes, VividError>)
        ensures
            viewed(r) == mapping_of(value@, texts(category@)),
            r matches Ok(database) ==> patterns_occur_once(database@),
    {
        proof {
            lemma_patterns_occur_once(value@, texts(category@));
        }
        let leaves = match collect(value, category) {
            Ok(leaves) => leaves,
            Err(e) => {
                return Err(e);
            },
        };
        let ghost items = items_of(leaves@);
        let ghost expected = items.map_values(|item: Item| (pattern_of(item.0), item.1));
        let mut mapping: Vec<(FileType, Category)> = Vec::new();
        let mut i: usize = 0;
        while i < leaves.len()
            invariant
                i <= leaves@.len(),
                patterns_match(leaves@),
                items == items_of(leaves@),
                expected == items.map_values(|item: Item| (pattern_of(item.0), item.1)),
                mapping@.len() == i,
                forall|j: int|
                    0 <= j < i ==> ((#[trigger] mapping@[j]).0@, texts(mapping@[j].1@))
                        == expected[j],
            decreases leaves@.len() - i,
        {
            let leaf = &leaves[i];
            mapping.push((leaf.pattern.clone(), clone_strings(leaf.category.as_slice())));
            i += 1;
        }
        let database = FileTypes { mapping };
        assert(database@ == expected);
        Ok(database)
    }

    /// The database that the documents of a file describe.
    pub fn from_documents(documents: &Vec<Node>) -> (r: Result<FileTypes, VividError>)
        ensures
            viewed(r) == mapping_of_documents(trees(documents@)),
            r matches Ok(database) ==> patterns_occur_once(database@),
    {
        if documents.len() == 0 {
            Err(VividError::UnexpectedYamlType)
        } else {
            let root: Category = Vec::new();
            assert(texts(root@) == Seq::<Seq<char>>::empty());
            assert(trees(documents@)[0] == documents@[0]@);
            FileTypes::get_mapping(&documents[0], &root)
        }
    }

    /// Reads a database from the text of a YAML file. Where the text does not
    /// scan, the reader's error is handed on; else the database is that of
    /// the documents read.
    pub fn from_string(contents: &str) -> (r: Result<FileTypes, VividError>)
        ensures
            match yaml_documents(contents@) {
                Some(documents) => viewed(r) == mapping_of_documents(documents),
                None => r matches Err(VividError::YamlParsingError(_)),
            },
            r matches Ok(database) ==> patterns_occur_once(database@),
    {
        match load_yaml(contents) {
            Ok(documents) => FileTypes::from_documents(&documents),
            Err(e) => Err(VividError::YamlParsingError(e)),
        }
    }

    /// Whether every entry has a category of at least one segment, as
    /// resolving its style asks.
    pub fn has_categories(&self) -> (r: bool)
        ensures
            r == categories_given(self@),
    {
        let mut i: usize = 0;
        while i < self.mapping.len()
            invariant
                i <= self.mapping@.len(),
                forall|j: int| 0 <= j < i ==> (#[trigger] self@[j]).1.len() > 0,
            decreases self.mapping@.len() - i,
        {
            if self.mapping[i].1.len() == 0 {
                assert(self@[i as int].1.len() == 0);
                return false;
            }
            assert(self@[i as int].1.len() == self.mapping@[i as int].1@.len());
            i += 1;
        }
        true
    }

    /// The category of a pattern, if the database holds it.
    pub fn get(&self, filetype: &str) -> (r: Option<&Category>)
        ensures
            match category_of(self@, filetype@) {
                Some(category) => r matches Some(found) && texts(found@) == category,
                None => r is None,
            },
    {
        let mut i: usize = 0;
        assert(self@.skip(0) == self@);
        while i < self.mapping.len()
            invariant
                i <= self.mapping@.len(),
                category_of(self@, filetype@) == category_of(self@.skip(i as int), filetype@),
            decreases self.mapping@.len() - i,
        {
            assert(self@.skip(i as int)[0] == self@[i as int]);
            assert(self@.skip(i as int).drop_first() == self@.skip(i + 1));
            if str_equal(self.mapping[i].0.as_str(), filetype) {
                return Some(&self.mapping[i].1);
            }
            i += 1;
        }
        None
    }
}

/// Where nothing clashes, none of the new items stands for a pattern that
/// one of the old ones stands for.
proof fn lemma_no_clash(items: Seq<Item>, more: Seq<Item>)
    requires
        first_clash(items, more) is None,
    ensures
        forall|j: int| 0 <= j < more.len() ==> !has_pattern(items, pattern_of(#[trigger] more[j].0)),
    decreases more.len(),
{
    if more.len() > 0 {
        lemma_no_clash(items, more.drop_first());
        assert forall|j: int| 0 <= j < more.len() implies !has_pattern(
            items,
            pattern_of(#[trigger] more[j].0),
        ) by {
            if j > 0 {
                assert(more[j] == more.drop_first()[j - 1]);
            }
        }
    }
}

proof fn lemma_list_distinct(items: Seq<Tree>, category: Seq<Seq<char>>)
    ensures
        flatten_list(items, category) matches Ok(found) ==> distinct_patterns(found),
    decreases items.len(),
{
    if items.len() > 0 {
        lemma_list_distinct(items.drop_last(), category);
    }
}

proof fn lemma_table_distinct(entries: Seq<(Tree, Tree)>, n: int, category: Seq<Seq<char>>)
    ensures
        flatten_table(entries, n, category) matches Ok(found) ==> distinct_patterns(found),
    decreases entries, n,
{
    if 0 < n <= entries.len() {
        lemma_table_distinct(entries, n - 1, category);
        let below = child_category(category, entries[n - 1].0);
        lemma_flatten_distinct(entries[n - 1].1, below);
        match (flatten_table(entries, n - 1, category), flatten(entries[n - 1].1, below)) {
            (Ok(done), Ok(more)) => {
                if first_clash(done, more) is None {
                    lemma_no_clash(done, more);
                    let all = done + more;
                    assert forall|i: int, j: int| 0 <= i < j < all.len() implies pattern_of(
                        #[trigger] all[i].0,
                    ) != pattern_of(#[trigger] all[j].0) by {
                        if i < done.len() && j >= done.len() {
                            assert(all[j] == more[j - done.len()]);
                            assert(all[i] == done[i]);
                        } else if i >= done.len() {
                            assert(all[i] == more[i - done.len()]);
                            assert(all[j] == more[j - done.len()]);
                        }
                    }
                }
            },
            _ => {},
        }
    }
}

/// No two file types of a database stand for one pattern: a subtree in which
/// two do describes no database.
pub proof fn lemma_flatten_distinct(node: Tree, category: Seq<Seq<char>>)
    ensures
        flatten(node, category) matches Ok(found) ==> distinct_patterns(found),
    decreases node, 0int,
{
    match node {
        Tree::List(items) => {
            lemma_list_distinct(items, category);
        },
        Tree::Table(entries) => {
            lemma_table_distinct(entries, entries.len() as int, category);
        },
        _ => {},
    }
}

/// No pattern occurs twice in the database that a subtree describes.
pub proof fn lemma_patterns_occur_once(node: Tree, category: Seq<Seq<char>>)
    ensures
        mapping_of(node, category) matches Ok(mapping) ==> patterns_occur_once(mapping),
{
    lemma_flatten_distinct(node, category);
}

/// The items of a list are its file types, one for one and in order, each
/// under the category of the list.
pub proof fn lemma_list_items(items: Seq<Tree>, category: Seq<Seq<char>>)
    ensures
        flatten_list(items, category) matches Ok(found) ==> found.len() == items.len()
            && forall|i: int|
            0 <= i < found.len() ==> items[i] == Tree::Text((#[trigger] found[i]).0) && found[i].1
                == category,
    decreases items.len(),
{
    if items.len() > 0 {
        lemma_list_items(items.drop_last(), category);
    }
}

proof fn lemma_table_categories(entries: Seq<(Tree, Tree)>, n: int, category: Seq<Seq<char>>)
    ensures
        flatten_table(entries, n, category) matches Ok(found) ==> forall|i: int|
            0 <= i < found.len() ==> category.is_prefix_of((#[trigger] found[i]).1),
    decreases entries, n,
{
    if 0 < n <= entries.len() {
        lemma_table_categories(entries, n - 1, category);
        let below = child_category(category, entries[n - 1].0);
        lemma_categories(entries[n - 1].1, below);
        match (flatten_table(entries, n - 1, category), flatten(entries[n - 1].1, below)) {
            (Ok(done), Ok(more)) => {
                let all = done + more;
                assert forall|i: int| 0 <= i < all.len() implies category.is_prefix_of(
                    (#[trigger] all[i]).1,
                ) by {
                    if i >= done.len() {
                        assert(all[i] == more[i - done.len()]);
                        assert(below.is_prefix_of(all[i].1));
                        assert(category.is_prefix_of(below));
                        assert(category == all[i].1.subrange(0, category.len() as int));
                    } else {
                        assert(all[i] == done[i]);
                    }
                }
            },
            _ => {},
        }
    }
}

/// Every file type of a subtree stands under a category that begins with the
/// category of the subtree.
pub proof fn lemma_categories(node: Tree, category: Seq<Seq<char>>)
    ensures
        flatten(node, category) matches Ok(found) ==> forall|i: int|
            0 <= i < found.len() ==> category.is_prefix_of((#[trigger] found[i]).1),
    decreases node, 0int,
{
    match node {
        Tree::List(items) => {
            lemma_list_items(items, category);
        },
        Tree::Table(entries) => {
            lemma_table_categories(entries, entries.len() as int, category);
        },
        _ => {},
    }
}

} // verus!
