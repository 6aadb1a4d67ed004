//! Font styles: the attribute codes that a theme asks for, besides colors.

use vstd::prelude::*;
use crate::document::{entry_trees, find, find_entry, trees, Node, Tree};
use crate::error::{viewed, Failure, VividError};
use crate::text::{decimal, decimal_string, join, join_strings, str_equal, texts};

verus! {

/// A list of font styles, each as its attribute code.
#[derive(Debug)]
pub struct FontStyle(Vec<u8>);

impl View for FontStyle {
    type V = Seq<u8>;

    closed spec fn view(&self) -> Seq<u8> {
        self.0@
    }
}

/// The attribute code of a font style, by its name.
pub open spec fn font_style_code(name: Seq<char>) -> Option<u8> {
    if name == "regular"@ {
        Some(0u8)
    } else if name == "bold"@ {
        Some(1u8)
    } else if name == "faint"@ {
        Some(2u8)
    } else if name == "italic"@ {
        Some(3u8)
    } else if name == "underline"@ {
        Some(4u8)
    } else if name == "blink"@ {
        Some(5u8)
    } else if name == "rapid-blink"@ {
        Some(6u8)
    } else if name == "overline"@ {
        Some(53u8)
    } else {
        None
    }
}

/// The code that a node names: the node has to be a string, and the string
/// the name of a font style.
pub open spec fn named_code(node: Tree) -> Result<u8, Failure> {
    match node {
        Tree::Text(name) => match font_style_code(name) {
            Some(code) => Ok(code),
            None => Err(Failure::UnknownFontStyle(name)),
        },
        _ => Err(Failure::UnexpectedYamlType),
    }
}

/// The codes that a list of nodes names, in order, or the failure of the
/// first node that names none.
pub open spec fn named_codes(items: Seq<Tree>) -> Result<Seq<u8>, Failure>
    decreases items.len(),
{
    if items.len() == 0 {
        Ok(Seq::empty())
    } else {
        match named_codes(items.drop_last()) {
            Err(e) => Err(e),
            Ok(codes) => match named_code(items.last()) {
                Ok(code) => Ok(codes.push(code)),
                Err(e) => Err(e),
            },
        }
    }
}

/// The font style of a table: what its `font-style` entry names, a single
/// name or a list of names, and the regular style where it has no such entry.
pub open spec fn font_style_of(entries: Seq<(Tree, Tree)>) -> Result<Seq<u8>, Failure> {
    match find(entries, "font-style"@) {
        None => Ok(seq![0u8]),
        Some(Tree::List(items)) => named_codes(items),
        Some(Tree::Text(name)) => match named_code(Tree::Text(name)) {
            Ok(code) => Ok(seq![code]),
            Err(e) => Err(e),
        },
        Some(_) => Err(Failure::UnexpectedYamlType),
    }
}

/// The numerals of a list of codes.
pub open spec fn numerals(codes: Seq<u8>) -> Seq<Seq<char>> {
    codes.map_values(|code: u8| decimal(code as nat))
}

/// The codes as parameters: their numerals in the given order, with
/// semicolons between them.
pub open spec fn parameters(codes: Seq<u8>) -> Seq<char> {
    join(numerals(codes), ";"@)
}

fn code_of_name(name: &str) -> (code: Option<u8>)
    ensures
        code == font_style_code(name@),
{
    if str_equal(name, "regular") {
        Some(0)
    } else if str_equal(name, "bold") {
        Some(1)
    } else if str_equal(name, "faint") {
        Some(2)
    } else if str_equal(name, "italic") {
        Some(3)
    } else if str_equal(name, "underline") {
        Some(4)
    } else if str_equal(name, "blink") {
        Some(5)
    } else if str_equal(name, "rapid-blink") {
        Some(6)
    } else if str_equal(name, "overline") {
        Some(53)
    } else {
        None
    }
}

fn code_of_node(node: &Node) -> (r: Result<u8, VividError>)
    ensures
        crate::error::outcome(r) == named_code(node@),
{
    match node.as_str() {
        Some(name) => match code_of_name(name) {
            Some(code) => Ok(code),
            None => Err(VividError::UnknownFontStyle(String::from_str(name))),
        },
        None => Err(VividError::UnexpectedYamlType),
    }
}

impl FontStyle {
    /// The font style of the entries of a table.
    pub fn from_yaml(map: &Vec<(Node, Node)>) -> (r: Result<FontStyle, VividError>)
        ensures
            viewed(r) == font_style_of(entry_trees(map@)),
    {
        match find_entry(map, "font-style") {
            None => Ok(FontStyle::default()),
            Some(Node::List(items)) => {
                proof {
                    Node::lemma_list_view(*items);
                }
                let ghost all = trees(items@);
                let mut codes: Vec<u8> = Vec::new();
                let mut i: usize = 0;
                while i < items.len()
                    invariant
                        i <= items@.len(),
                        all == trees(items@),
                        font_style_of(entry_trees(map@)) == named_codes(all),
                        named_codes(all.take(i as int)) == Ok::<Seq<u8>, Failure>(codes@),
                    decreases items@.len() - i,
                {
                    proof {
                        assert(all.take(i + 1).drop_last() == all.take(i as int));
                        assert(all.take(i + 1).last() == items@[i as int]@);
                    }
                    match code_of_node(&items[i]) {
                        Ok(code) => codes.push(code),
                        Err(e) => {
                            proof {
                                Self::lemma_first_failure(all, i + 1);
                            }
                            return Err(e);
                        },
                    }
                    i += 1;
                }
                assert(all.take(i as int) == all);
                Ok(FontStyle(codes))
            },
            Some(node) => match code_of_node(node) {
                Ok(code) => {
                    let codes = vec![code];
                    assert(codes@ == seq![code]);
                    Ok(FontStyle(codes))
                },
                Err(e) => Err(e),
            },
        }
    }

    /// A failure among the first `n` items is the failure of the whole list.
    proof fn lemma_first_failure(items: Seq<Tree>, n: int)
        requires
            0 <= n <= items.len(),
            named_codes(items.take(n)) is Err,
        ensures
            named_codes(items) == named_codes(items.take(n)),
        decreases items.len() - n,
    {
        if n < items.len() {
            assert(items.take(n + 1).drop_last() == items.take(n));
            Self::lemma_first_failure(items, n + 1);
        } else {
            assert(items.take(n) == items);
        }
    }

    /// The codes as parameters, in the order given and with semicolons
    /// between them.
    pub fn encode(&self) -> (s: String)
        ensures
            s@ == parameters(self@),
    {
        let mut parts: Vec<String> = Vec::new();
        let mut i: usize = 0;
        while i < self.0.len()
            invariant
                i <= self.0@.len(),
                texts(parts@) == numerals(self.0@).take(i as int),
            decreases self.0@.len() - i,
        {
            let ghost before = parts@;
            parts.push(decimal_string(self.0[i]));
            assert(texts(parts@) == texts(before).push(decimal(self.0@[i as int] as nat)));
            assert(numerals(self.0@).take(i + 1) == numerals(self.0@).take(i as int).push(
                decimal(self.0@[i as int] as nat),
            ));
            i += 1;
        }
        assert(numerals(self.0@).take(i as int) == numerals(self.0@));
        join_strings(parts.as_slice(), ";")
    }
}

impl Default for FontStyle {
    /// The regular style, which is what a table without a `font-style` entry
    /// has.
    fn default() -> (style: FontStyle)
        ensures
            style@ == seq![0u8],
    {
        let codes = vec![0u8];
        assert(codes@ == seq![0u8]);
        FontStyle(codes)
    }
}

} // verus!
