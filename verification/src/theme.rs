//! Themes: a palette of named colors and a tree of categories, and the style
//! that the tree gives to a category.

use vstd::prelude::*;
use crate::color::{parse_color, style_code, Color, ColorMode, ColorType};
use crate::document::{entry_trees, find, find_entry, load_yaml, trees, yaml_documents, Node, Tree};
use crate::error::{outcome, viewed, Failure, VividError};
use crate::font_style::{font_style_of, named_codes, parameters, FontStyle};
use crate::text::{join, join_strings, str_equal, texts};
use crate::types::CategoryRef;

verus! {

/// A theme: the colors it names, the tree of its categories, and the color
/// mode that its styles are encoded for.
#[derive(Debug)]
pub struct Theme {
    colors: Vec<(String, Color)>,
    categories: Node,
    color_mode: ColorMode,
}

/// A theme as its palette, its document and the color mode it encodes for.
pub ghost struct ThemeView {
    pub colors: Map<Seq<char>, Color>,
    pub categories: Tree,
    pub color_mode: ColorMode,
}

/// The palette that a list of definitions makes: a later definition of a name
/// replaces an earlier one.
pub open spec fn palette(definitions: Seq<(String, Color)>) -> Map<Seq<char>, Color>
    decreases definitions.len(),
{
    if definitions.len() == 0 {
        Map::empty()
    } else {
        palette(definitions.drop_last()).insert(definitions.last().0@, definitions.last().1)
    }
}

impl View for Theme {
    type V = ThemeView;

    closed spec fn view(&self) -> ThemeView {
        ThemeView {
            colors: palette(self.colors@),
            categories: self.categories@,
            color_mode: self.color_mode,
        }
    }
}

/// The palette that the entries of a `colors` table define: each entry has to
/// give a string name a string that spells a color. The first entry that does
/// not decides the failure.
pub open spec fn palette_of(entries: Seq<(Tree, Tree)>) -> Result<Map<Seq<char>, Color>, Failure>
    decreases entries.len(),
{
    if entries.len() == 0 {
        Ok(Map::empty())
    } else {
        match palette_of(entries.drop_last()) {
            Err(e) => Err(e),
            Ok(colors) => match entries.last() {
                (Tree::Text(name), Tree::Text(value)) => match parse_color(value) {
                    Ok(color) => Ok(colors.insert(name, color)),
                    Err(e) => Err(e),
                },
                _ => Err(Failure::UnexpectedYamlType),
            },
        }
    }
}

/// The theme that a document describes: a table whose `colors` entry is the
/// table of the palette, and which as a whole is the tree of categories.
pub open spec fn theme_of_document(document: Tree, color_mode: ColorMode) -> Result<
    ThemeView,
    Failure,
> {
    match document {
        Tree::Table(entries) => match find(entries, "colors"@) {
            Some(Tree::Table(definitions)) => match palette_of(definitions) {
                Ok(colors) => Ok(ThemeView { colors, categories: document, color_mode }),
                Err(e) => Err(e),
            },
            _ => Err(Failure::UnexpectedYamlType),
        },
        _ => Err(Failure::UnexpectedYamlType),
    }
}

/// The theme that the documents of a file describe: that of the last
/// document.
pub open spec fn theme_of_documents(documents: Seq<Tree>, color_mode: ColorMode) -> Result<
    ThemeView,
    Failure,
> {
    if documents.len() == 0 {
        Err(Failure::EmptyThemeFile)
    } else {
        theme_of_document(documents.last(), color_mode)
    }
}

/// The color that a reference stands for: the palette's where it defines the
/// name, else the color that the reference itself spells.
pub open spec fn resolve_color(colors: Map<Seq<char>, Color>, reference: Seq<char>) -> Result<
    Color,
    Failure,
> {
    if colors.contains_key(reference) {
        Ok(colors[reference])
    } else {
        match parse_color(reference) {
            Ok(color) => Ok(color),
            Err(_) => Err(Failure::UnknownColor(reference)),
        }
    }
}

/// Whether a table carries a style of its own.
pub open spec fn carries_style(entries: Seq<(Tree, Tree)>) -> bool {
    ||| find(entries, "foreground"@) is Some
    ||| find(entries, "background"@) is Some
    ||| find(entries, "font-style"@) is Some
}

/// The node that styles a category, found by walking down from `node` along
/// the segments of `path` from position `depth` on. The walk stops early at a
/// table that carries a style and has no child for the next segment. It fails
/// at a table that has neither, and at a node that is no table.
pub open spec fn descend(node: Tree, path: Seq<Seq<char>>, depth: int) -> Result<Tree, Failure>
    decreases path.len() - depth,
{
    if depth >= path.len() {
        Ok(node)
    } else {
        match node {
            Tree::Table(entries) => match find(entries, path[depth]) {
                Some(child) => descend(child, path, depth + 1),
                None => if carries_style(entries) {
                    Ok(node)
                } else {
                    Err(Failure::CouldNotFindStyleFor(join(path, "."@)))
                },
            },
            _ => Err(Failure::UnexpectedYamlType),
        }
    }
}

/// The color that a table names under `key`, if it has such an entry.
pub open spec fn color_entry(
    colors: Map<Seq<char>, Color>,
    entries: Seq<(Tree, Tree)>,
    key: Seq<char>,
) -> Result<Option<Color>, Failure> {
    match find(entries, key) {
        None => Ok(None),
        Some(Tree::Text(reference)) => match resolve_color(colors, reference) {
            Ok(color) => Ok(Some(color)),
            Err(e) => Err(e),
        },
        Some(_) => Err(Failure::UnexpectedYamlType),
    }
}

/// A style with the parameters of one more color: nothing is added for an
/// absent color, nor for one without parameters.
pub open spec fn with_color(
    style: Seq<char>,
    color: Option<Color>,
    colortype: ColorType,
    colormode: ColorMode,
) -> Seq<char> {
    match color {
        Some(color) => if style_code(color, colortype, colormode).len() == 0 {
            style
        } else {
            style + ";"@ + style_code(color, colortype, colormode)
        },
        None => style,
    }
}

/// The style that a node gives: its font style, then its foreground, then its
/// background. The first of the three that cannot be read decides the
/// failure.
pub open spec fn node_style(theme: ThemeView, node: Tree) -> Result<Seq<char>, Failure> {
    match node {
        Tree::Table(entries) => match font_style_of(entries) {
            Err(e) => Err(e),
            Ok(codes) => match color_entry(theme.colors, entries, "foreground"@) {
                Err(e) => Err(e),
                Ok(foreground) => match color_entry(theme.colors, entries, "background"@) {
                    Err(e) => Err(e),
                    Ok(background) => Ok(
                        with_color(
                            with_color(
                                parameters(codes),
                                foreground,
                                ColorType::Foreground,
                                theme.color_mode,
                            ),
                            background,
                            ColorType::Background,
                            theme.color_mode,
                        ),
                    ),
                },
            },
        },
        _ => Err(Failure::UnexpectedYamlType),
    }
}

/// The style of a category in a theme.
pub open spec fn style_for(theme: ThemeView, category: Seq<Seq<char>>) -> Result<
    Seq<char>,
    Failure,
> {
    match descend(theme.categories, category, 0) {
        Ok(node) => node_style(theme, node),
        Err(e) => Err(e),
    }
}

fn has_style(map: &Vec<(Node, Node)>) -> (r: bool)
    ensures
        r == carries_style(entry_trees(map@)),
{
    find_entry(map, "foreground").is_some() || find_entry(map, "background").is_some()
        || find_entry(map, "font-style").is_some()
}

fn add_color(style: &mut String, color: Option<Color>, colortype: ColorType, colormode: ColorMode)
    ensures
        final(style)@ == with_color(old(style)@, color, colortype, colormode),
{
    match color {
        Some(color) => {
            let code = color.get_style(colortype, colormode);
            if !code.as_str().is_empty() {
                style.append(";");
                style.append(code.as_str());
            }
        },
        None => {},
    }
}

impl Theme {
    /// The theme that a document describes.
    pub fn from_document(document: Node, color_mode: ColorMode) -> (r: Result<Theme, VividError>)
        ensures
            viewed(r) == theme_of_document(document@, color_mode),
    {
        let mut colors: Vec<(String, Color)> = Vec::new();
        match &document {
            Node::Table(entries) => {
                proof {
                    Node::lemma_table_view(*entries);
                }
                match find_entry(entries, "colors") {
                    Some(Node::Table(definitions)) => {
                        proof {
                            Node::lemma_table_view(*definitions);
                        }
                        let ghost all = entry_trees(definitions@);
                        let mut i: usize = 0;
                        while i < definitions.len()
                            invariant
                                i <= definitions@.len(),
                                all == entry_trees(definitions@),
                                theme_of_document(document@, color_mode) == match palette_of(all) {
                                    Ok(colors) => Ok::<ThemeView, Failure>(
                                        ThemeView { colors, categories: document@, color_mode },
                                    ),
                                    Err(e) => Err(e),
                                },
                                palette_of(all.take(i as int)) == Ok::<
                                    Map<Seq<char>, Color>,
                                    Failure,
                                >(palette(colors@)),
                            decreases definitions@.len() - i,
                        {
                            proof {
                                assert(all.take(i + 1).drop_last() == all.take(i as int));
                                assert(all.take(i + 1).last() == all[i as int]);
                            }
                            let entry = &definitions[i];
                            match (entry.0.as_str(), entry.1.as_str()) {
                                (Some(name), Some(value)) => match Color::parse(value) {
                                    Ok(color) => {
                                        let ghost before = colors@;
                                        colors.push((String::from_str(name), color));
                                        assert(colors@.drop_last() == before);
                                    },
                                    Err(e) => {
                                        proof {
                                            Self::lemma_first_failure(all, i + 1);
                                        }
                                        return Err(e);
                                    },
                                },
                                _ => {
                                    proof {
                                        Self::lemma_first_failure(all, i + 1);
                                    }
                                    return Err(VividError::UnexpectedYamlType);
                                },
                            }
                            i += 1;
                        }
                        assert(all.take(i as int) == all);
                    },
                    _ => {
                        return Err(VividError::UnexpectedYamlType);
                    },
                }
            },
            _ => {
                return Err(VividError::UnexpectedYamlType);
            },
        }
        Ok(Theme { colors, categories: document, color_mode })
    }

    /// A failure among the first `n` definitions is the failure of them all.
    proof fn lemma_first_failure(entries: Seq<(Tree, Tree)>, n: int)
        requires
            0 <= n <= entries.len(),
            palette_of(entries.take(n)) is Err,
        ensures
            palette_of(entries) == palette_of(entries.take(n)),
        decreases entries.len() - n,
    {
        if n < entries.len() {
            assert(entries.take(n + 1).drop_last() == entries.take(n));
            Self::lemma_first_failure(entries, n + 1);
        } else {
            assert(entries.take(n) == entries);
        }
    }

    /// The theme that the documents of a file describe.
    pub fn from_documents(documents: Vec<Node>, color_mode: ColorMode) -> (r: Result<
        Theme,
        VividError,
    >)
        ensures
            viewed(r) == theme_of_documents(trees(documents@), color_mode),
    {
        let mut documents = documents;
        match documents.pop() {
            Some(document) => Theme::from_document(document, color_mode),
            None => Err(VividError::EmptyThemeFile),
        }
    }

    /// Reads a theme from the text of a YAML file. Where the text does not
    /// scan, the reader's error is handed on; else the theme is that of the
    /// documents read.
    pub fn from_string(contents: &str, color_mode: ColorMode) -> (r: Result<Theme, VividError>)
        ensures
            match yaml_documents(contents@) {
                Some(documents) => viewed(r) == theme_of_documents(documents, color_mode),
                None => r matches Err(VividError::YamlParsingError(_)),
            },
    {
        match load_yaml(contents) {
            Ok(documents) => Theme::from_documents(documents, color_mode),
            Err(e) => Err(VividError::YamlParsingError(e)),
        }
    }

    /// The color mode that styles are encoded for.
    pub fn color_mode(&self) -> (mode: ColorMode)
        ensures
            mode == self@.color_mode,
    {
        self.color_mode
    }

    /// The color that a reference stands for.
    pub fn get_color(&self, color_str: &str) -> (r: Result<Color, VividError>)
        ensures
            outcome(r) == resolve_color(self@.colors, color_str@),
    {
        let mut i: usize = self.colors.len();
        assert(self.colors@.take(i as int) == self.colors@);
        while i > 0
            invariant
                i <= self.colors@.len(),
                palette(self.colors@).contains_key(color_str@) == palette(
                    self.colors@.take(i as int),
                ).contains_key(color_str@),
                palette(self.colors@).contains_key(color_str@) ==> palette(self.colors@)[color_str@]
                    == palette(self.colors@.take(i as int))[color_str@],
            decreases i,
        {
            i -= 1;
            proof {
                assert(self.colors@.take(i + 1).drop_last() == self.colors@.take(i as int));
            }
            if str_equal(self.colors[i].0.as_str(), color_str) {
                return Ok(self.colors[i].1);
            }
        }
        assert(self.colors@.take(0).len() == 0);
        match Color::parse(color_str) {
            Ok(color) => Ok(color),
            Err(_) => Err(VividError::UnknownColor(String::from_str(color_str))),
        }
    }

    fn color_of_entry(&self, map: &Vec<(Node, Node)>, key: &str) -> (r: Result<
        Option<Color>,
        VividError,
    >)
        ensures
            outcome(r) == color_entry(self@.colors, entry_trees(map@), key@),
    {
        match find_entry(map, key) {
            None => Ok(None),
            Some(node) => match node.as_str() {
                Some(reference) => match self.get_color(reference) {
                    Ok(color) => Ok(Some(color)),
                    Err(e) => Err(e),
                },
                None => Err(VividError::UnexpectedYamlType),
            },
        }
    }

    fn style_of_node(&self, node: &Node) -> (r: Result<String, VividError>)
        ensures
            viewed(r) == node_style(self@, node@),
    {
        match node {
            Node::Table(map) => {
                proof {
                    Node::lemma_table_view(*map);
                }
                let font_style = match FontStyle::from_yaml(map) {
                    Ok(font_style) => font_style,
                    Err(e) => {
                        return Err(e);
                    },
                };
                let foreground = match self.color_of_entry(map, "foreground") {
                    Ok(color) => color,
                    Err(e) => {
                        return Err(e);
                    },
                };
                let background = match self.color_of_entry(map, "background") {
                    Ok(color) => color,
                    Err(e) => {
                        return Err(e);
                    },
                };
                let mut style = font_style.encode();
                add_color(&mut style, foreground, ColorType::Foreground, self.color_mode);
                add_color(&mut style, background, ColorType::Background, self.color_mode);
                Ok(style)
            },
            _ => Err(VividError::UnexpectedYamlType),
        }
    }

    /// The style of a category: the parameters of the font style, the
    /// foreground and the background of the node that the category's path
    /// leads to.
    pub fn get_style(&self, category: CategoryRef) -> (r: Result<String, VividError>)
        requires
            category@.len() > 0,
        ensures
            viewed(r) == style_for(self@, texts(category@)),
    {
        let ghost path = texts(category@);
        let mut item: &Node = &self.categories;
        let mut stopped = false;
        let mut i: usize = 0;
        while i < category.len() && !stopped
            invariant
                i <= category@.len(),
                path == texts(category@),
                descend(self@.categories, path, 0) == if stopped {
                    Ok::<Tree, Failure>(item@)
                } else {
                    descend(item@, path, i as int)
                },
            decreases category@.len() - i, if stopped { 0int } else { 1int },
        {
            match item {
                Node::Table(map) => {
                    proof {
                        Node::lemma_table_view(*map);
                    }
                    match find_entry(map, category[i].as_str()) {
                        Some(value) => {
                            item = value;
                            i += 1;
                        },
                        None => {
                            if has_style(map) {
                                stopped = true;
                            } else {
                                return Err(
                                    VividError::CouldNotFindStyleFor(join_strings(category, ".")),
                                );
                            }
                        },
                    }
                },
                _ => {
                    return Err(VividError::UnexpectedYamlType);
                },
            }
        }
        self.style_of_node(item)
    }
}

/// From a node whose walk ends at a table that carries a style and has no
/// child for the first of some further segments, the walk along the longer
/// path ends at the same table.
proof fn lemma_descend_deeper(
    node: Tree,
    path: Seq<Seq<char>>,
    deeper: Seq<Seq<char>>,
    depth: int,
)
    requires
        0 <= depth <= path.len(),
        deeper.len() > 0,
        descend(node, path, depth) matches Ok(Tree::Table(entries)) && carries_style(entries)
            && find(entries, deeper[0]) is None,
    ensures
        descend(node, path + deeper, depth) == descend(node, path, depth),
    decreases path.len() - depth,
{
    if depth < path.len() {
        assert((path + deeper)[depth] == path[depth]);
        match node {
            Tree::Table(entries) => match find(entries, path[depth]) {
                Some(child) => {
                    lemma_descend_deeper(child, path, deeper, depth + 1);
                },
                None => {},
            },
            _ => {},
        }
    } else {
        assert((path + deeper)[depth] == deeper[0]);
    }
}

/// A category that lies deeper than the theme goes has the style of the
/// deepest node on its way: where the walk along a category ends at a table
/// that carries a style and has no child for the next segment, every category
/// that goes on from there with that segment has the same style.
pub proof fn lemma_deeper_category_has_the_style(
    theme: ThemeView,
    category: Seq<Seq<char>>,
    deeper: Seq<Seq<char>>,
)
    requires
        deeper.len() > 0,
        descend(theme.categories, category, 0) matches Ok(Tree::Table(entries)) && carries_style(
            entries,
        ) && find(entries, deeper[0]) is None,
    ensures
        style_for(theme, category + deeper) == style_for(theme, category),
{
    lemma_descend_deeper(theme.categories, category, deeper, 0);
}

/// A category whose first segment the theme does not know has no style,
/// unless the root of the theme carries a style itself.
pub proof fn lemma_absent_category_has_no_style(theme: ThemeView, category: Seq<Seq<char>>)
    requires
        category.len() > 0,
        theme.categories matches Tree::Table(entries) && !carries_style(entries) && find(
            entries,
            category[0],
        ) is None,
    ensures
        style_for(theme, category) == Err::<Seq<char>, Failure>(
            Failure::CouldNotFindStyleFor(join(category, "."@)),
        ),
{
}

proof fn lemma_descend_failure(node: Tree, path: Seq<Seq<char>>, depth: int)
    requires
        0 <= depth <= path.len(),
    ensures
        descend(node, path, depth) matches Err(e) ==> e == Failure::UnexpectedYamlType || e
            == Failure::CouldNotFindStyleFor(join(path, "."@)),
    decreases path.len() - depth,
{
    if depth < path.len() {
        match node {
            Tree::Table(entries) => match find(entries, path[depth]) {
                Some(child) => {
                    lemma_descend_failure(child, path, depth + 1);
                },
                None => {},
            },
            _ => {},
        }
    }
}

proof fn lemma_named_codes_failure(items: Seq<Tree>)
    ensures
        named_codes(items) matches Err(e) ==> e is UnknownFontStyle || e is UnexpectedYamlType,
    decreases items.len(),
{
    if items.len() > 0 {
        lemma_named_codes_failure(items.drop_last());
    }
}

/// The failures of resolving a style: a category without a style is named in
/// full, with dots between its segments, and the other failures are an
/// unexpected type, an unknown color and an unknown font style.
pub proof fn lemma_style_failures(theme: ThemeView, category: Seq<Seq<char>>)
    ensures
        style_for(theme, category) matches Err(e) ==> {
            ||| e == Failure::CouldNotFindStyleFor(join(category, "."@))
            ||| e == Failure::UnexpectedYamlType
            ||| e is UnknownColor
            ||| e is UnknownFontStyle
        },
{
    lemma_descend_failure(theme.categories, category, 0);
    match descend(theme.categories, category, 0) {
        Ok(Tree::Table(entries)) => {
            match find(entries, "font-style"@) {
                Some(Tree::List(items)) => {
                    lemma_named_codes_failure(items);
                },
                _ => {},
            }
        },
        _ => {},
    }
}

} // verus!
