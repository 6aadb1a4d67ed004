use vivid::color::{Ansi3Bit, Color, ColorMode};
use vivid::document::Node;
use vivid::error::VividError;
use vivid::theme::Theme;

#[test]
fn theme_basic() {
    let theme = Theme::from_string(
        "
                colors:
                  color1: '00ff7f'

                foo:
                  bar:
                    foreground: color1

                c1:
                  foreground: 'ffffff'

                  c2:
                    foreground: '000000'

                t3:
                    font-style: bold",
        ColorMode::BitDepth24,
    )
    .unwrap();

    let style1 = theme.get_style(&["foo".into(), "bar".into()]).unwrap();
    assert_eq!("0;38;2;0;255;127", style1);

    let style2 = theme
        .get_style(&["c1".into(), "c2".into(), "c3".into()])
        .unwrap();
    assert_eq!("0;38;2;0;0;0", style2);

    let style3 = theme.get_style(&["t3".into()]).unwrap();
    assert_eq!("1", style3);
}

fn path(segments: &[&str]) -> Vec<String> {
    segments.iter().map(|s| s.to_string()).collect()
}

fn text(s: &str) -> Node {
    Node::Text(s.to_string())
}

fn table(entries: Vec<(&str, Node)>) -> Node {
    Node::Table(entries.into_iter().map(|(k, v)| (text(k), v)).collect())
}

#[test]
fn palette_name_resolves_to_its_color() {
    let theme = Theme::from_string(
        "colors:\n  color1: '00ff7f'\nfoo:\n  bar:\n    foreground: color1\n",
        ColorMode::BitDepth24,
    )
    .unwrap();
    assert_eq!("0;38;2;0;255;127", theme.get_style(&path(&["foo", "bar"])).unwrap());
}

#[test]
fn deeper_path_takes_the_deepest_node() {
    let theme = Theme::from_string(
        "colors: {}\nc1:\n  foreground: 'ffffff'\n  c2:\n    foreground: '000000'\n",
        ColorMode::BitDepth24,
    )
    .unwrap();
    assert_eq!("0;38;2;0;0;0", theme.get_style(&path(&["c1", "c2", "c3"])).unwrap());
    assert_eq!("0;38;2;0;0;0", theme.get_style(&path(&["c1", "c2"])).unwrap());
    assert_eq!("0;38;2;255;255;255", theme.get_style(&path(&["c1"])).unwrap());
    assert_eq!("0;38;2;255;255;255", theme.get_style(&path(&["c1", "other"])).unwrap());
    assert_eq!(
        "0;38;2;255;255;255",
        theme.get_style(&path(&["c1", "other", "c2"])).unwrap()
    );
}

#[test]
fn absent_path_has_no_style() {
    let theme = Theme::from_string(
        "colors: {}\nfoo:\n  bar:\n    foreground: 'ffffff'\n",
        ColorMode::BitDepth24,
    )
    .unwrap();
    match theme.get_style(&path(&["nothing", "here"])) {
        Err(VividError::CouldNotFindStyleFor(category)) => assert_eq!("nothing.here", category),
        other => panic!("{:?}", other),
    }
    match theme.get_style(&path(&["foo", "baz", "qux"])) {
        Err(VividError::CouldNotFindStyleFor(category)) => assert_eq!("foo.baz.qux", category),
        other => panic!("{:?}", other),
    }
}

#[test]
fn path_that_ends_on_a_node_without_style() {
    let theme = Theme::from_string(
        "colors: {}\nfoo:\n  bar:\n    foreground: 'ffffff'\n",
        ColorMode::BitDepth24,
    )
    .unwrap();
    assert_eq!("0", theme.get_style(&path(&["foo"])).unwrap());
}

#[test]
fn path_through_a_scalar_is_an_unexpected_type() {
    let theme = Theme::from_string(
        "colors: {}\nfoo:\n  bar: text\n  baz: [1, 2]\n",
        ColorMode::BitDepth24,
    )
    .unwrap();
    assert!(matches!(
        theme.get_style(&path(&["foo", "bar", "deeper"])),
        Err(VividError::UnexpectedYamlType)
    ));
    assert!(matches!(
        theme.get_style(&path(&["foo", "bar"])),
        Err(VividError::UnexpectedYamlType)
    ));
    assert!(matches!(
        theme.get_style(&path(&["foo", "baz"])),
        Err(VividError::UnexpectedYamlType)
    ));
}

#[test]
fn style_joins_font_style_foreground_and_background() {
    let theme = Theme::from_string(
        "
colors:
  fg: 'ff0000'
  bg: ansi:blue
a:
  font-style: [bold, underline]
  foreground: fg
  background: bg
b:
  background: '010203'
c:
  foreground: ansi:bright_green
  font-style: italic
",
        ColorMode::BitDepth24,
    )
    .unwrap();
    assert_eq!("1;4;38;2;255;0;0;44", theme.get_style(&path(&["a"])).unwrap());
    assert_eq!("0;48;2;1;2;3", theme.get_style(&path(&["b"])).unwrap());
    assert_eq!("3;92", theme.get_style(&path(&["c"])).unwrap());
}

#[test]
fn style_in_the_palette_of_256_colors() {
    let theme = Theme::from_string(
        "colors:\n  white: 'ffffff'\na:\n  foreground: white\n  background: '000000'\n",
        ColorMode::BitDepth8,
    )
    .unwrap();
    assert_eq!(ColorMode::BitDepth8, theme.color_mode());
    assert_eq!("0;38;5;231;48;5;16", theme.get_style(&path(&["a"])).unwrap());
}

#[test]
fn unknown_color_reference() {
    let theme = Theme::from_string(
        "colors:\n  c: '000'\na:\n  foreground: nosuchcolor\nb:\n  background: 'ggg'\n",
        ColorMode::BitDepth24,
    )
    .unwrap();
    match theme.get_style(&path(&["a"])) {
        Err(VividError::UnknownColor(name)) => assert_eq!("nosuchcolor", name),
        other => panic!("{:?}", other),
    }
    match theme.get_style(&path(&["b"])) {
        Err(VividError::UnknownColor(name)) => assert_eq!("ggg", name),
        other => panic!("{:?}", other),
    }
    match theme.get_color("nosuchcolor") {
        Err(VividError::UnknownColor(name)) => assert_eq!("nosuchcolor", name),
        other => panic!("{:?}", other),
    }
    assert_eq!(Color::Rgb(0, 0, 0), theme.get_color("c").unwrap());
    assert_eq!(Color::Rgb(0x12, 0x34, 0x56), theme.get_color("123456").unwrap());
    assert_eq!(Color::Ansi3Bit(Ansi3Bit::Red), theme.get_color("ansi:red").unwrap());
}

#[test]
fn palette_name_wins_over_a_literal() {
    let theme = Theme::from_string(
        "colors:\n  fff: '000000'\n  'ansi:red': '00ff00'\n",
        ColorMode::BitDepth24,
    )
    .unwrap();
    assert_eq!(Color::Rgb(0, 0, 0), theme.get_color("fff").unwrap());
    assert_eq!(Color::Rgb(0, 255, 0), theme.get_color("ansi:red").unwrap());
}

#[test]
fn later_definition_replaces_an_earlier_one() {
    let document = table(vec![(
        "colors",
        table(vec![("c", text("000000")), ("d", text("111111")), ("c", text("ffffff"))]),
    )]);
    let theme = Theme::from_document(document, ColorMode::BitDepth24).unwrap();
    assert_eq!(Color::Rgb(255, 255, 255), theme.get_color("c").unwrap());
    assert_eq!(Color::Rgb(0x11, 0x11, 0x11), theme.get_color("d").unwrap());
}

#[test]
fn theme_failures() {
    let mode = ColorMode::BitDepth24;
    assert!(matches!(Theme::from_string("", mode), Err(VividError::EmptyThemeFile)));
    assert!(matches!(Theme::from_documents(vec![], mode), Err(VividError::EmptyThemeFile)));
    assert!(matches!(
        Theme::from_string("a: [", mode),
        Err(VividError::YamlParsingError(_))
    ));
    assert!(matches!(
        Theme::from_string("foo:\n  foreground: 'fff'\n", mode),
        Err(VividError::UnexpectedYamlType)
    ));
    assert!(matches!(
        Theme::from_string("colors: [a, b]\n", mode),
        Err(VividError::UnexpectedYamlType)
    ));
    assert!(matches!(
        Theme::from_string("- a\n- b\n", mode),
        Err(VividError::UnexpectedYamlType)
    ));
    assert!(matches!(
        Theme::from_string("colors:\n  a: 12\n", mode),
        Err(VividError::UnexpectedYamlType)
    ));
    assert!(matches!(
        Theme::from_string("colors:\n  12: 'fff'\n", mode),
        Err(VividError::UnexpectedYamlType)
    ));
    match Theme::from_string("colors:\n  a: 'fff'\n  b: 'nothex'\n  c: 12\n", mode) {
        Err(VividError::ColorParseError(s)) => assert_eq!("nothex", s),
        other => panic!("{:?}", other.err()),
    }
    match Theme::from_string("colors:\n  a: 12\n  b: 'nothex'\n", mode) {
        Err(VividError::UnexpectedYamlType) => {}
        other => panic!("{:?}", other.err()),
    }
}

#[test]
fn last_document_is_the_theme() {
    let theme = Theme::from_string(
        "colors: {}\na:\n  foreground: '000'\n---\ncolors: {}\na:\n  foreground: 'fff'\n",
        ColorMode::BitDepth24,
    )
    .unwrap();
    assert_eq!("0;38;2;255;255;255", theme.get_style(&path(&["a"])).unwrap());
}

#[test]
fn attribute_of_the_wrong_type() {
    let theme = Theme::from_string(
        "
colors: {}
a:
  foreground: 12
b:
  background: [fff]
c:
  font-style: 3
d:
  font-style: [bold, 3]
e:
  font-style: {bold: true}
",
        ColorMode::BitDepth24,
    )
    .unwrap();
    for category in ["a", "b", "c", "d", "e"] {
        assert!(matches!(
            theme.get_style(&path(&[category])),
            Err(VividError::UnexpectedYamlType)
        ));
    }
}

#[test]
fn font_style_is_read_before_the_colors() {
    let theme = Theme::from_string(
        "colors: {}\na:\n  foreground: nosuch\n  background: alsonot\n  font-style: shiny\n",
        ColorMode::BitDepth24,
    )
    .unwrap();
    match theme.get_style(&path(&["a"])) {
        Err(VividError::UnknownFontStyle(name)) => assert_eq!("shiny", name),
        other => panic!("{:?}", other),
    }
    let theme = Theme::from_string(
        "colors: {}\na:\n  background: alsonot\n  foreground: nosuch\n",
        ColorMode::BitDepth24,
    )
    .unwrap();
    match theme.get_style(&path(&["a"])) {
        Err(VividError::UnknownColor(name)) => assert_eq!("nosuch", name),
        other => panic!("{:?}", other),
    }
}

#[test]
fn theme_from_a_document_written_by_hand() {
    let document = table(vec![
        ("colors", table(vec![("color1", text("00ff7f"))])),
        ("foo", table(vec![("bar", table(vec![("foreground", text("color1"))]))])),
    ]);
    let theme = Theme::from_document(document, ColorMode::BitDepth24).unwrap();
    assert_eq!("0;38;2;0;255;127", theme.get_style(&path(&["foo", "bar"])).unwrap());
}
