use vivid::document::Node;
use vivid::error::VividError;
use vivid::font_style::FontStyle;

fn text(s: &str) -> Node {
    Node::Text(s.to_string())
}

fn with_font_style(value: Node) -> Vec<(Node, Node)> {
    vec![(text("foreground"), text("fff")), (text("font-style"), value)]
}

fn encoded(value: Node) -> String {
    FontStyle::from_yaml(&with_font_style(value)).unwrap().encode()
}

#[test]
fn font_style_by_name() {
    let codes = [
        ("regular", "0"),
        ("bold", "1"),
        ("faint", "2"),
        ("italic", "3"),
        ("underline", "4"),
        ("blink", "5"),
        ("rapid-blink", "6"),
        ("overline", "53"),
    ];
    for (name, code) in codes {
        assert_eq!(code, encoded(text(name)));
        assert_eq!(code, encoded(Node::List(vec![text(name)])));
    }
}

#[test]
fn font_style_defaults_to_regular() {
    assert_eq!("0", FontStyle::from_yaml(&vec![]).unwrap().encode());
    let map = vec![(text("foreground"), text("fff"))];
    assert_eq!("0", FontStyle::from_yaml(&map).unwrap().encode());
    assert_eq!("0", FontStyle::default().encode());
}

#[test]
fn font_styles_keep_order_and_duplicates() {
    let list = Node::List(vec![
        text("overline"),
        text("bold"),
        text("bold"),
        text("regular"),
        text("italic"),
        text("bold"),
    ]);
    assert_eq!("53;1;1;0;3;1", encoded(list));
}

#[test]
fn empty_list_of_font_styles() {
    assert_eq!("", encoded(Node::List(vec![])));
}

#[test]
fn unknown_font_style() {
    match FontStyle::from_yaml(&with_font_style(text("Bold"))) {
        Err(VividError::UnknownFontStyle(name)) => assert_eq!("Bold", name),
        other => panic!("{:?}", other.err()),
    }
    let list = Node::List(vec![text("bold"), text("strikethrough"), Node::Integer(1)]);
    match FontStyle::from_yaml(&with_font_style(list)) {
        Err(VividError::UnknownFontStyle(name)) => assert_eq!("strikethrough", name),
        other => panic!("{:?}", other.err()),
    }
}

#[test]
fn font_style_of_the_wrong_type() {
    for value in [Node::Integer(1), Node::Null, Node::Boolean(true), Node::Table(vec![])] {
        assert!(matches!(
            FontStyle::from_yaml(&with_font_style(value)),
            Err(VividError::UnexpectedYamlType)
        ));
    }
    let list = Node::List(vec![text("bold"), Node::Integer(1), text("strikethrough")]);
    assert!(matches!(
        FontStyle::from_yaml(&with_font_style(list)),
        Err(VividError::UnexpectedYamlType)
    ));
}

#[test]
fn first_font_style_entry_counts() {
    let map = vec![(text("font-style"), text("bold")), (text("font-style"), text("italic"))];
    assert_eq!("1", FontStyle::from_yaml(&map).unwrap().encode());
}
