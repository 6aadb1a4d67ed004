use vivid::document::Node;
use vivid::error::VividError;
use vivid::filetypes::FileTypes;

#[test]
fn filetypes_basic() {
    let ft = FileTypes::from_string(
        "
                core:
                  - .ext1

                bar:
                  baz: [.ext2, .ext3]
            ",
    )
    .unwrap();

    assert_eq!(Some(&vec!["core".to_string()]), ft.get("*.ext1"));
    assert_eq!(
        Some(&vec!["bar".to_string(), "baz".to_string()]),
        ft.get("*.ext2")
    );
    assert_eq!(
        Some(&vec!["bar".to_string(), "baz".to_string()]),
        ft.get("*.ext3")
    );
}

fn text(s: &str) -> Node {
    Node::Text(s.to_string())
}

fn list(items: &[&str]) -> Node {
    Node::List(items.iter().map(|s| text(s)).collect())
}

fn table(entries: Vec<(&str, Node)>) -> Node {
    Node::Table(entries.into_iter().map(|(k, v)| (text(k), v)).collect())
}

fn strings(items: &[&str]) -> Vec<String> {
    items.iter().map(|s| s.to_string()).collect()
}

#[test]
fn flattening_keeps_the_order_of_the_document() {
    let ft = FileTypes::from_string(
        "
core:
  - .ext1
bar:
  baz: [.ext2, .ext3]
  qux: [$Makefile]
",
    )
    .unwrap();
    let expected = vec![
        ("*.ext1".to_string(), strings(&["core"])),
        ("*.ext2".to_string(), strings(&["bar", "baz"])),
        ("*.ext3".to_string(), strings(&["bar", "baz"])),
        ("Makefile".to_string(), strings(&["bar", "qux"])),
    ];
    assert_eq!(expected, ft.mapping);
    assert_eq!(None, ft.get(".ext1"));
    assert_eq!(None, ft.get("*.ext4"));
    assert_eq!(Some(&strings(&["bar", "qux"])), ft.get("Makefile"));
}

#[test]
fn pattern_of_a_file_type() {
    assert_eq!("*.ext1", FileTypes::get_code(".ext1"));
    assert_eq!("Makefile", FileTypes::get_code("$Makefile"));
    assert_eq!("README.md", FileTypes::get_code("$README.md"));
    assert_eq!("", FileTypes::get_code("$"));
    assert_eq!("$x", FileTypes::get_code("$$x"));
    assert_eq!("*", FileTypes::get_code(""));
    assert_eq!("*.txt", FileTypes::get_code(".TXT"));
    assert_eq!("*.tar.gz", FileTypes::get_code(".Tar.GZ"));
    assert_eq!("*a$b", FileTypes::get_code("A$B"));
    assert_eq!("*@[`{az", FileTypes::get_code("@[`{AZ"));
    assert_eq!("*.ÄÖ", FileTypes::get_code(".ÄÖ"));
}

#[test]
fn same_extension_in_two_branches() {
    match FileTypes::from_string("a: [.x, .y]\nb:\n  c: [.z, .y, .x]\n") {
        Err(VividError::DuplicateFileType(filetype)) => assert_eq!(".y", filetype),
        other => panic!("{:?}", other.err()),
    }
}

#[test]
fn same_extension_twice_in_a_list() {
    match FileTypes::from_string("a: [.x, .y, .x]\n") {
        Err(VividError::DuplicateFileType(filetype)) => assert_eq!(".x", filetype),
        other => panic!("{:?}", other.err()),
    }
}

#[test]
fn file_types_that_differ_only_in_case_are_duplicates() {
    match FileTypes::from_string("a: [.jpg]\nb: [.JPG]\n") {
        Err(VividError::DuplicateFileType(filetype)) => assert_eq!(".JPG", filetype),
        other => panic!("{:?}", other.err()),
    }
    let ft = FileTypes::from_string("a: [$Makefile]\nb: [$makefile, Makefile]\n").unwrap();
    assert_eq!(3, ft.mapping.len());
    assert_eq!(Some(&strings(&["b"])), ft.get("*makefile"));
}

#[test]
fn a_name_and_an_extension_can_make_one_pattern() {
    match FileTypes::from_string("a: ['$*.x']\nb: [.x]\n") {
        Err(VividError::DuplicateFileType(filetype)) => assert_eq!(".x", filetype),
        other => panic!("{:?}", other.err()),
    }
}

#[test]
fn failure_inside_a_subtree_comes_before_a_duplicate_across_subtrees() {
    assert!(matches!(
        FileTypes::from_string("a: [.x]\nb: [.x, 5]\n"),
        Err(VividError::UnexpectedYamlType)
    ));
}

#[test]
fn unexpected_types_in_the_database() {
    assert!(matches!(FileTypes::from_string("a: text\n"), Err(VividError::UnexpectedYamlType)));
    assert!(matches!(FileTypes::from_string("a: [1, 2]\n"), Err(VividError::UnexpectedYamlType)));
    assert!(matches!(FileTypes::from_string("just text"), Err(VividError::UnexpectedYamlType)));
    assert!(matches!(FileTypes::from_string("a: [[.x]]\n"), Err(VividError::UnexpectedYamlType)));
    assert!(matches!(FileTypes::from_string(""), Err(VividError::UnexpectedYamlType)));
    assert!(matches!(FileTypes::from_documents(&vec![]), Err(VividError::UnexpectedYamlType)));
    assert!(matches!(
        FileTypes::from_string("a: [.x\n"),
        Err(VividError::YamlParsingError(_))
    ));
}

#[test]
fn root_may_be_a_list() {
    assert!(FileTypes::from_string("a: [.a]\nb: {c: [.b]}").unwrap().has_categories());
    assert!(FileTypes::from_string("{}").unwrap().has_categories());
    assert!(!FileTypes::from_string("[.a, .b]").unwrap().has_categories());
    let ft = FileTypes::from_string("[.a, .b]").unwrap();
    assert_eq!(
        vec![("*.a".to_string(), strings(&[])), ("*.b".to_string(), strings(&[]))],
        ft.mapping
    );
}

#[test]
fn first_document_is_the_database() {
    let ft = FileTypes::from_string("a: [.x]\n---\nb: [.y]\n").unwrap();
    assert_eq!(vec![("*.x".to_string(), strings(&["a"]))], ft.mapping);
}

#[test]
fn key_that_is_no_string_adds_no_segment() {
    let node = Node::Table(vec![
        (Node::Integer(1), list(&[".a"])),
        (text("k"), Node::Table(vec![(Node::Null, list(&[".b"]))])),
    ]);
    let ft = FileTypes::get_mapping(&node, &strings(&["root"])).unwrap();
    assert_eq!(
        vec![
            ("*.a".to_string(), strings(&["root"])),
            ("*.b".to_string(), strings(&["root", "k"])),
        ],
        ft.mapping
    );
}

#[test]
fn mapping_of_a_subtree_written_by_hand() {
    let node = table(vec![
        ("core", list(&[".ext1"])),
        ("bar", table(vec![("baz", list(&[".ext2", ".ext3"]))])),
    ]);
    let ft = FileTypes::get_mapping(&node, &vec![]).unwrap();
    assert_eq!(Some(&strings(&["core"])), ft.get("*.ext1"));
    assert_eq!(Some(&strings(&["bar", "baz"])), ft.get("*.ext2"));
    assert_eq!(Some(&strings(&["bar", "baz"])), ft.get("*.ext3"));
}
