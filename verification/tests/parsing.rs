use bevy_state_plugin_generator::parser::close_enum;
use bevy_state_plugin_generator::parser::close_list;
use bevy_state_plugin_generator::parser::comment;
use bevy_state_plugin_generator::parser::config_is_valid;
use bevy_state_plugin_generator::parser::identifier;
use bevy_state_plugin_generator::parser::open_enum;
use bevy_state_plugin_generator::parser::open_list;
use bevy_state_plugin_generator::parser::parse_config;
use bevy_state_plugin_generator::parser::parse_elements_until;
use bevy_state_plugin_generator::parser::parse_node;
use bevy_state_plugin_generator::parser::parse_states_file;
use bevy_state_plugin_generator::parser::separator;
use bevy_state_plugin_generator::parser::ParseNode;

fn singleton(name: &str) -> ParseNode {
    ParseNode::Singleton(name.to_string())
}

fn enumeration(name: &str, children: Vec<ParseNode>) -> ParseNode {
    ParseNode::Enum(name.to_string(), children)
}

fn list(name: &str, children: Vec<ParseNode>) -> ParseNode {
    ParseNode::List(name.to_string(), children)
}

#[test]
fn test_identifier_simple() {
    assert_eq!(identifier("Name", 0), Ok(("Name".to_string(), 4)));
    assert_eq!(identifier("Name ", 0), Ok(("Name".to_string(), 4)));
    assert_eq!(identifier("Name123", 0), Ok(("Name123".to_string(), 7)));
    assert_eq!(identifier("Name_123", 0), Ok(("Name_123".to_string(), 8)));
}

#[test]
fn test_identifier_rejects_lowercase_start() {
    assert_eq!(identifier("name", 0), Err(0));
    assert_eq!(identifier("", 0), Err(0));
    assert_eq!(identifier("_Name", 0), Err(0));
}

#[test]
fn test_comment_variants() {
    assert_eq!(comment("//Hello\n", 0), Ok(("Hello".to_string(), 8)));
    assert_eq!(comment("// Hello\n", 0), Ok(("Hello".to_string(), 9)));
    assert_eq!(comment("// Hello \n", 0), Ok(("Hello".to_string(), 10)));
    assert_eq!(
        comment("// Hello, how are you? \n", 0),
        Ok(("Hello, how are you?".to_string(), 24))
    );
}

#[test]
fn test_comment_at_end_of_input() {
    assert_eq!(comment("// tail", 0), Ok(("tail".to_string(), 7)));
}

#[test]
fn test_comment_requires_double_slash() {
    assert!(comment("/ nope", 0).is_err());
    assert!(comment("Name", 0).is_err());
}

#[test]
fn test_single_char_tokens() {
    assert_eq!(open_enum("{", 0), Some(1));
    assert_eq!(close_enum("}", 0), Some(1));
    assert_eq!(open_list("[", 0), Some(1));
    assert_eq!(close_list("]", 0), Some(1));
    assert_eq!(separator(",", 0), Some(1));
    assert_eq!(separator("x", 0), None);
    assert_eq!(open_enum("  {", 0), Some(3));
}

#[test]
fn test_parse_singleton_nodes() {
    assert_eq!(parse_node("Name,", 0), Ok((singleton("Name"), 4)));
    assert_eq!(parse_node("  Name,", 0), Ok((singleton("Name"), 6)));
    assert_eq!(parse_node("First, Second", 0), Ok((singleton("First"), 5)));
}

#[test]
fn test_parse_enum_empty() {
    assert_eq!(parse_node("Name{}", 0), Ok((enumeration("Name", vec![]), 6)));
    assert_eq!(parse_node("Name {}", 0), Ok((enumeration("Name", vec![]), 7)));
}

#[test]
fn test_parse_enum_redundant_separators_absorbed() {
    let expected = enumeration("Name", vec![]);
    assert_eq!(parse_node("Name {,}", 0).unwrap().0, expected);
    assert_eq!(parse_node("Name {,,,,}", 0).unwrap().0, expected);
    let with_a = enumeration("Name", vec![singleton("A")]);
    assert_eq!(parse_node("Name {A,}", 0).unwrap().0, with_a);
    assert_eq!(parse_node("Name {,A}", 0).unwrap().0, with_a);
}

#[test]
fn test_parse_enum_variants() {
    let two = enumeration("Name", vec![singleton("A"), singleton("B")]);
    assert_eq!(parse_node("Name {A,B}", 0).unwrap().0, two);
    assert_eq!(parse_node("Name { A B }", 0).unwrap().0, two);
    let nested = enumeration("Name", vec![enumeration("A", vec![singleton("B")])]);
    assert_eq!(parse_node("Name { A { B } }", 0).unwrap().0, nested);
    let mixed = enumeration(
        "Name",
        vec![enumeration("A", vec![singleton("B")]), singleton("C")],
    );
    assert_eq!(parse_node("Name { A { B }, C }", 0).unwrap().0, mixed);
}

#[test]
fn test_parse_list_nodes() {
    assert_eq!(parse_node("Name []", 0).unwrap().0, list("Name", vec![]));
    assert_eq!(parse_node("Name[]", 0).unwrap().0, list("Name", vec![]));
    assert_eq!(
        parse_node("Name[A]", 0).unwrap().0,
        list("Name", vec![singleton("A")])
    );
    assert_eq!(
        parse_node("Name[A,B]", 0).unwrap().0,
        list("Name", vec![singleton("A"), singleton("B")])
    );
}

#[test]
fn test_parse_node_nested_deeply() {
    let input = "Name { A { B, C {D E {F G}} H } I J }";
    let (node, next) = parse_node(input, 0).unwrap();
    assert_eq!(next, input.chars().count());
    let expected = enumeration(
        "Name",
        vec![
            enumeration(
                "A",
                vec![
                    singleton("B"),
                    enumeration(
                        "C",
                        vec![
                            singleton("D"),
                            enumeration("E", vec![singleton("F"), singleton("G")]),
                        ],
                    ),
                    singleton("H"),
                ],
            ),
            singleton("I"),
            singleton("J"),
        ],
    );
    assert_eq!(node, expected);
}

#[test]
fn test_parse_incomplete_group_is_hard_error() {
    assert!(parse_node("Name { A", 0).is_err());
    assert!(parse_node("Name [ A", 0).is_err());
    assert!(parse_config("Name { A").is_err());
}

#[test]
fn test_parse_elements_until_close() {
    let (nodes, next) = parse_elements_until("A, B }", 0, '}').unwrap();
    assert_eq!(nodes, vec![singleton("A"), singleton("B")]);
    assert_eq!(next, 6);
}

#[test]
fn test_parse_config_two_items() {
    let nodes = parse_config("Name, Name2").unwrap();
    assert_eq!(nodes, vec![singleton("Name"), singleton("Name2")]);
}

#[test]
fn test_parse_config_separator_optional() {
    let with_comma = parse_config("A, B").unwrap();
    let with_space = parse_config("A B").unwrap();
    assert_eq!(with_comma, vec![singleton("A"), singleton("B")]);
    assert_eq!(with_space, with_comma);
}

#[test]
fn test_parse_config_comments_are_nodes() {
    let nodes = parse_config("// note\nA").unwrap();
    assert_eq!(
        nodes,
        vec![ParseNode::Comment("note".to_string()), singleton("A")]
    );
}

#[test]
fn test_config_is_valid() {
    assert!(config_is_valid("Name, Name2"));
    assert!(config_is_valid("Name { A, B }"));
    assert!(config_is_valid(""));
    assert!(!config_is_valid("Name { "));
    assert!(!config_is_valid("lower"));
    assert!(!config_is_valid("Name } stray"));
}

#[test]
fn test_parse_states_file_wraps_items() {
    let root = parse_states_file("Name, Name2", "Root").unwrap();
    assert_eq!(
        root,
        enumeration("Root", vec![singleton("Name"), singleton("Name2")])
    );
}

#[test]
fn test_parse_states_file_empty_input_yields_placeholder() {
    let root = parse_states_file("", "Root").unwrap();
    assert_eq!(root, singleton("Root"));
    let root = parse_states_file("   \n  ", "Root").unwrap();
    assert_eq!(root, singleton("Root"));
}

#[test]
fn test_node_accessors() {
    let node = enumeration("Name", vec![singleton("A")]);
    assert_eq!(node.name(), Some("Name"));
    assert_eq!(node.children().unwrap().len(), 1);
    assert_eq!(node.get_tree_size(), 2);
    let c = ParseNode::Comment("x".to_string());
    assert_eq!(c.name(), None);
    assert_eq!(c.get_tree_size(), 1);
}

#[test]
fn test_tree_size_counts_comments() {
    let (node, _) = parse_node("Name { // doc\n A }", 0).unwrap();
    assert_eq!(node.get_tree_size(), 3);
}
