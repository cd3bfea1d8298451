use bevy_state_plugin_generator::config::NamingScheme;
use bevy_state_plugin_generator::config::PluginConfig;
use bevy_state_plugin_generator::config::PluginName;
use bevy_state_plugin_generator::model::ParentState;
use bevy_state_plugin_generator::model::StateNode;
use bevy_state_plugin_generator::model::StateTree;
use bevy_state_plugin_generator::parser::ParseNode;
use bevy_state_plugin_generator::split_case::normalize_state_name;

#[test]
fn test_naming_scheme_names() {
    assert_eq!(NamingScheme::Full.name(), "Full");
    assert_eq!(NamingScheme::Short.name(), "Short");
    assert_eq!(NamingScheme::NoPrefix.name(), "None");
}

#[test]
fn test_naming_scheme_tags() {
    assert_eq!(NamingScheme::Full.tag(), "full");
    assert_eq!(NamingScheme::Short.tag(), "short");
    assert_eq!(NamingScheme::NoPrefix.tag(), "none");
}

#[test]
fn test_naming_scheme_try_parse() {
    assert_eq!(NamingScheme::try_parse("full"), Some(NamingScheme::Full));
    assert_eq!(NamingScheme::try_parse("Full"), Some(NamingScheme::Full));
    assert_eq!(NamingScheme::try_parse("short"), Some(NamingScheme::Short));
    assert_eq!(NamingScheme::try_parse("Short"), Some(NamingScheme::Short));
    assert_eq!(NamingScheme::try_parse("none"), Some(NamingScheme::NoPrefix));
    assert_eq!(NamingScheme::try_parse("None"), Some(NamingScheme::NoPrefix));
    assert_eq!(NamingScheme::try_parse("other"), None);
    assert_eq!(NamingScheme::try_parse(""), None);
}

#[test]
fn test_naming_scheme_default() {
    assert_eq!(NamingScheme::default(), NamingScheme::Full);
}

#[test]
fn test_plugin_name_parse() {
    assert_eq!(
        PluginName::parse("MyPlugin"),
        Some(PluginName::Struct("MyPlugin".to_string()))
    );
    assert_eq!(
        PluginName::parse("my_plugin"),
        Some(PluginName::Function("my_plugin".to_string()))
    );
    assert_eq!(PluginName::parse(""), None);
    assert_eq!(PluginName::parse("_private"), None);
    assert_eq!(PluginName::parse("1abc"), None);
}

#[test]
fn test_plugin_name_constructors() {
    assert_eq!(
        PluginName::new_struct("MyPlugin"),
        PluginName::Struct("MyPlugin".to_string())
    );
    assert_eq!(
        PluginName::new_function("my_plugin"),
        PluginName::Function("my_plugin".to_string())
    );
}

#[test]
fn test_plugin_config_default() {
    let config = PluginConfig::default();
    assert_eq!(
        config.plugin_name,
        PluginName::new_struct("GeneratedStatesPlugin")
    );
    assert_eq!(config.root_state_name, Some("GameState".to_string()));
    assert_eq!(config.states_module_name, "states");
    assert_eq!(config.naming_scheme, NamingScheme::Full);
    assert!(config.additional_derives.is_empty());
}

#[test]
fn test_plugin_config_builders() {
    let config = PluginConfig::default()
        .with_plugin_struct_name("MyPlugin")
        .with_states_module_name("game_states")
        .with_root_state_name("AppState")
        .with_naming_scheme(NamingScheme::Short);
    assert_eq!(config.plugin_name, PluginName::new_struct("MyPlugin"));
    assert_eq!(config.states_module_name, "game_states");
    assert_eq!(config.root_state_name, Some("AppState".to_string()));
    assert_eq!(config.naming_scheme, NamingScheme::Short);

    let config = config.with_plugin_fn_name("build");
    assert_eq!(config.plugin_name, PluginName::new_function("build"));
}

#[test]
fn test_plugin_config_additional_derives_deduplicated() {
    let config = PluginConfig::default()
        .with_additional_derives(&vec![
            "Reflect".to_string(),
            "Serialize".to_string(),
            "Reflect".to_string(),
        ])
        .with_additional_derives(&vec!["Serialize".to_string(), "Copy".to_string()]);
    assert_eq!(
        config.additional_derives,
        vec![
            "Reflect".to_string(),
            "Serialize".to_string(),
            "Copy".to_string()
        ]
    );
}

#[test]
fn test_state_node_constructors_and_name() {
    assert_eq!(StateNode::singleton("A").name(), "A");
    assert_eq!(
        StateNode::enumeration("A", vec![StateNode::singleton("B")]).name(),
        "A"
    );
    assert_eq!(StateNode::enum_empty("A"), StateNode::Enum("A".to_string(), vec![]));
    assert_eq!(
        StateNode::list("L", vec![StateNode::singleton("B")]).name(),
        "L"
    );
}

#[test]
fn test_state_node_tree_size() {
    let node = StateNode::enumeration(
        "A",
        vec![
            StateNode::singleton("B"),
            StateNode::list("C", vec![StateNode::singleton("D")]),
        ],
    );
    assert_eq!(node.get_tree_size(), 4);
}

#[test]
fn test_state_node_from_parse_node_drops_comments() {
    let parse = ParseNode::Enum(
        "A".to_string(),
        vec![
            ParseNode::Comment("doc".to_string()),
            ParseNode::Singleton("B".to_string()),
        ],
    );
    // The lossy transform never increases the node count.
    let parse_size = parse.get_tree_size();
    let state = StateNode::from_parse_node(&parse).unwrap();
    assert_eq!(state, StateNode::enumeration("A", vec![StateNode::singleton("B")]));
    assert!(state.get_tree_size() <= parse_size);
    assert_eq!(state.get_tree_size(), 2);

    let comment = ParseNode::Comment("doc".to_string());
    assert!(StateNode::from_parse_node(&comment).is_none());
}

#[test]
fn test_state_tree_create_and_size() {
    let tree = StateTree::create(vec![
        StateNode::singleton("PartA"),
        StateNode::singleton("PartB"),
    ]);
    assert_eq!(tree.get_size(), 2);
}

#[test]
fn test_parent_state_name_and_variant() {
    let parent = ParentState::new("GameState", "Menu");
    assert_eq!(parent.name(), "GameState");
    assert_eq!(parent.name_and_variant(), "GameState::Menu");
}

#[test]
fn test_normalize_state_name_plain_words() {
    assert_eq!(normalize_state_name("example"), "example");
    assert_eq!(normalize_state_name("exampleState"), "exampleState");
    assert_eq!(normalize_state_name("Example"), "Example");
    assert_eq!(normalize_state_name("ExampleState"), "ExampleState");
    assert_eq!(normalize_state_name("ABCThing"), "ABCThing");
    assert_eq!(normalize_state_name("AB12C"), "AB12C");
}

#[test]
fn test_normalize_state_name_collapses_repeats() {
    assert_eq!(normalize_state_name("StateState"), "State");
    assert_eq!(normalize_state_name("ExampleStateState"), "ExampleState");
    assert_eq!(
        normalize_state_name("ExampleStateExampleState"),
        "ExampleStateExampleState"
    );
    assert_eq!(normalize_state_name("AAABBBCCCorp"), "AAABBBCCCorp");
}
