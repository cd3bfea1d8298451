use bevy_state_plugin_generator::config::NamingScheme;
use bevy_state_plugin_generator::config::PluginConfig;
use bevy_state_plugin_generator::generate::convert_parse_nodes_into_plugin_source;
use bevy_state_plugin_generator::generate::format_source;
use bevy_state_plugin_generator::generate::generate_state_plugin_source;
use bevy_state_plugin_generator::generate::process_parse_nodes;
use bevy_state_plugin_generator::naming::apply_naming_scheme;
use bevy_state_plugin_generator::naming::ProcessingError;
use bevy_state_plugin_generator::parser::parse_config;
use bevy_state_plugin_generator::processing::flatten_parse_forest;
use bevy_state_plugin_generator::processing::flatten_parse_node;
use bevy_state_plugin_generator::processing::NodeType;
use bevy_state_plugin_generator::parser::ParseNode;

fn resolved(nodes: &[bevy_state_plugin_generator::processing::NodeData]) -> Vec<String> {
    nodes
        .iter()
        .map(|n| n.resolved_name.clone().expect("name must be resolved"))
        .collect()
}

#[test]
fn test_flatten_counts_noncomment_nodes() {
    // Round-trip structural size: the flattened table holds one record per
    // non-comment node and never more than the whole tree.
    let items = parse_config("A { B, // doc\n C } D").unwrap();
    let total: usize = items.iter().map(|n| n.get_tree_size()).sum();
    let table = flatten_parse_forest(items);
    assert_eq!(table.len(), 4);
    assert!(table.len() <= total);
}

#[test]
fn test_flatten_parent_ordering_invariant() {
    // Parent ordering: every parent index lies strictly before its record
    // and one level up.
    let items = parse_config("A { B { C } D } E").unwrap();
    let table = flatten_parse_forest(items);
    for (i, rec) in table.iter().enumerate() {
        assert_eq!(rec.index, i);
        if let Some(p) = rec.parent {
            assert!(p < i);
            assert!(table[p].depth < rec.depth);
            assert_eq!(table[p].depth + 1, rec.depth);
        } else {
            assert_eq!(rec.depth, 0);
        }
    }
}

#[test]
fn test_flatten_is_breadth_first() {
    let items = parse_config("A { B { D } C } E").unwrap();
    let table = flatten_parse_forest(items);
    let names: Vec<&str> = table.iter().map(|r| r.name.as_str()).collect();
    assert_eq!(names, vec!["A", "E", "B", "C", "D"]);
}

#[test]
fn test_flatten_records_variants() {
    let items = parse_config("A { B, // doc\n C }").unwrap();
    let table = flatten_parse_forest(items);
    assert_eq!(table[0].variants, vec!["B".to_string(), "C".to_string()]);
    assert_eq!(table[0].node_type, NodeType::Enum);
    assert!(table[0].resolved_name.is_none());
}

#[test]
fn test_flatten_single_root() {
    let (root, _) =
        bevy_state_plugin_generator::parser::parse_node("Root { A, B }", 0).unwrap();
    let table = flatten_parse_node(root);
    assert_eq!(table.len(), 3);
    assert_eq!(table[0].name, "Root");
    assert_eq!(table[1].parent, Some(0));
    assert_eq!(table[2].parent, Some(0));
}

#[test]
fn test_scheme_differentiation_three_levels() {
    // A node three levels deep named Graphics under Menu -> Options.
    let input = "Menu { Options { Graphics } }";
    for (scheme, expected) in [
        (NamingScheme::Full, "MenuOptionsGraphics"),
        (NamingScheme::Short, "OptionsGraphics"),
        (NamingScheme::NoPrefix, "Graphics"),
    ] {
        let items = parse_config(input).unwrap();
        let table = process_parse_nodes(items, scheme, None).unwrap();
        let names = resolved(&table);
        assert_eq!(names[2], expected);
    }
}

#[test]
fn test_naming_determinism() {
    // Resolving the same tree with the same scheme twice yields identical
    // resolved-name sequences.
    for scheme in [NamingScheme::Full, NamingScheme::Short, NamingScheme::NoPrefix] {
        let first = process_parse_nodes(
            parse_config("A { B { C } D }").unwrap(),
            scheme,
            Some("Root".to_string()),
        )
        .unwrap();
        let second = process_parse_nodes(
            parse_config("A { B { C } D }").unwrap(),
            scheme,
            Some("Root".to_string()),
        )
        .unwrap();
        assert_eq!(resolved(&first), resolved(&second));
    }
}

#[test]
fn test_duplicate_sibling_names_rejected_under_plain_scheme() {
    // Two sibling leaves named A under the same parent must fail with the
    // scheme named None, and the error identifies the colliding name.
    let items = parse_config("P { A, A }").unwrap();
    let err = process_parse_nodes(items, NamingScheme::NoPrefix, None).unwrap_err();
    match err {
        ProcessingError::DuplicateName {
            resolved_name,
            original_name,
        } => {
            assert_eq!(resolved_name, "A");
            assert_eq!(original_name, "A");
        }
        other => panic!("expected a duplicate-name error, got {:?}", other),
    }
}

#[test]
fn test_duplicate_leaf_names_disambiguated_by_ancestors() {
    // The same leaf name under different parents may succeed when ancestor
    // prefixes disambiguate.
    let items = parse_config("P { A } Q { A }").unwrap();
    let table = process_parse_nodes(items, NamingScheme::Full, None).unwrap();
    let names = resolved(&table);
    assert_eq!(names, vec!["P", "Q", "PA", "QA"]);

    let items = parse_config("P { A } Q { A }").unwrap();
    let err = process_parse_nodes(items, NamingScheme::NoPrefix, None).unwrap_err();
    assert!(matches!(err, ProcessingError::DuplicateName { .. }));
}

#[test]
fn test_list_ancestor_contributes_to_full_naming() {
    // In Full naming a list ancestor contributes its name exactly as an
    // enumeration would: the kinds differ only in emission shape.
    let items = parse_config("A[B]").unwrap();
    let table = process_parse_nodes(items, NamingScheme::Full, None).unwrap();
    assert_eq!(table[0].node_type, NodeType::List);
    assert_eq!(resolved(&table), vec!["A", "AB"]);
}

#[test]
fn test_apply_naming_scheme_in_place() {
    let items = parse_config("A { B }").unwrap();
    let mut table = flatten_parse_forest(items);
    apply_naming_scheme(NamingScheme::Full, &mut table).unwrap();
    assert_eq!(table[1].resolved_name.as_deref(), Some("AB"));
    assert_eq!(table[1].name, "B");
}

#[test]
fn test_error_message_texts() {
    let dup = ProcessingError::DuplicateName {
        resolved_name: "A".to_string(),
        original_name: "A".to_string(),
    };
    assert_eq!(
        dup.message(),
        "Duplicate name: resolved_name='A' original_name='A'"
    );
    let parse = ProcessingError::Parsing("{ rest".to_string());
    assert_eq!(parse.message(), "Failed to parse! Remaining input: { rest");
}

#[test]
fn test_format_source_is_identity() {
    let text = "pub struct X;\n";
    assert_eq!(format_source(text), text);
    assert_eq!(format_source(""), "");
}

#[test]
fn test_emission_idempotent_without_formatter() {
    // With the external formatter disabled, re-running the pipeline on the
    // same input produces byte-identical output.
    let config = PluginConfig::default();
    let first = generate_state_plugin_source("A { B, C }", &config).unwrap();
    let second = generate_state_plugin_source("A { B, C }", &config).unwrap();
    assert_eq!(first, second);
}

#[test]
fn test_generate_empty_config_with_default_root() {
    let config = PluginConfig::default();
    let out = generate_state_plugin_source("", &config).unwrap();
    let expected = "#![allow(missing_docs)]\nuse bevy::prelude::AppExtStates;\npub mod states {\n    use bevy::prelude::StateSet;\n#[derive(bevy::prelude::States, Hash, Default, Debug, Clone, PartialEq, Eq)]\npub struct GameState;\n}\npub struct GeneratedStatesPlugin;\nimpl bevy::app::Plugin for GeneratedStatesPlugin {\n    fn build(&self, app: &mut bevy::app::App) {\n        app.init_state::<states::GameState>();\n    }\n}\n";
    assert_eq!(out, expected);
}

#[test]
fn test_generate_two_states_under_root() {
    let config = PluginConfig::default();
    let out = generate_state_plugin_source("A, B", &config).unwrap();
    let expected = "#![allow(missing_docs)]\nuse bevy::prelude::AppExtStates;\npub mod states {\n    use bevy::prelude::StateSet;\n#[derive(bevy::prelude::States, Hash, Default, Debug, Clone, PartialEq, Eq)]\npub enum GameState {\n    #[default]\n    A,\n    B\n}\n#[derive(bevy::prelude::SubStates, Hash, Default, Debug, Clone, PartialEq, Eq)]\n#[source(GameState = GameState::A)]\npub struct GameStateA;\n#[derive(bevy::prelude::SubStates, Hash, Default, Debug, Clone, PartialEq, Eq)]\n#[source(GameState = GameState::B)]\npub struct GameStateB;\n}\npub struct GeneratedStatesPlugin;\nimpl bevy::app::Plugin for GeneratedStatesPlugin {\n    fn build(&self, app: &mut bevy::app::App) {\n        app.init_state::<states::GameState>()\n        .add_sub_state::<states::GameStateA>()\n        .add_sub_state::<states::GameStateB>();\n    }\n}\n";
    assert_eq!(out, expected);
}

#[test]
fn test_generate_without_root_uses_add_state() {
    let config = PluginConfig::default()
        .with_naming_scheme(NamingScheme::NoPrefix)
        .with_plugin_fn_name("build_states");
    let config = PluginConfig {
        root_state_name: None,
        ..config
    };
    let out = generate_state_plugin_source("A", &config).unwrap();
    let expected = "#![allow(missing_docs)]\nuse bevy::prelude::AppExtStates;\npub mod states {\n    use bevy::prelude::StateSet;\n#[derive(bevy::prelude::States, Hash, Default, Debug, Clone, PartialEq, Eq)]\npub struct A;\n}\npub fn build_states(app: &mut bevy::app::App) {\n    app\n        .add_state::<states::A>();\n}\n";
    assert_eq!(out, expected);
}

#[test]
fn test_generate_parse_error_carries_remainder() {
    let config = PluginConfig::default();
    let err = generate_state_plugin_source("Name { A", &config).unwrap_err();
    match err {
        ProcessingError::Parsing(rest) => assert_eq!(rest, ""),
        other => panic!("expected a parse error, got {:?}", other),
    }
    let err = generate_state_plugin_source("lower", &config).unwrap_err();
    match err {
        ProcessingError::Parsing(rest) => assert_eq!(rest, "lower"),
        other => panic!("expected a parse error, got {:?}", other),
    }
}

#[test]
fn test_generate_duplicate_error() {
    let config = PluginConfig::default().with_naming_scheme(NamingScheme::NoPrefix);
    let err = generate_state_plugin_source("P { A, A }", &config).unwrap_err();
    assert!(matches!(err, ProcessingError::DuplicateName { .. }));
}

#[test]
fn test_convert_parse_nodes_additional_derives() {
    let config = PluginConfig {
        root_state_name: None,
        ..PluginConfig::default()
    }
    .with_additional_derives(&vec!["Reflect".to_string(), "Eq".to_string()]);
    let nodes = vec![ParseNode::Singleton("A".to_string())];
    let out = convert_parse_nodes_into_plugin_source(nodes, &config).unwrap();
    // The required set is kept first and repeated names are dropped.
    assert!(out.contains(
        "#[derive(bevy::prelude::States, Hash, Default, Debug, Clone, PartialEq, Eq, Reflect)]"
    ));
}

#[test]
fn test_comments_do_not_reach_the_output() {
    let config = PluginConfig::default();
    let out = generate_state_plugin_source("// banner\nA", &config).unwrap();
    assert!(!out.contains("banner"));
    assert!(out.contains("GameStateA"));
}

#[test]
fn test_full_example_resolved_names_under_root() {
    let items = parse_config("Loading [ Config Assets ] Ready { Menu Game }").unwrap();
    let table =
        process_parse_nodes(items, NamingScheme::Full, Some("GameState".to_string())).unwrap();
    assert_eq!(
        resolved(&table),
        vec![
            "GameState",
            "GameStateLoading",
            "GameStateReady",
            "GameStateLoadingConfig",
            "GameStateLoadingAssets",
            "GameStateReadyMenu",
            "GameStateReadyGame",
        ]
    );
    // Registration order: every record comes strictly after its parent.
    for rec in &table {
        if let Some(p) = rec.parent {
            assert!(p < rec.index);
        }
    }
}
