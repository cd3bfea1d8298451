//! A small text-to-source compiler for hierarchies of named states.
//!
//! The library reads a compact configuration language describing a tree of
//! states and sub-states, flattens the tree into an indexed table, resolves a
//! globally unique name for every node under a configurable naming scheme,
//! and renders the resolved table as a textual module of type definitions
//! plus a registration routine.

pub mod config;
pub mod emit;
pub mod generate;
pub mod lexical;
pub mod model;
pub mod naming;
pub mod processing;
pub mod split_case;
pub mod parser;

pub use config::NamingScheme;
pub use config::PluginConfig;
pub use config::PluginName;
pub use generate::format_source;
pub use generate::generate_state_plugin_source;
pub use naming::ProcessingError;
pub use parser::ParseNode;
pub use parser::config_is_valid;
pub use parser::parse_states_file;
pub use split_case::normalize_state_name;
