//! The whole pipeline: parse the configuration text, flatten the tree,
//! resolve names, and render the output text.

use vstd::prelude::*;

use crate::config::NamingScheme;
use crate::config::PluginConfig;
use crate::emit::build_plugin_source;
use crate::emit::spec_plugin_source;
use crate::naming::ProcessingError;
use crate::naming::apply_naming_scheme;
use crate::naming::dup_at;
use crate::naming::resolved_names;
use crate::parser::ItemsRes;
use crate::parser::NodeV;
use crate::parser::ParseNode;
use crate::parser::lemma_parse_config_size;
use crate::parser::nodes_view;
use crate::parser::parse_config;
use crate::parser::seq_size;
use crate::parser::spec_parse_config;
use crate::processing::NodeData;
use crate::processing::RecV;
use crate::processing::TaskV;
use crate::processing::flatten_parse_forest;
use crate::processing::flatten_parse_node;
use crate::processing::flattened_wf;
use crate::processing::lemma_flattened_wf_table_wf;
use crate::processing::recs_view;
use crate::processing::root_tasks;
use crate::processing::spec_flatten;
use crate::processing::table_wf;

verus! {

/// The flattened table of a configuration: with a root name, the top-level
/// items are gathered under one synthetic root enumeration of that name;
/// without one, every top-level item is a root of its own.
pub open spec fn spec_flatten_config(items: Seq<NodeV>, root: Option<Seq<char>>) -> Seq<RecV> {
    match root {
        Option::Some(name) => spec_flatten(
            seq![
                TaskV {
                    node: NodeV::Enum { name, children: items },
                    depth: 0,
                    parent: Option::None,
                },
            ],
            0,
        ),
        Option::None => spec_flatten(root_tasks(items), 0),
    }
}

/// The table with every record's resolved name filled in.
pub open spec fn spec_resolved_table(flat: Seq<RecV>, scheme: NamingScheme) -> Seq<RecV> {
    Seq::new(
        flat.len(),
        |i: int|
            RecV { resolved_name: Option::Some(resolved_names(flat, scheme)[i]), ..flat[i] },
    )
}

/// The mathematical image of an optional string.
pub open spec fn opt_str_view(o: Option<String>) -> Option<Seq<char>> {
    match o {
        Option::Some(s) => Option::Some(s@),
        Option::None => Option::None,
    }
}

/// What a successful resolution run guarantees: no collisions, the table
/// equal to the flattened table with every resolved name filled in, and a
/// sound table.
pub open spec fn resolution_ok(recs: Seq<RecV>, flat: Seq<RecV>, scheme: NamingScheme) -> bool {
    &&& forall|j: int|
        0 <= j < flat.len() ==> !#[trigger] dup_at(resolved_names(flat, scheme), j)
    &&& recs == spec_resolved_table(flat, scheme)
    &&& table_wf(recs)
}

/// What a failed resolution run guarantees: the error names the first
/// collision, with the colliding resolved name and the base name of the
/// record that produced it.
pub open spec fn resolution_failed(e: ProcessingError, flat: Seq<RecV>, scheme: NamingScheme) -> bool {
    match e {
        ProcessingError::DuplicateName { resolved_name, original_name } => {
            let names = resolved_names(flat, scheme);
            exists|j: int|
                {
                    &&& 0 <= j < flat.len()
                    &&& #[trigger] dup_at(names, j)
                    &&& (forall|k: int| 0 <= k < j ==> !#[trigger] dup_at(names, k))
                    &&& resolved_name@ == names[j]
                    &&& original_name@ == flat[j].name
                }
        },
        ProcessingError::Parsing(_) => false,
    }
}

/// Flatten the top-level items under the configured root (or as a forest)
/// and resolve every record's name under the scheme. A name collision is a
/// hard failure carrying the first colliding resolved name.
#[verifier::rlimit(100)]
#[verifier::spinoff_prover]
pub fn process_parse_nodes(
    parse_nodes: Vec<ParseNode>,
    naming_scheme: NamingScheme,
    root_state_name: Option<String>,
) -> (r: Result<Vec<NodeData>, ProcessingError>)
    requires
        seq_size(nodes_view(parse_nodes@)) < usize::MAX,
    ensures
        ({
            let flat = spec_flatten_config(
                nodes_view(parse_nodes@),
                opt_str_view(root_state_name),
            );
            match r {
                Result::Ok(recs) => resolution_ok(recs_view(recs@), flat, naming_scheme),
                Result::Err(e) => resolution_failed(e, flat, naming_scheme),
            }
        }),
{
    let ghost items = nodes_view(parse_nodes@);
    let ghost rootv: Option<Seq<char>> = opt_str_view(root_state_name);
    let ghost flat = spec_flatten_config(items, rootv);
    let nodes: Vec<NodeData> = match root_state_name {
        Option::Some(name) => {
            let ghost namev = name@;
            let root = ParseNode::Enum(name, parse_nodes);
            proof {
                assert(root@ == (NodeV::Enum { name: namev, children: items }));
                assert(root@.size() == 1 + seq_size(items));
            }
            let table = flatten_parse_node(root);
            proof {
                assert(recs_view(table@) == flat);
                assert(flattened_wf(recs_view(table@)));
            }
            table
        },
        Option::None => {
            let table = flatten_parse_forest(parse_nodes);
            proof {
                assert(recs_view(table@) == flat);
                assert(flattened_wf(recs_view(table@)));
            }
            table
        },
    };
    resolve_table(nodes, naming_scheme)
}

/// Resolve every record's name of a freshly flattened table, rejecting the
/// first collision; the table handed back is the input with every resolved
/// name filled in.
fn resolve_table(nodes: Vec<NodeData>, naming_scheme: NamingScheme) -> (r: Result<
    Vec<NodeData>,
    ProcessingError,
>)
    requires
        flattened_wf(recs_view(nodes@)),
    ensures
        ({
            let flat = recs_view(nodes@);
            match r {
                Result::Ok(recs) => resolution_ok(recs_view(recs@), flat, naming_scheme),
                Result::Err(e) => resolution_failed(e, flat, naming_scheme),
            }
        }),
{
    broadcast use crate::processing::lemma_recs_view_index;

    let ghost flat = recs_view(nodes@);
    let mut nodes = nodes;
    proof {
        lemma_flattened_wf_table_wf(flat);
    }
    match apply_naming_scheme(naming_scheme, &mut nodes) {
        Result::Ok(()) => {
            proof {
                assert(recs_view(nodes@) =~= spec_resolved_table(flat, naming_scheme));
                let resolved = recs_view(nodes@);
                assert forall|i: int|
                    0 <= i < resolved.len() implies (#[trigger] resolved[i]).index == i && (
                resolved[i].parent matches Option::Some(p) ==> 0 <= p < i) by {
                    assert(flat[i].index == i && (flat[i].parent matches Option::Some(p) ==> 0 <= p
                        < i));
                }
                assert(table_wf(recs_view(nodes@)));
                assert(resolution_ok(recs_view(nodes@), flat, naming_scheme));
            }
            Result::Ok(nodes)
        },
        Result::Err(e) => {
            proof {
                assert(resolution_failed(e, flat, naming_scheme));
            }
            Result::Err(e)
        },
    }
}

/// Flatten a single root node, resolve every record's name and render the
/// output text.
pub fn parse_node_into_final_source(node: ParseNode, config: &PluginConfig) -> (r: Result<
    String,
    ProcessingError,
>)
    requires
        node@.size() <= usize::MAX,
    ensures
        ({
            let flat = spec_flatten(
                seq![TaskV { node: node@, depth: 0, parent: Option::None }],
                0,
            );
            match r {
                Result::Ok(out) => {
                    &&& resolution_ok(
                        spec_resolved_table(flat, config@.naming_scheme),
                        flat,
                        config@.naming_scheme,
                    )
                    &&& out@ == spec_plugin_source(
                        spec_resolved_table(flat, config@.naming_scheme),
                        config@,
                    )
                },
                Result::Err(e) => resolution_failed(e, flat, config@.naming_scheme),
            }
        }),
{
    let table = flatten_parse_node(node);
    match resolve_table(table, config.naming_scheme) {
        Result::Ok(recs) => Result::Ok(build_plugin_source(&recs, config)),
        Result::Err(e) => Result::Err(e),
    }
}

/// Flatten, resolve and render the top-level items into the output text.
#[verifier::rlimit(100)]
#[verifier::spinoff_prover]
pub fn convert_parse_nodes_into_plugin_source(
    parse_nodes: Vec<ParseNode>,
    config: &PluginConfig,
) -> (r: Result<String, ProcessingError>)
    requires
        seq_size(nodes_view(parse_nodes@)) < usize::MAX,
    ensures
        ({
            let flat = spec_flatten_config(nodes_view(parse_nodes@), config@.root_state_name);
            match r {
                Result::Ok(out) => {
                    &&& resolution_ok(
                        spec_resolved_table(flat, config@.naming_scheme),
                        flat,
                        config@.naming_scheme,
                    )
                    &&& out@ == spec_plugin_source(
                        spec_resolved_table(flat, config@.naming_scheme),
                        config@,
                    )
                },
                Result::Err(e) => resolution_failed(e, flat, config@.naming_scheme),
            }
        }),
{
    let ghost items = nodes_view(parse_nodes@);
    let root: Option<String> = match &config.root_state_name {
        Option::Some(s) => Option::Some(s.clone()),
        Option::None => Option::None,
    };
    let ghost rootv: Option<Seq<char>> = match root {
        Option::Some(ref s) => Option::Some(s@),
        Option::None => Option::None,
    };
    proof {
        assert(rootv == config@.root_state_name);
        assert(spec_flatten_config(items, rootv) == spec_flatten_config(
            items,
            config@.root_state_name,
        ));
    }
    match process_parse_nodes(parse_nodes, config.naming_scheme, root) {
        Result::Ok(nodes) => Result::Ok(build_plugin_source(&nodes, config)),
        Result::Err(e) => Result::Err(e),
    }
}

/// Hand the text back unchanged: the external formatting pass is a
/// best-effort concern of the surrounding tooling and never a correctness
/// gate, so the library's own formatting is the identity.
pub fn format_source(source: &str) -> (r: String)
    ensures
        r@ == source@,
{
    source.to_owned()
}

/// Compile a configuration text into the output text: parse, flatten under
/// the configured root, resolve names under the configured scheme, and
/// render. A parse failure carries the unconsumed remainder of the input; a
/// name collision carries the first colliding resolved name.
pub fn generate_state_plugin_source(source: &str, config: &PluginConfig) -> (r: Result<
    String,
    ProcessingError,
>)
    requires
        source@.len() < usize::MAX,
    ensures
        ({
            match spec_parse_config(source@) {
                ItemsRes::Stuck { at } => match r {
                    Result::Err(e) => match e {
                        ProcessingError::Parsing(rest) => rest@ == source@.subrange(
                            at,
                            source@.len() as int,
                        ),
                        ProcessingError::DuplicateName { .. } => false,
                    },
                    Result::Ok(_) => false,
                },
                ItemsRes::Parsed { items, .. } => ({
                    let flat = spec_flatten_config(items, config@.root_state_name);
                    let names = resolved_names(flat, config@.naming_scheme);
                    match r {
                        Result::Ok(out) => {
                            &&& forall|j: int| 0 <= j < flat.len() ==> !#[trigger] dup_at(names, j)
                            &&& out@ == spec_plugin_source(
                                spec_resolved_table(flat, config@.naming_scheme),
                                config@,
                            )
                        },
                        Result::Err(e) => match e {
                            ProcessingError::DuplicateName { resolved_name, original_name } => {
                                exists|j: int|
                                    {
                                        &&& 0 <= j < flat.len()
                                        &&& #[trigger] dup_at(names, j)
                                        &&& (forall|k: int|
                                            0 <= k < j ==> !#[trigger] dup_at(names, k))
                                        &&& resolved_name@ == names[j]
                                        &&& original_name@ == flat[j].name
                                    }
                            },
                            ProcessingError::Parsing(_) => false,
                        },
                    }
                }),
            }
        }),
{
    match parse_config(source) {
        Result::Err(at) => {
            let n = source.unicode_len();
            let rest = source.substring_char(at, n).to_owned();
            Result::Err(ProcessingError::Parsing(rest))
        },
        Result::Ok(nodes) => {
            proof {
                lemma_parse_config_size(source@, 0);
            }
            match convert_parse_nodes_into_plugin_source(nodes, config) {
                Result::Ok(out) => Result::Ok(format_source(out.as_str())),
                Result::Err(e) => Result::Err(e),
            }
        },
    }
}


/// Round-trip structural size: for any configuration text that parses, the
/// flattened table holds exactly one record per non-comment node of the
/// parse forest, and never more records than the forest has nodes,
/// comments included.
pub proof fn lemma_round_trip_size(s: Seq<char>)
    ensures
        spec_parse_config(s) matches ItemsRes::Parsed { items, .. } ==> spec_flatten(
            root_tasks(items),
            0,
        ).len() == crate::processing::noncomment_seq_count(items) && crate::processing::noncomment_seq_count(
            items,
        ) <= seq_size(items),
{
    if spec_parse_config(s) is Parsed {
        let items = spec_parse_config(s)->Parsed_items;
        crate::processing::lemma_flatten_forest_len(items);
    }
}

} // verus!
