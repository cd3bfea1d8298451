//! The emitter: renders the fully resolved record table into a textual
//! module of type definitions plus a registration routine.
//!
//! Every piece of the output text is stated by a spec function, so the
//! emitted text is a pure function of the table and the configuration: the
//! whole blob is [`spec_plugin_source`].

use vstd::prelude::*;

use crate::config::PluginConfig;
use crate::config::PluginConfigV;
use crate::config::PluginName;
use crate::config::PluginNameV;
use crate::config::dedup_keep_first;
use crate::config::strs_view;
use crate::processing::NodeData;
use crate::processing::NodeType;
use crate::processing::RecV;
use crate::processing::recs_view;
use crate::processing::table_wf;
use crate::processing::lemma_recs_view_index;

verus! {

/// The parts joined by the separator: empty for no parts, otherwise the
/// parts in order with the separator between neighbours.
pub open spec fn join_with(parts: Seq<Seq<char>>, sep: Seq<char>) -> Seq<char>
    decreases parts.len(),
{
    if parts.len() == 0 {
        Seq::empty()
    } else if parts.len() == 1 {
        parts[0]
    } else {
        join_with(parts.drop_last(), sep) + sep + parts.last()
    }
}

/// Join the strings of a vector with a separator.
pub fn join_strings(parts: &Vec<String>, sep: &str) -> (r: String)
    ensures
        r@ == join_with(strs_view(parts@), sep@),
{
    let ghost views = strs_view(parts@);
    let mut out = String::new();
    let n = parts.len();
    for i in 0..n
        invariant
            n == parts.len(),
            views == strs_view(parts@),
            views.len() == n,
            out@ == join_with(views.take(i as int), sep@),
    {
        proof {
            assert(views[i as int] == parts@[i as int]@);
            assert(views.take(i + 1).drop_last() =~= views.take(i as int));
            assert(views.take(i + 1).last() == views[i as int]);
        }
        if i > 0 {
            out.append(sep);
        }
        out.append(parts[i].as_str());
        proof {
            if i == 0 {
                assert(out@ =~= join_with(views.take(1), sep@));
            }
        }
    }
    proof {
        assert(views.take(n as int) =~= views);
    }
    out
}

/// The names of the traits derived on every emitted type.
pub open spec fn spec_required_derives() -> Seq<Seq<char>> {
    seq!["Hash"@, "Default"@, "Debug"@, "Clone"@, "PartialEq"@, "Eq"@]
}

/// The required derive names, in order.
pub fn required_derives() -> (r: Vec<String>)
    ensures
        strs_view(r@) == spec_required_derives(),
{
    let mut out: Vec<String> = Vec::new();
    out.push(String::from_str("Hash"));
    out.push(String::from_str("Default"));
    out.push(String::from_str("Debug"));
    out.push(String::from_str("Clone"));
    out.push(String::from_str("PartialEq"));
    out.push(String::from_str("Eq"));
    proof {
        assert(strs_view(out@) =~= spec_required_derives());
    }
    out
}

/// The derive list of the output: the required derives followed by the
/// configured additional ones, first occurrences kept, joined with `, `.
pub open spec fn spec_derives_list(additional: Seq<Seq<char>>) -> Seq<char> {
    join_with(dedup_keep_first(spec_required_derives() + additional), ", "@)
}

/// Render the derive list for a configuration.
pub fn derives_list(additional: &Vec<String>) -> (r: String)
    ensures
        r@ == spec_derives_list(strs_view(additional@)),
{
    let base = required_derives();
    let merged = crate::config::extend_unique(base, additional);
    join_strings(&merged, ", ")
}

/// The name a record is emitted under: its resolved name once the resolver
/// has run, its base name before that.
pub open spec fn emit_name(r: RecV) -> Seq<char> {
    match r.resolved_name {
        Option::Some(s) => s,
        Option::None => r.name,
    }
}

/// The name a record is emitted under.
pub fn emit_name_of(rec: &NodeData) -> (r: &String)
    ensures
        r@ == emit_name(rec@),
{
    match &rec.resolved_name {
        Option::Some(s) => s,
        Option::None => &rec.name,
    }
}

/// The derive-and-source annotation of one record: a root derives the
/// host's root-state trait; a dependent state derives the sub-state trait
/// and names its parent's resolved name and its own base name as the
/// activating source.
pub open spec fn spec_derive_line(recs: Seq<RecV>, i: int, derives: Seq<char>) -> Seq<char> {
    let r = recs[i];
    match r.parent {
        Option::None => "#[derive(bevy::prelude::States, "@ + derives + ")]"@,
        Option::Some(p) => "#[derive(bevy::prelude::SubStates, "@ + derives
            + ")]\n#[source("@ + emit_name(recs[p]) + " = "@ + emit_name(recs[p]) + "::"@
            + r.name + ")]"@,
    }
}

/// The type definition of one record: an enumeration with recorded variants
/// becomes a choice type with its first variant as the default; everything
/// else, an empty enumeration included, becomes a zero-field struct.
pub open spec fn spec_typedef(recs: Seq<RecV>, i: int, derives: Seq<char>) -> Seq<char> {
    let r = recs[i];
    if r.node_type is Enum && r.variants.len() > 0 {
        spec_derive_line(recs, i, derives) + "\npub enum "@ + emit_name(r)
            + " {\n    #[default]\n    "@ + join_with(r.variants, ",\n    "@) + "\n}\n"@
    } else {
        spec_derive_line(recs, i, derives) + "\npub struct "@ + emit_name(r) + ";\n"@
    }
}

/// The type definitions of the first `upto` records, in table order.
pub open spec fn spec_typedefs(recs: Seq<RecV>, upto: int, derives: Seq<char>) -> Seq<char>
    decreases upto,
{
    if upto <= 0 {
        Seq::empty()
    } else {
        spec_typedefs(recs, upto - 1, derives) + spec_typedef(recs, upto - 1, derives)
    }
}

/// Render the type definition of one record.
fn typedef_source(nodes: &Vec<NodeData>, i: usize, derives: &String) -> (r: String)
    requires
        i < nodes@.len(),
        table_wf(recs_view(nodes@)),
    ensures
        r@ == spec_typedef(recs_view(nodes@), i as int, derives@),
{
    broadcast use lemma_recs_view_index;

    let ghost recs = recs_view(nodes@);
    proof {
        assert(recs[i as int] == nodes@[i as int]@);
    }
    let mut out: String;
    match nodes[i].parent {
        Option::None => {
            out = String::from_str("#[derive(bevy::prelude::States, ");
            out.append(derives.as_str());
            out.append(")]");
        },
        Option::Some(p) => {
            let parent_name = emit_name_of(&nodes[p]);
            out = String::from_str("#[derive(bevy::prelude::SubStates, ");
            out.append(derives.as_str());
            out.append(")]\n#[source(");
            out.append(parent_name.as_str());
            out.append(" = ");
            out.append(parent_name.as_str());
            out.append("::");
            out.append(nodes[i].name.as_str());
            out.append(")]");
        },
    }
    proof {
        assert(out@ == spec_derive_line(recs, i as int, derives@));
    }
    let is_enum = match nodes[i].node_type {
        NodeType::Enum => true,
        _ => false,
    };
    if is_enum && nodes[i].variants.len() > 0 {
        out.append("\npub enum ");
        out.append(emit_name_of(&nodes[i]).as_str());
        out.append(" {\n    #[default]\n    ");
        let joined = join_strings(&nodes[i].variants, ",\n    ");
        out.append(joined.as_str());
        out.append("\n}\n");
    } else {
        out.append("\npub struct ");
        out.append(emit_name_of(&nodes[i]).as_str());
        out.append(";\n");
    }
    out
}

/// One registration call: a dependent state is added as a sub-state; a root
/// is added as a state only when no synthetic root owns the registration.
pub open spec fn spec_reg_line(recs: Seq<RecV>, i: int, module: Seq<char>, with_root: bool) -> Seq<
    char,
> {
    let r = recs[i];
    match r.parent {
        Option::Some(_) => "\n        .add_sub_state::<"@ + module + "::"@ + emit_name(r)
            + ">()"@,
        Option::None => if with_root {
            Seq::empty()
        } else {
            "\n        .add_state::<"@ + module + "::"@ + emit_name(r) + ">()"@
        },
    }
}

/// The registration calls of the first `upto` records, in table order.
pub open spec fn spec_reg_lines(
    recs: Seq<RecV>,
    upto: int,
    module: Seq<char>,
    with_root: bool,
) -> Seq<char>
    decreases upto,
{
    if upto <= 0 {
        Seq::empty()
    } else {
        spec_reg_lines(recs, upto - 1, module, with_root) + spec_reg_line(
            recs,
            upto - 1,
            module,
            with_root,
        )
    }
}

/// The whole registration routine: with a synthetic root, one initializing
/// call for the root and one dependent call per parented record; without
/// one, every record is registered, roots first-hand and dependents as
/// sub-states, in table order.
pub open spec fn spec_plugin_builder(recs: Seq<RecV>, config: PluginConfigV) -> Seq<char> {
    match config.root_state_name {
        Option::Some(root) => "app.init_state::<"@ + config.states_module_name + "::"@ + root
            + ">()"@ + spec_reg_lines(recs, recs.len() as int, config.states_module_name, true)
            + ";"@,
        Option::None => "app"@ + spec_reg_lines(
            recs,
            recs.len() as int,
            config.states_module_name,
            false,
        ) + ";"@,
    }
}

/// The emitted plugin construct around the registration routine.
pub open spec fn spec_plugin_def(builder: Seq<char>, name: PluginNameV) -> Seq<char> {
    match name {
        PluginNameV::Struct { name } => "pub struct "@ + name
            + ";\nimpl bevy::app::Plugin for "@ + name
            + " {\n    fn build(&self, app: &mut bevy::app::App) {\n        "@ + builder
            + "\n    }\n}\n"@,
        PluginNameV::Function { name } => "pub fn "@ + name
            + "(app: &mut bevy::app::App) {\n    "@ + builder + "\n}\n"@,
    }
}

/// The whole output text: the namespaced type definitions followed by the
/// plugin construct with its registration routine.
pub open spec fn spec_plugin_source(recs: Seq<RecV>, config: PluginConfigV) -> Seq<char> {
    "#![allow(missing_docs)]\nuse bevy::prelude::AppExtStates;\npub mod "@
        + config.states_module_name + " {\n    use bevy::prelude::StateSet;\n"@ + spec_typedefs(
        recs,
        recs.len() as int,
        spec_derives_list(config.additional_derives),
    ) + "}\n"@ + spec_plugin_def(spec_plugin_builder(recs, config), config.plugin_name)
}

/// Emission is deterministic: rendering equal tables under equal
/// configurations yields byte-identical output — the emitted text is a pure
/// function of the table and the configuration.
pub proof fn lemma_emission_deterministic(
    recs1: Seq<RecV>,
    recs2: Seq<RecV>,
    c1: PluginConfigV,
    c2: PluginConfigV,
)
    requires
        recs1 == recs2,
        c1 == c2,
    ensures
        spec_plugin_source(recs1, c1) == spec_plugin_source(recs2, c2),
{
}

/// Render the registration routine.
fn plugin_builder_source(nodes: &Vec<NodeData>, config: &PluginConfig) -> (r: String)
    requires
        table_wf(recs_view(nodes@)),
    ensures
        r@ == spec_plugin_builder(recs_view(nodes@), config@),
{
    broadcast use lemma_recs_view_index;

    let ghost recs = recs_view(nodes@);
    let with_root: bool;
    let mut out: String;
    match &config.root_state_name {
        Option::Some(root) => {
            with_root = true;
            out = String::from_str("app.init_state::<");
            out.append(config.states_module_name.as_str());
            out.append("::");
            out.append(root.as_str());
            out.append(">()");
        },
        Option::None => {
            with_root = false;
            out = String::from_str("app");
        },
    }
    let n = nodes.len();
    let ghost prefix = out@;
    for i in 0..n
        invariant
            n == nodes.len(),
            recs == recs_view(nodes@),
            recs.len() == n,
            table_wf(recs),
            with_root == config@.root_state_name is Some,
            out@ == prefix + spec_reg_lines(recs, i as int, config@.states_module_name, with_root),
    {
        proof {
            assert(recs[i as int] == nodes@[i as int]@);
        }
        match nodes[i].parent {
            Option::Some(_) => {
                out.append("\n        .add_sub_state::<");
                out.append(config.states_module_name.as_str());
                out.append("::");
                out.append(emit_name_of(&nodes[i]).as_str());
                out.append(">()");
            },
            Option::None => {
                if !with_root {
                    out.append("\n        .add_state::<");
                    out.append(config.states_module_name.as_str());
                    out.append("::");
                    out.append(emit_name_of(&nodes[i]).as_str());
                    out.append(">()");
                }
            },
        }
    }
    out.append(";");
    out
}

/// Render the resolved table and the configuration into the output text:
/// one type definition per record and a registration routine wiring every
/// dependent state to its parent, in table order.
pub fn build_plugin_source(nodes: &Vec<NodeData>, config: &PluginConfig) -> (r: String)
    requires
        table_wf(recs_view(nodes@)),
    ensures
        r@ == spec_plugin_source(recs_view(nodes@), config@),
{
    broadcast use lemma_recs_view_index;

    let ghost recs = recs_view(nodes@);
    let derives = derives_list(&config.additional_derives);
    let mut out = String::from_str("#![allow(missing_docs)]\nuse bevy::prelude::AppExtStates;\npub mod ");
    out.append(config.states_module_name.as_str());
    out.append(" {\n    use bevy::prelude::StateSet;\n");
    let ghost prefix = out@;
    let n = nodes.len();
    for i in 0..n
        invariant
            n == nodes.len(),
            recs == recs_view(nodes@),
            recs.len() == n,
            table_wf(recs),
            derives@ == spec_derives_list(config@.additional_derives),
            out@ == prefix + spec_typedefs(recs, i as int, derives@),
    {
        let td = typedef_source(nodes, i, &derives);
        out.append(td.as_str());
    }
    out.append("}\n");
    let builder = plugin_builder_source(nodes, config);
    let ghost builder_v = builder@;
    match &config.plugin_name {
        PluginName::Struct(name) => {
            out.append("pub struct ");
            out.append(name.as_str());
            out.append(";\nimpl bevy::app::Plugin for ");
            out.append(name.as_str());
            out.append(" {\n    fn build(&self, app: &mut bevy::app::App) {\n        ");
            out.append(builder.as_str());
            out.append("\n    }\n}\n");
        },
        PluginName::Function(name) => {
            out.append("pub fn ");
            out.append(name.as_str());
            out.append("(app: &mut bevy::app::App) {\n    ");
            out.append(builder.as_str());
            out.append("\n}\n");
        },
    }
    out
}

} // verus!
