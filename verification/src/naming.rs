//! The naming resolver: computes a collision-checked resolved name for
//! every record of the flattened table under the active naming scheme.
//!
//! Resolution is a pure function of the table and the scheme: the resolved
//! name of each record is stated by [`spec_resolved_name`], and a duplicate
//! among the resolved names is a hard failure, never a silent rename.

use vstd::prelude::*;

use crate::config::NamingScheme;
use crate::config::strs_view;
use crate::processing::NodeData;
use crate::processing::RecV;
use crate::processing::recs_view;
use crate::processing::table_wf;
use crate::processing::lemma_recs_view_index;

verus! {

/// A failure of the processing pipeline.
#[derive(Debug, PartialEq)]
pub enum ProcessingError {
    /// Two nodes resolved to the same name under the active scheme; carries
    /// the colliding resolved name and the base name of the node that
    /// produced it.
    DuplicateName { resolved_name: String, original_name: String },
    /// The configuration text could not be parsed; carries the unconsumed
    /// remainder of the input.
    Parsing(String),
}

/// The failure message of a processing error.
pub open spec fn spec_message(e: ProcessingError) -> Seq<char> {
    match e {
        ProcessingError::DuplicateName { resolved_name, original_name } =>
            "Duplicate name: resolved_name='"@ + resolved_name@ + "' original_name='"@
            + original_name@ + "'"@,
        ProcessingError::Parsing(rest) => "Failed to parse! Remaining input: "@ + rest@,
    }
}

impl ProcessingError {
    /// Render the failure for diagnostics.
    pub fn message(&self) -> (r: String)
        ensures
            r@ == spec_message(*self),
    {
        match self {
            ProcessingError::DuplicateName { resolved_name, original_name } => {
                let mut s = String::from_str("Duplicate name: resolved_name='");
                s.append(resolved_name.as_str());
                s.append("' original_name='");
                s.append(original_name.as_str());
                s.append("'");
                s
            },
            ProcessingError::Parsing(rest) => {
                let mut s = String::from_str("Failed to parse! Remaining input: ");
                s.append(rest.as_str());
                s
            },
        }
    }
}

/// The resolved name of the record at `i`: under `Full`, every ancestor's
/// base name from the root down followed by the record's own name; under
/// `Short`, the immediate parent's base name followed by the record's own
/// name; under the scheme named `None`, the record's own name unchanged.
/// A list ancestor contributes its name to the chain exactly as an
/// enumeration would: the kinds differ only in emission shape.
pub open spec fn spec_resolved_name(recs: Seq<RecV>, i: int, scheme: NamingScheme) -> Seq<char>
    decreases i,
{
    match scheme {
        NamingScheme::NoPrefix => recs[i].name,
        NamingScheme::Short => match recs[i].parent {
            Option::Some(p) => if 0 <= p < recs.len() {
                recs[p].name + recs[i].name
            } else {
                recs[i].name
            },
            Option::None => recs[i].name,
        },
        NamingScheme::Full => match recs[i].parent {
            Option::Some(p) => if 0 <= p < i {
                spec_resolved_name(recs, p, NamingScheme::Full) + recs[i].name
            } else {
                recs[i].name
            },
            Option::None => recs[i].name,
        },
    }
}

/// The resolved names of the whole table, in order.
pub open spec fn resolved_names(recs: Seq<RecV>, scheme: NamingScheme) -> Seq<Seq<char>> {
    Seq::new(recs.len(), |i: int| spec_resolved_name(recs, i, scheme))
}

/// Whether the name at `j` collides with an earlier one.
pub open spec fn dup_at(names: Seq<Seq<char>>, j: int) -> bool {
    exists|i: int| 0 <= i < j && names[i] == names[j]
}

/// Naming is deterministic: resolving equal tables under the same scheme
/// yields identical resolved-name sequences — resolution is a pure function
/// of the table and the scheme, with no hidden state.
pub proof fn lemma_naming_deterministic(recs1: Seq<RecV>, recs2: Seq<RecV>, scheme: NamingScheme)
    requires
        recs1 == recs2,
    ensures
        resolved_names(recs1, scheme) == resolved_names(recs2, scheme),
{
}

/// Under the scheme named `None`, two records sharing a base name always
/// collide: the later one duplicates the earlier one's resolved name.
pub proof fn lemma_plain_scheme_duplicate(recs: Seq<RecV>, i: int, j: int)
    requires
        0 <= i < j < recs.len(),
        recs[i].name == recs[j].name,
    ensures
        dup_at(resolved_names(recs, NamingScheme::NoPrefix), j),
{
    let names = resolved_names(recs, NamingScheme::NoPrefix);
    assert(names[i] == recs[i].name);
    assert(names[j] == recs[j].name);
}

/// Resolve every record's name under the scheme, in table order, rejecting
/// the first collision. On success every record's `resolved_name` is filled
/// in and nothing else changes; on failure the table is left untouched and
/// the error carries the colliding resolved name and the base name of the
/// record that produced it.
pub fn apply_naming_scheme(naming_scheme: NamingScheme, nodes: &mut Vec<NodeData>) -> (r: Result<
    (),
    ProcessingError,
>)
    requires
        table_wf(recs_view(old(nodes)@)),
    ensures
        ({
            let recs = recs_view(old(nodes)@);
            let names = resolved_names(recs, naming_scheme);
            match r {
                Result::Ok(()) => {
                    &&& forall|j: int| 0 <= j < recs.len() ==> !#[trigger] dup_at(names, j)
                    &&& final(nodes)@.len() == recs.len()
                    &&& forall|i: int|
                        0 <= i < recs.len() ==> (#[trigger] final(nodes)@[i]@) == (RecV {
                            resolved_name: Option::Some(names[i]),
                            ..recs[i]
                        })
                },
                Result::Err(e) => match e {
                    ProcessingError::DuplicateName { resolved_name, original_name } => {
                        &&& *final(nodes) == *old(nodes)
                        &&& exists|j: int|
                            {
                                &&& 0 <= j < recs.len()
                                &&& #[trigger] dup_at(names, j)
                                &&& (forall|k: int| 0 <= k < j ==> !#[trigger] dup_at(names, k))
                                &&& resolved_name@ == names[j]
                                &&& original_name@ == recs[j].name
                            }
                    },
                    ProcessingError::Parsing(_) => false,
                },
            }
        }),
{
    broadcast use lemma_recs_view_index;

    let ghost recs = recs_view(nodes@);
    let ghost names = resolved_names(recs, naming_scheme);
    let mut resolved: Vec<String> = Vec::new();
    let n = nodes.len();
    for i in 0..n
        invariant
            n == nodes.len(),
            *nodes == *old(nodes),
            recs == recs_view(nodes@),
            names == resolved_names(recs, naming_scheme),
            table_wf(recs),
            resolved@.len() == i,
            forall|k: int| 0 <= k < i ==> (#[trigger] resolved@[k])@ == names[k],
            forall|k: int| 0 <= k < i ==> !#[trigger] dup_at(names, k),
    {
        proof {
            assert(recs[i as int] == nodes@[i as int]@);
        }
        let name_i: String = match naming_scheme {
            NamingScheme::NoPrefix => nodes[i].name.clone(),
            NamingScheme::Short => match nodes[i].parent {
                Option::Some(p) => {
                    let mut s = nodes[p].name.clone();
                    s.append(nodes[i].name.as_str());
                    s
                },
                Option::None => nodes[i].name.clone(),
            },
            NamingScheme::Full => match nodes[i].parent {
                Option::Some(p) => {
                    let mut s = resolved[p].clone();
                    s.append(nodes[i].name.as_str());
                    s
                },
                Option::None => nodes[i].name.clone(),
            },
        };
        proof {
            assert(name_i@ == spec_resolved_name(recs, i as int, naming_scheme));
            assert(names[i as int] == spec_resolved_name(recs, i as int, naming_scheme));
        }
        if crate::config::contains_string(&resolved, &name_i) {
            proof {
                let k = choose|k: int|
                    0 <= k < resolved@.len() && strs_view(resolved@)[k] == name_i@;
                assert(names[k] == names[i as int]);
                assert(dup_at(names, i as int));
            }
            return Result::Err(
                ProcessingError::DuplicateName {
                    resolved_name: name_i,
                    original_name: nodes[i].name.clone(),
                },
            );
        }
        proof {
            assert forall|k: int| 0 <= k < resolved@.len() implies strs_view(resolved@)[k]
                != name_i@ by {
                assert(strs_view(resolved@)[k] == resolved@[k]@);
            }
            assert(!dup_at(names, i as int)) by {
                if dup_at(names, i as int) {
                    let k = choose|k: int| 0 <= k < i && names[k] == names[i as int];
                    assert(strs_view(resolved@)[k] == resolved@[k]@);
                    assert(false);
                }
            }
        }
        resolved.push(name_i);
    }
    let ghost old_table = nodes@;
    let mut resolved = resolved;
    let mut out: Vec<NodeData> = Vec::new();
    let mut j: usize = 0;
    while j < n
        invariant
            j == out@.len(),
            j <= n,
            n == old_table.len(),
            recs == recs_view(old_table),
            names == resolved_names(recs, naming_scheme),
            nodes@ =~= old_table.skip(j as int),
            resolved@.len() == n - j,
            forall|k: int| 0 <= k < n - j ==> (#[trigger] resolved@[k])@ == names[j + k],
            forall|i: int|
                0 <= i < j ==> (#[trigger] out@[i]@) == (RecV {
                    resolved_name: Option::Some(names[i]),
                    ..recs[i]
                }),
        decreases n - j,
    {
        let ghost nodes_before = nodes@;
        let ghost resolved_before = resolved@;
        let mut rec = nodes.remove(0);
        let name = resolved.remove(0);
        proof {
            assert(nodes@ =~= nodes_before.drop_first());
            assert(resolved@ =~= resolved_before.drop_first());
            assert(rec == old_table[j as int]);
            assert(name@ == names[j as int]);
        }
        rec.resolved_name = Option::Some(name);
        proof {
            assert(rec@ == (RecV { resolved_name: Option::Some(names[j as int]), ..recs[j as int] }));
        }
        out.push(rec);
        j = j + 1;
    }
    *nodes = out;
    Result::Ok(())
}

} // verus!
