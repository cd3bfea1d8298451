//! The flattener: walks the parse tree breadth-first, dropping comments,
//! and produces an ordered table of node records with parent back-references
//! and depths.

use vstd::prelude::*;

use crate::parser::NodeV;
use crate::parser::ParseNode;
use crate::parser::node_view;
use crate::parser::nodes_view;
use crate::parser::seq_size;
use crate::parser::lemma_nodes_view;
use crate::config::strs_view;

verus! {

/// The kind of a flattened node.
#[derive(Clone, Copy, Debug, PartialEq, Eq, Structural)]
pub enum NodeType {
    /// A leaf state.
    Singleton,
    /// A grouping of co-existing states.
    List,
    /// A branch of mutually exclusive states.
    Enum,
}

/// One record of the flattened node table.
#[derive(Debug, PartialEq)]
pub struct NodeData {
    /// Position in the table.
    pub index: usize,
    /// Index of the structural parent, when there is one; always smaller
    /// than `index`.
    pub parent: Option<usize>,
    /// The node's kind.
    pub node_type: NodeType,
    /// Distance from the tree root.
    pub depth: usize,
    /// The original, unresolved name.
    pub name: String,
    /// The collision-checked name; filled in exactly once by the naming
    /// resolver.
    pub resolved_name: Option<String>,
    /// The names of the node's immediate non-comment children.
    pub variants: Vec<String>,
}

/// Mathematical image of a [`NodeData`] record.
pub ghost struct RecV {
    pub index: int,
    pub parent: Option<int>,
    pub node_type: NodeType,
    pub depth: int,
    pub name: Seq<char>,
    pub resolved_name: Option<Seq<char>>,
    pub variants: Seq<Seq<char>>,
}

impl View for NodeData {
    type V = RecV;

    open spec fn view(&self) -> RecV {
        RecV {
            index: self.index as int,
            parent: match self.parent {
                Option::Some(p) => Option::Some(p as int),
                Option::None => Option::None,
            },
            node_type: self.node_type,
            depth: self.depth as int,
            name: self.name@,
            resolved_name: match self.resolved_name {
                Option::Some(ref s) => Option::Some(s@),
                Option::None => Option::None,
            },
            variants: strs_view(self.variants@),
        }
    }
}

/// The mathematical images of a record table.
pub open spec fn recs_view(s: Seq<NodeData>) -> Seq<RecV> {
    s.map_values(|r: NodeData| r@)
}

/// A sound record table: every record sits at its own index, and every
/// parent reference points strictly backwards.
pub open spec fn table_wf(recs: Seq<RecV>) -> bool {
    forall|i: int|
        0 <= i < recs.len() ==> (#[trigger] recs[i]).index == i && (recs[i].parent matches Option::Some(p)
            ==> 0 <= p < i)
}

/// One unit of pending flattening work: a subtree, its depth, and the table
/// index of its parent.
pub ghost struct TaskV {
    pub node: NodeV,
    pub depth: int,
    pub parent: Option<int>,
}

/// The kind of a parse node; comments have none and are never recorded.
pub open spec fn node_type_of(n: NodeV) -> NodeType {
    match n {
        NodeV::Singleton { .. } => NodeType::Singleton,
        NodeV::Enum { .. } => NodeType::Enum,
        NodeV::List { .. } => NodeType::List,
        NodeV::Comment { .. } => NodeType::Singleton,
    }
}

/// The names of the non-comment nodes of a sequence, in order.
pub open spec fn child_names(s: Seq<NodeV>) -> Seq<Seq<char>>
    decreases s,
{
    if s.len() == 0 {
        Seq::empty()
    } else if s[0] is Comment {
        child_names(s.drop_first())
    } else {
        seq![s[0].name()] + child_names(s.drop_first())
    }
}

/// The pending work for a sequence of children found at the given depth
/// under the given parent index.
pub open spec fn tasks_of(children: Seq<NodeV>, depth: int, parent: int) -> Seq<TaskV> {
    children.map_values(|c: NodeV| TaskV { node: c, depth, parent: Option::Some(parent) })
}

/// The pending work for the top-level items, which have no parent.
pub open spec fn root_tasks(items: Seq<NodeV>) -> Seq<TaskV> {
    items.map_values(|c: NodeV| TaskV { node: c, depth: 0, parent: Option::None })
}

/// The total number of parse nodes left in a work queue.
pub open spec fn task_queue_size(q: Seq<TaskV>) -> nat
    decreases q,
{
    if q.len() == 0 {
        0
    } else {
        q[0].node.size() + task_queue_size(q.drop_first())
    }
}

pub proof fn lemma_task_queue_size_concat(a: Seq<TaskV>, b: Seq<TaskV>)
    ensures
        task_queue_size(a + b) == task_queue_size(a) + task_queue_size(b),
    decreases a,
{
    if a.len() == 0 {
        assert(a + b =~= b);
    } else {
        assert((a + b).drop_first() =~= a.drop_first() + b);
        lemma_task_queue_size_concat(a.drop_first(), b);
    }
}

pub proof fn lemma_tasks_of_size(children: Seq<NodeV>, depth: int, parent: int)
    ensures
        task_queue_size(tasks_of(children, depth, parent)) == seq_size(children),
    decreases children,
{
    if children.len() > 0 {
        lemma_tasks_of_size(children.drop_first(), depth, parent);
        assert(tasks_of(children, depth, parent).drop_first() =~= tasks_of(
            children.drop_first(),
            depth,
            parent,
        ));
    }
}

pub proof fn lemma_root_tasks_size(items: Seq<NodeV>)
    ensures
        task_queue_size(root_tasks(items)) == seq_size(items),
    decreases items,
{
    if items.len() > 0 {
        lemma_root_tasks_size(items.drop_first());
        assert(root_tasks(items).drop_first() =~= root_tasks(items.drop_first()));
    }
}

/// The flattened table that a work queue denotes: records in breadth-first
/// discovery order, comments dropped, each record carrying the names of its
/// non-comment children as its variants.
pub open spec fn spec_flatten(q: Seq<TaskV>, idx: int) -> Seq<RecV>
    decreases task_queue_size(q), q.len(),
    when true
    via spec_flatten_decreases
{
    if q.len() == 0 {
        Seq::empty()
    } else {
        let t = q[0];
        if t.node is Comment {
            spec_flatten(q.drop_first(), idx)
        } else {
            let rec = RecV {
                index: idx,
                parent: t.parent,
                node_type: node_type_of(t.node),
                depth: t.depth,
                name: t.node.name(),
                resolved_name: Option::None,
                variants: child_names(t.node.children()),
            };
            seq![rec] + spec_flatten(
                q.drop_first() + tasks_of(t.node.children(), t.depth + 1, idx),
                idx + 1,
            )
        }
    }
}

#[via_fn]
proof fn spec_flatten_decreases(q: Seq<TaskV>, idx: int) {
    if q.len() > 0 {
        let t = q[0];
        assert(task_queue_size(q) == t.node.size() + task_queue_size(q.drop_first()));
        if !(t.node is Comment) {
            lemma_task_queue_size_concat(q.drop_first(), tasks_of(t.node.children(), t.depth + 1, idx));
            lemma_tasks_of_size(t.node.children(), t.depth + 1, idx);
            assert(t.node.size() == 1 + seq_size(t.node.children()));
        }
    }
}

/// The flattened table is exactly one record per non-comment node.
pub proof fn lemma_flatten_len(q: Seq<TaskV>, idx: int)
    ensures
        spec_flatten(q, idx).len() == noncomment_queue_count_of(q),
    decreases task_queue_size(q), q.len(),
{
    if q.len() > 0 {
        let t = q[0];
        assert(task_queue_size(q) == t.node.size() + task_queue_size(q.drop_first()));
        if t.node is Comment {
            lemma_flatten_len(q.drop_first(), idx);
        } else {
            lemma_task_queue_size_concat(q.drop_first(), tasks_of(t.node.children(), t.depth + 1, idx));
            lemma_tasks_of_size(t.node.children(), t.depth + 1, idx);
            assert(t.node.size() == 1 + seq_size(t.node.children()));
            lemma_flatten_len(q.drop_first() + tasks_of(t.node.children(), t.depth + 1, idx), idx + 1);
            lemma_noncomment_queue_count_of_concat(q.drop_first(), tasks_of(t.node.children(), t.depth + 1, idx));
            lemma_noncomment_count_tasks(t.node.children(), t.depth + 1, idx);
            assert(noncomment_count(t.node) == 1 + noncomment_seq_count(t.node.children()));
        }
    }
}

/// The number of non-comment nodes reachable from a work queue, counted
/// directly over the trees.
pub open spec fn noncomment_count(n: NodeV) -> nat
    decreases n,
{
    match n {
        NodeV::Comment { .. } => 0,
        NodeV::Singleton { .. } => 1,
        NodeV::Enum { children, .. } => 1 + noncomment_seq_count(children),
        NodeV::List { children, .. } => 1 + noncomment_seq_count(children),
    }
}

/// The number of non-comment nodes of a forest.
pub open spec fn noncomment_seq_count(s: Seq<NodeV>) -> nat
    decreases s,
{
    if s.len() == 0 {
        0
    } else {
        noncomment_count(s[0]) + noncomment_seq_count(s.drop_first())
    }
}

/// The count over a queue, stated over the trees it holds.
pub open spec fn noncomment_queue_count_of(q: Seq<TaskV>) -> nat
    decreases q,
{
    if q.len() == 0 {
        0
    } else {
        noncomment_count(q[0].node) + noncomment_queue_count_of(q.drop_first())
    }
}

pub proof fn lemma_noncomment_queue_count_of_concat(a: Seq<TaskV>, b: Seq<TaskV>)
    ensures
        noncomment_queue_count_of(a + b) == noncomment_queue_count_of(a)
            + noncomment_queue_count_of(b),
    decreases a,
{
    if a.len() == 0 {
        assert(a + b =~= b);
    } else {
        assert((a + b).drop_first() =~= a.drop_first() + b);
        lemma_noncomment_queue_count_of_concat(a.drop_first(), b);
    }
}

proof fn lemma_noncomment_count_tasks(children: Seq<NodeV>, depth: int, parent: int)
    ensures
        noncomment_queue_count_of(tasks_of(children, depth, parent)) == noncomment_seq_count(
            children,
        ),
    decreases children,
{
    if children.len() > 0 {
        lemma_noncomment_count_tasks(children.drop_first(), depth, parent);
        assert(tasks_of(children, depth, parent).drop_first() =~= tasks_of(
            children.drop_first(),
            depth,
            parent,
        ));
    }
}


/// No tree holds fewer non-comment nodes than zero, nor more than its size.
pub proof fn lemma_noncomment_le_size(n: NodeV)
    ensures
        noncomment_count(n) <= n.size(),
    decreases n,
{
    match n {
        NodeV::Enum { children, .. } => lemma_noncomment_seq_le_size(children),
        NodeV::List { children, .. } => lemma_noncomment_seq_le_size(children),
        _ => {},
    }
}

/// The non-comment count of a forest never exceeds its total size.
pub proof fn lemma_noncomment_seq_le_size(s: Seq<NodeV>)
    ensures
        noncomment_seq_count(s) <= seq_size(s),
    decreases s,
{
    if s.len() > 0 {
        lemma_noncomment_le_size(s[0]);
        lemma_noncomment_seq_le_size(s.drop_first());
    }
}

proof fn lemma_noncomment_count_root_tasks(items: Seq<NodeV>)
    ensures
        noncomment_queue_count_of(root_tasks(items)) == noncomment_seq_count(items),
    decreases items,
{
    if items.len() > 0 {
        lemma_noncomment_count_root_tasks(items.drop_first());
        assert(root_tasks(items).drop_first() =~= root_tasks(items.drop_first()));
    }
}

proof fn lemma_child_names_concat(a: Seq<NodeV>, b: Seq<NodeV>)
    ensures
        child_names(a + b) == child_names(a) + child_names(b),
    decreases a,
{
    if a.len() == 0 {
        assert(a + b =~= b);
        assert(child_names(a) + child_names(b) =~= child_names(b));
    } else {
        assert((a + b).drop_first() =~= a.drop_first() + b);
        lemma_child_names_concat(a.drop_first(), b);
        if !(a[0] is Comment) {
            assert(seq![a[0].name()] + (child_names(a.drop_first()) + child_names(b)) =~= (
            seq![a[0].name()] + child_names(a.drop_first())) + child_names(b));
        }
    }
}

/// Collect the names of the non-comment nodes of a vector, in order.
fn child_names_of(children: &Vec<ParseNode>) -> (r: Vec<String>)
    ensures
        strs_view(r@) == child_names(nodes_view(children@)),
{
    let ghost views = nodes_view(children@);
    proof {
        lemma_nodes_view(children@);
        assert(child_names(views.take(0)) =~= Seq::<Seq<char>>::empty()) by {
            assert(views.take(0) =~= Seq::<NodeV>::empty());
        }
    }
    let mut out: Vec<String> = Vec::new();
    let n = children.len();
    for i in 0..n
        invariant
            n == children.len(),
            views == nodes_view(children@),
            views.len() == n,
            strs_view(out@) == child_names(views.take(i as int)),
    {
        proof {
            lemma_nodes_view(children@);
            assert(node_view(children@[i as int]) == views[i as int]);
            assert(views.take(i + 1) =~= views.take(i as int) + seq![views[i as int]]);
            lemma_child_names_concat(views.take(i as int), seq![views[i as int]]);
            assert(seq![views[i as int]].drop_first() =~= Seq::<NodeV>::empty());
            assert(child_names(Seq::<NodeV>::empty()) == Seq::<Seq<char>>::empty());
        }
        let ghost out0 = out@;
        match &children[i] {
            ParseNode::Comment(_) => {
                proof {
                    assert(views[i as int] is Comment);
                    assert(child_names(seq![views[i as int]]) =~= Seq::<Seq<char>>::empty());
                    assert(child_names(views.take(i as int)) + Seq::<Seq<char>>::empty()
                        =~= child_names(views.take(i as int)));
                }
            },
            ParseNode::Singleton(name) => {
                out.push(name.clone());
                proof {
                    assert(!(views[i as int] is Comment));
                    assert(child_names(seq![views[i as int]]) =~= seq![views[i as int].name()]);
                    assert(strs_view(out@) =~= strs_view(out0) + seq![views[i as int].name()]);
                }
            },
            ParseNode::Enum(name, _) => {
                out.push(name.clone());
                proof {
                    assert(!(views[i as int] is Comment));
                    assert(child_names(seq![views[i as int]]) =~= seq![views[i as int].name()]);
                    assert(strs_view(out@) =~= strs_view(out0) + seq![views[i as int].name()]);
                }
            },
            ParseNode::List(name, _) => {
                out.push(name.clone());
                proof {
                    assert(!(views[i as int] is Comment));
                    assert(child_names(seq![views[i as int]]) =~= seq![views[i as int].name()]);
                    assert(strs_view(out@) =~= strs_view(out0) + seq![views[i as int].name()]);
                }
            },
        }
    }
    proof {
        assert(views.take(n as int) =~= views);
    }
    out
}

/// One unit of pending flattening work.
struct FlatTask {
    pub node: ParseNode,
    pub depth: usize,
    pub parent: Option<usize>,
}

/// The mathematical image of one executable work unit.
spec fn task_view(t: FlatTask) -> TaskV {
    TaskV {
        node: t.node@,
        depth: t.depth as int,
        parent: match t.parent {
            Option::Some(p) => Option::Some(p as int),
            Option::None => Option::None,
        },
    }
}

/// The mathematical image of an executable work queue.
spec fn queue_view(q: Seq<FlatTask>) -> Seq<TaskV> {
    q.map_values(|t: FlatTask| task_view(t))
}

broadcast proof fn lemma_queue_view_index(q: Seq<FlatTask>, j: int)
    requires
        0 <= j < q.len(),
    ensures
        #![trigger task_view(q[j])]
        #![trigger queue_view(q)[j]]
        task_view(q[j]) == queue_view(q)[j],
        queue_view(q).len() == q.len(),
{
}

broadcast proof fn lemma_tasks_of_index(children: Seq<NodeV>, depth: int, parent: int, j: int)
    requires
        0 <= j < children.len(),
    ensures
        #[trigger] tasks_of(children, depth, parent)[j] == (TaskV {
            node: children[j],
            depth,
            parent: Option::Some(parent),
        }),
        tasks_of(children, depth, parent).len() == children.len(),
{
}

pub broadcast proof fn lemma_recs_view_index(s: Seq<NodeData>, i: int)
    requires
        0 <= i < s.len(),
    ensures
        #![trigger recs_view(s)[i]]
        #![trigger s[i]]
        recs_view(s)[i] == s[i]@,
        recs_view(s).len() == s.len(),
{
}

/// Move the children of a node onto the back of the work queue.
fn enqueue_children(queue: &mut Vec<FlatTask>, children: Vec<ParseNode>, depth: usize, parent: usize)
    ensures
        queue_view(final(queue)@) == queue_view(old(queue)@) + tasks_of(
            nodes_view(children@),
            depth as int,
            parent as int,
        ),
{
    let ghost cv0 = nodes_view(children@);
    let ghost base = queue_view(queue@);
    proof {
        lemma_nodes_view(children@);
        assert(tasks_of(cv0.take(0), depth as int, parent as int) =~= Seq::<TaskV>::empty());
        assert(base + Seq::<TaskV>::empty() =~= base);
    }
    let mut children = children;
    while children.len() > 0
        invariant
            queue_view(queue@) == base + tasks_of(
                cv0.take(cv0.len() - children@.len()),
                depth as int,
                parent as int,
            ),
            nodes_view(children@) =~= cv0.skip(cv0.len() - children@.len()),
            children@.len() <= cv0.len(),
            cv0.len() == nodes_view(children@).len() + (cv0.len() - children@.len()),
        decreases children@.len(),
    {
        let ghost k = cv0.len() - children@.len();
        let ghost cviews = nodes_view(children@);
        let ghost before = children@;
        proof {
            lemma_nodes_view(children@);
        }
        let c = children.remove(0);
        proof {
            assert(children@ =~= before.drop_first());
            lemma_nodes_view(children@);
            assert(nodes_view(children@) =~= cviews.drop_first());
            assert(node_view(c) == cviews[0]);
            assert(cviews[0] == cv0.skip(k)[0]);
            assert(cv0.skip(k)[0] == cv0[k]);
            assert(nodes_view(children@) =~= cv0.skip(k + 1));
        }
        let ghost qv_before = queue_view(queue@);
        queue.push(FlatTask { node: c, depth, parent: Option::Some(parent) });
        proof {
            assert(queue_view(queue@) =~= qv_before + seq![
                TaskV {
                    node: cv0[k],
                    depth: depth as int,
                    parent: Option::Some(parent as int),
                },
            ]);
            assert(tasks_of(cv0.take(k + 1), depth as int, parent as int) =~= tasks_of(
                cv0.take(k),
                depth as int,
                parent as int,
            ) + seq![
                TaskV {
                    node: cv0[k],
                    depth: depth as int,
                    parent: Option::Some(parent as int),
                },
            ]);
            assert(queue_view(queue@) =~= base + tasks_of(
                cv0.take(k + 1),
                depth as int,
                parent as int,
            ));
        }
    }
    proof {
        assert(cv0.take(cv0.len() as int) =~= cv0);
    }
}


/// Record-wise soundness of a flattened table at one index: the record sits
/// at its own index, its parent lies strictly before it and one level up,
/// parentless records are roots at depth zero, no name is resolved yet, and
/// depth never exceeds position.
pub open spec fn rec_wf_at(recs: Seq<RecV>, i: int) -> bool {
    let r = recs[i];
    &&& r.index == i
    &&& (r.parent matches Option::Some(p) ==> 0 <= p < i && recs[p].depth + 1 == r.depth)
    &&& (r.parent is None ==> r.depth == 0)
    &&& r.resolved_name is None
    &&& 0 <= r.depth <= i
}

/// A sound flattened table.
pub open spec fn flattened_wf(recs: Seq<RecV>) -> bool {
    forall|i: int| 0 <= i < recs.len() ==> #[trigger] rec_wf_at(recs, i)
}

/// A sound flattened table is in particular well-formed for the resolver.
pub proof fn lemma_flattened_wf_table_wf(recs: Seq<RecV>)
    requires
        flattened_wf(recs),
    ensures
        table_wf(recs),
{
    assert forall|i: int| 0 <= i < recs.len() implies (#[trigger] recs[i]).index == i && (
    recs[i].parent matches Option::Some(p) ==> 0 <= p < i) by {
        assert(rec_wf_at(recs, i));
    }
}

/// Soundness of pending work relative to the records already emitted.
spec fn queue_inv(qv: Seq<TaskV>, recs: Seq<RecV>) -> bool {
    forall|j: int|
        0 <= j < qv.len() ==> {
            let t = #[trigger] qv[j];
            &&& (t.parent matches Option::Some(p) ==> 0 <= p < recs.len() && recs[p].depth + 1
                == t.depth)
            &&& (t.parent is None ==> t.depth == 0)
            &&& 0 <= t.depth <= recs.len()
        }
}

/// Dropping a comment from the head of the queue preserves soundness.
proof fn lemma_comment_step(qv0: Seq<TaskV>, recs: Seq<RecV>)
    requires
        queue_inv(qv0, recs),
        qv0.len() > 0,
    ensures
        queue_inv(qv0.drop_first(), recs),
{
    assert forall|j: int| 0 <= j < qv0.drop_first().len() implies {
        let t = #[trigger] qv0.drop_first()[j];
        &&& (t.parent matches Option::Some(p) ==> 0 <= p < recs.len() && recs[p].depth + 1
            == t.depth)
        &&& (t.parent is None ==> t.depth == 0)
        &&& 0 <= t.depth <= recs.len()
    } by {
        assert(qv0.drop_first()[j] == qv0[j + 1]);
    }
}

/// Emitting the head's record and enqueueing its children preserves
/// soundness of both the table and the queue.
proof fn lemma_emit_step(qv0: Seq<TaskV>, recs: Seq<RecV>, rec: RecV)
    requires
        queue_inv(qv0, recs),
        flattened_wf(recs),
        qv0.len() > 0,
        rec == (RecV {
            index: recs.len() as int,
            parent: qv0[0].parent,
            node_type: node_type_of(qv0[0].node),
            depth: qv0[0].depth,
            name: qv0[0].node.name(),
            resolved_name: Option::None,
            variants: child_names(qv0[0].node.children()),
        }),
    ensures
        flattened_wf(recs.push(rec)),
        queue_inv(
            qv0.drop_first() + tasks_of(qv0[0].node.children(), qv0[0].depth + 1, recs.len() as int),
            recs.push(rec),
        ),
{
    broadcast use lemma_tasks_of_index;

    let recs1 = recs.push(rec);
    let t0 = qv0[0];
    assert forall|i: int| 0 <= i < recs1.len() implies #[trigger] rec_wf_at(recs1, i) by {
        if i < recs.len() {
            assert(rec_wf_at(recs, i));
            assert(recs1[i] == recs[i]);
            if recs[i].parent is Some {
                let p = recs[i].parent->0;
                assert(recs1[p] == recs[p]);
            }
        } else {
            assert(recs1[i] == rec);
            if t0.parent is Some {
                let p = t0.parent->0;
                assert(recs1[p] == recs[p]);
            }
        }
    }
    let added = tasks_of(t0.node.children(), t0.depth + 1, recs.len() as int);
    let qv1 = qv0.drop_first() + added;
    assert forall|j: int| 0 <= j < qv1.len() implies {
        let t = #[trigger] qv1[j];
        &&& (t.parent matches Option::Some(p) ==> 0 <= p < recs1.len() && recs1[p].depth + 1
            == t.depth)
        &&& (t.parent is None ==> t.depth == 0)
        &&& 0 <= t.depth <= recs1.len()
    } by {
        if j < qv0.len() - 1 {
            assert(qv1[j] == qv0[j + 1]);
            let t = qv0[j + 1];
            if t.parent is Some {
                let p = t.parent->0;
                assert(recs1[p] == recs[p]);
            }
        } else {
            assert(qv1[j] == added[j - (qv0.len() - 1)]);
            assert(added[j - (qv0.len() - 1)] == (TaskV {
                node: t0.node.children()[j - (qv0.len() - 1)],
                depth: t0.depth + 1,
                parent: Option::Some(recs.len() as int),
            }));
            assert(recs1[recs.len() as int] == rec);
        }
    }
}

/// Flatten a queue of top-level work units breadth-first into a record
/// table.
#[verifier::rlimit(100)]
fn flatten_core(queue: Vec<FlatTask>) -> (r: Vec<NodeData>)
    requires
        task_queue_size(queue_view(queue@)) <= usize::MAX,
        forall|j: int|
            0 <= j < queue@.len() ==> (#[trigger] task_view(queue@[j])).depth == 0 && task_view(
                queue@[j],
            ).parent is None,
    ensures
        recs_view(r@) == spec_flatten(queue_view(queue@), 0),
        flattened_wf(recs_view(r@)),
        r@.len() <= task_queue_size(queue_view(queue@)),
{
    broadcast use lemma_queue_view_index, lemma_tasks_of_index, lemma_recs_view_index;

    let ghost init = queue_view(queue@);
    let ghost total = task_queue_size(init);
    let mut queue = queue;
    let mut out: Vec<NodeData> = Vec::new();
    proof {
        assert(recs_view(out@) =~= Seq::<RecV>::empty());
        assert(Seq::<RecV>::empty() + spec_flatten(init, 0) =~= spec_flatten(init, 0));
        assert(queue_inv(queue_view(queue@), recs_view(out@)));
    }
    while queue.len() > 0
        invariant
            out@.len() + task_queue_size(queue_view(queue@)) <= total,
            total <= usize::MAX,
            recs_view(out@) + spec_flatten(queue_view(queue@), out@.len() as int) == spec_flatten(
                init,
                0,
            ),
            flattened_wf(recs_view(out@)),
            queue_inv(queue_view(queue@), recs_view(out@)),
        decreases task_queue_size(queue_view(queue@)),
    {
        let ghost qv0 = queue_view(queue@);
        let ghost recs0 = recs_view(out@);
        let ghost idx = out@.len() as int;
        let task = queue.remove(0);
        let ghost tv = task_view(task);
        proof {
            assert(queue_view(queue@) =~= qv0.drop_first());
            assert(tv == qv0[0]);
            assert(task_queue_size(qv0) == qv0[0].node.size() + task_queue_size(qv0.drop_first()));
        }
        let FlatTask { node, depth, parent } = task;
        match node {
            ParseNode::Comment(_) => {
                proof {
                    assert(tv.node is Comment);
                    assert(spec_flatten(qv0, idx) == spec_flatten(qv0.drop_first(), idx));
                    lemma_comment_step(qv0, recs0);
                }
            },
            ParseNode::Singleton(name) => {
                proof {
                    assert(tv.node == (NodeV::Singleton { name: name@ }));
                    assert(tv.node.size() == 1);
                }
                let index = out.len();
                let rec = NodeData {
                    index,
                    parent,
                    node_type: NodeType::Singleton,
                    depth,
                    name,
                    resolved_name: Option::None,
                    variants: Vec::new(),
                };
                let ghost recv = RecV {
                    index: idx,
                    parent: tv.parent,
                    node_type: node_type_of(tv.node),
                    depth: tv.depth,
                    name: tv.node.name(),
                    resolved_name: Option::None,
                    variants: child_names(tv.node.children()),
                };
                proof {
                    assert(child_names(Seq::<NodeV>::empty()) == Seq::<Seq<char>>::empty());
                    assert(strs_view(Seq::<String>::empty()) =~= Seq::<Seq<char>>::empty());
                    assert(rec@ == recv);
                }
                out.push(rec);
                proof {
                    assert(recs_view(out@) =~= recs0.push(recv));
                    assert(recs0.push(recv) =~= recs0 + seq![recv]);
                    assert(tasks_of(tv.node.children(), tv.depth + 1, idx) =~= Seq::<TaskV>::empty());
                    assert(qv0.drop_first() + tasks_of(tv.node.children(), tv.depth + 1, idx)
                        =~= qv0.drop_first());
                    assert(spec_flatten(qv0, idx) == seq![recv] + spec_flatten(
                        qv0.drop_first(),
                        idx + 1,
                    ));
                    assert((recs0 + seq![recv]) + spec_flatten(qv0.drop_first(), idx + 1)
                        =~= recs0 + (seq![recv] + spec_flatten(qv0.drop_first(), idx + 1)));
                    lemma_emit_step(qv0, recs0, recv);
                }
            },
            ParseNode::Enum(name, children) => {
                proof {
                    assert(tv.node == (NodeV::Enum { name: name@, children: nodes_view(children@) }));
                    assert(tv.node.size() == 1 + seq_size(nodes_view(children@)));
                }
                let index = out.len();
                let variants = child_names_of(&children);
                let rec = NodeData {
                    index,
                    parent,
                    node_type: NodeType::Enum,
                    depth,
                    name,
                    resolved_name: Option::None,
                    variants,
                };
                let ghost recv = RecV {
                    index: idx,
                    parent: tv.parent,
                    node_type: node_type_of(tv.node),
                    depth: tv.depth,
                    name: tv.node.name(),
                    resolved_name: Option::None,
                    variants: child_names(tv.node.children()),
                };
                proof {
                    assert(rec@ == recv);
                }
                out.push(rec);
                proof {
                    assert(recs_view(out@) =~= recs0.push(recv));
                    assert(recs0.push(recv) =~= recs0 + seq![recv]);
                }
                enqueue_children(&mut queue, children, depth + 1, index);
                proof {
                    let newq = qv0.drop_first() + tasks_of(tv.node.children(), tv.depth + 1, idx);
                    assert(queue_view(queue@) == newq);
                    assert(spec_flatten(qv0, idx) == seq![recv] + spec_flatten(newq, idx + 1));
                    assert((recs0 + seq![recv]) + spec_flatten(newq, idx + 1) =~= recs0 + (
                    seq![recv] + spec_flatten(newq, idx + 1)));
                    lemma_task_queue_size_concat(
                        qv0.drop_first(),
                        tasks_of(tv.node.children(), tv.depth + 1, idx),
                    );
                    lemma_tasks_of_size(tv.node.children(), tv.depth + 1, idx);
                    lemma_emit_step(qv0, recs0, recv);
                }
            },
            ParseNode::List(name, children) => {
                proof {
                    assert(tv.node == (NodeV::List { name: name@, children: nodes_view(children@) }));
                    assert(tv.node.size() == 1 + seq_size(nodes_view(children@)));
                }
                let index = out.len();
                let variants = child_names_of(&children);
                let rec = NodeData {
                    index,
                    parent,
                    node_type: NodeType::List,
                    depth,
                    name,
                    resolved_name: Option::None,
                    variants,
                };
                let ghost recv = RecV {
                    index: idx,
                    parent: tv.parent,
                    node_type: node_type_of(tv.node),
                    depth: tv.depth,
                    name: tv.node.name(),
                    resolved_name: Option::None,
                    variants: child_names(tv.node.children()),
                };
                proof {
                    assert(rec@ == recv);
                }
                out.push(rec);
                proof {
                    assert(recs_view(out@) =~= recs0.push(recv));
                    assert(recs0.push(recv) =~= recs0 + seq![recv]);
                }
                enqueue_children(&mut queue, children, depth + 1, index);
                proof {
                    let newq = qv0.drop_first() + tasks_of(tv.node.children(), tv.depth + 1, idx);
                    assert(queue_view(queue@) == newq);
                    assert(spec_flatten(qv0, idx) == seq![recv] + spec_flatten(newq, idx + 1));
                    assert((recs0 + seq![recv]) + spec_flatten(newq, idx + 1) =~= recs0 + (
                    seq![recv] + spec_flatten(newq, idx + 1)));
                    lemma_task_queue_size_concat(
                        qv0.drop_first(),
                        tasks_of(tv.node.children(), tv.depth + 1, idx),
                    );
                    lemma_tasks_of_size(tv.node.children(), tv.depth + 1, idx);
                    lemma_emit_step(qv0, recs0, recv);
                }
            },
        }
    }
    proof {
        assert(queue_view(queue@) =~= Seq::<TaskV>::empty());
        assert(spec_flatten(Seq::<TaskV>::empty(), out@.len() as int) =~= Seq::<RecV>::empty());
        assert(recs_view(out@) + Seq::<RecV>::empty() =~= recs_view(out@));
    }
    out
}


/// Flatten a single root parse tree breadth-first into an ordered table of
/// records: one record per non-comment node, in discovery order, each
/// carrying its parent's index, its depth and its children's names.
pub fn flatten_parse_node(root: ParseNode) -> (r: Vec<NodeData>)
    requires
        root@.size() <= usize::MAX,
    ensures
        recs_view(r@) == spec_flatten(
            seq![TaskV { node: root@, depth: 0, parent: Option::None }],
            0,
        ),
        flattened_wf(recs_view(r@)),
        r@.len() == noncomment_count(root@),
        r@.len() <= root@.size(),
{
    let ghost rv = root@;
    let mut queue: Vec<FlatTask> = Vec::new();
    queue.push(FlatTask { node: root, depth: 0, parent: Option::None });
    proof {
        broadcast use lemma_queue_view_index;

        let tasks = seq![TaskV { node: rv, depth: 0, parent: Option::None }];
        assert(queue_view(queue@) =~= tasks);
        assert(tasks.drop_first() =~= Seq::<TaskV>::empty());
        assert(task_queue_size(tasks) == rv.size() + task_queue_size(Seq::<TaskV>::empty()));
        assert(task_queue_size(Seq::<TaskV>::empty()) == 0);
        lemma_flatten_len(tasks, 0);
        assert(noncomment_queue_count_of(tasks) == noncomment_count(rv) + noncomment_queue_count_of(
            Seq::<TaskV>::empty(),
        ));
        assert(noncomment_queue_count_of(Seq::<TaskV>::empty()) == 0);
        lemma_noncomment_le_size(rv);
    }
    flatten_core(queue)
}

/// Flatten a forest of top-level parse trees breadth-first: every top-level
/// item becomes a root record at depth zero with no parent.
pub fn flatten_parse_forest(items: Vec<ParseNode>) -> (r: Vec<NodeData>)
    requires
        seq_size(nodes_view(items@)) <= usize::MAX,
    ensures
        recs_view(r@) == spec_flatten(root_tasks(nodes_view(items@)), 0),
        flattened_wf(recs_view(r@)),
        r@.len() == noncomment_seq_count(nodes_view(items@)),
        r@.len() <= seq_size(nodes_view(items@)),
{
    broadcast use lemma_queue_view_index;

    let ghost iv = nodes_view(items@);
    proof {
        lemma_nodes_view(items@);
        assert(root_tasks(iv.take(0)) =~= Seq::<TaskV>::empty());
    }
    let mut items = items;
    let mut queue: Vec<FlatTask> = Vec::new();
    let ghost n0 = iv.len();
    while items.len() > 0
        invariant
            queue_view(queue@) =~= root_tasks(iv.take(n0 - items@.len())),
            nodes_view(items@) =~= iv.skip(n0 - items@.len()),
            items@.len() <= n0,
            n0 == iv.len(),
        decreases items@.len(),
    {
        let ghost k = n0 - items@.len();
        let ghost cviews = nodes_view(items@);
        let ghost before = items@;
        proof {
            lemma_nodes_view(items@);
        }
        let c = items.remove(0);
        proof {
            assert(items@ =~= before.drop_first());
            lemma_nodes_view(items@);
            assert(nodes_view(items@) =~= cviews.drop_first());
            assert(node_view(c) == cviews[0]);
            assert(cviews[0] == iv.skip(k)[0]);
            assert(iv.skip(k)[0] == iv[k]);
            assert(nodes_view(items@) =~= iv.skip(k + 1));
        }
        let ghost qv_before = queue_view(queue@);
        queue.push(FlatTask { node: c, depth: 0, parent: Option::None });
        proof {
            assert(queue_view(queue@) =~= qv_before + seq![
                TaskV { node: iv[k], depth: 0, parent: Option::None },
            ]);
            assert(root_tasks(iv.take(k + 1)) =~= root_tasks(iv.take(k)) + seq![
                TaskV { node: iv[k], depth: 0, parent: Option::None },
            ]);
        }
    }
    proof {
        assert(iv.take(n0 as int) =~= iv);
        lemma_root_tasks_size(iv);
        lemma_flatten_len(root_tasks(iv), 0);
        lemma_noncomment_count_root_tasks(iv);
        lemma_noncomment_seq_le_size(iv);
    }
    flatten_core(queue)
}


/// The flattened table of a forest holds exactly one record per non-comment
/// node and never more records than the forest has nodes, comments
/// included.
pub proof fn lemma_flatten_forest_len(items: Seq<NodeV>)
    ensures
        spec_flatten(root_tasks(items), 0).len() == noncomment_seq_count(items),
        noncomment_seq_count(items) <= seq_size(items),
{
    lemma_flatten_len(root_tasks(items), 0);
    lemma_noncomment_count_root_tasks(items);
    lemma_noncomment_seq_le_size(items);
}

} // verus!
