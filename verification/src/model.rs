//! The state-tree model: the comment-free tree of states, the conversion
//! from the parse tree, and the parent back-reference used at emission.
//!
//! Dropping comments is the one lossy transform of the pipeline; the law
//! proved here is that it never increases the node count of the tree.

use vstd::prelude::*;

use crate::parser::NodeV;
use crate::parser::ParseNode;
use crate::parser::node_view;
use crate::parser::nodes_view;
use crate::parser::seq_size;

verus! {

/// A node of the comment-free state tree.
#[derive(Debug, PartialEq)]
pub enum StateNode {
    /// A leaf state with no children.
    Singleton(String),
    /// A branch whose children are mutually exclusive.
    Enum(String, Vec<StateNode>),
    /// A branch whose children co-exist independently.
    List(String, Vec<StateNode>),
}

/// Mathematical image of a [`StateNode`].
pub ghost enum StateNodeV {
    Singleton { name: Seq<char> },
    Enum { name: Seq<char>, children: Seq<StateNodeV> },
    List { name: Seq<char>, children: Seq<StateNodeV> },
}

/// The mathematical image of a state node.
pub open spec fn state_view(n: StateNode) -> StateNodeV
    decreases n,
{
    match n {
        StateNode::Singleton(name) => StateNodeV::Singleton { name: name@ },
        StateNode::Enum(name, children) => StateNodeV::Enum {
            name: name@,
            children: states_view(children@),
        },
        StateNode::List(name, children) => StateNodeV::List {
            name: name@,
            children: states_view(children@),
        },
    }
}

/// The mathematical images of a sequence of state nodes.
pub open spec fn states_view(s: Seq<StateNode>) -> Seq<StateNodeV>
    decreases s,
{
    if s.len() == 0 {
        Seq::empty()
    } else {
        seq![state_view(s[0])] + states_view(s.drop_first())
    }
}

pub proof fn lemma_states_view(s: Seq<StateNode>)
    ensures
        states_view(s).len() == s.len(),
        forall|i: int| 0 <= i < s.len() ==> states_view(s)[i] == state_view(s[i]),
    decreases s,
{
    if s.len() > 0 {
        lemma_states_view(s.drop_first());
    }
}

impl View for StateNode {
    type V = StateNodeV;

    open spec fn view(&self) -> StateNodeV {
        state_view(*self)
    }
}

impl StateNodeV {
    /// The node's name.
    pub open spec fn name(self) -> Seq<char> {
        match self {
            StateNodeV::Singleton { name } => name,
            StateNodeV::Enum { name, .. } => name,
            StateNodeV::List { name, .. } => name,
        }
    }

    /// The node's children; leaves have none.
    pub open spec fn children(self) -> Seq<StateNodeV> {
        match self {
            StateNodeV::Enum { children, .. } => children,
            StateNodeV::List { children, .. } => children,
            _ => Seq::empty(),
        }
    }

    /// The number of nodes of the tree.
    pub open spec fn size(self) -> nat
        decreases self,
    {
        match self {
            StateNodeV::Enum { children, .. } => 1 + state_seq_size(children),
            StateNodeV::List { children, .. } => 1 + state_seq_size(children),
            _ => 1,
        }
    }
}

/// The total number of nodes of a sequence of state trees.
pub open spec fn state_seq_size(s: Seq<StateNodeV>) -> nat
    decreases s,
{
    if s.len() == 0 {
        0
    } else {
        s[0].size() + state_seq_size(s.drop_first())
    }
}

pub proof fn lemma_state_seq_size_concat(a: Seq<StateNodeV>, b: Seq<StateNodeV>)
    ensures
        state_seq_size(a + b) == state_seq_size(a) + state_seq_size(b),
    decreases a,
{
    if a.len() == 0 {
        assert(a + b =~= b);
    } else {
        assert((a + b).drop_first() =~= a.drop_first() + b);
        lemma_state_seq_size_concat(a.drop_first(), b);
    }
}

proof fn lemma_state_seq_size_singleton(n: StateNodeV)
    ensures
        state_seq_size(seq![n]) == n.size(),
{
    assert(seq![n].drop_first() =~= Seq::<StateNodeV>::empty());
    assert(state_seq_size(Seq::<StateNodeV>::empty()) == 0);
    assert(state_seq_size(seq![n]) == n.size() + state_seq_size(seq![n].drop_first()));
}

/// The state tree denoted by a parse node: the same tree with every comment
/// dropped; a comment itself denotes no state tree at all.
pub open spec fn spec_from_parse(n: NodeV) -> Option<StateNodeV>
    decreases n,
{
    match n {
        NodeV::Singleton { name } => Option::Some(StateNodeV::Singleton { name }),
        NodeV::Enum { name, children } => Option::Some(
            StateNodeV::Enum { name, children: spec_from_parse_seq(children) },
        ),
        NodeV::List { name, children } => Option::Some(
            StateNodeV::List { name, children: spec_from_parse_seq(children) },
        ),
        NodeV::Comment { .. } => Option::None,
    }
}

/// The state trees denoted by a sequence of parse nodes, comments dropped.
pub open spec fn spec_from_parse_seq(s: Seq<NodeV>) -> Seq<StateNodeV>
    decreases s,
{
    if s.len() == 0 {
        Seq::empty()
    } else {
        match spec_from_parse(s[0]) {
            Option::Some(t) => seq![t] + spec_from_parse_seq(s.drop_first()),
            Option::None => spec_from_parse_seq(s.drop_first()),
        }
    }
}

proof fn lemma_from_parse_seq_concat(a: Seq<NodeV>, b: Seq<NodeV>)
    ensures
        spec_from_parse_seq(a + b) == spec_from_parse_seq(a) + spec_from_parse_seq(b),
    decreases a,
{
    if a.len() == 0 {
        assert(a + b =~= b);
        assert(spec_from_parse_seq(a) + spec_from_parse_seq(b) =~= spec_from_parse_seq(b));
    } else {
        assert((a + b).drop_first() =~= a.drop_first() + b);
        lemma_from_parse_seq_concat(a.drop_first(), b);
        if spec_from_parse(a[0]) is Some {
            assert(seq![spec_from_parse(a[0]).unwrap()] + (spec_from_parse_seq(a.drop_first())
                + spec_from_parse_seq(b)) =~= (seq![spec_from_parse(a[0]).unwrap()]
                + spec_from_parse_seq(a.drop_first())) + spec_from_parse_seq(b));
        }
    }
}

/// Dropping comments never increases the node count: the state tree denoted
/// by a parse node is at most as large as the parse tree itself.
pub proof fn lemma_conversion_never_grows(n: NodeV)
    ensures
        match spec_from_parse(n) {
            Option::Some(t) => t.size() <= n.size(),
            Option::None => true,
        },
    decreases n,
{
    match n {
        NodeV::Enum { name, children } => {
            lemma_conversion_seq_never_grows(children);
        },
        NodeV::List { name, children } => {
            lemma_conversion_seq_never_grows(children);
        },
        _ => {},
    }
}

/// Dropping comments never increases the total node count of a forest.
pub proof fn lemma_conversion_seq_never_grows(s: Seq<NodeV>)
    ensures
        state_seq_size(spec_from_parse_seq(s)) <= seq_size(s),
    decreases s,
{
    if s.len() > 0 {
        lemma_conversion_never_grows(s[0]);
        lemma_conversion_seq_never_grows(s.drop_first());
        match spec_from_parse(s[0]) {
            Option::Some(t) => {
                lemma_state_seq_size_concat(seq![t], spec_from_parse_seq(s.drop_first()));
                lemma_state_seq_size_singleton(t);
            },
            Option::None => {},
        }
    }
}

impl StateNode {
    /// Create a singleton node.
    pub fn singleton(name: &str) -> (r: Self)
        ensures
            r@ == (StateNodeV::Singleton { name: name@ }),
    {
        StateNode::Singleton(name.to_owned())
    }

    /// Create an enumeration node.
    pub fn enumeration(name: &str, children: Vec<StateNode>) -> (r: Self)
        ensures
            r@ == (StateNodeV::Enum { name: name@, children: states_view(children@) }),
    {
        StateNode::Enum(name.to_owned(), children)
    }

    /// Create an empty enumeration node.
    pub fn enum_empty(name: &str) -> (r: Self)
        ensures
            r@ == (StateNodeV::Enum { name: name@, children: Seq::<StateNodeV>::empty() }),
    {
        StateNode::Enum(name.to_owned(), Vec::new())
    }

    /// Create a list node.
    pub fn list(name: &str, children: Vec<StateNode>) -> (r: Self)
        ensures
            r@ == (StateNodeV::List { name: name@, children: states_view(children@) }),
    {
        StateNode::List(name.to_owned(), children)
    }

    /// The node's name.
    pub fn name(&self) -> (r: &str)
        ensures
            r@ == self@.name(),
    {
        match self {
            StateNode::Singleton(name) => name.as_str(),
            StateNode::Enum(name, _) => name.as_str(),
            StateNode::List(name, _) => name.as_str(),
        }
    }

    /// The number of nodes of this tree.
    pub fn get_tree_size(&self) -> (r: usize)
        requires
            self@.size() <= usize::MAX,
        ensures
            r == self@.size(),
        decreases *self,
    {
        match self {
            StateNode::Singleton(_) => 1,
            StateNode::Enum(_, children) => 1 + state_tree_size_of(children),
            StateNode::List(_, children) => 1 + state_tree_size_of(children),
        }
    }

    /// The state tree denoted by a parse node: the same tree with every
    /// comment dropped. A comment itself denotes no state tree.
    pub fn from_parse_node(node: &ParseNode) -> (r: Option<StateNode>)
        ensures
            match r {
                Option::Some(t) => spec_from_parse(node@) == Option::Some(t@),
                Option::None => spec_from_parse(node@) is None,
            },
        decreases *node,
    {
        match node {
            ParseNode::Singleton(name) => Option::Some(StateNode::Singleton(name.clone())),
            ParseNode::Enum(name, children) => Option::Some(
                StateNode::Enum(name.clone(), from_parse_children(children)),
            ),
            ParseNode::List(name, children) => Option::Some(
                StateNode::List(name.clone(), from_parse_children(children)),
            ),
            ParseNode::Comment(_) => Option::None,
        }
    }
}

/// Convert the children of a parse node, dropping comments.
fn from_parse_children(children: &Vec<ParseNode>) -> (r: Vec<StateNode>)
    ensures
        states_view(r@) == spec_from_parse_seq(nodes_view(children@)),
    decreases *children,
{
    let ghost views = nodes_view(children@);
    proof {
        crate::parser::lemma_nodes_view(children@);
        assert(spec_from_parse_seq(views.take(0)) =~= Seq::<StateNodeV>::empty()) by {
            assert(views.take(0) =~= Seq::<NodeV>::empty());
        }
    }
    let mut out: Vec<StateNode> = Vec::new();
    let n = children.len();
    for i in 0..n
        invariant
            n == children.len(),
            views == nodes_view(children@),
            views.len() == n,
            states_view(out@) == spec_from_parse_seq(views.take(i as int)),
    {
        proof {
            crate::parser::lemma_nodes_view(children@);
            assert(node_view(children@[i as int]) == views[i as int]);
            assert(views.take(i + 1) =~= views.take(i as int) + seq![views[i as int]]);
            lemma_from_parse_seq_concat(views.take(i as int), seq![views[i as int]]);
            assert(seq![views[i as int]].drop_first() =~= Seq::<NodeV>::empty());
            assert(spec_from_parse_seq(Seq::<NodeV>::empty()) =~= Seq::<StateNodeV>::empty());
        }
        let ghost out0 = out@;
        match StateNode::from_parse_node(&children[i]) {
            Option::Some(t) => {
                let ghost tv = t@;
                out.push(t);
                proof {
                    assert(out@ =~= out0.push(t));
                    lemma_states_view_push(out0, t, tv);
                    assert(seq![tv] + Seq::<StateNodeV>::empty() =~= seq![tv]);
                    assert(spec_from_parse_seq(seq![views[i as int]]) =~= seq![tv]);
                }
            },
            Option::None => {
                proof {
                    assert(spec_from_parse_seq(seq![views[i as int]]) =~= Seq::<
                        StateNodeV,
                    >::empty());
                    assert(spec_from_parse_seq(views.take(i as int)) + Seq::<
                        StateNodeV,
                    >::empty() =~= spec_from_parse_seq(views.take(i as int)));
                }
            },
        }
    }
    proof {
        assert(views.take(n as int) =~= views);
    }
    out
}

proof fn lemma_states_view_push(s: Seq<StateNode>, t: StateNode, tv: StateNodeV)
    requires
        state_view(t) == tv,
    ensures
        states_view(s.push(t)) == states_view(s) + seq![tv],
    decreases s,
{
    if s.len() == 0 {
        assert(s.push(t).drop_first() =~= Seq::<StateNode>::empty());
        assert(states_view(s.push(t)) == seq![tv] + states_view(Seq::<StateNode>::empty()));
        assert(seq![tv] + Seq::<StateNodeV>::empty() =~= seq![tv]);
        assert(states_view(s) + seq![tv] =~= seq![tv]);
    } else {
        assert(s.push(t).drop_first() =~= s.drop_first().push(t));
        lemma_states_view_push(s.drop_first(), t, tv);
        assert(seq![state_view(s.push(t)[0])] + (states_view(s.drop_first()) + seq![tv]) =~= (
        seq![state_view(s[0])] + states_view(s.drop_first())) + seq![tv]);
    }
}

/// The total number of nodes of a vector of state trees.
fn state_tree_size_of(children: &Vec<StateNode>) -> (r: usize)
    requires
        state_seq_size(states_view(children@)) < usize::MAX,
    ensures
        r == state_seq_size(states_view(children@)),
    decreases *children,
{
    let ghost views = states_view(children@);
    proof {
        lemma_states_view(children@);
        assert(state_seq_size(views.take(0)) == 0) by {
            assert(views.take(0) =~= Seq::<StateNodeV>::empty());
        }
    }
    let mut total: usize = 0;
    let n = children.len();
    for i in 0..n
        invariant
            n == children.len(),
            views == states_view(children@),
            views.len() == n,
            total == state_seq_size(views.take(i as int)),
            state_seq_size(views) < usize::MAX,
    {
        proof {
            lemma_states_view(children@);
            assert(state_view(children@[i as int]) == views[i as int]);
            assert(views.take(i + 1) =~= views.take(i as int) + seq![views[i as int]]);
            lemma_state_seq_size_concat(views.take(i as int), seq![views[i as int]]);
            lemma_state_seq_size_singleton(views[i as int]);
            assert(views =~= views.take(i as int) + views.skip(i as int));
            lemma_state_seq_size_concat(views.take(i as int), views.skip(i as int));
            assert(views.skip(i as int)[0] == views[i as int]);
            assert(views.skip(i as int).drop_first() =~= views.skip(i + 1));
            assert(state_seq_size(views.skip(i as int)) == views[i as int].size() + state_seq_size(
                views.skip(i + 1),
            ));
        }
        let sub = children[i].get_tree_size();
        total = total + sub;
    }
    proof {
        assert(views.take(n as int) =~= views);
    }
    total
}

/// A whole state tree: a synthetic root enumeration over the top-level
/// states; the root itself is not counted as a state.
#[derive(Debug, PartialEq)]
pub struct StateTree {
    root: StateNode,
}

impl View for StateTree {
    type V = StateNodeV;

    closed spec fn view(&self) -> StateNodeV {
        state_view(self.root)
    }
}

impl StateTree {
    /// Gather top-level states under a synthetic root.
    pub fn create(nodes: Vec<StateNode>) -> (r: Self)
        ensures
            r@ == (StateNodeV::Enum { name: ":root:"@, children: states_view(nodes@) }),
    {
        StateTree { root: StateNode::Enum(String::from_str(":root:"), nodes) }
    }

    /// The number of states of the tree, the synthetic root not counted.
    pub fn get_size(&self) -> (r: usize)
        requires
            self@.size() <= usize::MAX,
        ensures
            r == self@.size() - 1,
    {
        let subsize = self.root.get_tree_size();
        subsize - 1
    }
}

/// The parent back-reference of a dependent state: the parent's resolved
/// name and the variant of the parent that the state depends on.
#[derive(Debug, PartialEq)]
pub struct ParentState {
    /// The parent's resolved name.
    pub name: String,
    /// The parent's variant that activates this state.
    pub variant: String,
}

/// Mathematical image of a [`ParentState`].
pub ghost struct ParentStateV {
    pub name: Seq<char>,
    pub variant: Seq<char>,
}

impl View for ParentState {
    type V = ParentStateV;

    open spec fn view(&self) -> ParentStateV {
        ParentStateV { name: self.name@, variant: self.variant@ }
    }
}

impl ParentState {
    /// Create a parent back-reference.
    pub fn new(name: &str, variant: &str) -> (r: Self)
        ensures
            r@ == (ParentStateV { name: name@, variant: variant@ }),
    {
        ParentState { name: name.to_owned(), variant: variant.to_owned() }
    }

    /// The parent's resolved name.
    pub fn name(&self) -> (r: String)
        ensures
            r@ == self@.name,
    {
        self.name.clone()
    }

    /// The parent rendered as `Name::Variant`.
    pub fn name_and_variant(&self) -> (r: String)
        ensures
            r@ == self@.name + "::"@ + self@.variant,
    {
        let mut out = self.name.clone();
        out.append("::");
        out.append(self.variant.as_str());
        out
    }
}

} // verus!
