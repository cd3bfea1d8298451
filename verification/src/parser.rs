//! The configuration-language parser.
//!
//! The grammar is a sequence of items, where an item is a comment
//! (`// ...` to the end of the line), an enumeration (`Name { items }`),
//! a list (`Name [ items ]`) or a singleton (`Name`). Identifiers start
//! with an upper-case letter; comma separators are optional and may be
//! repeated; whitespace is insignificant between tokens.
//!
//! The grammar itself is stated as spec functions over the character
//! sequence; every executable parser is proved to return exactly what the
//! spec grammar says, and the position where it failed otherwise.

use vstd::prelude::*;

use crate::config::is_upper_char;
use crate::lexical::ident_end;
use crate::lexical::lemma_ident_end_bounds;
use crate::lexical::lemma_line_end_bounds;
use crate::lexical::lemma_skip_ws_bounds;
use crate::lexical::line_end;
use crate::lexical::skip_ws;
use crate::lexical::spec_trim;
use crate::lexical::is_upper;
use crate::lexical::scan_ident_end;
use crate::lexical::scan_line_end;
use crate::lexical::skip_whitespace;
use crate::lexical::trim_str;

verus! {

/// One node of the parse tree.
#[derive(Debug, PartialEq)]
pub enum ParseNode {
    /// A leaf state with no children.
    Singleton(String),
    /// A branch whose children are mutually exclusive.
    Enum(String, Vec<ParseNode>),
    /// A branch whose children co-exist independently.
    List(String, Vec<ParseNode>),
    /// A comment; it carries no semantic state.
    Comment(String),
}

/// Mathematical image of a [`ParseNode`].
pub ghost enum NodeV {
    Singleton { name: Seq<char> },
    Enum { name: Seq<char>, children: Seq<NodeV> },
    List { name: Seq<char>, children: Seq<NodeV> },
    Comment { text: Seq<char> },
}

/// The mathematical image of a parse node.
pub open spec fn node_view(n: ParseNode) -> NodeV
    decreases n,
{
    match n {
        ParseNode::Singleton(name) => NodeV::Singleton { name: name@ },
        ParseNode::Enum(name, children) => NodeV::Enum {
            name: name@,
            children: nodes_view(children@),
        },
        ParseNode::List(name, children) => NodeV::List {
            name: name@,
            children: nodes_view(children@),
        },
        ParseNode::Comment(text) => NodeV::Comment { text: text@ },
    }
}

/// The mathematical images of a sequence of parse nodes.
pub open spec fn nodes_view(s: Seq<ParseNode>) -> Seq<NodeV>
    decreases s,
{
    if s.len() == 0 {
        Seq::empty()
    } else {
        seq![node_view(s[0])] + nodes_view(s.drop_first())
    }
}

pub broadcast proof fn lemma_nodes_view(s: Seq<ParseNode>)
    ensures
        #[trigger] nodes_view(s).len() == s.len(),
        forall|i: int| 0 <= i < s.len() ==> nodes_view(s)[i] == node_view(s[i]),
    decreases s,
{
    if s.len() > 0 {
        lemma_nodes_view(s.drop_first());
    }
}

impl View for ParseNode {
    type V = NodeV;

    open spec fn view(&self) -> NodeV {
        node_view(*self)
    }
}

impl NodeV {
    /// Whether the node is a comment.
    pub open spec fn is_comment(self) -> bool {
        self is Comment
    }

    /// The node's name; a comment has none and yields the empty sequence.
    pub open spec fn name(self) -> Seq<char> {
        match self {
            NodeV::Singleton { name } => name,
            NodeV::Enum { name, .. } => name,
            NodeV::List { name, .. } => name,
            NodeV::Comment { .. } => Seq::empty(),
        }
    }

    /// The node's children; leaves and comments have none.
    pub open spec fn children(self) -> Seq<NodeV> {
        match self {
            NodeV::Enum { children, .. } => children,
            NodeV::List { children, .. } => children,
            _ => Seq::empty(),
        }
    }

    /// The number of nodes of the tree, comments included.
    pub open spec fn size(self) -> nat
        decreases self,
    {
        match self {
            NodeV::Enum { children, .. } => 1 + seq_size(children),
            NodeV::List { children, .. } => 1 + seq_size(children),
            _ => 1,
        }
    }
}

/// The total number of nodes of a sequence of trees, comments included.
pub open spec fn seq_size(s: Seq<NodeV>) -> nat
    decreases s,
{
    if s.len() == 0 {
        0
    } else {
        s[0].size() + seq_size(s.drop_first())
    }
}

pub proof fn lemma_seq_size_concat(a: Seq<NodeV>, b: Seq<NodeV>)
    ensures
        seq_size(a + b) == seq_size(a) + seq_size(b),
    decreases a,
{
    if a.len() == 0 {
        assert(a + b =~= b);
    } else {
        assert((a + b).drop_first() =~= a.drop_first() + b);
        lemma_seq_size_concat(a.drop_first(), b);
    }
}

pub proof fn lemma_seq_size_singleton(n: NodeV)
    ensures
        seq_size(seq![n]) == n.size(),
{
    assert(seq![n].drop_first() =~= Seq::<NodeV>::empty());
    assert(seq_size(Seq::<NodeV>::empty()) == 0);
    assert(seq_size(seq![n]) == n.size() + seq_size(seq![n].drop_first()));
}

impl ParseNode {
    /// Create a singleton node.
    pub fn singleton(name: &str) -> (r: Self)
        ensures
            r@ == (NodeV::Singleton { name: name@ }),
    {
        ParseNode::Singleton(name.to_owned())
    }

    /// Create an enumeration node.
    pub fn enumeration(name: &str, children: Vec<ParseNode>) -> (r: Self)
        ensures
            r@ == (NodeV::Enum { name: name@, children: nodes_view(children@) }),
    {
        ParseNode::Enum(name.to_owned(), children)
    }

    /// Create an empty enumeration node.
    pub fn enum_empty(name: &str) -> (r: Self)
        ensures
            r@ == (NodeV::Enum { name: name@, children: Seq::<NodeV>::empty() }),
    {
        ParseNode::Enum(name.to_owned(), Vec::new())
    }

    /// Create a list node.
    pub fn list(name: &str, children: Vec<ParseNode>) -> (r: Self)
        ensures
            r@ == (NodeV::List { name: name@, children: nodes_view(children@) }),
    {
        ParseNode::List(name.to_owned(), children)
    }

    /// Create an empty list node.
    pub fn list_empty(name: &str) -> (r: Self)
        ensures
            r@ == (NodeV::List { name: name@, children: Seq::<NodeV>::empty() }),
    {
        ParseNode::List(name.to_owned(), Vec::new())
    }

    /// Create a comment node.
    pub fn comment(text: &str) -> (r: Self)
        ensures
            r@ == (NodeV::Comment { text: text@ }),
    {
        ParseNode::Comment(text.to_owned())
    }

    /// The node's name; a comment has none.
    pub fn name(&self) -> (r: Option<&str>)
        ensures
            match r {
                Option::Some(s) => !self@.is_comment() && s@ == self@.name(),
                Option::None => self@.is_comment(),
            },
    {
        match self {
            ParseNode::Singleton(name) => Option::Some(name.as_str()),
            ParseNode::Enum(name, _) => Option::Some(name.as_str()),
            ParseNode::List(name, _) => Option::Some(name.as_str()),
            ParseNode::Comment(_) => Option::None,
        }
    }

    /// The node's children; leaves and comments have none.
    pub fn children(&self) -> (r: Option<&Vec<ParseNode>>)
        ensures
            match r {
                Option::Some(c) => nodes_view(c@) == self@.children(),
                Option::None => self@.children() == Seq::<NodeV>::empty(),
            },
    {
        match self {
            ParseNode::Enum(_, children) => Option::Some(children),
            ParseNode::List(_, children) => Option::Some(children),
            ParseNode::Singleton(_) => Option::None,
            ParseNode::Comment(_) => Option::None,
        }
    }

    /// The number of nodes of this tree, comments included.
    pub fn get_tree_size(&self) -> (r: usize)
        requires
            self@.size() <= usize::MAX,
        ensures
            r == self@.size(),
        decreases *self,
    {
        match self {
            ParseNode::Singleton(_) => 1,
            ParseNode::Comment(_) => 1,
            ParseNode::Enum(_, children) => 1 + tree_size_of_children(children),
            ParseNode::List(_, children) => 1 + tree_size_of_children(children),
        }
    }
}

/// The total number of nodes of a vector of trees, comments included.
fn tree_size_of_children(children: &Vec<ParseNode>) -> (r: usize)
    requires
        seq_size(nodes_view(children@)) < usize::MAX,
    ensures
        r == seq_size(nodes_view(children@)),
    decreases *children,
{
    broadcast use lemma_nodes_view;

    let ghost views = nodes_view(children@);
    proof {
        assert(seq_size(views.take(0)) == 0) by {
            assert(views.take(0) =~= Seq::<NodeV>::empty());
        }
    }
    let mut total: usize = 0;
    let n = children.len();
    for i in 0..n
        invariant
            n == children.len(),
            views == nodes_view(children@),
            views.len() == n,
            total == seq_size(views.take(i as int)),
            seq_size(views) < usize::MAX,
    {
        proof {
            lemma_nodes_view(children@);
            assert(node_view(children@[i as int]) == views[i as int]);
            assert(views.take(i + 1).drop_last() =~= views.take(i as int));
            assert(views.take(i + 1) =~= views.take(i as int) + seq![views[i as int]]);
            lemma_seq_size_concat(views.take(i as int), seq![views[i as int]]);
            lemma_seq_size_singleton(views[i as int]);
            assert(views =~= views.take(i as int) + views.skip(i as int));
            lemma_seq_size_concat(views.take(i as int), views.skip(i as int));
            assert(views.skip(i as int)[0] == views[i as int]);
            assert(views.skip(i as int).drop_first() =~= views.skip(i + 1));
            assert(seq_size(views.skip(i as int)) == views[i as int].size() + seq_size(
                views.skip(i + 1),
            ));
        }
        let sub = children[i].get_tree_size();
        total = total + sub;
    }
    proof {
        assert(views.take(n as int) =~= views);
    }
    total
}

/// Outcome of parsing one piece of text: the value and the position after
/// it, or the position where parsing got stuck.
pub ghost enum TextRes {
    Parsed { text: Seq<char>, next: int },
    Stuck { at: int },
}

/// Outcome of parsing one node.
pub ghost enum NodeRes {
    Parsed { node: NodeV, next: int },
    Stuck { at: int },
}

/// Outcome of parsing a sequence of nodes.
pub ghost enum ItemsRes {
    Parsed { items: Seq<NodeV>, next: int },
    Stuck { at: int },
}

/// The comment production: optional whitespace, `//`, the rest of the line
/// (trimmed), consumed through the line ending when one is present.
pub open spec fn spec_comment(s: Seq<char>, pos: int) -> TextRes {
    let p = skip_ws(s, pos);
    if !(p + 1 < s.len() && s[p] == '/' && s[p + 1] == '/') {
        TextRes::Stuck { at: p }
    } else {
        let e = line_end(s, p + 2);
        let text = spec_trim(s.subrange(p + 2, e));
        if e == s.len() {
            TextRes::Parsed { text, next: e }
        } else if s[e] == '\n' {
            TextRes::Parsed { text, next: e + 1 }
        } else if e + 1 < s.len() && s[e + 1] == '\n' {
            TextRes::Parsed { text, next: e + 2 }
        } else {
            TextRes::Stuck { at: e }
        }
    }
}

/// The item production: a comment, or an identifier followed by an optional
/// braced or bracketed group of children.
pub open spec fn spec_parse_node(s: Seq<char>, pos: int) -> NodeRes
    decreases s.len() - pos, 0int,
    when 0 <= pos <= s.len()
    via spec_parse_node_decreases
{
    let p = skip_ws(s, pos);
    if p + 1 < s.len() && s[p] == '/' && s[p + 1] == '/' {
        match spec_comment(s, pos) {
            TextRes::Parsed { text, next } => NodeRes::Parsed { node: NodeV::Comment { text }, next },
            TextRes::Stuck { at } => NodeRes::Stuck { at },
        }
    } else if p < s.len() && is_upper_char(s[p]) {
        let e = ident_end(s, p);
        let name = s.subrange(p, e);
        let q = skip_ws(s, e);
        if q < s.len() && s[q] == '{' {
            match spec_parse_items(s, q + 1, '}') {
                ItemsRes::Parsed { items, next } => NodeRes::Parsed {
                    node: NodeV::Enum { name, children: items },
                    next,
                },
                ItemsRes::Stuck { at } => NodeRes::Stuck { at },
            }
        } else if q < s.len() && s[q] == '[' {
            match spec_parse_items(s, q + 1, ']') {
                ItemsRes::Parsed { items, next } => NodeRes::Parsed {
                    node: NodeV::List { name, children: items },
                    next,
                },
                ItemsRes::Stuck { at } => NodeRes::Stuck { at },
            }
        } else {
            NodeRes::Parsed { node: NodeV::Singleton { name }, next: e }
        }
    } else {
        NodeRes::Stuck { at: p }
    }
}

#[via_fn]
proof fn spec_parse_node_decreases(s: Seq<char>, pos: int) {
    lemma_skip_ws_bounds(s, pos);
    let p = skip_ws(s, pos);
    if p < s.len() && is_upper_char(s[p]) {
        lemma_ident_end_bounds(s, p);
        lemma_skip_ws_bounds(s, ident_end(s, p));
    }
}

/// The group-body production: items with optional separators, up to and
/// including the closing token.
pub open spec fn spec_parse_items(s: Seq<char>, pos: int, close: char) -> ItemsRes
    decreases s.len() - pos, 1int,
    when 0 <= pos <= s.len()
    via spec_parse_items_decreases
{
    let p = skip_ws(s, pos);
    if p < s.len() && s[p] == ',' {
        spec_parse_items(s, p + 1, close)
    } else if p < s.len() && s[p] == close {
        ItemsRes::Parsed { items: Seq::empty(), next: p + 1 }
    } else if p == s.len() {
        ItemsRes::Stuck { at: p }
    } else {
        match spec_parse_node(s, p) {
            NodeRes::Stuck { at } => ItemsRes::Stuck { at },
            NodeRes::Parsed { node, next } => {
                let nx = if p < next <= s.len() {
                    next
                } else {
                    p + 1
                };
                match spec_parse_items(s, nx, close) {
                    ItemsRes::Stuck { at } => ItemsRes::Stuck { at },
                    ItemsRes::Parsed { items, next: next2 } => ItemsRes::Parsed {
                        items: seq![node] + items,
                        next: next2,
                    },
                }
            },
        }
    }
}

#[via_fn]
proof fn spec_parse_items_decreases(s: Seq<char>, pos: int, close: char) {
    lemma_skip_ws_bounds(s, pos);
}

/// The whole configuration: items with optional separators up to the end of
/// the text; anything unparsable is a failure, not a remainder.
pub open spec fn spec_parse_config_at(s: Seq<char>, pos: int) -> ItemsRes
    decreases s.len() - pos, 1int,
    when 0 <= pos <= s.len()
    via spec_parse_config_at_decreases
{
    let p = skip_ws(s, pos);
    if p == s.len() {
        ItemsRes::Parsed { items: Seq::empty(), next: p }
    } else if s[p] == ',' {
        spec_parse_config_at(s, p + 1)
    } else {
        match spec_parse_node(s, p) {
            NodeRes::Stuck { at } => ItemsRes::Stuck { at },
            NodeRes::Parsed { node, next } => {
                let nx = if p < next <= s.len() {
                    next
                } else {
                    p + 1
                };
                match spec_parse_config_at(s, nx) {
                    ItemsRes::Stuck { at } => ItemsRes::Stuck { at },
                    ItemsRes::Parsed { items, next: next2 } => ItemsRes::Parsed {
                        items: seq![node] + items,
                        next: next2,
                    },
                }
            },
        }
    }
}

#[via_fn]
proof fn spec_parse_config_at_decreases(s: Seq<char>, pos: int) {
    lemma_skip_ws_bounds(s, pos);
}

/// The whole configuration, parsed from the start of the text.
pub open spec fn spec_parse_config(s: Seq<char>) -> ItemsRes {
    spec_parse_config_at(s, 0)
}

/// Parse an identifier at exactly the given position: an upper-case letter
/// followed by letters, digits and underscores.
pub fn identifier(s: &str, pos: usize) -> (r: Result<(String, usize), usize>)
    requires
        pos <= s@.len(),
    ensures
        match r {
            Result::Ok((name, next)) => {
                &&& pos < s@.len() && is_upper_char(s@[pos as int])
                &&& next == ident_end(s@, pos as int)
                &&& name@ == s@.subrange(pos as int, next as int)
                &&& pos < next <= s@.len()
            },
            Result::Err(at) => {
                &&& at == pos
                &&& !(pos < s@.len() && is_upper_char(s@[pos as int]))
            },
        },
{
    broadcast use lemma_ident_end_bounds;

    let n = s.unicode_len();
    if pos < n && is_upper(s.get_char(pos)) {
        let e = scan_ident_end(s, pos);
        assert(ident_end(s@, pos as int) == ident_end(s@, pos + 1));
        let name = s.substring_char(pos, e).to_owned();
        Result::Ok((name, e))
    } else {
        Result::Err(pos)
    }
}

/// Parse a comment: optional whitespace, `//`, then the rest of the line,
/// which is handed back trimmed.
pub fn comment(s: &str, pos: usize) -> (r: Result<(String, usize), usize>)
    requires
        pos <= s@.len(),
    ensures
        ({
            let c = spec_comment(s@, pos as int);
            match r {
                Result::Ok((text, next)) => {
                    &&& c == (TextRes::Parsed { text: text@, next: next as int })
                    &&& pos < next <= s@.len()
                },
                Result::Err(at) => {
                    &&& c == (TextRes::Stuck { at: at as int })
                    &&& at <= s@.len()
                },
            }
        }),
{
    let n = s.unicode_len();
    let p = skip_whitespace(s, pos);
    if p < n && s.get_char(p) == '/' && p + 1 < n && s.get_char(p + 1) == '/' {
        let e = scan_line_end(s, p + 2);
        let text = trim_str(s.substring_char(p + 2, e));
        if e == n {
            Result::Ok((text, e))
        } else {
            let c = s.get_char(e);
            if c == '\n' {
                Result::Ok((text, e + 1))
            } else if e + 1 < n && s.get_char(e + 1) == '\n' {
                Result::Ok((text, e + 2))
            } else {
                Result::Err(e)
            }
        }
    } else {
        Result::Err(p)
    }
}

/// Match a single punctuation character after optional whitespace, handing
/// back the position after it.
fn token_char(s: &str, pos: usize, t: char) -> (r: Option<usize>)
    requires
        pos <= s@.len(),
    ensures
        ({
            let p = skip_ws(s@, pos as int);
            match r {
                Option::Some(np) => p < s@.len() && s@[p] == t && np == p + 1 && np <= s@.len(),
                Option::None => !(p < s@.len() && s@[p] == t),
            }
        }),
{
    let n = s.unicode_len();
    let p = skip_whitespace(s, pos);
    if p < n && s.get_char(p) == t {
        Option::Some(p + 1)
    } else {
        Option::None
    }
}

/// Match a `,` separator.
pub fn separator(s: &str, pos: usize) -> (r: Option<usize>)
    requires
        pos <= s@.len(),
    ensures
        ({
            let p = skip_ws(s@, pos as int);
            match r {
                Option::Some(np) => p < s@.len() && s@[p] == ',' && np == p + 1 && np <= s@.len(),
                Option::None => !(p < s@.len() && s@[p] == ','),
            }
        }),
{
    token_char(s, pos, ',')
}

/// Match the `{` that opens an enumeration body.
pub fn open_enum(s: &str, pos: usize) -> (r: Option<usize>)
    requires
        pos <= s@.len(),
    ensures
        ({
            let p = skip_ws(s@, pos as int);
            match r {
                Option::Some(np) => p < s@.len() && s@[p] == '{' && np == p + 1 && np <= s@.len(),
                Option::None => !(p < s@.len() && s@[p] == '{'),
            }
        }),
{
    token_char(s, pos, '{')
}

/// Match the `}` that closes an enumeration body.
pub fn close_enum(s: &str, pos: usize) -> (r: Option<usize>)
    requires
        pos <= s@.len(),
    ensures
        ({
            let p = skip_ws(s@, pos as int);
            match r {
                Option::Some(np) => p < s@.len() && s@[p] == '}' && np == p + 1 && np <= s@.len(),
                Option::None => !(p < s@.len() && s@[p] == '}'),
            }
        }),
{
    token_char(s, pos, '}')
}

/// Match the `[` that opens a list body.
pub fn open_list(s: &str, pos: usize) -> (r: Option<usize>)
    requires
        pos <= s@.len(),
    ensures
        ({
            let p = skip_ws(s@, pos as int);
            match r {
                Option::Some(np) => p < s@.len() && s@[p] == '[' && np == p + 1 && np <= s@.len(),
                Option::None => !(p < s@.len() && s@[p] == '['),
            }
        }),
{
    token_char(s, pos, '[')
}

/// Match the `]` that closes a list body.
pub fn close_list(s: &str, pos: usize) -> (r: Option<usize>)
    requires
        pos <= s@.len(),
    ensures
        ({
            let p = skip_ws(s@, pos as int);
            match r {
                Option::Some(np) => p < s@.len() && s@[p] == ']' && np == p + 1 && np <= s@.len(),
                Option::None => !(p < s@.len() && s@[p] == ']'),
            }
        }),
{
    token_char(s, pos, ']')
}

/// Parse one item. On success the position after it is handed back; on
/// failure, the position where parsing got stuck.
pub fn parse_node(s: &str, pos: usize) -> (r: Result<(ParseNode, usize), usize>)
    requires
        pos <= s@.len(),
    ensures
        ({
            let sr = spec_parse_node(s@, pos as int);
            match r {
                Result::Ok((node, next)) => {
                    &&& sr == (NodeRes::Parsed { node: node@, next: next as int })
                    &&& pos < next <= s@.len()
                },
                Result::Err(at) => {
                    &&& sr == (NodeRes::Stuck { at: at as int })
                    &&& at <= s@.len()
                },
            }
        }),
    decreases s@.len() - pos, 0int,
{
    let n = s.unicode_len();
    let p = skip_whitespace(s, pos);
    if p < n && s.get_char(p) == '/' && p + 1 < n && s.get_char(p + 1) == '/' {
        match comment(s, pos) {
            Result::Ok((text, next)) => Result::Ok((ParseNode::Comment(text), next)),
            Result::Err(at) => Result::Err(at),
        }
    } else if p < n && is_upper(s.get_char(p)) {
        let (name, e) = identifier(s, p).unwrap();
        let q = skip_whitespace(s, e);
        if q < n && s.get_char(q) == '{' {
            match parse_elements_until(s, q + 1, '}') {
                Result::Ok((children, next)) => Result::Ok(
                    (ParseNode::Enum(name, children), next),
                ),
                Result::Err(at) => Result::Err(at),
            }
        } else if q < n && s.get_char(q) == '[' {
            match parse_elements_until(s, q + 1, ']') {
                Result::Ok((children, next)) => Result::Ok(
                    (ParseNode::List(name, children), next),
                ),
                Result::Err(at) => Result::Err(at),
            }
        } else {
            Result::Ok((ParseNode::Singleton(name), e))
        }
    } else {
        Result::Err(p)
    }
}

/// Parse items, absorbing redundant separators, until the closing token.
pub fn parse_elements_until(s: &str, pos: usize, close: char) -> (r: Result<
    (Vec<ParseNode>, usize),
    usize,
>)
    requires
        pos <= s@.len(),
    ensures
        ({
            let sr = spec_parse_items(s@, pos as int, close);
            match r {
                Result::Ok((nodes, next)) => {
                    &&& sr == (ItemsRes::Parsed { items: nodes_view(nodes@), next: next as int })
                    &&& pos < next <= s@.len()
                },
                Result::Err(at) => {
                    &&& sr == (ItemsRes::Stuck { at: at as int })
                    &&& at <= s@.len()
                },
            }
        }),
    decreases s@.len() - pos, 1int,
{
    let n = s.unicode_len();
    let p = skip_whitespace(s, pos);
    if p < n && s.get_char(p) == ',' {
        parse_elements_until(s, p + 1, close)
    } else if p < n && s.get_char(p) == close {
        let empty: Vec<ParseNode> = Vec::new();
        Result::Ok((empty, p + 1))
    } else if p == n {
        Result::Err(p)
    } else {
        match parse_node(s, p) {
            Result::Err(at) => Result::Err(at),
            Result::Ok((node, next)) => {
                match parse_elements_until(s, next, close) {
                    Result::Err(at) => Result::Err(at),
                    Result::Ok((rest, next2)) => {
                        let mut out: Vec<ParseNode> = Vec::new();
                        out.push(node);
                        let ghost rest0 = rest@;
                        let mut rest = rest;
                        out.append(&mut rest);
                        proof {
                            assert(out@ =~= seq![node] + rest0);
                            assert(out@.drop_first() =~= rest0);
                            assert(nodes_view(out@) == seq![node_view(node)] + nodes_view(rest0));
                        }
                        Result::Ok((out, next2))
                    },
                }
            },
        }
    }
}

/// Parse a whole configuration text into its top-level items. On failure
/// the position where parsing got stuck is handed back.
pub fn parse_config(s: &str) -> (r: Result<Vec<ParseNode>, usize>)
    ensures
        ({
            let sr = spec_parse_config(s@);
            match r {
                Result::Ok(nodes) => sr matches ItemsRes::Parsed { items, .. } && items == nodes_view(
                    nodes@,
                ),
                Result::Err(at) => sr == (ItemsRes::Stuck { at: at as int }) && at <= s@.len(),
            }
        }),
{
    match parse_config_at(s, 0) {
        Result::Ok((nodes, _)) => Result::Ok(nodes),
        Result::Err(at) => Result::Err(at),
    }
}

fn parse_config_at(s: &str, pos: usize) -> (r: Result<(Vec<ParseNode>, usize), usize>)
    requires
        pos <= s@.len(),
    ensures
        ({
            let sr = spec_parse_config_at(s@, pos as int);
            match r {
                Result::Ok((nodes, next)) => {
                    &&& sr == (ItemsRes::Parsed { items: nodes_view(nodes@), next: next as int })
                    &&& pos <= next <= s@.len()
                },
                Result::Err(at) => {
                    &&& sr == (ItemsRes::Stuck { at: at as int })
                    &&& at <= s@.len()
                },
            }
        }),
    decreases s@.len() - pos, 1int,
{
    let n = s.unicode_len();
    let p = skip_whitespace(s, pos);
    if p == n {
        let empty: Vec<ParseNode> = Vec::new();
        Result::Ok((empty, p))
    } else if s.get_char(p) == ',' {
        parse_config_at(s, p + 1)
    } else {
        match parse_node(s, p) {
            Result::Err(at) => Result::Err(at),
            Result::Ok((node, next)) => {
                match parse_config_at(s, next) {
                    Result::Err(at) => Result::Err(at),
                    Result::Ok((rest, next2)) => {
                        let mut out: Vec<ParseNode> = Vec::new();
                        out.push(node);
                        let ghost rest0 = rest@;
                        let mut rest = rest;
                        out.append(&mut rest);
                        proof {
                            assert(out@ =~= seq![node] + rest0);
                            assert(out@.drop_first() =~= rest0);
                            assert(nodes_view(out@) == seq![node_view(node)] + nodes_view(rest0));
                        }
                        Result::Ok((out, next2))
                    },
                }
            },
        }
    }
}

/// Whether a whole configuration text parses with nothing left over.
pub fn config_is_valid(input: &str) -> (b: bool)
    ensures
        b == (spec_parse_config(input@) is Parsed),
{
    match parse_config(input) {
        Result::Ok(_) => true,
        Result::Err(_) => false,
    }
}

/// Parse a configuration text and wrap its items in a single root node of
/// the given name: a lone singleton when the text holds no items, an
/// enumeration of the items otherwise. On failure the position where
/// parsing got stuck is handed back.
pub fn parse_states_file(input: &str, root_state_name: &str) -> (r: Result<ParseNode, usize>)
    ensures
        ({
            let sr = spec_parse_config(input@);
            match r {
                Result::Ok(root) => sr matches ItemsRes::Parsed { items, .. } && root@ == (if items.len()
                    == 0 {
                    NodeV::Singleton { name: root_state_name@ }
                } else {
                    NodeV::Enum { name: root_state_name@, children: items }
                }),
                Result::Err(at) => sr == (ItemsRes::Stuck { at: at as int }) && at <= input@.len(),
            }
        }),
{
    match parse_config(input) {
        Result::Err(at) => Result::Err(at),
        Result::Ok(nodes) => {
            if nodes.len() == 0 {
                Result::Ok(ParseNode::Singleton(root_state_name.to_owned()))
            } else {
                Result::Ok(ParseNode::Enum(root_state_name.to_owned(), nodes))
            }
        },
    }
}


/// A parsed node never holds more nodes than the characters it consumed.
pub proof fn lemma_parse_node_size(s: Seq<char>, pos: int)
    requires
        0 <= pos <= s.len(),
    ensures
        spec_parse_node(s, pos) matches NodeRes::Parsed { node, next } ==> pos < next <= s.len()
            && node.size() <= next - pos,
    decreases s.len() - pos, 0int,
{
    lemma_skip_ws_bounds(s, pos);
    let p = skip_ws(s, pos);
    if p + 1 < s.len() && s[p] == '/' && s[p + 1] == '/' {
        lemma_line_end_bounds(s, p + 2);
    } else if p < s.len() && is_upper_char(s[p]) {
        lemma_ident_end_bounds(s, p);
        assert(ident_end(s, p) == ident_end(s, p + 1));
        lemma_ident_end_bounds(s, p + 1);
        let e = ident_end(s, p);
        lemma_skip_ws_bounds(s, e);
        let q = skip_ws(s, e);
        if q < s.len() && s[q] == '{' {
            lemma_parse_items_size(s, q + 1, '}');
        } else if q < s.len() && s[q] == '[' {
            lemma_parse_items_size(s, q + 1, ']');
        }
    }
}

/// A parsed group body never holds more nodes than the characters it
/// consumed.
pub proof fn lemma_parse_items_size(s: Seq<char>, pos: int, close: char)
    requires
        0 <= pos <= s.len(),
    ensures
        spec_parse_items(s, pos, close) matches ItemsRes::Parsed { items, next } ==> pos < next
            <= s.len() && seq_size(items) <= next - pos,
    decreases s.len() - pos, 1int,
{
    lemma_skip_ws_bounds(s, pos);
    let p = skip_ws(s, pos);
    if p < s.len() && s[p] == ',' {
        lemma_parse_items_size(s, p + 1, close);
    } else if p < s.len() && s[p] == close {
    } else if p == s.len() {
    } else {
        lemma_parse_node_size(s, p);
        match spec_parse_node(s, p) {
            NodeRes::Parsed { node, next } => {
                let nx = if p < next <= s.len() {
                    next
                } else {
                    p + 1
                };
                lemma_parse_items_size(s, nx, close);
                match spec_parse_items(s, nx, close) {
                    ItemsRes::Parsed { items, next: next2 } => {
                        lemma_seq_size_concat(seq![node], items);
                        lemma_seq_size_singleton(node);
                    },
                    ItemsRes::Stuck { .. } => {},
                }
            },
            NodeRes::Stuck { .. } => {},
        }
    }
}

/// A parsed configuration never holds more nodes than the characters of
/// the input.
pub proof fn lemma_parse_config_size(s: Seq<char>, pos: int)
    requires
        0 <= pos <= s.len(),
    ensures
        spec_parse_config_at(s, pos) matches ItemsRes::Parsed { items, next } ==> pos <= next
            <= s.len() && seq_size(items) <= next - pos,
    decreases s.len() - pos, 1int,
{
    lemma_skip_ws_bounds(s, pos);
    let p = skip_ws(s, pos);
    if p == s.len() {
    } else if s[p] == ',' {
        lemma_parse_config_size(s, p + 1);
    } else {
        lemma_parse_node_size(s, p);
        match spec_parse_node(s, p) {
            NodeRes::Parsed { node, next } => {
                let nx = if p < next <= s.len() {
                    next
                } else {
                    p + 1
                };
                lemma_parse_config_size(s, nx);
                match spec_parse_config_at(s, nx) {
                    ItemsRes::Parsed { items, next: next2 } => {
                        lemma_seq_size_concat(seq![node], items);
                        lemma_seq_size_singleton(node);
                    },
                    ItemsRes::Stuck { .. } => {},
                }
            },
            NodeRes::Stuck { .. } => {},
        }
    }
}

} // verus!
