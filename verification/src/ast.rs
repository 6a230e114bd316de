//! Syntax trees as the matchers read them, and measures over them.
use vstd::prelude::*;
use crate::text::{string_views, string_of, push_char};

verus! {

/// Kinds of syntax-tree node.
#[derive(Debug, Clone, Copy, PartialEq, Eq, Structural)]
pub enum NodeType {
    Program,
    Module,
    Class,
    Interface,
    Function,
    Method,
    Constructor,
    Block,
    IfStatement,
    WhileLoop,
    WhileStatement,
    ForLoop,
    SwitchStatement,
    TryStatement,
    ThrowStatement,
    ReturnStatement,
    CallExpression,
    Assignment,
    Identifier,
    Literal,
    ImportStatement,
    TypeReference,
    Other,
}

/// A node of a syntax tree.
#[derive(Debug)]
pub struct AstNode {
    pub node_type: NodeType,
    pub children: Vec<AstNode>,
    pub line: usize,
    pub column: usize,
    /// Named attributes (`identifier`, `literal`, `operator`, `type`, ...).
    pub attributes: Vec<(String, String)>,
    /// The source text the node spans.
    pub original_text: String,
}

// ---------------------------------------------------------------------------
// Size and depth
// ---------------------------------------------------------------------------

/// The number of nodes of the tree rooted at `n`.
pub open spec fn node_count(n: AstNode) -> nat
    decreases n, 1nat,
{
    1 + forest_count(n.children@)
}

/// The number of nodes of a sequence of trees.
pub open spec fn forest_count(cs: Seq<AstNode>) -> nat
    decreases cs, 0nat,
{
    if cs.len() == 0 {
        0
    } else {
        forest_count(cs.drop_last()) + node_count(cs.last())
    }
}

/// The depth of the tree rooted at `n`: 1 for a leaf.
pub open spec fn tree_depth(n: AstNode) -> nat
    decreases n, 1nat,
{
    1 + forest_depth(n.children@)
}

/// The greatest depth of a sequence of trees (0 when empty).
pub open spec fn forest_depth(cs: Seq<AstNode>) -> nat
    decreases cs, 0nat,
{
    if cs.len() == 0 {
        0
    } else {
        let a = forest_depth(cs.drop_last());
        let b = tree_depth(cs.last());
        if a >= b { a } else { b }
    }
}

/// Counts the nodes of the tree rooted at `node`.
pub fn count_nodes(node: &AstNode) -> (res: usize)
    requires
        node_count(*node) <= usize::MAX,
    ensures
        res == node_count(*node),
    decreases *node,
{
    let mut total: usize = 1;
    let mut i: usize = 0;
    while i < node.children.len()
        invariant
            i <= node.children.len(),
            node_count(*node) <= usize::MAX,
            node_count(*node) == 1 + forest_count(node.children@),
            total == 1 + forest_count(node.children@.take(i as int)),
        decreases node.children.len() - i,
    {
        let ghost cs = node.children@;
        assert(cs.take(i + 1).drop_last() =~= cs.take(i as int));
        assert(cs.take(i + 1).last() == cs[i as int]);
        proof {
            lemma_forest_count_prefix(cs, i + 1);
        }
        let c = count_nodes(&node.children[i]);
        total = total + c;
        i += 1;
    }
    assert(node.children@.take(node.children.len() as int) =~= node.children@);
    total
}

/// A prefix of a forest, and each of its trees, has no more nodes than
/// the whole forest.
pub(crate) proof fn lemma_forest_count_prefix(cs: Seq<AstNode>, k: int)
    requires
        0 <= k <= cs.len(),
    ensures
        forest_count(cs.take(k)) <= forest_count(cs),
        k > 0 ==> node_count(cs[k - 1]) <= forest_count(cs),
    decreases cs.len() - k,
{
    if k < cs.len() {
        lemma_forest_count_prefix(cs, k + 1);
        assert(cs.take(k + 1).drop_last() =~= cs.take(k));
        assert(cs.take(k + 1).last() == cs[k]);
    } else {
        assert(cs.take(k) =~= cs);
    }
    if k > 0 {
        assert(cs.take(k).drop_last() =~= cs.take(k - 1));
        assert(cs.take(k).last() == cs[k - 1]);
    }
}

/// The depth of the tree rooted at `node`.
pub fn calculate_tree_depth(node: &AstNode) -> (res: usize)
    requires
        tree_depth(*node) <= usize::MAX,
    ensures
        res == tree_depth(*node),
    decreases *node,
{
    let mut best: usize = 0;
    let mut i: usize = 0;
    while i < node.children.len()
        invariant
            i <= node.children.len(),
            tree_depth(*node) <= usize::MAX,
            tree_depth(*node) == 1 + forest_depth(node.children@),
            best == forest_depth(node.children@.take(i as int)),
        decreases node.children.len() - i,
    {
        let ghost cs = node.children@;
        assert(cs.take(i + 1).drop_last() =~= cs.take(i as int));
        assert(cs.take(i + 1).last() == cs[i as int]);
        proof {
            lemma_forest_depth_prefix(cs, i + 1);
        }
        let d = calculate_tree_depth(&node.children[i]);
        if d > best {
            best = d;
        }
        i += 1;
    }
    assert(node.children@.take(node.children.len() as int) =~= node.children@);
    best + 1
}

proof fn lemma_forest_depth_prefix(cs: Seq<AstNode>, k: int)
    requires
        0 <= k <= cs.len(),
    ensures
        forest_depth(cs.take(k)) <= forest_depth(cs),
        k > 0 ==> tree_depth(cs[k - 1]) <= forest_depth(cs),
    decreases cs.len() - k,
{
    if k < cs.len() {
        lemma_forest_depth_prefix(cs, k + 1);
        assert(cs.take(k + 1).drop_last() =~= cs.take(k));
        assert(cs.take(k + 1).last() == cs[k]);
    } else {
        assert(cs.take(k) =~= cs);
    }
    if k > 0 {
        assert(cs.take(k).drop_last() =~= cs.take(k - 1));
        assert(cs.take(k).last() == cs[k - 1]);
    }
}

/// A tree has at least as many nodes as levels.
pub proof fn lemma_depth_at_most_count(n: AstNode)
    ensures
        1 <= tree_depth(n) <= node_count(n),
    decreases n, 1nat,
{
    lemma_forest_depth_at_most_count(n.children@);
}

proof fn lemma_forest_depth_at_most_count(cs: Seq<AstNode>)
    ensures
        forest_depth(cs) <= forest_count(cs),
    decreases cs, 0nat,
{
    if cs.len() > 0 {
        lemma_forest_depth_at_most_count(cs.drop_last());
        lemma_depth_at_most_count(cs.last());
    }
}

// ---------------------------------------------------------------------------
// Control-flow patterns
// ---------------------------------------------------------------------------

/// The label of a control-flow node, if the node is one.
pub open spec fn control_flow_label(t: NodeType) -> Option<Seq<char>> {
    match t {
        NodeType::IfStatement => Some("if"@),
        NodeType::WhileLoop => Some("while"@),
        NodeType::ForLoop => Some("for"@),
        NodeType::SwitchStatement => Some("switch"@),
        NodeType::TryStatement => Some("try"@),
        _ => None,
    }
}

/// The parts joined with `"->"` between them.
pub open spec fn join_arrow(parts: Seq<Seq<char>>) -> Seq<char>
    decreases parts.len(),
{
    if parts.len() == 0 {
        Seq::empty()
    } else if parts.len() == 1 {
        parts[0]
    } else {
        join_arrow(parts.drop_last()) + "->"@ + parts.last()
    }
}

/// The control-flow patterns of the tree at `n`, reached along `path`: each
/// control-flow node adds its label to the path of its subtree and yields the
/// path so far, in pre-order.
pub open spec fn flow_patterns(n: AstNode, path: Seq<Seq<char>>) -> Seq<Seq<char>>
    decreases n, 1nat,
{
    match control_flow_label(n.node_type) {
        Some(label) => seq![join_arrow(path.push(label))] + forest_flow_patterns(n.children@, path.push(label)),
        None => forest_flow_patterns(n.children@, path),
    }
}

pub open spec fn forest_flow_patterns(cs: Seq<AstNode>, path: Seq<Seq<char>>) -> Seq<Seq<char>>
    decreases cs, 0nat,
{
    if cs.len() == 0 {
        Seq::empty()
    } else {
        forest_flow_patterns(cs.drop_last(), path) + flow_patterns(cs.last(), path)
    }
}

fn label_of(t: NodeType) -> (res: Option<String>)
    ensures
        match res {
            Some(s) => control_flow_label(t) == Some(s@),
            None => control_flow_label(t) is None,
        },
{
    match t {
        NodeType::IfStatement => Some(string_of("if")),
        NodeType::WhileLoop => Some(string_of("while")),
        NodeType::ForLoop => Some(string_of("for")),
        NodeType::SwitchStatement => Some(string_of("switch")),
        NodeType::TryStatement => Some(string_of("try")),
        _ => None,
    }
}

/// The parts of `path` joined with `"->"`.
pub fn join_path(path: &Vec<String>) -> (res: String)
    ensures
        res@ == join_arrow(string_views(path@)),
{
    let mut res = String::new();
    let mut i: usize = 0;
    while i < path.len()
        invariant
            i <= path.len(),
            res@ == join_arrow(string_views(path@).take(i as int)),
        decreases path.len() - i,
    {
        let ghost parts = string_views(path@);
        assert(parts.take(i + 1).drop_last() =~= parts.take(i as int));
        assert(parts.take(i + 1).last() == path@[i as int]@);
        if i > 0 {
            res.append("->");
        } else {
            assert(parts.take(1) =~= seq![path@[0]@]);
            assert(res@ =~= Seq::<char>::empty());
        }
        res.append(path[i].as_str());
        i += 1;
    }
    assert(string_views(path@).take(path.len() as int) =~= string_views(path@));
    res
}

fn clone_path(path: &Vec<String>) -> (res: Vec<String>)
    ensures
        string_views(res@) == string_views(path@),
{
    let res = crate::text::clone_strings(path);
    assert(string_views(res@) =~= string_views(path@));
    res
}

fn flow_patterns_into(node: &AstNode, patterns: &mut Vec<String>, path: Vec<String>)
    ensures
        string_views(final(patterns)@) == string_views(old(patterns)@) + flow_patterns(
            *node,
            string_views(path@),
        ),
    decreases *node,
{
    let mut path = path;
    let ghost p0 = string_views(path@);
    let ghost start = string_views(patterns@);
    match label_of(node.node_type) {
        Some(label) => {
            path.push(label);
            assert(string_views(path@) =~= p0.push(control_flow_label(node.node_type)->0));
            let joined = join_path(&path);
            patterns.push(joined);
            assert(string_views(patterns@) =~= start + seq![join_arrow(string_views(path@))]);
        },
        None => {},
    }
    let ghost mid = string_views(patterns@);
    let ghost p1 = string_views(path@);
    let mut i: usize = 0;
    while i < node.children.len()
        invariant
            i <= node.children.len(),
            string_views(path@) == p1,
            string_views(patterns@) == mid + forest_flow_patterns(node.children@.take(i as int), p1),
        decreases node.children.len() - i,
    {
        let ghost cs = node.children@;
        assert(cs.take(i + 1).drop_last() =~= cs.take(i as int));
        assert(cs.take(i + 1).last() == cs[i as int]);
        let p = clone_path(&path);
        flow_patterns_into(&node.children[i], patterns, p);
        assert(string_views(patterns@) =~= mid + forest_flow_patterns(node.children@.take(i + 1), p1));
        i += 1;
    }
    assert(node.children@.take(node.children.len() as int) =~= node.children@);
    assert(string_views(patterns@) =~= start + flow_patterns(*node, p0));
}

/// The control-flow patterns of a tree, in pre-order.
pub fn extract_control_flow_patterns(node: &AstNode) -> (res: Vec<String>)
    ensures
        string_views(res@) == flow_patterns(*node, Seq::empty()),
{
    let mut patterns: Vec<String> = Vec::new();
    let path: Vec<String> = Vec::new();
    assert(string_views(path@) =~= Seq::<Seq<char>>::empty());
    flow_patterns_into(node, &mut patterns, path);
    assert(string_views(patterns@) =~= flow_patterns(*node, Seq::empty()));
    patterns
}

// ---------------------------------------------------------------------------
// Names
// ---------------------------------------------------------------------------

/// The position of the last `'.'` in `s`.
pub open spec fn last_dot(s: Seq<char>) -> Option<int>
    decreases s.len(),
{
    if s.len() == 0 {
        None
    } else if s.last() == '.' {
        Some(s.len() - 1)
    } else {
        last_dot(s.drop_last())
    }
}

/// The namespace of a qualified name: the part before its last `'.'`, or
/// `"global"` when it has none.
pub open spec fn namespace_of(s: Seq<char>) -> Seq<char> {
    match last_dot(s) {
        Some(k) => s.subrange(0, k),
        None => "global"@,
    }
}

proof fn lemma_last_dot(s: Seq<char>)
    ensures
        match last_dot(s) {
            Some(k) => 0 <= k < s.len() && s[k] == '.' && forall|j: int| k < j < s.len() ==> s[j] != '.',
            None => forall|j: int| 0 <= j < s.len() ==> s[j] != '.',
        },
    decreases s.len(),
{
    if s.len() > 0 {
        let d = s.drop_last();
        lemma_last_dot(d);
        if s.last() != '.' {
            assert forall|j: int| 0 <= j < s.len() - 1 implies s[j] == d[j] by {}
        }
    }
}

/// The namespace of a qualified name.
pub fn extract_namespace(qualified_name: &str) -> (res: String)
    ensures
        res@ == namespace_of(qualified_name@),
{
    let chars = crate::text::chars_of(qualified_name);
    let mut k: usize = chars.len();
    while k > 0
        invariant
            chars@ == qualified_name@,
            k <= chars.len(),
            forall|j: int| k <= j < chars.len() ==> chars@[j] != '.',
        decreases k,
    {
        if chars[k - 1] == '.' {
            proof {
                lemma_last_dot(chars@);
                lemma_last_dot_unique(chars@, k - 1);
            }
            let mut res = String::new();
            let mut i: usize = 0;
            while i < k - 1
                invariant
                    chars@ == qualified_name@,
                    last_dot(chars@) == Some(k - 1),
                    k >= 1,
                    k - 1 <= chars.len(),
                    i <= k - 1,
                    res@ == chars@.subrange(0, i as int),
                decreases k - 1 - i,
            {
                push_char(&mut res, chars[i]);
                assert(chars@.subrange(0, i + 1) =~= chars@.subrange(0, i as int).push(chars@[i as int]));
                i += 1;
            }
            return res;
        }
        k -= 1;
    }
    proof {
        lemma_last_dot(chars@);
        if last_dot(chars@) is Some {
            let j = last_dot(chars@)->0;
            assert(chars@[j] == '.');
        }
    }
    string_of("global")
}

proof fn lemma_last_dot_unique(s: Seq<char>, k: int)
    requires
        0 <= k < s.len(),
        s[k] == '.',
        forall|j: int| k < j < s.len() ==> s[j] != '.',
    ensures
        last_dot(s) == Some(k),
    decreases s.len(),
{
    if s.last() != '.' {
        lemma_last_dot_unique(s.drop_last(), k);
    }
}

} // verus!
