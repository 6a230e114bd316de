//! Features of syntax trees that similarity scoring compares as sets:
//! content tokens, used types, API, error-handling, resource and algorithm
//! patterns, and the calls, variables, type references and imports of the
//! context of a function.
//!
//! Each kind of feature is what its nodes yield, gathered over the tree in
//! pre-order; the functions here return each feature once.
use vstd::prelude::*;
use crate::ast::{AstNode, NodeType, node_count, forest_count, lemma_forest_count_prefix};
use crate::hierarchy::{lookup, find_entry};
use crate::text::{is_substring, str_contains, string_views, push_distinct, lemma_contains_concat};

verus! {

/// Kinds of tree feature.
#[derive(Debug, Clone, Copy, PartialEq, Eq, Structural)]
pub enum FeatureKind {
    /// `id:`, `lit:`, `op:` and `type:` tokens of the attributes.
    Content,
    /// Values of `type` attributes.
    TypeUsage,
    /// Naming patterns of called functions.
    ApiPatterns,
    /// Exception and error-check patterns.
    ErrorHandling,
    /// Acquisition and release of resources.
    ResourceManagement,
    /// Loops, branches, sorting, searching and recursion.
    Algorithm,
    /// Names of called functions.
    Calls,
    /// Names of identifiers.
    Variables,
    /// Types of type references.
    TypeReferences,
    /// Paths of imports.
    Imports,
}

/// The value of attribute `key` of `n`.
pub open spec fn attr(n: AstNode, key: Seq<char>) -> Option<Seq<char>> {
    match lookup(n.attributes@, key) {
        Some(v) => Some(v@),
        None => None,
    }
}

/// `prefix` followed by the value, where there is one.
pub open spec fn tagged(o: Option<Seq<char>>, prefix: Seq<char>) -> Seq<Seq<char>> {
    match o {
        Some(v) => seq![prefix + v],
        None => Seq::empty(),
    }
}

/// `s` followed by `x` where `b` holds.
pub open spec fn push_when(s: Seq<Seq<char>>, b: bool, x: Seq<char>) -> Seq<Seq<char>> {
    if b { s.push(x) } else { s }
}

pub open spec fn has(f: Seq<char>, word: Seq<char>) -> bool {
    is_substring(f, word)
}

/// The API patterns a called function name shows.
pub open spec fn api_patterns_of(f: Seq<char>) -> Seq<Seq<char>> {
    let s1 = push_when(Seq::empty(), has(f, "get"@) || has(f, "set"@), "accessor_pattern"@);
    let s2 = push_when(s1, has(f, "create"@) || has(f, "new"@), "factory_pattern"@);
    let s3 = push_when(s2, has(f, "validate"@) || has(f, "check"@), "validation_pattern"@);
    push_when(s3, has(f, "process"@) || has(f, "transform"@), "processing_pattern"@)
}

/// The resource patterns a called function name shows.
pub open spec fn resource_patterns_of(f: Seq<char>) -> Seq<Seq<char>> {
    let s1 = push_when(Seq::empty(), has(f, "close"@) || has(f, "dispose"@), "resource_cleanup"@);
    push_when(s1, has(f, "open"@) || has(f, "connect"@), "resource_acquisition"@)
}

/// The algorithm patterns a call shows: sorting, searching, and recursion
/// (a name with `recursive`, or the name of the enclosing function).
pub open spec fn call_algorithm_patterns(f: Seq<char>, parent: Seq<char>) -> Seq<Seq<char>> {
    let s1 = push_when(Seq::empty(), has(f, "sort"@), "sorting_algorithm"@);
    let s2 = push_when(s1, has(f, "search"@) || has(f, "find"@), "search_algorithm"@);
    push_when(s2, has(f, "recursive"@) || f == parent, "recursion"@)
}

pub open spec fn or_empty(o: Option<Seq<char>>) -> Seq<char> {
    match o {
        Some(v) => v,
        None => Seq::empty(),
    }
}

/// The features that node `n` itself yields; `nested` tells whether a loop
/// encloses it.
pub open spec fn local_features(kind: FeatureKind, n: AstNode, nested: bool) -> Seq<Seq<char>> {
    match kind {
        FeatureKind::Content => tagged(attr(n, "identifier"@), "id:"@) + tagged(attr(n, "literal"@), "lit:"@)
            + tagged(attr(n, "operator"@), "op:"@) + tagged(attr(n, "type"@), "type:"@),
        FeatureKind::TypeUsage => tagged(attr(n, "type"@), Seq::empty()),
        FeatureKind::ApiPatterns => if n.node_type == NodeType::CallExpression {
            match attr(n, "function_name"@) {
                Some(f) => api_patterns_of(f),
                None => Seq::empty(),
            }
        } else {
            Seq::empty()
        },
        FeatureKind::ErrorHandling => if n.node_type == NodeType::TryStatement {
            seq!["try_catch"@]
        } else if n.node_type == NodeType::ThrowStatement {
            seq!["throw_exception"@]
        } else if n.node_type == NodeType::IfStatement {
            match attr(n, "condition"@) {
                Some(c) => push_when(Seq::empty(), has(c, "null"@) || has(c, "error"@) || has(c, "exception"@), "error_check"@),
                None => Seq::empty(),
            }
        } else {
            Seq::empty()
        },
        FeatureKind::ResourceManagement => if n.node_type == NodeType::CallExpression {
            match attr(n, "function_name"@) {
                Some(f) => resource_patterns_of(f),
                None => Seq::empty(),
            }
        } else if n.node_type == NodeType::TryStatement {
            seq!["try_with_resources"@]
        } else {
            Seq::empty()
        },
        FeatureKind::Algorithm => if n.node_type == NodeType::ForLoop {
            push_when(seq!["iteration"@], nested, "nested_iteration"@)
        } else if n.node_type == NodeType::WhileLoop {
            seq!["while_iteration"@]
        } else if n.node_type == NodeType::IfStatement {
            seq!["conditional_logic"@]
        } else if n.node_type == NodeType::SwitchStatement {
            seq!["multi_branch"@]
        } else if n.node_type == NodeType::CallExpression {
            match attr(n, "function_name"@) {
                Some(f) => call_algorithm_patterns(f, or_empty(attr(n, "parent_function"@))),
                None => Seq::empty(),
            }
        } else {
            Seq::empty()
        },
        FeatureKind::Calls => if n.node_type == NodeType::CallExpression { tagged(attr(n, "function_name"@), Seq::empty()) } else { Seq::empty() },
        FeatureKind::Variables => if n.node_type == NodeType::Identifier { tagged(attr(n, "name"@), Seq::empty()) } else { Seq::empty() },
        FeatureKind::TypeReferences => if n.node_type == NodeType::TypeReference { tagged(attr(n, "type"@), Seq::empty()) } else { Seq::empty() },
        FeatureKind::Imports => if n.node_type == NodeType::ImportStatement { tagged(attr(n, "path"@), Seq::empty()) } else { Seq::empty() },
    }
}

/// Whether the children of `n` are nested in a loop.
pub open spec fn child_nested(kind: FeatureKind, n: AstNode, nested: bool) -> bool {
    nested || (kind == FeatureKind::Algorithm && (n.node_type == NodeType::ForLoop || n.node_type == NodeType::WhileLoop))
}

/// The features of the tree at `n`, in pre-order.
pub open spec fn tree_features(kind: FeatureKind, n: AstNode, nested: bool) -> Seq<Seq<char>>
    decreases n, 1nat,
{
    local_features(kind, n, nested) + forest_features(kind, n.children@, child_nested(kind, n, nested))
}

/// The features of a sequence of trees.
pub open spec fn forest_features(kind: FeatureKind, cs: Seq<AstNode>, nested: bool) -> Seq<Seq<char>>
    decreases cs, 0nat,
{
    if cs.len() == 0 {
        Seq::empty()
    } else {
        forest_features(kind, cs.drop_last(), nested) + tree_features(kind, cs.last(), nested)
    }
}

fn attribute<'a>(n: &'a AstNode, key: &str) -> (res: Option<&'a String>)
    ensures
        match res {
            Some(v) => attr(*n, key@) == Some(v@),
            None => attr(*n, key@) is None,
        },
{
    find_entry(&n.attributes, key)
}

fn prefixed(prefix: &str, v: &String) -> (res: String)
    ensures
        res@ == prefix@ + v@,
{
    let mut s = String::from_str(prefix);
    s.append(v.as_str());
    s
}

fn push_tagged(out: &mut Vec<String>, o: Option<&String>, prefix: &str)
    ensures
        string_views(final(out)@) == string_views(old(out)@) + tagged(
            match o { Some(v) => Some(v@), None => None },
            prefix@,
        ),
{
    let ghost before = string_views(out@);
    match o {
        Some(v) => {
            out.push(prefixed(prefix, v));
            assert(string_views(out@) =~= before + seq![prefix@ + v@]);
        },
        None => {
            assert(string_views(out@) =~= before + Seq::<Seq<char>>::empty());
        },
    }
}

fn push_name_when(out: &mut Vec<String>, b: bool, name: &str)
    ensures
        string_views(final(out)@) == push_when(string_views(old(out)@), b, name@),
{
    let ghost before = string_views(out@);
    if b {
        out.push(String::from_str(name));
        assert(string_views(out@) =~= before.push(name@));
    }
}

/// The features that `n` itself yields.
fn node_features(kind: FeatureKind, n: &AstNode, nested: bool) -> (res: Vec<String>)
    ensures
        string_views(res@) == local_features(kind, *n, nested),
{
    let mut out: Vec<String> = Vec::new();
    assert(string_views(out@) =~= Seq::<Seq<char>>::empty());
    proof {
        reveal_strlit("");
    }
    assert(""@ =~= Seq::<char>::empty());
    assert(forall|v: Seq<char>| ""@ + v =~= v);
    match kind {
        FeatureKind::Content => {
            push_tagged(&mut out, attribute(n, "identifier"), "id:");
            push_tagged(&mut out, attribute(n, "literal"), "lit:");
            push_tagged(&mut out, attribute(n, "operator"), "op:");
            push_tagged(&mut out, attribute(n, "type"), "type:");
            assert(string_views(out@) =~= local_features(kind, *n, nested));
        },
        FeatureKind::TypeUsage => {
            push_tagged(&mut out, attribute(n, "type"), "");
            assert(string_views(out@) =~= local_features(kind, *n, nested));
        },
        FeatureKind::ApiPatterns => {
            if n.node_type == NodeType::CallExpression {
                match attribute(n, "function_name") {
                    Some(f) => {
                        let f = f.as_str();
                        push_name_when(&mut out, str_contains(f, "get") || str_contains(f, "set"), "accessor_pattern");
                        push_name_when(&mut out, str_contains(f, "create") || str_contains(f, "new"), "factory_pattern");
                        push_name_when(&mut out, str_contains(f, "validate") || str_contains(f, "check"), "validation_pattern");
                        push_name_when(&mut out, str_contains(f, "process") || str_contains(f, "transform"), "processing_pattern");
                    },
                    None => {},
                }
            }
        },
        FeatureKind::ErrorHandling => {
            if n.node_type == NodeType::TryStatement {
                push_name_when(&mut out, true, "try_catch");
            } else if n.node_type == NodeType::ThrowStatement {
                push_name_when(&mut out, true, "throw_exception");
            } else if n.node_type == NodeType::IfStatement {
                match attribute(n, "condition") {
                    Some(c) => {
                        let c = c.as_str();
                        push_name_when(&mut out, str_contains(c, "null") || str_contains(c, "error") || str_contains(c, "exception"), "error_check");
                    },
                    None => {},
                }
            }
        },
        FeatureKind::ResourceManagement => {
            if n.node_type == NodeType::CallExpression {
                match attribute(n, "function_name") {
                    Some(f) => {
                        let f = f.as_str();
                        push_name_when(&mut out, str_contains(f, "close") || str_contains(f, "dispose"), "resource_cleanup");
                        push_name_when(&mut out, str_contains(f, "open") || str_contains(f, "connect"), "resource_acquisition");
                    },
                    None => {},
                }
            } else if n.node_type == NodeType::TryStatement {
                push_name_when(&mut out, true, "try_with_resources");
            }
        },
        FeatureKind::Algorithm => {
            if n.node_type == NodeType::ForLoop {
                push_name_when(&mut out, true, "iteration");
                push_name_when(&mut out, nested, "nested_iteration");
            } else if n.node_type == NodeType::WhileLoop {
                push_name_when(&mut out, true, "while_iteration");
            } else if n.node_type == NodeType::IfStatement {
                push_name_when(&mut out, true, "conditional_logic");
            } else if n.node_type == NodeType::SwitchStatement {
                push_name_when(&mut out, true, "multi_branch");
            } else if n.node_type == NodeType::CallExpression {
                match attribute(n, "function_name") {
                    Some(f) => {
                        let parent = match attribute(n, "parent_function") {
                            Some(p) => p.clone(),
                            None => String::new(),
                        };
                        let fs = f.as_str();
                        push_name_when(&mut out, str_contains(fs, "sort"), "sorting_algorithm");
                        push_name_when(&mut out, str_contains(fs, "search") || str_contains(fs, "find"), "search_algorithm");
                        push_name_when(&mut out, str_contains(fs, "recursive") || *f == parent, "recursion");
                    },
                    None => {},
                }
            }
        },
        FeatureKind::Calls => {
            if n.node_type == NodeType::CallExpression {
                push_tagged(&mut out, attribute(n, "function_name"), "");
            }
            assert(string_views(out@) =~= local_features(kind, *n, nested));
        },
        FeatureKind::Variables => {
            if n.node_type == NodeType::Identifier {
                push_tagged(&mut out, attribute(n, "name"), "");
            }
            assert(string_views(out@) =~= local_features(kind, *n, nested));
        },
        FeatureKind::TypeReferences => {
            if n.node_type == NodeType::TypeReference {
                push_tagged(&mut out, attribute(n, "type"), "");
            }
            assert(string_views(out@) =~= local_features(kind, *n, nested));
        },
        FeatureKind::Imports => {
            if n.node_type == NodeType::ImportStatement {
                push_tagged(&mut out, attribute(n, "path"), "");
            }
            assert(string_views(out@) =~= local_features(kind, *n, nested));
        },
    }
    out
}

/// Adds each of `items` to `acc` unless `acc` holds it already.
fn push_all_distinct(acc: &mut Vec<String>, items: &Vec<String>)
    requires
        string_views(old(acc)@).no_duplicates(),
    ensures
        string_views(final(acc)@).no_duplicates(),
        forall|p: Seq<char>| #[trigger] string_views(final(acc)@).contains(p) <==> (string_views(old(acc)@).contains(p) || string_views(items@).contains(p)),
{
    let ghost start = string_views(acc@);
    let mut i: usize = 0;
    while i < items.len()
        invariant
            i <= items.len(),
            string_views(acc@).no_duplicates(),
            forall|p: Seq<char>| #[trigger] string_views(acc@).contains(p) <==> (start.contains(p) || string_views(items@).take(i as int).contains(p)),
        decreases items.len() - i,
    {
        proof {
            assert(string_views(items@).take(i + 1) =~= string_views(items@).take(i as int).push(items@[i as int]@));
            crate::text::lemma_contains_push(string_views(items@).take(i as int), items@[i as int]@);
        }
        push_distinct(acc, &items[i]);
        i += 1;
    }
    assert(string_views(items@).take(items.len() as int) =~= string_views(items@));
}

/// Adds the features of the tree at `node` to `acc`, each once.
fn collect_features(kind: FeatureKind, node: &AstNode, nested: bool, acc: &mut Vec<String>)
    requires
        string_views(old(acc)@).no_duplicates(),
    ensures
        string_views(final(acc)@).no_duplicates(),
        forall|p: Seq<char>| #[trigger] string_views(final(acc)@).contains(p) <==> (string_views(old(acc)@).contains(p) || tree_features(kind, *node, nested).contains(p)),
    decreases *node,
{
    let ghost start = string_views(acc@);
    let local = node_features(kind, node, nested);
    push_all_distinct(acc, &local);
    let inner = nested || (kind == FeatureKind::Algorithm && (node.node_type == NodeType::ForLoop || node.node_type == NodeType::WhileLoop));
    assert(inner == child_nested(kind, *node, nested));
    let ghost cs = node.children@;
    let mut i: usize = 0;
    while i < node.children.len()
        invariant
            cs == node.children@,
            inner == child_nested(kind, *node, nested),
            i <= node.children.len(),
            string_views(acc@).no_duplicates(),
            forall|p: Seq<char>| #[trigger] string_views(acc@).contains(p) <==> (start.contains(p)
                || local_features(kind, *node, nested).contains(p) || forest_features(kind, cs.take(i as int), inner).contains(p)),
        decreases node.children.len() - i,
    {
        assert(cs.take(i + 1).drop_last() =~= cs.take(i as int));
        assert(cs.take(i + 1).last() == cs[i as int]);
        proof {
            lemma_contains_concat(forest_features(kind, cs.take(i as int), inner), tree_features(kind, cs[i as int], inner));
        }
        collect_features(kind, &node.children[i], inner, acc);
        i += 1;
    }
    assert(cs.take(cs.len() as int) =~= cs);
    proof {
        lemma_contains_concat(local_features(kind, *node, nested), forest_features(kind, cs, inner));
    }
}

/// The features of kind `kind` of the tree at `node`, each once.
pub fn extract_features(kind: FeatureKind, node: &AstNode) -> (res: Vec<String>)
    ensures
        string_views(res@).no_duplicates(),
        forall|p: Seq<char>| #[trigger] string_views(res@).contains(p) <==> tree_features(kind, *node, false).contains(p),
{
    let mut acc: Vec<String> = Vec::new();
    assert(string_views(acc@) =~= Seq::<Seq<char>>::empty());
    collect_features(kind, node, false, &mut acc);
    acc
}

// ---------------------------------------------------------------------------
// Node kinds
// ---------------------------------------------------------------------------

/// The name of a node kind, as `Debug` writes it.
pub open spec fn kind_name(t: NodeType) -> Seq<char> {
    match t {
        NodeType::Program => "Program"@,
        NodeType::Module => "Module"@,
        NodeType::Class => "Class"@,
        NodeType::Interface => "Interface"@,
        NodeType::Function => "Function"@,
        NodeType::Method => "Method"@,
        NodeType::Constructor => "Constructor"@,
        NodeType::Block => "Block"@,
        NodeType::IfStatement => "IfStatement"@,
        NodeType::WhileLoop => "WhileLoop"@,
        NodeType::WhileStatement => "WhileStatement"@,
        NodeType::ForLoop => "ForLoop"@,
        NodeType::SwitchStatement => "SwitchStatement"@,
        NodeType::TryStatement => "TryStatement"@,
        NodeType::ThrowStatement => "ThrowStatement"@,
        NodeType::ReturnStatement => "ReturnStatement"@,
        NodeType::CallExpression => "CallExpression"@,
        NodeType::Assignment => "Assignment"@,
        NodeType::Identifier => "Identifier"@,
        NodeType::Literal => "Literal"@,
        NodeType::ImportStatement => "ImportStatement"@,
        NodeType::TypeReference => "TypeReference"@,
        NodeType::Other => "Other"@,
    }
}

/// The name of a node kind.
pub fn node_type_name(t: NodeType) -> (res: &'static str)
    ensures
        res@ == kind_name(t),
{
    match t {
        NodeType::Program => "Program",
        NodeType::Module => "Module",
        NodeType::Class => "Class",
        NodeType::Interface => "Interface",
        NodeType::Function => "Function",
        NodeType::Method => "Method",
        NodeType::Constructor => "Constructor",
        NodeType::Block => "Block",
        NodeType::IfStatement => "IfStatement",
        NodeType::WhileLoop => "WhileLoop",
        NodeType::WhileStatement => "WhileStatement",
        NodeType::ForLoop => "ForLoop",
        NodeType::SwitchStatement => "SwitchStatement",
        NodeType::TryStatement => "TryStatement",
        NodeType::ThrowStatement => "ThrowStatement",
        NodeType::ReturnStatement => "ReturnStatement",
        NodeType::CallExpression => "CallExpression",
        NodeType::Assignment => "Assignment",
        NodeType::Identifier => "Identifier",
        NodeType::Literal => "Literal",
        NodeType::ImportStatement => "ImportStatement",
        NodeType::TypeReference => "TypeReference",
        NodeType::Other => "Other",
    }
}

/// The number of nodes of the tree at `n` whose kind is named `name`.
pub open spec fn kind_count(n: AstNode, name: Seq<char>) -> nat
    decreases n, 1nat,
{
    (if kind_name(n.node_type) == name { 1nat } else { 0nat }) + forest_kind_count(n.children@, name)
}

pub open spec fn forest_kind_count(cs: Seq<AstNode>, name: Seq<char>) -> nat
    decreases cs, 0nat,
{
    if cs.len() == 0 {
        0
    } else {
        forest_kind_count(cs.drop_last(), name) + kind_count(cs.last(), name)
    }
}

proof fn lemma_kind_count_bound(n: AstNode, name: Seq<char>)
    ensures
        kind_count(n, name) <= node_count(n),
    decreases n, 1nat,
{
    lemma_forest_kind_count_bound(n.children@, name);
}

proof fn lemma_forest_kind_count_bound(cs: Seq<AstNode>, name: Seq<char>)
    ensures
        forest_kind_count(cs, name) <= forest_count(cs),
    decreases cs, 0nat,
{
    if cs.len() > 0 {
        lemma_forest_kind_count_bound(cs.drop_last(), name);
        lemma_kind_count_bound(cs.last(), name);
    }
}

/// The count that `dist` records for `name`: that of its first entry with
/// the name, 0 where it has none.
pub open spec fn recorded(dist: Seq<(String, usize)>, name: Seq<char>) -> nat
    decreases dist.len(),
{
    if dist.len() == 0 {
        0
    } else if dist[0].0@ == name {
        dist[0].1 as nat
    } else {
        recorded(dist.drop_first(), name)
    }
}

/// No name is recorded twice, and every recorded count is positive.
pub open spec fn names_distinct(dist: Seq<(String, usize)>) -> bool {
    &&& forall|i: int, j: int| 0 <= i < j < dist.len() ==> dist[i].0@ != dist[j].0@
    &&& forall|i: int| 0 <= i < dist.len() ==> (#[trigger] dist[i]).1 > 0
}

proof fn lemma_recorded_at(dist: Seq<(String, usize)>, k: int, v: usize)
    requires
        names_distinct(dist),
        0 <= k < dist.len(),
    ensures
        recorded(dist, dist[k].0@) == dist[k].1,
        recorded(dist.update(k, (dist[k].0, v)), dist[k].0@) == v,
        forall|name: Seq<char>| name != dist[k].0@ ==> recorded(dist.update(k, (dist[k].0, v)), name) == recorded(dist, name),
    decreases dist.len(),
{
    let u = dist.update(k, (dist[k].0, v));
    let key = dist[k].0@;
    if k > 0 {
        assert(dist[0].0@ != dist[k].0@);
        assert(dist.drop_first()[k - 1] == dist[k]);
        lemma_recorded_at(dist.drop_first(), k - 1, v);
        assert(u.drop_first() =~= dist.drop_first().update(k - 1, (dist[k].0, v)));
        assert(u[0] == dist[0]);
        assert forall|name: Seq<char>| name != key implies recorded(u, name) == recorded(dist, name) by {
            if dist[0].0@ != name {
                assert(recorded(u.drop_first(), name) == recorded(dist.drop_first(), name));
            }
        }
    } else {
        assert(u.drop_first() =~= dist.drop_first());
        assert(u[0] == (dist[0].0, v));
        assert forall|name: Seq<char>| name != key implies recorded(u, name) == recorded(dist, name) by {
            assert(recorded(u, name) == recorded(u.drop_first(), name));
        }
    }
}

proof fn lemma_recorded_absent(dist: Seq<(String, usize)>, name: Seq<char>)
    requires
        forall|i: int| 0 <= i < dist.len() ==> dist[i].0@ != name,
    ensures
        recorded(dist, name) == 0,
    decreases dist.len(),
{
    if dist.len() > 0 {
        lemma_recorded_absent(dist.drop_first(), name);
    }
}

proof fn lemma_recorded_push(dist: Seq<(String, usize)>, entry: (String, usize))
    requires
        forall|i: int| 0 <= i < dist.len() ==> dist[i].0@ != entry.0@,
    ensures
        forall|name: Seq<char>| #[trigger] recorded(dist.push(entry), name) == recorded(dist, name) + if name == entry.0@ { entry.1 as nat } else { 0nat },
    decreases dist.len(),
{
    assert forall|name: Seq<char>| #[trigger] recorded(dist.push(entry), name) == recorded(dist, name) + if name == entry.0@ { entry.1 as nat } else { 0nat } by {
        lemma_recorded_push_one(dist, entry, name);
    }
}

proof fn lemma_recorded_push_one(dist: Seq<(String, usize)>, entry: (String, usize), name: Seq<char>)
    requires
        forall|i: int| 0 <= i < dist.len() ==> dist[i].0@ != entry.0@,
    ensures
        recorded(dist.push(entry), name) == recorded(dist, name) + if name == entry.0@ { entry.1 as nat } else { 0nat },
    decreases dist.len(),
{
    let p = dist.push(entry);
    if dist.len() == 0 {
        assert(p.drop_first() =~= Seq::<(String, usize)>::empty());
        assert(p[0] == entry);
        assert(recorded(p.drop_first(), name) == 0);
    } else {
        assert(p.drop_first() =~= dist.drop_first().push(entry));
        assert(p[0] == dist[0]);
        lemma_recorded_push_one(dist.drop_first(), entry, name);
        if name == entry.0@ {
            assert(dist[0].0@ != name);
        }
    }
}

/// Adds one node of kind `t` to `dist`.
fn bump(dist: &mut Vec<(String, usize)>, t: NodeType)
    requires
        names_distinct(old(dist)@),
        recorded(old(dist)@, kind_name(t)) < usize::MAX,
    ensures
        names_distinct(final(dist)@),
        forall|name: Seq<char>| #[trigger] recorded(final(dist)@, name) == recorded(old(dist)@, name) + if name == kind_name(t) { 1nat } else { 0nat },
{
    let name = node_type_name(t);
    let ghost before = dist@;
    let mut k: usize = 0;
    while k < dist.len()
        invariant
            before == dist@,
            before == old(dist)@,
            names_distinct(before),
            recorded(before, kind_name(t)) < usize::MAX,
            name@ == kind_name(t),
            k <= dist.len(),
            forall|m: int| 0 <= m < k ==> before[m].0@ != name@,
        decreases dist.len() - k,
    {
        if crate::text::str_eq(dist[k].0.as_str(), name) {
            proof {
                lemma_recorded_at(before, k as int, 0);
            }
            let count = dist[k].1;
            let key = dist[k].0.clone();
            dist.set(k, (key, count + 1));
            proof {
                lemma_recorded_at(before, k as int, (count + 1) as usize);
                assert(before[k as int].0@ == kind_name(t));
            }
            assert(dist@ == before.update(k as int, (before[k as int].0, (before[k as int].1 + 1) as usize)));
            assert forall|i: int, j: int| 0 <= i < j < dist@.len() implies dist@[i].0@ != dist@[j].0@ by {
                assert(dist@[i].0@ == before[i].0@ && dist@[j].0@ == before[j].0@);
            }
            assert forall|i: int| 0 <= i < dist@.len() implies (#[trigger] dist@[i]).1 > 0 by {
                if i != k {
                    assert(dist@[i] == before[i]);
                }
            }
            assert forall|nm: Seq<char>| #[trigger] recorded(dist@, nm) == recorded(before, nm) + if nm == kind_name(t) { 1nat } else { 0nat } by {
                if nm == kind_name(t) {
                    assert(recorded(dist@, nm) == count + 1);
                } else {
                    assert(recorded(dist@, nm) == recorded(before, nm));
                }
            }
            return;
        }
        k += 1;
    }
    proof {
        lemma_recorded_absent(before, name@);
    }
    let entry = (String::from_str(name), 1usize);
    dist.push(entry);
    proof {
        lemma_recorded_push(before, dist@.last());
        assert(dist@ == before.push(dist@.last()));
    }
}

fn collect_kinds(node: &AstNode, dist: &mut Vec<(String, usize)>)
    requires
        names_distinct(old(dist)@),
        forall|name: Seq<char>| recorded(old(dist)@, name) + node_count(*node) <= usize::MAX,
    ensures
        names_distinct(final(dist)@),
        forall|name: Seq<char>| #[trigger] recorded(final(dist)@, name) == recorded(old(dist)@, name) + kind_count(*node, name),
    decreases *node,
{
    let ghost start = dist@;
    assert(node_count(*node) == 1 + forest_count(node.children@));
    bump(dist, node.node_type);
    let ghost cs = node.children@;
    let mut i: usize = 0;
    while i < node.children.len()
        invariant
            cs == node.children@,
            node_count(*node) == 1 + forest_count(cs),
            forall|name: Seq<char>| recorded(start, name) + node_count(*node) <= usize::MAX,
            i <= node.children.len(),
            names_distinct(dist@),
            forall|name: Seq<char>| #[trigger] recorded(dist@, name) == recorded(start, name)
                + (if kind_name(node.node_type) == name { 1nat } else { 0nat }) + forest_kind_count(cs.take(i as int), name),
        decreases node.children.len() - i,
    {
        assert(cs.take(i + 1).drop_last() =~= cs.take(i as int));
        assert(cs.take(i + 1).last() == cs[i as int]);
        proof {
            lemma_forest_count_prefix(cs, i + 1);
            assert forall|name: Seq<char>| recorded(dist@, name) + node_count(cs[i as int]) <= usize::MAX by {
                lemma_forest_kind_count_bound(cs.take(i as int), name);
                lemma_forest_count_prefix(cs, i as int);
                assert(forest_count(cs.take(i + 1)) == forest_count(cs.take(i as int)) + node_count(cs[i as int]));
            }
        }
        collect_kinds(&node.children[i], dist);
        i += 1;
    }
    assert(cs.take(cs.len() as int) =~= cs);
}

/// How many nodes of each kind the tree at `node` has: one entry per kind
/// that occurs, named as `Debug` writes it.
pub fn node_type_distribution(node: &AstNode) -> (res: Vec<(String, usize)>)
    requires
        node_count(*node) <= usize::MAX,
    ensures
        names_distinct(res@),
        forall|name: Seq<char>| #[trigger] recorded(res@, name) == kind_count(*node, name),
        forall|i: int| 0 <= i < res@.len() ==> (#[trigger] res@[i]).1 > 0,
{
    let mut dist: Vec<(String, usize)> = Vec::new();
    proof {
        assert forall|name: Seq<char>| recorded(dist@, name) + node_count(*node) <= usize::MAX by {
            lemma_recorded_absent(dist@, name);
        }
    }
    collect_kinds(node, &mut dist);
    dist
}

/// The loops and branches of the tree at `n`, in pre-order, by kind name.
pub open spec fn flow_kinds(n: AstNode) -> Seq<Seq<char>>
    decreases n, 1nat,
{
    let own = if n.node_type == NodeType::IfStatement || n.node_type == NodeType::WhileLoop || n.node_type == NodeType::ForLoop {
        seq![kind_name(n.node_type)]
    } else {
        Seq::empty()
    };
    own + forest_flow_kinds(n.children@)
}

pub open spec fn forest_flow_kinds(cs: Seq<AstNode>) -> Seq<Seq<char>>
    decreases cs, 0nat,
{
    if cs.len() == 0 {
        Seq::empty()
    } else {
        forest_flow_kinds(cs.drop_last()) + flow_kinds(cs.last())
    }
}

fn collect_flow_kinds(node: &AstNode, out: &mut Vec<String>)
    ensures
        string_views(final(out)@) == string_views(old(out)@) + flow_kinds(*node),
    decreases *node,
{
    let ghost start = string_views(out@);
    let t = node.node_type;
    if t == NodeType::IfStatement || t == NodeType::WhileLoop || t == NodeType::ForLoop {
        out.push(String::from_str(node_type_name(t)));
        assert(string_views(out@) =~= start + seq![kind_name(t)]);
    } else {
        assert(string_views(out@) =~= start + Seq::<Seq<char>>::empty());
    }
    let ghost mid = string_views(out@);
    let ghost cs = node.children@;
    let mut i: usize = 0;
    while i < node.children.len()
        invariant
            cs == node.children@,
            i <= node.children.len(),
            string_views(out@) == mid + forest_flow_kinds(cs.take(i as int)),
        decreases node.children.len() - i,
    {
        assert(cs.take(i + 1).drop_last() =~= cs.take(i as int));
        assert(cs.take(i + 1).last() == cs[i as int]);
        collect_flow_kinds(&node.children[i], out);
        assert(string_views(out@) =~= mid + forest_flow_kinds(cs.take(i + 1)));
        i += 1;
    }
    assert(cs.take(cs.len() as int) =~= cs);
    assert(string_views(out@) =~= start + flow_kinds(*node));
}

/// The loops and branches of a tree, in pre-order, by kind name (repeats
/// kept), as the context of a function records them.
pub fn context_control_flow(node: &AstNode) -> (res: Vec<String>)
    ensures
        string_views(res@) == flow_kinds(*node),
{
    let mut out: Vec<String> = Vec::new();
    assert(string_views(out@) =~= Seq::<Seq<char>>::empty());
    collect_flow_kinds(node, &mut out);
    assert(string_views(out@) =~= flow_kinds(*node));
    out
}

} // verus!
