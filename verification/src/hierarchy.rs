//! Class hierarchies: inheritance, interface and trait relations between
//! classes, and the changes between two hierarchies.
//!
//! A hierarchy keeps its tables as sequences of (key, value) entries; a
//! lookup finds the first entry with the key.
use vstd::prelude::*;
use crate::text::{lowercase, to_lowercase, remove_whitespace, without_white_space, str_eq, clone_strings};

verus! {

/// Visibility levels of class members.
#[derive(Debug, Clone, Copy, PartialEq, Eq, Structural)]
pub enum Visibility {
    Public,
    Private,
    Protected,
    Package,
    Internal,
}

/// Method information for hierarchy tracking.
#[derive(Debug)]
pub struct MethodInfo {
    pub name: String,
    pub signature: String,
    pub visibility: Visibility,
    pub is_static: bool,
    pub is_abstract: bool,
    pub is_override: bool,
    pub line: usize,
}

/// Field information for hierarchy tracking.
#[derive(Debug)]
pub struct FieldInfo {
    pub name: String,
    pub field_type: String,
    pub visibility: Visibility,
    pub is_static: bool,
    pub line: usize,
}

/// A class in the hierarchy.
#[derive(Debug)]
pub struct ClassNode {
    pub qualified_name: String,
    pub name: String,
    pub parent: Option<String>,
    pub interfaces: Vec<String>,
    pub traits: Vec<String>,
    pub methods: Vec<MethodInfo>,
    pub fields: Vec<FieldInfo>,
    pub file_path: String,
    pub line: usize,
    pub is_abstract: bool,
    pub is_interface: bool,
}

impl Clone for MethodInfo {
    fn clone(&self) -> (res: Self)
        ensures
            res == *self,
    {
        MethodInfo {
            name: self.name.clone(),
            signature: self.signature.clone(),
            visibility: self.visibility,
            is_static: self.is_static,
            is_abstract: self.is_abstract,
            is_override: self.is_override,
            line: self.line,
        }
    }
}

impl Clone for FieldInfo {
    fn clone(&self) -> (res: Self)
        ensures
            res == *self,
    {
        FieldInfo {
            name: self.name.clone(),
            field_type: self.field_type.clone(),
            visibility: self.visibility,
            is_static: self.is_static,
            line: self.line,
        }
    }
}

/// Two class nodes hold the same values, their lists compared by contents.
pub open spec fn same_class(a: ClassNode, b: ClassNode) -> bool {
    &&& a.qualified_name == b.qualified_name
    &&& a.name == b.name
    &&& a.parent == b.parent
    &&& a.interfaces@ == b.interfaces@
    &&& a.traits@ == b.traits@
    &&& a.methods@ == b.methods@
    &&& a.fields@ == b.fields@
    &&& a.file_path == b.file_path
    &&& a.line == b.line
    &&& a.is_abstract == b.is_abstract
    &&& a.is_interface == b.is_interface
}

/// Two class lists hold the same classes, in order.
pub open spec fn same_classes(a: Seq<ClassNode>, b: Seq<ClassNode>) -> bool {
    a.len() == b.len() && forall|i: int| 0 <= i < a.len() ==> same_class(#[trigger] a[i], b[i])
}

/// Two keyed class tables hold the same keys and classes, in order.
pub open spec fn same_class_table(a: Seq<(String, ClassNode)>, b: Seq<(String, ClassNode)>) -> bool {
    a.len() == b.len() && forall|i: int| 0 <= i < a.len() ==> (#[trigger] a[i]).0 == b[i].0 && same_class(a[i].1, b[i].1)
}

impl Clone for ClassNode {
    fn clone(&self) -> (res: Self)
        ensures
            same_class(res, *self),
    {
        let interfaces = clone_strings(&self.interfaces);
        let traits = clone_strings(&self.traits);
        let methods = self.methods.clone();
        let fields = self.fields.clone();
        assert(methods@ =~= self.methods@);
        assert(fields@ =~= self.fields@);
        ClassNode {
            qualified_name: self.qualified_name.clone(),
            name: self.name.clone(),
            parent: match &self.parent {
                Some(p) => Some(p.clone()),
                None => None,
            },
            interfaces,
            traits,
            methods,
            fields,
            file_path: self.file_path.clone(),
            line: self.line,
            is_abstract: self.is_abstract,
            is_interface: self.is_interface,
        }
    }
}

/// A class hierarchy: its classes keyed by qualified name, and tables
/// derived from them.
#[derive(Debug, Clone)]
pub struct ClassHierarchy {
    /// Classes without a parent.
    pub root_classes: Vec<ClassNode>,
    /// All classes, keyed by qualified name.
    pub classes: Vec<(String, ClassNode)>,
    /// child -> parent
    pub inheritance_map: Vec<(String, String)>,
    /// class -> implemented interfaces (only classes that have some)
    pub interface_map: Vec<(String, Vec<String>)>,
    /// class -> used traits (only classes that have some)
    pub trait_map: Vec<(String, Vec<String>)>,
    /// class -> file path
    pub file_map: Vec<(String, String)>,
}

/// Kinds of method migration.
#[derive(Debug, Clone, Copy, PartialEq, Eq, Structural)]
pub enum MethodMigrationType {
    PullUp,
    PushDown,
    MovedToSibling,
    ExtractedToNewClass,
    MovedToUnrelated,
}

/// Kinds of hierarchy change.
#[derive(Debug, Clone, Copy, PartialEq, Eq, Structural)]
pub enum HierarchyChangeType {
    ParentChanged,
    InheritanceAdded,
    InheritanceRemoved,
    ClassFlattened,
    ClassExtracted,
}

/// Kinds of interface or trait change.
#[derive(Debug, Clone, Copy, PartialEq, Eq, Structural)]
pub enum InterfaceChangeType {
    InterfaceAdded,
    InterfaceRemoved,
    TraitAdded,
    TraitRemoved,
    InterfaceExtracted,
}

/// A change of a class's place in the hierarchy.  Its confidence follows
/// from its type: parent changes are certain, a flattening is not.
#[derive(Debug, Clone)]
pub struct HierarchyChange {
    pub class_name: String,
    pub change_type: HierarchyChangeType,
    pub old_parent: Option<String>,
    pub new_parent: Option<String>,
    pub file_path: String,
}

/// An interface or trait gained or lost by a class.
#[derive(Debug, Clone)]
pub struct InterfaceChange {
    pub class_name: String,
    pub change_type: InterfaceChangeType,
    pub interface_name: String,
    pub file_path: String,
}

// ---------------------------------------------------------------------------
// Tables
// ---------------------------------------------------------------------------

/// The value of the first entry of `entries` whose key is `key`.
pub open spec fn lookup<V>(entries: Seq<(String, V)>, key: Seq<char>) -> Option<V>
    decreases entries.len(),
{
    if entries.len() == 0 {
        None
    } else if entries[0].0@ == key {
        Some(entries[0].1)
    } else {
        lookup(entries.drop_first(), key)
    }
}

/// The first entry of `entries` with key `key`, found by a scan.
pub fn find_entry<'a, V>(entries: &'a Vec<(String, V)>, key: &str) -> (res: Option<&'a V>)
    ensures
        match res {
            Some(v) => lookup(entries@, key@) == Some(*v),
            None => lookup(entries@, key@) is None,
        },
{
    let mut i: usize = 0;
    assert(entries@.skip(0) =~= entries@);
    while i < entries.len()
        invariant
            i <= entries.len(),
            lookup(entries@, key@) == lookup(entries@.skip(i as int), key@),
        decreases entries.len() - i,
    {
        assert(entries@.skip(i as int).drop_first() =~= entries@.skip(i + 1));
        if str_eq(entries[i].0.as_str(), key) {
            return Some(&entries[i].1);
        }
        i += 1;
    }
    None
}

/// The classes of `classes` without a parent, in order.
pub open spec fn roots_of(classes: Seq<(String, ClassNode)>) -> Seq<ClassNode>
    decreases classes.len(),
{
    if classes.len() == 0 {
        Seq::empty()
    } else {
        let rest = roots_of(classes.drop_last());
        if classes.last().1.parent is None { rest.push(classes.last().1) } else { rest }
    }
}

/// (name, parent) for the classes that have a parent, in order.
pub open spec fn inheritance_of(classes: Seq<(String, ClassNode)>) -> Seq<(Seq<char>, Seq<char>)>
    decreases classes.len(),
{
    if classes.len() == 0 {
        Seq::empty()
    } else {
        let rest = inheritance_of(classes.drop_last());
        match classes.last().1.parent {
            Some(p) => rest.push((classes.last().0@, p@)),
            None => rest,
        }
    }
}

pub open spec fn pair_views(v: Seq<(String, String)>) -> Seq<(Seq<char>, Seq<char>)> {
    Seq::new(v.len(), |i: int| (v[i].0@, v[i].1@))
}

pub open spec fn string_list_views(v: Seq<String>) -> Seq<Seq<char>> {
    Seq::new(v.len(), |i: int| v[i]@)
}

/// (name, names) for the classes whose `names_of` list is not empty.
pub open spec fn listed_of(classes: Seq<(String, ClassNode)>, traits: bool) -> Seq<(Seq<char>, Seq<Seq<char>>)>
    decreases classes.len(),
{
    if classes.len() == 0 {
        Seq::empty()
    } else {
        let rest = listed_of(classes.drop_last(), traits);
        let c = classes.last().1;
        let names = if traits { c.traits@ } else { c.interfaces@ };
        if names.len() > 0 {
            rest.push((classes.last().0@, string_list_views(names)))
        } else {
            rest
        }
    }
}

pub open spec fn list_table_views(v: Seq<(String, Vec<String>)>) -> Seq<(Seq<char>, Seq<Seq<char>>)> {
    Seq::new(v.len(), |i: int| (v[i].0@, string_list_views(v[i].1@)))
}

/// No two classes of `classes` share a name: the table is keyed by name.
pub open spec fn distinct_class_names(classes: Seq<(String, ClassNode)>) -> bool {
    forall|i: int, j: int| 0 <= i < j < classes.len() ==> (#[trigger] classes[i]).0@ != (#[trigger] classes[j]).0@
}

/// Builds the hierarchy of `source_classes`, a table keyed by class name:
/// the roots are the classes
/// without a parent; the tables hold, in the order of the classes, each
/// class's parent, its interfaces and traits where it has some, and its file.
pub fn build_hierarchy(source_classes: &Vec<(String, ClassNode)>) -> (res: ClassHierarchy)
    requires
        distinct_class_names(source_classes@),
    ensures
        same_class_table(res.classes@, source_classes@),
        distinct_class_names(res.classes@),
        same_classes(res.root_classes@, roots_of(source_classes@)),
        pair_views(res.inheritance_map@) == inheritance_of(source_classes@),
        list_table_views(res.interface_map@) == listed_of(source_classes@, false),
        list_table_views(res.trait_map@) == listed_of(source_classes@, true),
        res.file_map@.len() == source_classes@.len(),
        forall|i: int| 0 <= i < source_classes@.len() ==> (#[trigger] res.file_map@[i]).0@ == source_classes@[i].0@
            && res.file_map@[i].1@ == source_classes@[i].1.file_path@,
{
    let mut root_classes: Vec<ClassNode> = Vec::new();
    let mut inheritance_map: Vec<(String, String)> = Vec::new();
    let mut interface_map: Vec<(String, Vec<String>)> = Vec::new();
    let mut trait_map: Vec<(String, Vec<String>)> = Vec::new();
    let mut file_map: Vec<(String, String)> = Vec::new();
    let mut classes: Vec<(String, ClassNode)> = Vec::new();
    let mut i: usize = 0;
    while i < source_classes.len()
        invariant
            i <= source_classes.len(),
            same_class_table(classes@, source_classes@.take(i as int)),
            same_classes(root_classes@, roots_of(source_classes@.take(i as int))),
            pair_views(inheritance_map@) == inheritance_of(source_classes@.take(i as int)),
            list_table_views(interface_map@) == listed_of(source_classes@.take(i as int), false),
            list_table_views(trait_map@) == listed_of(source_classes@.take(i as int), true),
            file_map@.len() == i,
            forall|k: int| 0 <= k < i ==> (#[trigger] file_map@[k]).0@ == source_classes@[k].0@
                && file_map@[k].1@ == source_classes@[k].1.file_path@,
        decreases source_classes.len() - i,
    {
        let ghost pre = source_classes@.take(i as int);
        assert(source_classes@.take(i + 1).drop_last() =~= pre);
        let entry = &source_classes[i];
        let name = &entry.0;
        let class = &entry.1;
        let ghost inh0 = pair_views(inheritance_map@);
        let ghost if0 = list_table_views(interface_map@);
        let ghost tr0 = list_table_views(trait_map@);
        match &class.parent {
            Some(parent) => {
                inheritance_map.push((name.clone(), parent.clone()));
                assert(pair_views(inheritance_map@) =~= inh0.push((name@, parent@)));
            },
            None => {
                root_classes.push(class.clone());
                assert(roots_of(source_classes@.take(i + 1)) == roots_of(pre).push(*class));
            },
        }
        if class.interfaces.len() > 0 {
            interface_map.push((name.clone(), clone_strings(&class.interfaces)));
            assert(list_table_views(interface_map@) =~= if0.push((name@, string_list_views(class.interfaces@))));
        }
        if class.traits.len() > 0 {
            trait_map.push((name.clone(), clone_strings(&class.traits)));
            assert(list_table_views(trait_map@) =~= tr0.push((name@, string_list_views(class.traits@))));
        }
        file_map.push((name.clone(), class.file_path.clone()));
        classes.push((name.clone(), class.clone()));
        i += 1;
    }
    assert(source_classes@.take(source_classes.len() as int) =~= source_classes@);
    assert(same_class_table(classes@, source_classes@));
    ClassHierarchy {
        root_classes,
        classes,
        inheritance_map,
        interface_map,
        trait_map,
        file_map,
    }
}

/// Every class is either a root or has an inheritance entry: the two lists
/// together count every class once.
pub proof fn lemma_roots_and_inheritance_partition(classes: Seq<(String, ClassNode)>)
    ensures
        roots_of(classes).len() + inheritance_of(classes).len() == classes.len(),
    decreases classes.len(),
{
    if classes.len() > 0 {
        lemma_roots_and_inheritance_partition(classes.drop_last());
    }
}

// ---------------------------------------------------------------------------
// Ancestry
// ---------------------------------------------------------------------------

/// The parent recorded for `name` in an inheritance table.
pub open spec fn parent_in(map: Seq<(String, String)>, name: Seq<char>) -> Option<Seq<char>> {
    match lookup(map, name) {
        Some(p) => Some(p@),
        None => None,
    }
}

/// `ancestor` is reached from `current` by following at most `fuel` parent links.
pub open spec fn ancestor_within(map: Seq<(String, String)>, ancestor: Seq<char>, current: Seq<char>, fuel: nat) -> bool
    decreases fuel,
{
    if fuel == 0 {
        false
    } else {
        match parent_in(map, current) {
            Some(p) => p == ancestor || ancestor_within(map, ancestor, p, (fuel - 1) as nat),
            None => false,
        }
    }
}

/// The number of parent links followed from `current`, at most `fuel`.
pub open spec fn depth_within(map: Seq<(String, String)>, current: Seq<char>, fuel: nat) -> nat
    decreases fuel,
{
    if fuel == 0 {
        0
    } else {
        match parent_in(map, current) {
            Some(p) => 1 + depth_within(map, p, (fuel - 1) as nat),
            None => 0,
        }
    }
}

fn parent_of<'a>(map: &'a Vec<(String, String)>, name: &str) -> (res: Option<&'a String>)
    ensures
        match res {
            Some(p) => parent_in(map@, name@) == Some(p@),
            None => parent_in(map@, name@) is None,
        },
{
    find_entry(map, name)
}

/// Whether `class1` is an ancestor of `class2` within `max_depth` parent links.
pub fn is_ancestor(class1: &str, class2: &str, hierarchy: &ClassHierarchy, max_depth: usize) -> (res: bool)
    ensures
        res == ancestor_within(hierarchy.inheritance_map@, class1@, class2@, max_depth as nat),
        parent_in(hierarchy.inheritance_map@, class2@) is None ==> !res,
        max_depth >= 1 && parent_in(hierarchy.inheritance_map@, class2@) == Some(class1@) ==> res,
{
    proof {
        lemma_ancestry_laws(hierarchy.inheritance_map@, class1@, class2@, max_depth as nat);
    }
    let mut current: &str = class2;
    let mut depth: usize = 0;
    while depth < max_depth
        invariant
            depth <= max_depth,
            ancestor_within(hierarchy.inheritance_map@, class1@, class2@, max_depth as nat)
                == ancestor_within(hierarchy.inheritance_map@, class1@, current@, (max_depth - depth) as nat),
        decreases max_depth - depth,
    {
        match parent_of(&hierarchy.inheritance_map, current) {
            Some(parent) => {
                if str_eq(parent.as_str(), class1) {
                    return true;
                }
                current = parent.as_str();
                depth += 1;
            },
            None => {
                return false;
            },
        }
    }
    false
}

/// The depth of `class_name`: the parent links followed from it, at most `max_depth`.
pub fn get_class_depth(class_name: &str, hierarchy: &ClassHierarchy, max_depth: usize) -> (res: usize)
    ensures
        res == depth_within(hierarchy.inheritance_map@, class_name@, max_depth as nat),
        res <= max_depth,
        parent_in(hierarchy.inheritance_map@, class_name@) is None ==> res == 0,
        max_depth >= 1 && parent_in(hierarchy.inheritance_map@, class_name@) is Some ==> res >= 1,
{
    proof {
        lemma_ancestry_laws(hierarchy.inheritance_map@, class_name@, class_name@, max_depth as nat);
    }
    let mut current: &str = class_name;
    let mut depth: usize = 0;
    while depth < max_depth
        invariant
            depth <= max_depth,
            depth_within(hierarchy.inheritance_map@, class_name@, max_depth as nat)
                == depth + depth_within(hierarchy.inheritance_map@, current@, (max_depth - depth) as nat),
        decreases max_depth - depth,
    {
        match parent_of(&hierarchy.inheritance_map, current) {
            Some(parent) => {
                depth += 1;
                current = parent.as_str();
            },
            None => {
                return depth;
            },
        }
    }
    depth
}

/// The depth of a class never exceeds the bound it is measured within.
pub proof fn lemma_depth_bounded(map: Seq<(String, String)>, current: Seq<char>, fuel: nat)
    ensures
        depth_within(map, current, fuel) <= fuel,
    decreases fuel,
{
    if fuel > 0 {
        match parent_in(map, current) {
            Some(p) => lemma_depth_bounded(map, p, (fuel - 1) as nat),
            None => {},
        }
    }
}

/// A recorded parent is an ancestor whenever at least one link may be followed.
pub proof fn lemma_parent_is_ancestor(map: Seq<(String, String)>, child: Seq<char>, fuel: nat)
    requires
        fuel >= 1,
        parent_in(map, child) is Some,
    ensures
        ancestor_within(map, parent_in(map, child)->0, child, fuel),
{
}

/// Ancestry follows parent links: a class with no recorded parent has no
/// ancestor and depth 0; an ancestor of a class's parent is an ancestor of
/// the class with one more link allowed; a class with a parent has depth one
/// more than its parent (with one link less allowed); and a larger bound
/// never loses an ancestor nor lowers a depth.
pub proof fn lemma_ancestry_laws(map: Seq<(String, String)>, a: Seq<char>, c: Seq<char>, fuel: nat)
    ensures
        parent_in(map, c) is None ==> !ancestor_within(map, a, c, fuel) && depth_within(map, c, fuel) == 0,
        parent_in(map, c) is Some && ancestor_within(map, a, parent_in(map, c)->0, fuel) ==> ancestor_within(map, a, c, fuel + 1),
        parent_in(map, c) is Some ==> depth_within(map, c, fuel + 1) == 1 + depth_within(map, parent_in(map, c)->0, fuel),
        ancestor_within(map, a, c, fuel) ==> ancestor_within(map, a, c, fuel + 1),
        depth_within(map, c, fuel) <= depth_within(map, c, fuel + 1),
    decreases fuel,
{
    if fuel > 0 {
        if let Some(p) = parent_in(map, c) {
            lemma_ancestry_laws(map, a, p, (fuel - 1) as nat);
            assert((fuel + 1 - 1) as nat == fuel);
        }
    }
}

/// The greatest class depth among the classes of `hierarchy` (0 when it has none).
pub open spec fn max_depth_of(hierarchy: ClassHierarchy, classes: Seq<(String, ClassNode)>, max_depth: nat) -> nat
    decreases classes.len(),
{
    if classes.len() == 0 {
        0
    } else {
        let rest = max_depth_of(hierarchy, classes.drop_last(), max_depth);
        let d = depth_within(hierarchy.inheritance_map@, classes.last().0@, max_depth);
        if d > rest { d } else { rest }
    }
}

/// The greatest depth of any class of the hierarchy.
pub fn calculate_max_depth(hierarchy: &ClassHierarchy, max_depth: usize) -> (res: usize)
    ensures
        res == max_depth_of(*hierarchy, hierarchy.classes@, max_depth as nat),
{
    let mut best: usize = 0;
    let mut i: usize = 0;
    while i < hierarchy.classes.len()
        invariant
            i <= hierarchy.classes.len(),
            best == max_depth_of(*hierarchy, hierarchy.classes@.take(i as int), max_depth as nat),
        decreases hierarchy.classes.len() - i,
    {
        assert(hierarchy.classes@.take(i + 1).drop_last() =~= hierarchy.classes@.take(i as int));
        let d = get_class_depth(hierarchy.classes[i].0.as_str(), hierarchy, max_depth);
        if d > best {
            best = d;
        }
        i += 1;
    }
    assert(hierarchy.classes@.take(hierarchy.classes.len() as int) =~= hierarchy.classes@);
    best
}

/// The parent of a class as either hierarchy records it, the first one first.
pub open spec fn parent_in_either(source: ClassHierarchy, target: ClassHierarchy, name: Seq<char>) -> Option<Seq<char>> {
    match parent_in(source.inheritance_map@, name) {
        Some(p) => Some(p),
        None => parent_in(target.inheritance_map@, name),
    }
}

/// Two classes are siblings when both have a parent (looked up in the source
/// hierarchy, then in the target one) and the parents are equal.
pub open spec fn siblings(source: ClassHierarchy, target: ClassHierarchy, class1: Seq<char>, class2: Seq<char>) -> bool {
    match (parent_in_either(source, target, class1), parent_in_either(source, target, class2)) {
        (Some(p1), Some(p2)) => p1 == p2,
        _ => false,
    }
}

/// Whether `class1` and `class2` share a parent.
pub fn are_siblings(
    class1: &str,
    class2: &str,
    source_hierarchy: &ClassHierarchy,
    target_hierarchy: &ClassHierarchy,
) -> (res: bool)
    ensures
        res == siblings(*source_hierarchy, *target_hierarchy, class1@, class2@),
{
    let p1 = match parent_of(&source_hierarchy.inheritance_map, class1) {
        Some(p) => Some(p),
        None => parent_of(&target_hierarchy.inheritance_map, class1),
    };
    let p2 = match parent_of(&source_hierarchy.inheritance_map, class2) {
        Some(p) => Some(p),
        None => parent_of(&target_hierarchy.inheritance_map, class2),
    };
    match (p1, p2) {
        (Some(a), Some(b)) => *a == *b,
        _ => false,
    }
}

/// Being siblings is symmetric.
pub proof fn lemma_siblings_symmetric(source: ClassHierarchy, target: ClassHierarchy, class1: Seq<char>, class2: Seq<char>)
    ensures
        siblings(source, target, class1, class2) == siblings(source, target, class2, class1),
{
}

pub open spec fn has_class(h: ClassHierarchy, name: Seq<char>) -> bool {
    lookup(h.classes@, name) is Some
}

/// How a method that left `source_class` for `target_class` moved: up to an
/// ancestor, down to a descendant (both in the target hierarchy), to a
/// sibling, to a class that the source did not have, or elsewhere.
pub open spec fn migration_kind(
    source_class: Seq<char>,
    target_class: Seq<char>,
    source: ClassHierarchy,
    target: ClassHierarchy,
    max_depth: nat,
) -> MethodMigrationType {
    if ancestor_within(target.inheritance_map@, target_class, source_class, max_depth) {
        MethodMigrationType::PullUp
    } else if ancestor_within(target.inheritance_map@, source_class, target_class, max_depth) {
        MethodMigrationType::PushDown
    } else if siblings(source, target, source_class, target_class) {
        MethodMigrationType::MovedToSibling
    } else if !has_class(source, target_class) {
        MethodMigrationType::ExtractedToNewClass
    } else {
        MethodMigrationType::MovedToUnrelated
    }
}

/// How a method migration reads from the parent links.  A method moved to
/// the parent that the target version records for its old class was pulled
/// up; one moved from a root class to a class whose recorded parent is that
/// root was pushed down.  Between two classes with no parent in the target
/// version: a common parent in the source version makes the move one to a
/// sibling; with no parent anywhere for the old class, the move extracts to a
/// new class when the source version lacks the new class, and otherwise goes
/// to an unrelated class.
pub proof fn lemma_migration_kind_laws(
    source_class: Seq<char>,
    target_class: Seq<char>,
    source: ClassHierarchy,
    target: ClassHierarchy,
    max_depth: nat,
)
    requires
        max_depth >= 1,
    ensures
        parent_in(target.inheritance_map@, source_class) == Some(target_class)
            ==> migration_kind(source_class, target_class, source, target, max_depth) == MethodMigrationType::PullUp,
        (parent_in(target.inheritance_map@, target_class) == Some(source_class)
            && parent_in(target.inheritance_map@, source_class) is None)
            ==> migration_kind(source_class, target_class, source, target, max_depth) == MethodMigrationType::PushDown,
        (parent_in(target.inheritance_map@, source_class) is None && parent_in(target.inheritance_map@, target_class) is None
            && parent_in(source.inheritance_map@, source_class) is Some
            && parent_in(source.inheritance_map@, source_class) == parent_in(source.inheritance_map@, target_class))
            ==> migration_kind(source_class, target_class, source, target, max_depth) == MethodMigrationType::MovedToSibling,
        (parent_in(target.inheritance_map@, source_class) is None && parent_in(target.inheritance_map@, target_class) is None
            && parent_in(source.inheritance_map@, source_class) is None && lookup(source.classes@, target_class) is None)
            ==> migration_kind(source_class, target_class, source, target, max_depth) == MethodMigrationType::ExtractedToNewClass,
        (parent_in(target.inheritance_map@, source_class) is None && parent_in(target.inheritance_map@, target_class) is None
            && parent_in(source.inheritance_map@, source_class) is None && lookup(source.classes@, target_class) is Some)
            ==> migration_kind(source_class, target_class, source, target, max_depth) == MethodMigrationType::MovedToUnrelated,
{
    lemma_no_parent_no_ancestor(target.inheritance_map@, target_class, source_class, max_depth);
    lemma_no_parent_no_ancestor(target.inheritance_map@, source_class, target_class, max_depth);
}

proof fn lemma_no_parent_no_ancestor(map: Seq<(String, String)>, ancestor: Seq<char>, current: Seq<char>, fuel: nat)
    ensures
        parent_in(map, current) is None ==> !ancestor_within(map, ancestor, current, fuel),
{
}

/// The kind of a method migration between two classes.
pub fn determine_migration_type(
    source_class: &str,
    target_class: &str,
    source_hierarchy: &ClassHierarchy,
    target_hierarchy: &ClassHierarchy,
    max_depth: usize,
) -> (res: MethodMigrationType)
    ensures
        res == migration_kind(source_class@, target_class@, *source_hierarchy, *target_hierarchy, max_depth as nat),
        max_depth >= 1 && parent_in(target_hierarchy.inheritance_map@, source_class@) == Some(target_class@)
            ==> res == MethodMigrationType::PullUp,
        (max_depth >= 1 && parent_in(target_hierarchy.inheritance_map@, target_class@) == Some(source_class@)
            && parent_in(target_hierarchy.inheritance_map@, source_class@) is None) ==> res == MethodMigrationType::PushDown,
        (max_depth >= 1 && parent_in(target_hierarchy.inheritance_map@, source_class@) is None
            && parent_in(target_hierarchy.inheritance_map@, target_class@) is None
            && parent_in(source_hierarchy.inheritance_map@, source_class@) is Some
            && parent_in(source_hierarchy.inheritance_map@, source_class@) == parent_in(
            source_hierarchy.inheritance_map@,
            target_class@,
        )) ==> res == MethodMigrationType::MovedToSibling,
        (max_depth >= 1 && parent_in(target_hierarchy.inheritance_map@, source_class@) is None
            && parent_in(target_hierarchy.inheritance_map@, target_class@) is None
            && parent_in(source_hierarchy.inheritance_map@, source_class@) is None)
            ==> (res == MethodMigrationType::ExtractedToNewClass <==> lookup(source_hierarchy.classes@, target_class@) is None),
{
    proof {
        if max_depth >= 1 {
            lemma_migration_kind_laws(source_class@, target_class@, *source_hierarchy, *target_hierarchy, max_depth as nat);
        }
    }
    if is_ancestor(target_class, source_class, target_hierarchy, max_depth) {
        return MethodMigrationType::PullUp;
    }
    if is_ancestor(source_class, target_class, target_hierarchy, max_depth) {
        return MethodMigrationType::PushDown;
    }
    if are_siblings(source_class, target_class, source_hierarchy, target_hierarchy) {
        return MethodMigrationType::MovedToSibling;
    }
    if find_entry(&source_hierarchy.classes, target_class).is_none() {
        return MethodMigrationType::ExtractedToNewClass;
    }
    MethodMigrationType::MovedToUnrelated
}

// ---------------------------------------------------------------------------
// Methods
// ---------------------------------------------------------------------------

/// A signature without white space, in lower case.
pub open spec fn normalized_signature(sig: Seq<char>) -> Seq<char> {
    lowercase(without_white_space(sig))
}

/// Two signatures are similar when equal, or equal once normalized.
pub open spec fn signatures_similar(sig1: Seq<char>, sig2: Seq<char>) -> bool {
    sig1 == sig2 || normalized_signature(sig1) == normalized_signature(sig2)
}

/// A method signature without white space, in lower case.
pub fn normalize_signature(signature: &str) -> (res: String)
    ensures
        res@ == normalized_signature(signature@),
{
    let stripped = remove_whitespace(signature);
    to_lowercase(stripped.as_str())
}

/// Whether two method signatures are similar.
pub fn methods_similar(sig1: &str, sig2: &str) -> (res: bool)
    ensures
        res == signatures_similar(sig1@, sig2@),
{
    if str_eq(sig1, sig2) {
        return true;
    }
    let n1 = normalize_signature(sig1);
    let n2 = normalize_signature(sig2);
    n1 == n2
}

/// Signature similarity is reflexive and symmetric.
pub proof fn lemma_signatures_similar_equivalence(a: Seq<char>, b: Seq<char>, c: Seq<char>)
    ensures
        signatures_similar(a, a),
        signatures_similar(a, b) == signatures_similar(b, a),
        signatures_similar(a, b) && signatures_similar(b, c) ==> signatures_similar(a, c),
{
}

/// `methods` holds a method named `name` whose signature is similar to `sig`.
pub open spec fn has_similar_method(methods: Seq<MethodInfo>, name: Seq<char>, sig: Seq<char>) -> bool {
    exists|k: int| 0 <= k < methods.len() && (#[trigger] methods[k]).name@ == name && signatures_similar(
        methods[k].signature@,
        sig,
    )
}

/// `methods` holds a method named `name`.
pub open spec fn has_method_named(methods: Seq<MethodInfo>, name: Seq<char>) -> bool {
    exists|k: int| 0 <= k < methods.len() && (#[trigger] methods[k]).name@ == name
}

fn find_similar_method(methods: &Vec<MethodInfo>, name: &String, sig: &String) -> (res: bool)
    ensures
        res == has_similar_method(methods@, name@, sig@),
{
    let mut k: usize = 0;
    while k < methods.len()
        invariant
            k <= methods.len(),
            forall|m: int| 0 <= m < k ==> !((#[trigger] methods@[m]).name@ == name@ && signatures_similar(
                methods@[m].signature@,
                sig@,
            )),
        decreases methods.len() - k,
    {
        let m = &methods[k];
        if m.name == *name && methods_similar(m.signature.as_str(), sig.as_str()) {
            return true;
        }
        k += 1;
    }
    false
}

/// Whether `methods` holds a method named `name`.
pub fn contains_method_named(methods: &Vec<MethodInfo>, name: &String) -> (res: bool)
    ensures
        res == has_method_named(methods@, name@),
{
    let mut k: usize = 0;
    while k < methods.len()
        invariant
            k <= methods.len(),
            forall|m: int| 0 <= m < k ==> (#[trigger] methods@[m]).name@ != name@,
        decreases methods.len() - k,
    {
        if methods[k].name == *name {
            return true;
        }
        k += 1;
    }
    false
}

/// Names of the methods of `source` that `target` also has, with the same
/// name and a similar signature, in the order of `source`.
pub open spec fn moved_methods(source: Seq<MethodInfo>, target: Seq<MethodInfo>) -> Seq<Seq<char>>
    decreases source.len(),
{
    if source.len() == 0 {
        Seq::empty()
    } else {
        let rest = moved_methods(source.drop_last(), target);
        let m = source.last();
        if has_similar_method(target, m.name@, m.signature@) { rest.push(m.name@) } else { rest }
    }
}

/// A name is listed as moved exactly when the source class has a method of
/// that name for which the target class has a method of the same name with
/// a similar signature; no more names are listed than the source has methods.
pub proof fn lemma_moved_methods_members(source: Seq<MethodInfo>, target: Seq<MethodInfo>)
    ensures
        forall|x: Seq<char>| #[trigger] moved_methods(source, target).contains(x) <==> exists|k: int| 0 <= k < source.len()
            && (#[trigger] source[k]).name@ == x && has_similar_method(target, x, source[k].signature@),
        moved_methods(source, target).len() <= source.len(),
    decreases source.len(),
{
    if source.len() > 0 {
        let prev = source.drop_last();
        lemma_moved_methods_members(prev, target);
        let rest = moved_methods(prev, target);
        let all = moved_methods(source, target);
        let m = source.last();
        assert forall|x: Seq<char>| #[trigger] all.contains(x) <==> exists|k: int| 0 <= k < source.len()
            && (#[trigger] source[k]).name@ == x && has_similar_method(target, x, source[k].signature@) by {
            if all.contains(x) {
                let q = choose|q: int| 0 <= q < all.len() && all[q] == x;
                if q < rest.len() {
                    assert(rest[q] == x);
                    assert(rest.contains(x));
                    let k = choose|k: int| 0 <= k < prev.len() && (#[trigger] prev[k]).name@ == x
                        && has_similar_method(target, x, prev[k].signature@);
                    assert(source[k] == prev[k]);
                } else {
                    assert(source[source.len() - 1] == m);
                }
            }
            if exists|k: int| 0 <= k < source.len() && (#[trigger] source[k]).name@ == x && has_similar_method(target, x, source[k].signature@) {
                let k = choose|k: int| 0 <= k < source.len() && (#[trigger] source[k]).name@ == x
                    && has_similar_method(target, x, source[k].signature@);
                if k < prev.len() {
                    assert(prev[k] == source[k]);
                    assert(rest.contains(x));
                    let q = choose|q: int| 0 <= q < rest.len() && rest[q] == x;
                    assert(all[q] == x);
                } else {
                    assert(all[all.len() - 1] == x);
                }
            }
        }
    }
}

/// The methods that moved with a class.
pub fn find_moved_methods(source_class: &ClassNode, target_class: &ClassNode) -> (res: Vec<String>)
    ensures
        string_list_views(res@) == moved_methods(source_class.methods@, target_class.methods@),
        forall|x: Seq<char>| #[trigger] string_list_views(res@).contains(x) <==> exists|k: int| 0 <= k < source_class.methods.len()
            && (#[trigger] source_class.methods@[k]).name@ == x && has_similar_method(target_class.methods@, x, source_class.methods@[k].signature@),
{
    proof {
        lemma_moved_methods_members(source_class.methods@, target_class.methods@);
    }
    let mut moved: Vec<String> = Vec::new();
    let mut i: usize = 0;
    while i < source_class.methods.len()
        invariant
            i <= source_class.methods.len(),
            string_list_views(moved@) == moved_methods(source_class.methods@.take(i as int), target_class.methods@),
        decreases source_class.methods.len() - i,
    {
        assert(source_class.methods@.take(i + 1).drop_last() =~= source_class.methods@.take(i as int));
        let m = &source_class.methods[i];
        let ghost before = string_list_views(moved@);
        if find_similar_method(&target_class.methods, &m.name, &m.signature) {
            moved.push(m.name.clone());
            assert(string_list_views(moved@) =~= before.push(m.name@));
        }
        i += 1;
    }
    assert(source_class.methods@.take(source_class.methods.len() as int) =~= source_class.methods@);
    moved
}

/// The number of source methods that the target keeps (same name, similar signature).
pub fn count_preserved_methods(source: &ClassNode, target: &ClassNode) -> (res: usize)
    ensures
        res == moved_methods(source.methods@, target.methods@).len(),
{
    let moved = find_moved_methods(source, target);
    moved.len()
}

/// The number of methods of `parent` that the target child has (same name,
/// similar signature) while the source child has none of that name.
pub open spec fn inlined_count(parent: Seq<MethodInfo>, source_child: Seq<MethodInfo>, target_child: Seq<MethodInfo>) -> nat
    decreases parent.len(),
{
    if parent.len() == 0 {
        0
    } else {
        let rest = inlined_count(parent.drop_last(), source_child, target_child);
        let m = parent.last();
        if has_similar_method(target_child, m.name@, m.signature@) && !has_method_named(source_child, m.name@) {
            rest + 1
        } else {
            rest
        }
    }
}

/// Methods of `parent_class` inlined into the child.
pub fn count_inlined_methods(parent_class: &ClassNode, source_child: &ClassNode, target_child: &ClassNode) -> (res: usize)
    ensures
        res == inlined_count(parent_class.methods@, source_child.methods@, target_child.methods@),
{
    let mut count: usize = 0;
    let mut i: usize = 0;
    while i < parent_class.methods.len()
        invariant
            i <= parent_class.methods.len(),
            count == inlined_count(parent_class.methods@.take(i as int), source_child.methods@, target_child.methods@),
            count <= i,
        decreases parent_class.methods.len() - i,
    {
        assert(parent_class.methods@.take(i + 1).drop_last() =~= parent_class.methods@.take(i as int));
        let m = &parent_class.methods[i];
        let in_target = find_similar_method(&target_child.methods, &m.name, &m.signature);
        let in_source = contains_method_named(&source_child.methods, &m.name);
        if in_target && !in_source {
            count += 1;
        }
        i += 1;
    }
    assert(parent_class.methods@.take(parent_class.methods.len() as int) =~= parent_class.methods@);
    count
}

/// The number of fields of `source` whose name `target` also has.
pub open spec fn preserved_field_count(source: Seq<FieldInfo>, target: Seq<FieldInfo>) -> nat
    decreases source.len(),
{
    if source.len() == 0 {
        0
    } else {
        let rest = preserved_field_count(source.drop_last(), target);
        if exists|k: int| 0 <= k < target.len() && (#[trigger] target[k]).name@ == source.last().name@ {
            rest + 1
        } else {
            rest
        }
    }
}

/// The number of source fields that the target keeps (by name).
pub fn count_preserved_fields(source: &ClassNode, target: &ClassNode) -> (res: usize)
    ensures
        res == preserved_field_count(source.fields@, target.fields@),
{
    let mut count: usize = 0;
    let mut i: usize = 0;
    while i < source.fields.len()
        invariant
            i <= source.fields.len(),
            count == preserved_field_count(source.fields@.take(i as int), target.fields@),
            count <= i,
        decreases source.fields.len() - i,
    {
        assert(source.fields@.take(i + 1).drop_last() =~= source.fields@.take(i as int));
        let name = &source.fields[i].name;
        let mut found = false;
        let mut k: usize = 0;
        while k < target.fields.len()
            invariant
                k <= target.fields.len(),
                found == exists|m: int| 0 <= m < k && (#[trigger] target.fields@[m]).name@ == name@,
            decreases target.fields.len() - k,
        {
            if target.fields[k].name == *name {
                found = true;
            }
            k += 1;
        }
        if found {
            count += 1;
        }
        i += 1;
    }
    assert(source.fields@.take(source.fields.len() as int) =~= source.fields@);
    count
}

} // verus!

verus! {

// ---------------------------------------------------------------------------
// Hierarchy changes
// ---------------------------------------------------------------------------

pub open spec fn opt_view(o: Option<String>) -> Option<Seq<char>> {
    match o {
        Some(s) => Some(s@),
        None => None,
    }
}

fn opt_str_eq(a: &Option<String>, b: &Option<String>) -> (res: bool)
    ensures
        res == (opt_view(*a) == opt_view(*b)),
{
    match (a, b) {
        (Some(x), Some(y)) => *x == *y,
        (None, None) => true,
        _ => false,
    }
}

fn clone_opt(a: &Option<String>) -> (res: Option<String>)
    ensures
        opt_view(res) == opt_view(*a),
{
    match a {
        Some(x) => Some(x.clone()),
        None => None,
    }
}

/// A hierarchy change by its values: class, type, old parent, new parent, file.
pub type HierarchyChangeValue = (Seq<char>, HierarchyChangeType, Option<Seq<char>>, Option<Seq<char>>, Seq<char>);

pub open spec fn hierarchy_change_value(c: HierarchyChange) -> HierarchyChangeValue {
    (c.class_name@, c.change_type, opt_view(c.old_parent), opt_view(c.new_parent), c.file_path@)
}

pub open spec fn hierarchy_change_values(v: Seq<HierarchyChange>) -> Seq<HierarchyChangeValue> {
    Seq::new(v.len(), |i: int| hierarchy_change_value(v[i]))
}

/// The kind of a parent change, for parents that differ.
pub open spec fn parent_change_kind(old: Option<Seq<char>>, new: Option<Seq<char>>) -> HierarchyChangeType {
    match (old, new) {
        (None, Some(_)) => HierarchyChangeType::InheritanceAdded,
        (Some(_), None) => HierarchyChangeType::InheritanceRemoved,
        _ => HierarchyChangeType::ParentChanged,
    }
}

/// For each class of `classes` (in order) that the target hierarchy also
/// has with a different parent: the change of its parent, with the file of
/// the target class.
pub open spec fn parent_changes(classes: Seq<(String, ClassNode)>, target: ClassHierarchy) -> Seq<HierarchyChangeValue>
    decreases classes.len(),
{
    if classes.len() == 0 {
        Seq::empty()
    } else {
        let rest = parent_changes(classes.drop_last(), target);
        let (name, sc) = classes.last();
        match lookup(target.classes@, name@) {
            Some(tc) => if opt_view(sc.parent) != opt_view(tc.parent) {
                rest.push((name@, parent_change_kind(opt_view(sc.parent), opt_view(tc.parent)), opt_view(sc.parent), opt_view(tc.parent), tc.file_path@))
            } else {
                rest
            },
            None => rest,
        }
    }
}

/// For each class of `classes` (in order) that lost its parent in the target
/// hierarchy while the parent (a class of the source hierarchy) had methods
/// that the target class now holds: a flattening.
pub open spec fn flattenings(classes: Seq<(String, ClassNode)>, source: ClassHierarchy, target: ClassHierarchy) -> Seq<HierarchyChangeValue>
    decreases classes.len(),
{
    if classes.len() == 0 {
        Seq::empty()
    } else {
        let rest = flattenings(classes.drop_last(), source, target);
        let (name, sc) = classes.last();
        match lookup(target.classes@, name@) {
            Some(tc) => match (sc.parent, tc.parent) {
                (Some(p), None) => match lookup(source.classes@, p@) {
                    Some(pc) => if inlined_count(pc.methods@, sc.methods@, tc.methods@) > 0 {
                        rest.push((name@, HierarchyChangeType::ClassFlattened, Some(p@), None, tc.file_path@))
                    } else {
                        rest
                    },
                    None => rest,
                },
                _ => rest,
            },
            None => rest,
        }
    }
}

/// What a reported parent change says: the class's parent differs between
/// the two versions, and the kind says how.  A class that gained a parent
/// has inheritance added, one that lost its parent has inheritance removed,
/// and one that traded a parent for another has its parent changed.
pub open spec fn parent_change_reads_right(c: HierarchyChangeValue) -> bool {
    &&& c.2 != c.3
    &&& (c.2 is None && c.3 is Some) ==> c.1 == HierarchyChangeType::InheritanceAdded
    &&& (c.2 is Some && c.3 is None) ==> c.1 == HierarchyChangeType::InheritanceRemoved
    &&& (c.2 is Some && c.3 is Some) ==> c.1 == HierarchyChangeType::ParentChanged
}

/// Every parent change between two hierarchies has the kind that its old
/// and new parents call for: gaining a parent is inheritance added, losing
/// it is inheritance removed, exchanging it is a parent change.
pub proof fn lemma_parent_change_kinds(classes: Seq<(String, ClassNode)>, target: ClassHierarchy)
    ensures
        forall|k: int| 0 <= k < parent_changes(classes, target).len() ==> parent_change_reads_right(
            #[trigger] parent_changes(classes, target)[k],
        ),
    decreases classes.len(),
{
    if classes.len() > 0 {
        lemma_parent_change_kinds(classes.drop_last(), target);
        let rest = parent_changes(classes.drop_last(), target);
        assert forall|k: int| 0 <= k < parent_changes(classes, target).len() implies parent_change_reads_right(
            #[trigger] parent_changes(classes, target)[k],
        ) by {
            if k < rest.len() {
                assert(parent_changes(classes, target)[k] == rest[k]);
            }
        }
    }
}

/// Every flattening names a class that lost its parent.
pub proof fn lemma_flattening_kinds(classes: Seq<(String, ClassNode)>, source: ClassHierarchy, target: ClassHierarchy)
    ensures
        forall|k: int| 0 <= k < flattenings(classes, source, target).len() ==> {
            let c = #[trigger] flattenings(classes, source, target)[k];
            &&& c.1 == HierarchyChangeType::ClassFlattened
            &&& c.2 is Some
            &&& c.3 is None
        },
    decreases classes.len(),
{
    if classes.len() > 0 {
        lemma_flattening_kinds(classes.drop_last(), source, target);
        let rest = flattenings(classes.drop_last(), source, target);
        assert forall|k: int| 0 <= k < flattenings(classes, source, target).len() implies {
            let c = #[trigger] flattenings(classes, source, target)[k];
            &&& c.1 == HierarchyChangeType::ClassFlattened
            &&& c.2 is Some
            &&& c.3 is None
        } by {
            if k < rest.len() {
                assert(flattenings(classes, source, target)[k] == rest[k]);
            }
        }
    }
}

/// Changes of parents between two hierarchies, then flattenings.
pub fn detect_hierarchy_changes(source_hierarchy: &ClassHierarchy, target_hierarchy: &ClassHierarchy) -> (res: Vec<HierarchyChange>)
    ensures
        hierarchy_change_values(res@) == parent_changes(source_hierarchy.classes@, *target_hierarchy) + flattenings(
            source_hierarchy.classes@,
            *source_hierarchy,
            *target_hierarchy,
        ),
        forall|i: int| 0 <= i < res.len() && (#[trigger] res@[i]).old_parent is None && res@[i].new_parent is Some
            ==> res@[i].change_type == HierarchyChangeType::InheritanceAdded,
        forall|i: int| 0 <= i < res.len() && (#[trigger] res@[i]).old_parent is Some && res@[i].new_parent is Some
            ==> res@[i].change_type == HierarchyChangeType::ParentChanged,
        forall|i: int| 0 <= i < res.len() && (#[trigger] res@[i]).old_parent is Some && res@[i].new_parent is None
            ==> res@[i].change_type == HierarchyChangeType::InheritanceRemoved || res@[i].change_type == HierarchyChangeType::ClassFlattened,
{
    let res = detect_hierarchy_changes_in_order(source_hierarchy, target_hierarchy);
    proof {
        let pc = parent_changes(source_hierarchy.classes@, *target_hierarchy);
        let fl = flattenings(source_hierarchy.classes@, *source_hierarchy, *target_hierarchy);
        lemma_parent_change_kinds(source_hierarchy.classes@, *target_hierarchy);
        lemma_flattening_kinds(source_hierarchy.classes@, *source_hierarchy, *target_hierarchy);
        assert forall|i: int| 0 <= i < res.len() implies {
            let c = #[trigger] res@[i];
            &&& (c.old_parent is None && c.new_parent is Some ==> c.change_type == HierarchyChangeType::InheritanceAdded)
            &&& (c.old_parent is Some && c.new_parent is Some ==> c.change_type == HierarchyChangeType::ParentChanged)
            &&& (c.old_parent is Some && c.new_parent is None ==> c.change_type == HierarchyChangeType::InheritanceRemoved
                || c.change_type == HierarchyChangeType::ClassFlattened)
        } by {
            let all = hierarchy_change_values(res@);
            assert(all.len() == res@.len());
            let v = all[i];
            assert(v == hierarchy_change_value(res@[i]));
            assert(all == pc + fl);
            if i < pc.len() {
                assert(v == pc[i]);
                assert(parent_change_reads_right(pc[i]));
            } else {
                assert((pc + fl)[i] == fl[i - pc.len()]);
                let f = fl[i - pc.len()];
                assert(f.1 == HierarchyChangeType::ClassFlattened && f.2 is Some && f.3 is None);
            }
        }
    }
    res
}

fn detect_hierarchy_changes_in_order(source_hierarchy: &ClassHierarchy, target_hierarchy: &ClassHierarchy) -> (res: Vec<HierarchyChange>)
    ensures
        hierarchy_change_values(res@) == parent_changes(source_hierarchy.classes@, *target_hierarchy) + flattenings(
            source_hierarchy.classes@,
            *source_hierarchy,
            *target_hierarchy,
        ),
{
    let ghost classes = source_hierarchy.classes@;
    let mut changes: Vec<HierarchyChange> = Vec::new();
    let mut i: usize = 0;
    while i < source_hierarchy.classes.len()
        invariant
            classes == source_hierarchy.classes@,
            i <= classes.len(),
            hierarchy_change_values(changes@) == parent_changes(classes.take(i as int), *target_hierarchy),
        decreases classes.len() - i,
    {
        assert(classes.take(i + 1).drop_last() =~= classes.take(i as int));
        let name = &source_hierarchy.classes[i].0;
        let sc = &source_hierarchy.classes[i].1;
        let ghost before = hierarchy_change_values(changes@);
        match find_entry(&target_hierarchy.classes, name.as_str()) {
            Some(tc) => {
                if !opt_str_eq(&sc.parent, &tc.parent) {
                    let change_type = match (&sc.parent, &tc.parent) {
                        (None, Some(_)) => HierarchyChangeType::InheritanceAdded,
                        (Some(_), None) => HierarchyChangeType::InheritanceRemoved,
                        _ => HierarchyChangeType::ParentChanged,
                    };
                    changes.push(HierarchyChange {
                        class_name: name.clone(),
                        change_type,
                        old_parent: clone_opt(&sc.parent),
                        new_parent: clone_opt(&tc.parent),
                        file_path: tc.file_path.clone(),
                    });
                    assert(hierarchy_change_values(changes@) =~= before.push(hierarchy_change_value(changes@.last())));
                }
            },
            None => {},
        }
        i += 1;
    }
    assert(classes.take(classes.len() as int) =~= classes);
    let ghost first = hierarchy_change_values(changes@);
    let mut i: usize = 0;
    while i < source_hierarchy.classes.len()
        invariant
            classes == source_hierarchy.classes@,
            i <= classes.len(),
            hierarchy_change_values(changes@) == first + flattenings(classes.take(i as int), *source_hierarchy, *target_hierarchy),
        decreases classes.len() - i,
    {
        assert(classes.take(i + 1).drop_last() =~= classes.take(i as int));
        let name = &source_hierarchy.classes[i].0;
        let sc = &source_hierarchy.classes[i].1;
        let ghost before = hierarchy_change_values(changes@);
        match find_entry(&target_hierarchy.classes, name.as_str()) {
            Some(tc) => {
                if let (Some(parent_name), None) = (&sc.parent, &tc.parent) {
                    match find_entry(&source_hierarchy.classes, parent_name.as_str()) {
                        Some(pc) => {
                            let inlined = count_inlined_methods(pc, sc, tc);
                            if inlined > 0 {
                                changes.push(HierarchyChange {
                                    class_name: name.clone(),
                                    change_type: HierarchyChangeType::ClassFlattened,
                                    old_parent: clone_opt(&sc.parent),
                                    new_parent: None,
                                    file_path: tc.file_path.clone(),
                                });
                                assert(hierarchy_change_values(changes@) =~= before.push(hierarchy_change_value(changes@.last())));
                            }
                        },
                        None => {},
                    }
                }
            },
            None => {},
        }
        i += 1;
    }
    changes
}

// ---------------------------------------------------------------------------
// Interface and trait changes
// ---------------------------------------------------------------------------

/// The distinct names of `from` that `against` lacks, in order of first occurrence.
pub open spec fn new_names(from: Seq<Seq<char>>, against: Seq<Seq<char>>) -> Seq<Seq<char>>
    decreases from.len(),
{
    if from.len() == 0 {
        Seq::empty()
    } else {
        let rest = new_names(from.drop_last(), against);
        let x = from.last();
        if against.contains(x) || rest.contains(x) { rest } else { rest.push(x) }
    }
}

/// A name is new exactly when `from` has it and `against` lacks it; no name
/// is listed twice.
pub proof fn lemma_new_names(from: Seq<Seq<char>>, against: Seq<Seq<char>>)
    ensures
        forall|x: Seq<char>| new_names(from, against).contains(x) <==> (from.contains(x) && !against.contains(x)),
        new_names(from, against).no_duplicates(),
    decreases from.len(),
{
    if from.len() > 0 {
        let dl = from.drop_last();
        let x0 = from.last();
        lemma_new_names(dl, against);
        let rest = new_names(dl, against);
        let cur = new_names(from, against);
        assert(from =~= dl.push(x0));
        assert forall|x: Seq<char>| cur.contains(x) <==> (from.contains(x) && !against.contains(x)) by {
            if from.contains(x) {
                let k = choose|k: int| 0 <= k < from.len() && from[k] == x;
                if k < dl.len() {
                    assert(dl[k] == x);
                }
            }
            if dl.contains(x) {
                let k = choose|k: int| 0 <= k < dl.len() && dl[k] == x;
                assert(from[k] == x);
            }
            if !(against.contains(x0) || rest.contains(x0)) {
                assert(cur == rest.push(x0));
                if cur.contains(x) {
                    let k = choose|k: int| 0 <= k < cur.len() && cur[k] == x;
                    if k < rest.len() {
                        assert(rest[k] == x);
                    }
                }
                if rest.contains(x) {
                    let k = choose|k: int| 0 <= k < rest.len() && rest[k] == x;
                    assert(cur[k] == x);
                }
                assert(cur[rest.len() as int] == x0);
            }
        }
        if !(against.contains(x0) || rest.contains(x0)) {
            assert forall|i: int, j: int| 0 <= i < cur.len() && 0 <= j < cur.len() && i != j implies cur[i] != cur[j] by {
                if i < rest.len() && j < rest.len() {
                } else if i < rest.len() {
                    assert(rest.contains(cur[i]));
                } else if j < rest.len() {
                    assert(rest.contains(cur[j]));
                }
            }
        }
    }
}

/// Interfaces and traits gained and lost by a class between two versions.
pub open spec fn interface_change_values(name: Seq<char>, sc: ClassNode, tc: ClassNode) -> Seq<(Seq<char>, InterfaceChangeType, Seq<char>, Seq<char>)> {
    let si = string_list_views(sc.interfaces@);
    let ti = string_list_views(tc.interfaces@);
    let st = string_list_views(sc.traits@);
    let tt = string_list_views(tc.traits@);
    let f = tc.file_path@;
    new_names(ti, si).map_values(|x: Seq<char>| (name, InterfaceChangeType::InterfaceAdded, x, f))
        + new_names(si, ti).map_values(|x: Seq<char>| (name, InterfaceChangeType::InterfaceRemoved, x, f))
        + new_names(tt, st).map_values(|x: Seq<char>| (name, InterfaceChangeType::TraitAdded, x, f))
        + new_names(st, tt).map_values(|x: Seq<char>| (name, InterfaceChangeType::TraitRemoved, x, f))
}

/// What an interface or trait change of class `name` says, given the class
/// in the source (`sc`) and target (`tc`) versions: it names the class and
/// the target's file; an added interface is one the target has and the
/// source lacks, a removed one the reverse, and likewise for traits.
pub open spec fn interface_change_reads_right(
    c: (Seq<char>, InterfaceChangeType, Seq<char>, Seq<char>),
    name: Seq<char>,
    sc: ClassNode,
    tc: ClassNode,
) -> bool {
    let si = string_list_views(sc.interfaces@);
    let ti = string_list_views(tc.interfaces@);
    let st = string_list_views(sc.traits@);
    let tt = string_list_views(tc.traits@);
    &&& c.0 == name
    &&& c.3 == tc.file_path@
    &&& c.1 == InterfaceChangeType::InterfaceAdded ==> ti.contains(c.2) && !si.contains(c.2)
    &&& c.1 == InterfaceChangeType::InterfaceRemoved ==> si.contains(c.2) && !ti.contains(c.2)
    &&& c.1 == InterfaceChangeType::TraitAdded ==> tt.contains(c.2) && !st.contains(c.2)
    &&& c.1 == InterfaceChangeType::TraitRemoved ==> st.contains(c.2) && !tt.contains(c.2)
    &&& c.1 != InterfaceChangeType::InterfaceExtracted
}

/// The changes of one class read right, and every interface (trait) that
/// one version has and the other lacks is reported as added or removed.
pub proof fn lemma_interface_change_values_laws(name: Seq<char>, sc: ClassNode, tc: ClassNode)
    ensures
        forall|k: int| 0 <= k < interface_change_values(name, sc, tc).len() ==> interface_change_reads_right(
            #[trigger] interface_change_values(name, sc, tc)[k],
            name,
            sc,
            tc,
        ),
        forall|x: Seq<char>| string_list_views(tc.interfaces@).contains(x) && !string_list_views(sc.interfaces@).contains(x)
            ==> #[trigger] interface_change_values(name, sc, tc).contains((name, InterfaceChangeType::InterfaceAdded, x, tc.file_path@)),
        forall|x: Seq<char>| string_list_views(sc.interfaces@).contains(x) && !string_list_views(tc.interfaces@).contains(x)
            ==> #[trigger] interface_change_values(name, sc, tc).contains((name, InterfaceChangeType::InterfaceRemoved, x, tc.file_path@)),
{
    let si = string_list_views(sc.interfaces@);
    let ti = string_list_views(tc.interfaces@);
    let st = string_list_views(sc.traits@);
    let tt = string_list_views(tc.traits@);
    let f = tc.file_path@;
    lemma_new_names(ti, si);
    lemma_new_names(si, ti);
    lemma_new_names(tt, st);
    lemma_new_names(st, tt);
    let a = new_names(ti, si).map_values(|x: Seq<char>| (name, InterfaceChangeType::InterfaceAdded, x, f));
    let b = new_names(si, ti).map_values(|x: Seq<char>| (name, InterfaceChangeType::InterfaceRemoved, x, f));
    let c = new_names(tt, st).map_values(|x: Seq<char>| (name, InterfaceChangeType::TraitAdded, x, f));
    let d = new_names(st, tt).map_values(|x: Seq<char>| (name, InterfaceChangeType::TraitRemoved, x, f));
    let all = interface_change_values(name, sc, tc);
    assert(all == a + b + c + d);
    assert forall|k: int| 0 <= k < all.len() implies interface_change_reads_right(#[trigger] all[k], name, sc, tc) by {
        if k < a.len() {
            assert(all[k] == a[k]);
            assert(new_names(ti, si).contains(new_names(ti, si)[k]));
        } else if k < a.len() + b.len() {
            assert(all[k] == b[k - a.len()]);
            assert(new_names(si, ti).contains(new_names(si, ti)[k - a.len()]));
        } else if k < a.len() + b.len() + c.len() {
            assert(all[k] == c[k - a.len() - b.len()]);
            assert(new_names(tt, st).contains(new_names(tt, st)[k - a.len() - b.len()]));
        } else {
            assert(all[k] == d[k - a.len() - b.len() - c.len()]);
            assert(new_names(st, tt).contains(new_names(st, tt)[k - a.len() - b.len() - c.len()]));
        }
    }
    assert forall|x: Seq<char>| ti.contains(x) && !si.contains(x) implies #[trigger] all.contains(
        (name, InterfaceChangeType::InterfaceAdded, x, f),
    ) by {
        let q = choose|q: int| 0 <= q < new_names(ti, si).len() && new_names(ti, si)[q] == x;
        assert(all[q] == a[q]);
    }
    assert forall|x: Seq<char>| si.contains(x) && !ti.contains(x) implies #[trigger] all.contains(
        (name, InterfaceChangeType::InterfaceRemoved, x, f),
    ) by {
        let q = choose|q: int| 0 <= q < new_names(si, ti).len() && new_names(si, ti)[q] == x;
        assert(all[a.len() + q] == b[q]);
    }
}

/// Every interface or trait change reported between two hierarchies is a
/// change of a class that both versions have, and reads right against the
/// class as the source and the target versions hold it.
pub proof fn lemma_interface_changes_laws(classes: Seq<(String, ClassNode)>, target: ClassHierarchy)
    ensures
        forall|k: int| #![trigger interface_changes_of(classes, target)[k]] 0 <= k < interface_changes_of(classes, target).len()
            ==> exists|i: int| 0 <= i < classes.len()
            && (#[trigger] classes[i]).0@ == interface_changes_of(classes, target)[k].0
            && lookup(target.classes@, classes[i].0@) is Some && interface_change_reads_right(
            interface_changes_of(classes, target)[k],
            classes[i].0@,
            classes[i].1,
            lookup(target.classes@, classes[i].0@)->0,
        ),
    decreases classes.len(),
{
    if classes.len() > 0 {
        let prev = classes.drop_last();
        lemma_interface_changes_laws(prev, target);
        let rest = interface_changes_of(prev, target);
        let n = classes.len() - 1;
        let (name, sc) = classes.last();
        assert forall|k: int| #![trigger interface_changes_of(classes, target)[k]] 0 <= k < interface_changes_of(classes, target).len() implies exists|i: int| 0 <= i < classes.len()
            && (#[trigger] classes[i]).0@ == interface_changes_of(classes, target)[k].0 && lookup(target.classes@, classes[i].0@) is Some
            && interface_change_reads_right(interface_changes_of(classes, target)[k], classes[i].0@, classes[i].1, lookup(target.classes@, classes[i].0@)->0) by {
            if k < rest.len() {
                assert(interface_changes_of(classes, target)[k] == rest[k]);
                let i = choose|i: int| 0 <= i < prev.len() && (#[trigger] prev[i]).0@ == rest[k].0
                    && lookup(target.classes@, prev[i].0@) is Some && interface_change_reads_right(
                    rest[k],
                    prev[i].0@,
                    prev[i].1,
                    lookup(target.classes@, prev[i].0@)->0,
                );
                assert(classes[i] == prev[i]);
            } else {
                let tc = lookup(target.classes@, name@)->0;
                lemma_interface_change_values_laws(name@, sc, tc);
                assert(interface_changes_of(classes, target)[k] == interface_change_values(name@, sc, tc)[k - rest.len()]);
                assert(classes[n] == (name, sc));
            }
        }
    } else {
        assert(interface_changes_of(classes, target).len() == 0);
    }
}

/// The interface and trait changes of the classes of `classes` (in order)
/// that the target hierarchy also has.
pub open spec fn interface_changes_of(classes: Seq<(String, ClassNode)>, target: ClassHierarchy) -> Seq<(Seq<char>, InterfaceChangeType, Seq<char>, Seq<char>)>
    decreases classes.len(),
{
    if classes.len() == 0 {
        Seq::empty()
    } else {
        let rest = interface_changes_of(classes.drop_last(), target);
        let (name, sc) = classes.last();
        match lookup(target.classes@, name@) {
            Some(tc) => rest + interface_change_values(name@, sc, tc),
            None => rest,
        }
    }
}

pub open spec fn interface_change_value(c: InterfaceChange) -> (Seq<char>, InterfaceChangeType, Seq<char>, Seq<char>) {
    (c.class_name@, c.change_type, c.interface_name@, c.file_path@)
}

pub open spec fn interface_change_list(v: Seq<InterfaceChange>) -> Seq<(Seq<char>, InterfaceChangeType, Seq<char>, Seq<char>)> {
    Seq::new(v.len(), |i: int| interface_change_value(v[i]))
}

fn contains_string(v: &Vec<String>, x: &String) -> (res: bool)
    ensures
        res == string_list_views(v@).contains(x@),
{
    let mut k: usize = 0;
    while k < v.len()
        invariant
            k <= v.len(),
            forall|m: int| 0 <= m < k ==> v@[m]@ != x@,
        decreases v.len() - k,
    {
        if v[k] == *x {
            assert(string_list_views(v@)[k as int] == x@);
            return true;
        }
        k += 1;
    }
    false
}

/// Appends one change for each name of `new_names(from, against)`.
fn push_new_names(
    changes: &mut Vec<InterfaceChange>,
    class_name: &String,
    change_type: InterfaceChangeType,
    from: &Vec<String>,
    against: &Vec<String>,
    file_path: &String,
)
    ensures
        interface_change_list(final(changes)@) == interface_change_list(old(changes)@) + new_names(
            string_list_views(from@),
            string_list_views(against@),
        ).map_values(|x: Seq<char>| (class_name@, change_type, x, file_path@)),
{
    let ghost start = interface_change_list(changes@);
    let mut emitted: Vec<String> = Vec::new();
    let mut i: usize = 0;
    while i < from.len()
        invariant
            i <= from.len(),
            string_list_views(emitted@) == new_names(string_list_views(from@).take(i as int), string_list_views(against@)),
            interface_change_list(changes@) == start + string_list_views(emitted@).map_values(
                |x: Seq<char>| (class_name@, change_type, x, file_path@),
            ),
        decreases from.len() - i,
    {
        let ghost pre = string_list_views(from@).take(i as int);
        assert(string_list_views(from@).take(i + 1).drop_last() =~= pre);
        assert(string_list_views(from@).take(i + 1).last() == from@[i as int]@);
        let x = &from[i];
        if !contains_string(against, x) && !contains_string(&emitted, x) {
            let ghost e0 = string_list_views(emitted@);
            let ghost c0 = interface_change_list(changes@);
            emitted.push(x.clone());
            assert(string_list_views(emitted@) =~= e0.push(x@));
            changes.push(InterfaceChange {
                class_name: class_name.clone(),
                change_type,
                interface_name: x.clone(),
                file_path: file_path.clone(),
            });
            assert(interface_change_list(changes@) =~= c0.push((class_name@, change_type, x@, file_path@)));
            assert(string_list_views(emitted@).map_values(|y: Seq<char>| (class_name@, change_type, y, file_path@))
                =~= e0.map_values(|y: Seq<char>| (class_name@, change_type, y, file_path@)).push(
                (class_name@, change_type, x@, file_path@),
            ));
        }
        i += 1;
    }
    assert(string_list_views(from@).take(from.len() as int) =~= string_list_views(from@));
}

/// Interfaces and traits gained or lost by each class present in both
/// hierarchies: added interfaces, removed interfaces, added traits, removed
/// traits, each without repetition.
pub fn detect_interface_changes(source_hierarchy: &ClassHierarchy, target_hierarchy: &ClassHierarchy) -> (res: Vec<InterfaceChange>)
    ensures
        interface_change_list(res@) == interface_changes_of(source_hierarchy.classes@, *target_hierarchy),
        forall|k: int| #![trigger res@[k]] 0 <= k < res.len() ==> exists|i: int| 0 <= i < source_hierarchy.classes.len()
            && (#[trigger] source_hierarchy.classes@[i]).0@ == res@[k].class_name@
            && lookup(target_hierarchy.classes@, source_hierarchy.classes@[i].0@) is Some && interface_change_reads_right(
            interface_change_value(res@[k]),
            source_hierarchy.classes@[i].0@,
            source_hierarchy.classes@[i].1,
            lookup(target_hierarchy.classes@, source_hierarchy.classes@[i].0@)->0,
        ),
{
    let ghost classes = source_hierarchy.classes@;
    let mut changes: Vec<InterfaceChange> = Vec::new();
    let mut i: usize = 0;
    while i < source_hierarchy.classes.len()
        invariant
            classes == source_hierarchy.classes@,
            i <= classes.len(),
            interface_change_list(changes@) == interface_changes_of(classes.take(i as int), *target_hierarchy),
        decreases classes.len() - i,
    {
        assert(classes.take(i + 1).drop_last() =~= classes.take(i as int));
        let name = &source_hierarchy.classes[i].0;
        let sc = &source_hierarchy.classes[i].1;
        match find_entry(&target_hierarchy.classes, name.as_str()) {
            Some(tc) => {
                let ghost before = interface_change_list(changes@);
                push_new_names(&mut changes, name, InterfaceChangeType::InterfaceAdded, &tc.interfaces, &sc.interfaces, &tc.file_path);
                push_new_names(&mut changes, name, InterfaceChangeType::InterfaceRemoved, &sc.interfaces, &tc.interfaces, &tc.file_path);
                push_new_names(&mut changes, name, InterfaceChangeType::TraitAdded, &tc.traits, &sc.traits, &tc.file_path);
                push_new_names(&mut changes, name, InterfaceChangeType::TraitRemoved, &sc.traits, &tc.traits, &tc.file_path);
                assert(interface_change_list(changes@) =~= before + interface_change_values(name@, *sc, *tc));
            },
            None => {},
        }
        i += 1;
    }
    assert(classes.take(classes.len() as int) =~= classes);
    proof {
        lemma_interface_changes_laws(classes, *target_hierarchy);
        assert forall|k: int| 0 <= k < changes.len() implies interface_change_value(#[trigger] changes@[k])
            == interface_changes_of(classes, *target_hierarchy)[k] by {
            assert(interface_change_list(changes@)[k] == interface_change_value(changes@[k]));
        }
    }
    changes
}

// ---------------------------------------------------------------------------
// Statistics
// ---------------------------------------------------------------------------

/// Counts over a hierarchy and over the changes found against it; the
/// average number of methods per class is `total_methods / total_classes`.
#[derive(Debug, Clone, Copy)]
pub struct HierarchyStatistics {
    pub total_classes: usize,
    pub classes_with_inheritance: usize,
    pub classes_with_interfaces: usize,
    pub classes_with_traits: usize,
    pub max_hierarchy_depth: usize,
    pub total_methods: usize,
    pub total_class_moves: usize,
    pub total_method_migrations: usize,
    pub total_hierarchy_changes: usize,
}

/// The number of methods of all classes of `classes`.
pub open spec fn method_total(classes: Seq<(String, ClassNode)>) -> nat
    decreases classes.len(),
{
    if classes.len() == 0 {
        0
    } else {
        method_total(classes.drop_last()) + classes.last().1.methods@.len()
    }
}

/// Statistics of the target hierarchy and of the detected changes.
pub fn calculate_statistics(
    target_hierarchy: &ClassHierarchy,
    class_moves: usize,
    method_migrations: usize,
    hierarchy_changes: usize,
    max_depth: usize,
) -> (res: Option<HierarchyStatistics>)
    ensures
        match res {
            Some(st) => {
                &&& st.total_classes == target_hierarchy.classes@.len()
                &&& st.classes_with_inheritance == target_hierarchy.inheritance_map@.len()
                &&& st.classes_with_interfaces == target_hierarchy.interface_map@.len()
                &&& st.classes_with_traits == target_hierarchy.trait_map@.len()
                &&& st.max_hierarchy_depth == max_depth_of(*target_hierarchy, target_hierarchy.classes@, max_depth as nat)
                &&& st.total_methods == method_total(target_hierarchy.classes@)
                &&& st.total_class_moves == class_moves
                &&& st.total_method_migrations == method_migrations
                &&& st.total_hierarchy_changes == hierarchy_changes
            },
            None => method_total(target_hierarchy.classes@) > usize::MAX,
        },
{
    let classes = &target_hierarchy.classes;
    let mut total: usize = 0;
    let mut i: usize = 0;
    while i < classes.len()
        invariant
            classes@ == target_hierarchy.classes@,
            i <= classes.len(),
            total == method_total(classes@.take(i as int)),
        decreases classes.len() - i,
    {
        assert(classes@.take(i + 1).drop_last() =~= classes@.take(i as int));
        let n = classes[i].1.methods.len();
        if total > usize::MAX - n {
            proof {
                assert(classes@.take(i + 1).last() == classes@[i as int]);
                assert(method_total(classes@.take(i + 1)) == total + n);
                lemma_method_total_monotone(classes@, i + 1);
                assert(method_total(classes@.take(i + 1)) > usize::MAX);
                assert(method_total(target_hierarchy.classes@) > usize::MAX);
            }
            return None;
        }
        total = total + n;
        i += 1;
    }
    assert(classes@.take(classes.len() as int) =~= classes@);
    Some(HierarchyStatistics {
        total_classes: classes.len(),
        classes_with_inheritance: target_hierarchy.inheritance_map.len(),
        classes_with_interfaces: target_hierarchy.interface_map.len(),
        classes_with_traits: target_hierarchy.trait_map.len(),
        max_hierarchy_depth: calculate_max_depth(target_hierarchy, max_depth),
        total_methods: total,
        total_class_moves: class_moves,
        total_method_migrations: method_migrations,
        total_hierarchy_changes: hierarchy_changes,
    })
}

proof fn lemma_method_total_monotone(classes: Seq<(String, ClassNode)>, k: int)
    requires
        0 <= k <= classes.len(),
    ensures
        method_total(classes.take(k)) <= method_total(classes),
    decreases classes.len() - k,
{
    if k < classes.len() {
        lemma_method_total_monotone(classes, k + 1);
        assert(classes.take(k + 1).drop_last() =~= classes.take(k));
    } else {
        assert(classes.take(k) =~= classes);
    }
}

} // verus!
