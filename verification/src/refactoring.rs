//! Refactoring patterns: the kinds the detector knows, how changes are
//! grouped before patterns are sought in them, and how complex a pattern is
//! judged to be from the files it touches.
use vstd::prelude::*;
use crate::changes::{ChangeType, CodeElement};
use crate::text::string_views;

verus! {

// ---------------------------------------------------------------------------
// Kinds
// ---------------------------------------------------------------------------

/// Kinds of refactoring.
#[derive(Debug, Clone, Copy, PartialEq, Eq, Structural)]
pub enum RefactoringType {
    ExtractMethod,
    InlineMethod,
    RenameMethod,
    MoveMethod,
    MoveClass,
    ExtractClass,
    InlineClass,
    ChangeSignature,
}

/// Kinds of refactoring characteristic.
#[derive(Debug, Clone, Copy, PartialEq, Eq, Structural)]
pub enum RefactoringCharacteristicType {
    CodeExtraction,
    CodeInlining,
    NameChange,
    LocationChange,
    SignatureChange,
    ComplexityChange,
    DependencyChange,
    StructureChange,
}

/// Kinds of refactoring evidence.
#[derive(Debug, Clone, Copy, PartialEq, Eq, Structural)]
pub enum RefactoringEvidenceType {
    CodeSimilarity,
    NamePattern,
    StructurePattern,
    TimingEvidence,
    LocationEvidence,
    DependencyEvidence,
}

/// Levels of refactoring impact.
#[derive(Debug, Clone, Copy, PartialEq, Eq, Structural)]
pub enum RefactoringImpactLevel {
    Minimal,
    Low,
    Medium,
    High,
    Critical,
}

/// Impact of a refactoring on an API.
#[derive(Debug, Clone, Copy, PartialEq, Eq, Structural)]
pub enum ApiCompatibilityImpact {
    Unaffected,
    BackwardCompatible,
    PotentiallyBreaking,
    Breaking,
}

/// Levels of refactoring complexity.
#[derive(Debug, Clone, Copy, PartialEq, Eq, Structural)]
pub enum RefactoringComplexityLevel {
    Simple,
    Moderate,
    Complex,
    VeryComplex,
}

/// Estimated effort of a refactoring.
#[derive(Debug, Clone, Copy, PartialEq, Eq, Structural)]
pub enum RefactoringEffort {
    Trivial,
    Low,
    Medium,
    High,
    VeryHigh,
}

/// Complexity assessment of a refactoring.
#[derive(Debug, Clone, Copy, PartialEq, Eq, Structural)]
pub struct RefactoringComplexity {
    pub complexity_level: RefactoringComplexityLevel,
    pub elements_involved: usize,
    pub files_affected: usize,
    pub estimated_effort: RefactoringEffort,
}

/// Impact assessment of a refactoring.
#[derive(Debug, Clone)]
pub struct RefactoringImpact {
    pub impact_level: RefactoringImpactLevel,
    pub affected_files: Vec<String>,
    pub affected_functions: Vec<String>,
    pub is_breaking_change: bool,
    pub api_compatibility: ApiCompatibilityImpact,
}

/// A change between two versions: its kind and the elements before and after.
#[derive(Debug, Clone)]
pub struct Change {
    pub change_type: ChangeType,
    pub source: Option<CodeElement>,
    pub target: Option<CodeElement>,
}

// ---------------------------------------------------------------------------
// Supported kinds
// ---------------------------------------------------------------------------

/// Which kinds of refactoring the detector looks for.
#[derive(Debug, Clone, Copy, PartialEq, Eq, Structural)]
pub struct RefactoringToggles {
    pub enable_extract_method: bool,
    pub enable_inline_method: bool,
    pub enable_rename_detection: bool,
    pub enable_move_detection: bool,
    pub enable_extract_class: bool,
    pub enable_inline_class: bool,
    pub enable_change_signature: bool,
}

impl Default for RefactoringToggles {
    fn default() -> (res: Self)
        ensures
            res.enable_extract_method && res.enable_inline_method && res.enable_rename_detection
                && res.enable_move_detection && res.enable_extract_class && res.enable_inline_class
                && res.enable_change_signature,
    {
        RefactoringToggles {
            enable_extract_method: true,
            enable_inline_method: true,
            enable_rename_detection: true,
            enable_move_detection: true,
            enable_extract_class: true,
            enable_inline_class: true,
            enable_change_signature: true,
        }
    }
}

/// `s` followed by `x` where `b` holds.
pub open spec fn push_if<A>(s: Seq<A>, b: bool, x: A) -> Seq<A> {
    if b { s.push(x) } else { s }
}

/// The supported kinds, in the order extract method, inline method, rename,
/// move method and move class, extract class, inline class, change
/// signature, each where its toggle is on.
pub open spec fn supported_kinds(t: RefactoringToggles) -> Seq<RefactoringType> {
    let s1 = push_if(Seq::empty(), t.enable_extract_method, RefactoringType::ExtractMethod);
    let s2 = push_if(s1, t.enable_inline_method, RefactoringType::InlineMethod);
    let s3 = push_if(s2, t.enable_rename_detection, RefactoringType::RenameMethod);
    let s4 = push_if(push_if(s3, t.enable_move_detection, RefactoringType::MoveMethod), t.enable_move_detection, RefactoringType::MoveClass);
    let s5 = push_if(s4, t.enable_extract_class, RefactoringType::ExtractClass);
    let s6 = push_if(s5, t.enable_inline_class, RefactoringType::InlineClass);
    push_if(s6, t.enable_change_signature, RefactoringType::ChangeSignature)
}

impl RefactoringToggles {
    /// The kinds of refactoring that are looked for.
    pub fn get_supported_refactoring_types(&self) -> (res: Vec<RefactoringType>)
        ensures
            res@ == supported_kinds(*self),
    {
        let mut types: Vec<RefactoringType> = Vec::new();
        if self.enable_extract_method {
            types.push(RefactoringType::ExtractMethod);
        }
        if self.enable_inline_method {
            types.push(RefactoringType::InlineMethod);
        }
        if self.enable_rename_detection {
            types.push(RefactoringType::RenameMethod);
        }
        if self.enable_move_detection {
            types.push(RefactoringType::MoveMethod);
            types.push(RefactoringType::MoveClass);
        }
        if self.enable_extract_class {
            types.push(RefactoringType::ExtractClass);
        }
        if self.enable_inline_class {
            types.push(RefactoringType::InlineClass);
        }
        if self.enable_change_signature {
            types.push(RefactoringType::ChangeSignature);
        }
        types
    }
}

// ---------------------------------------------------------------------------
// Affected files and complexity
// ---------------------------------------------------------------------------

/// `path` is the file of the source or of the target of `c`.
pub open spec fn change_has_file(c: Change, path: Seq<char>) -> bool {
    (c.source matches Some(e) && e.file_path@ == path) || (c.target matches Some(e) && e.file_path@ == path)
}

/// Some change of `cs` has `path` as a file.
pub open spec fn touches(cs: Seq<Change>, path: Seq<char>) -> bool {
    exists|i: int| 0 <= i < cs.len() && #[trigger] change_has_file(cs[i], path)
}


/// The distinct files that the changes touch, in order of first appearance.
pub fn affected_files(changes: &Vec<Change>) -> (res: Vec<String>)
    ensures
        string_views(res@).no_duplicates(),
        forall|p: Seq<char>| string_views(res@).contains(p) <==> touches(changes@, p),
{
    let mut files: Vec<String> = Vec::new();
    let mut i: usize = 0;
    while i < changes.len()
        invariant
            i <= changes.len(),
            string_views(files@).no_duplicates(),
            forall|p: Seq<char>| string_views(files@).contains(p) <==> touches(changes@.take(i as int), p),
        decreases changes.len() - i,
    {
        let c = &changes[i];
        let ghost done = changes@.take(i as int);
        let ghost next = changes@.take(i + 1);
        assert(next =~= done.push(changes@[i as int]));
        let ghost before = string_views(files@);
        match &c.source {
            Some(e) => crate::text::push_distinct(&mut files, &e.file_path),
            None => {},
        }
        let ghost mid = string_views(files@);
        assert(forall|p: Seq<char>| mid.contains(p) <==> (before.contains(p) || (c.source matches Some(e) && e.file_path@ == p)));
        match &c.target {
            Some(e) => crate::text::push_distinct(&mut files, &e.file_path),
            None => {},
        }
        assert(forall|p: Seq<char>| string_views(files@).contains(p) <==> (mid.contains(p) || (c.target matches Some(e) && e.file_path@ == p)));
        assert forall|p: Seq<char>| string_views(files@).contains(p) <==> touches(next, p) by {
            assert(string_views(files@).contains(p) <==> (before.contains(p) || change_has_file(changes@[i as int], p)));
            if touches(next, p) {
                let k = choose|k: int| 0 <= k < next.len() && #[trigger] change_has_file(next[k], p);
                if k < i {
                    assert(next[k] == done[k]);
                    assert(touches(done, p));
                }
            }
            if touches(done, p) {
                let k = choose|k: int| 0 <= k < done.len() && #[trigger] change_has_file(done[k], p);
                assert(next[k] == done[k]);
            }
            if change_has_file(changes@[i as int], p) {
                assert(next[i as int] == changes@[i as int]);
            }
        }
        i += 1;
    }
    assert(changes@.take(changes.len() as int) =~= changes@);
    files
}

/// The number of distinct files that the changes touch.
pub fn count_affected_files(changes: &Vec<Change>) -> (res: usize)
    ensures
        res == Set::new(|p: Seq<char>| touches(changes@, p)).len(),
        Set::new(|p: Seq<char>| touches(changes@, p)).finite(),
{
    let files = affected_files(changes);
    proof {
        let sv = string_views(files@);
        sv.unique_seq_to_set();
        assert(sv.to_set() =~= Set::new(|p: Seq<char>| touches(changes@, p)));
        vstd::seq_lib::seq_to_set_is_finite(sv);
    }
    files.len()
}

/// The complexity of a refactoring of kind `kind` over changes touching
/// `files` files: method extraction and inlining are simple with low effort;
/// renames and signature changes are moderate with medium effort when they
/// touch more than one file and simple with low effort otherwise; moves are
/// complex with high effort beyond two files and moderate with medium effort
/// otherwise; class extraction and inlining are complex with high effort.
pub open spec fn complexity_of(kind: RefactoringType, files: nat) -> (RefactoringComplexityLevel, RefactoringEffort) {
    match kind {
        RefactoringType::ExtractMethod | RefactoringType::InlineMethod => (RefactoringComplexityLevel::Simple, RefactoringEffort::Low),
        RefactoringType::RenameMethod | RefactoringType::ChangeSignature => if files > 1 {
            (RefactoringComplexityLevel::Moderate, RefactoringEffort::Medium)
        } else {
            (RefactoringComplexityLevel::Simple, RefactoringEffort::Low)
        },
        RefactoringType::MoveMethod | RefactoringType::MoveClass => if files > 2 {
            (RefactoringComplexityLevel::Complex, RefactoringEffort::High)
        } else {
            (RefactoringComplexityLevel::Moderate, RefactoringEffort::Medium)
        },
        RefactoringType::ExtractClass | RefactoringType::InlineClass => (RefactoringComplexityLevel::Complex, RefactoringEffort::High),
    }
}

/// The effort of a refactoring goes with its complexity (simple is low,
/// moderate medium, complex high), and touching more files never makes a
/// refactoring simpler.  Extracting or inlining a method is simple however
/// many files it touches, extracting or inlining a class complex; a rename
/// or a change of signature within one file is simple and moderate across
/// files; a move is moderate within two files and complex beyond.
pub proof fn lemma_complexity_laws(kind: RefactoringType, files: nat, more: nat)
    requires
        files <= more,
    ensures
        complexity_of(kind, files).0 == RefactoringComplexityLevel::Simple <==> complexity_of(kind, files).1 == RefactoringEffort::Low,
        complexity_of(kind, files).0 == RefactoringComplexityLevel::Moderate <==> complexity_of(kind, files).1 == RefactoringEffort::Medium,
        complexity_of(kind, files).0 == RefactoringComplexityLevel::Complex <==> complexity_of(kind, files).1 == RefactoringEffort::High,
        complexity_of(kind, more).0 == RefactoringComplexityLevel::Simple ==> complexity_of(kind, files).0 == RefactoringComplexityLevel::Simple,
        complexity_of(kind, files).0 == RefactoringComplexityLevel::Complex ==> complexity_of(kind, more).0 == RefactoringComplexityLevel::Complex,
        (kind == RefactoringType::ExtractMethod || kind == RefactoringType::InlineMethod)
            ==> complexity_of(kind, files).0 == RefactoringComplexityLevel::Simple,
        (kind == RefactoringType::ExtractClass || kind == RefactoringType::InlineClass)
            ==> complexity_of(kind, files).0 == RefactoringComplexityLevel::Complex,
        (kind == RefactoringType::RenameMethod || kind == RefactoringType::ChangeSignature) ==> (complexity_of(kind, files).0
            == if files <= 1 { RefactoringComplexityLevel::Simple } else { RefactoringComplexityLevel::Moderate }),
        (kind == RefactoringType::MoveMethod || kind == RefactoringType::MoveClass) ==> (complexity_of(kind, files).0
            == if files <= 2 { RefactoringComplexityLevel::Moderate } else { RefactoringComplexityLevel::Complex }),
{
}

/// The complexity of a refactoring of kind `kind` over `changes`.
pub fn assess_complexity(kind: RefactoringType, changes: &Vec<Change>) -> (res: RefactoringComplexity)
    ensures
        res.elements_involved == changes.len(),
        res.files_affected == Set::new(|p: Seq<char>| touches(changes@, p)).len(),
        (res.complexity_level, res.estimated_effort) == complexity_of(kind, res.files_affected as nat),
        res.complexity_level == RefactoringComplexityLevel::Simple <==> res.estimated_effort == RefactoringEffort::Low,
        res.complexity_level == RefactoringComplexityLevel::Moderate <==> res.estimated_effort == RefactoringEffort::Medium,
        res.complexity_level == RefactoringComplexityLevel::Complex <==> res.estimated_effort == RefactoringEffort::High,
        (kind == RefactoringType::RenameMethod || kind == RefactoringType::ChangeSignature) ==> (res.complexity_level
            == if res.files_affected <= 1 { RefactoringComplexityLevel::Simple } else { RefactoringComplexityLevel::Moderate }),
        (kind == RefactoringType::MoveMethod || kind == RefactoringType::MoveClass) ==> (res.complexity_level
            == if res.files_affected <= 2 { RefactoringComplexityLevel::Moderate } else { RefactoringComplexityLevel::Complex }),
{
    let files = count_affected_files(changes);
    let (level, effort) = match kind {
        RefactoringType::ExtractMethod | RefactoringType::InlineMethod => (RefactoringComplexityLevel::Simple, RefactoringEffort::Low),
        RefactoringType::RenameMethod | RefactoringType::ChangeSignature => if files > 1 {
            (RefactoringComplexityLevel::Moderate, RefactoringEffort::Medium)
        } else {
            (RefactoringComplexityLevel::Simple, RefactoringEffort::Low)
        },
        RefactoringType::MoveMethod | RefactoringType::MoveClass => if files > 2 {
            (RefactoringComplexityLevel::Complex, RefactoringEffort::High)
        } else {
            (RefactoringComplexityLevel::Moderate, RefactoringEffort::Medium)
        },
        RefactoringType::ExtractClass | RefactoringType::InlineClass => (RefactoringComplexityLevel::Complex, RefactoringEffort::High),
    };
    proof {
        lemma_complexity_laws(kind, files as nat, files as nat);
    }
    RefactoringComplexity {
        complexity_level: level,
        elements_involved: changes.len(),
        files_affected: files,
        estimated_effort: effort,
    }
}

/// A group of at least three changes with an addition, a modification and
/// a rename is the complex pattern of an extraction with a rename.
pub open spec fn complex_extract_group(group: Seq<Change>) -> bool {
    &&& group.len() >= 3
    &&& exists|i: int| 0 <= i < group.len() && (#[trigger] group[i]).change_type == ChangeType::Add
    &&& exists|i: int| 0 <= i < group.len() && (#[trigger] group[i]).change_type == ChangeType::Modify
    &&& exists|i: int| 0 <= i < group.len() && (#[trigger] group[i]).change_type == ChangeType::Rename
}

fn has_change_type(group: &Vec<Change>, t: ChangeType) -> (res: bool)
    ensures
        res == exists|i: int| 0 <= i < group.len() && (#[trigger] group@[i]).change_type == t,
{
    let mut i: usize = 0;
    while i < group.len()
        invariant
            i <= group.len(),
            forall|k: int| 0 <= k < i ==> (#[trigger] group@[k]).change_type != t,
        decreases group.len() - i,
    {
        if group[i].change_type == t {
            return true;
        }
        i += 1;
    }
    false
}

/// Whether a group of changes shows an extraction combined with a rename.
pub fn is_complex_extract_group(group: &Vec<Change>) -> (res: bool)
    ensures
        res == complex_extract_group(group@),
{
    group.len() >= 3 && has_change_type(group, ChangeType::Add) && has_change_type(group, ChangeType::Modify)
        && has_change_type(group, ChangeType::Rename)
}

// ---------------------------------------------------------------------------
// Shapes of groups
// ---------------------------------------------------------------------------

/// The positions of the changes of kind `t` in `s`, in order.
pub open spec fn kind_indices(s: Seq<Change>, t: ChangeType) -> Seq<int>
    decreases s.len(),
{
    if s.len() == 0 {
        Seq::empty()
    } else {
        let prev = kind_indices(s.drop_last(), t);
        if s.last().change_type == t {
            prev.push(s.len() - 1)
        } else {
            prev
        }
    }
}

/// The positions listed by `kind_indices` lie in `s`, rise strictly, and
/// hold changes of kind `t`.
pub proof fn lemma_kind_indices(s: Seq<Change>, t: ChangeType)
    ensures
        forall|k: int| 0 <= k < kind_indices(s, t).len() ==> 0 <= #[trigger] kind_indices(s, t)[k] < s.len(),
        forall|k: int| 0 <= k < kind_indices(s, t).len() ==> s[#[trigger] kind_indices(s, t)[k]].change_type == t,
        forall|k: int, m: int| 0 <= k < m < kind_indices(s, t).len() ==> kind_indices(s, t)[k] < kind_indices(s, t)[m],
        kind_indices(s, t).len() <= s.len(),
    decreases s.len(),
{
    if s.len() > 0 {
        let p = s.drop_last();
        lemma_kind_indices(p, t);
        assert forall|k: int| 0 <= k < kind_indices(p, t).len() implies s[#[trigger] kind_indices(p, t)[k]] == p[kind_indices(p, t)[k]] by {}
    }
}

/// The element on the chosen side of a change: its target, or its source.
pub open spec fn side_of(c: Change, use_target: bool) -> Option<CodeElement> {
    if use_target {
        c.target
    } else {
        c.source
    }
}

/// The changes of `s` at the positions `idx` each have an element on the
/// chosen side, all in the file of the first one.
pub open spec fn one_side_file(s: Seq<Change>, idx: Seq<int>, use_target: bool) -> bool {
    &&& idx.len() > 0
    &&& side_of(s[idx[0]], use_target) is Some
    &&& forall|k: int| 0 <= k < idx.len() ==> (side_of(s[#[trigger] idx[k]], use_target) matches Some(e)
        && e.file_path@ == side_of(s[idx[0]], use_target)->0.file_path@)
}

/// The shape of a class extraction (or inlining): at least two changes of
/// kind `kind`, at least one modification, and the elements of the changes
/// of kind `kind` on the chosen side all in one file.
pub open spec fn class_shape(s: Seq<Change>, kind: ChangeType, use_target: bool) -> bool {
    &&& kind_indices(s, kind).len() >= 2
    &&& kind_indices(s, ChangeType::Modify).len() >= 1
    &&& one_side_file(s, kind_indices(s, kind), use_target)
}

/// The positions of the changes of kind `t`, in order.
pub fn indices_of_kind(group: &Vec<Change>, t: ChangeType) -> (res: Vec<usize>)
    ensures
        as_ints(res@) == kind_indices(group@, t),
{
    let mut res: Vec<usize> = Vec::new();
    let mut i: usize = 0;
    while i < group.len()
        invariant
            i <= group.len(),
            as_ints(res@) == kind_indices(group@.take(i as int), t),
        decreases group.len() - i,
    {
        let ghost before = as_ints(res@);
        proof {
            let next = group@.take(i + 1);
            assert(next.drop_last() =~= group@.take(i as int));
            assert(next.last() == group@[i as int]);
        }
        if group[i].change_type == t {
            res.push(i);
            assert(as_ints(res@) =~= before.push(i as int));
        }
        i += 1;
    }
    assert(group@.take(group.len() as int) =~= group@);
    res
}

/// The positions of the one change of kind `first` and the one change of
/// kind `second`, where the group holds exactly one of each.
pub fn sole_pair(group: &Vec<Change>, first: ChangeType, second: ChangeType) -> (res: Option<(usize, usize)>)
    ensures
        res is Some <==> (kind_indices(group@, first).len() == 1 && kind_indices(group@, second).len() == 1),
        res matches Some((i, j)) ==> i == kind_indices(group@, first)[0] && j == kind_indices(group@, second)[0],
{
    let a = indices_of_kind(group, first);
    let b = indices_of_kind(group, second);
    if a.len() == 1 && b.len() == 1 {
        assert(as_ints(a@)[0] == a@[0] as int);
        assert(as_ints(b@)[0] == b@[0] as int);
        Some((a[0], b[0]))
    } else {
        None
    }
}

fn side_ref(c: &Change, use_target: bool) -> (res: &Option<CodeElement>)
    ensures
        *res == side_of(*c, use_target),
{
    if use_target {
        &c.target
    } else {
        &c.source
    }
}

/// The positions of the changes of kind `kind`, where the group has the
/// shape of a class extraction (or inlining) on the chosen side.
pub fn class_members(group: &Vec<Change>, kind: ChangeType, use_target: bool) -> (res: Option<Vec<usize>>)
    ensures
        res is Some <==> class_shape(group@, kind, use_target),
        res matches Some(v) ==> as_ints(v@) == kind_indices(group@, kind),
{
    let idx = indices_of_kind(group, kind);
    let mods = indices_of_kind(group, ChangeType::Modify);
    let ghost ki = kind_indices(group@, kind);
    if idx.len() < 2 || mods.len() < 1 {
        return None;
    }
    proof {
        lemma_kind_indices(group@, kind);
        assert(as_ints(idx@)[0] == idx@[0] as int);
    }
    let first = match side_ref(&group[idx[0]], use_target) {
        Some(e) => e,
        None => {
            return None;
        },
    };
    let mut k: usize = 0;
    while k < idx.len()
        invariant
            k <= idx.len(),
            as_ints(idx@) == ki,
            ki == kind_indices(group@, kind),
            forall|m: int| 0 <= m < ki.len() ==> 0 <= #[trigger] ki[m] < group@.len(),
            side_of(group@[ki[0]], use_target) == Some(*first),
            idx.len() >= 2,
            forall|m: int| 0 <= m < k ==> (side_of(group@[#[trigger] ki[m]], use_target) matches Some(e)
                && e.file_path@ == first.file_path@),
        decreases idx.len() - k,
    {
        assert(as_ints(idx@)[k as int] == idx@[k as int] as int);
        assert(0 <= ki[k as int] < group@.len());
        match side_ref(&group[idx[k]], use_target) {
            Some(e) => {
                if e.file_path != first.file_path {
                    assert(!one_side_file(group@, ki, use_target));
                    return None;
                }
            },
            None => {
                assert(!one_side_file(group@, ki, use_target));
                return None;
            },
        }
        k += 1;
    }
    Some(idx)
}

// ---------------------------------------------------------------------------
// Proximity
// ---------------------------------------------------------------------------

/// The distance between two lines, measured on the lines as `i32` (each
/// keeps its low 32 bits).
pub open spec fn start_offset(a: usize, b: usize) -> int {
    (a as i32) - (b as i32)
}

/// Where a change lies: its source, or its target when it has no source.
pub open spec fn location(c: Change) -> Option<CodeElement> {
    if c.source is Some { c.source } else { c.target }
}

/// Two changes that lie in one file, at most `max_distance` lines apart
/// (the distance and the bound taken in `i32`).
pub open spec fn close_in_file(c1: Change, c2: Change, max_distance: usize) -> bool {
    match (location(c1), location(c2)) {
        (Some(s1), Some(s2)) => s1.file_path@ == s2.file_path@ && {
            let d = start_offset(s1.start_line, s2.start_line);
            (if d < 0 { -d } else { d }) <= (max_distance as i32) as int
        },
        _ => false,
    }
}

/// Where two changes lie in one file, their distance fits an `i32`.
pub open spec fn distance_fits(c1: Change, c2: Change) -> bool {
    match (location(c1), location(c2)) {
        (Some(s1), Some(s2)) => s1.file_path@ == s2.file_path@
            ==> i32::MIN < start_offset(s1.start_line, s2.start_line) <= i32::MAX,
        _ => true,
    }
}

fn location_ref(c: &Change) -> (res: &Option<CodeElement>)
    ensures
        *res == location(*c),
{
    if c.source.is_some() {
        &c.source
    } else {
        &c.target
    }
}

/// Whether two changes lie close together in one file; a change lies at
/// its source, or at its target when it has no source.
pub fn within_related_distance(c1: &Change, c2: &Change, max_distance: usize) -> (res: bool)
    requires
        distance_fits(*c1, *c2),
    ensures
        res == close_in_file(*c1, *c2, max_distance),
{
    match (location_ref(c1), location_ref(c2)) {
        (Some(s1), Some(s2)) => {
            if s1.file_path != s2.file_path {
                return false;
            }
            let a: i32 = s1.start_line as i32;
            let b: i32 = s2.start_line as i32;
            let d: i32 = a - b;
            let dist: i32 = if d < 0 { -d } else { d };
            #[verifier::truncate]
            let limit: i32 = max_distance as i32;
            dist <= limit
        },
        _ => false,
    }
}

// ---------------------------------------------------------------------------
// Grouping related changes
// ---------------------------------------------------------------------------

/// The changes after `i` (below `k`) that join the group of change `i`:
/// those related to it and not yet in a group, in order.
pub open spec fn members_upto(related: Seq<Seq<bool>>, i: int, processed: Set<int>, k: int) -> Seq<int>
    decreases k,
{
    if k <= 0 {
        Seq::empty()
    } else {
        let rest = members_upto(related, i, processed, k - 1);
        let j = k - 1;
        if j != i && !processed.contains(j) && related[i][j] { rest.push(j) } else { rest }
    }
}

/// The groups formed from change `i` on, given the changes already grouped:
/// each change not yet grouped, in order, starts a group with the changes
/// related to it that are not grouped yet.
pub open spec fn grouping_from(related: Seq<Seq<bool>>, i: int, processed: Set<int>) -> Seq<Seq<int>>
    decreases related.len() - i,
{
    if i >= related.len() || i < 0 {
        Seq::empty()
    } else if processed.contains(i) {
        grouping_from(related, i + 1, processed)
    } else {
        let g = seq![i] + members_upto(related, i, processed, related.len() as int);
        seq![g] + grouping_from(related, i + 1, processed + g.to_set())
    }
}

/// The groups of related changes.
pub open spec fn change_groups(related: Seq<Seq<bool>>) -> Seq<Seq<int>> {
    grouping_from(related, 0, Set::empty())
}

/// `related` is a square matrix.
pub open spec fn square(related: Seq<Seq<bool>>) -> bool {
    forall|i: int| 0 <= i < related.len() ==> (#[trigger] related[i]).len() == related.len()
}

/// The entries of `v` as integers.
pub open spec fn as_ints(v: Seq<usize>) -> Seq<int> {
    Seq::new(v.len(), |k: int| v[k] as int)
}

pub open spec fn group_views(v: Seq<Vec<usize>>) -> Seq<Seq<int>> {
    Seq::new(v.len(), |i: int| as_ints(v[i]@))
}

/// `k` belongs to the group that `i` starts with `members`.
pub open spec fn in_group(i: int, members: Seq<int>, k: int) -> bool {
    k == i || members.contains(k)
}

proof fn lemma_group_set(i: int, members: Seq<int>)
    ensures
        forall|k: int| #[trigger] (seq![i] + members).to_set().contains(k) <==> in_group(i, members, k),
{
    let g = seq![i] + members;
    assert forall|k: int| #[trigger] g.to_set().contains(k) <==> in_group(i, members, k) by {
        if g.contains(k) {
            let w = choose|w: int| 0 <= w < g.len() && g[w] == k;
            if w > 0 {
                assert(members[w - 1] == k);
            }
        }
        if k == i {
            assert(g[0] == k);
        }
        if members.contains(k) {
            let w = choose|w: int| 0 <= w < members.len() && members[w] == k;
            assert(g[w + 1] == k);
        }
    }
}

/// Groups changes by the relation `related` (a square matrix).
pub fn group_related_changes(related: &Vec<Vec<bool>>) -> (res: Vec<Vec<usize>>)
    requires
        square(related.deep_view()),
    ensures
        group_views(res@) == change_groups(related.deep_view()),
{
    let ghost rv = related.deep_view();
    let n = related.len();
    let mut processed: Vec<bool> = Vec::new();
    let mut z: usize = 0;
    while z < n
        invariant
            z <= n,
            processed@.len() == z,
            forall|k: int| 0 <= k < z ==> !processed@[k],
        decreases n - z,
    {
        processed.push(false);
        z += 1;
    }
    let ghost pset = Set::new(|k: int| 0 <= k < n && processed@[k]);
    assert(pset =~= Set::<int>::empty());
    let mut groups: Vec<Vec<usize>> = Vec::new();
    let mut i: usize = 0;
    while i < n
        invariant
            rv == related.deep_view(),
            n == related.len(),
            square(rv),
            i <= n,
            processed@.len() == n,
            group_views(groups@) + grouping_from(rv, i as int, Set::new(|k: int| 0 <= k < n && processed@[k]))
                == change_groups(rv),
        decreases n - i,
    {
        let ghost p0 = Set::new(|k: int| 0 <= k < n && processed@[k]);
        if processed[i] {
            assert(p0.contains(i as int));
            i += 1;
            continue;
        }
        let ghost before_groups = group_views(groups@);
        let mut group: Vec<usize> = Vec::new();
        group.push(i);
        processed.set(i, true);
        let row = &related[i];
        assert(row@ == rv[i as int]);
        assert(as_ints(group@) =~= seq![i as int] + members_upto(rv, i as int, p0, 0));
        let mut j: usize = 0;
        while j < n
            invariant
                rv == related.deep_view(),
                n == related.len(),
                square(rv),
                i < n,
                !p0.contains(i as int),
                p0 == Set::new(|k: int| 0 <= k < n && processed@[k]).remove(i as int).difference(members_upto(rv, i as int, p0, j as int).to_set()),
                row@ == rv[i as int],
                j <= n,
                processed@.len() == n,
                as_ints(group@) == seq![i as int] + members_upto(rv, i as int, p0, j as int),
                forall|k: int| 0 <= k < n ==> (processed@[k] <==> (p0.contains(k) || in_group(i as int, members_upto(rv, i as int, p0, j as int), k))),
            decreases n - j,
        {
            let ghost m0 = members_upto(rv, i as int, p0, j as int);
            proof {
                lemma_members_bounded(rv, i as int, p0, j as int);
            }
            if j != i && !processed[j] && row[j] {
                assert(!p0.contains(j as int));
                let ghost g0 = group@;
                group.push(j);
                processed.set(j, true);
                assert(members_upto(rv, i as int, p0, j + 1) == m0.push(j as int));
                assert(as_ints(group@) =~= as_ints(g0).push(j as int));
                proof {
                    crate::text::lemma_contains_push(m0, j as int);
                }
            } else {
                if j != i && row[j] {
                    assert(processed@[j as int]);
                    assert(p0.contains(j as int) || m0.contains(j as int));
                    assert(!m0.contains(j as int));
                }
                assert(members_upto(rv, i as int, p0, j + 1) == m0);
            }
            assert(as_ints(group@) =~= seq![i as int] + members_upto(rv, i as int, p0, j + 1));
            j += 1;
        }
        let ghost members = members_upto(rv, i as int, p0, n as int);
        let ghost g = seq![i as int] + members;
        proof {
            lemma_members_bounded(rv, i as int, p0, n as int);
            lemma_group_set(i as int, members);
        }
        assert(Set::new(|k: int| 0 <= k < n && processed@[k]) =~= p0 + g.to_set());
        groups.push(group);
        assert(group_views(groups@) =~= before_groups.push(g));
        assert(grouping_from(rv, i as int, p0) == seq![g] + grouping_from(rv, i + 1, p0 + g.to_set()));
        assert(group_views(groups@) + grouping_from(rv, i + 1, p0 + g.to_set()) =~= before_groups + grouping_from(rv, i as int, p0));
        i += 1;
    }
    assert(group_views(groups@) + Seq::<Seq<int>>::empty() =~= group_views(groups@));
    groups
}

proof fn lemma_members_bounded(related: Seq<Seq<bool>>, i: int, processed: Set<int>, k: int)
    ensures
        forall|x: int| #[trigger] members_upto(related, i, processed, k).contains(x) ==> 0 <= x < k && x != i && !processed.contains(x),
    decreases k,
{
    if k > 0 {
        lemma_members_bounded(related, i, processed, k - 1);
        let rest = members_upto(related, i, processed, k - 1);
        assert forall|x: int| #[trigger] members_upto(related, i, processed, k).contains(x) implies 0 <= x < k && x != i && !processed.contains(x) by {
            let m = members_upto(related, i, processed, k);
            let w = choose|w: int| 0 <= w < m.len() && m[w] == x;
            if w < rest.len() {
                assert(rest[w] == x);
                assert(rest.contains(x));
            }
        }
    }
}

/// Some group of `gs` holds `k`.
pub open spec fn in_some_group(gs: Seq<Seq<int>>, k: int) -> bool {
    exists|g: int| 0 <= g < gs.len() && gs[g].contains(k)
}

proof fn lemma_members_distinct(related: Seq<Seq<bool>>, i: int, processed: Set<int>, k: int)
    ensures
        members_upto(related, i, processed, k).no_duplicates(),
    decreases k,
{
    if k > 0 {
        lemma_members_distinct(related, i, processed, k - 1);
        lemma_members_bounded(related, i, processed, k - 1);
        let rest = members_upto(related, i, processed, k - 1);
        let m = members_upto(related, i, processed, k);
        if m != rest {
            assert forall|a: int, b: int| 0 <= a < m.len() && 0 <= b < m.len() && a != b implies m[a] != m[b] by {
                if a < rest.len() && b < rest.len() {
                    assert(m[a] == rest[a] && m[b] == rest[b]);
                } else if a < rest.len() {
                    assert(rest.contains(m[a]));
                } else {
                    assert(rest.contains(m[b]));
                }
            }
        }
    }
}

/// What `grouping_from` gives from change `i` on, when the changes before
/// `i` are all grouped: groups of changes in range that were not grouped
/// yet, each such change in exactly one group, and no group holding a
/// change twice.
proof fn lemma_grouping_from(related: Seq<Seq<bool>>, i: int, processed: Set<int>)
    requires
        0 <= i,
        forall|k: int| 0 <= k < i && k < related.len() ==> processed.contains(k),
        forall|k: int| processed.contains(k) ==> 0 <= k < related.len(),
    ensures
        ({
            let gs = grouping_from(related, i, processed);
            &&& forall|g: int, x: int| 0 <= g < gs.len() && #[trigger] gs[g].contains(x) ==> 0 <= x < related.len() && !processed.contains(x)
            &&& forall|k: int| 0 <= k < related.len() && !processed.contains(k) ==> #[trigger] in_some_group(gs, k)
            &&& forall|g1: int, g2: int, x: int| 0 <= g1 < gs.len() && 0 <= g2 < gs.len() && #[trigger] gs[g1].contains(x) && #[trigger] gs[g2].contains(x) ==> g1 == g2
            &&& forall|g: int| 0 <= g < gs.len() ==> (#[trigger] gs[g]).no_duplicates()
        }),
    decreases related.len() - i,
{
    let n = related.len() as int;
    let gs = grouping_from(related, i, processed);
    if i >= n {
        assert(gs.len() == 0);
        assert forall|k: int| 0 <= k < n && !processed.contains(k) implies #[trigger] in_some_group(gs, k) by {
            assert(processed.contains(k));
        }
    } else if processed.contains(i) {
        lemma_grouping_from(related, i + 1, processed);
        assert(gs == grouping_from(related, i + 1, processed));
    } else {
        let members = members_upto(related, i, processed, n);
        let g = seq![i] + members;
        let p2 = processed + g.to_set();
        lemma_members_bounded(related, i, processed, n);
        lemma_members_distinct(related, i, processed, n);
        lemma_group_set(i, members);
        lemma_grouping_from(related, i + 1, p2);
        let rest = grouping_from(related, i + 1, p2);
        assert(gs == seq![g] + rest);
        assert forall|x: int| #[trigger] g.contains(x) <==> in_group(i, members, x) by {
            assert(g.to_set().contains(x) <==> g.contains(x));
        }
        assert(g.no_duplicates()) by {
            assert forall|a: int, b: int| 0 <= a < g.len() && 0 <= b < g.len() && a != b implies g[a] != g[b] by {
                if a > 0 && b > 0 {
                    assert(g[a] == members[a - 1] && g[b] == members[b - 1]);
                } else if a == 0 {
                    assert(members.contains(g[b]));
                } else {
                    assert(members.contains(g[a]));
                }
            }
        }
        assert forall|q: int| 0 <= q < rest.len() implies gs[q + 1] == rest[q] by {}
        assert forall|gi: int, x: int| 0 <= gi < gs.len() && #[trigger] gs[gi].contains(x) implies 0 <= x < n && !processed.contains(x) by {
            if gi > 0 {
                assert(gs[gi] == rest[gi - 1]);
            }
        }
        assert forall|k: int| 0 <= k < n && !processed.contains(k) implies #[trigger] in_some_group(gs, k) by {
            if g.contains(k) {
                assert(gs[0] == g);
            } else {
                assert(!p2.contains(k));
                assert(in_some_group(rest, k));
                let gi = choose|gi: int| 0 <= gi < rest.len() && rest[gi].contains(k);
                assert(gs[gi + 1] == rest[gi]);
            }
        }
        assert forall|g1: int, g2: int, x: int| 0 <= g1 < gs.len() && 0 <= g2 < gs.len() && #[trigger] gs[g1].contains(x) && #[trigger] gs[g2].contains(x) implies g1 == g2 by {
            if g1 > 0 {
                assert(gs[g1] == rest[g1 - 1]);
                assert(!p2.contains(x));
            }
            if g2 > 0 {
                assert(gs[g2] == rest[g2 - 1]);
                assert(!p2.contains(x));
            }
            if g1 > 0 && g2 > 0 {
                assert(rest[g1 - 1].contains(x) && rest[g2 - 1].contains(x));
            }
        }
        assert forall|gi: int| 0 <= gi < gs.len() implies (#[trigger] gs[gi]).no_duplicates() by {
            if gi > 0 {
                assert(gs[gi] == rest[gi - 1]);
            }
        }
    }
}

/// The groups of related changes partition the changes: every change is in
/// exactly one group, once.
pub proof fn lemma_change_groups_partition(related: Seq<Seq<bool>>)
    ensures
        ({
            let gs = change_groups(related);
            &&& forall|g: int, x: int| 0 <= g < gs.len() && #[trigger] gs[g].contains(x) ==> 0 <= x < related.len()
            &&& forall|k: int| 0 <= k < related.len() ==> #[trigger] in_some_group(gs, k)
            &&& forall|g1: int, g2: int, x: int| 0 <= g1 < gs.len() && 0 <= g2 < gs.len() && #[trigger] gs[g1].contains(x) && #[trigger] gs[g2].contains(x) ==> g1 == g2
            &&& forall|g: int| 0 <= g < gs.len() ==> (#[trigger] gs[g]).no_duplicates()
        }),
{
    lemma_grouping_from(related, 0, Set::empty());
}

} // verus!
