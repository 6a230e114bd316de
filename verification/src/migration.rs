//! Symbol migration: which symbols of the source version are found in
//! another file of the target version, and how those migrations group by
//! pair of files.
use vstd::prelude::*;
use crate::text::{str_eq, string_views};

verus! {

/// Kinds of symbol.
#[derive(Debug, Clone, Copy, PartialEq, Eq, Structural)]
pub enum SymbolKind {
    Function,
    Method,
    Class,
    Interface,
    Variable,
    Constant,
    Field,
    Other,
}

/// A symbol of a file.
#[derive(Debug, Clone)]
pub struct SymbolRecord {
    pub name: String,
    pub kind: SymbolKind,
    pub line: usize,
}

/// The symbols of one file.
#[derive(Debug, Clone)]
pub struct FileSymbols {
    pub file_path: String,
    pub symbols: Vec<SymbolRecord>,
}

/// Kinds of reference change.
#[derive(Debug, Clone, Copy, PartialEq, Eq, Structural)]
pub enum ReferenceChangeType {
    FollowedMove,
    Broken,
    NewReference,
}

/// A change of a cross-file reference.
#[derive(Debug, Clone)]
pub struct ReferenceChange {
    pub symbol_name: String,
    pub referencing_file: String,
    pub old_referenced_file: String,
    pub new_referenced_file: String,
    pub change_type: ReferenceChangeType,
}

/// Which kinds of symbol are tracked.
#[derive(Debug, Clone, Copy, PartialEq, Eq, Structural)]
pub struct TrackedKinds {
    pub track_functions: bool,
    pub track_classes: bool,
    pub track_variables: bool,
}

/// Functions and methods are tracked with functions, classes and
/// interfaces with classes, variables, constants and fields with
/// variables; other kinds are not tracked.
pub open spec fn is_tracked_kind(t: TrackedKinds, kind: SymbolKind) -> bool {
    match kind {
        SymbolKind::Function | SymbolKind::Method => t.track_functions,
        SymbolKind::Class | SymbolKind::Interface => t.track_classes,
        SymbolKind::Variable | SymbolKind::Constant | SymbolKind::Field => t.track_variables,
        SymbolKind::Other => false,
    }
}

/// Each switch governs its own kinds: classes and interfaces are tracked
/// together, exactly when classes are; functions and methods exactly when
/// functions are; variables, constants and fields exactly when variables
/// are; other symbols never.
pub proof fn lemma_tracking_follows_flags(t: TrackedKinds)
    ensures
        is_tracked_kind(t, SymbolKind::Interface) == is_tracked_kind(t, SymbolKind::Class),
        is_tracked_kind(t, SymbolKind::Class) == t.track_classes,
        is_tracked_kind(t, SymbolKind::Method) == is_tracked_kind(t, SymbolKind::Function),
        is_tracked_kind(t, SymbolKind::Function) == t.track_functions,
        is_tracked_kind(t, SymbolKind::Constant) == is_tracked_kind(t, SymbolKind::Variable),
        is_tracked_kind(t, SymbolKind::Field) == is_tracked_kind(t, SymbolKind::Variable),
        is_tracked_kind(t, SymbolKind::Variable) == t.track_variables,
        !is_tracked_kind(t, SymbolKind::Other),
        forall|k: SymbolKind| !t.track_functions && !t.track_classes && !t.track_variables ==> !#[trigger] is_tracked_kind(t, k),
{
}

/// Whether symbols of `kind` are tracked.
pub fn should_track_symbol(t: &TrackedKinds, kind: SymbolKind) -> (res: bool)
    ensures
        res == is_tracked_kind(*t, kind),
        kind == SymbolKind::Class || kind == SymbolKind::Interface ==> res == t.track_classes,
        kind == SymbolKind::Function || kind == SymbolKind::Method ==> res == t.track_functions,
        kind == SymbolKind::Variable || kind == SymbolKind::Constant || kind == SymbolKind::Field ==> res == t.track_variables,
        kind == SymbolKind::Other ==> !res,
{
    proof {
        lemma_tracking_follows_flags(*t);
    }
    match kind {
        SymbolKind::Function | SymbolKind::Method => t.track_functions,
        SymbolKind::Class | SymbolKind::Interface => t.track_classes,
        SymbolKind::Variable | SymbolKind::Constant | SymbolKind::Field => t.track_variables,
        SymbolKind::Other => false,
    }
}

pub open spec fn kind_text(k: SymbolKind) -> Seq<char> {
    match k {
        SymbolKind::Function => "Function"@,
        SymbolKind::Method => "Method"@,
        SymbolKind::Class => "Class"@,
        SymbolKind::Interface => "Interface"@,
        SymbolKind::Variable => "Variable"@,
        SymbolKind::Constant => "Constant"@,
        SymbolKind::Field => "Field"@,
        SymbolKind::Other => "Other"@,
    }
}

/// The name of a kind of symbol, as `Debug` writes it.
pub fn symbol_kind_name(k: SymbolKind) -> (res: &'static str)
    ensures
        res@ == kind_text(k),
{
    match k {
        SymbolKind::Function => "Function",
        SymbolKind::Method => "Method",
        SymbolKind::Class => "Class",
        SymbolKind::Interface => "Interface",
        SymbolKind::Variable => "Variable",
        SymbolKind::Constant => "Constant",
        SymbolKind::Field => "Field",
        SymbolKind::Other => "Other",
    }
}

// ---------------------------------------------------------------------------
// Finding a symbol in the target version
// ---------------------------------------------------------------------------

/// The index of the first symbol of `syms` from `j` on named `name`.
pub open spec fn named_from(syms: Seq<SymbolRecord>, name: Seq<char>, j: int) -> Option<int>
    decreases syms.len() - j,
{
    if j < 0 || j >= syms.len() {
        None
    } else if syms[j].name@ == name {
        Some(j)
    } else {
        named_from(syms, name, j + 1)
    }
}

/// A file holds a symbol named `name` (its first) of kind `kind`.
pub open spec fn exact_in(f: FileSymbols, name: Seq<char>, kind: SymbolKind) -> Option<int> {
    match named_from(f.symbols@, name, 0) {
        Some(j) => if f.symbols@[j].kind == kind { Some(j) } else { None },
        None => None,
    }
}

/// A symbol of another name than `name` and of kind `kind`: a candidate
/// for a renamed symbol.
pub open spec fn rename_candidate(s: SymbolRecord, name: Seq<char>, kind: SymbolKind) -> bool {
    s.name@ != name && s.kind == kind
}

/// The distance between two lines, measured on the lines as `i32` (each
/// keeps its low 32 bits).
pub open spec fn line_offset(line: usize, other: usize) -> int {
    (line as i32) - (other as i32)
}

/// Two lines are within ten lines of each other.
pub open spec fn near_lines(line: usize, other: usize) -> bool {
    -10 <= line_offset(line, other) <= 10
}

/// The distance of two lines, and its absolute value, fit an `i32`.
pub open spec fn offset_fits(line: usize, other: usize) -> bool {
    i32::MIN < line_offset(line, other) <= i32::MAX
}

/// The first symbol of `syms` from `j` on with another name than `name`,
/// of kind `kind`, within ten lines of `line`.
pub open spec fn near_from(syms: Seq<SymbolRecord>, name: Seq<char>, kind: SymbolKind, line: usize, j: int) -> Option<int>
    decreases syms.len() - j,
{
    if j < 0 || j >= syms.len() {
        None
    } else if rename_candidate(syms[j], name, kind) && near_lines(line, syms[j].line) {
        Some(j)
    } else {
        near_from(syms, name, kind, line, j + 1)
    }
}

/// The distances that the search of `near_from` measures, up to the symbol
/// it finds, all fit an `i32`.
pub open spec fn scan_fits(syms: Seq<SymbolRecord>, name: Seq<char>, kind: SymbolKind, line: usize, j: int) -> bool
    decreases syms.len() - j,
{
    if j < 0 || j >= syms.len() {
        true
    } else if rename_candidate(syms[j], name, kind) {
        offset_fits(line, syms[j].line) && (near_lines(line, syms[j].line) || scan_fits(syms, name, kind, line, j + 1))
    } else {
        scan_fits(syms, name, kind, line, j + 1)
    }
}

/// Where a symbol is found: the file index, the symbol index, and whether
/// it was found by another name.
pub open spec fn exact_from(files: Seq<FileSymbols>, name: Seq<char>, kind: SymbolKind, i: int) -> Option<(int, int)>
    decreases files.len() - i,
{
    if i < 0 || i >= files.len() {
        None
    } else {
        match exact_in(files[i], name, kind) {
            Some(j) => Some((i, j)),
            None => exact_from(files, name, kind, i + 1),
        }
    }
}

pub open spec fn near_files_from(files: Seq<FileSymbols>, name: Seq<char>, kind: SymbolKind, line: usize, i: int) -> Option<(int, int)>
    decreases files.len() - i,
{
    if i < 0 || i >= files.len() {
        None
    } else {
        match near_from(files[i].symbols@, name, kind, line, 0) {
            Some(j) => Some((i, j)),
            None => near_files_from(files, name, kind, line, i + 1),
        }
    }
}

/// The match of a symbol in the target files: the first file holding it by
/// name with the same kind; else the first symbol of the same kind, another
/// name, within ten lines (found by another name).
pub open spec fn symbol_match(files: Seq<FileSymbols>, name: Seq<char>, kind: SymbolKind, line: usize) -> Option<(int, int, bool)> {
    match exact_from(files, name, kind, 0) {
        Some((i, j)) => Some((i, j, false)),
        None => match near_files_from(files, name, kind, line, 0) {
            Some((i, j)) => Some((i, j, true)),
            None => None,
        },
    }
}

/// The searches of `near_files_from` from file `i` on measure only
/// distances that fit an `i32`.
pub open spec fn files_scan_fits(files: Seq<FileSymbols>, name: Seq<char>, kind: SymbolKind, line: usize, i: int) -> bool
    decreases files.len() - i,
{
    if i < 0 || i >= files.len() {
        true
    } else {
        scan_fits(files[i].symbols@, name, kind, line, 0)
            && (near_from(files[i].symbols@, name, kind, line, 0) is Some || files_scan_fits(files, name, kind, line, i + 1))
    }
}

/// Looking a symbol up in `files` measures only distances that fit an
/// `i32`: it is found by name, or the search by nearness stays in range.
pub open spec fn match_fits(files: Seq<FileSymbols>, name: Seq<char>, kind: SymbolKind, line: usize) -> bool {
    exact_from(files, name, kind, 0) is Some || files_scan_fits(files, name, kind, line, 0)
}

fn first_named(syms: &Vec<SymbolRecord>, name: &str) -> (res: Option<usize>)
    ensures
        res matches Some(j) ==> j < syms.len(),
        match res {
            Some(j) => named_from(syms@, name@, 0) == Some(j as int),
            None => named_from(syms@, name@, 0) is None,
        },
{
    let mut j: usize = 0;
    while j < syms.len()
        invariant
            j <= syms.len(),
            named_from(syms@, name@, 0) == named_from(syms@, name@, j as int),
        decreases syms.len() - j,
    {
        if str_eq(syms[j].name.as_str(), name) {
            return Some(j);
        }
        j += 1;
    }
    None
}

fn first_near(syms: &Vec<SymbolRecord>, name: &str, kind: SymbolKind, line: usize) -> (res: Option<usize>)
    requires
        scan_fits(syms@, name@, kind, line, 0),
    ensures
        res matches Some(j) ==> j < syms.len(),
        match res {
            Some(j) => near_from(syms@, name@, kind, line, 0) == Some(j as int),
            None => near_from(syms@, name@, kind, line, 0) is None,
        },
{
    let mut j: usize = 0;
    while j < syms.len()
        invariant
            j <= syms.len(),
            scan_fits(syms@, name@, kind, line, j as int),
            near_from(syms@, name@, kind, line, 0) == near_from(syms@, name@, kind, line, j as int),
        decreases syms.len() - j,
    {
        let s = &syms[j];
        if !str_eq(s.name.as_str(), name) && s.kind == kind {
            let a: i32 = line as i32;
            let b: i32 = s.line as i32;
            let d: i32 = a - b;
            let dist: i32 = if d < 0 { -d } else { d };
            if dist <= 10 {
                return Some(j);
            }
        }
        j += 1;
    }
    None
}

/// A symbol found in the target version.
#[derive(Debug, Clone)]
pub struct SymbolMatch {
    /// The file that holds it.
    pub file: String,
    /// Index of the file among the target files.
    pub file_index: usize,
    /// Index of the symbol among the file's symbols.
    pub symbol_index: usize,
    /// Whether it was found by another name.
    pub was_renamed: bool,
    /// Its name, where it was found by another name.
    pub new_name: Option<String>,
}

proof fn lemma_named_from(syms: Seq<SymbolRecord>, name: Seq<char>, j0: int)
    requires
        0 <= j0,
    ensures
        named_from(syms, name, j0) matches Some(j) ==> j0 <= j < syms.len() && syms[j].name@ == name
            && forall|k: int| j0 <= k < j ==> (#[trigger] syms[k]).name@ != name,
        (exists|j: int| j0 <= j < syms.len() && (#[trigger] syms[j]).name@ == name) ==> named_from(syms, name, j0) is Some,
    decreases syms.len() - j0,
{
    if j0 < syms.len() && syms[j0].name@ != name {
        lemma_named_from(syms, name, j0 + 1);
        if exists|j: int| j0 <= j < syms.len() && (#[trigger] syms[j]).name@ == name {
            let j = choose|j: int| j0 <= j < syms.len() && (#[trigger] syms[j]).name@ == name;
            assert(j0 + 1 <= j);
        }
    }
}

proof fn lemma_near_from(syms: Seq<SymbolRecord>, name: Seq<char>, kind: SymbolKind, line: usize, j0: int)
    requires
        0 <= j0,
    ensures
        near_from(syms, name, kind, line, j0) matches Some(j) ==> j0 <= j < syms.len() && rename_candidate(syms[j], name, kind)
            && near_lines(line, syms[j].line),
        (exists|j: int| j0 <= j < syms.len() && rename_candidate(#[trigger] syms[j], name, kind) && near_lines(line, syms[j].line))
            ==> near_from(syms, name, kind, line, j0) is Some,
    decreases syms.len() - j0,
{
    if j0 < syms.len() && !(rename_candidate(syms[j0], name, kind) && near_lines(line, syms[j0].line)) {
        lemma_near_from(syms, name, kind, line, j0 + 1);
        if exists|j: int| j0 <= j < syms.len() && rename_candidate(#[trigger] syms[j], name, kind) && near_lines(line, syms[j].line) {
            let j = choose|j: int| j0 <= j < syms.len() && rename_candidate(#[trigger] syms[j], name, kind) && near_lines(line, syms[j].line);
            assert(j0 + 1 <= j);
        }
    }
}

proof fn lemma_exact_from(files: Seq<FileSymbols>, name: Seq<char>, kind: SymbolKind, i0: int)
    requires
        0 <= i0,
    ensures
        exact_from(files, name, kind, i0) matches Some((i, j)) ==> i0 <= i < files.len() && exact_in(files[i], name, kind) == Some(j),
        (exists|i: int| i0 <= i < files.len() && exact_in(#[trigger] files[i], name, kind) is Some) ==> exact_from(files, name, kind, i0) is Some,
    decreases files.len() - i0,
{
    if i0 < files.len() && exact_in(files[i0], name, kind) is None {
        lemma_exact_from(files, name, kind, i0 + 1);
        if exists|i: int| i0 <= i < files.len() && exact_in(#[trigger] files[i], name, kind) is Some {
            let i = choose|i: int| i0 <= i < files.len() && exact_in(#[trigger] files[i], name, kind) is Some;
            assert(i0 + 1 <= i);
        }
    }
}

proof fn lemma_near_files_from(files: Seq<FileSymbols>, name: Seq<char>, kind: SymbolKind, line: usize, i0: int)
    requires
        0 <= i0,
    ensures
        near_files_from(files, name, kind, line, i0) matches Some((i, j)) ==> i0 <= i < files.len()
            && near_from(files[i].symbols@, name, kind, line, 0) == Some(j),
        (exists|i: int| i0 <= i < files.len() && near_from((#[trigger] files[i]).symbols@, name, kind, line, 0) is Some)
            ==> near_files_from(files, name, kind, line, i0) is Some,
    decreases files.len() - i0,
{
    if i0 < files.len() && near_from(files[i0].symbols@, name, kind, line, 0) is None {
        lemma_near_files_from(files, name, kind, line, i0 + 1);
        if exists|i: int| i0 <= i < files.len() && near_from((#[trigger] files[i]).symbols@, name, kind, line, 0) is Some {
            let i = choose|i: int| i0 <= i < files.len() && near_from((#[trigger] files[i]).symbols@, name, kind, line, 0) is Some;
            assert(i0 + 1 <= i);
        }
    }
}

/// Symbol `j` of file `i` is named `name`, has kind `kind`, and is the
/// first symbol of that name in its file.
pub open spec fn first_of_name_and_kind(files: Seq<FileSymbols>, name: Seq<char>, kind: SymbolKind, i: int, j: int) -> bool {
    &&& 0 <= i < files.len()
    &&& 0 <= j < files[i].symbols@.len()
    &&& files[i].symbols@[j].name@ == name
    &&& files[i].symbols@[j].kind == kind
    &&& forall|k: int| 0 <= k < j ==> (#[trigger] files[i].symbols@[k]).name@ != name
}

/// Symbol `j` of file `i` has kind `kind`, another name than `name`, and
/// stands within ten lines of `line`.
pub open spec fn near_candidate(files: Seq<FileSymbols>, name: Seq<char>, kind: SymbolKind, line: usize, i: int, j: int) -> bool {
    &&& 0 <= i < files.len()
    &&& 0 <= j < files[i].symbols@.len()
    &&& rename_candidate(files[i].symbols@[j], name, kind)
    &&& near_lines(line, files[i].symbols@[j].line)
}

/// What a lookup in the target files gives.  A symbol found by its name is
/// a symbol of that name and kind; one found by another name has the same
/// kind, another name, and stands within ten lines.  A file whose first
/// symbol of that name has that kind makes the lookup succeed by name, and
/// a symbol of that kind under another name within ten lines makes it
/// succeed one way or the other.
pub proof fn lemma_symbol_match_laws(files: Seq<FileSymbols>, name: Seq<char>, kind: SymbolKind, line: usize)
    ensures
        symbol_match(files, name, kind, line) matches Some((i, j, renamed)) ==> {
            &&& 0 <= i < files.len()
            &&& 0 <= j < files[i].symbols@.len()
            &&& files[i].symbols@[j].kind == kind
            &&& !renamed ==> files[i].symbols@[j].name@ == name
            &&& renamed ==> files[i].symbols@[j].name@ != name && near_lines(line, files[i].symbols@[j].line)
        },
        forall|i: int, j: int| #[trigger] first_of_name_and_kind(files, name, kind, i, j)
            ==> (symbol_match(files, name, kind, line) matches Some((_, _, renamed)) && !renamed),
        forall|i: int, j: int| #[trigger] near_candidate(files, name, kind, line, i, j)
            ==> symbol_match(files, name, kind, line) is Some,
{
    lemma_exact_from(files, name, kind, 0);
    lemma_near_files_from(files, name, kind, line, 0);
    match exact_from(files, name, kind, 0) {
        Some((i, j)) => {
            lemma_named_from(files[i].symbols@, name, 0);
        },
        None => match near_files_from(files, name, kind, line, 0) {
            Some((i, j)) => {
                lemma_near_from(files[i].symbols@, name, kind, line, 0);
            },
            None => {},
        },
    }
    assert forall|i: int, j: int| #[trigger] first_of_name_and_kind(files, name, kind, i, j)
        implies (symbol_match(files, name, kind, line) matches Some((_, _, renamed)) && !renamed) by {
        let syms = files[i].symbols@;
        lemma_named_from(syms, name, 0);
        let j2 = named_from(syms, name, 0)->0;
        if j2 < j {
            assert(syms[j2].name@ == name);
        }
        if j < j2 {
            assert(syms[j].name@ != name);
        }
        assert(exact_in(files[i], name, kind) == Some(j));
    }
    assert forall|i: int, j: int| #[trigger] near_candidate(files, name, kind, line, i, j)
        implies symbol_match(files, name, kind, line) is Some by {
        lemma_near_from(files[i].symbols@, name, kind, line, 0);
    }
}

/// Finds a symbol of the source version among the target files.
pub fn find_matching_symbol(name: &str, kind: SymbolKind, line: usize, target: &Vec<FileSymbols>) -> (res: Option<SymbolMatch>)
    requires
        match_fits(target@, name@, kind, line),
    ensures
        match res {
            Some(m) => {
                &&& symbol_match(target@, name@, kind, line) == Some((m.file_index as int, m.symbol_index as int, m.was_renamed))
                &&& m.file@ == target@[m.file_index as int].file_path@
                &&& m.was_renamed ==> (m.new_name matches Some(n) && n@ == target@[m.file_index as int].symbols@[m.symbol_index as int].name@)
                &&& !m.was_renamed ==> m.new_name is None
            },
            None => symbol_match(target@, name@, kind, line) is None,
        },
        res matches Some(m) ==> {
            &&& m.file_index < target.len()
            &&& m.symbol_index < target@[m.file_index as int].symbols@.len()
            &&& target@[m.file_index as int].symbols@[m.symbol_index as int].kind == kind
            &&& !m.was_renamed ==> target@[m.file_index as int].symbols@[m.symbol_index as int].name@ == name@
            &&& m.was_renamed ==> target@[m.file_index as int].symbols@[m.symbol_index as int].name@ != name@
                && near_lines(line, target@[m.file_index as int].symbols@[m.symbol_index as int].line)
        },
        forall|i: int, j: int| #[trigger] first_of_name_and_kind(target@, name@, kind, i, j) ==> (res matches Some(m) && !m.was_renamed),
        forall|i: int, j: int| #[trigger] near_candidate(target@, name@, kind, line, i, j) ==> res is Some,
{
    proof {
        lemma_symbol_match_laws(target@, name@, kind, line);
    }
    find_symbol_in_order(name, kind, line, target)
}

fn find_symbol_in_order(name: &str, kind: SymbolKind, line: usize, target: &Vec<FileSymbols>) -> (res: Option<SymbolMatch>)
    requires
        match_fits(target@, name@, kind, line),
    ensures
        match res {
            Some(m) => {
                &&& symbol_match(target@, name@, kind, line) == Some((m.file_index as int, m.symbol_index as int, m.was_renamed))
                &&& m.file@ == target@[m.file_index as int].file_path@
                &&& m.was_renamed ==> (m.new_name matches Some(n) && n@ == target@[m.file_index as int].symbols@[m.symbol_index as int].name@)
                &&& !m.was_renamed ==> m.new_name is None
            },
            None => symbol_match(target@, name@, kind, line) is None,
        },
{
    let mut i: usize = 0;
    while i < target.len()
        invariant
            i <= target.len(),
            exact_from(target@, name@, kind, 0) == exact_from(target@, name@, kind, i as int),
        decreases target.len() - i,
    {
        let f = &target[i];
        match first_named(&f.symbols, name) {
            Some(j) => {
                if f.symbols[j].kind == kind {
                    return Some(SymbolMatch {
                        file: f.file_path.clone(),
                        file_index: i,
                        symbol_index: j,
                        was_renamed: false,
                        new_name: None,
                    });
                }
            },
            None => {},
        }
        i += 1;
    }
    let mut i: usize = 0;
    while i < target.len()
        invariant
            i <= target.len(),
            exact_from(target@, name@, kind, 0) is None,
            files_scan_fits(target@, name@, kind, line, i as int),
            near_files_from(target@, name@, kind, line, 0) == near_files_from(target@, name@, kind, line, i as int),
        decreases target.len() - i,
    {
        let f = &target[i];
        assert(f.symbols@ == target@[i as int].symbols@);
        match first_near(&f.symbols, name, kind, line) {
            Some(j) => {
                return Some(SymbolMatch {
                    file: f.file_path.clone(),
                    file_index: i,
                    symbol_index: j,
                    was_renamed: true,
                    new_name: Some(f.symbols[j].name.clone()),
                });
            },
            None => {},
        }
        i += 1;
    }
    None
}

// ---------------------------------------------------------------------------
// Migrations
// ---------------------------------------------------------------------------

/// A symbol that moved to another file.
#[derive(Debug, Clone)]
pub struct SymbolMigration {
    pub symbol_name: String,
    pub symbol_kind: String,
    pub source_file: String,
    pub target_file: String,
    pub was_renamed: bool,
    pub new_name: Option<String>,
}

/// The migrations of the symbols of `source` into `target`: for each
/// tracked symbol, in order, that is found in another file than its own.
pub open spec fn migrated(
    kinds: TrackedKinds,
    source: Seq<FileSymbols>,
    target: Seq<FileSymbols>,
    i: int,
    j: int,
) -> bool {
    let s = source[i].symbols@[j];
    &&& is_tracked_kind(kinds, s.kind)
    &&& symbol_match(target, s.name@, s.kind, s.line) matches Some((fi, _, _))
        && target[fi].file_path@ != source[i].file_path@
}

/// The migration record of symbol `j` of source file `i`: its name and
/// kind, the two files, whether it was found by another name, and that
/// name where it was.
pub open spec fn migration_of(source: Seq<FileSymbols>, target: Seq<FileSymbols>, i: int, j: int) -> (Seq<char>, Seq<char>, Seq<char>, Seq<char>, bool, Option<Seq<char>>) {
    let s = source[i].symbols@[j];
    let m = symbol_match(target, s.name@, s.kind, s.line)->0;
    let new_name = if m.2 { Some(target[m.0].symbols@[m.1].name@) } else { None };
    (s.name@, kind_text(s.kind), source[i].file_path@, target[m.0].file_path@, m.2, new_name)
}

pub open spec fn migration_view(m: SymbolMigration) -> (Seq<char>, Seq<char>, Seq<char>, Seq<char>, bool, Option<Seq<char>>) {
    (m.symbol_name@, m.symbol_kind@, m.source_file@, m.target_file@, m.was_renamed, crate::paths::opt_chars(m.new_name))
}

/// The migrations of the symbols of source files `i` on from symbol `j` of
/// file `i`, in order.
pub open spec fn migrations_from(
    t: TrackedKinds,
    source: Seq<FileSymbols>,
    target: Seq<FileSymbols>,
    i: int,
    j: int,
) -> Seq<(Seq<char>, Seq<char>, Seq<char>, Seq<char>, bool, Option<Seq<char>>)>
    decreases source.len() - i, if 0 <= i < source.len() { source[i].symbols@.len() - j } else { 0 },
{
    if i < 0 || i >= source.len() {
        Seq::empty()
    } else if j < 0 || j >= source[i].symbols@.len() {
        migrations_from(t, source, target, i + 1, 0)
    } else {
        let rest = migrations_from(t, source, target, i, j + 1);
        if migrated(t, source, target, i, j) {
            seq![migration_of(source, target, i, j)] + rest
        } else {
            rest
        }
    }
}

/// A symbol of the source version whose kind is tracked, and which the
/// lookup finds in another file of the target version, has migrated; in
/// particular an interface does so whenever classes are tracked.
pub proof fn lemma_found_elsewhere_migrates(
    t: TrackedKinds,
    source: Seq<FileSymbols>,
    target: Seq<FileSymbols>,
    i: int,
    j: int,
    fi: int,
    fj: int,
    renamed: bool,
)
    requires
        0 <= i < source.len(),
        0 <= j < source[i].symbols@.len(),
        source[i].symbols@[j].kind == SymbolKind::Interface ==> t.track_classes,
        source[i].symbols@[j].kind != SymbolKind::Interface ==> is_tracked_kind(t, source[i].symbols@[j].kind),
        symbol_match(target, source[i].symbols@[j].name@, source[i].symbols@[j].kind, source[i].symbols@[j].line)
            == Some((fi, fj, renamed)),
        target[fi].file_path@ != source[i].file_path@,
    ensures
        migrated(t, source, target, i, j),
        migrations_from(t, source, target, 0, 0).contains(migration_of(source, target, i, j)),
{
    lemma_tracking_follows_flags(t);
    lemma_migrations_contain(t, source, target, 0, 0, i, j);
}

proof fn lemma_migrations_contain(t: TrackedKinds, source: Seq<FileSymbols>, target: Seq<FileSymbols>, i0: int, j0: int, i: int, j: int)
    requires
        0 <= i < source.len(),
        0 <= j < source[i].symbols@.len(),
        0 <= i0,
        0 <= j0,
        i0 < i || (i0 == i && j0 <= j),
        migrated(t, source, target, i, j),
    ensures
        migrations_from(t, source, target, i0, j0).contains(migration_of(source, target, i, j)),
    decreases source.len() - i0, if 0 <= i0 < source.len() { source[i0].symbols@.len() - j0 } else { 0 },
{
    let m = migration_of(source, target, i, j);
    if j0 >= source[i0].symbols@.len() {
        lemma_migrations_contain(t, source, target, i0 + 1, 0, i, j);
    } else {
        let rest = migrations_from(t, source, target, i0, j0 + 1);
        if i0 == i && j0 == j {
            assert((seq![m] + rest)[0] == m);
        } else {
            lemma_migrations_contain(t, source, target, i0, j0 + 1, i, j);
            let k = choose|k: int| 0 <= k < rest.len() && rest[k] == m;
            if migrated(t, source, target, i0, j0) {
                let h = seq![migration_of(source, target, i0, j0)] + rest;
                assert(h[k + 1] == m);
            }
        }
    }
}

/// `e` is the migration of some symbol of the source version that migrated.
pub open spec fn is_migration_entry(
    t: TrackedKinds,
    source: Seq<FileSymbols>,
    target: Seq<FileSymbols>,
    e: (Seq<char>, Seq<char>, Seq<char>, Seq<char>, bool, Option<Seq<char>>),
) -> bool {
    exists|i: int, j: int| 0 <= i < source.len() && 0 <= j < source[i].symbols@.len()
        && #[trigger] migrated(t, source, target, i, j) && e == migration_of(source, target, i, j)
}

proof fn lemma_migrations_sound(t: TrackedKinds, source: Seq<FileSymbols>, target: Seq<FileSymbols>, i0: int, j0: int)
    requires
        0 <= j0,
    ensures
        forall|k: int| 0 <= k < migrations_from(t, source, target, i0, j0).len()
            ==> is_migration_entry(t, source, target, #[trigger] migrations_from(t, source, target, i0, j0)[k]),
    decreases source.len() - i0, if 0 <= i0 < source.len() { source[i0].symbols@.len() - j0 } else { 0 },
{
    if 0 <= i0 < source.len() {
        if j0 >= source[i0].symbols@.len() {
            lemma_migrations_sound(t, source, target, i0 + 1, 0);
            assert(migrations_from(t, source, target, i0, j0) == migrations_from(t, source, target, i0 + 1, 0));
        } else {
            lemma_migrations_sound(t, source, target, i0, j0 + 1);
            let rest = migrations_from(t, source, target, i0, j0 + 1);
            if migrated(t, source, target, i0, j0) {
                let h = seq![migration_of(source, target, i0, j0)] + rest;
                assert(migrations_from(t, source, target, i0, j0) == h);
                assert forall|k: int| 0 <= k < h.len() implies is_migration_entry(t, source, target, #[trigger] h[k]) by {
                    if k == 0 {
                        assert(h[0] == migration_of(source, target, i0, j0));
                        assert(migrated(t, source, target, i0, j0));
                    } else {
                        assert(h[k] == rest[k - 1]);
                    }
                }
            } else {
                assert(migrations_from(t, source, target, i0, j0) == rest);
            }
        }
    } else {
        assert(migrations_from(t, source, target, i0, j0).len() == 0);
    }
}

/// Every migration found is that of a tracked symbol of the source version
/// which the lookup found in another file: its kind is tracked, its two
/// files differ, and its target file holds the symbol it was found as, with
/// the symbol's own name unless it was found by another name.
pub proof fn lemma_migration_entries(t: TrackedKinds, source: Seq<FileSymbols>, target: Seq<FileSymbols>)
    ensures
        forall|k: int| #![trigger migrations_from(t, source, target, 0, 0)[k]] 0 <= k < migrations_from(t, source, target, 0, 0).len()
            ==> {
            let e = migrations_from(t, source, target, 0, 0)[k];
            &&& e.2 != e.3
            &&& exists|i: int, j: int| 0 <= i < source.len() && 0 <= j < source[i].symbols@.len()
                && is_tracked_kind(t, (#[trigger] source[i].symbols@[j]).kind) && e.0 == source[i].symbols@[j].name@
                && e.1 == kind_text(source[i].symbols@[j].kind) && e.2 == source[i].file_path@
            &&& !e.4 ==> e.5 is None
        },
{
    lemma_migrations_sound(t, source, target, 0, 0);
    assert forall|k: int| #![trigger migrations_from(t, source, target, 0, 0)[k]] 0 <= k < migrations_from(t, source, target, 0, 0).len()
        implies {
        let e = migrations_from(t, source, target, 0, 0)[k];
        &&& e.2 != e.3
        &&& exists|i: int, j: int| 0 <= i < source.len() && 0 <= j < source[i].symbols@.len()
            && is_tracked_kind(t, (#[trigger] source[i].symbols@[j]).kind) && e.0 == source[i].symbols@[j].name@
            && e.1 == kind_text(source[i].symbols@[j].kind) && e.2 == source[i].file_path@
        &&& !e.4 ==> e.5 is None
    } by {
        assert(is_migration_entry(t, source, target, migrations_from(t, source, target, 0, 0)[k]));
        let (i, j) = choose|i: int, j: int| 0 <= i < source.len() && 0 <= j < source[i].symbols@.len()
            && #[trigger] migrated(t, source, target, i, j)
            && migrations_from(t, source, target, 0, 0)[k] == migration_of(source, target, i, j);
        let s = source[i].symbols@[j];
        assert(is_tracked_kind(t, source[i].symbols@[j].kind));
    }
}

/// Looking up each tracked symbol of `source` in `target` measures only
/// distances that fit an `i32`.
pub open spec fn migrations_fit(t: TrackedKinds, source: Seq<FileSymbols>, target: Seq<FileSymbols>) -> bool {
    forall|i: int, j: int| 0 <= i < source.len() && 0 <= j < source[i].symbols@.len()
        && is_tracked_kind(t, (#[trigger] source[i].symbols@[j]).kind)
        ==> match_fits(target, source[i].symbols@[j].name@, source[i].symbols@[j].kind, source[i].symbols@[j].line)
}

/// What a list of migration records that agrees with `migrations_from`
/// says: each record moves a tracked symbol of a source file to another
/// file, and each symbol that migrated has its record.
pub open spec fn migration_list_reads_right(t: TrackedKinds, source: Seq<FileSymbols>, target: Seq<FileSymbols>, ms: Seq<SymbolMigration>) -> bool {
    &&& forall|k: int| 0 <= k < ms.len() ==> (#[trigger] ms[k]).source_file@ != ms[k].target_file@
    &&& forall|k: int| 0 <= k < ms.len() ==> !(#[trigger] ms[k]).was_renamed ==> ms[k].new_name is None
    &&& forall|k: int| #![trigger ms[k]] 0 <= k < ms.len() ==> exists|i: int, j: int| 0 <= i < source.len()
        && 0 <= j < source[i].symbols@.len() && is_tracked_kind(t, (#[trigger] source[i].symbols@[j]).kind)
        && ms[k].symbol_name@ == source[i].symbols@[j].name@ && ms[k].symbol_kind@ == kind_text(source[i].symbols@[j].kind)
        && ms[k].source_file@ == source[i].file_path@
    &&& forall|i: int, j: int| 0 <= i < source.len() && 0 <= j < source[i].symbols@.len() && #[trigger] migrated(t, source, target, i, j)
        ==> exists|k: int| 0 <= k < ms.len() && migration_view(#[trigger] ms[k]) == migration_of(source, target, i, j)
}

/// A list of records that agrees with `migrations_from` reads right.
pub proof fn lemma_migration_list_laws(t: TrackedKinds, source: Seq<FileSymbols>, target: Seq<FileSymbols>, ms: Seq<SymbolMigration>)
    requires
        Seq::new(ms.len(), |k: int| migration_view(ms[k])) == migrations_from(t, source, target, 0, 0),
    ensures
        migration_list_reads_right(t, source, target, ms),
{
    let all = migrations_from(t, source, target, 0, 0);
    lemma_migration_entries(t, source, target);
    assert forall|k: int| 0 <= k < ms.len() implies migration_view(#[trigger] ms[k]) == migrations_from(t, source, target, 0, 0)[k] by {
        assert(Seq::new(ms.len(), |q: int| migration_view(ms[q]))[k] == migration_view(ms[k]));
    }
    assert forall|k: int| 0 <= k < ms.len() implies (!(#[trigger] ms[k]).was_renamed ==> ms[k].new_name is None) by {
        assert(migration_view(ms[k]) == migrations_from(t, source, target, 0, 0)[k]);
        if !ms[k].was_renamed && ms[k].new_name is Some {
            assert(crate::paths::opt_chars(ms[k].new_name) is Some);
        }
    }
    assert forall|i: int, j: int| 0 <= i < source.len() && 0 <= j < source[i].symbols@.len() && #[trigger] migrated(t, source, target, i, j)
        implies exists|k: int| 0 <= k < ms.len() && migration_view(#[trigger] ms[k]) == migration_of(source, target, i, j) by {
        lemma_migrations_contain(t, source, target, 0, 0, i, j);
        let k = choose|k: int| 0 <= k < all.len() && all[k] == migration_of(source, target, i, j);
        assert(migration_view(ms[k]) == all[k]);
    }
}

/// The migrations of the tracked symbols of `source` into `target`.
pub fn identify_symbol_migrations(t: &TrackedKinds, source: &Vec<FileSymbols>, target: &Vec<FileSymbols>) -> (res: Vec<SymbolMigration>)
    requires
        migrations_fit(*t, source@, target@),
    ensures
        Seq::new(res@.len(), |k: int| migration_view(res@[k])) == migrations_from(*t, source@, target@, 0, 0),
        migration_list_reads_right(*t, source@, target@, res@),
{
    let res = identify_symbol_migrations_in_order(t, source, target);
    proof {
        lemma_migration_list_laws(*t, source@, target@, res@);
    }
    res
}

fn identify_symbol_migrations_in_order(t: &TrackedKinds, source: &Vec<FileSymbols>, target: &Vec<FileSymbols>) -> (res: Vec<SymbolMigration>)
    requires
        migrations_fit(*t, source@, target@),
    ensures
        Seq::new(res@.len(), |k: int| migration_view(res@[k])) == migrations_from(*t, source@, target@, 0, 0),
{
    let mut res: Vec<SymbolMigration> = Vec::new();
    let mut i: usize = 0;
    while i < source.len()
        invariant
            migrations_fit(*t, source@, target@),
            i <= source.len(),
            Seq::new(res@.len(), |k: int| migration_view(res@[k])) + migrations_from(*t, source@, target@, i as int, 0)
                == migrations_from(*t, source@, target@, 0, 0),
        decreases source.len() - i,
    {
        let f = &source[i];
        let mut j: usize = 0;
        while j < f.symbols.len()
            invariant
                migrations_fit(*t, source@, target@),
                i < source.len(),
                f == source@[i as int],
                j <= f.symbols.len(),
                Seq::new(res@.len(), |k: int| migration_view(res@[k])) + migrations_from(*t, source@, target@, i as int, j as int)
                    == migrations_from(*t, source@, target@, 0, 0),
            decreases f.symbols.len() - j,
        {
            let s = &f.symbols[j];
            let ghost before = Seq::new(res@.len(), |k: int| migration_view(res@[k]));
            if should_track_symbol(t, s.kind) {
                assert(source@[i as int].symbols@[j as int] == *s);
                match find_matching_symbol(s.name.as_str(), s.kind, s.line, target) {
                    Some(m) => {
                        if !str_eq(f.file_path.as_str(), m.file.as_str()) {
                            let record = SymbolMigration {
                                symbol_name: s.name.clone(),
                                symbol_kind: String::from_str(symbol_kind_name(s.kind)),
                                source_file: f.file_path.clone(),
                                target_file: m.file,
                                was_renamed: m.was_renamed,
                                new_name: m.new_name,
                            };
                            res.push(record);
                            assert(migrated(*t, source@, target@, i as int, j as int));
                            assert(Seq::new(res@.len(), |k: int| migration_view(res@[k])) =~= before.push(migration_of(source@, target@, i as int, j as int)));
                            assert(before.push(migration_of(source@, target@, i as int, j as int)) + migrations_from(*t, source@, target@, i as int, j + 1)
                                =~= before + migrations_from(*t, source@, target@, i as int, j as int));
                        } else {
                            assert(!migrated(*t, source@, target@, i as int, j as int));
                        }
                    },
                    None => {
                        assert(!migrated(*t, source@, target@, i as int, j as int));
                    },
                }
            } else {
                assert(!migrated(*t, source@, target@, i as int, j as int));
            }
            j += 1;
        }
        i += 1;
    }
    assert(Seq::new(res@.len(), |k: int| migration_view(res@[k])) + Seq::<(Seq<char>, Seq<char>, Seq<char>, Seq<char>, bool, Option<Seq<char>>)>::empty()
        =~= Seq::new(res@.len(), |k: int| migration_view(res@[k])));
    res
}

// ---------------------------------------------------------------------------
// Grouping by pair of files
// ---------------------------------------------------------------------------

/// The file pair of a migration.
pub open spec fn pair_of(m: SymbolMigration) -> (Seq<char>, Seq<char>) {
    (m.source_file@, m.target_file@)
}

/// The names of the migrations of `ms` between the pair `p`, in order.
pub open spec fn names_for(ms: Seq<SymbolMigration>, p: (Seq<char>, Seq<char>)) -> Seq<Seq<char>>
    decreases ms.len(),
{
    if ms.len() == 0 {
        Seq::empty()
    } else {
        let rest = names_for(ms.drop_last(), p);
        if pair_of(ms.last()) == p { rest.push(ms.last().symbol_name@) } else { rest }
    }
}

/// Migrations grouped by pair of files.
#[derive(Debug, Clone)]
pub struct FileMigrationGroup {
    pub source_file: String,
    pub target_file: String,
    pub migrated_symbols: Vec<String>,
}

pub open spec fn group_pair(g: FileMigrationGroup) -> (Seq<char>, Seq<char>) {
    (g.source_file@, g.target_file@)
}

/// Some group of `res` is for the pair `q`.
pub open spec fn has_group(res: Seq<FileMigrationGroup>, q: (Seq<char>, Seq<char>)) -> bool {
    exists|a: int| 0 <= a < res.len() && group_pair(res[a]) == q
}

/// Some migration of `done` is between the pair `q`.
pub open spec fn has_migration(done: Seq<SymbolMigration>, q: (Seq<char>, Seq<char>)) -> bool {
    exists|k: int| 0 <= k < done.len() && pair_of(done[k]) == q
}

/// `res` groups the migrations `done` by pair of files: one group per pair,
/// each with the names of its migrations in order.
pub open spec fn groups_of(res: Seq<FileMigrationGroup>, done: Seq<SymbolMigration>) -> bool {
    &&& forall|a: int, b: int| 0 <= a < b < res.len() ==> #[trigger] group_pair(res[a]) != #[trigger] group_pair(res[b])
    &&& forall|a: int| 0 <= a < res.len() ==> string_views(res[a].migrated_symbols@) == names_for(done, #[trigger] group_pair(res[a]))
    &&& forall|k: int| 0 <= k < done.len() ==> has_group(res, #[trigger] pair_of(done[k]))
    &&& forall|a: int| 0 <= a < res.len() ==> has_migration(done, #[trigger] group_pair(res[a]))
}

fn find_group(res: &Vec<FileMigrationGroup>, m: &SymbolMigration) -> (found: Option<usize>)
    ensures
        found matches Some(a) ==> a < res.len() && group_pair(res@[a as int]) == pair_of(*m),
        found is None ==> forall|b: int| 0 <= b < res.len() ==> group_pair(res@[b]) != pair_of(*m),
{
    let mut a: usize = 0;
    while a < res.len()
        invariant
            a <= res.len(),
            forall|b: int| 0 <= b < a ==> group_pair(res@[b]) != pair_of(*m),
        decreases res.len() - a,
    {
        if str_eq(res[a].source_file.as_str(), m.source_file.as_str()) && str_eq(res[a].target_file.as_str(), m.target_file.as_str()) {
            return Some(a);
        }
        a += 1;
    }
    None
}

proof fn lemma_groups_update(old_res: Seq<FileMigrationGroup>, done: Seq<SymbolMigration>, m: SymbolMigration, a: int, g: FileMigrationGroup)
    requires
        groups_of(old_res, done),
        0 <= a < old_res.len(),
        group_pair(old_res[a]) == pair_of(m),
        group_pair(g) == pair_of(m),
        string_views(g.migrated_symbols@) == string_views(old_res[a].migrated_symbols@).push(m.symbol_name@),
    ensures
        groups_of(old_res.update(a, g), done.push(m)),
{
    let res = old_res.update(a, g);
    let t = done.push(m);
    let p = pair_of(m);
    assert(t.drop_last() =~= done);
    assert(t.last() == m);
    assert forall|b: int| 0 <= b < res.len() implies group_pair(#[trigger] res[b]) == group_pair(old_res[b]) by {}
    assert forall|q: (Seq<char>, Seq<char>)| #[trigger] has_group(old_res, q) implies has_group(res, q) by {
        let c = choose|c: int| 0 <= c < old_res.len() && group_pair(old_res[c]) == q;
        assert(group_pair(res[c]) == group_pair(old_res[c]));
    }
    assert forall|q: (Seq<char>, Seq<char>)| #[trigger] has_migration(done, q) implies has_migration(t, q) by {
        let k = choose|k: int| 0 <= k < done.len() && pair_of(done[k]) == q;
        assert(t[k] == done[k]);
    }
    assert forall|b: int| 0 <= b < res.len() implies string_views(res[b].migrated_symbols@) == names_for(t, #[trigger] group_pair(res[b])) by {
        if b != a {
            assert(res[b] == old_res[b]);
            assert(group_pair(res[b]) != p);
        }
    }
    assert forall|k: int| 0 <= k < t.len() implies has_group(res, #[trigger] pair_of(t[k])) by {
        if k < done.len() {
            assert(t[k] == done[k]);
            assert(has_group(old_res, pair_of(done[k])));
        } else {
            assert(group_pair(res[a]) == pair_of(t[k]));
        }
    }
    assert forall|c: int| 0 <= c < res.len() implies has_migration(t, #[trigger] group_pair(res[c])) by {
        assert(group_pair(res[c]) == group_pair(old_res[c]));
        assert(has_migration(done, group_pair(old_res[c])));
    }
}

fn add_to_group(res: &mut Vec<FileMigrationGroup>, Ghost(done): Ghost<Seq<SymbolMigration>>, m: &SymbolMigration, a: usize)
    requires
        groups_of(old(res)@, done),
        a < old(res).len(),
        group_pair(old(res)@[a as int]) == pair_of(*m),
    ensures
        groups_of(final(res)@, done.push(*m)),
{
    let ghost old_res = res@;
    let mut names = crate::text::clone_strings(&res[a].migrated_symbols);
    let ghost before = string_views(names@);
    names.push(m.symbol_name.clone());
    assert(string_views(names@) =~= before.push(m.symbol_name@));
    let g = FileMigrationGroup {
        source_file: res[a].source_file.clone(),
        target_file: res[a].target_file.clone(),
        migrated_symbols: names,
    };
    proof {
        lemma_groups_update(old_res, done, *m, a as int, g);
    }
    res.set(a, g);
}

proof fn lemma_groups_push(old_res: Seq<FileMigrationGroup>, done: Seq<SymbolMigration>, m: SymbolMigration, g: FileMigrationGroup)
    requires
        groups_of(old_res, done),
        forall|b: int| 0 <= b < old_res.len() ==> group_pair(old_res[b]) != pair_of(m),
        group_pair(g) == pair_of(m),
        string_views(g.migrated_symbols@) == seq![m.symbol_name@],
    ensures
        groups_of(old_res.push(g), done.push(m)),
{
    let res = old_res.push(g);
    let t = done.push(m);
    let p = pair_of(m);
    assert(t.drop_last() =~= done);
    assert(t.last() == m);
    assert forall|k: int| 0 <= k < done.len() implies pair_of(done[k]) != p by {
        assert(has_group(old_res, pair_of(done[k])));
        let c = choose|c: int| 0 <= c < old_res.len() && group_pair(old_res[c]) == pair_of(done[k]);
    }
    lemma_names_for_absent(done, p);
    assert(names_for(t, p) =~= seq![m.symbol_name@]);
    assert forall|b: int| 0 <= b < old_res.len() implies #[trigger] res[b] == old_res[b] by {}
    assert forall|q: (Seq<char>, Seq<char>)| #[trigger] has_group(old_res, q) implies has_group(res, q) by {
        let c = choose|c: int| 0 <= c < old_res.len() && group_pair(old_res[c]) == q;
        assert(res[c] == old_res[c]);
    }
    assert forall|q: (Seq<char>, Seq<char>)| #[trigger] has_migration(done, q) implies has_migration(t, q) by {
        let k = choose|k: int| 0 <= k < done.len() && pair_of(done[k]) == q;
        assert(t[k] == done[k]);
    }
    assert forall|b: int| 0 <= b < res.len() implies string_views(res[b].migrated_symbols@) == names_for(t, #[trigger] group_pair(res[b])) by {
        if b < old_res.len() {
            assert(res[b] == old_res[b]);
            assert(group_pair(res[b]) != p);
        }
    }
    assert forall|k: int| 0 <= k < t.len() implies has_group(res, #[trigger] pair_of(t[k])) by {
        if k < done.len() {
            assert(t[k] == done[k]);
            assert(has_group(old_res, pair_of(done[k])));
        } else {
            assert(group_pair(res[old_res.len() as int]) == pair_of(t[k]));
        }
    }
    assert forall|c: int| 0 <= c < res.len() implies has_migration(t, #[trigger] group_pair(res[c])) by {
        if c < old_res.len() {
            assert(res[c] == old_res[c]);
            assert(has_migration(done, group_pair(old_res[c])));
        } else {
            assert(t[done.len() as int] == m);
        }
    }
    assert forall|a: int, b: int| 0 <= a < b < res.len() implies #[trigger] group_pair(res[a]) != #[trigger] group_pair(res[b]) by {
        if b == old_res.len() {
            assert(res[a] == old_res[a]);
        } else {
            assert(res[a] == old_res[a] && res[b] == old_res[b]);
        }
    }
}

fn add_group(res: &mut Vec<FileMigrationGroup>, Ghost(done): Ghost<Seq<SymbolMigration>>, m: &SymbolMigration)
    requires
        groups_of(old(res)@, done),
        forall|b: int| 0 <= b < old(res).len() ==> group_pair(old(res)@[b]) != pair_of(*m),
    ensures
        groups_of(final(res)@, done.push(*m)),
{
    let mut names: Vec<String> = Vec::new();
    names.push(m.symbol_name.clone());
    let g = FileMigrationGroup {
        source_file: m.source_file.clone(),
        target_file: m.target_file.clone(),
        migrated_symbols: names,
    };
    assert(string_views(g.migrated_symbols@) =~= seq![m.symbol_name@]);
    proof {
        lemma_groups_push(res@, done, *m, g);
    }
    res.push(g);
}

fn add_migration(res: &mut Vec<FileMigrationGroup>, Ghost(done): Ghost<Seq<SymbolMigration>>, m: &SymbolMigration)
    requires
        groups_of(old(res)@, done),
    ensures
        groups_of(final(res)@, done.push(*m)),
{
    match find_group(res, m) {
        Some(a) => add_to_group(res, Ghost(done), m, a),
        None => add_group(res, Ghost(done), m),
    }
}

/// Groups migrations by their pair of files: one group per pair, in order
/// of first appearance, each with the names of its migrations in order.
pub fn group_migrations_by_files(ms: &Vec<SymbolMigration>) -> (res: Vec<FileMigrationGroup>)
    ensures
        groups_of(res@, ms@),
{
    let mut res: Vec<FileMigrationGroup> = Vec::new();
    let mut i: usize = 0;
    assert(ms@.take(0) =~= Seq::<SymbolMigration>::empty());
    while i < ms.len()
        invariant
            i <= ms.len(),
            groups_of(res@, ms@.take(i as int)),
        decreases ms.len() - i,
    {
        assert(ms@.take(i + 1) =~= ms@.take(i as int).push(ms@[i as int]));
        add_migration(&mut res, Ghost(ms@.take(i as int)), &ms[i]);
        i += 1;
    }
    assert(ms@.take(ms.len() as int) =~= ms@);
    res
}

/// The counts of a tracking run.
#[derive(Debug, Clone, Copy, PartialEq, Eq, Structural)]
pub struct MigrationCounts {
    pub total_symbols: usize,
    pub migrated_symbols: usize,
    pub file_migration_count: usize,
    pub reference_change_count: usize,
}

/// What tracking the migrations between two versions finds.
#[derive(Debug, Clone)]
pub struct SymbolMigrationResult {
    pub file_migrations: Vec<FileMigrationGroup>,
    pub symbol_migrations: Vec<SymbolMigration>,
    pub reference_changes: Vec<ReferenceChange>,
    pub statistics: MigrationCounts,
}

/// Tracks the migrations of the tracked symbols of `source` into `target`:
/// the migrations in order, their groups by pair of files, and the counts.
/// Cross-file references are not analysed, so no reference change is
/// reported; every symbol counted is a migrated one.
pub fn track_migrations(t: &TrackedKinds, source: &Vec<FileSymbols>, target: &Vec<FileSymbols>) -> (res: SymbolMigrationResult)
    requires
        migrations_fit(*t, source@, target@),
    ensures
        Seq::new(res.symbol_migrations@.len(), |k: int| migration_view(res.symbol_migrations@[k])) == migrations_from(*t, source@, target@, 0, 0),
        migration_list_reads_right(*t, source@, target@, res.symbol_migrations@),
        groups_of(res.file_migrations@, res.symbol_migrations@),
        res.reference_changes@.len() == 0,
        res.statistics.total_symbols == res.symbol_migrations@.len(),
        res.statistics.migrated_symbols == res.symbol_migrations@.len(),
        res.statistics.file_migration_count == res.file_migrations@.len(),
        res.statistics.reference_change_count == 0,
{
    let symbol_migrations = identify_symbol_migrations(t, source, target);
    let file_migrations = group_migrations_by_files(&symbol_migrations);
    let statistics = MigrationCounts {
        total_symbols: symbol_migrations.len(),
        migrated_symbols: symbol_migrations.len(),
        file_migration_count: file_migrations.len(),
        reference_change_count: 0,
    };
    SymbolMigrationResult { file_migrations, symbol_migrations, reference_changes: Vec::new(), statistics }
}

proof fn lemma_names_for_absent(ms: Seq<SymbolMigration>, p: (Seq<char>, Seq<char>))
    requires
        forall|k: int| 0 <= k < ms.len() ==> pair_of(ms[k]) != p,
    ensures
        names_for(ms, p) == Seq::<Seq<char>>::empty(),
    decreases ms.len(),
{
    if ms.len() > 0 {
        lemma_names_for_absent(ms.drop_last(), p);
    }
}

} // verus!
