//! The decisions of graph-based function matching that do not depend on
//! similarity scores: string distances, optimal assignment of sources to
//! targets, match kinds, additions and deletions, dependency changes.
use vstd::prelude::*;
use crate::edit_distance::{lev, crate_edit_distance, max2};
use crate::names::byte_len;
use crate::text::{byte_length, str_eq, string_views};
use crate::order::{lex_order, sorted_strings, lemma_sorted_permutation};
use crate::file_refactoring::{hex, push_hex};
use std::collections::hash_map::DefaultHasher;
use vstd::std_specs::hash::DefaultHasherAdditionalSpecFns;

verus! {

// ---------------------------------------------------------------------------
// Kinds
// ---------------------------------------------------------------------------

/// Kinds of function matches.
#[derive(Debug, Clone, Copy, PartialEq, Eq, Structural)]
pub enum MatchType {
    Exact,
    Similar,
    Renamed,
    Moved,
    MovedAndRenamed,
    Refactored,
}

/// Kinds of dependency changes.
#[derive(Debug, Clone, Copy, PartialEq, Eq, Structural)]
pub enum DependencyChangeType {
    Added,
    Removed,
    Modified,
    Strengthened,
    Weakened,
}

/// Where the similarity of a matched pair lies: at least 0.99, at least
/// 0.9, or below.
#[derive(Debug, Clone, Copy, PartialEq, Eq, Structural)]
pub enum MatchSimilarity {
    Identical,
    High,
    Lower,
}

/// The kind of a match: identical pairs are exact; otherwise a change of
/// name and of file, of name, of file, in that order; otherwise similar or
/// refactored by similarity.
pub open spec fn match_kind(band: MatchSimilarity, same_name: bool, same_file: bool) -> MatchType {
    if band == MatchSimilarity::Identical {
        MatchType::Exact
    } else if !same_name && !same_file {
        MatchType::MovedAndRenamed
    } else if !same_name {
        MatchType::Renamed
    } else if !same_file {
        MatchType::Moved
    } else if band == MatchSimilarity::High {
        MatchType::Similar
    } else {
        MatchType::Refactored
    }
}

/// How a match is named: identical similarity is always exact; otherwise a
/// change of name is reported as a rename (with a move exactly when the file
/// changed too), a kept name in another file as a move, and a kept name in
/// the same file as similar or refactored by similarity.  So a match other
/// than exact is named a rename only when the names differ, and a move only
/// when the files differ.
pub proof fn lemma_match_kind_laws(band: MatchSimilarity, same_name: bool, same_file: bool)
    ensures
        band == MatchSimilarity::Identical ==> match_kind(band, same_name, same_file) == MatchType::Exact,
        band != MatchSimilarity::Identical ==> match_kind(band, same_name, same_file) != MatchType::Exact,
        band != MatchSimilarity::Identical ==> ((match_kind(band, same_name, same_file) == MatchType::Renamed
            || match_kind(band, same_name, same_file) == MatchType::MovedAndRenamed) <==> !same_name),
        band != MatchSimilarity::Identical ==> ((match_kind(band, same_name, same_file) == MatchType::Moved
            || match_kind(band, same_name, same_file) == MatchType::MovedAndRenamed) <==> !same_file),
        band != MatchSimilarity::Identical && same_name && same_file ==> match_kind(band, same_name, same_file) == (
            if band == MatchSimilarity::High { MatchType::Similar } else { MatchType::Refactored }),
{
}

/// The kind of the match between a source and a target function.
pub fn determine_match_type(
    source_name: &str,
    target_name: &str,
    source_file: &str,
    target_file: &str,
    band: MatchSimilarity,
) -> (res: MatchType)
    ensures
        res == match_kind(band, source_name@ == target_name@, source_file@ == target_file@),
        band == MatchSimilarity::Identical <==> res == MatchType::Exact,
        band != MatchSimilarity::Identical ==> ((res == MatchType::Renamed || res == MatchType::MovedAndRenamed)
            <==> source_name@ != target_name@),
        band != MatchSimilarity::Identical ==> ((res == MatchType::Moved || res == MatchType::MovedAndRenamed)
            <==> source_file@ != target_file@),
        (band == MatchSimilarity::High && source_name@ == target_name@ && source_file@ == target_file@)
            ==> res == MatchType::Similar,
        (band == MatchSimilarity::Lower && source_name@ == target_name@ && source_file@ == target_file@)
            ==> res == MatchType::Refactored,
{
    proof {
        lemma_match_kind_laws(band, source_name@ == target_name@, source_file@ == target_file@);
    }
    let same_name = str_eq(source_name, target_name);
    let same_file = str_eq(source_file, target_file);
    match band {
        MatchSimilarity::Identical => MatchType::Exact,
        _ => {
            if !same_name && !same_file {
                MatchType::MovedAndRenamed
            } else if !same_name {
                MatchType::Renamed
            } else if !same_file {
                MatchType::Moved
            } else {
                match band {
                    MatchSimilarity::High => MatchType::Similar,
                    _ => MatchType::Refactored,
                }
            }
        },
    }
}

// ---------------------------------------------------------------------------
// String distance
// ---------------------------------------------------------------------------

/// How two strings compare: equal, one of them empty, or at an edit
/// distance, with the greater of their UTF-8 lengths.
#[derive(Debug, Clone, Copy, PartialEq, Eq, Structural)]
pub enum StringDistance {
    Identical,
    Empty,
    Distance { distance: usize, max_len: usize },
}

pub open spec fn string_distance(a: Seq<char>, b: Seq<char>) -> StringDistance {
    if a == b {
        StringDistance::Identical
    } else if a.len() == 0 || b.len() == 0 {
        StringDistance::Empty
    } else {
        StringDistance::Distance { distance: lev(a, b) as usize, max_len: max2(byte_len(a), byte_len(b)) as usize }
    }
}

/// How two strings compare: equal strings are identical whatever they hold;
/// otherwise an empty one makes the comparison empty; otherwise, and only
/// then, their edit distance is given.
pub proof fn lemma_string_distance_laws(a: Seq<char>, b: Seq<char>)
    ensures
        string_distance(a, a) == StringDistance::Identical,
        a != b && (a.len() == 0 || b.len() == 0) ==> string_distance(a, b) == StringDistance::Empty,
        (string_distance(a, b) is Distance) <==> (a != b && a.len() > 0 && b.len() > 0),
        string_distance(a, b) is Identical <==> a == b,
{
}

/// Compares two strings by edit distance (of the `edit-distance` crate).
pub fn compare_strings(s1: &str, s2: &str) -> (res: StringDistance)
    ensures
        res == string_distance(s1@, s2@),
        res is Identical <==> s1@ == s2@,
        res is Distance <==> (s1@ != s2@ && s1@.len() > 0 && s2@.len() > 0),
{
    proof {
        lemma_string_distance_laws(s1@, s2@);
    }
    if str_eq(s1, s2) {
        return StringDistance::Identical;
    }
    if s1.is_empty() || s2.is_empty() {
        return StringDistance::Empty;
    }
    let distance = crate_edit_distance(s1, s2);
    let l1 = byte_length(s1);
    let l2 = byte_length(s2);
    let max_len = if l1 >= l2 { l1 } else { l2 };
    StringDistance::Distance { distance, max_len }
}

// ---------------------------------------------------------------------------
// Context hashes
// ---------------------------------------------------------------------------

/// What `<Vec<String> as Hash>::hash` writes into a hasher for the strings
/// `v`.
pub uninterp spec fn strings_hash_writes(v: Seq<Seq<char>>) -> Seq<Seq<u8>>;

/// `<Vec<String> as std::hash::Hash>::hash` into a `DefaultHasher`: it
/// appends to the hasher's writes those that `strings_hash_writes` names
/// for the strings of `v`; nothing more is claimed of them.
#[verifier::external_body]
fn hash_strings_into(v: &Vec<String>, state: &mut DefaultHasher)
    ensures
        final(state)@ == old(state)@ + strings_hash_writes(string_views(v@)),
{
    std::hash::Hash::hash(v, state)
}

/// The context hash of a function: a fresh `DefaultHasher` given its
/// dependencies, sorted, then its dependents, sorted; in hexadecimal.
pub open spec fn context_hash_of(dependencies: Seq<Seq<char>>, dependents: Seq<Seq<char>>) -> Seq<char> {
    hex(DefaultHasher::spec_finish(
        Seq::<Seq<u8>>::empty() + strings_hash_writes(dependencies.sort_by(lex_order()))
            + strings_hash_writes(dependents.sort_by(lex_order())),
    ) as nat)
}

/// The context hash of a function with `dependencies` and `dependents`,
/// which does not depend on the order in which either list is given.
pub fn calculate_context_hash(dependencies: &Vec<String>, dependents: &Vec<String>) -> (res: String)
    ensures
        res@ == context_hash_of(string_views(dependencies@), string_views(dependents@)),
{
    let mut hasher = DefaultHasher::new();
    let sorted_dependencies = sorted_strings(dependencies);
    hash_strings_into(&sorted_dependencies, &mut hasher);
    let sorted_dependents = sorted_strings(dependents);
    hash_strings_into(&sorted_dependents, &mut hasher);
    let h = std::hash::Hasher::finish(&hasher);
    let mut res = String::new();
    push_hex(&mut res, h);
    assert(res@ =~= context_hash_of(string_views(dependencies@), string_views(dependents@)));
    res
}

/// The context hash of a function does not depend on the order in which
/// its dependencies or its dependents are listed.
pub proof fn lemma_context_hash_order_free(
    dependencies1: Seq<Seq<char>>,
    dependencies2: Seq<Seq<char>>,
    dependents1: Seq<Seq<char>>,
    dependents2: Seq<Seq<char>>,
)
    requires
        dependencies1.to_multiset() == dependencies2.to_multiset(),
        dependents1.to_multiset() == dependents2.to_multiset(),
    ensures
        context_hash_of(dependencies1, dependents1) == context_hash_of(dependencies2, dependents2),
{
    lemma_sorted_permutation(dependencies1, dependencies2);
    lemma_sorted_permutation(dependents1, dependents2);
}

// ---------------------------------------------------------------------------
// Optimal assignment
// ---------------------------------------------------------------------------

/// The assignment that `hungarian::minimize` gives for the row-major cost
/// matrix `costs` of `height` rows and `width` columns.
pub uninterp spec fn hungarian_assignment(costs: Seq<i32>, height: nat, width: nat) -> Seq<Option<usize>>;

/// `a` assigns rows to distinct columns below `width`.
pub open spec fn is_matching(a: Seq<Option<usize>>, width: nat) -> bool {
    &&& forall|i: int| 0 <= i < a.len() && (#[trigger] a[i]) is Some ==> a[i]->0 < width
    &&& forall|i: int, k: int| 0 <= i < k < a.len() && (#[trigger] a[i]) is Some && (#[trigger] a[k]) is Some ==> a[i]->0 != a[k]->0
}

/// Some row of `a` is assigned column `j`.
pub open spec fn column_assigned(a: Seq<Option<usize>>, j: usize) -> bool {
    exists|i: int| 0 <= i < a.len() && a[i] == Some(j)
}

/// The largest cost that `hungarian::minimize` is given: half of
/// `i32::MAX`.
pub open spec fn max_cost() -> int {
    1073741823
}

/// No cost exceeds `max_cost`.  On such costs `hungarian::minimize` stays
/// within `i32`: after its row reduction every entry lies in `[0, C]`, `C`
/// the largest cost clamped at zero; the column offsets it subtracts stay
/// in `[0, C]` (an unassigned row, whose offset never changes, keeps every
/// entry of its uncovered columns non-negative), and the row offsets it adds
/// stay within `C` (a covered row holds a starred zero in an uncovered
/// column), so every entry and every step stays within `2C`.
pub open spec fn costs_bounded(costs: Seq<i32>) -> bool {
    forall|k: int| 0 <= k < costs.len() ==> costs[k] <= max_cost()
}

/// The total cost of the pairs of `a` in the row-major matrix `costs`.
pub open spec fn total_cost(costs: Seq<i32>, width: nat, a: Seq<Option<usize>>) -> int
    decreases a.len(),
{
    if a.len() == 0 {
        0
    } else {
        total_cost(costs, width, a.drop_last()) + match a.last() {
            Some(j) => costs[(a.len() - 1) * width + j] as int,
            None => 0,
        }
    }
}

/// `a` is a matching of the largest size: one entry per row, distinct
/// columns, every row assigned when rows do not outnumber columns and every
/// column assigned otherwise.
pub open spec fn maximal_matching(a: Seq<Option<usize>>, height: nat, width: nat) -> bool {
    &&& a.len() == height
    &&& is_matching(a, width)
    &&& height <= width ==> forall|i: int| 0 <= i < a.len() ==> (#[trigger] a[i]) is Some
    &&& height > width ==> forall|j: usize| j < width ==> #[trigger] column_assigned(a, j)
}

/// `hungarian::minimize` of the `hungarian` crate, on the row-major matrix
/// `costs`.  Its result is named `hungarian_assignment`.  Claimed of it, as
/// its documentation and source show: no rows or no columns give no
/// assignment; otherwise the result is a matching of the largest size (one
/// entry per row, each a distinct column below `width`, every row assigned
/// when rows do not outnumber columns and every column assigned otherwise),
/// and where no cost is negative its total cost is the least of all such
/// matchings.  Costs above `max_cost` are left out: on them the additions of
/// the algorithm can leave the range of `i32`.  Negative costs are clamped
/// to zero by the crate, so the least total is not claimed for them.
#[verifier::external_body]
fn hungarian_minimize(costs: &Vec<i32>, height: usize, width: usize) -> (res: Vec<Option<usize>>)
    requires
        costs.len() == height * width,
        costs_bounded(costs@),
    ensures
        res@ == hungarian_assignment(costs@, height as nat, width as nat),
        height == 0 || width == 0 ==> res.len() == 0,
        height > 0 && width > 0 ==> maximal_matching(res@, height as nat, width as nat),
        is_matching(res@, width as nat),
        height > 0 && width > 0 && (forall|k: int| 0 <= k < costs.len() ==> costs@[k] >= 0) ==> forall|b: Seq<Option<usize>>|
            maximal_matching(b, height as nat, width as nat) ==> total_cost(costs@, width as nat, res@) <= #[trigger] total_cost(costs@, width as nat, b),
{
    hungarian::minimize(costs.as_slice(), height, width)
}

/// Every row of `acceptable` has `width` entries.
pub open spec fn rectangular_bools(acceptable: Seq<Seq<bool>>, width: nat) -> bool {
    forall|i: int| 0 <= i < acceptable.len() ==> (#[trigger] acceptable[i]).len() == width
}

/// The pairs of an assignment, in row order, whose column is below `width`
/// and whose pair is acceptable.
pub open spec fn accepted_pairs(assignment: Seq<Option<usize>>, width: nat, acceptable: Seq<Seq<bool>>) -> Seq<(usize, usize)>
    decreases assignment.len(),
{
    if assignment.len() == 0 {
        Seq::empty()
    } else {
        let i = assignment.len() - 1;
        let rest = accepted_pairs(assignment.drop_last(), width, acceptable);
        match assignment[i] {
            Some(j) => if j < width && acceptable[i][j as int] { rest.push((i as usize, j)) } else { rest },
            None => rest,
        }
    }
}

/// The acceptable pairs of an assignment.
pub fn acceptable_pairs(assignment: &Vec<Option<usize>>, width: usize, acceptable: &Vec<Vec<bool>>) -> (res: Vec<(usize, usize)>)
    requires
        assignment.len() <= acceptable.len(),
        rectangular_bools(acceptable.deep_view(), width as nat),
    ensures
        res@ == accepted_pairs(assignment@, width as nat, acceptable.deep_view()),
{
    let ghost av = acceptable.deep_view();
    let mut res: Vec<(usize, usize)> = Vec::new();
    let mut i: usize = 0;
    while i < assignment.len()
        invariant
            av == acceptable.deep_view(),
            assignment.len() <= acceptable.len(),
            rectangular_bools(av, width as nat),
            i <= assignment.len(),
            res@ == accepted_pairs(assignment@.take(i as int), width as nat, av),
        decreases assignment.len() - i,
    {
        let ghost t = assignment@.take(i + 1);
        assert(t.drop_last() =~= assignment@.take(i as int));
        assert(t[i as int] == assignment@[i as int]);
        match assignment[i] {
            Some(j) => {
                if j < width {
                    assert(acceptable[i as int]@ == av[i as int]);
                    if acceptable[i][j] {
                        res.push((i, j));
                    }
                }
            },
            None => {},
        }
        i += 1;
    }
    assert(assignment@.take(assignment.len() as int) =~= assignment@);
    res
}

/// The optimal assignment of rows to columns for `costs`, restricted to the
/// acceptable pairs.  The assignment is a matching of the largest size
/// and, where no cost is negative, of the least total cost among them.
pub fn optimal_pairs(costs: &Vec<i32>, height: usize, width: usize, acceptable: &Vec<Vec<bool>>) -> (res: Vec<(usize, usize)>)
    requires
        costs.len() == height * width,
        costs_bounded(costs@),
        acceptable.len() == height,
        rectangular_bools(acceptable.deep_view(), width as nat),
    ensures
        res@ == accepted_pairs(hungarian_assignment(costs@, height as nat, width as nat), width as nat, acceptable.deep_view()),
        height > 0 && width > 0 ==> maximal_matching(hungarian_assignment(costs@, height as nat, width as nat), height as nat, width as nat),
        height > 0 && width > 0 && (forall|k: int| 0 <= k < costs.len() ==> costs@[k] >= 0) ==> forall|b: Seq<Option<usize>>|
            maximal_matching(b, height as nat, width as nat) ==> total_cost(costs@, width as nat, hungarian_assignment(costs@, height as nat, width as nat))
                <= #[trigger] total_cost(costs@, width as nat, b),
{
    let assignment = hungarian_minimize(costs, height, width);
    acceptable_pairs(&assignment, width, acceptable)
}

/// The pairs that an assignment keeps join distinct rows to distinct columns.
pub proof fn lemma_accepted_pairs_matching(assignment: Seq<Option<usize>>, width: nat, acceptable: Seq<Seq<bool>>)
    requires
        is_matching(assignment, width),
        assignment.len() <= usize::MAX,
    ensures
        forall|k: int| 0 <= k < accepted_pairs(assignment, width, acceptable).len() ==> {
            let p = #[trigger] accepted_pairs(assignment, width, acceptable)[k];
            &&& p.0 < assignment.len()
            &&& p.1 < width
            &&& assignment[p.0 as int] == Some(p.1)
        },
        forall|k1: int, k2: int| 0 <= k1 < k2 < accepted_pairs(assignment, width, acceptable).len() ==> {
            &&& (#[trigger] accepted_pairs(assignment, width, acceptable)[k1]).0 < (#[trigger] accepted_pairs(assignment, width, acceptable)[k2]).0
            &&& accepted_pairs(assignment, width, acceptable)[k1].1 != accepted_pairs(assignment, width, acceptable)[k2].1
        },
    decreases assignment.len(),
{
    if assignment.len() > 0 {
        let d = assignment.drop_last();
        assert forall|i: int, k: int| 0 <= i < k < d.len() && (#[trigger] d[i]) is Some && (#[trigger] d[k]) is Some implies d[i]->0 != d[k]->0 by {
            assert(d[i] == assignment[i] && d[k] == assignment[k]);
        }
        assert forall|i: int| 0 <= i < d.len() && (#[trigger] d[i]) is Some implies d[i]->0 < width by {
            assert(d[i] == assignment[i]);
        }
        lemma_accepted_pairs_matching(d, width, acceptable);
        let rest = accepted_pairs(d, width, acceptable);
        let all = accepted_pairs(assignment, width, acceptable);
        let last = assignment.len() - 1;
        assert forall|k: int| 0 <= k < rest.len() implies (#[trigger] rest[k]).0 < d.len() && assignment[rest[k].0 as int] == Some(rest[k].1) by {
            assert(d[rest[k].0 as int] == assignment[rest[k].0 as int]);
        }
        if all.len() > rest.len() {
            assert(all == rest.push((last as usize, assignment[last]->0)));
            assert forall|k: int| 0 <= k < all.len() implies {
                let p = #[trigger] all[k];
                &&& p.0 < assignment.len()
                &&& p.1 < width
                &&& assignment[p.0 as int] == Some(p.1)
            } by {
                if k < rest.len() {
                    assert(all[k] == rest[k]);
                }
            }
            assert forall|k1: int, k2: int| 0 <= k1 < k2 < all.len() implies {
                &&& (#[trigger] all[k1]).0 < (#[trigger] all[k2]).0
                &&& all[k1].1 != all[k2].1
            } by {
                assert(all[k1] == rest[k1]);
                if k2 < rest.len() {
                    assert(all[k2] == rest[k2]);
                } else {
                    let i1 = rest[k1].0 as int;
                    assert(assignment[i1] == Some(rest[k1].1));
                    assert(i1 < last);
                    assert(assignment[i1] is Some && assignment[last] is Some);
                }
            }
        } else {
            assert(all == rest);
        }
    }
}

// ---------------------------------------------------------------------------
// Additions, deletions and dependency changes
// ---------------------------------------------------------------------------

/// The ids of `ids`, in order, that `matched` does not hold.
pub open spec fn unmatched_ids(ids: Seq<Seq<char>>, matched: Seq<Seq<char>>) -> Seq<Seq<char>>
    decreases ids.len(),
{
    if ids.len() == 0 {
        Seq::empty()
    } else {
        let rest = unmatched_ids(ids.drop_last(), matched);
        if matched.contains(ids.last()) { rest } else { rest.push(ids.last()) }
    }
}

/// An id is left unmatched exactly when `ids` holds it and `matched` does not.
pub proof fn lemma_unmatched_ids_members(ids: Seq<Seq<char>>, matched: Seq<Seq<char>>)
    ensures
        forall|x: Seq<char>| #[trigger] unmatched_ids(ids, matched).contains(x) <==> (ids.contains(x) && !matched.contains(x)),
    decreases ids.len(),
{
    if ids.len() > 0 {
        let init = ids.drop_last();
        lemma_unmatched_ids_members(init, matched);
        crate::text::lemma_contains_push(init, ids.last());
        crate::text::lemma_contains_push(unmatched_ids(init, matched), ids.last());
        assert(init.push(ids.last()) =~= ids);
    }
}

/// The dependencies of the target are those of the source without the
/// removed ones, together with the added ones.
pub proof fn lemma_dependency_reconciliation(source_deps: Seq<Seq<char>>, target_deps: Seq<Seq<char>>)
    ensures
        forall|x: Seq<char>| #[trigger] target_deps.contains(x) <==> (
            (source_deps.contains(x) && !unmatched_ids(source_deps, target_deps).contains(x))
                || unmatched_ids(target_deps, source_deps).contains(x)),
{
    lemma_unmatched_ids_members(source_deps, target_deps);
    lemma_unmatched_ids_members(target_deps, source_deps);
}

/// A function whose dependencies did not change has no dependency changes.
pub proof fn lemma_unchanged_dependencies(function: Seq<char>, deps: Seq<Seq<char>>)
    ensures
        unmatched_ids(deps, deps) == Seq::<Seq<char>>::empty(),
        dependency_deltas(function, deps, deps) == Seq::<(DependencyChangeType, Seq<char>, Seq<char>)>::empty(),
{
    lemma_unmatched_ids_members(deps, deps);
    let u = unmatched_ids(deps, deps);
    if u.len() > 0 {
        assert(u.contains(u[0]));
    }
    assert(u =~= Seq::<Seq<char>>::empty());
    assert(dependency_deltas(function, deps, deps) =~= Seq::<(DependencyChangeType, Seq<char>, Seq<char>)>::empty());
}

fn contains_string(v: &Vec<String>, s: &String) -> (res: bool)
    ensures
        res == crate::text::string_views(v@).contains(s@),
{
    let ghost sv = crate::text::string_views(v@);
    let mut i: usize = 0;
    while i < v.len()
        invariant
            sv == crate::text::string_views(v@),
            i <= v.len(),
            forall|k: int| 0 <= k < i ==> sv[k] != s@,
        decreases v.len() - i,
    {
        if v[i] == *s {
            assert(sv[i as int] == s@);
            return true;
        }
        i += 1;
    }
    false
}

/// The ids of `ids` that no match holds: the deletions among source
/// functions, or the additions among target functions.
pub fn ids_not_matched(ids: &Vec<String>, matched: &Vec<String>) -> (res: Vec<String>)
    ensures
        crate::text::string_views(res@) == unmatched_ids(crate::text::string_views(ids@), crate::text::string_views(matched@)),
{
    let ghost iv = crate::text::string_views(ids@);
    let ghost mv = crate::text::string_views(matched@);
    let mut res: Vec<String> = Vec::new();
    let mut i: usize = 0;
    while i < ids.len()
        invariant
            iv == crate::text::string_views(ids@),
            mv == crate::text::string_views(matched@),
            i <= ids.len(),
            crate::text::string_views(res@) == unmatched_ids(iv.take(i as int), mv),
        decreases ids.len() - i,
    {
        assert(iv.take(i + 1).drop_last() =~= iv.take(i as int));
        assert(iv.take(i + 1).last() == ids[i as int]@);
        if !contains_string(matched, &ids[i]) {
            res.push(ids[i].clone());
            assert(crate::text::string_views(res@) =~= unmatched_ids(iv.take(i as int), mv).push(ids[i as int]@));
        }
        i += 1;
    }
    assert(iv.take(ids.len() as int) =~= iv);
    res
}

/// A dependency that a matched function gained or lost.
#[derive(Debug, Clone)]
pub struct DependencyDelta {
    pub change_type: DependencyChangeType,
    pub source_function: String,
    pub target_function: String,
}

pub open spec fn delta_view(d: DependencyDelta) -> (DependencyChangeType, Seq<char>, Seq<char>) {
    (d.change_type, d.source_function@, d.target_function@)
}

pub open spec fn delta_views(v: Seq<DependencyDelta>) -> Seq<(DependencyChangeType, Seq<char>, Seq<char>)> {
    Seq::new(v.len(), |j: int| delta_view(v[j]))
}

/// The changes of kind `kind` of `function` towards each of `deps`.
pub open spec fn tagged(kind: DependencyChangeType, function: Seq<char>, deps: Seq<Seq<char>>) -> Seq<(DependencyChangeType, Seq<char>, Seq<char>)> {
    Seq::new(deps.len(), |j: int| (kind, function, deps[j]))
}

/// The dependency changes of the matched function `function`: first each
/// dependency of the target not among those of the source (added), then
/// each dependency of the source not among those of the target (removed).
pub open spec fn dependency_deltas(function: Seq<char>, source_deps: Seq<Seq<char>>, target_deps: Seq<Seq<char>>) -> Seq<(DependencyChangeType, Seq<char>, Seq<char>)> {
    tagged(DependencyChangeType::Added, function, unmatched_ids(target_deps, source_deps))
        + tagged(DependencyChangeType::Removed, function, unmatched_ids(source_deps, target_deps))
}

/// The dependency changes of one matched function.
pub fn dependency_changes(function: &String, source_deps: &Vec<String>, target_deps: &Vec<String>) -> (res: Vec<DependencyDelta>)
    ensures
        delta_views(res@) == dependency_deltas(function@, crate::text::string_views(source_deps@), crate::text::string_views(target_deps@)),
{
    let added = ids_not_matched(target_deps, source_deps);
    let removed = ids_not_matched(source_deps, target_deps);
    let mut res: Vec<DependencyDelta> = Vec::new();
    let mut i: usize = 0;
    while i < added.len()
        invariant
            i <= added.len(),
            res.len() == i,
            delta_views(res@) == tagged(DependencyChangeType::Added, function@, crate::text::string_views(added@).take(i as int)),
        decreases added.len() - i,
    {
        let ghost before = res@;
        res.push(DependencyDelta { change_type: DependencyChangeType::Added, source_function: function.clone(), target_function: added[i].clone() });
        assert(res@ == before.push(res@.last()));
        assert(crate::text::string_views(added@)[i as int] == added@[i as int]@);
        assert(delta_view(res@.last()) == (DependencyChangeType::Added, function@, added@[i as int]@));
        let ghost want = tagged(DependencyChangeType::Added, function@, crate::text::string_views(added@).take(i + 1));
        let ghost had = tagged(DependencyChangeType::Added, function@, crate::text::string_views(added@).take(i as int));
        assert forall|j: int| 0 <= j < i implies delta_views(res@)[j] == want[j] by {
            assert(delta_views(res@)[j] == delta_view(res@[j]));
            assert(res@[j] == before[j]);
            assert(delta_views(before)[j] == had[j]);
        }
        assert(delta_views(res@)[i as int] == want[i as int]);
        assert(delta_views(res@) =~= tagged(DependencyChangeType::Added, function@, crate::text::string_views(added@).take(i + 1)));
        i += 1;
    }
    let ghost first = delta_views(res@);
    assert(crate::text::string_views(added@).take(added.len() as int) =~= crate::text::string_views(added@));
    let mut k: usize = 0;
    while k < removed.len()
        invariant
            k <= removed.len(),
            res.len() == first.len() + k,
            delta_views(res@) == first + tagged(DependencyChangeType::Removed, function@, crate::text::string_views(removed@).take(k as int)),
        decreases removed.len() - k,
    {
        let ghost before = res@;
        res.push(DependencyDelta { change_type: DependencyChangeType::Removed, source_function: function.clone(), target_function: removed[k].clone() });
        assert(res@ == before.push(res@.last()));
        assert(crate::text::string_views(removed@)[k as int] == removed@[k as int]@);
        assert(delta_view(res@.last()) == (DependencyChangeType::Removed, function@, removed@[k as int]@));
        let ghost want = first + tagged(DependencyChangeType::Removed, function@, crate::text::string_views(removed@).take(k + 1));
        let ghost had = first + tagged(DependencyChangeType::Removed, function@, crate::text::string_views(removed@).take(k as int));
        assert forall|j: int| 0 <= j < res.len() - 1 implies delta_views(res@)[j] == want[j] by {
            assert(delta_views(res@)[j] == delta_view(res@[j]));
            assert(res@[j] == before[j]);
            assert(delta_views(before)[j] == had[j]);
        }
        assert(delta_views(res@)[res.len() - 1] == want[res.len() - 1]);
        assert(delta_views(res@) =~= first + tagged(DependencyChangeType::Removed, function@, crate::text::string_views(removed@).take(k + 1)));
        k += 1;
    }
    assert(crate::text::string_views(removed@).take(removed.len() as int) =~= crate::text::string_views(removed@));
    res
}


// ---------------------------------------------------------------------------
// Groups of candidates
// ---------------------------------------------------------------------------

/// The groups of `k` elements of `s`, each in the order of `s`, listed in
/// lexicographic order of positions: first the groups that take `s[0]`,
/// then those that do not.
pub open spec fn combinations(s: Seq<usize>, k: nat) -> Seq<Seq<usize>>
    decreases s.len(),
{
    if k == 0 {
        seq![Seq::<usize>::empty()]
    } else if s.len() < k {
        Seq::empty()
    } else {
        combinations(s.drop_first(), (k - 1) as nat).map_values(|c: Seq<usize>| seq![s[0]] + c)
            + combinations(s.drop_first(), k)
    }
}

/// The number of ways to choose `k` of `n` things.
pub open spec fn binomial(n: nat, k: nat) -> nat
    decreases n,
{
    if k == 0 {
        1
    } else if n == 0 {
        0
    } else {
        binomial((n - 1) as nat, (k - 1) as nat) + binomial((n - 1) as nat, k)
    }
}

proof fn lemma_binomial_zero(n: nat, k: nat)
    requires
        n < k,
    ensures
        binomial(n, k) == 0,
    decreases n,
{
    if n > 0 {
        lemma_binomial_zero((n - 1) as nat, (k - 1) as nat);
        lemma_binomial_zero((n - 1) as nat, k);
    }
}

/// There are as many groups of `k` elements of `s` as ways to choose `k`
/// of its elements, and each group has `k` elements.
pub proof fn lemma_combinations_count(s: Seq<usize>, k: nat)
    ensures
        combinations(s, k).len() == binomial(s.len(), k),
        forall|g: int| 0 <= g < combinations(s, k).len() ==> (#[trigger] combinations(s, k)[g]).len() == k,
    decreases s.len(),
{
    if k == 0 {
    } else if s.len() < k {
        lemma_binomial_zero(s.len(), k);
    } else {
        let rest = s.drop_first();
        lemma_combinations_count(rest, (k - 1) as nat);
        lemma_combinations_count(rest, k);
        let with = combinations(rest, (k - 1) as nat).map_values(|c: Seq<usize>| seq![s[0]] + c);
        let without = combinations(rest, k);
        assert forall|g: int| 0 <= g < combinations(s, k).len() implies (#[trigger] combinations(s, k)[g]).len() == k by {
            if g < with.len() {
                assert(combinations(s, k)[g] == with[g]);
                assert(with[g] == seq![s[0]] + combinations(rest, (k - 1) as nat)[g]);
            } else {
                assert(combinations(s, k)[g] == without[g - with.len()]);
            }
        }
    }
}

/// The contents of each group.
pub open spec fn group_views(v: Seq<Vec<usize>>) -> Seq<Seq<usize>> {
    Seq::new(v.len(), |i: int| v[i]@)
}

fn prepend(head: usize, group: &Vec<usize>) -> (res: Vec<usize>)
    ensures
        res@ == seq![head] + group@,
{
    let mut g: Vec<usize> = Vec::new();
    g.push(head);
    let mut j: usize = 0;
    while j < group.len()
        invariant
            j <= group.len(),
            g@ == seq![head] + group@.take(j as int),
        decreases group.len() - j,
    {
        g.push(group[j]);
        assert(group@.take(j + 1) =~= group@.take(j as int).push(group@[j as int]));
        j += 1;
    }
    assert(group@.take(j as int) =~= group@);
    g
}

fn prefixed(head: usize, groups: Vec<Vec<usize>>) -> (res: Vec<Vec<usize>>)
    ensures
        group_views(res@) == group_views(groups@).map_values(|c: Seq<usize>| seq![head] + c),
{
    let ghost gv = group_views(groups@);
    let mut res: Vec<Vec<usize>> = Vec::new();
    let mut i: usize = 0;
    while i < groups.len()
        invariant
            gv == group_views(groups@),
            i <= groups.len(),
            res.len() == i,
            group_views(res@) == gv.take(i as int).map_values(|c: Seq<usize>| seq![head] + c),
        decreases groups.len() - i,
    {
        let g = prepend(head, &groups[i]);
        let ghost before = res@;
        res.push(g);
        assert(gv[i as int] == groups[i as int]@);
        assert(group_views(res@) =~= gv.take(i + 1).map_values(|c: Seq<usize>| seq![head] + c)) by {
            assert(gv.take(i + 1) =~= gv.take(i as int).push(gv[i as int]));
            assert forall|q: int| 0 <= q < i implies #[trigger] res@[q] == before[q] by {}
            assert forall|q: int| 0 <= q < i implies #[trigger] group_views(res@)[q] == group_views(before)[q] by {}
        }
        i += 1;
    }
    assert(gv.take(groups.len() as int) =~= gv);
    res
}

fn combinations_from(s: &Vec<usize>, from: usize, k: usize) -> (res: Vec<Vec<usize>>)
    requires
        from <= s.len(),
    ensures
        group_views(res@) == combinations(s@.skip(from as int), k as nat),
    decreases s.len() - from,
{
    if k == 0 {
        let res: Vec<Vec<usize>> = vec![Vec::new()];
        assert(res@[0]@ =~= Seq::<usize>::empty());
        assert(group_views(res@) =~= seq![Seq::<usize>::empty()]);
        return res;
    }
    if s.len() - from < k {
        let res: Vec<Vec<usize>> = Vec::new();
        assert(group_views(res@) =~= Seq::<Seq<usize>>::empty());
        return res;
    }
    let ghost rest = s@.skip(from as int);
    assert(rest.drop_first() =~= s@.skip(from + 1));
    let taking = prefixed(s[from], combinations_from(s, from + 1, k - 1));
    let mut res = taking;
    let mut without = combinations_from(s, from + 1, k);
    let ghost a = res@;
    let ghost b = without@;
    res.append(&mut without);
    assert(res@ =~= a + b);
    assert(group_views(res@) =~= group_views(a) + group_views(b));
    res
}

/// The groups of `size` indices of `indices` that many-to-many matching
/// tries, in lexicographic order of positions; none for a size of 0 or
/// above the number of indices.
pub fn generate_combinations(indices: &Vec<usize>, size: usize) -> (res: Vec<Vec<usize>>)
    ensures
        group_views(res@) == (if size == 0 { Seq::<Seq<usize>>::empty() } else { combinations(indices@, size as nat) }),
{
    if size == 0 || size > indices.len() {
        let res: Vec<Vec<usize>> = Vec::new();
        proof {
            if size > 0 {
                assert(indices@.len() < size);
            }
        }
        assert(group_views(res@) =~= Seq::<Seq<usize>>::empty());
        return res;
    }
    assert(indices@.skip(0) =~= indices@);
    combinations_from(indices, 0, size)
}

} // verus!
