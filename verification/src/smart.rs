//! Function matching: after sources have been paired with targets (by
//! score), the changes that the pairing implies, and the errors of the diff
//! engine.
use vstd::prelude::*;
use crate::changes::ChangeType;
use crate::text::str_eq;

verus! {

/// A function as the smart matcher refers to it.
#[derive(Debug, Clone)]
pub struct FunctionRef {
    pub name: String,
    pub file_path: String,
}

/// What the scores said of a matched pair: whether it is identical
/// (similarity 1), and whether it is very similar (above 0.9).
#[derive(Debug, Clone, Copy, PartialEq, Eq, Structural)]
pub struct MatchVerdict {
    pub identical: bool,
    pub very_similar: bool,
}

/// The kind of change of a matched pair: the same name in another file is
/// a cross-file move; another name, when very similar, a rename; otherwise
/// another file is a move, and the rest a modification.
pub open spec fn smart_change_kind(same_file: bool, same_name: bool, very_similar: bool) -> ChangeType {
    if !same_file && same_name {
        ChangeType::CrossFileMove
    } else if !same_name && very_similar {
        ChangeType::Rename
    } else if !same_file {
        ChangeType::Move
    } else {
        ChangeType::Modify
    }
}

/// How a matched pair is classified: a rename only between different
/// names, and exactly when they are very similar; a function keeping its
/// name and file is modified, one keeping its name in another file moved
/// across files; different names that are not very similar are a move
/// between files and a modification within one.
pub proof fn lemma_smart_change_kind_laws(same_file: bool, same_name: bool, very_similar: bool)
    ensures
        (smart_change_kind(same_file, same_name, very_similar) == ChangeType::Rename) <==> (!same_name && very_similar),
        same_name && same_file ==> smart_change_kind(same_file, same_name, very_similar) == ChangeType::Modify,
        same_name && !same_file ==> smart_change_kind(same_file, same_name, very_similar) == ChangeType::CrossFileMove,
        !same_name && !very_similar && !same_file ==> smart_change_kind(same_file, same_name, very_similar) == ChangeType::Move,
        !same_name && !very_similar && same_file ==> smart_change_kind(same_file, same_name, very_similar) == ChangeType::Modify,
{
}

/// The kind of change of a matched pair of functions.
pub fn classify_change_type(source: &FunctionRef, target: &FunctionRef, very_similar: bool) -> (res: ChangeType)
    ensures
        res == smart_change_kind(source.file_path@ == target.file_path@, source.name@ == target.name@, very_similar),
        res == ChangeType::Rename <==> (source.name@ != target.name@ && very_similar),
        source.name@ == target.name@ && source.file_path@ == target.file_path@ ==> res == ChangeType::Modify,
        source.name@ == target.name@ && source.file_path@ != target.file_path@ ==> res == ChangeType::CrossFileMove,
        source.name@ != target.name@ && !very_similar ==> (res == ChangeType::Move <==> source.file_path@ != target.file_path@),
        source.name@ != target.name@ && !very_similar ==> (res == ChangeType::Modify <==> source.file_path@ == target.file_path@),
{
    proof {
        lemma_smart_change_kind_laws(source.file_path@ == target.file_path@, source.name@ == target.name@, very_similar);
    }
    let same_file = str_eq(source.file_path.as_str(), target.file_path.as_str());
    let same_name = str_eq(source.name.as_str(), target.name.as_str());
    if !same_file && same_name {
        ChangeType::CrossFileMove
    } else if !same_name && very_similar {
        ChangeType::Rename
    } else if !same_file {
        ChangeType::Move
    } else {
        ChangeType::Modify
    }
}

pub open spec fn change_word(t: ChangeType) -> Seq<char> {
    match t {
        ChangeType::Modify => "modified"@,
        ChangeType::Rename => "renamed"@,
        ChangeType::Move => "moved"@,
        ChangeType::CrossFileMove => "moved to different file"@,
        _ => "changed"@,
    }
}

/// The word that describes a kind of change.
pub fn change_type_description(t: ChangeType) -> (res: &'static str)
    ensures
        res@ == change_word(t),
{
    match t {
        ChangeType::Modify => "modified",
        ChangeType::Rename => "renamed",
        ChangeType::Move => "moved",
        ChangeType::CrossFileMove => "moved to different file",
        _ => "changed",
    }
}

/// A change found by smart matching.
#[derive(Debug, Clone, Copy, PartialEq, Eq, Structural)]
pub enum FunctionChange {
    /// Source function `source` became target function `target`.
    Changed { source: usize, target: usize, kind: ChangeType },
    /// Source function `source` has no counterpart.
    Deleted { source: usize },
    /// Target function `target` has no counterpart.
    Added { target: usize },
}

/// The changes of the sources, in order: a change for each pair that is not
/// identical, a deletion for each source without a pair.
pub open spec fn source_changes(
    assignment: Seq<Option<usize>>,
    verdicts: Seq<MatchVerdict>,
    sources: Seq<FunctionRef>,
    targets: Seq<FunctionRef>,
) -> Seq<FunctionChange>
    decreases assignment.len(),
{
    if assignment.len() == 0 {
        Seq::empty()
    } else {
        let i = assignment.len() - 1;
        let rest = source_changes(assignment.drop_last(), verdicts, sources, targets);
        match assignment[i] {
            Some(j) => if verdicts[i].identical {
                rest
            } else {
                rest.push(FunctionChange::Changed {
                    source: i as usize,
                    target: j,
                    kind: smart_change_kind(
                        sources[i].file_path@ == targets[j as int].file_path@,
                        sources[i].name@ == targets[j as int].name@,
                        verdicts[i].very_similar,
                    ),
                })
            },
            None => rest.push(FunctionChange::Deleted { source: i as usize }),
        }
    }
}

/// The additions: one per unmatched target, in order.
pub open spec fn additions(unmatched_targets: Seq<usize>) -> Seq<FunctionChange> {
    Seq::new(unmatched_targets.len(), |k: int| FunctionChange::Added { target: unmatched_targets[k] })
}

/// What the kind of a planned change says of the pair: a rename exactly when
/// the names differ and the pair is very similar, a modification when name
/// and file are kept, a cross-file move when the name is kept in another file.
pub open spec fn kind_reads_right(s: FunctionRef, t: FunctionRef, very_similar: bool, kind: ChangeType) -> bool {
    &&& (kind == ChangeType::Rename) == (s.name@ != t.name@ && very_similar)
    &&& (s.name@ == t.name@ && s.file_path@ == t.file_path@) ==> kind == ChangeType::Modify
    &&& (s.name@ == t.name@ && s.file_path@ != t.file_path@) ==> kind == ChangeType::CrossFileMove
}

/// What the planned changes of the sources are: each change of a pair names
/// a source paired with that target and not identical to it, with a kind
/// that reads right; each deletion names a source without a pair; nothing
/// is added.  Conversely every source without a pair is deleted, every pair
/// that is not identical is changed, and an identical pair gives no change.
pub proof fn lemma_source_changes_laws(
    assignment: Seq<Option<usize>>,
    verdicts: Seq<MatchVerdict>,
    sources: Seq<FunctionRef>,
    targets: Seq<FunctionRef>,
)
    requires
        assignment.len() <= sources.len(),
        assignment.len() <= verdicts.len(),
        assignment.len() <= usize::MAX,
        forall|i: int| 0 <= i < assignment.len() && (#[trigger] assignment[i]) is Some ==> assignment[i]->0 < targets.len(),
    ensures
        forall|k: int| 0 <= k < source_changes(assignment, verdicts, sources, targets).len() ==> {
            let c = #[trigger] source_changes(assignment, verdicts, sources, targets)[k];
            match c {
                FunctionChange::Changed { source, target, kind } => {
                    &&& source < assignment.len()
                    &&& assignment[source as int] == Some(target)
                    &&& !verdicts[source as int].identical
                    &&& kind_reads_right(sources[source as int], targets[target as int], verdicts[source as int].very_similar, kind)
                },
                FunctionChange::Deleted { source } => source < assignment.len() && assignment[source as int] is None,
                FunctionChange::Added { .. } => false,
            }
        },
        forall|i: int| 0 <= i < assignment.len() && #[trigger] assignment[i] is None
            ==> source_changes(assignment, verdicts, sources, targets).contains(FunctionChange::Deleted { source: i as usize }),
        forall|i: int| 0 <= i < assignment.len() && #[trigger] assignment[i] is Some && !verdicts[i].identical
            ==> exists|k: int| 0 <= k < source_changes(assignment, verdicts, sources, targets).len()
                && (#[trigger] source_changes(assignment, verdicts, sources, targets)[k] matches FunctionChange::Changed { source, target, .. }
                && source == i && Some(target) == assignment[i]),
        forall|i: int, k: int| 0 <= i < assignment.len() && #[trigger] assignment[i] is Some && verdicts[i].identical
            && 0 <= k < source_changes(assignment, verdicts, sources, targets).len() ==> match #[trigger] source_changes(
                assignment,
                verdicts,
                sources,
                targets,
            )[k] {
                FunctionChange::Changed { source, .. } => source != i,
                FunctionChange::Deleted { source } => source != i,
                FunctionChange::Added { .. } => true,
            },
    decreases assignment.len(),
{
    if assignment.len() > 0 {
        let n = assignment.len() - 1;
        let prev = assignment.drop_last();
        assert forall|i: int| 0 <= i < prev.len() && (#[trigger] prev[i]) is Some implies prev[i]->0 < targets.len() by {
            assert(prev[i] == assignment[i]);
        }
        lemma_source_changes_laws(prev, verdicts, sources, targets);
        let rest = source_changes(prev, verdicts, sources, targets);
        let all = source_changes(assignment, verdicts, sources, targets);
        match assignment[n] {
            Some(j) => {
                lemma_smart_change_kind_laws(
                    sources[n].file_path@ == targets[j as int].file_path@,
                    sources[n].name@ == targets[j as int].name@,
                    verdicts[n].very_similar,
                );
            },
            None => {},
        }
        assert forall|k: int| 0 <= k < rest.len() implies all[k] == rest[k] by {}
        assert forall|i: int| 0 <= i < assignment.len() && #[trigger] assignment[i] is None implies all.contains(
            FunctionChange::Deleted { source: i as usize },
        ) by {
            if i < n {
                assert(prev[i] == assignment[i]);
                let k = choose|k: int| 0 <= k < rest.len() && rest[k] == FunctionChange::Deleted { source: i as usize };
                assert(all[k] == rest[k]);
            } else {
                assert(all[all.len() - 1] == FunctionChange::Deleted { source: i as usize });
            }
        }
        assert forall|i: int| 0 <= i < assignment.len() && #[trigger] assignment[i] is Some && !verdicts[i].identical implies exists|k: int|
            0 <= k < all.len() && (#[trigger] all[k] matches FunctionChange::Changed { source, target, .. } && source == i
                && Some(target) == assignment[i]) by {
            if i < n {
                assert(prev[i] == assignment[i]);
                let k = choose|k: int| 0 <= k < rest.len() && (#[trigger] rest[k] matches FunctionChange::Changed { source, target, .. }
                    && source == i && Some(target) == prev[i]);
                assert(all[k] == rest[k]);
            } else {
                assert(all[all.len() - 1] matches FunctionChange::Changed { source, target, .. } && source == i
                    && Some(target) == assignment[i]);
            }
        }
        assert forall|i: int, k: int| 0 <= i < assignment.len() && #[trigger] assignment[i] is Some && verdicts[i].identical
            && 0 <= k < all.len() implies match #[trigger] all[k] {
                FunctionChange::Changed { source, .. } => source != i,
                FunctionChange::Deleted { source } => source != i,
                FunctionChange::Added { .. } => true,
            } by {
            if k < rest.len() {
                assert(all[k] == rest[k]);
                if i < n {
                    assert(prev[i] == assignment[i]);
                } else {
                    match rest[k] {
                        FunctionChange::Changed { source, .. } => {},
                        FunctionChange::Deleted { source } => {},
                        FunctionChange::Added { .. } => {},
                    }
                }
            }
        }
    }
}

/// The changes that a pairing of source with target functions implies: the
/// changes of the sources in order, then the additions.
pub fn plan_function_changes(
    sources: &Vec<FunctionRef>,
    targets: &Vec<FunctionRef>,
    assignment: &Vec<Option<usize>>,
    verdicts: &Vec<MatchVerdict>,
    unmatched_targets: &Vec<usize>,
) -> (res: Vec<FunctionChange>)
    requires
        assignment.len() <= sources.len(),
        assignment.len() <= verdicts.len(),
        forall|i: int| 0 <= i < assignment.len() && (#[trigger] assignment[i]) is Some ==> assignment[i]->0 < targets.len(),
    ensures
        res@ == source_changes(assignment@, verdicts@, sources@, targets@) + additions(unmatched_targets@),
        forall|k: int| 0 <= k < res.len() ==> match #[trigger] res@[k] {
            FunctionChange::Changed { source, target, kind } => {
                &&& source < assignment.len()
                &&& assignment@[source as int] == Some(target)
                &&& !verdicts@[source as int].identical
                &&& kind_reads_right(sources@[source as int], targets@[target as int], verdicts@[source as int].very_similar, kind)
            },
            FunctionChange::Deleted { source } => source < assignment.len() && assignment@[source as int] is None,
            FunctionChange::Added { target } => unmatched_targets@.contains(target),
        },
        forall|i: int| 0 <= i < assignment.len() && #[trigger] assignment@[i] is None
            ==> res@.contains(FunctionChange::Deleted { source: i as usize }),
        forall|i: int| 0 <= i < unmatched_targets.len() ==> res@.contains(
            FunctionChange::Added { target: #[trigger] unmatched_targets@[i] },
        ),
{
    proof {
        lemma_source_changes_laws(assignment@, verdicts@, sources@, targets@);
    }
    let mut res: Vec<FunctionChange> = Vec::new();
    let mut i: usize = 0;
    while i < assignment.len()
        invariant
            assignment.len() <= sources.len(),
            assignment.len() <= verdicts.len(),
            forall|k: int| 0 <= k < assignment.len() && (#[trigger] assignment[k]) is Some ==> assignment[k]->0 < targets.len(),
            i <= assignment.len(),
            res@ == source_changes(assignment@.take(i as int), verdicts@, sources@, targets@),
        decreases assignment.len() - i,
    {
        let ghost t = assignment@.take(i + 1);
        assert(t.drop_last() =~= assignment@.take(i as int));
        assert(t[i as int] == assignment@[i as int]);
        match assignment[i] {
            Some(j) => {
                if !verdicts[i].identical {
                    let kind = classify_change_type(&sources[i], &targets[j], verdicts[i].very_similar);
                    res.push(FunctionChange::Changed { source: i, target: j, kind });
                }
            },
            None => {
                res.push(FunctionChange::Deleted { source: i });
            },
        }
        i += 1;
    }
    assert(assignment@.take(assignment.len() as int) =~= assignment@);
    let ghost first = res@;
    let mut k: usize = 0;
    while k < unmatched_targets.len()
        invariant
            k <= unmatched_targets.len(),
            res@ == first + additions(unmatched_targets@.take(k as int)),
        decreases unmatched_targets.len() - k,
    {
        res.push(FunctionChange::Added { target: unmatched_targets[k] });
        assert(additions(unmatched_targets@.take(k + 1)) =~= additions(unmatched_targets@.take(k as int)).push(
            FunctionChange::Added { target: unmatched_targets@[k as int] },
        ));
        k += 1;
    }
    assert(unmatched_targets@.take(unmatched_targets.len() as int) =~= unmatched_targets@);
    proof {
        let sc = source_changes(assignment@, verdicts@, sources@, targets@);
        let ad = additions(unmatched_targets@);
        assert forall|k: int| 0 <= k < res.len() implies match #[trigger] res@[k] {
            FunctionChange::Changed { source, target, kind } => {
                &&& source < assignment.len()
                &&& assignment@[source as int] == Some(target)
                &&& !verdicts@[source as int].identical
                &&& kind_reads_right(sources@[source as int], targets@[target as int], verdicts@[source as int].very_similar, kind)
            },
            FunctionChange::Deleted { source } => source < assignment.len() && assignment@[source as int] is None,
            FunctionChange::Added { target } => unmatched_targets@.contains(target),
        } by {
            if k < sc.len() {
                assert(res@[k] == sc[k]);
            } else {
                assert(res@[k] == ad[k - sc.len()]);
                assert(unmatched_targets@[k - sc.len()] == unmatched_targets@[k - sc.len()]);
            }
        }
        assert forall|i: int| 0 <= i < assignment.len() && #[trigger] assignment@[i] is None implies res@.contains(
            FunctionChange::Deleted { source: i as usize },
        ) by {
            let k = choose|k: int| 0 <= k < sc.len() && sc[k] == FunctionChange::Deleted { source: i as usize };
            assert(res@[k] == sc[k]);
        }
        assert forall|i: int| 0 <= i < unmatched_targets.len() implies res@.contains(
            FunctionChange::Added { target: #[trigger] unmatched_targets@[i] },
        ) by {
            assert(res@[sc.len() + i] == ad[i]);
        }
    }
    res
}

// ---------------------------------------------------------------------------
// Changes of a one-to-one matching
// ---------------------------------------------------------------------------

/// A source or target index that no pair of `pairs` holds on its side.
pub open spec fn paired(pairs: Seq<(usize, usize)>, k: int, source_side: bool) -> bool {
    exists|m: int| 0 <= m < pairs.len() && (if source_side { pairs[m].0 } else { pairs[m].1 }) == k
}

/// The indices below `count`, in order, that no pair holds on its side.
pub open spec fn unpaired_upto(pairs: Seq<(usize, usize)>, count: int, source_side: bool) -> Seq<usize>
    decreases count,
{
    if count <= 0 {
        Seq::empty()
    } else {
        let rest = unpaired_upto(pairs, count - 1, source_side);
        if paired(pairs, count - 1, source_side) { rest } else { rest.push((count - 1) as usize) }
    }
}

/// An index is listed as unpaired exactly when it is below `count` and no
/// pair holds it; the list is strictly increasing, so none is listed twice.
pub proof fn lemma_unpaired_members(pairs: Seq<(usize, usize)>, count: int, source_side: bool)
    requires
        count <= usize::MAX + 1,
    ensures
        forall|k: usize| #[trigger] unpaired_upto(pairs, count, source_side).contains(k)
            <==> (k < count && !paired(pairs, k as int, source_side)),
        forall|a: int, b: int| 0 <= a < b < unpaired_upto(pairs, count, source_side).len()
            ==> unpaired_upto(pairs, count, source_side)[a] < unpaired_upto(pairs, count, source_side)[b],
        forall|a: int| 0 <= a < unpaired_upto(pairs, count, source_side).len()
            ==> unpaired_upto(pairs, count, source_side)[a] < count,
    decreases count,
{
    if count > 0 {
        let rest = unpaired_upto(pairs, count - 1, source_side);
        lemma_unpaired_members(pairs, count - 1, source_side);
        crate::text::lemma_contains_push(rest, (count - 1) as usize);
    }
}

fn is_paired(pairs: &Vec<(usize, usize)>, k: usize, source_side: bool) -> (res: bool)
    ensures
        res == paired(pairs@, k as int, source_side),
{
    let mut m: usize = 0;
    while m < pairs.len()
        invariant
            m <= pairs.len(),
            forall|q: int| 0 <= q < m ==> (if source_side { pairs@[q].0 } else { pairs@[q].1 }) != k,
        decreases pairs.len() - m,
    {
        let hit = if source_side { pairs[m].0 == k } else { pairs[m].1 == k };
        if hit {
            return true;
        }
        m += 1;
    }
    false
}

/// The indices below `count` that no pair holds on the source side (or on
/// the target side), in order.
pub fn unpaired_indices(pairs: &Vec<(usize, usize)>, count: usize, source_side: bool) -> (res: Vec<usize>)
    ensures
        res@ == unpaired_upto(pairs@, count as int, source_side),
{
    let mut res: Vec<usize> = Vec::new();
    let mut k: usize = 0;
    while k < count
        invariant
            k <= count,
            res@ == unpaired_upto(pairs@, k as int, source_side),
        decreases count - k,
    {
        if !is_paired(pairs, k, source_side) {
            res.push(k);
        }
        k += 1;
    }
    res
}

/// The changes that a matching of pairs implies: a modification for each
/// pair that is not identical (`identical[m]` for pair `m`), in pair order;
/// then a deletion for each unpaired source and an addition for each
/// unpaired target, in index order.
pub open spec fn matching_changes(
    pairs: Seq<(usize, usize)>,
    identical: Seq<bool>,
    source_count: int,
    target_count: int,
) -> Seq<FunctionChange> {
    modifications(pairs, identical)
        + unpaired_upto(pairs, source_count, true).map_values(|i: usize| FunctionChange::Deleted { source: i })
        + unpaired_upto(pairs, target_count, false).map_values(|j: usize| FunctionChange::Added { target: j })
}

pub open spec fn modifications(pairs: Seq<(usize, usize)>, identical: Seq<bool>) -> Seq<FunctionChange>
    decreases pairs.len(),
{
    if pairs.len() == 0 {
        Seq::empty()
    } else {
        let rest = modifications(pairs.drop_last(), identical);
        let m = pairs.len() - 1;
        if identical[m] {
            rest
        } else {
            rest.push(FunctionChange::Changed { source: pairs[m].0, target: pairs[m].1, kind: ChangeType::Modify })
        }
    }
}

/// Each change made of the pairs is a modification of a pair that is not
/// identical, and each pair that is not identical is modified.
pub proof fn lemma_modifications_laws(pairs: Seq<(usize, usize)>, identical: Seq<bool>)
    requires
        pairs.len() <= identical.len(),
    ensures
        forall|k: int| 0 <= k < modifications(pairs, identical).len() ==> (#[trigger] modifications(pairs, identical)[k] matches FunctionChange::Changed { source, target, kind }
            && kind == ChangeType::Modify && exists|m: int| 0 <= m < pairs.len() && #[trigger] pairs[m] == (source, target) && !identical[m]),
        forall|m: int| 0 <= m < pairs.len() && !identical[m] ==> modifications(pairs, identical).contains(
            FunctionChange::Changed { source: (#[trigger] pairs[m]).0, target: pairs[m].1, kind: ChangeType::Modify },
        ),
    decreases pairs.len(),
{
    if pairs.len() > 0 {
        let prev = pairs.drop_last();
        lemma_modifications_laws(prev, identical);
        let rest = modifications(prev, identical);
        let all = modifications(pairs, identical);
        let n = pairs.len() - 1;
        assert forall|k: int| 0 <= k < all.len() implies (#[trigger] all[k] matches FunctionChange::Changed { source, target, kind }
            && kind == ChangeType::Modify && exists|m: int| 0 <= m < pairs.len() && #[trigger] pairs[m] == (source, target) && !identical[m]) by {
            if k < rest.len() {
                assert(all[k] == rest[k]);
                if let FunctionChange::Changed { source, target, kind } = rest[k] {
                    let m = choose|m: int| 0 <= m < prev.len() && #[trigger] prev[m] == (source, target) && !identical[m];
                    assert(pairs[m] == prev[m]);
                }
            } else {
                assert(pairs[n] == (pairs[n].0, pairs[n].1));
            }
        }
        assert forall|m: int| 0 <= m < pairs.len() && !identical[m] implies all.contains(
            FunctionChange::Changed { source: (#[trigger] pairs[m]).0, target: pairs[m].1, kind: ChangeType::Modify },
        ) by {
            if m < n {
                assert(prev[m] == pairs[m]);
                let k = choose|k: int| 0 <= k < rest.len() && rest[k] == FunctionChange::Changed {
                    source: prev[m].0,
                    target: prev[m].1,
                    kind: ChangeType::Modify,
                };
                assert(all[k] == rest[k]);
            } else {
                assert(all[all.len() - 1] == FunctionChange::Changed { source: pairs[m].0, target: pairs[m].1, kind: ChangeType::Modify });
            }
        }
    }
}

/// The changes implied by a matching of pairs.
pub fn plan_matched_changes(
    pairs: &Vec<(usize, usize)>,
    identical: &Vec<bool>,
    source_count: usize,
    target_count: usize,
) -> (res: Vec<FunctionChange>)
    requires
        pairs.len() <= identical.len(),
    ensures
        res@ == matching_changes(pairs@, identical@, source_count as int, target_count as int),
        forall|k: int| 0 <= k < res.len() ==> match #[trigger] res@[k] {
            FunctionChange::Changed { source, target, kind } => kind == ChangeType::Modify && exists|m: int|
                0 <= m < pairs.len() && #[trigger] pairs@[m] == (source, target) && !identical@[m],
            FunctionChange::Deleted { source } => source < source_count && !paired(pairs@, source as int, true),
            FunctionChange::Added { target } => target < target_count && !paired(pairs@, target as int, false),
        },
        forall|m: int| 0 <= m < pairs.len() && !identical@[m] ==> res@.contains(
            FunctionChange::Changed { source: (#[trigger] pairs@[m]).0, target: pairs@[m].1, kind: ChangeType::Modify },
        ),
        forall|i: usize| i < source_count && !paired(pairs@, i as int, true) ==> #[trigger] res@.contains(
            FunctionChange::Deleted { source: i },
        ),
        forall|j: usize| j < target_count && !paired(pairs@, j as int, false) ==> #[trigger] res@.contains(
            FunctionChange::Added { target: j },
        ),
{
    let mut res: Vec<FunctionChange> = Vec::new();
    let mut m: usize = 0;
    while m < pairs.len()
        invariant
            pairs.len() <= identical.len(),
            m <= pairs.len(),
            res@ == modifications(pairs@.take(m as int), identical@),
        decreases pairs.len() - m,
    {
        assert(pairs@.take(m + 1).drop_last() =~= pairs@.take(m as int));
        assert(pairs@.take(m + 1)[m as int] == pairs@[m as int]);
        if !identical[m] {
            res.push(FunctionChange::Changed { source: pairs[m].0, target: pairs[m].1, kind: ChangeType::Modify });
        }
        m += 1;
    }
    assert(pairs@.take(pairs.len() as int) =~= pairs@);
    let ghost mods = res@;
    let deleted = unpaired_indices(pairs, source_count, true);
    let mut k: usize = 0;
    while k < deleted.len()
        invariant
            k <= deleted.len(),
            res@ == mods + deleted@.take(k as int).map_values(|i: usize| FunctionChange::Deleted { source: i }),
        decreases deleted.len() - k,
    {
        res.push(FunctionChange::Deleted { source: deleted[k] });
        assert(deleted@.take(k + 1).map_values(|i: usize| FunctionChange::Deleted { source: i })
            =~= deleted@.take(k as int).map_values(|i: usize| FunctionChange::Deleted { source: i }).push(FunctionChange::Deleted { source: deleted@[k as int] }));
        k += 1;
    }
    assert(deleted@.take(deleted.len() as int) =~= deleted@);
    let ghost with_deleted = res@;
    let added = unpaired_indices(pairs, target_count, false);
    let mut k: usize = 0;
    while k < added.len()
        invariant
            k <= added.len(),
            res@ == with_deleted + added@.take(k as int).map_values(|j: usize| FunctionChange::Added { target: j }),
        decreases added.len() - k,
    {
        res.push(FunctionChange::Added { target: added[k] });
        assert(added@.take(k + 1).map_values(|j: usize| FunctionChange::Added { target: j })
            =~= added@.take(k as int).map_values(|j: usize| FunctionChange::Added { target: j }).push(FunctionChange::Added { target: added@[k as int] }));
        k += 1;
    }
    assert(added@.take(added.len() as int) =~= added@);
    proof {
        let mo = modifications(pairs@, identical@);
        let de = deleted@.map_values(|i: usize| FunctionChange::Deleted { source: i });
        let ad = added@.map_values(|j: usize| FunctionChange::Added { target: j });
        lemma_modifications_laws(pairs@, identical@);
        lemma_unpaired_members(pairs@, source_count as int, true);
        lemma_unpaired_members(pairs@, target_count as int, false);
        assert(res@ == mo + de + ad);
        assert forall|k: int| 0 <= k < res.len() implies match #[trigger] res@[k] {
            FunctionChange::Changed { source, target, kind } => kind == ChangeType::Modify && exists|m: int|
                0 <= m < pairs.len() && #[trigger] pairs@[m] == (source, target) && !identical@[m],
            FunctionChange::Deleted { source } => source < source_count && !paired(pairs@, source as int, true),
            FunctionChange::Added { target } => target < target_count && !paired(pairs@, target as int, false),
        } by {
            if k < mo.len() {
                assert(res@[k] == mo[k]);
            } else if k < mo.len() + de.len() {
                assert(res@[k] == de[k - mo.len()]);
                assert(deleted@.contains(deleted@[k - mo.len()]));
            } else {
                assert(res@[k] == ad[k - mo.len() - de.len()]);
                assert(added@.contains(added@[k - mo.len() - de.len()]));
            }
        }
        assert forall|m: int| 0 <= m < pairs.len() && !identical@[m] implies res@.contains(
            FunctionChange::Changed { source: (#[trigger] pairs@[m]).0, target: pairs@[m].1, kind: ChangeType::Modify },
        ) by {
            let c = FunctionChange::Changed { source: pairs@[m].0, target: pairs@[m].1, kind: ChangeType::Modify };
            let k = choose|k: int| 0 <= k < mo.len() && mo[k] == c;
            assert(res@[k] == mo[k]);
        }
        assert forall|i: usize| i < source_count && !paired(pairs@, i as int, true) implies #[trigger] res@.contains(
            FunctionChange::Deleted { source: i },
        ) by {
            assert(deleted@.contains(i));
            let q = choose|q: int| 0 <= q < deleted@.len() && deleted@[q] == i;
            assert(res@[mo.len() + q] == de[q]);
        }
        assert forall|j: usize| j < target_count && !paired(pairs@, j as int, false) implies #[trigger] res@.contains(
            FunctionChange::Added { target: j },
        ) by {
            assert(added@.contains(j));
            let q = choose|q: int| 0 <= q < added@.len() && added@[q] == j;
            assert(res@[mo.len() + de.len() + q] == ad[q]);
        }
    }
    res
}

// ---------------------------------------------------------------------------
// Statistics of a comparison
// ---------------------------------------------------------------------------

/// The counts of a comparison of functions.
#[derive(Debug, Clone, Copy, PartialEq, Eq, Structural)]
pub struct DiffCounts {
    pub functions_compared: usize,
    pub functions_matched: usize,
    pub functions_added: usize,
    pub functions_removed: usize,
    pub functions_modified: usize,
}

/// The number of changes of `cs` that `pick` selects.
pub open spec fn count_changes(cs: Seq<FunctionChange>, pick: spec_fn(FunctionChange) -> bool) -> nat
    decreases cs.len(),
{
    if cs.len() == 0 {
        0
    } else {
        count_changes(cs.drop_last(), pick) + if pick(cs.last()) { 1nat } else { 0nat }
    }
}

pub open spec fn is_added(c: FunctionChange) -> bool {
    c is Added
}

pub open spec fn is_deleted(c: FunctionChange) -> bool {
    c is Deleted
}

pub open spec fn is_modification(c: FunctionChange) -> bool {
    c matches FunctionChange::Changed { kind, .. } && kind == ChangeType::Modify
}

proof fn lemma_count_changes_bound(cs: Seq<FunctionChange>, pick: spec_fn(FunctionChange) -> bool)
    ensures
        count_changes(cs, pick) <= cs.len(),
    decreases cs.len(),
{
    if cs.len() > 0 {
        lemma_count_changes_bound(cs.drop_last(), pick);
    }
}

/// The statistics of a comparison of `source_count` with `target_count`
/// functions, `pair_count` of them paired, and the changes it found: the
/// functions compared on both sides, the pairs, and the additions,
/// deletions and modifications among the changes.
pub fn diff_statistics(source_count: usize, target_count: usize, pair_count: usize, changes: &Vec<FunctionChange>) -> (res: DiffCounts)
    requires
        source_count + target_count <= usize::MAX,
    ensures
        res.functions_compared == source_count + target_count,
        res.functions_matched == pair_count,
        res.functions_added == count_changes(changes@, |c: FunctionChange| is_added(c)),
        res.functions_removed == count_changes(changes@, |c: FunctionChange| is_deleted(c)),
        res.functions_modified == count_changes(changes@, |c: FunctionChange| is_modification(c)),
{
    let ghost added = |c: FunctionChange| is_added(c);
    let ghost deleted = |c: FunctionChange| is_deleted(c);
    let ghost modified = |c: FunctionChange| is_modification(c);
    let mut a: usize = 0;
    let mut d: usize = 0;
    let mut m: usize = 0;
    let mut i: usize = 0;
    while i < changes.len()
        invariant
            i <= changes.len(),
            added == (|c: FunctionChange| is_added(c)),
            deleted == (|c: FunctionChange| is_deleted(c)),
            modified == (|c: FunctionChange| is_modification(c)),
            a == count_changes(changes@.take(i as int), added),
            d == count_changes(changes@.take(i as int), deleted),
            m == count_changes(changes@.take(i as int), modified),
        decreases changes.len() - i,
    {
        proof {
            assert(changes@.take(i + 1).drop_last() =~= changes@.take(i as int));
            lemma_count_changes_bound(changes@.take(i as int), added);
            lemma_count_changes_bound(changes@.take(i as int), deleted);
            lemma_count_changes_bound(changes@.take(i as int), modified);
        }
        match changes[i] {
            FunctionChange::Added { .. } => {
                a += 1;
            },
            FunctionChange::Deleted { .. } => {
                d += 1;
            },
            FunctionChange::Changed { kind, .. } => {
                if kind == ChangeType::Modify {
                    m += 1;
                }
            },
        }
        i += 1;
    }
    assert(changes@.take(changes.len() as int) =~= changes@);
    DiffCounts {
        functions_compared: source_count + target_count,
        functions_matched: pair_count,
        functions_added: a,
        functions_removed: d,
        functions_modified: m,
    }
}

// ---------------------------------------------------------------------------
// Errors of the diff engine
// ---------------------------------------------------------------------------

/// Errors of the diff engine.
#[derive(Debug, Clone, PartialEq)]
pub enum DiffError {
    ComparisonFailed(String),
    InvalidInput(String),
    ProcessingError(String),
}

pub open spec fn diff_error_message(e: DiffError) -> Seq<char> {
    match e {
        DiffError::ComparisonFailed(s) => "Comparison failed: "@ + s@,
        DiffError::InvalidInput(s) => "Invalid input: "@ + s@,
        DiffError::ProcessingError(s) => "Processing error: "@ + s@,
    }
}

impl DiffError {
    /// The human-readable message of this error.
    pub fn message(&self) -> (res: String)
        ensures
            res@ == diff_error_message(*self),
    {
        let (prefix, detail) = match self {
            DiffError::ComparisonFailed(s) => ("Comparison failed: ", s),
            DiffError::InvalidInput(s) => ("Invalid input: ", s),
            DiffError::ProcessingError(s) => ("Processing error: ", s),
        };
        let mut m = String::from_str(prefix);
        m.append(detail.as_str());
        m
    }
}

} // verus!
