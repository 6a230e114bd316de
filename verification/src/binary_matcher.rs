//! Matching functions between two binaries by name.
//!
//! Matching runs in phases: functions with equal names are paired first;
//! the functions left on either side then go to fuzzy matching, which
//! considers the pairs whose names are within a maximal edit distance.
//! The scoring of fuzzy pairs is done by the caller; the greedy choice among
//! scored pairs is `matching::greedy_match`.
use vstd::prelude::*;
use crate::edit_distance::{lev, levenshtein_distance};
use crate::text::string_of;

verus! {

/// A function of a binary.
#[derive(Debug)]
pub struct BinaryFunctionInfo {
    pub name: String,
    /// Hexadecimal address.
    pub address: String,
    pub decompiled_code: Option<String>,
    pub raw_name: Option<String>,
}

impl Clone for BinaryFunctionInfo {
    fn clone(&self) -> (res: Self)
        ensures
            res == *self,
    {
        BinaryFunctionInfo {
            name: self.name.clone(),
            address: self.address.clone(),
            decompiled_code: self.decompiled_code.clone(),
            raw_name: self.raw_name.clone(),
        }
    }
}

/// How two functions were matched.
#[derive(Debug, Clone, Copy, PartialEq, Eq, Structural)]
pub enum BinaryMatchType {
    ExactName,
    FuzzyName,
    CodeSimilarity,
    Hybrid,
}

impl BinaryFunctionInfo {
    /// A function with a name and an address and nothing else.
    pub fn new(name: String, address: String) -> (res: Self)
        ensures
            res.name == name,
            res.address == address,
            res.decompiled_code is None,
            res.raw_name is None,
    {
        BinaryFunctionInfo { name, address, decompiled_code: None, raw_name: None }
    }

    /// This function with its decompiled code.
    pub fn with_code(self, code: String) -> (res: Self)
        ensures
            res.name == self.name,
            res.address == self.address,
            res.decompiled_code == Some(code),
            res.raw_name == self.raw_name,
    {
        BinaryFunctionInfo {
            name: self.name,
            address: self.address,
            decompiled_code: Some(code),
            raw_name: self.raw_name,
        }
    }
}

// ---------------------------------------------------------------------------
// Exact name matching
// ---------------------------------------------------------------------------

/// The last function of `fs` named `name`.  A table keyed by name and
/// filled in order keeps the last function of each name.
pub open spec fn last_named(fs: Seq<BinaryFunctionInfo>, name: Seq<char>) -> Option<int>
    decreases fs.len(),
{
    if fs.len() == 0 {
        None
    } else if fs.last().name@ == name {
        Some(fs.len() - 1)
    } else {
        last_named(fs.drop_last(), name)
    }
}

/// The exact-name pairs: for each function of `a` in order whose name
/// some function of `b` has, the pair of its index and that of the last
/// function of `b` with the name.
pub open spec fn exact_pairs(a: Seq<BinaryFunctionInfo>, b: Seq<BinaryFunctionInfo>) -> Seq<(int, int)>
    decreases a.len(),
{
    if a.len() == 0 {
        Seq::empty()
    } else {
        let rest = exact_pairs(a.drop_last(), b);
        match last_named(b, a.last().name@) {
            Some(j) => rest.push((a.len() - 1, j)),
            None => rest,
        }
    }
}

pub open spec fn pair_view(v: Seq<(usize, usize)>) -> Seq<(int, int)> {
    v.map_values(|p: (usize, usize)| (p.0 as int, p.1 as int))
}

/// `last_named` finds the last function of the name, or reports that none
/// has it.
pub proof fn lemma_last_named(fs: Seq<BinaryFunctionInfo>, name: Seq<char>)
    ensures
        match last_named(fs, name) {
            Some(j) => 0 <= j < fs.len() && fs[j].name@ == name
                && forall|k: int| j < k < fs.len() ==> fs[k].name@ != name,
            None => forall|k: int| 0 <= k < fs.len() ==> fs[k].name@ != name,
        },
    decreases fs.len(),
{
    if fs.len() > 0 {
        lemma_last_named(fs.drop_last(), name);
        assert forall|k: int| 0 <= k < fs.len() - 1 implies fs[k] == fs.drop_last()[k] by {}
    }
}

/// The index of the last function of `fs` named `name`.
fn find_last_named(fs: &Vec<BinaryFunctionInfo>, name: &String) -> (res: Option<usize>)
    ensures
        match res {
            Some(j) => last_named(fs@, name@) == Some(j as int),
            None => last_named(fs@, name@) is None,
        },
{
    let mut k: usize = fs.len();
    assert(fs@.take(fs.len() as int) =~= fs@);
    while k > 0
        invariant
            k <= fs.len(),
            last_named(fs@, name@) == last_named(fs@.take(k as int), name@),
        decreases k,
    {
        let ghost t = fs@.take(k as int);
        assert(t.drop_last() =~= fs@.take(k - 1));
        if fs[k - 1].name == *name {
            return Some(k - 1);
        }
        k -= 1;
    }
    None
}

/// Exact name matching: the pairs of `exact_pairs`, in order.
pub fn exact_name_pairs(functions_a: &Vec<BinaryFunctionInfo>, functions_b: &Vec<BinaryFunctionInfo>) -> (res: Vec<(usize, usize)>)
    ensures
        pair_view(res@) == exact_pairs(functions_a@, functions_b@),
{
    let mut res: Vec<(usize, usize)> = Vec::new();
    let mut i: usize = 0;
    while i < functions_a.len()
        invariant
            i <= functions_a.len(),
            pair_view(res@) == exact_pairs(functions_a@.take(i as int), functions_b@),
        decreases functions_a.len() - i,
    {
        assert(functions_a@.take(i + 1).drop_last() =~= functions_a@.take(i as int));
        match find_last_named(functions_b, &functions_a[i].name) {
            Some(j) => {
                res.push((i, j));
                assert(pair_view(res@) =~= exact_pairs(functions_a@.take(i as int), functions_b@).push((i as int, j as int)));
            },
            None => {},
        }
        i += 1;
    }
    assert(functions_a@.take(functions_a.len() as int) =~= functions_a@);
    res
}

/// Every exact pair joins two functions of the same name, and each function
/// of `a` whose name occurs in `b` is in exactly one pair.
pub proof fn lemma_exact_pairs(a: Seq<BinaryFunctionInfo>, b: Seq<BinaryFunctionInfo>)
    ensures
        forall|k: int| 0 <= k < exact_pairs(a, b).len() ==> {
            let p = #[trigger] exact_pairs(a, b)[k];
            &&& 0 <= p.0 < a.len()
            &&& 0 <= p.1 < b.len()
            &&& a[p.0].name@ == b[p.1].name@
        },
        forall|k1: int, k2: int| 0 <= k1 < k2 < exact_pairs(a, b).len() ==> exact_pairs(a, b)[k1].0 < exact_pairs(a, b)[k2].0,
        forall|i: int| 0 <= i < a.len() ==> (last_named(b, a[i].name@) is Some <==> exists|k: int| 0 <= k < exact_pairs(a, b).len() && #[trigger] exact_pairs(a, b)[k].0 == i),
    decreases a.len(),
{
    if a.len() > 0 {
        let d = a.drop_last();
        lemma_exact_pairs(d, b);
        lemma_last_named(b, a.last().name@);
        let rest = exact_pairs(d, b);
        assert forall|k: int| 0 <= k < rest.len() implies rest[k].0 < a.len() - 1 by {}
        assert forall|i: int| 0 <= i < a.len() implies (last_named(b, a[i].name@) is Some <==> exists|k: int| 0 <= k < exact_pairs(a, b).len() && #[trigger] exact_pairs(a, b)[k].0 == i) by {
            if i < a.len() - 1 {
                assert(a[i] == d[i]);
                if last_named(b, a[i].name@) is Some {
                    let k = choose|k: int| 0 <= k < rest.len() && #[trigger] rest[k].0 == i;
                    assert(exact_pairs(a, b)[k] == rest[k]);
                } else {
                    if exists|k: int| 0 <= k < exact_pairs(a, b).len() && #[trigger] exact_pairs(a, b)[k].0 == i {
                        let k = choose|k: int| 0 <= k < exact_pairs(a, b).len() && #[trigger] exact_pairs(a, b)[k].0 == i;
                        if k < rest.len() {
                            assert(exact_pairs(a, b)[k] == rest[k]);
                        }
                    }
                }
            } else {
                if last_named(b, a[i].name@) is Some {
                    assert(exact_pairs(a, b)[rest.len() as int].0 == i);
                } else {
                    assert(exact_pairs(a, b) == rest);
                }
            }
        }
    }
}

// ---------------------------------------------------------------------------
// Functions left after exact matching
// ---------------------------------------------------------------------------

/// The indices, in order, of the functions of `fs` whose name no function of
/// `others` has.
pub open spec fn unmatched_names(fs: Seq<BinaryFunctionInfo>, others: Seq<BinaryFunctionInfo>) -> Seq<int>
    decreases fs.len(),
{
    if fs.len() == 0 {
        Seq::empty()
    } else {
        let rest = unmatched_names(fs.drop_last(), others);
        if last_named(others, fs.last().name@) is None {
            rest.push(fs.len() - 1)
        } else {
            rest
        }
    }
}

pub open spec fn index_view(v: Seq<usize>) -> Seq<int> {
    v.map_values(|i: usize| i as int)
}

/// The functions of `functions` left unmatched by exact name matching
/// against `others`: those whose name no function of `others` has.
pub fn unmatched_by_name(functions: &Vec<BinaryFunctionInfo>, others: &Vec<BinaryFunctionInfo>) -> (res: Vec<usize>)
    ensures
        index_view(res@) == unmatched_names(functions@, others@),
{
    let mut res: Vec<usize> = Vec::new();
    let mut i: usize = 0;
    while i < functions.len()
        invariant
            i <= functions.len(),
            index_view(res@) == unmatched_names(functions@.take(i as int), others@),
        decreases functions.len() - i,
    {
        assert(functions@.take(i + 1).drop_last() =~= functions@.take(i as int));
        if find_last_named(others, &functions[i].name).is_none() {
            res.push(i);
            assert(index_view(res@) =~= unmatched_names(functions@.take(i as int), others@).push(i as int));
        }
        i += 1;
    }
    assert(functions@.take(functions.len() as int) =~= functions@);
    res
}

/// A function of `a` is left for fuzzy matching exactly when exact matching
/// paired it with nothing.
pub proof fn lemma_exact_or_unmatched(a: Seq<BinaryFunctionInfo>, b: Seq<BinaryFunctionInfo>, i: int)
    requires
        0 <= i < a.len(),
    ensures
        unmatched_names(a, b).contains(i) <==> !exists|k: int| 0 <= k < exact_pairs(a, b).len() && #[trigger] exact_pairs(a, b)[k].0 == i,
    decreases a.len(),
{
    lemma_exact_pairs(a, b);
    lemma_unmatched_names(a, b, i);
}

proof fn lemma_unmatched_names(a: Seq<BinaryFunctionInfo>, b: Seq<BinaryFunctionInfo>, i: int)
    requires
        0 <= i < a.len(),
    ensures
        unmatched_names(a, b).contains(i) <==> last_named(b, a[i].name@) is None,
        forall|k: int| 0 <= k < unmatched_names(a, b).len() ==> 0 <= #[trigger] unmatched_names(a, b)[k] < a.len(),
    decreases a.len(),
{
    let d = a.drop_last();
    let rest = unmatched_names(d, b);
    if i < a.len() - 1 {
        lemma_unmatched_names(d, b, i);
        assert(a[i] == d[i]);
        if last_named(b, a.last().name@) is None {
            assert(unmatched_names(a, b) == rest.push(a.len() - 1));
            if unmatched_names(a, b).contains(i) {
                let k = choose|k: int| 0 <= k < unmatched_names(a, b).len() && unmatched_names(a, b)[k] == i;
                assert(k < rest.len());
                assert(rest[k] == i);
            }
            if rest.contains(i) {
                let k = choose|k: int| 0 <= k < rest.len() && rest[k] == i;
                assert(unmatched_names(a, b)[k] == i);
            }
        }
    } else {
        if a.len() > 1 {
            lemma_unmatched_names(d, b, 0);
        }
        if last_named(b, a.last().name@) is None {
            assert(unmatched_names(a, b)[rest.len() as int] == i);
        } else {
            if rest.contains(i) {
                let k = choose|k: int| 0 <= k < rest.len() && rest[k] == i;
                assert(rest[k] < d.len());
            }
        }
    }
    if a.len() > 1 {
        lemma_unmatched_names(d, b, 0);
    }
}

// ---------------------------------------------------------------------------
// Fuzzy name candidates
// ---------------------------------------------------------------------------

/// The edit distance between two function names, as the matcher measures it.
pub open spec fn name_distance(a: Seq<char>, b: Seq<char>) -> nat {
    lev(a, b)
}

/// The fuzzy candidates: for each function of `a` (a row) and each function
/// of `b` (a column), the edit distance of their names where it is at most
/// `max_distance`, and `None` otherwise.
pub fn fuzzy_name_distances(
    functions_a: &Vec<BinaryFunctionInfo>,
    functions_b: &Vec<BinaryFunctionInfo>,
    max_distance: usize,
) -> (res: Vec<Vec<Option<usize>>>)
    ensures
        res.len() == functions_a.len(),
        forall|i: int| 0 <= i < res.len() ==> (#[trigger] res[i]).len() == functions_b.len(),
        forall|i: int, j: int| 0 <= i < functions_a.len() && 0 <= j < functions_b.len() ==> {
            let d = name_distance(functions_a[i].name@, functions_b[j].name@);
            #[trigger] res[i][j] == (if d <= max_distance { Some(d as usize) } else { None })
        },
{
    let mut res: Vec<Vec<Option<usize>>> = Vec::new();
    let mut i: usize = 0;
    while i < functions_a.len()
        invariant
            i <= functions_a.len(),
            res.len() == i,
            forall|r: int| 0 <= r < res.len() ==> (#[trigger] res[r]).len() == functions_b.len(),
            forall|r: int, j: int| 0 <= r < i && 0 <= j < functions_b.len() ==> {
                let d = name_distance(functions_a[r].name@, functions_b[j].name@);
                #[trigger] res[r][j] == (if d <= max_distance { Some(d as usize) } else { None })
            },
        decreases functions_a.len() - i,
    {
        let mut row: Vec<Option<usize>> = Vec::new();
        let mut j: usize = 0;
        while j < functions_b.len()
            invariant
                i < functions_a.len(),
                j <= functions_b.len(),
                row.len() == j,
                forall|c: int| 0 <= c < j ==> {
                    let d = name_distance(functions_a[i as int].name@, functions_b[c].name@);
                    #[trigger] row[c] == (if d <= max_distance { Some(d as usize) } else { None })
                },
            decreases functions_b.len() - j,
        {
            let d = levenshtein_distance(functions_a[i].name.as_str(), functions_b[j].name.as_str());
            if d <= max_distance {
                row.push(Some(d));
            } else {
                row.push(None);
            }
            j += 1;
        }
        res.push(row);
        i += 1;
    }
    res
}

} // verus!
