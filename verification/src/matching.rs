//! Greedy best-first one-to-one matching.
//!
//! Several matchers of the library share one procedure: sources are taken in
//! order; each takes, among the targets not yet taken whose pair is
//! acceptable, the one with the greatest score, the earliest on ties; a
//! source with no such target stays unmatched.  Scores arrive as `u64` order
//! keys (`None` marks a pair below the threshold), so that the procedure is
//! proved over integers; the order of keys is the order of the scores.
use vstd::prelude::*;

verus! {

/// The best free acceptable target among the first `n` targets of one row:
/// the greatest key, the earliest index among equal keys.
pub open spec fn scan_best(row: Seq<Option<u64>>, taken: Set<int>, n: int) -> Option<int>
    decreases n,
{
    if n <= 0 {
        None
    } else {
        let b = scan_best(row, taken, n - 1);
        let j = n - 1;
        if j < row.len() && row[j] is Some && !taken.contains(j) {
            match b {
                None => Some(j),
                Some(k) => if row[j]->0 > row[k]->0 { Some(j) } else { Some(k) },
            }
        } else {
            b
        }
    }
}

/// The target chosen for one row, given the targets already taken.
pub open spec fn best_target(row: Seq<Option<u64>>, taken: Set<int>) -> Option<int> {
    scan_best(row, taken, row.len() as int)
}

/// The choices of the first `i` sources.
pub open spec fn greedy_prefix(scores: Seq<Seq<Option<u64>>>, i: int) -> Seq<Option<int>>
    decreases i,
{
    if i <= 0 {
        Seq::empty()
    } else {
        let prev = greedy_prefix(scores, i - 1);
        prev.push(best_target(scores[i - 1], taken_by(prev)))
    }
}

/// The targets taken by a sequence of choices.
pub open spec fn taken_by(choices: Seq<Option<int>>) -> Set<int> {
    Set::new(|j: int| exists|i: int| 0 <= i < choices.len() && choices[i] == Some(j))
}

/// The choice of every source.
pub open spec fn greedy_assignment(scores: Seq<Seq<Option<u64>>>) -> Seq<Option<int>> {
    greedy_prefix(scores, scores.len() as int)
}

/// The result of greedy matching: the target chosen by each source, and the
/// targets that no source chose, in increasing order.
pub struct GreedyMatching {
    pub assignment: Vec<Option<usize>>,
    pub unmatched_targets: Vec<usize>,
}

pub open spec fn option_view(o: Option<usize>) -> Option<int> {
    match o {
        Some(j) => Some(j as int),
        None => None,
    }
}

pub open spec fn assignment_view(v: Seq<Option<usize>>) -> Seq<Option<int>> {
    Seq::new(v.len(), |i: int| option_view(v[i]))
}

/// Every row has `width` entries.
pub open spec fn rectangular(scores: Seq<Seq<Option<u64>>>, width: nat) -> bool {
    forall|i: int| 0 <= i < scores.len() ==> #[trigger] scores[i].len() == width
}

// ---------------------------------------------------------------------------
// Laws of the choice in one row
// ---------------------------------------------------------------------------

/// The chosen target is free, acceptable, its key is the greatest among the
/// free acceptable ones, and no earlier free acceptable target has that key;
/// no target is chosen only when none is free and acceptable.
pub proof fn lemma_scan_best(row: Seq<Option<u64>>, taken: Set<int>, n: int)
    requires
        0 <= n <= row.len(),
    ensures
        match scan_best(row, taken, n) {
            Some(j) => {
                &&& 0 <= j < n
                &&& row[j] is Some
                &&& !taken.contains(j)
                &&& forall|k: int| 0 <= k < n && row[k] is Some && !taken.contains(k) ==> row[k]->0 <= row[j]->0
                &&& forall|k: int| 0 <= k < j && row[k] is Some && !taken.contains(k) ==> row[k]->0 < row[j]->0
            },
            None => forall|k: int| 0 <= k < n ==> !(row[k] is Some && !taken.contains(k)),
        },
    decreases n,
{
    if n > 0 {
        lemma_scan_best(row, taken, n - 1);
    }
}

/// The target chosen for a row, as `lemma_scan_best` characterizes it.
pub proof fn lemma_best_target(row: Seq<Option<u64>>, taken: Set<int>)
    ensures
        match best_target(row, taken) {
            Some(j) => {
                &&& 0 <= j < row.len()
                &&& row[j] is Some
                &&& !taken.contains(j)
                &&& forall|k: int| 0 <= k < row.len() && row[k] is Some && !taken.contains(k) ==> row[k]->0 <= row[j]->0
            },
            None => forall|k: int| 0 <= k < row.len() ==> !(row[k] is Some && !taken.contains(k)),
        },
{
    lemma_scan_best(row, taken, row.len() as int);
}

/// Laws of the whole assignment: it has one entry per source, every chosen
/// target is in range and acceptable for its source, and no target is chosen
/// twice.
pub proof fn lemma_greedy_prefix(scores: Seq<Seq<Option<u64>>>, width: nat, i: int)
    requires
        rectangular(scores, width),
        0 <= i <= scores.len(),
    ensures
        greedy_prefix(scores, i).len() == i,
        forall|a: int| #![trigger greedy_prefix(scores, i)[a]]
            0 <= a < i && greedy_prefix(scores, i)[a] is Some ==> {
                let j = greedy_prefix(scores, i)[a]->0;
                0 <= j < width && scores[a][j] is Some
            },
        forall|a: int, b: int| #![trigger greedy_prefix(scores, i)[a], greedy_prefix(scores, i)[b]]
            0 <= a < b < i && greedy_prefix(scores, i)[a] is Some ==> greedy_prefix(scores, i)[a]
                != greedy_prefix(scores, i)[b],
    decreases i,
{
    if i > 0 {
        lemma_greedy_prefix(scores, width, i - 1);
        let prev = greedy_prefix(scores, i - 1);
        let cur = greedy_prefix(scores, i);
        lemma_best_target(scores[i - 1], taken_by(prev));
        assert(cur == prev.push(best_target(scores[i - 1], taken_by(prev))));
        assert forall|a: int, b: int| 0 <= a < b < i && cur[a] is Some implies cur[a] != cur[b] by {
            if b == i - 1 {
                if cur[b] is Some {
                    assert(prev[a] == cur[a]);
                    assert(taken_by(prev).contains(cur[a]->0));
                }
            } else {
                assert(prev[a] == cur[a]);
                assert(prev[b] == cur[b]);
            }
        }
    }
}

/// Greedy matching is one-to-one: two sources never share a target.
pub proof fn lemma_greedy_injective(scores: Seq<Seq<Option<u64>>>, width: nat, a: int, b: int)
    requires
        rectangular(scores, width),
        0 <= a < scores.len(),
        0 <= b < scores.len(),
        a != b,
        greedy_assignment(scores)[a] is Some,
    ensures
        greedy_assignment(scores)[a] != greedy_assignment(scores)[b],
{
    lemma_greedy_prefix(scores, width, scores.len() as int);
    let g = greedy_prefix(scores, scores.len() as int);
    if a < b {
        assert(g[a] != g[b]);
    } else {
        if g[b] is Some {
            assert(g[b] != g[a]);
        }
    }
}

// ---------------------------------------------------------------------------
// Executable
// ---------------------------------------------------------------------------

/// Chooses the target of one row among those not yet taken.
pub fn choose_best(row: &Vec<Option<u64>>, taken: &Vec<bool>) -> (res: Option<usize>)
    requires
        taken.len() == row.len(),
    ensures
        option_view(res) == best_target(row@, Set::new(|j: int| 0 <= j < taken@.len() && taken@[j])),
{
    let ghost t = Set::new(|j: int| 0 <= j < taken@.len() && taken@[j]);
    let mut best: Option<usize> = None;
    let mut j: usize = 0;
    while j < row.len()
        invariant
            taken.len() == row.len(),
            j <= row.len(),
            t == Set::new(|k: int| 0 <= k < taken@.len() && taken@[k]),
            option_view(best) == scan_best(row@, t, j as int),
            best is Some ==> best->0 < j,
            best is Some ==> row@[best->0 as int] is Some,
        decreases row.len() - j,
    {
        match row[j] {
            Some(key) => {
                if !taken[j] {
                    match best {
                        None => {
                            best = Some(j);
                        },
                        Some(k) => {
                            let bk = row[k].unwrap();
                            if key > bk {
                                best = Some(j);
                            }
                        },
                    }
                }
            },
            None => {},
        }
        j += 1;
    }
    best
}

/// Greedy best-first matching of `scores.len()` sources against `width`
/// targets: `scores[i][j]` is the order key of the pair, or `None` where the
/// pair is not acceptable.
pub fn greedy_match(scores: &Vec<Vec<Option<u64>>>, width: usize) -> (res: GreedyMatching)
    requires
        rectangular(scores.deep_view(), width as nat),
    ensures
        assignment_view(res.assignment@) == greedy_assignment(scores.deep_view()),
        forall|j: int| 0 <= j < width ==> (res.unmatched_targets@.contains(j as usize) <==> !taken_by(
            greedy_assignment(scores.deep_view()),
        ).contains(j)),
        forall|a: int, b: int| 0 <= a < b < res.unmatched_targets@.len() ==> res.unmatched_targets@[a]
            < res.unmatched_targets@[b],
        forall|a: int| 0 <= a < res.unmatched_targets@.len() ==> res.unmatched_targets@[a] < width,
{
    let ghost sv = scores.deep_view();
    let mut taken: Vec<bool> = Vec::new();
    let mut j: usize = 0;
    while j < width
        invariant
            j <= width,
            taken@.len() == j,
            forall|k: int| 0 <= k < j ==> !taken@[k],
        decreases width - j,
    {
        taken.push(false);
        j += 1;
    }
    let mut assignment: Vec<Option<usize>> = Vec::new();
    let mut i: usize = 0;
    while i < scores.len()
        invariant
            sv == scores.deep_view(),
            rectangular(sv, width as nat),
            i <= scores.len(),
            taken@.len() == width,
            assignment_view(assignment@) == greedy_prefix(sv, i as int),
            forall|k: int| 0 <= k < width ==> (taken@[k] <==> taken_by(greedy_prefix(sv, i as int)).contains(k)),
        decreases scores.len() - i,
    {
        let row = &scores[i];
        assert(row@ == sv[i as int]);
        let ghost t = Set::new(|k: int| 0 <= k < taken@.len() && taken@[k]);
        assert(t =~= taken_by(greedy_prefix(sv, i as int))) by {
            lemma_greedy_prefix(sv, width as nat, i as int);
            assert forall|k: int| taken_by(greedy_prefix(sv, i as int)).contains(k) implies 0 <= k < width by {
                let a = choose|a: int| 0 <= a < greedy_prefix(sv, i as int).len() && greedy_prefix(sv, i as int)[a] == Some(k);
                assert(greedy_prefix(sv, i as int)[a] is Some);
            }
        }
        let choice = choose_best(row, &taken);
        let ghost prev = greedy_prefix(sv, i as int);
        proof {
            lemma_best_target(sv[i as int], t);
        }
        match choice {
            Some(c) => {
                taken.set(c, true);
            },
            None => {},
        }
        assignment.push(choice);
        proof {
            let next = greedy_prefix(sv, i + 1);
            assert(next == prev.push(option_view(choice)));
            assert(assignment_view(assignment@) =~= next);
            assert forall|k: int| 0 <= k < width implies (taken@[k] <==> taken_by(next).contains(k)) by {
                if taken_by(next).contains(k) {
                    let a = choose|a: int| 0 <= a < next.len() && next[a] == Some(k);
                    if a < prev.len() {
                        assert(prev[a] == Some(k));
                        assert(taken_by(prev).contains(k));
                    }
                }
                if taken_by(prev).contains(k) {
                    let a = choose|a: int| 0 <= a < prev.len() && prev[a] == Some(k);
                    assert(next[a] == Some(k));
                }
                if option_view(choice) == Some(k) {
                    assert(next[prev.len() as int] == Some(k));
                }
            }
        }
        i += 1;
    }
    let mut unmatched: Vec<usize> = Vec::new();
    let mut k: usize = 0;
    while k < width
        invariant
            sv == scores.deep_view(),
            k <= width,
            taken@.len() == width,
            forall|m: int| 0 <= m < width ==> (taken@[m] <==> taken_by(greedy_prefix(sv, scores.len() as int)).contains(m)),
            forall|m: int| 0 <= m < k ==> (unmatched@.contains(m as usize) <==> !taken@[m]),
            forall|a: int| 0 <= a < unmatched@.len() ==> unmatched@[a] < k,
            forall|a: int, b: int| 0 <= a < b < unmatched@.len() ==> unmatched@[a] < unmatched@[b],
        decreases width - k,
    {
        let ghost before = unmatched@;
        if !taken[k] {
            unmatched.push(k);
            assert(unmatched@[unmatched@.len() - 1] == k);
            assert(unmatched@.contains(k));
        }
        assert forall|m: int| 0 <= m < k + 1 implies (unmatched@.contains(m as usize) <==> !taken@[m]) by {
            if m < k {
                if unmatched@.contains(m as usize) {
                    let a = choose|a: int| 0 <= a < unmatched@.len() && unmatched@[a] == m as usize;
                    if a < before.len() {
                        assert(before.contains(m as usize));
                    }
                }
                if before.contains(m as usize) {
                    let a = choose|a: int| 0 <= a < before.len() && before[a] == m as usize;
                    assert(unmatched@[a] == m as usize);
                }
            } else {
                if unmatched@.contains(m as usize) && taken@[m] {
                    let a = choose|a: int| 0 <= a < unmatched@.len() && unmatched@[a] == m as usize;
                    assert(before[a] < k);
                }
            }
        }
        k += 1;
    }
    assert(greedy_prefix(sv, scores.len() as int) == greedy_assignment(sv));
    assert forall|j: int| 0 <= j < width implies (unmatched@.contains(j as usize) <==> !taken_by(
        greedy_assignment(sv),
    ).contains(j)) by {
        assert(taken@[j] <==> taken_by(greedy_prefix(sv, scores.len() as int)).contains(j));
    }
    GreedyMatching { assignment, unmatched_targets: unmatched }
}

} // verus!
