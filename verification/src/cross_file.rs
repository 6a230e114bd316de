//! Cross-file tracking: the kinds of function moves and the per-file counts
//! of functions that moved out of, into and between files.
use vstd::prelude::*;
use crate::text::string_views;

verus! {

/// Kinds of cross-file move.
#[derive(Debug, Clone, Copy, PartialEq, Eq, Structural)]
pub enum MoveType {
    SimpleMove,
    MoveWithModification,
    RefactoringMove,
    ComplexMove,
}

/// Counts of one file.
#[derive(Debug, Clone, Copy, PartialEq, Eq, Structural)]
pub struct FileTrackingStats {
    /// Functions in the file: the greater of its source and target counts.
    pub total_functions: usize,
    /// Moves whose source is the file.
    pub functions_moved_out: usize,
    /// Moves whose target is the file.
    pub functions_moved_in: usize,
    /// Renaming moves from or to the file.
    pub functions_renamed: usize,
    /// Target count minus source count.
    pub net_function_change: i32,
}

/// The number of pairs whose first (`first`) or second component is `file`.
pub open spec fn ends_at(pairs: Seq<(Seq<char>, Seq<char>)>, file: Seq<char>, first: bool) -> nat
    decreases pairs.len(),
{
    if pairs.len() == 0 {
        0
    } else {
        let p = pairs.last();
        ends_at(pairs.drop_last(), file, first) + if (if first { p.0 } else { p.1 }) == file { 1nat } else { 0nat }
    }
}

pub open spec fn path_pairs(v: Seq<(String, String)>) -> Seq<(Seq<char>, Seq<char>)> {
    Seq::new(v.len(), |i: int| (v[i].0@, v[i].1@))
}

proof fn lemma_ends_at_bound(pairs: Seq<(Seq<char>, Seq<char>)>, file: Seq<char>, first: bool)
    ensures
        ends_at(pairs, file, first) <= pairs.len(),
    decreases pairs.len(),
{
    if pairs.len() > 0 {
        lemma_ends_at_bound(pairs.drop_last(), file, first);
    }
}

fn count_ends(pairs: &Vec<(String, String)>, file: &str, first: bool) -> (res: usize)
    ensures
        res == ends_at(path_pairs(pairs@), file@, first),
{
    let ghost pv = path_pairs(pairs@);
    let mut count: usize = 0;
    let mut i: usize = 0;
    while i < pairs.len()
        invariant
            pv == path_pairs(pairs@),
            i <= pairs.len(),
            count <= i,
            count == ends_at(pv.take(i as int), file@, first),
        decreases pairs.len() - i,
    {
        assert(pv.take(i + 1).drop_last() =~= pv.take(i as int));
        let end = if first { &pairs[i].0 } else { &pairs[i].1 };
        if crate::text::str_eq(end.as_str(), file) {
            count += 1;
        }
        i += 1;
    }
    assert(pv.take(pairs.len() as int) =~= pv);
    count
}

/// The counts of `file`, which holds `source_count` functions before and
/// `target_count` after; `moves` and `rename_moves` hold the (source file,
/// target file) of each move and of each move with a rename.
pub fn file_tracking_stats(
    file: &str,
    source_count: usize,
    target_count: usize,
    moves: &Vec<(String, String)>,
    rename_moves: &Vec<(String, String)>,
) -> (res: FileTrackingStats)
    requires
        i32::MIN <= (target_count as i32) - (source_count as i32) <= i32::MAX,
        moves.len() + 2 * rename_moves.len() <= usize::MAX,
    ensures
        res.total_functions == if source_count >= target_count { source_count } else { target_count },
        res.functions_moved_out == ends_at(path_pairs(moves@), file@, true) + ends_at(path_pairs(rename_moves@), file@, true),
        res.functions_moved_in == ends_at(path_pairs(moves@), file@, false) + ends_at(path_pairs(rename_moves@), file@, false),
        res.functions_renamed == ends_at(path_pairs(rename_moves@), file@, true) + ends_at(path_pairs(rename_moves@), file@, false),
        res.net_function_change == (target_count as i32) - (source_count as i32),
{
    let moved_out_plain = count_ends(moves, file, true);
    let moved_in_plain = count_ends(moves, file, false);
    let renamed_out = count_ends(rename_moves, file, true);
    let renamed_in = count_ends(rename_moves, file, false);
    proof {
        lemma_ends_at_bound(path_pairs(moves@), file@, true);
        lemma_ends_at_bound(path_pairs(moves@), file@, false);
        lemma_ends_at_bound(path_pairs(rename_moves@), file@, true);
        lemma_ends_at_bound(path_pairs(rename_moves@), file@, false);
    }
    let s: i32 = source_count as i32;
    let t: i32 = target_count as i32;
    FileTrackingStats {
        total_functions: if source_count >= target_count { source_count } else { target_count },
        functions_moved_out: moved_out_plain + renamed_out,
        functions_moved_in: moved_in_plain + renamed_in,
        functions_renamed: renamed_out + renamed_in,
        net_function_change: t - s,
    }
}

/// The paths of `a`, then those of `b` that `a` does not hold, each once.
pub fn all_file_paths(a: &Vec<String>, b: &Vec<String>) -> (res: Vec<String>)
    ensures
        string_views(res@).no_duplicates(),
        forall|p: Seq<char>| string_views(res@).contains(p) <==> (string_views(a@).contains(p) || string_views(b@).contains(p)),
{
    let mut res: Vec<String> = Vec::new();
    let mut i: usize = 0;
    while i < a.len()
        invariant
            i <= a.len(),
            string_views(res@).no_duplicates(),
            forall|p: Seq<char>| string_views(res@).contains(p) <==> string_views(a@).take(i as int).contains(p),
        decreases a.len() - i,
    {
        proof {
            assert(string_views(a@).take(i + 1) =~= string_views(a@).take(i as int).push(a@[i as int]@));
            crate::text::lemma_contains_push(string_views(a@).take(i as int), a@[i as int]@);
        }
        crate::text::push_distinct(&mut res, &a[i]);
        i += 1;
    }
    assert(string_views(a@).take(a.len() as int) =~= string_views(a@));
    let mut j: usize = 0;
    while j < b.len()
        invariant
            j <= b.len(),
            string_views(res@).no_duplicates(),
            forall|p: Seq<char>| string_views(res@).contains(p) <==> (string_views(a@).contains(p) || string_views(b@).take(j as int).contains(p)),
        decreases b.len() - j,
    {
        proof {
            assert(string_views(b@).take(j + 1) =~= string_views(b@).take(j as int).push(b@[j as int]@));
            crate::text::lemma_contains_push(string_views(b@).take(j as int), b@[j as int]@);
        }
        crate::text::push_distinct(&mut res, &b[j]);
        j += 1;
    }
    assert(string_views(b@).take(b.len() as int) =~= string_views(b@));
    res
}


} // verus!
