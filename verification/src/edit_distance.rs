//! Levenshtein edit distance.
//!
//! `lev` is the mathematical edit distance over characters: the least number
//! of single-character insertions, deletions and substitutions that turn one
//! sequence into the other, defined by the usual recurrence on prefixes.
use vstd::prelude::*;
use crate::text::chars_of;

verus! {

pub open spec fn min2(x: nat, y: nat) -> nat {
    if x <= y { x } else { y }
}

pub open spec fn max2(x: nat, y: nat) -> nat {
    if x >= y { x } else { y }
}

pub open spec fn subst_cost(x: char, y: char) -> nat {
    if x == y { 0 } else { 1 }
}

/// The Levenshtein distance between `a` and `b`.
pub open spec fn lev(a: Seq<char>, b: Seq<char>) -> nat
    decreases a.len() + b.len(),
{
    if a.len() == 0 {
        b.len()
    } else if b.len() == 0 {
        a.len()
    } else {
        min2(
            min2(lev(a.drop_last(), b) + 1, lev(a, b.drop_last()) + 1),
            lev(a.drop_last(), b.drop_last()) + subst_cost(a.last(), b.last()),
        )
    }
}

// ---------------------------------------------------------------------------
// Laws
// ---------------------------------------------------------------------------

/// The edit distance is at most the longer length and at least the
/// difference of the lengths.
pub proof fn lemma_lev_bounds(a: Seq<char>, b: Seq<char>)
    ensures
        lev(a, b) <= max2(a.len(), b.len()),
        a.len() <= lev(a, b) + b.len(),
        b.len() <= lev(a, b) + a.len(),
    decreases a.len() + b.len(),
{
    if a.len() > 0 && b.len() > 0 {
        lemma_lev_bounds(a.drop_last(), b);
        lemma_lev_bounds(a, b.drop_last());
        lemma_lev_bounds(a.drop_last(), b.drop_last());
    }
}

/// A sequence is at distance 0 from itself.
pub proof fn lemma_lev_self(a: Seq<char>)
    ensures
        lev(a, a) == 0,
    decreases a.len(),
{
    if a.len() > 0 {
        lemma_lev_self(a.drop_last());
    }
}

/// The edit distance is symmetric.
pub proof fn lemma_lev_symmetric(a: Seq<char>, b: Seq<char>)
    ensures
        lev(a, b) == lev(b, a),
    decreases a.len() + b.len(),
{
    if a.len() > 0 && b.len() > 0 {
        lemma_lev_symmetric(a.drop_last(), b);
        lemma_lev_symmetric(a, b.drop_last());
        lemma_lev_symmetric(a.drop_last(), b.drop_last());
    }
}

/// Distance 0 holds only between equal sequences.
pub proof fn lemma_lev_zero_equal(a: Seq<char>, b: Seq<char>)
    requires
        lev(a, b) == 0,
    ensures
        a == b,
    decreases a.len() + b.len(),
{
    if a.len() > 0 && b.len() > 0 {
        lemma_lev_bounds(a.drop_last(), b);
        lemma_lev_bounds(a, b.drop_last());
        lemma_lev_zero_equal(a.drop_last(), b.drop_last());
        assert(a =~= a.drop_last().push(a.last()));
        assert(b =~= b.drop_last().push(b.last()));
    }
}

/// Inserting a character at the end of the second sequence costs at most
/// one edit.
proof fn lemma_lev_insert_last(a: Seq<char>, c: Seq<char>)
    requires
        c.len() > 0,
    ensures
        lev(a, c) <= lev(a, c.drop_last()) + 1,
{
}

/// Removing the last character of the first sequence costs at most one
/// edit.
proof fn lemma_lev_delete_last(a: Seq<char>, c: Seq<char>)
    requires
        a.len() > 0,
    ensures
        lev(a, c) <= lev(a.drop_last(), c) + 1,
{
}

/// The edit distance obeys the triangle inequality.
pub proof fn lemma_lev_triangle(a: Seq<char>, b: Seq<char>, c: Seq<char>)
    ensures
        lev(a, c) <= lev(a, b) + lev(b, c),
    decreases a.len() + b.len() + c.len(),
{
    if a.len() == 0 || b.len() == 0 || c.len() == 0 {
        lemma_lev_bounds(a, b);
        lemma_lev_bounds(b, c);
        lemma_lev_bounds(a, c);
    } else {
        let a1 = a.drop_last();
        let b1 = b.drop_last();
        let c1 = c.drop_last();
        if lev(a, b) == lev(a1, b) + 1 {
            lemma_lev_triangle(a1, b, c);
            lemma_lev_delete_last(a, c);
        } else if lev(b, c) == lev(b, c1) + 1 {
            lemma_lev_triangle(a, b, c1);
            lemma_lev_insert_last(a, c);
        } else if lev(a, b) == lev(a, b1) + 1 {
            lemma_lev_triangle(a, b1, c);
            if lev(b, c) == lev(b1, c) + 1 {
            } else {
                lemma_lev_insert_last(b1, c);
            }
        } else {
            if lev(b, c) == lev(b1, c) + 1 {
                lemma_lev_triangle(a, b1, c);
                lemma_lev_delete_last(a, b1);
            } else {
                lemma_lev_triangle(a1, b1, c1);
            }
        }
    }
}

/// The edit distance is a metric on character sequences: symmetric, zero
/// exactly between equal sequences, and obeying the triangle inequality.
pub proof fn lemma_lev_metric(a: Seq<char>, b: Seq<char>, c: Seq<char>)
    ensures
        lev(a, b) == lev(b, a),
        lev(a, b) == 0 <==> a == b,
        lev(a, c) <= lev(a, b) + lev(b, c),
{
    lemma_lev_symmetric(a, b);
    lemma_lev_triangle(a, b, c);
    lemma_lev_self(a);
    if lev(a, b) == 0 {
        lemma_lev_zero_equal(a, b);
    }
}

/// The distance from the empty sequence is the length of the other one.
pub proof fn lemma_lev_empty(a: Seq<char>)
    ensures
        lev(Seq::empty(), a) == a.len(),
        lev(a, Seq::empty()) == a.len(),
{
}

// ---------------------------------------------------------------------------
// Executable
// ---------------------------------------------------------------------------

/// The edit distance of two character vectors, row by row: row `i` holds
/// the distances from the first `i` characters of `a` to each non-empty
/// prefix of `b`.  A step whose value could not be held in a `usize` is
/// larger than the distance it competes for, and is left out.
pub fn lev_chars(a: &Vec<char>, b: &Vec<char>) -> (res: usize)
    ensures
        res == lev(a@, b@),
{
    let n = b.len();
    if n == 0 {
        assert(b@ =~= Seq::<char>::empty());
        return a.len();
    }
    let mut prev: Vec<usize> = Vec::new();
    let mut j: usize = 0;
    assert(a@.take(0) =~= Seq::<char>::empty());
    while j < n
        invariant
            n == b.len(),
            j <= n,
            prev.len() == j,
            a@.take(0) =~= Seq::<char>::empty(),
            forall|m: int| 0 <= m < j ==> #[trigger] prev@[m] == lev(a@.take(0), b@.take(m + 1)),
        decreases n - j,
    {
        prev.push(j + 1);
        j += 1;
    }
    let mut i: usize = 0;
    while i < a.len()
        invariant
            n == b.len(),
            n > 0,
            i <= a.len(),
            prev.len() == n,
            forall|m: int| 0 <= m < n ==> #[trigger] prev@[m] == lev(a@.take(i as int), b@.take(m + 1)),
        decreases a.len() - i,
    {
        let ghost ai = a@.take(i as int);
        let ghost ai1 = a@.take(i + 1);
        proof {
            assert(ai1.drop_last() =~= ai);
            assert(b@.take(0) =~= Seq::<char>::empty());
        }
        let mut cur: Vec<usize> = Vec::new();
        let mut left: usize = i + 1;
        let mut diag: usize = i;
        let mut k: usize = 0;
        while k < n
            invariant
                n == b.len(),
                i < a.len(),
                prev.len() == n,
                ai == a@.take(i as int),
                ai1 == a@.take(i + 1),
                ai1.drop_last() == ai,
                forall|m: int| 0 <= m < n ==> #[trigger] prev@[m] == lev(ai, b@.take(m + 1)),
                k <= n,
                cur.len() == k,
                forall|m: int| 0 <= m < k ==> #[trigger] cur@[m] == lev(ai1, b@.take(m + 1)),
                left == lev(ai1, b@.take(k as int)),
                diag == lev(ai, b@.take(k as int)),
            decreases n - k,
        {
            let ghost bk = b@.take(k as int);
            let ghost bk1 = b@.take(k + 1);
            proof {
                assert(bk1.drop_last() =~= bk);
                assert(bk1.last() == b@[k as int]);
                assert(ai1.last() == a@[i as int]);
                lemma_lev_bounds(ai, bk);
                lemma_lev_bounds(ai1, bk1);
            }
            let cost: usize = if a[i] == b[k] { 0 } else { 1 };
            let up = prev[k];
            let mut best: usize = diag + cost;
            if up < usize::MAX && up + 1 < best {
                best = up + 1;
            }
            if left < usize::MAX && left + 1 < best {
                best = left + 1;
            }
            cur.push(best);
            diag = up;
            left = best;
            k += 1;
        }
        prev = cur;
        i += 1;
    }
    assert(a@.take(a.len() as int) =~= a@);
    assert(b@.take(n as int) =~= b@);
    prev[n - 1]
}

/// The Levenshtein distance between the characters of two strings.
pub fn levenshtein_distance(s1: &str, s2: &str) -> (res: usize)
    ensures
        res == lev(s1@, s2@),
{
    let a = chars_of(s1);
    let b = chars_of(s2);
    lev_chars(&a, &b)
}

/// `edit_distance::edit_distance` of the `edit-distance` crate: the
/// Levenshtein distance between the characters of `a` and `b`, as its
/// documentation states.
#[verifier::external_body]
pub(crate) fn crate_edit_distance(a: &str, b: &str) -> (res: usize)
    ensures
        res == lev(a@, b@),
{
    edit_distance::edit_distance(a, b)
}

} // verus!
