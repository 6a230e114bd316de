//! The order of strings and sorting by it.  Strings are ordered as Rust
//! orders `str`: by their UTF-8 bytes, which order as the code points of
//! their characters do, so the order is the lexicographic one on
//! characters.
use vstd::prelude::*;
use vstd::relations::{sorted_by, total_ordering};
use crate::text::{chars_of, string_views};

verus! {

/// `a` comes no later than `b` in lexicographic order of characters.
pub open spec fn lex_le(a: Seq<char>, b: Seq<char>) -> bool
    decreases a.len(),
{
    if a.len() == 0 {
        true
    } else if b.len() == 0 {
        false
    } else if a[0] != b[0] {
        a[0] < b[0]
    } else {
        lex_le(a.drop_first(), b.drop_first())
    }
}

/// The lexicographic order as a relation.
pub open spec fn lex_order() -> spec_fn(Seq<char>, Seq<char>) -> bool {
    |a: Seq<char>, b: Seq<char>| lex_le(a, b)
}

proof fn lemma_lex_reflexive(a: Seq<char>)
    ensures
        lex_le(a, a),
    decreases a.len(),
{
    if a.len() > 0 {
        lemma_lex_reflexive(a.drop_first());
    }
}

proof fn lemma_lex_antisymmetric(a: Seq<char>, b: Seq<char>)
    requires
        lex_le(a, b),
        lex_le(b, a),
    ensures
        a == b,
    decreases a.len(),
{
    if a.len() > 0 && b.len() > 0 {
        assert(a[0] == b[0]);
        lemma_lex_antisymmetric(a.drop_first(), b.drop_first());
        assert(a =~= seq![a[0]] + a.drop_first());
        assert(b =~= seq![b[0]] + b.drop_first());
    }
}

proof fn lemma_lex_transitive(a: Seq<char>, b: Seq<char>, c: Seq<char>)
    requires
        lex_le(a, b),
        lex_le(b, c),
    ensures
        lex_le(a, c),
    decreases a.len(),
{
    if a.len() > 0 && b.len() > 0 && c.len() > 0 {
        if a[0] == b[0] && b[0] == c[0] {
            lemma_lex_transitive(a.drop_first(), b.drop_first(), c.drop_first());
        }
    }
}

proof fn lemma_lex_connected(a: Seq<char>, b: Seq<char>)
    ensures
        lex_le(a, b) || lex_le(b, a),
    decreases a.len(),
{
    if a.len() > 0 && b.len() > 0 {
        if a[0] == b[0] {
            lemma_lex_connected(a.drop_first(), b.drop_first());
        }
    }
}

/// The lexicographic order of characters is a total order.
pub proof fn lemma_lex_total_order()
    ensures
        total_ordering(lex_order()),
{
    assert forall|a: Seq<char>| #[trigger] lex_order()(a, a) by {
        lemma_lex_reflexive(a);
    }
    assert forall|a: Seq<char>, b: Seq<char>| #[trigger] lex_order()(a, b) && #[trigger] lex_order()(b, a) implies a == b by {
        lemma_lex_antisymmetric(a, b);
    }
    assert forall|a: Seq<char>, b: Seq<char>, c: Seq<char>| #[trigger] lex_order()(a, b) && #[trigger] lex_order()(b, c) implies lex_order()(a, c) by {
        lemma_lex_transitive(a, b, c);
    }
    assert forall|a: Seq<char>, b: Seq<char>| #[trigger] lex_order()(a, b) || #[trigger] lex_order()(b, a) by {
        lemma_lex_connected(a, b);
    }
}

proof fn lemma_lex_step(a: Seq<char>, b: Seq<char>, i: int)
    requires
        0 <= i < a.len(),
        i < b.len(),
        a[i] == b[i],
    ensures
        lex_le(a.skip(i), b.skip(i)) == lex_le(a.skip(i + 1), b.skip(i + 1)),
{
    assert(a.skip(i).drop_first() =~= a.skip(i + 1));
    assert(b.skip(i).drop_first() =~= b.skip(i + 1));
}

/// Whether `a` comes no later than `b`.
pub fn str_lex_le(a: &str, b: &str) -> (res: bool)
    ensures
        res == lex_le(a@, b@),
{
    let ac = chars_of(a);
    let bc = chars_of(b);
    let mut i: usize = 0;
    assert(a@.skip(0) =~= a@);
    assert(b@.skip(0) =~= b@);
    loop
        invariant
            ac@ == a@,
            bc@ == b@,
            i <= ac.len(),
            i <= bc.len(),
            lex_le(a@, b@) == lex_le(a@.skip(i as int), b@.skip(i as int)),
        decreases ac.len() - i,
    {
        if i == ac.len() {
            return true;
        }
        if i == bc.len() {
            return false;
        }
        let x = ac[i];
        let y = bc[i];
        assert(a@.skip(i as int)[0] == x && b@.skip(i as int)[0] == y);
        if x != y {
            return x < y;
        }
        proof {
            lemma_lex_step(a@, b@, i as int);
        }
        i += 1;
    }
}

/// `v` sorted in lexicographic order.
pub fn sorted_strings(v: &Vec<String>) -> (res: Vec<String>)
    ensures
        string_views(res@) == string_views(v@).sort_by(lex_order()),
{
    proof {
        lemma_lex_total_order();
    }
    let mut res: Vec<String> = Vec::new();
    let mut i: usize = 0;
    assert(string_views(res@) =~= string_views(v@).take(0));
    while i < v.len()
        invariant
            i <= v.len(),
            sorted_by(string_views(res@), lex_order()),
            string_views(res@).to_multiset() == string_views(v@).take(i as int).to_multiset(),
        decreases v.len() - i,
    {
        let ghost before = string_views(res@);
        let ghost x = v@[i as int]@;
        let mut p: usize = 0;
        loop
            invariant
                i < v.len(),
                p <= res.len(),
                before == string_views(res@),
                x == v@[i as int]@,
                forall|k: int| 0 <= k < p ==> lex_le(#[trigger] before[k], x),
            ensures
                p <= res.len(),
                before == string_views(res@),
                forall|k: int| 0 <= k < p ==> lex_le(#[trigger] before[k], x),
                p < res.len() ==> !lex_le(before[p as int], x),
            decreases res.len() - p,
        {
            if p == res.len() {
                break;
            }
            if !str_lex_le(res[p].as_str(), v[i].as_str()) {
                break;
            }
            p += 1;
        }
        let item = v[i].clone();
        res.insert(p, item);
        proof {
            let after = string_views(res@);
            assert(after =~= before.insert(p as int, x));
            assert forall|j: int, k: int| 0 <= j < k < after.len() implies #[trigger] lex_order()(after[j], after[k]) by {
                if k < p {
                    assert(lex_order()(before[j], before[k]));
                } else if k == p {
                    assert(lex_le(before[j], x));
                } else if j > p {
                    assert(lex_order()(before[j - 1], before[k - 1]));
                } else if j == p {
                    lemma_lex_connected(before[p as int], x);
                    if p < k - 1 {
                        assert(lex_order()(before[p as int], before[k - 1]));
                        lemma_lex_transitive(x, before[p as int], before[k - 1]);
                    }
                } else {
                    assert(lex_order()(before[j], before[k - 1]));
                }
            }
            vstd::seq_lib::to_multiset_insert(before, p as int, x);
            let done = string_views(v@).take(i as int);
            let next = string_views(v@).take(i + 1);
            assert(next =~= done.push(x));
            vstd::seq_lib::to_multiset_build(done, x);
        }
        i += 1;
    }
    proof {
        assert(string_views(v@).take(v.len() as int) =~= string_views(v@));
        string_views(v@).lemma_sort_by_ensures(lex_order());
        vstd::seq_lib::lemma_sorted_unique(string_views(res@), string_views(v@).sort_by(lex_order()), lex_order());
    }
    res
}

/// Sorting two arrangements of the same strings gives the same sequence.
pub proof fn lemma_sorted_permutation(a: Seq<Seq<char>>, b: Seq<Seq<char>>)
    requires
        a.to_multiset() == b.to_multiset(),
    ensures
        a.sort_by(lex_order()) == b.sort_by(lex_order()),
{
    lemma_lex_total_order();
    a.lemma_sort_by_ensures(lex_order());
    b.lemma_sort_by_ensures(lex_order());
    vstd::seq_lib::lemma_sorted_unique(a.sort_by(lex_order()), b.sort_by(lex_order()), lex_order());
}

} // verus!
