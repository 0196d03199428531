//! Stable descending sort of `(input position, score)` pairs: candidates are
//! ordered by score, and candidates with equal scores keep their input order.

use vstd::prelude::*;
use vstd::seq_lib::group_to_multiset_ensures;

verus! {

/// Inserts `x` behind every element whose score is at least `x`'s: the
/// insertion step of a stable sort by descending score.
pub open spec fn insert_desc(s: Seq<(usize, usize)>, x: (usize, usize)) -> Seq<(usize, usize)>
    decreases s.len(),
{
    if s.len() == 0 {
        seq![x]
    } else if s[0].1 >= x.1 {
        seq![s[0]] + insert_desc(s.drop_first(), x)
    } else {
        seq![x] + s
    }
}

/// Stable sort by descending score: inserts the pairs left to right.
pub open spec fn sort_desc(s: Seq<(usize, usize)>) -> Seq<(usize, usize)>
    decreases s.len(),
{
    if s.len() == 0 {
        s
    } else {
        insert_desc(sort_desc(s.drop_last()), s.last())
    }
}

/// Strictly ordered by descending score, ties broken by ascending input
/// position: the unique order a stable descending sort produces when all
/// input positions differ.
pub open spec fn rank_ordered(s: Seq<(usize, usize)>) -> bool {
    forall|i: int, j: int|
        0 <= i < j < s.len() ==> (s[i].1 > s[j].1 || (s[i].1 == s[j].1 && s[i].0 < s[j].0))
}

/// Input positions strictly increase, as they do in the scored candidate
/// list.
pub open spec fn positions_increasing(s: Seq<(usize, usize)>) -> bool {
    forall|i: int, j: int| 0 <= i < j < s.len() ==> s[i].0 < s[j].0
}

/// Where the insertion lands: if the first `j` elements score at least `x`
/// and the element at `j` (if any) scores less, `x` goes exactly to
/// position `j`.
pub proof fn lemma_insert_desc_at(s: Seq<(usize, usize)>, x: (usize, usize), j: int)
    requires
        0 <= j <= s.len(),
        forall|k: int| 0 <= k < j ==> s[k].1 >= x.1,
        j < s.len() ==> s[j].1 < x.1,
    ensures
        insert_desc(s, x) == s.take(j).push(x) + s.skip(j),
    decreases j,
{
    if j == 0 {
        if s.len() == 0 {
            assert(insert_desc(s, x) =~= s.take(0).push(x) + s.skip(0));
        } else {
            assert(s[0].1 < x.1);
            assert(insert_desc(s, x) =~= s.take(0).push(x) + s.skip(0));
        }
    } else {
        assert(s[0].1 >= x.1);
        let d = s.drop_first();
        assert(forall|k: int| 0 <= k < j - 1 ==> d[k].1 >= x.1);
        lemma_insert_desc_at(d, x, j - 1);
        assert(insert_desc(s, x) == seq![s[0]] + (d.take(j - 1).push(x) + d.skip(j - 1)));
        assert(insert_desc(s, x) =~= s.take(j).push(x) + s.skip(j));
    }
}

/// Inserting adds exactly one element.
pub proof fn lemma_insert_desc_multiset(s: Seq<(usize, usize)>, x: (usize, usize))
    ensures
        insert_desc(s, x).len() == s.len() + 1,
        insert_desc(s, x).to_multiset() == s.to_multiset().insert(x),
    decreases s.len(),
{
    broadcast use group_to_multiset_ensures;

    if s.len() == 0 {
        assert(seq![x] =~= Seq::<(usize, usize)>::empty().push(x));
        assert(seq![x].to_multiset() =~= s.to_multiset().insert(x));
    } else if s[0].1 >= x.1 {
        let d = s.drop_first();
        lemma_insert_desc_multiset(d, x);
        lemma_multiset_of_cons(s[0], insert_desc(d, x));
        lemma_multiset_of_cons(s[0], d);
        assert(seq![s[0]] + d =~= s);
        assert(insert_desc(s, x).to_multiset() =~= s.to_multiset().insert(x));
    } else {
        lemma_multiset_of_cons(x, s);
        assert(insert_desc(s, x).to_multiset() =~= s.to_multiset().insert(x));
    }
}

/// The multiset of a sequence with one element put in front.
proof fn lemma_multiset_of_cons(x: (usize, usize), s: Seq<(usize, usize)>)
    ensures
        (seq![x] + s).to_multiset() == s.to_multiset().insert(x),
    decreases s.len(),
{
    broadcast use group_to_multiset_ensures;

    if s.len() == 0 {
        assert(seq![x] + s =~= Seq::<(usize, usize)>::empty().push(x));
    } else {
        let t = seq![x] + s;
        assert(t.drop_last() =~= seq![x] + s.drop_last());
        lemma_multiset_of_cons(x, s.drop_last());
        assert(t =~= t.drop_last().push(s.last()));
        assert(s =~= s.drop_last().push(s.last()));
        assert(t.to_multiset() =~= s.to_multiset().insert(x));
    }
}

/// Sorting permutes: same length, same multiset of pairs.
pub proof fn lemma_sort_desc_multiset(s: Seq<(usize, usize)>)
    ensures
        sort_desc(s).len() == s.len(),
        sort_desc(s).to_multiset() == s.to_multiset(),
    decreases s.len(),
{
    broadcast use group_to_multiset_ensures;

    if s.len() > 0 {
        let d = s.drop_last();
        lemma_sort_desc_multiset(d);
        lemma_insert_desc_multiset(sort_desc(d), s.last());
        assert(s =~= d.push(s.last()));
        assert(sort_desc(s).to_multiset() =~= s.to_multiset());
    }
}

/// Everything in the sorted sequence comes from the input.
pub proof fn lemma_sort_desc_contains(s: Seq<(usize, usize)>, y: (usize, usize))
    requires
        sort_desc(s).contains(y),
    ensures
        s.contains(y),
{
    broadcast use group_to_multiset_ensures;

    lemma_sort_desc_multiset(s);
    assert(sort_desc(s).to_multiset().count(y) > 0);
    assert(s.to_multiset().count(y) > 0);
}

/// Inserting keeps the order when `x`'s input position is behind every
/// element that ties with it.
proof fn lemma_insert_desc_ordered(s: Seq<(usize, usize)>, x: (usize, usize))
    requires
        rank_ordered(s),
        forall|k: int| 0 <= k < s.len() && s[k].1 == x.1 ==> s[k].0 < x.0,
    ensures
        rank_ordered(insert_desc(s, x)),
    decreases s.len(),
{
    if s.len() == 0 {
    } else if s[0].1 >= x.1 {
        let d = s.drop_first();
        lemma_insert_desc_ordered(d, x);
        lemma_insert_desc_multiset(d, x);
        let r = insert_desc(s, x);
        assert(r == seq![s[0]] + insert_desc(d, x));
        let t = insert_desc(d, x);
        // Every element of the tail is either x or an element of d, so the
        // head stays ahead of all of them.
        assert forall|j: int| 1 <= j < r.len() implies (r[0].1 > #[trigger] r[j].1 || (r[0].1
            == r[j].1 && r[0].0 < r[j].0)) by {
            broadcast use group_to_multiset_ensures;

            assert(r[j] == t[j - 1]);
            assert(t.contains(t[j - 1]));
            assert(d.to_multiset().insert(x).contains(t[j - 1]));
            if t[j - 1] == x {
                assert(s[0].1 >= x.1);
                if s[0].1 == x.1 {
                    assert(s[0].0 < x.0);
                }
            } else {
                assert(d.to_multiset().contains(t[j - 1]));
                assert(d.contains(t[j - 1]));
                let k = choose|k: int| 0 <= k < d.len() && d[k] == t[j - 1];
                assert(s[k + 1] == d[k]);
            }
        }
    } else {
        let r = insert_desc(s, x);
        assert(r == seq![x] + s);
        assert forall|i: int, j: int| 0 <= i < j < r.len() implies (r[i].1 > r[j].1 || (r[i].1
            == r[j].1 && r[i].0 < r[j].0)) by {
            if i == 0 {
                assert(r[j] == s[j - 1]);
                if j - 1 == 0 {
                    assert(s[0].1 < x.1);
                } else {
                    assert(s[0].1 > s[j - 1].1 || (s[0].1 == s[j - 1].1 && s[0].0 < s[j - 1].0));
                }
            } else {
                assert(r[i] == s[i - 1] && r[j] == s[j - 1]);
            }
        }
    }
}

/// A stable descending sort of pairs with increasing input positions is
/// strictly ordered by score then position.
pub proof fn lemma_sort_desc_ordered(s: Seq<(usize, usize)>)
    requires
        positions_increasing(s),
    ensures
        rank_ordered(sort_desc(s)),
    decreases s.len(),
{
    broadcast use group_to_multiset_ensures;

    if s.len() > 0 {
        let d = s.drop_last();
        let x = s.last();
        assert(positions_increasing(d));
        lemma_sort_desc_ordered(d);
        lemma_sort_desc_multiset(d);
        let t = sort_desc(d);
        assert forall|k: int| 0 <= k < t.len() && t[k].1 == x.1 implies t[k].0 < x.0 by {
            assert(t.contains(t[k]));
            assert(d.to_multiset().contains(t[k]));
            assert(d.contains(t[k]));
            let m = choose|m: int| 0 <= m < d.len() && d[m] == t[k];
            assert(d[m].0 < x.0);
        }
        lemma_insert_desc_ordered(t, x);
    }
}

/// Sorts the scored pairs by descending score, keeping input order among
/// equal scores.
pub(crate) fn sort_pairs_desc(pairs: &Vec<(usize, usize)>) -> (r: Vec<(usize, usize)>)
    ensures
        r@ == sort_desc(pairs@),
{
    let n = pairs.len();
    let mut out: Vec<(usize, usize)> = Vec::new();
    let mut i: usize = 0;
    while i < n
        invariant
            n == pairs@.len(),
            i <= n,
            out@ == sort_desc(pairs@.take(i as int)),
        decreases n - i,
    {
        let x = pairs[i];
        let olen = out.len();
        let mut j: usize = 0;
        while j < olen && out[j].1 >= x.1
            invariant
                olen == out@.len(),
                j <= olen,
                forall|k: int| 0 <= k < j ==> out@[k].1 >= x.1,
            decreases olen - j,
        {
            j = j + 1;
        }
        let ghost prev = out@;
        out.insert(j, x);
        proof {
            lemma_insert_desc_at(prev, x, j as int);
            assert(out@ =~= prev.take(j as int).push(x) + prev.skip(j as int));
            assert(pairs@.take(i + 1).drop_last() =~= pairs@.take(i as int));
            assert(pairs@.take(i + 1).last() == pairs@[i as int]);
            assert(out@ == sort_desc(pairs@.take(i + 1)));
        }
        i = i + 1;
    }
    proof {
        assert(pairs@.take(n as int) =~= pairs@);
    }
    out
}

} // verus!
