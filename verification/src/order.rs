//! The canonical order of extracted host entries: stably sorted by name and
//! deduplicated, the first occurrence of each name winning.

use vstd::prelude::*;
use vstd::seq_lib::group_to_multiset_ensures;
use crate::parser::HostEntry;
use crate::text::{lex_lt, lex_le, str_lex_lt, lemma_lex_asym, lemma_lex_total, lemma_lex_trans};

verus! {

/// The name and connection string of each entry, as character sequences.
pub open spec fn pairs_of(s: Seq<HostEntry>) -> Seq<(Seq<char>, Seq<char>)> {
    s.map_values(|e: HostEntry| (e.name@, e.connection_string@))
}

/// Inserts `x` behind every entry whose name is not above `x`'s: the
/// insertion step of a stable ascending sort by name.
pub open spec fn insert_le(
    s: Seq<(Seq<char>, Seq<char>)>,
    x: (Seq<char>, Seq<char>),
) -> Seq<(Seq<char>, Seq<char>)>
    decreases s.len(),
{
    if s.len() == 0 {
        seq![x]
    } else if !lex_lt(x.0, s[0].0) {
        seq![s[0]] + insert_le(s.drop_first(), x)
    } else {
        seq![x] + s
    }
}

/// Stable ascending sort by name.
pub open spec fn sort_by_name(s: Seq<(Seq<char>, Seq<char>)>) -> Seq<(Seq<char>, Seq<char>)>
    decreases s.len(),
{
    if s.len() == 0 {
        s
    } else {
        insert_le(sort_by_name(s.drop_last()), s.last())
    }
}

/// Names never decrease along the sequence.
pub open spec fn name_sorted(s: Seq<(Seq<char>, Seq<char>)>) -> bool {
    forall|i: int, j: int| 0 <= i < j < s.len() ==> lex_le(s[i].0, s[j].0)
}

/// No two neighbours share a name.
pub open spec fn names_distinct_adjacent(s: Seq<(Seq<char>, Seq<char>)>) -> bool {
    forall|i: int| 0 <= i < s.len() - 1 ==> (#[trigger] s[i]).0 != s[i + 1].0
}

/// What remains of `s[i..]` after removing entries whose name equals the
/// most recently kept name `last`, then each later run of equal names but
/// its first entry.
pub open spec fn dedup_from(
    s: Seq<(Seq<char>, Seq<char>)>,
    i: int,
    last: Seq<char>,
) -> Seq<(Seq<char>, Seq<char>)>
    decreases s.len() - i when 0 <= i
{
    if i >= s.len() {
        Seq::empty()
    } else if s[i].0 == last {
        dedup_from(s, i + 1, last)
    } else {
        seq![s[i]] + dedup_from(s, i + 1, s[i].0)
    }
}

/// Keeps the first entry of every run of equal names.
pub open spec fn dedup_by_name(s: Seq<(Seq<char>, Seq<char>)>) -> Seq<(Seq<char>, Seq<char>)> {
    if s.len() == 0 {
        s
    } else {
        seq![s[0]] + dedup_from(s, 1, s[0].0)
    }
}

/// The canonical form of an extracted entry list: sorted by name, first
/// occurrence of each name kept.
pub open spec fn canonical(s: Seq<(Seq<char>, Seq<char>)>) -> Seq<(Seq<char>, Seq<char>)> {
    dedup_by_name(sort_by_name(s))
}

/// Where the insertion lands: if the first `j` elements sort no later than
/// `x` and the element at `j` (if any) sorts later, `x` goes exactly to
/// position `j`.
pub proof fn lemma_insert_le_at(s: Seq<(Seq<char>, Seq<char>)>, x: (Seq<char>, Seq<char>), j: int)
    requires
        0 <= j <= s.len(),
        forall|k: int| 0 <= k < j ==> !lex_lt(x.0, (#[trigger] s[k]).0),
        j < s.len() ==> lex_lt(x.0, s[j].0),
    ensures
        insert_le(s, x) == s.take(j).push(x) + s.skip(j),
    decreases j,
{
    if j == 0 {
        if s.len() == 0 {
            assert(insert_le(s, x) =~= s.take(0).push(x) + s.skip(0));
        } else {
            assert(insert_le(s, x) =~= s.take(0).push(x) + s.skip(0));
        }
    } else {
        let d = s.drop_first();
        assert(forall|k: int| 0 <= k < j - 1 ==> !lex_lt(x.0, (#[trigger] d[k]).0));
        lemma_insert_le_at(d, x, j - 1);
        assert(insert_le(s, x) == seq![s[0]] + (d.take(j - 1).push(x) + d.skip(j - 1)));
        assert(insert_le(s, x) =~= s.take(j).push(x) + s.skip(j));
    }
}

/// The multiset of a sequence with one element put in front.
proof fn lemma_cons_multiset(x: (Seq<char>, Seq<char>), s: Seq<(Seq<char>, Seq<char>)>)
    ensures
        (seq![x] + s).to_multiset() == s.to_multiset().insert(x),
    decreases s.len(),
{
    broadcast use group_to_multiset_ensures;

    if s.len() == 0 {
        assert(seq![x] + s =~= Seq::<(Seq<char>, Seq<char>)>::empty().push(x));
    } else {
        let t = seq![x] + s;
        assert(t.drop_last() =~= seq![x] + s.drop_last());
        lemma_cons_multiset(x, s.drop_last());
        assert(t =~= t.drop_last().push(s.last()));
        assert(s =~= s.drop_last().push(s.last()));
        assert(t.to_multiset() =~= s.to_multiset().insert(x));
    }
}

/// Inserting adds exactly one element.
pub proof fn lemma_insert_le_multiset(s: Seq<(Seq<char>, Seq<char>)>, x: (Seq<char>, Seq<char>))
    ensures
        insert_le(s, x).len() == s.len() + 1,
        insert_le(s, x).to_multiset() == s.to_multiset().insert(x),
    decreases s.len(),
{
    broadcast use group_to_multiset_ensures;

    if s.len() == 0 {
        assert(seq![x] =~= Seq::<(Seq<char>, Seq<char>)>::empty().push(x));
        assert(insert_le(s, x).to_multiset() =~= s.to_multiset().insert(x));
    } else if !lex_lt(x.0, s[0].0) {
        let d = s.drop_first();
        lemma_insert_le_multiset(d, x);
        lemma_cons_multiset(s[0], insert_le(d, x));
        lemma_cons_multiset(s[0], d);
        assert(seq![s[0]] + d =~= s);
        assert(insert_le(s, x).to_multiset() =~= s.to_multiset().insert(x));
    } else {
        lemma_cons_multiset(x, s);
        assert(insert_le(s, x).to_multiset() =~= s.to_multiset().insert(x));
    }
}

/// Sorting permutes: same length, same multiset of entries.
pub proof fn lemma_sort_by_name_multiset(s: Seq<(Seq<char>, Seq<char>)>)
    ensures
        sort_by_name(s).len() == s.len(),
        sort_by_name(s).to_multiset() == s.to_multiset(),
    decreases s.len(),
{
    broadcast use group_to_multiset_ensures;

    if s.len() > 0 {
        let d = s.drop_last();
        lemma_sort_by_name_multiset(d);
        lemma_insert_le_multiset(sort_by_name(d), s.last());
        assert(s =~= d.push(s.last()));
        assert(sort_by_name(s).to_multiset() =~= s.to_multiset());
    }
}

/// Inserting into a name-sorted sequence keeps it name-sorted.
proof fn lemma_insert_le_sorted(s: Seq<(Seq<char>, Seq<char>)>, x: (Seq<char>, Seq<char>))
    requires
        name_sorted(s),
    ensures
        name_sorted(insert_le(s, x)),
    decreases s.len(),
{
    broadcast use group_to_multiset_ensures;

    if s.len() == 0 {
    } else if !lex_lt(x.0, s[0].0) {
        let d = s.drop_first();
        lemma_insert_le_sorted(d, x);
        lemma_insert_le_multiset(d, x);
        let r = insert_le(s, x);
        let t = insert_le(d, x);
        assert(r == seq![s[0]] + t);
        assert forall|j: int| 1 <= j < r.len() implies lex_le(r[0].0, (#[trigger] r[j]).0) by {
            assert(r[j] == t[j - 1]);
            assert(t.contains(t[j - 1]));
            assert(d.to_multiset().insert(x).contains(t[j - 1]));
            if t[j - 1] == x {
                lemma_lex_total(x.0, s[0].0);
                lemma_lex_asym(s[0].0, x.0);
            } else {
                assert(d.to_multiset().contains(t[j - 1]));
                assert(d.contains(t[j - 1]));
                let k = choose|k: int| 0 <= k < d.len() && d[k] == t[j - 1];
                assert(s[k + 1] == d[k]);
            }
        }
        assert forall|i: int, j: int| 0 <= i < j < r.len() implies lex_le(
            (#[trigger] r[i]).0, (#[trigger] r[j]).0) by {
            if i > 0 {
                assert(r[i] == t[i - 1] && r[j] == t[j - 1]);
            }
        }
    } else {
        let r = insert_le(s, x);
        assert(r == seq![x] + s);
        assert forall|i: int, j: int| 0 <= i < j < r.len() implies lex_le(
            (#[trigger] r[i]).0, (#[trigger] r[j]).0) by {
            if i == 0 {
                assert(r[j] == s[j - 1]);
                if j == 1 {
                } else {
                    assert(lex_le(s[0].0, s[j - 1].0));
                    if lex_lt(s[0].0, s[j - 1].0) {
                        lemma_lex_trans(x.0, s[0].0, s[j - 1].0);
                    }
                }
            } else {
                assert(r[i] == s[i - 1] && r[j] == s[j - 1]);
            }
        }
    }
}

/// The sort always yields a name-sorted sequence.
pub proof fn lemma_sort_by_name_sorted(s: Seq<(Seq<char>, Seq<char>)>)
    ensures
        name_sorted(sort_by_name(s)),
    decreases s.len(),
{
    if s.len() > 0 {
        lemma_sort_by_name_sorted(s.drop_last());
        lemma_insert_le_sorted(sort_by_name(s.drop_last()), s.last());
    }
}

/// Sorting an already name-sorted sequence changes nothing.
pub proof fn lemma_sort_by_name_identity(s: Seq<(Seq<char>, Seq<char>)>)
    requires
        name_sorted(s),
    ensures
        sort_by_name(s) == s,
    decreases s.len(),
{
    if s.len() > 0 {
        let d = s.drop_last();
        let x = s.last();
        assert(name_sorted(d));
        lemma_sort_by_name_identity(d);
        assert forall|k: int| 0 <= k < d.len() implies !lex_lt(x.0, (#[trigger] d[k]).0) by {
            assert(lex_le(s[k].0, x.0));
            lemma_lex_asym(d[k].0, x.0);
        }
        lemma_insert_le_at(d, x, d.len() as int);
        assert(d.take(d.len() as int).push(x) + d.skip(d.len() as int) =~= s);
    }
}

/// What deduplication from position `i` yields when everything from `i` on
/// sorts at or above the most recently kept name.
proof fn lemma_dedup_from_props(s: Seq<(Seq<char>, Seq<char>)>, i: int, last: Seq<char>)
    requires
        name_sorted(s),
        0 <= i <= s.len(),
        forall|k: int| i <= k < s.len() ==> lex_le(last, (#[trigger] s[k]).0),
    ensures
        ({
            let d = dedup_from(s, i, last);
            &&& names_distinct_adjacent(d)
            &&& name_sorted(d)
            &&& forall|m: int| 0 <= m < d.len() ==> lex_le(last, (#[trigger] d[m]).0)
            &&& (d.len() > 0 ==> d[0].0 != last)
            &&& forall|m: int| 0 <= m < d.len() ==> exists|k: int| i <= k < s.len()
                && (#[trigger] d[m]) == s[k]
        }),
    decreases s.len() - i,
{
    if i >= s.len() {
    } else if s[i].0 == last {
        lemma_dedup_from_props(s, i + 1, last);
    } else {
        assert forall|k: int| i + 1 <= k < s.len() implies lex_le(s[i].0, (#[trigger] s[k]).0) by {
            assert(lex_le(s[i].0, s[k].0));
        }
        lemma_dedup_from_props(s, i + 1, s[i].0);
        let t = dedup_from(s, i + 1, s[i].0);
        let d = dedup_from(s, i, last);
        assert(d == seq![s[i]] + t);
        assert forall|m: int| 0 <= m < d.len() implies exists|k: int| i <= k < s.len()
            && (#[trigger] d[m]) == s[k] by {
            if m == 0 {
                assert(d[0] == s[i]);
            } else {
                assert(d[m] == t[m - 1]);
            }
        }
    }
}

/// Deduplication of a name-sorted sequence: neighbours get distinct names,
/// order is kept, and every survivor is one of the original entries.
pub proof fn lemma_dedup_by_name_props(s: Seq<(Seq<char>, Seq<char>)>)
    requires
        name_sorted(s),
    ensures
        names_distinct_adjacent(dedup_by_name(s)),
        name_sorted(dedup_by_name(s)),
        forall|m: int| 0 <= m < dedup_by_name(s).len() ==> exists|k: int| 0 <= k < s.len()
            && (#[trigger] dedup_by_name(s)[m]) == s[k],
{
    if s.len() > 0 {
        assert forall|k: int| 1 <= k < s.len() implies lex_le(s[0].0, (#[trigger] s[k]).0) by {
            assert(lex_le(s[0].0, s[k].0));
        }
        lemma_dedup_from_props(s, 1, s[0].0);
        let t = dedup_from(s, 1, s[0].0);
        let d = dedup_by_name(s);
        assert(d == seq![s[0]] + t);
        assert forall|m: int| 0 <= m < d.len() implies exists|k: int| 0 <= k < s.len()
            && (#[trigger] d[m]) == s[k] by {
            if m == 0 {
                assert(d[0] == s[0]);
            } else {
                assert(d[m] == t[m - 1]);
            }
        }
    }
}

/// Deduplicating a sequence whose neighbours already have distinct names
/// changes nothing.
proof fn lemma_dedup_from_identity(s: Seq<(Seq<char>, Seq<char>)>, i: int)
    requires
        names_distinct_adjacent(s),
        1 <= i <= s.len(),
    ensures
        dedup_from(s, i, s[i - 1].0) == s.skip(i),
    decreases s.len() - i,
{
    if i >= s.len() {
        assert(dedup_from(s, i, s[i - 1].0) =~= s.skip(i));
    } else {
        assert(s[i].0 != s[i - 1].0);
        lemma_dedup_from_identity(s, i + 1);
        assert(dedup_from(s, i, s[i - 1].0) == seq![s[i]] + s.skip(i + 1));
        assert(seq![s[i]] + s.skip(i + 1) =~= s.skip(i));
    }
}

pub proof fn lemma_dedup_by_name_identity(s: Seq<(Seq<char>, Seq<char>)>)
    requires
        names_distinct_adjacent(s),
    ensures
        dedup_by_name(s) == s,
{
    if s.len() > 0 {
        lemma_dedup_from_identity(s, 1);
        assert(dedup_by_name(s) =~= s);
    }
}

/// Merging, sorting and deduplicating is idempotent: applying the canonical
/// form to its own output is a no-op.
pub proof fn lemma_canonical_idempotent(s: Seq<(Seq<char>, Seq<char>)>)
    ensures
        canonical(canonical(s)) == canonical(s),
{
    lemma_sort_by_name_sorted(s);
    lemma_dedup_by_name_props(sort_by_name(s));
    let c = canonical(s);
    lemma_sort_by_name_identity(c);
    lemma_dedup_by_name_identity(c);
}

/// Every entry of the canonical form is one of the original entries.
pub proof fn lemma_canonical_membership(s: Seq<(Seq<char>, Seq<char>)>)
    ensures
        forall|m: int| 0 <= m < canonical(s).len() ==> exists|k: int| 0 <= k < s.len()
            && (#[trigger] canonical(s)[m]) == s[k],
{
    broadcast use group_to_multiset_ensures;

    lemma_sort_by_name_sorted(s);
    lemma_sort_by_name_multiset(s);
    lemma_dedup_by_name_props(sort_by_name(s));
    let t = sort_by_name(s);
    assert forall|m: int| 0 <= m < canonical(s).len() implies exists|k: int| 0 <= k < s.len()
        && (#[trigger] canonical(s)[m]) == s[k] by {
        let k1 = choose|k1: int| 0 <= k1 < t.len() && canonical(s)[m] == t[k1];
        assert(t.contains(t[k1]));
        assert(s.to_multiset().contains(t[k1]));
        assert(s.contains(t[k1]));
        let k = choose|k: int| 0 <= k < s.len() && s[k] == t[k1];
    }
}

/// Sorts entries by name, keeping input order among equal names.
pub(crate) fn sort_entries_by_name(v: &Vec<HostEntry>) -> (r: Vec<HostEntry>)
    ensures
        pairs_of(r@) == sort_by_name(pairs_of(v@)),
{
    let n = v.len();
    let mut out: Vec<HostEntry> = Vec::new();
    let mut i: usize = 0;
    while i < n
        invariant
            n == v@.len(),
            i <= n,
            pairs_of(out@) == sort_by_name(pairs_of(v@.take(i as int))),
        decreases n - i,
    {
        let x = v[i].clone();
        let olen = out.len();
        let mut j: usize = 0;
        while j < olen && !str_lex_lt(x.name.as_str(), out[j].name.as_str())
            invariant
                olen == out@.len(),
                j <= olen,
                x.name@ == v@[i as int].name@,
                forall|k: int| 0 <= k < j ==> !lex_lt(x.name@, (#[trigger] pairs_of(out@)[k]).0),
            decreases olen - j,
        {
            proof {
                assert(pairs_of(out@)[j as int].0 == out@[j as int].name@);
            }
            j = j + 1;
        }
        let ghost prev = pairs_of(out@);
        let ghost xp = (x.name@, x.connection_string@);
        out.insert(j, x);
        proof {
            lemma_insert_le_at(prev, xp, j as int);
            assert(pairs_of(out@) =~= prev.take(j as int).push(xp) + prev.skip(j as int));
            assert(pairs_of(v@.take(i + 1)).drop_last() =~= pairs_of(v@.take(i as int)));
            assert(pairs_of(v@.take(i + 1)).last() == xp);
            assert(pairs_of(out@) == sort_by_name(pairs_of(v@.take(i + 1))));
        }
        i = i + 1;
    }
    proof {
        assert(v@.take(n as int) =~= v@);
    }
    out
}

/// Removes every entry whose name equals the previously kept entry's name.
pub(crate) fn dedup_entries_by_name(v: &Vec<HostEntry>) -> (r: Vec<HostEntry>)
    ensures
        pairs_of(r@) == dedup_by_name(pairs_of(v@)),
{
    let n = v.len();
    let mut out: Vec<HostEntry> = Vec::new();
    if n == 0 {
        proof {
            assert(pairs_of(out@) =~= dedup_by_name(pairs_of(v@)));
        }
        return out;
    }
    out.push(v[0].clone());
    let mut i: usize = 1;
    while i < n
        invariant
            n == v@.len(),
            1 <= i <= n,
            out@.len() >= 1,
            pairs_of(out@).last().0 == out@[out@.len() - 1].name@,
            dedup_by_name(pairs_of(v@)) == pairs_of(out@) + dedup_from(
                pairs_of(v@), i as int, pairs_of(out@).last().0),
        decreases n - i,
    {
        let same = v[i].name == out[out.len() - 1].name;
        if !same {
            let ghost prev = pairs_of(out@);
            out.push(v[i].clone());
            proof {
                assert(pairs_of(out@) =~= prev.push((v@[i as int].name@,
                    v@[i as int].connection_string@)));
                assert(pairs_of(out@) + dedup_from(pairs_of(v@), i + 1, pairs_of(out@).last().0)
                    =~= prev + (seq![pairs_of(v@)[i as int]] + dedup_from(pairs_of(v@), i + 1,
                    pairs_of(v@)[i as int].0)));
            }
        }
        i = i + 1;
    }
    proof {
        assert(dedup_from(pairs_of(v@), n as int, pairs_of(out@).last().0)
            =~= Seq::<(Seq<char>, Seq<char>)>::empty());
        assert(pairs_of(out@) + Seq::<(Seq<char>, Seq<char>)>::empty() =~= pairs_of(out@));
    }
    out
}

} // verus!
