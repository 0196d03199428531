//! The search engine: scores every candidate against the query, keeps the
//! positive scores, ranks them stably by descending score, and truncates to
//! the result cap.  The empty query browses the candidates in their given
//! order instead.

use vstd::prelude::*;
use crate::parser::HostEntry;
use crate::fuzzy::{cscore, calculate_fuzzy_score, score_of, is_prefix_of, contains_seq, byte_len};
use crate::rank::{sort_desc, sort_pairs_desc, rank_ordered, positions_increasing,
    lemma_sort_desc_multiset, lemma_sort_desc_contains, lemma_sort_desc_ordered};
use crate::text::{norm_seq, normalize, chars_vec};
use crate::fuzzy::is_prefix_vec;

verus! {

/// The scored candidates: for every candidate with a positive score, its
/// input position paired with its score, in input order.
pub open spec fn scored_pairs(hosts: Seq<HostEntry>, q: Seq<char>, cs: bool) -> Seq<(usize, usize)>
    decreases hosts.len(),
{
    if hosts.len() == 0 {
        Seq::empty()
    } else {
        let pre = scored_pairs(hosts.drop_last(), q, cs);
        let i = hosts.len() - 1;
        let sc = cscore(hosts[i as int].name@, q, cs);
        if sc > 0 {
            pre.push((i as usize, sc as usize))
        } else {
            pre
        }
    }
}

/// What each scored pair holds: a position below `hosts.len()`, in strictly
/// increasing order, carrying that candidate's positive score.
pub proof fn lemma_scored_pairs_props(hosts: Seq<HostEntry>, q: Seq<char>, cs: bool)
    requires
        hosts.len() <= usize::MAX,
    ensures
        scored_pairs(hosts, q, cs).len() <= hosts.len(),
        positions_increasing(scored_pairs(hosts, q, cs)),
        forall|k: int| 0 <= k < scored_pairs(hosts, q, cs).len() ==> {
            let p = #[trigger] scored_pairs(hosts, q, cs)[k];
            &&& p.0 < hosts.len()
            &&& p.1 > 0
            &&& p.1 == cscore(hosts[p.0 as int].name@, q, cs)
        },
    decreases hosts.len(),
{
    if hosts.len() > 0 {
        lemma_scored_pairs_props(hosts.drop_last(), q, cs);
        assert(forall|k: int| 0 <= k < hosts.len() - 1 ==> hosts.drop_last()[k] == hosts[k]);
    }
}

/// The ranked scored pairs: stably sorted by descending score.
pub open spec fn spec_ranked(hosts: Seq<HostEntry>, query: Seq<char>, cs: bool) -> Seq<(usize, usize)> {
    sort_desc(scored_pairs(hosts, norm_seq(query, cs), cs))
}

/// The search result: for the empty query the first `n` candidates in their
/// given order; otherwise the ranked positive-scoring candidates, truncated
/// to `n`.
pub open spec fn spec_search(hosts: Seq<HostEntry>, query: Seq<char>, cs: bool, n: int) -> Seq<HostEntry> {
    if query.len() == 0 {
        if n <= hosts.len() {
            hosts.take(n)
        } else {
            hosts
        }
    } else {
        let ranked = spec_ranked(hosts, query, cs);
        let cut = if n <= ranked.len() {
            ranked.take(n)
        } else {
            ranked
        };
        cut.map_values(|p: (usize, usize)| hosts[p.0 as int])
    }
}

/// The fuzzy search engine over a fixed candidate list.
pub struct SearchEngine {
    pub hosts: Vec<HostEntry>,
}

impl SearchEngine {
    pub fn new(hosts: Vec<HostEntry>) -> (r: Self)
        ensures
            r.hosts@ == hosts@,
    {
        Self { hosts }
    }

    /// Returns the best-matching candidates in descending relevance order,
    /// at most `max_results` of them; the empty query returns the first
    /// `max_results` candidates unscored.
    pub fn search<'a>(&'a self, query: &str, case_sensitive: bool, max_results: usize) -> (r: Vec<&'a HostEntry>)
        ensures
            r@.map_values(|e: &HostEntry| *e) == spec_search(self.hosts@, query@, case_sensitive, max_results as int),
            r@.len() <= max_results,
            r@.len() <= self.hosts@.len(),
    {
        search_in(&self.hosts, query, case_sensitive, max_results)
    }
}

/// The search itself, over a borrowed candidate list.
pub(crate) fn search_in<'a>(hosts: &'a Vec<HostEntry>, query: &str, case_sensitive: bool, max_results: usize) -> (r: Vec<&'a HostEntry>)
    ensures
        r@.map_values(|e: &HostEntry| *e) == spec_search(hosts@, query@, case_sensitive, max_results as int),
        r@.len() <= max_results,
        r@.len() <= hosts@.len(),
{
    let hlen = hosts.len();
    if query.is_empty() {
        let mut out: Vec<&HostEntry> = Vec::new();
        let mut k: usize = 0;
        while k < hlen && k < max_results
            invariant
                hlen == hosts@.len(),
                k <= hlen,
                k <= max_results,
                out@.len() == k,
                forall|m: int| 0 <= m < k ==> out@[m] == &hosts@[m],
            decreases hlen - k,
        {
            out.push(&hosts[k]);
            k = k + 1;
        }
        proof {
            assert(out@.map_values(|e: &HostEntry| *e) =~= spec_search(
                hosts@, query@, case_sensitive, max_results as int));
        }
        return out;
    }

    let qn = normalize(query, case_sensitive);
    let ghost q = norm_seq(query@, case_sensitive);

    let mut pairs: Vec<(usize, usize)> = Vec::new();
    let mut i: usize = 0;
    while i < hlen
        invariant
            hlen == hosts@.len(),
            i <= hlen,
            qn@ == q,
            pairs@ == scored_pairs(hosts@.take(i as int), q, case_sensitive),
        decreases hlen - i,
    {
        let sc = calculate_fuzzy_score(hosts[i].name.as_str(), qn.as_str(), case_sensitive);
        if sc > 0 {
            pairs.push((i, sc));
        }
        proof {
            assert(hosts@.take(i + 1).drop_last() =~= hosts@.take(i as int));
            assert(hosts@.take(i + 1).last() == hosts@[i as int]);
        }
        i = i + 1;
    }
    proof {
        assert(hosts@.take(hlen as int) =~= hosts@);
    }

    let ranked = sort_pairs_desc(&pairs);
    proof {
        lemma_scored_pairs_props(hosts@, q, case_sensitive);
        lemma_sort_desc_multiset(pairs@);
        assert forall|k: int| 0 <= k < ranked@.len() implies (#[trigger] ranked@[k]).0
            < hosts@.len() by {
            assert(ranked@.contains(ranked@[k]));
            lemma_sort_desc_contains(pairs@, ranked@[k]);
            let m = choose|m: int| 0 <= m < pairs@.len() && pairs@[m] == ranked@[k];
        }
    }

    let rlen = ranked.len();
    let mut out: Vec<&HostEntry> = Vec::new();
    let mut k: usize = 0;
    while k < rlen && k < max_results
        invariant
            hlen == hosts@.len(),
            rlen == ranked@.len(),
            forall|m: int| 0 <= m < rlen ==> (#[trigger] ranked@[m]).0 < hlen,
            k <= rlen,
            k <= max_results,
            out@.len() == k,
            forall|m: int| 0 <= m < k ==> out@[m] == &hosts@[ranked@[m].0 as int],
        decreases rlen - k,
    {
        let idx = ranked[k].0;
        out.push(&hosts[idx]);
        k = k + 1;
    }
    proof {
        let cut = if max_results as int <= ranked@.len() {
            ranked@.take(max_results as int)
        } else {
            ranked@
        };
        assert(out@.map_values(|e: &HostEntry| *e) =~= cut.map_values(
            |p: (usize, usize)| hosts@[p.0 as int]));
    }
    out
}

/// Whether `name` can be offered as an inline completion of `query`: its
/// normalized form extends the normalized query and it is strictly longer
/// in bytes.
pub open spec fn is_suggestion(query: Seq<char>, cs: bool, name: Seq<char>) -> bool {
    &&& is_prefix_of(norm_seq(query, cs), norm_seq(name, cs))
    &&& byte_len(name) > byte_len(query)
}

/// The first result, in ranked order, that can complete the query; none for
/// the empty query.
pub open spec fn spec_suggestion(results: Seq<HostEntry>, query: Seq<char>, cs: bool) -> Option<Seq<char>>
    decreases results.len(),
{
    if query.len() == 0 || results.len() == 0 {
        None
    } else if is_suggestion(query, cs, results[0].name@) {
        Some(results[0].name@)
    } else {
        spec_suggestion(results.drop_first(), query, cs)
    }
}

/// Derives the single autocomplete suggestion from the ranked results.
pub fn suggestion_for(results: &Vec<HostEntry>, query: &str, case_sensitive: bool) -> (r: Option<String>)
    ensures
        match r {
            Some(s) => spec_suggestion(results@, query@, case_sensitive) == Some(s@),
            None => spec_suggestion(results@, query@, case_sensitive) is None,
        },
{
    if query.is_empty() {
        return None;
    }
    let qn = normalize(query, case_sensitive);
    let qv = chars_vec(qn.as_str());
    let qbytes = query.as_bytes().len();
    let n = results.len();
    proof {
        assert(results@.skip(0) =~= results@);
    }
    let mut i: usize = 0;
    while i < n
        invariant
            n == results@.len(),
            i <= n,
            query@.len() > 0,
            qv@ == norm_seq(query@, case_sensitive),
            qbytes == byte_len(query@),
            spec_suggestion(results@, query@, case_sensitive) == spec_suggestion(
                results@.skip(i as int), query@, case_sensitive),
        decreases n - i,
    {
        let name = &results[i].name;
        let nn = normalize(name.as_str(), case_sensitive);
        let nv = chars_vec(nn.as_str());
        let fits = is_prefix_vec(&qv, &nv) && name.as_str().as_bytes().len() > qbytes;
        proof {
            assert(results@.skip(i as int)[0] == results@[i as int]);
            assert(fits == is_suggestion(query@, case_sensitive, results@[i as int].name@));
            assert(results@.skip(i as int).drop_first() =~= results@.skip(i + 1));
        }
        if fits {
            return Some(name.clone());
        }
        i = i + 1;
    }
    None
}

/// Every ranked pair points at a candidate, carries that candidate's score,
/// and that score is positive: together with the tier bands this says what
/// every search result satisfies.
pub proof fn lemma_search_entries_scored(hosts: Seq<HostEntry>, query: Seq<char>, cs: bool)
    requires
        hosts.len() <= usize::MAX,
    ensures
        forall|k: int| 0 <= k < spec_ranked(hosts, query, cs).len() ==> {
            let p = #[trigger] spec_ranked(hosts, query, cs)[k];
            &&& p.0 < hosts.len()
            &&& p.1 == cscore(hosts[p.0 as int].name@, norm_seq(query, cs), cs)
            &&& p.1 > 0
        },
{
    let q = norm_seq(query, cs);
    let pairs = scored_pairs(hosts, q, cs);
    let ranked = spec_ranked(hosts, query, cs);
    lemma_scored_pairs_props(hosts, q, cs);
    lemma_sort_desc_multiset(pairs);
    assert forall|k: int| 0 <= k < ranked.len() implies {
        let p = #[trigger] ranked[k];
        &&& p.0 < hosts.len()
        &&& p.1 == cscore(hosts[p.0 as int].name@, q, cs)
        &&& p.1 > 0
    } by {
        assert(ranked.contains(ranked[k]));
        lemma_sort_desc_contains(pairs, ranked[k]);
        let m = choose|m: int| 0 <= m < pairs.len() && pairs[m] == ranked[k];
    }
}

/// The ranked pairs are ordered by descending score, and two candidates with
/// equal scores keep their input order: the ranking is stable.
pub proof fn lemma_search_ranking(hosts: Seq<HostEntry>, query: Seq<char>, cs: bool)
    requires
        hosts.len() <= usize::MAX,
    ensures
        rank_ordered(spec_ranked(hosts, query, cs)),
        forall|i: int, j: int| 0 <= i < j < spec_ranked(hosts, query, cs).len() ==> {
            let a = #[trigger] spec_ranked(hosts, query, cs)[i];
            let b = #[trigger] spec_ranked(hosts, query, cs)[j];
            &&& a.1 >= b.1
            &&& (a.1 == b.1 ==> a.0 < b.0)
        },
{
    let q = norm_seq(query, cs);
    lemma_scored_pairs_props(hosts, q, cs);
    lemma_sort_desc_ordered(scored_pairs(hosts, q, cs));
}

/// The search output's length: at most the cap, and for a non-empty query at
/// most the number of positively scoring candidates.
pub proof fn lemma_search_len(hosts: Seq<HostEntry>, query: Seq<char>, cs: bool, n: int)
    requires
        hosts.len() <= usize::MAX,
        n >= 0,
    ensures
        spec_search(hosts, query, cs, n).len() <= n,
        spec_search(hosts, query, cs, n).len() <= hosts.len(),
        query.len() > 0 ==> spec_search(hosts, query, cs, n).len()
            <= scored_pairs(hosts, norm_seq(query, cs), cs).len(),
{
    let q = norm_seq(query, cs);
    lemma_scored_pairs_props(hosts, q, cs);
    lemma_sort_desc_multiset(scored_pairs(hosts, q, cs));
}

/// The search result is a function of its arguments: two results that both
/// satisfy the search contract on the same arguments are the same.
pub proof fn lemma_search_deterministic(
    r1: Seq<HostEntry>,
    r2: Seq<HostEntry>,
    hosts: Seq<HostEntry>,
    query: Seq<char>,
    cs: bool,
    n: int,
)
    requires
        r1 == spec_search(hosts, query, cs, n),
        r2 == spec_search(hosts, query, cs, n),
    ensures
        r1 == r2,
{
}

/// Tier bands of the score: 1000 exactly for an exact match, 900 to 1000 for
/// a prefix match, 600 to 700 for a substring match, and at least 100 for a
/// completed subsequence match.
pub proof fn lemma_score_tier_bands(name: Seq<char>, q: Seq<char>, cs: bool)
    requires
        q.len() > 0,
    ensures
        norm_seq(name, cs) == q ==> score_of(name, q, cs) == 1000,
        norm_seq(name, cs) != q && is_prefix_of(q, norm_seq(name, cs)) ==> 900 <= score_of(
            name, q, cs) <= 1000,
        norm_seq(name, cs) != q && !is_prefix_of(q, norm_seq(name, cs)) && contains_seq(
            norm_seq(name, cs), q) ==> 600 <= score_of(name, q, cs) <= 700,
        norm_seq(name, cs) != q && !is_prefix_of(q, norm_seq(name, cs)) && !contains_seq(
            norm_seq(name, cs), q) && score_of(name, q, cs) > 0 ==> score_of(name, q, cs) >= 100,
{
    let t = norm_seq(name, cs);
    if t != q && !is_prefix_of(q, t) && contains_seq(t, q) {
        crate::fuzzy::lemma_find_from_bounds(t, q);
    }
    if t != q && !is_prefix_of(q, t) && !contains_seq(t, q) {
        crate::fuzzy::lemma_fuzzy_score_floor(t, q);
    }
}

} // verus!

