//! The tiered scoring heuristic: exact match, prefix match, substring match,
//! and an in-order subsequence walk, exactly as the ranking contract demands.

use vstd::prelude::*;
use vstd::string::StrSliceExecFns;
use crate::text::{norm_seq, normalize, chars_vec, char_is_alphanumeric, is_alnum_char};

verus! {

/// `p` is a prefix of `s`.
pub open spec fn is_prefix_of(p: Seq<char>, s: Seq<char>) -> bool {
    p.len() <= s.len() && forall|j: int| 0 <= j < p.len() ==> s[j] == p[j]
}

/// `p` occurs in `s` starting at position `i`.
pub open spec fn occurs_at(s: Seq<char>, p: Seq<char>, i: int) -> bool {
    0 <= i && i + p.len() <= s.len() && forall|j: int| 0 <= j < p.len() ==> s[i + j] == p[j]
}

/// `p` occurs somewhere in `s`.
pub open spec fn contains_seq(s: Seq<char>, p: Seq<char>) -> bool {
    exists|i: int| occurs_at(s, p, i)
}

/// Position of the first occurrence of `p` in `s` at or after `from`,
/// or -1 if there is none.
pub open spec fn find_from(s: Seq<char>, p: Seq<char>, from: int) -> int
    decreases s.len() - from when 0 <= from
{
    if from + p.len() > s.len() {
        -1
    } else if occurs_at(s, p, from) {
        from
    } else {
        find_from(s, p, from + 1)
    }
}

/// The first occurrence found from position 0 exists exactly when `p`
/// occurs at all, and lies at a valid position.
pub proof fn lemma_find_from_bounds(s: Seq<char>, p: Seq<char>)
    ensures
        contains_seq(s, p) ==> 0 <= find_from(s, p, 0) && occurs_at(s, p, find_from(s, p, 0)),
        !contains_seq(s, p) ==> find_from(s, p, 0) == -1,
{
    lemma_find_from_props(s, p, 0);
    if contains_seq(s, p) && find_from(s, p, 0) == -1 {
        let i = choose|i: int| occurs_at(s, p, i);
        assert(false);
    }
}

proof fn lemma_find_from_props(s: Seq<char>, p: Seq<char>, from: int)
    requires
        0 <= from,
    ensures
        find_from(s, p, from) == -1 ==> forall|i: int| from <= i ==> !occurs_at(s, p, i),
        find_from(s, p, from) != -1 ==> {
            &&& from <= find_from(s, p, from)
            &&& occurs_at(s, p, find_from(s, p, from))
            &&& forall|i: int| from <= i < find_from(s, p, from) ==> !occurs_at(s, p, i)
        },
    decreases s.len() - from,
{
    if from + p.len() > s.len() {
        assert(forall|i: int| from <= i ==> !occurs_at(s, p, i));
    } else if occurs_at(s, p, from) {
    } else {
        lemma_find_from_props(s, p, from + 1);
    }
}

/// One step of the subsequence walk over the target: position `i` in `t`,
/// `qi` query characters matched so far, `consec` the current run of adjacent
/// matches, `acc` the accumulated score.  Returns the final count of matched
/// query characters and the final accumulated score.
pub open spec fn walk(t: Seq<char>, q: Seq<char>, i: int, qi: int, consec: nat, acc: nat) -> (int, nat)
    decreases t.len() - i when 0 <= i
{
    if i >= t.len() {
        (qi, acc)
    } else if qi < q.len() && t[i] == q[qi] {
        walk(t, q, i + 1, qi + 1, consec + 1, acc + 100 + consec * 10)
    } else if qi < q.len() {
        walk(t, q, i + 1, qi, 0, acc)
    } else {
        walk(t, q, i + 1, qi, consec, acc)
    }
}

/// The walk never loses score, and matching at least one more query
/// character earns at least 100.
proof fn lemma_walk_floor(t: Seq<char>, q: Seq<char>, i: int, qi: int, consec: nat, acc: nat)
    requires
        0 <= i,
    ensures
        walk(t, q, i, qi, consec, acc).1 >= acc,
        walk(t, q, i, qi, consec, acc).0 > qi ==> walk(t, q, i, qi, consec, acc).1 >= acc + 100,
    decreases t.len() - i,
{
    if i >= t.len() {
    } else if qi < q.len() && t[i] == q[qi] {
        lemma_walk_floor(t, q, i + 1, qi + 1, consec + 1, acc + 100 + consec * 10);
    } else if qi < q.len() {
        lemma_walk_floor(t, q, i + 1, qi, 0, acc);
    } else {
        lemma_walk_floor(t, q, i + 1, qi, consec, acc);
    }
}

/// A positive subsequence score is at least 100.
pub proof fn lemma_fuzzy_score_floor(t: Seq<char>, q: Seq<char>)
    ensures
        fuzzy_score(t, q) > 0 ==> fuzzy_score(t, q) >= 100,
{
    if fuzzy_score(t, q) > 0 {
        lemma_walk_floor(t, q, 0, 0, 0, 0);
    }
}

/// Score of the subsequence tier: the walk's accumulated score if every query
/// character was matched in order (plus 50 if the first match fell on the
/// target's first character), and 0 otherwise.
pub open spec fn fuzzy_score(t: Seq<char>, q: Seq<char>) -> nat {
    let w = walk(t, q, 0, 0, 0, 0);
    if q.len() > 0 && w.0 == q.len() {
        if t.len() > 0 && t[0] == q[0] {
            w.1 + 50
        } else {
            w.1
        }
    } else {
        0
    }
}

/// Length in bytes of the UTF-8 encoding of a character sequence; the length
/// bonus of the prefix tier is measured on the unnormalized name's bytes.
pub open spec fn byte_len(s: Seq<char>) -> nat {
    vstd::utf8::encode_utf8(s).len()
}

/// The score of candidate name `name` against the already-normalized query
/// `q`: 1000 for an exact match; 900 plus a shortness bonus plus a word
/// boundary bonus for a prefix match; 700 minus the capped byte position of
/// the first occurrence for a substring match; the subsequence walk's score
/// otherwise.
pub open spec fn score_of(name: Seq<char>, q: Seq<char>, cs: bool) -> nat {
    let t = norm_seq(name, cs);
    if t == q {
        1000
    } else if is_prefix_of(q, t) {
        let lb: nat = if byte_len(name) >= 50 { 0 } else { (50 - byte_len(name)) as nat };
        let bb: nat = if t.len() > q.len() && !is_alnum_char(t[q.len() as int]) { 50 } else { 0 };
        900 + lb + bb
    } else if contains_seq(t, q) {
        let bpos = byte_len(t.take(find_from(t, q, 0)));
        (700 - (if bpos > 100 { 100 } else { bpos as int })) as nat
    } else {
        fuzzy_score(t, q)
    }
}

/// A mathematical score clamped to what a `usize` can hold; the clamp only
/// matters for inputs of astronomical length, where the accumulated
/// subsequence score saturates instead of wrapping.
pub open spec fn clamp_usize(n: nat) -> nat {
    if n > usize::MAX as nat {
        usize::MAX as nat
    } else {
        n
    }
}

/// The score the engine computes and ranks by.
pub open spec fn cscore(name: Seq<char>, q: Seq<char>, cs: bool) -> nat {
    clamp_usize(score_of(name, q, cs))
}

/// Equality of two character vectors.
pub(crate) fn vec_eq_chars(a: &Vec<char>, b: &Vec<char>) -> (r: bool)
    ensures
        r == (a@ == b@),
{
    if a.len() != b.len() {
        return false;
    }
    let n = a.len();
    let mut i: usize = 0;
    while i < n
        invariant
            n == a@.len() == b@.len(),
            i <= n,
            forall|j: int| 0 <= j < i ==> a@[j] == b@[j],
        decreases n - i,
    {
        if a[i] != b[i] {
            return false;
        }
        i = i + 1;
    }
    proof {
        assert(a@ =~= b@);
    }
    true
}

/// Whether `p@` is a prefix of `s@`.
pub(crate) fn is_prefix_vec(p: &Vec<char>, s: &Vec<char>) -> (r: bool)
    ensures
        r == is_prefix_of(p@, s@),
{
    if p.len() > s.len() {
        return false;
    }
    let n = p.len();
    let mut i: usize = 0;
    while i < n
        invariant
            n == p@.len() <= s@.len(),
            i <= n,
            forall|j: int| 0 <= j < i ==> s@[j] == p@[j],
        decreases n - i,
    {
        if p[i] != s[i] {
            return false;
        }
        i = i + 1;
    }
    true
}

/// Whether `s@` has `p@` as a subrange starting at `at`.
fn occurs_at_vec(s: &Vec<char>, p: &Vec<char>, at: usize) -> (r: bool)
    requires
        at + p@.len() <= s@.len(),
    ensures
        r == occurs_at(s@, p@, at as int),
{
    let slen = s.len();
    let n = p.len();
    let mut i: usize = 0;
    while i < n
        invariant
            slen == s@.len(),
            n == p@.len(),
            at + n <= slen,
            i <= n,
            forall|j: int| 0 <= j < i ==> s@[at + j] == p@[j],
        decreases n - i,
    {
        if p[i] != s[at + i] {
            return false;
        }
        i = i + 1;
    }
    true
}

/// First occurrence of `p@` in `s@`, as [`find_from`] from position 0.
pub(crate) fn find_sub(s: &Vec<char>, p: &Vec<char>) -> (r: Option<usize>)
    ensures
        match r {
            Some(k) => find_from(s@, p@, 0) == k,
            None => find_from(s@, p@, 0) == -1,
        },
{
    let slen = s.len();
    let plen = p.len();
    if plen > slen {
        return None;
    }
    let last = slen - plen;
    let mut i: usize = 0;
    while i <= last
        invariant
            slen == s@.len(),
            plen == p@.len(),
            last == slen - plen,
            i <= last + 1,
            find_from(s@, p@, 0) == find_from(s@, p@, i as int),
        decreases last + 1 - i,
    {
        if occurs_at_vec(s, p, i) {
            return Some(i);
        }
        proof {
            assert(find_from(s@, p@, i as int) == find_from(s@, p@, i + 1));
        }
        i = i + 1;
    }
    proof {
        assert(find_from(s@, p@, i as int) == -1);
    }
    None
}

/// Computes the score of `target` against the normalized query `query_norm`,
/// saturating at `usize::MAX`.
pub(crate) fn calculate_fuzzy_score(target: &str, query_norm: &str, case_sensitive: bool) -> (r: usize)
    ensures
        r as nat == cscore(target@, query_norm@, case_sensitive),
{
    let tn: String = normalize(target, case_sensitive);
    let tv: Vec<char> = chars_vec(tn.as_str());
    let qv: Vec<char> = chars_vec(query_norm);
    let ghost t = norm_seq(target@, case_sensitive);
    let ghost q = query_norm@;

    // Exact match.
    if vec_eq_chars(&tv, &qv) {
        return 1000;
    }

    // Prefix match: a base of 900, higher for short names, plus a word
    // boundary bonus when the matched prefix ends at a non-alphanumeric
    // character.
    if is_prefix_vec(&qv, &tv) {
        let bl = target.as_bytes().len();
        proof {
            assert(bl as nat == byte_len(target@));
        }
        let length_bonus: usize = if bl >= 50 { 0 } else { 50 - bl };
        let mut score: usize = 900 + length_bonus;
        if tv.len() > qv.len() {
            if !char_is_alphanumeric(tv[qv.len()]) {
                score = score + 50;
            }
        }
        return score;
    }

    // Substring match: earlier occurrences score higher, the position
    // penalty, measured in bytes, capped at 100.
    proof {
        lemma_find_from_props(t, q, 0);
    }
    match find_sub(&tv, &qv) {
        Some(pos) => {
            let bpos = tn.as_str().substring_char(0, pos).as_bytes().len();
            proof {
                assert(tn@.subrange(0, pos as int) =~= t.take(pos as int));
            }
            let penalty: usize = if bpos > 100 { 100 } else { bpos };
            return 700 - penalty;
        },
        None => {},
    }

    // Subsequence walk.
    let tlen = tv.len();
    let qlen = qv.len();
    let mut score: usize = 0;
    let ghost mut exact: nat = 0;
    let mut qi: usize = 0;
    let mut consec: usize = 0;
    let mut i: usize = 0;
    while i < tlen
        invariant
            tlen == t.len(),
            qlen == q.len(),
            tv@ == t,
            qv@ == q,
            i <= tlen,
            qi <= qlen,
            consec <= i,
            score as nat == clamp_usize(exact),
            walk(t, q, 0, 0, 0, 0) == walk(t, q, i as int, qi as int, consec as nat, exact),
        decreases tlen - i,
    {
        if qi < qlen && tv[i] == qv[qi] {
            let ghost d: nat = 100 + (consec as nat) * 10;
            let addend: usize = match consec.checked_mul(10) {
                Some(v) => v.saturating_add(100),
                None => usize::MAX,
            };
            proof {
                assert(addend as nat == if d > usize::MAX as nat { usize::MAX as nat } else { d });
            }
            score = score.saturating_add(addend);
            proof {
                exact = exact + d;
                assert(score as nat == clamp_usize(exact));
            }
            consec = consec + 1;
            qi = qi + 1;
        } else if qi < qlen {
            consec = 0;
        }
        i = i + 1;
    }
    proof {
        assert(walk(t, q, i as int, qi as int, consec as nat, exact) == (qi as int, exact));
    }
    if qlen > 0 && qi == qlen {
        if tlen > 0 {
            let c0 = tv[0];
            let q0 = qv[0];
            if c0 == q0 {
                return score.saturating_add(50);
            }
        }
        score
    } else {
        0
    }
}

} // verus!
