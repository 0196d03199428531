//! Character and string helpers shared by the parsers and the search engine:
//! trusted views of std's Unicode classifications, conversion of a string to
//! its character vector, and the lexicographic order on character sequences.

use vstd::prelude::*;
use vstd::string::StrSliceExecFns;
use vstd::string::StringExecFns;

verus! {

/// What `str::to_lowercase` returns for a given character sequence.
pub uninterp spec fn lower_of(s: Seq<char>) -> Seq<char>;

/// What `char::is_alphanumeric` returns for a given character.
pub uninterp spec fn is_alnum_char(c: char) -> bool;

/// What `char::is_whitespace` returns for a given character.
pub uninterp spec fn is_space_char(c: char) -> bool;

/// Relies on str::to_lowercase: the result is a function of the input's
/// characters alone, and an empty string stays empty.
#[verifier::external_body]
pub(crate) fn lowercase(s: &str) -> (r: String)
    ensures
        r@ == lower_of(s@),
        s@.len() == 0 ==> r@.len() == 0,
{
    s.to_lowercase()
}

/// Relies on char::is_alphanumeric: the result is a function of the
/// character alone.
#[verifier::external_body]
pub(crate) fn char_is_alphanumeric(c: char) -> (r: bool)
    ensures
        r == is_alnum_char(c),
{
    c.is_alphanumeric()
}

/// Relies on char::is_whitespace: the result is a function of the
/// character alone.
#[verifier::external_body]
pub(crate) fn char_is_whitespace(c: char) -> (r: bool)
    ensures
        r == is_space_char(c),
{
    c.is_whitespace()
}

/// The normalization applied to every string before comparison: the identity
/// when matching case-sensitively, the lowercase form otherwise.
pub open spec fn norm_seq(s: Seq<char>, case_sensitive: bool) -> Seq<char> {
    if case_sensitive {
        s
    } else {
        lower_of(s)
    }
}

/// Normalizes a string as [`norm_seq`] describes.
pub(crate) fn normalize(s: &str, case_sensitive: bool) -> (r: String)
    ensures
        r@ == norm_seq(s@, case_sensitive),
{
    if case_sensitive {
        String::from_str(s)
    } else {
        lowercase(s)
    }
}

/// The characters of `s`, one vector element per `char`.
pub fn chars_vec(s: &str) -> (r: Vec<char>)
    ensures
        r@ == s@,
{
    let n = s.unicode_len();
    let mut r: Vec<char> = Vec::new();
    let mut i: usize = 0;
    while i < n
        invariant
            n == s@.len(),
            i <= n,
            r@ == s@.take(i as int),
        decreases n - i,
    {
        r.push(s.get_char(i));
        proof {
            assert(r@ =~= s@.take(i + 1));
        }
        i = i + 1;
    }
    proof {
        assert(r@ =~= s@);
    }
    r
}

/// Relies on String::push: appends the character to the end of the string.
#[verifier::external_body]
pub(crate) fn push_char(s: &mut String, c: char)
    ensures
        final(s)@ == old(s)@.push(c),
{
    s.push(c)
}

/// An ASCII decimal digit.
pub open spec fn is_digit_char(c: char) -> bool {
    ('0' as u32) <= (c as u32) && (c as u32) <= ('9' as u32)
}

/// Position of the first occurrence of `c` in `s` at or after `from`, or -1
/// if there is none.
pub open spec fn find_char(s: Seq<char>, c: char, from: int) -> int
    decreases s.len() - from when 0 <= from
{
    if from >= s.len() {
        -1
    } else if s[from] == c {
        from
    } else {
        find_char(s, c, from + 1)
    }
}

/// Position of the first whitespace character in `s` at or after `from`, or
/// -1 if there is none.
pub open spec fn find_space(s: Seq<char>, from: int) -> int
    decreases s.len() - from when 0 <= from
{
    if from >= s.len() {
        -1
    } else if is_space_char(s[from]) {
        from
    } else {
        find_space(s, from + 1)
    }
}

/// `s` without its leading whitespace.
pub open spec fn trim_start(s: Seq<char>) -> Seq<char>
    decreases s.len(),
{
    if s.len() > 0 && is_space_char(s[0]) {
        trim_start(s.drop_first())
    } else {
        s
    }
}

/// `s` without its trailing whitespace.
pub open spec fn trim_end(s: Seq<char>) -> Seq<char>
    decreases s.len(),
{
    if s.len() > 0 && is_space_char(s.last()) {
        trim_end(s.drop_last())
    } else {
        s
    }
}

/// `s` without leading and trailing whitespace.
pub open spec fn trim_seq(s: Seq<char>) -> Seq<char> {
    trim_end(trim_start(s))
}

/// Each maximal run of whitespace collapsed to a single space: what joining
/// the whitespace-separated words of a trimmed string with single spaces
/// yields.
pub open spec fn squash_spaces(s: Seq<char>) -> Seq<char>
    decreases s.len(),
{
    if s.len() == 0 {
        s
    } else if is_space_char(s[0]) && s.len() > 1 && is_space_char(s[1]) {
        squash_spaces(s.drop_first())
    } else if is_space_char(s[0]) {
        seq![' '] + squash_spaces(s.drop_first())
    } else {
        seq![s[0]] + squash_spaces(s.drop_first())
    }
}

/// If the first `k` characters are whitespace and the `k`-th is not,
/// trimming the start drops exactly `k` characters.
pub proof fn lemma_trim_start_at(s: Seq<char>, k: int)
    requires
        0 <= k <= s.len(),
        forall|j: int| 0 <= j < k ==> is_space_char(s[j]),
        k < s.len() ==> !is_space_char(s[k]),
    ensures
        trim_start(s) == s.skip(k),
    decreases k,
{
    if k == 0 {
        assert(s.skip(0) =~= s);
    } else {
        let d = s.drop_first();
        lemma_trim_start_at(d, k - 1);
        assert(d.skip(k - 1) =~= s.skip(k));
    }
}

/// If everything from position `k` on is whitespace and the character before
/// `k` is not, trimming the end keeps exactly the first `k` characters.
pub proof fn lemma_trim_end_at(s: Seq<char>, k: int)
    requires
        0 <= k <= s.len(),
        forall|j: int| k <= j < s.len() ==> is_space_char(s[j]),
        k > 0 ==> !is_space_char(s[k - 1]),
    ensures
        trim_end(s) == s.take(k),
    decreases s.len(),
{
    if s.len() == k {
        assert(s.take(k) =~= s);
    } else {
        let d = s.drop_last();
        lemma_trim_end_at(d, k);
        assert(d.take(k) =~= s.take(k));
    }
}

/// Strict lexicographic order on character sequences by code point, the order
/// in which host names are kept.
pub open spec fn lex_lt(a: Seq<char>, b: Seq<char>) -> bool
    decreases a.len(),
{
    if b.len() == 0 {
        false
    } else if a.len() == 0 {
        true
    } else if a[0] == b[0] {
        lex_lt(a.drop_first(), b.drop_first())
    } else {
        (a[0] as u32) < (b[0] as u32)
    }
}

/// Reflexive closure of [`lex_lt`].
pub open spec fn lex_le(a: Seq<char>, b: Seq<char>) -> bool {
    lex_lt(a, b) || a == b
}

/// The lexicographic order is irreflexive and asymmetric.
pub proof fn lemma_lex_asym(a: Seq<char>, b: Seq<char>)
    ensures
        !lex_lt(a, a),
        lex_lt(a, b) ==> !lex_lt(b, a),
    decreases a.len(),
{
    if a.len() > 0 {
        lemma_lex_asym(a.drop_first(), if b.len() > 0 { b.drop_first() } else { b });
    }
    if a.len() > 0 && b.len() > 0 && a[0] == b[0] {
        lemma_lex_asym(a.drop_first(), b.drop_first());
    }
}

/// Any two character sequences are comparable.
pub proof fn lemma_lex_total(a: Seq<char>, b: Seq<char>)
    ensures
        lex_lt(a, b) || lex_lt(b, a) || a == b,
    decreases a.len(),
{
    if a.len() == 0 && b.len() == 0 {
        assert(a =~= b);
    } else if a.len() > 0 && b.len() > 0 && a[0] != b[0] {
        vstd::utf8::char_u32_cast(a[0], a[0] as u32);
        vstd::utf8::char_u32_cast(b[0], b[0] as u32);
        assert((a[0] as u32) != (b[0] as u32));
    } else if a.len() > 0 && b.len() > 0 && a[0] == b[0] {
        lemma_lex_total(a.drop_first(), b.drop_first());
        if a.drop_first() == b.drop_first() {
            assert(a.drop_first().len() == b.drop_first().len());
            assert(a.len() == b.len());
            assert forall|i: int| 0 <= i < a.len() implies a[i] == b[i] by {
                if i > 0 {
                    assert(a[i] == a.drop_first()[i - 1]);
                    assert(b[i] == b.drop_first()[i - 1]);
                }
            }
            assert(a =~= b);
        }
    }
}

/// The lexicographic order is transitive.
pub proof fn lemma_lex_trans(a: Seq<char>, b: Seq<char>, c: Seq<char>)
    requires
        lex_lt(a, b),
        lex_lt(b, c),
    ensures
        lex_lt(a, c),
    decreases a.len() + b.len() + c.len(),
{
    if b.len() == 0 {
        // lex_lt(b, c) forces c nonempty, and lex_lt(a, b) is impossible.
        assert(false);
    } else if c.len() == 0 {
        assert(false);
    } else if a.len() == 0 {
    } else {
        if a[0] == b[0] && b[0] == c[0] {
            lemma_lex_trans(a.drop_first(), b.drop_first(), c.drop_first());
        }
    }
}

/// If `a` and `b` agree on their first `i` characters, their order is decided
/// by what remains.
proof fn lemma_lex_skip(a: Seq<char>, b: Seq<char>, i: int)
    requires
        0 <= i <= a.len(),
        i <= b.len(),
        forall|j: int| 0 <= j < i ==> a[j] == b[j],
    ensures
        lex_lt(a, b) == lex_lt(a.skip(i), b.skip(i)),
    decreases i,
{
    if i > 0 {
        assert(a.len() > 0 && b.len() > 0 && a[0] == b[0]);
        assert(lex_lt(a, b) == lex_lt(a.drop_first(), b.drop_first()));
        lemma_lex_skip(a.drop_first(), b.drop_first(), i - 1);
        assert(a.drop_first().skip(i - 1) =~= a.skip(i));
        assert(b.drop_first().skip(i - 1) =~= b.skip(i));
    } else {
        assert(a.skip(0) =~= a);
        assert(b.skip(0) =~= b);
    }
}

/// Every non-overlapping occurrence of `pat` replaced by `rep`, scanning
/// left to right, the replacement text never rescanned.
pub open spec fn replace_all(s: Seq<char>, pat: Seq<char>, rep: Seq<char>) -> Seq<char>
    decreases s.len(),
{
    if pat.len() == 0 {
        s
    } else {
        let f = crate::fuzzy::find_from(s, pat, 0);
        if f < 0 || f + pat.len() > s.len() {
            s
        } else {
            s.take(f) + rep + replace_all(s.skip(f + pat.len()), pat, rep)
        }
    }
}

/// Replaces every occurrence of `pat` in `s` by `rep`.
pub fn replace_str(s: &str, pat: &str, rep: &str) -> (r: String)
    requires
        pat@.len() > 0,
    ensures
        r@ == replace_all(s@, pat@, rep@),
{
    let sv = chars_vec(s);
    let pv = chars_vec(pat);
    let slen = sv.len();
    let plen = pv.len();
    let mut out = String::new();
    let mut base: usize = 0;
    proof {
        assert(s@.skip(0) =~= s@);
        assert(out@ + replace_all(s@.skip(0), pat@, rep@) =~= replace_all(s@, pat@, rep@));
    }
    while base < slen
        invariant
            sv@ == s@,
            pv@ == pat@,
            slen == s@.len(),
            plen == pat@.len() > 0,
            base <= slen,
            replace_all(s@, pat@, rep@) == out@ + replace_all(s@.skip(base as int), pat@, rep@),
        decreases slen - base,
    {
        let rem = copy_range(&sv, base, slen);
        let ghost remv = s@.skip(base as int);
        proof {
            assert(rem@ =~= remv);
        }
        match crate::fuzzy::find_sub(&rem, &pv) {
            Some(f) => {
                proof {
                    crate::fuzzy::lemma_find_from_bounds(remv, pat@);
                    assert(crate::fuzzy::occurs_at(remv, pat@, f as int));
                }
                let ghost prevout = out@;
                out.append(s.substring_char(base, base + f));
                out.append(rep);
                proof {
                    assert(s@.subrange(base as int, base + f) =~= remv.take(f as int));
                    assert(remv.skip(f + plen) =~= s@.skip(base + f + plen));
                    assert(out@ + replace_all(s@.skip(base + f + plen), pat@, rep@) =~= prevout
                        + (remv.take(f as int) + rep@ + replace_all(remv.skip(f + plen), pat@,
                        rep@)));
                }
                base = base + f + plen;
            },
            None => {
                let ghost prevout = out@;
                out.append(s.substring_char(base, slen));
                proof {
                    assert(s@.subrange(base as int, slen as int) =~= remv);
                    assert(replace_all(remv, pat@, rep@) == remv);
                    assert(out@ =~= prevout + remv);
                }
                base = slen;
            },
        }
    }
    proof {
        assert(replace_all(s@.skip(base as int), pat@, rep@).len() == 0 || base == slen);
        assert(s@.skip(slen as int).len() == 0);
        assert(replace_all(s@.skip(slen as int), pat@, rep@) =~= s@.skip(slen as int));
        assert(out@ =~= replace_all(s@, pat@, rep@));
    }
    out
}

/// Bounds of `trim_seq(cv@.subrange(a, b))` within `cv`: the trimmed text is
/// `cv@.subrange(lo, hi)`.
pub(crate) fn trim_range(cv: &Vec<char>, a: usize, b: usize) -> (r: (usize, usize))
    requires
        a <= b <= cv@.len(),
    ensures
        a <= r.0 <= r.1 <= b,
        cv@.subrange(r.0 as int, r.1 as int) == trim_seq(cv@.subrange(a as int, b as int)),
{
    let ghost s = cv@.subrange(a as int, b as int);
    let mut lo = a;
    while lo < b && char_is_whitespace(cv[lo])
        invariant
            a <= lo <= b <= cv@.len(),
            s == cv@.subrange(a as int, b as int),
            forall|j: int| 0 <= j < lo - a ==> is_space_char(s[j]),
        decreases b - lo,
    {
        proof {
            assert(s[lo - a] == cv@[lo as int]);
        }
        lo = lo + 1;
    }
    proof {
        if lo < b {
            assert(s[lo - a] == cv@[lo as int]);
        }
        lemma_trim_start_at(s, lo - a);
    }
    let ghost t = s.skip(lo - a);
    let mut hi = b;
    while hi > lo && char_is_whitespace(cv[hi - 1])
        invariant
            a <= lo <= hi <= b <= cv@.len(),
            s == cv@.subrange(a as int, b as int),
            t == s.skip(lo - a),
            trim_start(s) == t,
            forall|j: int| hi - lo <= j < t.len() ==> is_space_char(t[j]),
        decreases hi,
    {
        proof {
            assert(t[hi - 1 - lo] == cv@[hi - 1]);
        }
        hi = hi - 1;
    }
    proof {
        if hi > lo {
            assert(t[hi - 1 - lo] == cv@[hi - 1]);
        }
        lemma_trim_end_at(t, hi - lo);
        assert(t.take(hi - lo) =~= cv@.subrange(lo as int, hi as int));
    }
    (lo, hi)
}

/// Whether `c` occurs in `v@`.
pub(crate) fn contains_char(v: &Vec<char>, c: char) -> (r: bool)
    ensures
        r == (find_char(v@, c, 0) >= 0),
{
    let n = v.len();
    let mut i: usize = 0;
    while i < n
        invariant
            n == v@.len(),
            i <= n,
            find_char(v@, c, 0) == find_char(v@, c, i as int),
        decreases n - i,
    {
        if v[i] == c {
            return true;
        }
        proof {
            assert(find_char(v@, c, i as int) == find_char(v@, c, i + 1));
        }
        i = i + 1;
    }
    proof {
        assert(find_char(v@, c, i as int) == -1);
    }
    false
}

/// A copy of `cv@.subrange(a, b)`.
pub(crate) fn copy_range(cv: &Vec<char>, a: usize, b: usize) -> (r: Vec<char>)
    requires
        a <= b <= cv@.len(),
    ensures
        r@ == cv@.subrange(a as int, b as int),
{
    let mut r: Vec<char> = Vec::new();
    let mut i = a;
    while i < b
        invariant
            a <= i <= b <= cv@.len(),
            r@ == cv@.subrange(a as int, i as int),
        decreases b - i,
    {
        r.push(cv[i]);
        proof {
            assert(r@ =~= cv@.subrange(a as int, i + 1));
        }
        i = i + 1;
    }
    r
}

/// Decides [`lex_lt`] on two strings.
pub fn str_lex_lt(a: &str, b: &str) -> (r: bool)
    ensures
        r == lex_lt(a@, b@),
{
    let na = a.unicode_len();
    let nb = b.unicode_len();
    let mut i: usize = 0;
    loop
        invariant
            na == a@.len(),
            nb == b@.len(),
            i <= na,
            i <= nb,
            forall|j: int| 0 <= j < i ==> a@[j] == b@[j],
        decreases na - i,
    {
        if i >= na || i >= nb {
            proof {
                lemma_lex_skip(a@, b@, i as int);
            }
            return na < nb;
        }
        let ca = a.get_char(i);
        let cb = b.get_char(i);
        if ca as u32 != cb as u32 {
            proof {
                lemma_lex_skip(a@, b@, i as int);
                assert(a@.skip(i as int)[0] == a@[i as int]);
                assert(b@.skip(i as int)[0] == b@[i as int]);
            }
            return (ca as u32) < (cb as u32);
        }
        proof {
            assert(ca == cb);
        }
        i = i + 1;
    }
}

} // verus!
