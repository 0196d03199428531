//! Host entries and the parsers that extract them from SSH artifact text:
//! known_hosts lines and SSH config `Host` blocks, each followed by the
//! canonical sort and deduplication by name.

use vstd::prelude::*;
use vstd::string::StrSliceExecFns;
use vstd::string::StringExecFns;
use crate::text::{find_char, find_space, trim_seq, squash_spaces, is_digit_char,
    trim_range, copy_range, contains_char, chars_vec, char_is_whitespace, lowercase, push_char,
    lower_of};
use crate::fuzzy::{find_from, occurs_at, vec_eq_chars, find_sub, lemma_find_from_bounds};
use crate::order::{pairs_of, canonical, sort_entries_by_name,
    dedup_entries_by_name, lemma_canonical_membership};

verus! {

/// A connectable host: `name` is what the user searches against,
/// `connection_string` is the command handed to the terminal on activation.
#[derive(Debug)]
pub struct HostEntry {
    pub name: String,
    pub connection_string: String,
}

impl HostEntry {
    pub fn new(name: String, connection_string: String) -> (r: Self)
        ensures
            r.name@ == name@,
            r.connection_string@ == connection_string@,
    {
        Self { name, connection_string }
    }
}

impl Clone for HostEntry {
    fn clone(&self) -> (r: Self)
        ensures
            r.name@ == self.name@,
            r.connection_string@ == self.connection_string@,
    {
        HostEntry { name: self.name.clone(), connection_string: self.connection_string.clone() }
    }
}

/// The connection string emitted for host `h`.
pub open spec fn conn_of(h: Seq<char>) -> Seq<char> {
    seq!['s', 's', 'h', ' '] + h
}

/// The heuristic IP filter: every character a decimal digit or a dot.  The
/// empty token passes it too and is therefore dropped.
pub open spec fn all_digits_dots(s: Seq<char>) -> bool {
    forall|j: int| 0 <= j < s.len() ==> (is_digit_char(#[trigger] s[j]) || s[j] == '.')
}

/// Index just past the first whitespace-free token of `s`.
pub open spec fn token_end(s: Seq<char>) -> int {
    if find_space(s, 0) == -1 {
        s.len() as int
    } else {
        find_space(s, 0)
    }
}

/// The first whitespace-delimited token of `s`.
pub open spec fn first_token(s: Seq<char>) -> Seq<char> {
    s.take(token_end(s))
}

/// What one comma-separated alias of a known_hosts line contributes: trimmed;
/// dropped if it looks like an IPv4 address; `[host]:port` unwrapped to
/// `host`; emitted with its connection string unless empty or hashed.
pub open spec fn kh_alias(a0: Seq<char>) -> Seq<(Seq<char>, Seq<char>)> {
    let a = trim_seq(a0);
    if all_digits_dots(a) {
        Seq::empty()
    } else {
        let e = find_from(a, seq![']', ':'], 0);
        let h = if a[0] == '[' && e >= 0 {
            a.subrange(1, e)
        } else {
            a
        };
        if h.len() > 0 && h[0] != '|' {
            seq![(h, conn_of(h))]
        } else {
            Seq::empty()
        }
    }
}

/// The aliases of a hosts token, split on commas.
pub open spec fn kh_aliases(tok: Seq<char>) -> Seq<(Seq<char>, Seq<char>)>
    decreases tok.len(),
{
    let c = find_char(tok, ',', 0);
    if c < 0 || c >= tok.len() {
        kh_alias(tok)
    } else {
        kh_alias(tok.take(c)) + kh_aliases(tok.skip(c + 1))
    }
}

/// What one known_hosts line contributes: nothing for blank lines, comments
/// and (when configured) hashed entries; otherwise the aliases of its first
/// field.
pub open spec fn kh_line(line: Seq<char>, skip_hashed: bool) -> Seq<(Seq<char>, Seq<char>)> {
    let l = trim_seq(line);
    if l.len() == 0 || l[0] == '#' {
        Seq::empty()
    } else if skip_hashed && l[0] == '|' {
        Seq::empty()
    } else {
        kh_aliases(first_token(l))
    }
}

/// The entries of a known_hosts text, line by line, in emission order.
pub open spec fn kh_raw(content: Seq<char>, skip_hashed: bool) -> Seq<(Seq<char>, Seq<char>)>
    decreases content.len(),
{
    if content.len() == 0 {
        Seq::empty()
    } else {
        let nl = find_char(content, '\n', 0);
        if nl < 0 || nl >= content.len() {
            kh_line(content, skip_hashed)
        } else {
            kh_line(content.take(nl), skip_hashed) + kh_raw(content.skip(nl + 1), skip_hashed)
        }
    }
}

/// The result of parsing a known_hosts text: the emitted entries in
/// canonical order.
pub open spec fn kh_spec(content: Seq<char>, skip_hashed: bool) -> Seq<(Seq<char>, Seq<char>)> {
    canonical(kh_raw(content, skip_hashed))
}

/// A host pattern without `*` and `?` wildcards.
pub open spec fn wildcard_free(h: Seq<char>) -> bool {
    find_char(h, '*', 0) < 0 && find_char(h, '?', 0) < 0
}

/// Closing a config block: the current host is emitted unless it carries a
/// wildcard.
pub open spec fn flush_host(cur: Option<Seq<char>>) -> Seq<(Seq<char>, Seq<char>)> {
    match cur {
        Option::None => Seq::empty(),
        Option::Some(h) => if wildcard_free(h) {
            seq![(h, conn_of(h))]
        } else {
            Seq::empty()
        },
    }
}

/// The `host` keyword, against which the lowercased key is compared.
pub open spec fn host_keyword() -> Seq<char> {
    seq!['h', 'o', 's', 't']
}

/// One config line: blank lines, comments and lines without a value leave
/// the state alone; a `Host` line closes the previous block and opens a new
/// one with the rest of the line, whitespace runs collapsed, as its value;
/// any other key is ignored.
pub open spec fn sc_step(line: Seq<char>, cur: Option<Seq<char>>) -> (Seq<(Seq<char>, Seq<char>)>, Option<Seq<char>>) {
    let l = trim_seq(line);
    if l.len() == 0 || l[0] == '#' {
        (Seq::empty(), cur)
    } else if trim_seq(l.skip(token_end(l))).len() == 0 {
        (Seq::empty(), cur)
    } else if lower_of(first_token(l)) == host_keyword() {
        (flush_host(cur), Option::Some(squash_spaces(trim_seq(l.skip(token_end(l))))))
    } else {
        (Seq::empty(), cur)
    }
}

/// The entries of an SSH config text, line by line with the open block
/// carried along, the last block flushed at the end.
pub open spec fn sc_raw(content: Seq<char>, cur: Option<Seq<char>>) -> Seq<(Seq<char>, Seq<char>)>
    decreases content.len(),
{
    if content.len() == 0 {
        flush_host(cur)
    } else {
        let nl = find_char(content, '\n', 0);
        if nl < 0 || nl >= content.len() {
            let st = sc_step(content, cur);
            st.0 + flush_host(st.1)
        } else {
            let st = sc_step(content.take(nl), cur);
            st.0 + sc_raw(content.skip(nl + 1), st.1)
        }
    }
}

/// The result of parsing an SSH config text: the emitted entries in
/// canonical order.
pub open spec fn sc_spec(content: Seq<char>) -> Seq<(Seq<char>, Seq<char>)> {
    canonical(sc_raw(content, Option::None))
}

/// Scans for the next line break at or after `from`.
fn scan_newline(cv: &Vec<char>, from: usize) -> (b: usize)
    requires
        from <= cv@.len(),
    ensures
        from <= b <= cv@.len(),
        find_char(cv@.skip(from as int), '\n', 0) == if b < cv@.len() {
            b - from
        } else {
            -1
        },
{
    let ghost s = cv@.skip(from as int);
    let n = cv.len();
    let mut b = from;
    while b < n && cv[b] != '\n'
        invariant
            from <= b <= n == cv@.len(),
            s == cv@.skip(from as int),
            find_char(s, '\n', 0) == find_char(s, '\n', b - from),
        decreases n - b,
    {
        proof {
            assert(s[b - from] == cv@[b as int]);
            assert(find_char(s, '\n', b - from) == find_char(s, '\n', b - from + 1));
        }
        b = b + 1;
    }
    proof {
        if b < n {
            assert(s[b - from] == cv@[b as int]);
        }
    }
    b
}

/// Scans for the end of the whitespace-free token starting at `lo`.
fn scan_token_end(cv: &Vec<char>, lo: usize, hi: usize) -> (te: usize)
    requires
        lo <= hi <= cv@.len(),
    ensures
        lo <= te <= hi,
        token_end(cv@.subrange(lo as int, hi as int)) == te - lo,
{
    let ghost l = cv@.subrange(lo as int, hi as int);
    let mut te = lo;
    while te < hi && !char_is_whitespace(cv[te])
        invariant
            lo <= te <= hi <= cv@.len(),
            l == cv@.subrange(lo as int, hi as int),
            find_space(l, 0) == find_space(l, te - lo),
        decreases hi - te,
    {
        proof {
            assert(l[te - lo] == cv@[te as int]);
            assert(find_space(l, te - lo) == find_space(l, te - lo + 1));
        }
        te = te + 1;
    }
    proof {
        if te < hi {
            assert(l[te - lo] == cv@[te as int]);
        }
    }
    te
}

/// Emits the entry for one trimmed alias range `[a, b)` of the content.
fn kh_emit_alias(cv: &Vec<char>, content: &str, a: usize, b: usize, out: &mut Vec<HostEntry>)
    requires
        cv@ == content@,
        a <= b <= cv@.len(),
    ensures
        pairs_of(final(out)@) == pairs_of(old(out)@) + kh_alias(cv@.subrange(a as int, b as int)),
{
    let ghost a0 = cv@.subrange(a as int, b as int);
    let (lo, hi) = trim_range(cv, a, b);
    let ghost al = trim_seq(a0);
    proof {
        assert(al == cv@.subrange(lo as int, hi as int));
    }

    // The IP filter: all characters digits or dots (the empty alias passes).
    let mut j = lo;
    while j < hi && ((cv[j] as u32 >= 48 && cv[j] as u32 <= 57) || cv[j] == '.')
        invariant
            lo <= j <= hi <= cv@.len(),
            al == cv@.subrange(lo as int, hi as int),
            forall|k: int| 0 <= k < j - lo ==> (is_digit_char(#[trigger] al[k]) || al[k] == '.'),
        decreases hi - j,
    {
        proof {
            assert(al[j - lo] == cv@[j as int]);
        }
        j = j + 1;
    }
    if j == hi {
        proof {
            assert(all_digits_dots(al));
            assert(pairs_of(out@) =~= pairs_of(out@) + kh_alias(a0));
        }
        return;
    }
    proof {
        assert(al[j - lo] == cv@[j as int]);
        assert(!(is_digit_char(al[j - lo]) || al[j - lo] == '.'));
        assert(!all_digits_dots(al));
    }

    // `[host]:port` unwrapping.
    let av = copy_range(cv, lo, hi);
    let mut pv: Vec<char> = Vec::new();
    pv.push(']');
    pv.push(':');
    proof {
        assert(pv@ =~= seq![']', ':']);
    }
    let mut h_lo = lo;
    let mut h_hi = hi;
    if av[0] == '[' {
        match find_sub(&av, &pv) {
            Some(e) => {
                proof {
                    lemma_find_from_bounds(al, seq![']', ':']);
                    assert(occurs_at(al, seq![']', ':'], e as int));
                    assert(al[e as int] == ']');
                    assert(e >= 1);
                }
                h_lo = lo + 1;
                h_hi = lo + e;
            },
            None => {},
        }
    }
    let ghost h = if al[0] == '[' && find_from(al, seq![']', ':'], 0) >= 0 {
        al.subrange(1, find_from(al, seq![']', ':'], 0))
    } else {
        al
    };
    proof {
        assert(h == cv@.subrange(h_lo as int, h_hi as int));
    }

    if h_lo == h_hi {
        proof {
            assert(pairs_of(out@) =~= pairs_of(out@) + kh_alias(a0));
        }
        return;
    }
    if cv[h_lo] == '|' {
        proof {
            assert(h[0] == cv@[h_lo as int]);
            assert(pairs_of(out@) =~= pairs_of(out@) + kh_alias(a0));
        }
        return;
    }
    proof {
        assert(h[0] == cv@[h_lo as int]);
    }
    let name = content.substring_char(h_lo, h_hi);
    let conn = String::from_str("ssh ").concat(name);
    proof {
        reveal_strlit("ssh ");
        assert("ssh "@ =~= seq!['s', 's', 'h', ' ']);
        assert(conn@ == conn_of(h));
    }
    let ghost prev = pairs_of(out@);
    out.push(HostEntry::new(String::from_str(name), conn));
    proof {
        assert(pairs_of(out@) =~= prev + kh_alias(a0));
    }
}

/// Emits the entries of the comma-separated aliases in `[a, b)`.
fn kh_emit_aliases(cv: &Vec<char>, content: &str, a: usize, b: usize, out: &mut Vec<HostEntry>)
    requires
        cv@ == content@,
        a <= b <= cv@.len(),
    ensures
        pairs_of(final(out)@) == pairs_of(old(out)@) + kh_aliases(cv@.subrange(a as int, b as int)),
    decreases b - a,
{
    let ghost tok = cv@.subrange(a as int, b as int);
    // Find the first comma in [a, b).
    let mut c = a;
    while c < b && cv[c] != ','
        invariant
            a <= c <= b <= cv@.len(),
            tok == cv@.subrange(a as int, b as int),
            find_char(tok, ',', 0) == find_char(tok, ',', c - a),
        decreases b - c,
    {
        proof {
            assert(tok[c - a] == cv@[c as int]);
            assert(find_char(tok, ',', c - a) == find_char(tok, ',', c - a + 1));
        }
        c = c + 1;
    }
    if c == b {
        proof {
            assert(find_char(tok, ',', 0) == -1);
        }
        kh_emit_alias(cv, content, a, b, out);
    } else {
        proof {
            assert(tok[c - a] == cv@[c as int]);
            assert(find_char(tok, ',', 0) == c - a);
            assert(tok.take(c - a) =~= cv@.subrange(a as int, c as int));
            assert(tok.skip(c - a + 1) =~= cv@.subrange(c + 1, b as int));
        }
        kh_emit_alias(cv, content, a, c, out);
        kh_emit_aliases(cv, content, c + 1, b, out);
    }
}

/// Emits the entries of one known_hosts line `[a, b)`.
fn kh_emit_line(cv: &Vec<char>, content: &str, a: usize, b: usize, skip_hashed: bool, out: &mut Vec<HostEntry>)
    requires
        cv@ == content@,
        a <= b <= cv@.len(),
    ensures
        pairs_of(final(out)@) == pairs_of(old(out)@) + kh_line(cv@.subrange(a as int, b as int), skip_hashed),
{
    let ghost line = cv@.subrange(a as int, b as int);
    let (lo, hi) = trim_range(cv, a, b);
    let ghost l = trim_seq(line);
    proof {
        assert(l == cv@.subrange(lo as int, hi as int));
    }
    if lo == hi {
        proof {
            assert(pairs_of(out@) =~= pairs_of(out@) + kh_line(line, skip_hashed));
        }
        return;
    }
    proof {
        assert(l[0] == cv@[lo as int]);
    }
    let c0 = cv[lo];
    if c0 == '#' || (skip_hashed && c0 == '|') {
        proof {
            assert(pairs_of(out@) =~= pairs_of(out@) + kh_line(line, skip_hashed));
        }
        return;
    }
    let te = scan_token_end(cv, lo, hi);
    proof {
        assert(first_token(l) =~= cv@.subrange(lo as int, te as int));
    }
    kh_emit_aliases(cv, content, lo, te, out);
}

/// Parses known_hosts-style text: one entry per host alias, hashed entries
/// optionally skipped, the result sorted by name with duplicates dropped.
pub fn parse_known_hosts_content(content: &str, skip_hashed: bool) -> (r: Vec<HostEntry>)
    ensures
        pairs_of(r@) == kh_spec(content@, skip_hashed),
{
    let cv = chars_vec(content);
    let clen = cv.len();
    let mut out: Vec<HostEntry> = Vec::new();
    let mut a: usize = 0;
    proof {
        assert(cv@.skip(0) =~= cv@);
        assert(pairs_of(out@) =~= Seq::<(Seq<char>, Seq<char>)>::empty());
        assert(pairs_of(out@) + kh_raw(cv@.skip(0), skip_hashed) =~= kh_raw(content@, skip_hashed));
    }
    while a < clen
        invariant
            cv@ == content@,
            clen == cv@.len(),
            a <= clen,
            kh_raw(content@, skip_hashed) == pairs_of(out@) + kh_raw(cv@.skip(a as int), skip_hashed),
        decreases clen - a,
    {
        let b = scan_newline(&cv, a);
        let ghost rest = cv@.skip(a as int);
        let ghost prev = pairs_of(out@);
        kh_emit_line(&cv, content, a, b, skip_hashed, &mut out);
        proof {
            if b < clen {
                assert(rest.take(b - a) =~= cv@.subrange(a as int, b as int));
                assert(rest.skip(b - a + 1) =~= cv@.skip(b + 1));
                assert((prev + kh_line(cv@.subrange(a as int, b as int), skip_hashed)) + kh_raw(
                    cv@.skip(b + 1), skip_hashed) =~= prev + (kh_line(cv@.subrange(a as int,
                    b as int), skip_hashed) + kh_raw(cv@.skip(b + 1), skip_hashed)));
            } else {
                assert(rest =~= cv@.subrange(a as int, b as int));
                assert(kh_raw(rest, skip_hashed) == if rest.len() == 0 {
                    Seq::<(Seq<char>, Seq<char>)>::empty()
                } else {
                    kh_line(rest, skip_hashed)
                });
                assert(cv@.skip(clen as int).len() == 0);
            }
            assert((prev + kh_line(cv@.subrange(a as int, b as int), skip_hashed))
                =~= pairs_of(out@));
        }
        if b < clen {
            a = b + 1;
        } else {
            proof {
                assert(pairs_of(out@) + kh_raw(cv@.skip(clen as int), skip_hashed)
                    =~= pairs_of(out@));
            }
            a = clen;
        }
    }
    proof {
        assert(cv@.skip(a as int).len() == 0);
        assert(kh_raw(content@, skip_hashed) =~= pairs_of(out@));
    }
    let sorted = sort_entries_by_name(&out);
    let deduped = dedup_entries_by_name(&sorted);
    deduped
}

/// Closes the open block: emits the current host unless it carries a
/// wildcard.
fn sc_flush(cur: Option<String>, out: &mut Vec<HostEntry>)
    ensures
        pairs_of(final(out)@) == pairs_of(old(out)@) + flush_host(match cur {
            Option::None => Option::None,
            Option::Some(h) => Option::Some(h@),
        }),
{
    match cur {
        Option::None => {
            proof {
                assert(pairs_of(out@) =~= pairs_of(out@) + Seq::<(Seq<char>, Seq<char>)>::empty());
            }
        },
        Option::Some(h) => {
            let hv = chars_vec(h.as_str());
            let star = contains_char(&hv, '*');
            let quest = contains_char(&hv, '?');
            if !star && !quest {
                let conn = String::from_str("ssh ").concat(h.as_str());
                proof {
                    reveal_strlit("ssh ");
                    assert("ssh "@ =~= seq!['s', 's', 'h', ' ']);
                }
                let ghost prev = pairs_of(out@);
                let ghost hview = h@;
                out.push(HostEntry::new(h, conn));
                proof {
                    assert(pairs_of(out@) =~= prev + flush_host(Option::Some(hview)));
                }
            } else {
                proof {
                    assert(pairs_of(out@) =~= pairs_of(out@) + Seq::<(Seq<char>, Seq<char>)>::empty());
                }
            }
        },
    }
}

/// The view of the open block.
pub open spec fn cur_view(cur: &Option<String>) -> Option<Seq<char>> {
    match *cur {
        Option::None => Option::None,
        Option::Some(h) => Option::Some(h@),
    }
}

/// Processes one config line `[a, b)`, updating the open block.
fn sc_emit_line(cv: &Vec<char>, content: &str, a: usize, b: usize, cur: &mut Option<String>, out: &mut Vec<HostEntry>)
    requires
        cv@ == content@,
        a <= b <= cv@.len(),
    ensures
        ({
            let st = sc_step(cv@.subrange(a as int, b as int), cur_view(old(cur)));
            &&& pairs_of(final(out)@) == pairs_of(old(out)@) + st.0
            &&& cur_view(final(cur)) == st.1
        }),
{
    let ghost line = cv@.subrange(a as int, b as int);
    let ghost st = sc_step(line, cur_view(cur));
    let (lo, hi) = trim_range(cv, a, b);
    let ghost l = trim_seq(line);
    proof {
        assert(l == cv@.subrange(lo as int, hi as int));
    }
    if lo == hi {
        proof {
            assert(pairs_of(out@) =~= pairs_of(out@) + st.0);
        }
        return;
    }
    proof {
        assert(l[0] == cv@[lo as int]);
    }
    if cv[lo] == '#' {
        proof {
            assert(pairs_of(out@) =~= pairs_of(out@) + st.0);
        }
        return;
    }
    let te = scan_token_end(cv, lo, hi);
    proof {
        assert(l.skip(token_end(l)) =~= cv@.subrange(te as int, hi as int));
    }
    let (vl, vh) = trim_range(cv, te, hi);
    if vl == vh {
        proof {
            assert(trim_seq(l.skip(token_end(l))).len() == 0);
            assert(pairs_of(out@) =~= pairs_of(out@) + st.0);
        }
        return;
    }
    proof {
        assert(trim_seq(l.skip(token_end(l))) == cv@.subrange(vl as int, vh as int));
        assert(trim_seq(l.skip(token_end(l))).len() > 0);
    }

    // Is the key, lowercased, the word `host`?
    let key = content.substring_char(lo, te);
    proof {
        assert(first_token(l) =~= cv@.subrange(lo as int, te as int));
    }
    let kl = lowercase(key);
    let klv = chars_vec(kl.as_str());
    let mut hostv: Vec<char> = Vec::new();
    hostv.push('h');
    hostv.push('o');
    hostv.push('s');
    hostv.push('t');
    proof {
        assert(hostv@ =~= host_keyword());
    }
    if !vec_eq_chars(&klv, &hostv) {
        proof {
            assert(lower_of(first_token(l)) != host_keyword());
            assert(pairs_of(out@) =~= pairs_of(out@) + st.0);
        }
        return;
    }

    // Close the previous block.
    let prev_cur = cur.take();
    proof {
        assert(cur_view(&prev_cur) == cur_view(old(cur)));
    }
    sc_flush(prev_cur, out);

    // Build the new block's value: the rest of the line, whitespace runs
    // collapsed to single spaces.
    let ghost val_spec = squash_spaces(cv@.subrange(vl as int, vh as int));
    let mut value = String::new();
    let mut j = vl;
    while j < vh
        invariant
            vl <= j <= vh <= cv@.len(),
            val_spec == squash_spaces(cv@.subrange(vl as int, vh as int)),
            val_spec == value@ + squash_spaces(cv@.subrange(j as int, vh as int)),
        decreases vh - j,
    {
        let ghost seg = cv@.subrange(j as int, vh as int);
        proof {
            assert(seg[0] == cv@[j as int]);
            if j + 1 < vh {
                assert(seg[1] == cv@[j + 1]);
            }
            assert(seg.drop_first() =~= cv@.subrange(j + 1, vh as int));
        }
        let cj = cv[j];
        let ghost oldv = value@;
        if char_is_whitespace(cj) {
            if j + 1 < vh && char_is_whitespace(cv[j + 1]) {
                // A later space of a run: contributes nothing.
            } else {
                push_char(&mut value, ' ');
                proof {
                    assert(value@ + squash_spaces(seg.drop_first()) =~= oldv + (seq![' ']
                        + squash_spaces(seg.drop_first())));
                }
            }
        } else {
            push_char(&mut value, cj);
            proof {
                assert(value@ + squash_spaces(seg.drop_first()) =~= oldv + (seq![cj]
                    + squash_spaces(seg.drop_first())));
            }
        }
        j = j + 1;
    }
    proof {
        assert(squash_spaces(cv@.subrange(j as int, vh as int)).len() == 0);
        assert(value@ =~= val_spec);
    }
    *cur = Some(value);
}

/// Parses SSH-config-style text: the value of each wildcard-free `Host`
/// block becomes an entry, sorted by name with duplicates dropped.  Only
/// simple parsing is offered: other directives are ignored, which is all the
/// host index needs.
pub fn parse_ssh_config_content(content: &str, simple_parsing: bool) -> (r: Vec<HostEntry>)
    ensures
        pairs_of(r@) == sc_spec(content@),
{
    let cv = chars_vec(content);
    let clen = cv.len();
    let mut out: Vec<HostEntry> = Vec::new();
    let mut cur: Option<String> = None;
    let mut a: usize = 0;
    proof {
        assert(cv@.skip(0) =~= cv@);
        assert(pairs_of(out@) =~= Seq::<(Seq<char>, Seq<char>)>::empty());
        assert(pairs_of(out@) + sc_raw(cv@.skip(0), cur_view(&cur)) =~= sc_raw(content@,
            Option::None));
    }
    while a < clen
        invariant
            cv@ == content@,
            clen == cv@.len(),
            a <= clen,
            sc_raw(content@, Option::None) == pairs_of(out@) + sc_raw(cv@.skip(a as int),
                cur_view(&cur)),
        decreases clen - a,
    {
        let b = scan_newline(&cv, a);
        let ghost rest = cv@.skip(a as int);
        let ghost prev = pairs_of(out@);
        let ghost oldcur = cur_view(&cur);
        sc_emit_line(&cv, content, a, b, &mut cur, &mut out);
        proof {
            let st = sc_step(cv@.subrange(a as int, b as int), oldcur);
            if b < clen {
                assert(rest.take(b - a) =~= cv@.subrange(a as int, b as int));
                assert(rest.skip(b - a + 1) =~= cv@.skip(b + 1));
                assert((prev + st.0) + sc_raw(cv@.skip(b + 1), st.1) =~= prev + (st.0 + sc_raw(
                    cv@.skip(b + 1), st.1)));
            } else {
                assert(rest =~= cv@.subrange(a as int, b as int));
                assert(rest.len() > 0);
                assert(cv@.skip(clen as int).len() == 0);
                assert(sc_raw(cv@.skip(clen as int), st.1) == flush_host(st.1));
                assert((prev + st.0) + flush_host(st.1) =~= prev + (st.0 + flush_host(st.1)));
            }
        }
        if b < clen {
            a = b + 1;
        } else {
            a = clen;
        }
    }
    proof {
        assert(cv@.skip(a as int).len() == 0);
        assert(sc_raw(cv@.skip(a as int), cur_view(&cur)) == flush_host(cur_view(&cur)));
    }
    let ghost prev2 = pairs_of(out@);
    let ghost curv = cur_view(&cur);
    sc_flush(cur, &mut out);
    proof {
        assert(prev2 + flush_host(curv) =~= pairs_of(out@));
        assert(sc_raw(content@, Option::None) == pairs_of(out@));
    }
    let sorted = sort_entries_by_name(&out);
    let deduped = dedup_entries_by_name(&sorted);
    deduped
}

/// Concatenates two extracted entry lists, known_hosts entries first, and
/// brings the whole into canonical order: ties on a name keep the first
/// occurrence, so known_hosts entries win them.
pub fn merge_hosts(known: &Vec<HostEntry>, config: &Vec<HostEntry>) -> (r: Vec<HostEntry>)
    ensures
        pairs_of(r@) == canonical(pairs_of(known@) + pairs_of(config@)),
{
    let mut all: Vec<HostEntry> = Vec::new();
    let mut i: usize = 0;
    let kn = known.len();
    while i < kn
        invariant
            kn == known@.len(),
            i <= kn,
            pairs_of(all@) == pairs_of(known@.take(i as int)),
        decreases kn - i,
    {
        let x = known[i].clone();
        let ghost xn = x.name@;
        let ghost xc = x.connection_string@;
        let ghost prev = all@;
        all.push(x);
        proof {
            assert(pairs_of(prev).len() == prev.len());
            assert(pairs_of(known@.take(i as int)).len() == i);
            assert(all@.len() == i + 1);
            assert forall|k: int| 0 <= k < all@.len() implies pairs_of(all@)[k] == pairs_of(
                known@.take(i + 1))[k] by {
                assert(pairs_of(all@)[k] == (all@[k].name@, all@[k].connection_string@));
                assert(pairs_of(known@.take(i + 1))[k] == (known@.take(i + 1)[k].name@,
                    known@.take(i + 1)[k].connection_string@));
                assert(known@.take(i + 1)[k] == known@[k]);
                if k < i {
                    assert(all@[k] == prev[k]);
                    assert(pairs_of(prev)[k] == pairs_of(known@.take(i as int))[k]);
                    assert(pairs_of(prev)[k] == (prev[k].name@, prev[k].connection_string@));
                    assert(pairs_of(known@.take(i as int))[k] == (known@.take(i as int)[k].name@,
                        known@.take(i as int)[k].connection_string@));
                    assert(known@.take(i as int)[k] == known@[k]);
                } else {
                    assert(all@[k].name@ == xn && all@[k].connection_string@ == xc);
                }
            }
            assert(pairs_of(all@) =~= pairs_of(known@.take(i + 1)));
        }
        i = i + 1;
    }
    let cn = config.len();
    let mut j: usize = 0;
    while j < cn
        invariant
            cn == config@.len(),
            j <= cn,
            pairs_of(all@) == pairs_of(known@) + pairs_of(config@.take(j as int)),
        decreases cn - j,
    {
        let x = config[j].clone();
        let ghost xn = x.name@;
        let ghost xc = x.connection_string@;
        let ghost prev = all@;
        all.push(x);
        proof {
            let ghost rhs = pairs_of(known@) + pairs_of(config@.take(j + 1));
            assert(pairs_of(prev).len() == prev.len());
            assert(pairs_of(known@).len() == known@.len());
            assert(pairs_of(config@.take(j as int)).len() == j);
            assert(pairs_of(config@.take(j + 1)).len() == j + 1);
            assert(prev.len() == known@.len() + j);
            assert(all@.len() == known@.len() + j + 1);
            assert forall|k: int| 0 <= k < all@.len() implies pairs_of(all@)[k] == rhs[k] by {
                assert(pairs_of(all@)[k] == (all@[k].name@, all@[k].connection_string@));
                if k < prev.len() {
                    assert(all@[k] == prev[k]);
                    assert(pairs_of(prev)[k] == (prev[k].name@, prev[k].connection_string@));
                    assert(pairs_of(prev)[k] == (pairs_of(known@) + pairs_of(config@.take(
                        j as int)))[k]);
                    if k < known@.len() {
                        assert(rhs[k] == pairs_of(known@)[k]);
                        assert((pairs_of(known@) + pairs_of(config@.take(j as int)))[k]
                            == pairs_of(known@)[k]);
                    } else {
                        assert(rhs[k] == pairs_of(config@.take(j + 1))[k - known@.len()]);
                        assert((pairs_of(known@) + pairs_of(config@.take(j as int)))[k]
                            == pairs_of(config@.take(j as int))[k - known@.len()]);
                        assert(pairs_of(config@.take(j + 1))[k - known@.len()] == (config@.take(
                            j + 1)[k - known@.len()].name@, config@.take(j + 1)[k
                            - known@.len()].connection_string@));
                        assert(pairs_of(config@.take(j as int))[k - known@.len()] == (config@.take(
                            j as int)[k - known@.len()].name@, config@.take(j as int)[k
                            - known@.len()].connection_string@));
                        assert(config@.take(j + 1)[k - known@.len()] == config@[k - known@.len()]);
                        assert(config@.take(j as int)[k - known@.len()] == config@[k
                            - known@.len()]);
                    }
                } else {
                    assert(all@[k].name@ == xn && all@[k].connection_string@ == xc);
                    assert(rhs[k] == pairs_of(config@.take(j + 1))[k - known@.len()]);
                    assert(pairs_of(config@.take(j + 1))[k - known@.len()] == (config@.take(
                        j + 1)[k - known@.len()].name@, config@.take(j + 1)[k
                        - known@.len()].connection_string@));
                    assert(config@.take(j + 1)[k - known@.len()] == config@[j as int]);
                }
            }
            assert(pairs_of(all@) =~= rhs);
        }
        j = j + 1;
    }
    proof {
        assert(known@.take(kn as int) =~= known@);
        assert(config@.take(cn as int) =~= config@);
    }
    let sorted = sort_entries_by_name(&all);
    let deduped = dedup_entries_by_name(&sorted);
    deduped
}

/// Every emitted pair couples a name with the connection string built from
/// it.
pub open spec fn all_ssh_pairs(s: Seq<(Seq<char>, Seq<char>)>) -> bool {
    forall|k: int| 0 <= k < s.len() ==> (#[trigger] s[k]).1 == conn_of(s[k].0)
}

proof fn lemma_all_ssh_concat(x: Seq<(Seq<char>, Seq<char>)>, y: Seq<(Seq<char>, Seq<char>)>)
    requires
        all_ssh_pairs(x),
        all_ssh_pairs(y),
    ensures
        all_ssh_pairs(x + y),
{
    assert forall|k: int| 0 <= k < (x + y).len() implies (#[trigger] (x + y)[k]).1
        == conn_of((x + y)[k].0) by {
        if k < x.len() {
            assert((x + y)[k] == x[k]);
        } else {
            assert((x + y)[k] == y[k - x.len()]);
        }
    }
}

proof fn lemma_kh_aliases_ssh(tok: Seq<char>)
    ensures
        all_ssh_pairs(kh_aliases(tok)),
    decreases tok.len(),
{
    let c = find_char(tok, ',', 0);
    if c < 0 || c >= tok.len() {
    } else {
        lemma_kh_aliases_ssh(tok.skip(c + 1));
        lemma_all_ssh_concat(kh_alias(tok.take(c)), kh_aliases(tok.skip(c + 1)));
    }
}

proof fn lemma_kh_raw_ssh(content: Seq<char>, skip_hashed: bool)
    ensures
        all_ssh_pairs(kh_raw(content, skip_hashed)),
    decreases content.len(),
{
    if content.len() == 0 {
    } else {
        let nl = find_char(content, '\n', 0);
        if nl < 0 || nl >= content.len() {
            let l = trim_seq(content);
            if l.len() == 0 || l[0] == '#' {
            } else if skip_hashed && l[0] == '|' {
            } else {
                lemma_kh_aliases_ssh(first_token(l));
            }
        } else {
            let line = content.take(nl);
            let l = trim_seq(line);
            if l.len() == 0 || l[0] == '#' {
            } else if skip_hashed && l[0] == '|' {
            } else {
                lemma_kh_aliases_ssh(first_token(l));
            }
            lemma_kh_raw_ssh(content.skip(nl + 1), skip_hashed);
            lemma_all_ssh_concat(kh_line(line, skip_hashed), kh_raw(content.skip(nl + 1), skip_hashed));
        }
    }
}

proof fn lemma_sc_raw_ssh(content: Seq<char>, cur: Option<Seq<char>>)
    ensures
        all_ssh_pairs(sc_raw(content, cur)),
    decreases content.len(),
{
    if content.len() == 0 {
    } else {
        let nl = find_char(content, '\n', 0);
        if nl < 0 || nl >= content.len() {
            let st = sc_step(content, cur);
            lemma_all_ssh_concat(st.0, flush_host(st.1));
        } else {
            let st = sc_step(content.take(nl), cur);
            lemma_sc_raw_ssh(content.skip(nl + 1), st.1);
            lemma_all_ssh_concat(st.0, sc_raw(content.skip(nl + 1), st.1));
        }
    }
}

/// The round trip of extraction: every entry either parser emits pairs a
/// name with exactly the connection string `ssh ` followed by that name; in
/// particular a config block `Host foo` yields the name `foo` and the
/// connection string `ssh foo`.
pub proof fn lemma_parsed_connections(content: Seq<char>, skip_hashed: bool)
    ensures
        all_ssh_pairs(kh_spec(content, skip_hashed)),
        all_ssh_pairs(sc_spec(content)),
{
    lemma_kh_raw_ssh(content, skip_hashed);
    lemma_sc_raw_ssh(content, Option::None);
    lemma_canonical_membership(kh_raw(content, skip_hashed));
    lemma_canonical_membership(sc_raw(content, Option::None));
    assert forall|k: int| 0 <= k < kh_spec(content, skip_hashed).len() implies
        (#[trigger] kh_spec(content, skip_hashed)[k]).1 == conn_of(kh_spec(content, skip_hashed)[k].0) by {
        let raw = kh_raw(content, skip_hashed);
        let m = choose|m: int| 0 <= m < raw.len() && kh_spec(content, skip_hashed)[k] == raw[m];
    }
    assert forall|k: int| 0 <= k < sc_spec(content).len() implies
        (#[trigger] sc_spec(content)[k]).1 == conn_of(sc_spec(content)[k].0) by {
        let raw = sc_raw(content, Option::None);
        let m = choose|m: int| 0 <= m < raw.len() && sc_spec(content)[k] == raw[m];
    }
}

} // verus!
