//! Preparing a terminal launch: escaping the connection command for the
//! shell, substituting it into the configured argument template, and naming
//! the application for activation.  Spawning the process is the caller's
//! business; it receives everything it needs as a [`LaunchPlan`].

use vstd::prelude::*;
use vstd::string::StrSliceExecFns;
use vstd::string::StringExecFns;
use crate::config::{TerminalConfig, placeholder_text};
use crate::parser::HostEntry;
use crate::text::{chars_vec, push_char, replace_all, replace_str, lower_of, lowercase};
use crate::fuzzy::{find_from, occurs_at, contains_seq, find_sub, vec_eq_chars,
    lemma_find_from_bounds};

verus! {

/// How one character is escaped: shell metacharacters get a backslash, a
/// newline becomes `\n`, a tab becomes `\t`, everything else is kept.
pub open spec fn esc_char(c: char) -> Seq<char> {
    if c == '\n' {
        seq!['\\', 'n']
    } else if c == '\t' {
        seq!['\\', 't']
    } else if c == '\\' || c == '"' || c == '\'' || c == ';' || c == '&' || c == '|' || c == '$'
        || c == '`' || c == '(' || c == ')' || c == '<' || c == '>' {
        seq!['\\', c]
    } else {
        seq![c]
    }
}

/// The whole command escaped character by character.
pub open spec fn escape_spec(s: Seq<char>) -> Seq<char>
    decreases s.len(),
{
    if s.len() == 0 {
        s
    } else {
        esc_char(s[0]) + escape_spec(s.drop_first())
    }
}

/// Escapes shell metacharacters so the command cannot break out of the
/// argument it is substituted into.
pub fn escape_shell_command(command: &str) -> (r: String)
    ensures
        r@ == escape_spec(command@),
{
    let cv = chars_vec(command);
    let n = cv.len();
    let mut out = String::new();
    let mut i: usize = 0;
    proof {
        assert(cv@.skip(0) =~= cv@);
    }
    while i < n
        invariant
            cv@ == command@,
            n == cv@.len(),
            i <= n,
            escape_spec(command@) == out@ + escape_spec(command@.skip(i as int)),
        decreases n - i,
    {
        let ghost seg = command@.skip(i as int);
        proof {
            assert(seg[0] == command@[i as int]);
            assert(seg.drop_first() =~= command@.skip(i + 1));
        }
        let c = cv[i];
        let ghost oldv = out@;
        if c == '\n' {
            push_char(&mut out, '\\');
            push_char(&mut out, 'n');
        } else if c == '\t' {
            push_char(&mut out, '\\');
            push_char(&mut out, 't');
        } else if c == '\\' || c == '"' || c == '\'' || c == ';' || c == '&' || c == '|'
            || c == '$' || c == '`' || c == '(' || c == ')' || c == '<' || c == '>' {
            push_char(&mut out, '\\');
            push_char(&mut out, c);
        } else {
            push_char(&mut out, c);
        }
        proof {
            assert(out@ =~= oldv + esc_char(c));
            assert(out@ + escape_spec(command@.skip(i + 1)) =~= oldv + (esc_char(c) + escape_spec(
                seg.drop_first())));
        }
        i = i + 1;
    }
    proof {
        assert(escape_spec(command@.skip(n as int)).len() == 0);
        assert(out@ =~= escape_spec(command@));
    }
    out
}

/// Index of the last occurrence of `c` in `s`, or -1 if there is none.
pub open spec fn rfind_char(s: Seq<char>, c: char) -> int
    decreases s.len(),
{
    if s.len() == 0 {
        -1
    } else if s.last() == c {
        s.len() - 1
    } else {
        rfind_char(s.drop_last(), c)
    }
}

/// Scans backwards for the last occurrence of `c` in `v@.take(hi)`.
fn scan_rfind(v: &Vec<char>, hi: usize, c: char) -> (r: Option<usize>)
    requires
        hi <= v@.len(),
    ensures
        match r {
            Some(k) => rfind_char(v@.take(hi as int), c) == k && k < hi,
            None => rfind_char(v@.take(hi as int), c) == -1,
        },
{
    let mut j = hi;
    while j > 0
        invariant
            hi <= v@.len(),
            j <= hi,
            rfind_char(v@.take(hi as int), c) == rfind_char(v@.take(j as int), c),
        decreases j,
    {
        if v[j - 1] == c {
            proof {
                assert(v@.take(j as int).last() == v@[j - 1]);
            }
            return Some(j - 1);
        }
        proof {
            assert(v@.take(j as int).last() == v@[j - 1]);
            assert(v@.take(j as int).drop_last() =~= v@.take(j - 1));
        }
        j = j - 1;
    }
    proof {
        assert(v@.take(0).len() == 0);
    }
    None
}

/// Two characters equal up to ASCII case.
pub open spec fn char_eq_nocase(x: char, y: char) -> bool {
    ||| x == y
    ||| ((x as u32) + 32 == (y as u32) && 65 <= (x as u32) <= 90)
    ||| ((y as u32) + 32 == (x as u32) && 65 <= (y as u32) <= 90)
}

/// Two character sequences equal up to ASCII case, as
/// `str::eq_ignore_ascii_case` compares them.
pub open spec fn eq_nocase(a: Seq<char>, b: Seq<char>) -> bool {
    a.len() == b.len() && forall|i: int| 0 <= i < a.len() ==> char_eq_nocase(#[trigger] a[i], b[i])
}

/// Decides [`eq_nocase`] on two character vectors.
fn vec_eq_nocase(a: &Vec<char>, b: &Vec<char>) -> (r: bool)
    ensures
        r == eq_nocase(a@, b@),
{
    if a.len() != b.len() {
        return false;
    }
    let n = a.len();
    let mut i: usize = 0;
    while i < n
        invariant
            n == a@.len() == b@.len(),
            i <= n,
            forall|j: int| 0 <= j < i ==> char_eq_nocase(#[trigger] a@[j], b@[j]),
        decreases n - i,
    {
        let x = a[i] as u32;
        let y = b[i] as u32;
        let same = x == y || (65 <= x && x <= 90 && x + 32 == y) || (65 <= y && y <= 90 && y + 32
            == x);
        proof {
            vstd::utf8::char_u32_cast(a@[i as int], x);
            vstd::utf8::char_u32_cast(b@[i as int], y);
        }
        if !same {
            return false;
        }
        i = i + 1;
    }
    true
}

/// The application name extracted from a terminal program path: for an app
/// bundle path, the bundle's base name without `.app` (Ghostty lowercased,
/// as its process is named); otherwise the final path component, well-known
/// terminal binaries mapped to their application names; a path without
/// separators is returned as it is.
pub open spec fn extract_app_name_spec(p: Seq<char>) -> Seq<char> {
    let f = find_from(p, ".app/"@, 0);
    if f >= 0 {
        let app_path = p.take(f + 4);
        let start = rfind_char(app_path, '/') + 1;
        let nm = app_path.skip(start);
        let clean = if nm.len() >= 4 && nm.skip(nm.len() - 4) == ".app"@ {
            nm.take(nm.len() - 4)
        } else {
            nm
        };
        if eq_nocase(clean, "ghostty"@) {
            "ghostty"@
        } else {
            clean
        }
    } else {
        let ls = rfind_char(p, '/');
        if ls >= 0 {
            let bin = p.skip(ls + 1);
            let low = lower_of(bin);
            if low == "iterm2"@ {
                "iTerm2"@
            } else if low == "alacritty"@ {
                "Alacritty"@
            } else if low == "kitty"@ {
                "kitty"@
            } else if low == "ghostty"@ {
                "ghostty"@
            } else if low == "wezterm"@ {
                "WezTerm"@
            } else if low == "hyper"@ {
                "Hyper"@
            } else {
                bin
            }
        } else {
            p
        }
    }
}

/// Extracts the application name from a terminal program path, for
/// activation through the operating system.
pub fn extract_app_name(program_path: &str) -> (r: String)
    ensures
        r@ == extract_app_name_spec(program_path@),
{
    let pv = chars_vec(program_path);
    let plen = pv.len();
    let marker = chars_vec(".app/");
    match find_sub(&pv, &marker) {
        Some(f) => {
            proof {
                lemma_find_from_bounds(pv@, ".app/"@);
                assert(occurs_at(pv@, ".app/"@, f as int));
                reveal_strlit(".app/");
                assert(".app/"@.len() == 5);
            }
            let app_end = f + 4;
            let ghost app_path = pv@.take(app_end as int);
            let start = match scan_rfind(&pv, app_end, '/') {
                Some(k) => k + 1,
                None => 0,
            };
            proof {
                assert(start == rfind_char(app_path, '/') + 1 || (start == 0 && rfind_char(
                    app_path, '/') == -1));
            }
            let ghost nm = app_path.skip(start as int);
            let suffix = chars_vec(".app");
            proof {
                reveal_strlit(".app");
                assert(".app"@.len() == 4);
            }
            let nlen = app_end - start;
            let mut clean_lo = start;
            let mut clean_hi = app_end;
            if nlen >= 4 {
                let tail = crate::text::copy_range(&pv, app_end - 4, app_end);
                proof {
                    assert(tail@ =~= nm.skip(nm.len() - 4));
                }
                if vec_eq_chars(&tail, &suffix) {
                    clean_hi = app_end - 4;
                }
            }
            let ghost clean = if nm.len() >= 4 && nm.skip(nm.len() - 4) == ".app"@ {
                nm.take(nm.len() - 4)
            } else {
                nm
            };
            proof {
                assert(clean =~= pv@.subrange(clean_lo as int, clean_hi as int));
            }
            let cleanv = crate::text::copy_range(&pv, clean_lo, clean_hi);
            let ghosttyv = chars_vec("ghostty");
            if vec_eq_nocase(&cleanv, &ghosttyv) {
                String::from_str("ghostty")
            } else {
                let s = program_path.substring_char(clean_lo, clean_hi);
                proof {
                    assert(s@ =~= clean);
                }
                String::from_str(s)
            }
        },
        None => {
            match scan_rfind(&pv, plen, '/') {
                Some(ls) => {
                    proof {
                        assert(pv@.take(plen as int) =~= pv@);
                    }
                    let bin = program_path.substring_char(ls + 1, plen);
                    proof {
                        assert(bin@ =~= program_path@.skip(ls + 1));
                    }
                    let low = lowercase(bin);
                    let lowv = chars_vec(low.as_str());
                    if vec_eq_chars(&lowv, &chars_vec("iterm2")) {
                        String::from_str("iTerm2")
                    } else if vec_eq_chars(&lowv, &chars_vec("alacritty")) {
                        String::from_str("Alacritty")
                    } else if vec_eq_chars(&lowv, &chars_vec("kitty")) {
                        String::from_str("kitty")
                    } else if vec_eq_chars(&lowv, &chars_vec("ghostty")) {
                        String::from_str("ghostty")
                    } else if vec_eq_chars(&lowv, &chars_vec("wezterm")) {
                        String::from_str("WezTerm")
                    } else if vec_eq_chars(&lowv, &chars_vec("hyper")) {
                        String::from_str("Hyper")
                    } else {
                        String::from_str(bin)
                    }
                },
                None => {
                    proof {
                        assert(pv@.take(plen as int) =~= pv@);
                    }
                    String::from_str(program_path)
                },
            }
        },
    }
}

/// Everything the caller needs to spawn the terminal for one host.
#[derive(Debug)]
pub struct LaunchPlan {
    pub use_open: bool,
    pub app_name: String,
    pub program: String,
    pub args: Vec<String>,
}

/// The terminal launcher configured with a program and argument template.
pub struct TerminalLauncher {
    pub config: TerminalConfig,
}

/// Whether the program is an app bundle that the operating system's opener
/// should activate, rather than a binary to execute directly.
pub open spec fn use_open_spec(program: Seq<char>) -> bool {
    contains_seq(program, ".app/"@) && !contains_seq(program, "osascript"@)
}

impl TerminalLauncher {
    pub fn new(config: TerminalConfig) -> (r: Self)
        ensures
            r.config.program@ == config.program@,
            r.config.args@ == config.args@,
    {
        Self { config }
    }

    /// Whether launching goes through the system opener: app bundles do,
    /// script runners do not.
    pub fn should_use_open_command(&self) -> (r: bool)
        ensures
            r == use_open_spec(self.config.program@),
    {
        let pv = chars_vec(self.config.program.as_str());
        let app = chars_vec(".app/");
        let osa = chars_vec("osascript");
        proof {
            lemma_find_from_bounds(pv@, ".app/"@);
            lemma_find_from_bounds(pv@, "osascript"@);
        }
        let has_app = match find_sub(&pv, &app) {
            Some(_) => true,
            None => false,
        };
        let has_osa = match find_sub(&pv, &osa) {
            Some(_) => true,
            None => false,
        };
        has_app && !has_osa
    }

    /// Prepares the launch of `host`: the connection command escaped and
    /// substituted into the argument template, the program, its application
    /// name, and whether to go through the system opener.
    pub fn launch_plan(&self, host: &HostEntry) -> (r: LaunchPlan)
        ensures
            r.use_open == use_open_spec(self.config.program@),
            r.program@ == self.config.program@,
            r.app_name@ == extract_app_name_spec(self.config.program@),
            r.args@.len() == self.config.args@.len(),
            forall|k: int| 0 <= k < r.args@.len() ==> (#[trigger] r.args@[k])@ == replace_all(
                self.config.args@[k]@, placeholder_text(), escape_spec(
                host.connection_string@)),
    {
        let escaped = escape_shell_command(host.connection_string.as_str());
        proof {
            reveal_strlit("{ssh_command}");
        }
        let nargs = self.config.args.len();
        let mut args: Vec<String> = Vec::new();
        let mut k: usize = 0;
        while k < nargs
            invariant
                nargs == self.config.args@.len(),
                k <= nargs,
                args@.len() == k,
                escaped@ == escape_spec(host.connection_string@),
                placeholder_text().len() > 0,
                forall|m: int| 0 <= m < k ==> (#[trigger] args@[m])@ == replace_all(
                    self.config.args@[m]@, placeholder_text(), escaped@),
            decreases nargs - k,
        {
            args.push(replace_str(self.config.args[k].as_str(), "{ssh_command}",
                escaped.as_str()));
            k = k + 1;
        }
        LaunchPlan {
            use_open: self.should_use_open_command(),
            app_name: extract_app_name(self.config.program.as_str()),
            program: self.config.program.clone(),
            args,
        }
    }
}

} // verus!
