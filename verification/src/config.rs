//! User configuration: the terminal to launch, the SSH file locations, what
//! to parse, and the search options, with pure validation and tilde
//! expansion.  Reading and writing config files is the caller's business.

use vstd::prelude::*;
use vstd::string::StrSliceExecFns;
use vstd::string::StringExecFns;
use crate::text::chars_vec;
use crate::fuzzy::{contains_seq, find_sub, lemma_find_from_bounds};

verus! {

/// The terminal program and the argument template it is launched with.
#[derive(Debug, Clone)]
pub struct TerminalConfig {
    pub program: String,
    pub args: Vec<String>,
}

/// Where the SSH artifacts live and which binary connects.
#[derive(Debug, Clone)]
pub struct SshConfig {
    pub known_hosts_path: String,
    pub config_path: String,
    pub ssh_binary: String,
}

/// Which sources are parsed and how.
#[derive(Debug, Clone)]
pub struct ParsingConfig {
    pub parse_known_hosts: bool,
    pub parse_ssh_config: bool,
    pub simple_config_parsing: bool,
    pub skip_hashed_hosts: bool,
}

/// The search engine's options.
#[derive(Debug, Clone)]
pub struct UiConfig {
    pub max_results: usize,
    pub case_sensitive: bool,
}

/// The whole configuration.
#[derive(Debug, Clone)]
pub struct Config {
    pub terminal: TerminalConfig,
    pub ssh: SshConfig,
    pub parsing: ParsingConfig,
    pub ui: UiConfig,
}

/// Why a configuration was rejected, in the order the checks run.
#[derive(Debug, Clone, Copy, PartialEq, Eq, Structural)]
pub enum ConfigError {
    EmptyTerminalProgram,
    MissingSshCommandPlaceholder,
    EmptySshBinary,
    ZeroMaxResults,
    NoParsingSources,
    HomeDirUnavailable,
}

impl ConfigError {
    /// A short description of the failure for the caller to show.
    pub fn message(&self) -> (r: &'static str)
        ensures
            r@.len() > 0,
    {
        let m: &'static str = match self {
            ConfigError::EmptyTerminalProgram => "Terminal program cannot be empty",
            ConfigError::MissingSshCommandPlaceholder => "Terminal args must contain {ssh_command} placeholder",
            ConfigError::EmptySshBinary => "SSH binary path cannot be empty",
            ConfigError::ZeroMaxResults => "max_results must be greater than 0",
            ConfigError::NoParsingSources => "At least one parsing source must be enabled",
            ConfigError::HomeDirUnavailable => "Failed to determine home directory",
        };
        proof {
            reveal_strlit("Terminal program cannot be empty");
            reveal_strlit("Terminal args must contain {ssh_command} placeholder");
            reveal_strlit("SSH binary path cannot be empty");
            reveal_strlit("max_results must be greater than 0");
            reveal_strlit("At least one parsing source must be enabled");
            reveal_strlit("Failed to determine home directory");
        }
        m
    }
}

/// The placeholder that terminal argument templates must carry.
pub open spec fn placeholder_text() -> Seq<char> {
    "{ssh_command}"@
}

/// Some argument contains the `{ssh_command}` placeholder.
pub open spec fn has_placeholder(args: Seq<String>) -> bool {
    exists|i: int| 0 <= i < args.len() && contains_seq((#[trigger] args[i])@, placeholder_text())
}

/// The first failing validation check, if any: an empty terminal program; a
/// non-empty argument template without the placeholder; an empty SSH binary
/// path; a zero result cap; no parsing source enabled.
pub open spec fn validate_spec(c: &Config) -> Option<ConfigError> {
    if c.terminal.program@.len() == 0 {
        Option::Some(ConfigError::EmptyTerminalProgram)
    } else if c.terminal.args@.len() > 0 && !has_placeholder(c.terminal.args@) {
        Option::Some(ConfigError::MissingSshCommandPlaceholder)
    } else if c.ssh.ssh_binary@.len() == 0 {
        Option::Some(ConfigError::EmptySshBinary)
    } else if c.ui.max_results == 0 {
        Option::Some(ConfigError::ZeroMaxResults)
    } else if !c.parsing.parse_known_hosts && !c.parsing.parse_ssh_config {
        Option::Some(ConfigError::NoParsingSources)
    } else {
        Option::None
    }
}

/// The configuration text written on first start, matching the built-in
/// defaults.
pub const DEFAULT_CONFIG_TEXT: &'static str = "# Trident SSH Launcher Configuration\n\n[terminal]\n# Specify your terminal program and how to launch SSH commands\n# Examples for different terminals:\n\n# iTerm2 (default):\nprogram = \"/Applications/iTerm.app/Contents/MacOS/iTerm2\"\nargs = [\"-c\", \"tell application \\\"iTerm2\\\" to create window with default profile command \\\"{ssh_command}\\\"\"]\n\n# Terminal.app:\n# program = \"/usr/bin/osascript\"\n# args = [\"-e\", \"tell app \\\"Terminal\\\" to do script \\\"{ssh_command}\\\"\"]\n\n# Alacritty:\n# program = \"/Applications/Alacritty.app/Contents/MacOS/alacritty\"\n# args = [\"-e\", \"{ssh_command}\"]\n\n# Kitty:\n# program = \"/Applications/kitty.app/Contents/MacOS/kitty\"\n# args = [\"--\", \"{ssh_command}\"]\n\n[ssh]\n# SSH file locations\nknown_hosts_path = \"~/.ssh/known_hosts\"\nconfig_path = \"~/.ssh/config\"\nssh_binary = \"/usr/bin/ssh\"\n\n[parsing]\n# What to parse and how\nparse_known_hosts = true\nparse_ssh_config = true\n# Simple parsing only looks at Host entries, ignores Include directives\nsimple_config_parsing = true\n# Skip hashed entries in known_hosts (recommended)\nskip_hashed_hosts = true\n\n[ui]\n# User interface settings\nmax_results = 20\ncase_sensitive = false\n";

impl Config {
    /// The text of the default configuration file.
    pub fn default_config_content() -> (r: &'static str)
        ensures
            r@ == DEFAULT_CONFIG_TEXT@,
    {
        DEFAULT_CONFIG_TEXT
    }

    /// Checks the configuration's own consistency; whether the configured
    /// files exist is checked by the caller, which owns the filesystem.
    pub fn validate(&self) -> (r: Result<(), ConfigError>)
        ensures
            match r {
                Ok(()) => validate_spec(self) is None,
                Err(e) => validate_spec(self) == Some(e),
            },
    {
        if self.terminal.program.as_str().unicode_len() == 0 {
            return Err(ConfigError::EmptyTerminalProgram);
        }
        let nargs = self.terminal.args.len();
        if nargs > 0 {
            let pv = chars_vec("{ssh_command}");
            let mut found = false;
            let mut i: usize = 0;
            while i < nargs
                invariant
                    nargs == self.terminal.args@.len(),
                    i <= nargs,
                    pv@ == placeholder_text(),
                    found ==> has_placeholder(self.terminal.args@),
                    !found ==> forall|k: int| 0 <= k < i ==> !contains_seq(
                        (#[trigger] self.terminal.args@[k])@, placeholder_text()),
                decreases nargs - i,
            {
                if !found {
                    let av = chars_vec(self.terminal.args[i].as_str());
                    proof {
                        lemma_find_from_bounds(av@, pv@);
                    }
                    match find_sub(&av, &pv) {
                        Some(_) => {
                            found = true;
                        },
                        None => {},
                    }
                }
                i = i + 1;
            }
            if !found {
                return Err(ConfigError::MissingSshCommandPlaceholder);
            }
        }
        if self.ssh.ssh_binary.as_str().unicode_len() == 0 {
            return Err(ConfigError::EmptySshBinary);
        }
        if self.ui.max_results == 0 {
            return Err(ConfigError::ZeroMaxResults);
        }
        if !self.parsing.parse_known_hosts && !self.parsing.parse_ssh_config {
            return Err(ConfigError::NoParsingSources);
        }
        Ok(())
    }

    /// Expands a leading `~/` in the SSH file paths to the user's home
    /// directory; fails only when no home directory can be determined.  The
    /// home directory is whatever the environment names, so the result is
    /// pinned only relative to it.
    pub fn expand_path(&mut self) -> (r: Result<(), ConfigError>)
        ensures
            match r {
                Ok(()) => exists|h: Seq<char>|
                    final(self).ssh.known_hosts_path@ == expand_tilde_spec(
                        old(self).ssh.known_hosts_path@, h)
                    && final(self).ssh.config_path@ == expand_tilde_spec(
                        old(self).ssh.config_path@, h),
                Err(e) => e == ConfigError::HomeDirUnavailable && *final(self) == *old(self),
            },
            final(self).ssh.ssh_binary@ == old(self).ssh.ssh_binary@,
            final(self).terminal == old(self).terminal,
            final(self).parsing == old(self).parsing,
            final(self).ui == old(self).ui,
    {
        match home_dir_string() {
            None => Err(ConfigError::HomeDirUnavailable),
            Some(home) => {
                let ghost h = home@;
                let kh = expand_tilde(self.ssh.known_hosts_path.as_str(), home.as_str());
                let cp = expand_tilde(self.ssh.config_path.as_str(), home.as_str());
                self.ssh.known_hosts_path = kh;
                self.ssh.config_path = cp;
                Ok(())
            },
        }
    }
}

/// Relies on dirs::home_dir: the home directory the environment names, if
/// any; nothing can be promised about the value.
#[verifier::external_body]
fn home_dir_string() -> Option<String> {
    match dirs::home_dir() {
        Some(p) => Some(p.to_string_lossy().to_string()),
        None => None,
    }
}

/// What expanding a leading `~/` yields: paths without the prefix are kept;
/// otherwise the remainder is joined to `home` the way paths join — an
/// absolute remainder replaces the home, and a separator is inserted unless
/// `home` already ends with one.
pub open spec fn expand_tilde_spec(path: Seq<char>, home: Seq<char>) -> Seq<char> {
    if path.len() >= 2 && path[0] == '~' && path[1] == '/' {
        let rest = path.skip(2);
        if rest.len() > 0 && rest[0] == '/' {
            rest
        } else if home.len() > 0 && home.last() == '/' {
            home + rest
        } else {
            home + seq!['/'] + rest
        }
    } else {
        path
    }
}

/// Expands a leading `~/` in `path` against `home`.
pub fn expand_tilde(path: &str, home: &str) -> (r: String)
    ensures
        r@ == expand_tilde_spec(path@, home@),
{
    let pv = chars_vec(path);
    if pv.len() >= 2 && pv[0] == '~' && pv[1] == '/' {
        let plen = pv.len();
        let rest = path.substring_char(2, plen);
        proof {
            assert(rest@ =~= path@.skip(2));
        }
        let rv = chars_vec(rest);
        if rv.len() > 0 && rv[0] == '/' {
            String::from_str(rest)
        } else {
            let hv = chars_vec(home);
            let hlen = hv.len();
            if hlen > 0 && hv[hlen - 1] == '/' {
                let r = String::from_str(home).concat(rest);
                proof {
                    assert(home@.last() == hv@[hlen - 1]);
                }
                r
            } else {
                let r = String::from_str(home).concat("/").concat(rest);
                proof {
                    reveal_strlit("/");
                    assert("/"@ =~= seq!['/']);
                    assert(r@ == home@ + seq!['/'] + rest@);
                }
                r
            }
        }
    } else {
        String::from_str(path)
    }
}

impl Default for Config {
    /// The built-in defaults: an iTerm2 launch template, the standard SSH
    /// file locations, both sources parsed simply with hashed entries
    /// skipped, twenty case-insensitive results.
    fn default() -> (r: Self)
        ensures
            r.terminal.program@ == "/Applications/iTerm.app/Contents/MacOS/iTerm2"@,
            r.terminal.args@.len() == 2,
            r.terminal.args@[0]@ == "-c"@,
            r.terminal.args@[1]@
                == "tell application \"iTerm2\" to create window with default profile command \"{ssh_command}\""@,
            r.ssh.known_hosts_path@ == "~/.ssh/known_hosts"@,
            r.ssh.config_path@ == "~/.ssh/config"@,
            r.ssh.ssh_binary@ == "/usr/bin/ssh"@,
            r.parsing.parse_known_hosts,
            r.parsing.parse_ssh_config,
            r.parsing.simple_config_parsing,
            r.parsing.skip_hashed_hosts,
            r.ui.max_results == 20,
            !r.ui.case_sensitive,
    {
        let mut args: Vec<String> = Vec::new();
        args.push(String::from_str("-c"));
        args.push(String::from_str(
            "tell application \"iTerm2\" to create window with default profile command \"{ssh_command}\"",
        ));
        Config {
            terminal: TerminalConfig {
                program: String::from_str("/Applications/iTerm.app/Contents/MacOS/iTerm2"),
                args,
            },
            ssh: SshConfig {
                known_hosts_path: String::from_str("~/.ssh/known_hosts"),
                config_path: String::from_str("~/.ssh/config"),
                ssh_binary: String::from_str("/usr/bin/ssh"),
            },
            parsing: ParsingConfig {
                parse_known_hosts: true,
                parse_ssh_config: true,
                simple_config_parsing: true,
                skip_hashed_hosts: true,
            },
            ui: UiConfig { max_results: 20, case_sensitive: false },
        }
    }
}

} // verus!
