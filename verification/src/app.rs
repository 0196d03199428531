//! The application state and its update function.  Every message is handled
//! here as a pure transition; the work the core cannot do itself — reading
//! the SSH files, spawning the terminal — is handed back to the caller as an
//! [`AppAction`], and its outcome is applied through `apply_loaded_hosts` or
//! `apply_load_error`.

use vstd::prelude::*;
use vstd::string::StrSliceExecFns;
use vstd::string::StringExecFns;
use crate::config::{Config, placeholder_text};
use crate::parser::HostEntry;
use crate::order::pairs_of;
use crate::search::{spec_search, search_in};
use crate::search_input::opt_str_view;
use crate::text::replace_all;
use crate::text::replace_str;

verus! {

/// The application state: configuration, the full host list, the current
/// query with its filtered results, and the selection.
#[derive(Debug)]
pub struct AppState {
    pub config: Config,
    pub hosts: Vec<HostEntry>,
    pub search_query: String,
    pub filtered_hosts: Vec<HostEntry>,
    pub selected_index: usize,
    pub is_loading: bool,
    pub error_message: Option<String>,
}

/// The messages the state reacts to.
#[derive(Debug)]
pub enum Message {
    LoadConfig(Config),
    UpdateSearchQuery(String),
    SelectNext,
    SelectPrevious,
    SelectHost(usize),
    LaunchSelectedHost,
    RefreshHosts,
    ShowError(String),
    ClearError,
}

/// What the caller must perform after an update: nothing, reload the hosts
/// from the configured sources, or spawn the given program with the given
/// arguments.
#[derive(Debug)]
pub enum AppAction {
    Nothing,
    LoadHosts,
    Launch { program: String, args: Vec<String> },
}

/// The launch command for the selected host: the configured SSH binary, a
/// space, and the host's name.
pub open spec fn launch_cmd(config: &Config, name: Seq<char>) -> Seq<char> {
    config.ssh.ssh_binary@ + seq![' '] + name
}

impl AppState {
    /// The selection always points at a filtered entry, or sits at zero when
    /// there is nothing to point at.
    pub open spec fn wf(&self) -> bool {
        self.selected_index == 0 || self.selected_index < self.filtered_hosts@.len()
    }

    pub fn new() -> (r: Self)
        ensures
            r.hosts@.len() == 0,
            r.search_query@.len() == 0,
            r.filtered_hosts@.len() == 0,
            r.selected_index == 0,
            !r.is_loading,
            r.error_message is None,
            r.config.ui.max_results == 20,
            !r.config.ui.case_sensitive,
            r.wf(),
    {
        Self {
            config: Config::default(),
            hosts: Vec::new(),
            search_query: String::new(),
            filtered_hosts: Vec::new(),
            selected_index: 0,
            is_loading: false,
            error_message: None,
        }
    }

    /// Recomputes the filtered hosts from the current query and clamps the
    /// selection to the new result list.
    fn update_filtered_hosts(&mut self)
        ensures
            pairs_of(final(self).filtered_hosts@) == pairs_of(spec_search(old(self).hosts@,
                old(self).search_query@, old(self).config.ui.case_sensitive,
                old(self).config.ui.max_results as int)),
            final(self).selected_index == if old(self).selected_index
                < final(self).filtered_hosts@.len() {
                old(self).selected_index as int
            } else if final(self).filtered_hosts@.len() == 0 {
                0
            } else {
                final(self).filtered_hosts@.len() - 1
            },
            final(self).hosts@ == old(self).hosts@,
            final(self).search_query@ == old(self).search_query@,
            final(self).config == old(self).config,
            final(self).is_loading == old(self).is_loading,
            final(self).error_message == old(self).error_message,
            final(self).wf(),
    {
        let results = search_in(&self.hosts, self.search_query.as_str(),
            self.config.ui.case_sensitive, self.config.ui.max_results);
        let ghost found = spec_search(self.hosts@, self.search_query@,
            self.config.ui.case_sensitive, self.config.ui.max_results as int);
        let n = results.len();
        let mut filtered: Vec<HostEntry> = Vec::new();
        let mut i: usize = 0;
        while i < n
            invariant
                n == results@.len(),
                results@.map_values(|e: &HostEntry| *e) == found,
                i <= n,
                filtered@.len() == i,
                forall|k: int| 0 <= k < i ==> (#[trigger] filtered@[k]).name@ == found[k].name@
                    && filtered@[k].connection_string@ == found[k].connection_string@,
            decreases n - i,
        {
            let e = results[i].clone();
            proof {
                assert(results@.map_values(|x: &HostEntry| *x)[i as int] == *results@[i as int]);
            }
            filtered.push(e);
            i = i + 1;
        }
        self.filtered_hosts = filtered;
        proof {
            assert(found.len() == n);
            assert(pairs_of(self.filtered_hosts@) =~= pairs_of(found));
        }
        if self.selected_index >= self.filtered_hosts.len() {
            self.selected_index = if self.filtered_hosts.is_empty() {
                0
            } else {
                self.filtered_hosts.len() - 1
            };
        }
    }

    /// Handles one message; the returned action is the outside work the
    /// caller owes.
    pub fn update(&mut self, message: Message) -> (r: AppAction)
        requires
            old(self).wf(),
        ensures
            final(self).wf(),
            (match message {
                Message::LoadConfig(c) => {
                    &&& final(self).config == c
                    &&& final(self).is_loading
                    &&& final(self).hosts@ == old(self).hosts@
                    &&& final(self).search_query@ == old(self).search_query@
                    &&& final(self).filtered_hosts@ == old(self).filtered_hosts@
                    &&& final(self).selected_index == old(self).selected_index
                    &&& final(self).error_message == old(self).error_message
                    &&& r is LoadHosts
                },
                Message::UpdateSearchQuery(q) => {
                    &&& final(self).search_query@ == q@
                    &&& pairs_of(final(self).filtered_hosts@) == pairs_of(spec_search(
                        old(self).hosts@, q@, old(self).config.ui.case_sensitive,
                        old(self).config.ui.max_results as int))
                    &&& final(self).selected_index == 0
                    &&& final(self).hosts@ == old(self).hosts@
                    &&& final(self).config == old(self).config
                    &&& final(self).is_loading == old(self).is_loading
                    &&& final(self).error_message == old(self).error_message
                    &&& r is Nothing
                },
                Message::SelectNext => {
                    &&& final(self).selected_index == if old(self).filtered_hosts@.len() == 0 {
                        old(self).selected_index as int
                    } else {
                        (old(self).selected_index + 1) % (old(self).filtered_hosts@.len() as int)
                    }
                    &&& unchanged_but_selection(old(self), final(self))
                    &&& r is Nothing
                },
                Message::SelectPrevious => {
                    &&& final(self).selected_index == if old(self).filtered_hosts@.len() == 0 {
                        old(self).selected_index as int
                    } else if old(self).selected_index == 0 {
                        old(self).filtered_hosts@.len() - 1
                    } else {
                        old(self).selected_index - 1
                    }
                    &&& unchanged_but_selection(old(self), final(self))
                    &&& r is Nothing
                },
                Message::SelectHost(index) => {
                    &&& final(self).selected_index == if index < old(self).filtered_hosts@.len() {
                        index as int
                    } else {
                        old(self).selected_index as int
                    }
                    &&& unchanged_but_selection(old(self), final(self))
                    &&& r is Nothing
                },
                Message::LaunchSelectedHost => {
                    &&& *final(self) == *old(self)
                    &&& if old(self).selected_index < old(self).filtered_hosts@.len() {
                        match r {
                            AppAction::Launch { program, args } => {
                                &&& program@ == old(self).config.terminal.program@
                                &&& args@.len() == old(self).config.terminal.args@.len()
                                &&& forall|k: int| 0 <= k < args@.len()
                                    ==> (#[trigger] args@[k])@ == replace_all(
                                    old(self).config.terminal.args@[k]@, placeholder_text(),
                                    launch_cmd(&old(self).config, old(self).filtered_hosts@[
                                    old(self).selected_index as int].name@))
                            },
                            _ => false,
                        }
                    } else {
                        r is Nothing
                    }
                },
                Message::RefreshHosts => {
                    &&& final(self).is_loading
                    &&& final(self).hosts@ == old(self).hosts@
                    &&& final(self).search_query@ == old(self).search_query@
                    &&& final(self).filtered_hosts@ == old(self).filtered_hosts@
                    &&& final(self).selected_index == old(self).selected_index
                    &&& final(self).config == old(self).config
                    &&& final(self).error_message == old(self).error_message
                    &&& r is LoadHosts
                },
                Message::ShowError(m) => {
                    &&& opt_str_view(&final(self).error_message) == Option::Some(m@)
                    &&& final(self).hosts@ == old(self).hosts@
                    &&& final(self).search_query@ == old(self).search_query@
                    &&& final(self).filtered_hosts@ == old(self).filtered_hosts@
                    &&& final(self).selected_index == old(self).selected_index
                    &&& final(self).config == old(self).config
                    &&& final(self).is_loading == old(self).is_loading
                    &&& r is Nothing
                },
                Message::ClearError => {
                    &&& final(self).error_message is None
                    &&& final(self).hosts@ == old(self).hosts@
                    &&& final(self).search_query@ == old(self).search_query@
                    &&& final(self).filtered_hosts@ == old(self).filtered_hosts@
                    &&& final(self).selected_index == old(self).selected_index
                    &&& final(self).config == old(self).config
                    &&& final(self).is_loading == old(self).is_loading
                    &&& r is Nothing
                },
            }),
    {
        match message {
            Message::LoadConfig(config) => {
                self.config = config;
                self.is_loading = true;
                AppAction::LoadHosts
            },
            Message::UpdateSearchQuery(query) => {
                self.search_query = query;
                self.update_filtered_hosts();
                self.selected_index = 0;
                AppAction::Nothing
            },
            Message::SelectNext => {
                if !self.filtered_hosts.is_empty() {
                    let n = self.filtered_hosts.len();
                    proof {
                        assert(self.selected_index == 0 || self.selected_index < n);
                    }
                    self.selected_index = (self.selected_index + 1) % n;
                }
                AppAction::Nothing
            },
            Message::SelectPrevious => {
                if !self.filtered_hosts.is_empty() {
                    self.selected_index = if self.selected_index == 0 {
                        self.filtered_hosts.len() - 1
                    } else {
                        self.selected_index - 1
                    };
                }
                AppAction::Nothing
            },
            Message::SelectHost(index) => {
                if index < self.filtered_hosts.len() {
                    self.selected_index = index;
                }
                AppAction::Nothing
            },
            Message::LaunchSelectedHost => {
                if self.selected_index < self.filtered_hosts.len() {
                    let name = &self.filtered_hosts[self.selected_index].name;
                    let cmd = self.config.ssh.ssh_binary.clone().concat(" ").concat(name.as_str());
                    proof {
                        reveal_strlit(" ");
                        assert(" "@ =~= seq![' ']);
                        assert(cmd@ == launch_cmd(&self.config, name@));
                        reveal_strlit("{ssh_command}");
                    }
                    let nargs = self.config.terminal.args.len();
                    let mut args: Vec<String> = Vec::new();
                    let mut k: usize = 0;
                    while k < nargs
                        invariant
                            nargs == self.config.terminal.args@.len(),
                            k <= nargs,
                            args@.len() == k,
                            cmd@.len() > 0 || true,
                            placeholder_text().len() > 0,
                            forall|m: int| 0 <= m < k ==> (#[trigger] args@[m])@ == replace_all(
                                self.config.terminal.args@[m]@, placeholder_text(), cmd@),
                        decreases nargs - k,
                    {
                        args.push(replace_str(self.config.terminal.args[k].as_str(),
                            "{ssh_command}", cmd.as_str()));
                        k = k + 1;
                    }
                    AppAction::Launch { program: self.config.terminal.program.clone(), args }
                } else {
                    AppAction::Nothing
                }
            },
            Message::RefreshHosts => {
                self.is_loading = true;
                AppAction::LoadHosts
            },
            Message::ShowError(message) => {
                self.error_message = Some(message);
                AppAction::Nothing
            },
            Message::ClearError => {
                self.error_message = None;
                AppAction::Nothing
            },
        }
    }

    /// Applies a successful host reload: the merged entries become the
    /// corpus, the filtered view is recomputed, loading ends with no error.
    pub fn apply_loaded_hosts(&mut self, hosts: Vec<HostEntry>)
        ensures
            final(self).hosts@ == hosts@,
            pairs_of(final(self).filtered_hosts@) == pairs_of(spec_search(hosts@,
                old(self).search_query@, old(self).config.ui.case_sensitive,
                old(self).config.ui.max_results as int)),
            final(self).selected_index == if old(self).selected_index
                < final(self).filtered_hosts@.len() {
                old(self).selected_index as int
            } else if final(self).filtered_hosts@.len() == 0 {
                0
            } else {
                final(self).filtered_hosts@.len() - 1
            },
            !final(self).is_loading,
            final(self).error_message is None,
            final(self).search_query@ == old(self).search_query@,
            final(self).config == old(self).config,
            final(self).wf(),
    {
        self.hosts = hosts;
        self.update_filtered_hosts();
        self.is_loading = false;
        self.error_message = None;
    }

    /// Applies a failed host reload: loading ends and the failure is shown.
    pub fn apply_load_error(&mut self, message: String)
        ensures
            !final(self).is_loading,
            opt_str_view(&final(self).error_message) == Option::Some(message@),
            final(self).hosts@ == old(self).hosts@,
            final(self).search_query@ == old(self).search_query@,
            final(self).filtered_hosts@ == old(self).filtered_hosts@,
            final(self).selected_index == old(self).selected_index,
            final(self).config == old(self).config,
            old(self).wf() ==> final(self).wf(),
    {
        self.is_loading = false;
        self.error_message = Some(message);
    }

    /// The highlighted result, if the selection points inside the list.
    pub fn get_selected_host(&self) -> (r: Option<&HostEntry>)
        ensures
            match r {
                Some(e) => self.selected_index < self.filtered_hosts@.len() && *e
                    == self.filtered_hosts@[self.selected_index as int],
                None => self.selected_index >= self.filtered_hosts@.len(),
            },
    {
        if self.selected_index < self.filtered_hosts.len() {
            Some(&self.filtered_hosts[self.selected_index])
        } else {
            None
        }
    }

    pub fn has_hosts(&self) -> (r: bool)
        ensures
            r == (self.filtered_hosts@.len() > 0),
    {
        !self.filtered_hosts.is_empty()
    }

    /// The results currently shown.
    pub fn get_display_hosts(&self) -> (r: &[HostEntry])
        ensures
            r@ == self.filtered_hosts@,
    {
        self.filtered_hosts.as_slice()
    }
}

/// Everything but the selection stays as it was.
pub open spec fn unchanged_but_selection(a: &AppState, b: &AppState) -> bool {
    &&& b.hosts@ == a.hosts@
    &&& b.search_query@ == a.search_query@
    &&& b.filtered_hosts@ == a.filtered_hosts@
    &&& b.config == a.config
    &&& b.is_loading == a.is_loading
    &&& b.error_message == a.error_message
}

} // verus!
