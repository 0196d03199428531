//! Selection state of the host list: which entry is highlighted, and how the
//! highlight moves through the first eight visible rows.

use vstd::prelude::*;
use crate::parser::HostEntry;

verus! {

/// The host list with its highlighted row.
#[derive(Debug)]
pub struct HostListState {
    pub hosts: Vec<HostEntry>,
    pub selected_index: usize,
}

impl HostListState {
    /// The selection always points at an entry, or sits at zero when there
    /// is nothing to point at.
    pub open spec fn wf(&self) -> bool {
        self.selected_index == 0 || self.selected_index < self.hosts@.len()
    }

    /// How many rows the selection can move through: at most the first
    /// eight.
    pub open spec fn visible(&self) -> int {
        if self.hosts@.len() < 8 {
            self.hosts@.len() as int
        } else {
            8
        }
    }

    pub fn new(hosts: Vec<HostEntry>) -> (r: Self)
        ensures
            r.hosts@ == hosts@,
            r.selected_index == 0,
            r.wf(),
    {
        Self { hosts, selected_index: 0 }
    }

    /// Replaces the hosts, clamping the selection to the new length.
    pub fn set_hosts(&mut self, hosts: Vec<HostEntry>)
        ensures
            final(self).hosts@ == hosts@,
            final(self).selected_index == if old(self).selected_index < hosts@.len() {
                old(self).selected_index as int
            } else if hosts@.len() == 0 {
                0
            } else {
                hosts@.len() - 1
            },
            final(self).wf(),
    {
        self.hosts = hosts;
        if self.selected_index >= self.hosts.len() {
            self.selected_index = if self.hosts.is_empty() {
                0
            } else {
                self.hosts.len() - 1
            };
        }
    }

    /// Moves the selection down one visible row, wrapping to the top.
    pub fn select_next(&mut self)
        requires
            old(self).wf(),
        ensures
            final(self).hosts@ == old(self).hosts@,
            final(self).selected_index == if old(self).hosts@.len() == 0 {
                old(self).selected_index as int
            } else {
                (old(self).selected_index + 1) % old(self).visible()
            },
            final(self).wf(),
    {
        if !self.hosts.is_empty() {
            let max_visible: usize = if self.hosts.len() < 8 {
                self.hosts.len()
            } else {
                8
            };
            self.selected_index = (self.selected_index + 1) % max_visible;
        }
    }

    /// Moves the selection up one visible row, wrapping to the bottom.
    pub fn select_previous(&mut self)
        requires
            old(self).wf(),
        ensures
            final(self).hosts@ == old(self).hosts@,
            final(self).selected_index == if old(self).hosts@.len() == 0 {
                old(self).selected_index as int
            } else if old(self).selected_index == 0 {
                old(self).visible() - 1
            } else {
                old(self).selected_index - 1
            },
            final(self).wf(),
    {
        if !self.hosts.is_empty() {
            let max_visible: usize = if self.hosts.len() < 8 {
                self.hosts.len()
            } else {
                8
            };
            self.selected_index = if self.selected_index == 0 {
                max_visible - 1
            } else {
                self.selected_index - 1
            };
        }
    }

    /// The highlighted entry, if the selection points inside the list.
    pub fn get_selected_host(&self) -> (r: Option<&HostEntry>)
        ensures
            match r {
                Some(e) => self.selected_index < self.hosts@.len() && *e
                    == self.hosts@[self.selected_index as int],
                None => self.selected_index >= self.hosts@.len(),
            },
    {
        if self.selected_index < self.hosts.len() {
            Some(&self.hosts[self.selected_index])
        } else {
            None
        }
    }

    /// Jumps to `index` when it is in range; out-of-range indexes are
    /// ignored.
    pub fn select_index(&mut self, index: usize)
        ensures
            final(self).hosts@ == old(self).hosts@,
            final(self).selected_index == if index < old(self).hosts@.len() {
                index as int
            } else {
                old(self).selected_index as int
            },
            old(self).wf() ==> final(self).wf(),
    {
        if index < self.hosts.len() {
            self.selected_index = index;
        }
    }

    pub fn is_empty(&self) -> (r: bool)
        ensures
            r == (self.hosts@.len() == 0),
    {
        self.hosts.is_empty()
    }
}

} // verus!
