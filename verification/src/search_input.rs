//! State of the search input field: the query being typed, focus, and the
//! inline autocomplete suggestion.

use vstd::prelude::*;
use vstd::string::StrSliceExecFns;
use vstd::string::StringExecFns;

verus! {

/// The search field's state.
#[derive(Debug)]
pub struct SearchInputState {
    pub query: String,
    pub placeholder: String,
    pub is_focused: bool,
    pub suggestion: Option<String>,
}

/// The view of an optional string.
pub open spec fn opt_str_view(s: &Option<String>) -> Option<Seq<char>> {
    match *s {
        Option::None => Option::None,
        Option::Some(v) => Option::Some(v@),
    }
}

impl SearchInputState {
    pub fn new(placeholder: String) -> (r: Self)
        ensures
            r.query@.len() == 0,
            r.placeholder@ == placeholder@,
            !r.is_focused,
            r.suggestion is None,
    {
        Self { query: String::new(), placeholder, is_focused: false, suggestion: None }
    }

    pub fn set_query(&mut self, query: String)
        ensures
            final(self).query@ == query@,
            final(self).placeholder@ == old(self).placeholder@,
            final(self).is_focused == old(self).is_focused,
            opt_str_view(&final(self).suggestion) == opt_str_view(&old(self).suggestion),
    {
        self.query = query;
    }

    pub fn set_focused(&mut self, focused: bool)
        ensures
            final(self).query@ == old(self).query@,
            final(self).placeholder@ == old(self).placeholder@,
            final(self).is_focused == focused,
            opt_str_view(&final(self).suggestion) == opt_str_view(&old(self).suggestion),
    {
        self.is_focused = focused;
    }

    /// Appends typed text to the query and drops the stale suggestion.
    pub fn handle_input(&mut self, text: &str)
        ensures
            final(self).query@ == old(self).query@ + text@,
            final(self).placeholder@ == old(self).placeholder@,
            final(self).is_focused == old(self).is_focused,
            final(self).suggestion is None,
    {
        self.query.append(text);
        self.suggestion = None;
    }

    /// Removes the last character of the query, if any, and drops the stale
    /// suggestion.
    pub fn handle_backspace(&mut self)
        ensures
            final(self).query@ == if old(self).query@.len() == 0 {
                old(self).query@
            } else {
                old(self).query@.drop_last()
            },
            final(self).placeholder@ == old(self).placeholder@,
            final(self).is_focused == old(self).is_focused,
            final(self).suggestion is None,
    {
        let n = self.query.as_str().unicode_len();
        if n > 0 {
            let shorter = String::from_str(self.query.as_str().substring_char(0, n - 1));
            proof {
                assert(shorter@ =~= old(self).query@.drop_last());
            }
            self.query = shorter;
        }
        self.suggestion = None;
    }

    /// Empties the query and drops the suggestion.
    pub fn clear(&mut self)
        ensures
            final(self).query@.len() == 0,
            final(self).placeholder@ == old(self).placeholder@,
            final(self).is_focused == old(self).is_focused,
            final(self).suggestion is None,
    {
        self.query = String::new();
        self.suggestion = None;
    }

    pub fn set_suggestion(&mut self, suggestion: Option<String>)
        ensures
            final(self).query@ == old(self).query@,
            final(self).placeholder@ == old(self).placeholder@,
            final(self).is_focused == old(self).is_focused,
            opt_str_view(&final(self).suggestion) == opt_str_view(&suggestion),
    {
        self.suggestion = suggestion;
    }

    /// Replaces the query with the accepted suggestion and clears it; does
    /// nothing when there is none.
    pub fn accept_suggestion(&mut self)
        ensures
            final(self).query@ == match opt_str_view(&old(self).suggestion) {
                Option::Some(s) => s,
                Option::None => old(self).query@,
            },
            final(self).placeholder@ == old(self).placeholder@,
            final(self).is_focused == old(self).is_focused,
            match opt_str_view(&old(self).suggestion) {
                Option::Some(_) => final(self).suggestion is None,
                Option::None => opt_str_view(&final(self).suggestion) == opt_str_view(
                    &old(self).suggestion),
            },
    {
        match &self.suggestion {
            Some(s) => {
                let q = s.clone();
                self.query = q;
                self.suggestion = None;
            },
            None => {},
        }
    }
}

} // verus!
