//! The details of a single workspace name: its number and its name.
use vstd::prelude::*;
use crate::fragments::{number_and_rest, split_number_fragment};
use crate::ipcadapter::MockWorkspace;
use crate::text::{parse_bounded, parse_unsigned, trim_seq, trim_slice};

verus! {

#[derive(Debug)]
pub struct WorkspaceDetails<'a> {
    pub number: u32,
    pub name: &'a str,
    pub basename: &'a str,
}

#[derive(Debug)]
pub struct Output<'a> {
    pub number: u32,
    pub name: &'a str,
    pub basename: &'a str,
}

/// The number that the number fragment `number` gives, if it gives one.
pub open spec fn fragment_number(number: Seq<char>) -> Option<nat> {
    parse_unsigned(number, u32::MAX as nat)
}

impl<'a> WorkspaceDetails<'a> {
    /// The number and the name that the fragments of a workspace name stand
    /// for: the number fragment read as a `u32`, or else what
    /// `default_workspace_number` gives; the name fragment without leading and
    /// trailing white space.
    pub fn cast_and_validate_fragments<F: Fn() -> u32>(
        fragments: (&'a str, &'a str),
        default_workspace_number: F,
    ) -> (r: (u32, &'a str))
        requires
            default_workspace_number.requires(()),
        ensures
            match fragment_number(fragments.0@) {
                Some(n) => r.0 == n,
                None => default_workspace_number.ensures((), r.0),
            },
            r.1@ == trim_seq(fragments.1@),
    {
        let (number, name) = fragments;
        let number = match parse_bounded(number, 4294967295usize) {
            Some(number) => number as u32,
            _ => default_workspace_number(),
        };
        let name = trim_slice(name);
        (number, name)
    }

    /// Cuts `wsname` into its number fragment (the leading decimal digits) and
    /// the rest after the white space that follows them.
    fn extract_fragments(wsname: &'a str) -> (r: (&'a str, &'a str))
        ensures
            (r.0@, r.1@) == number_and_rest(wsname@),
    {
        let (number, rest) = split_number_fragment(wsname);
        let len = wsname.unicode_len();
        let number_len = number.unicode_len();
        let rest_len = rest.unicode_len();
        let number_part = wsname.substring_char(0, number_len);
        let rest_part = wsname.substring_char(len - rest_len, len);
        (number_part, rest_part)
    }

    /// The details of `workspace`, if there is one: its number (or what
    /// `default_workspace_number` gives where its name has none), its name
    /// without the number, and its full name.
    pub fn new<F: Fn() -> u32>(
        workspace: &Option<&'a MockWorkspace>,
        default_workspace_number: F,
    ) -> (r: Option<WorkspaceDetails<'a>>)
        requires
            default_workspace_number.requires(()),
        ensures
            match *workspace {
                None => r is None,
                Some(w) => r matches Some(d) && d.basename@ == w.name@ && d.name@ == trim_seq(
                    number_and_rest(w.name@).1,
                ) && match fragment_number(number_and_rest(w.name@).0) {
                    Some(n) => d.number == n,
                    None => default_workspace_number.ensures((), d.number),
                },
            },
    {
        match workspace {
            None => None,
            Some(workspace) => {
                let (number, name) = Self::cast_and_validate_fragments(
                    Self::extract_fragments(workspace.name.as_str()),
                    default_workspace_number,
                );
                Some(WorkspaceDetails { number, name, basename: workspace.name.as_str() })
            },
        }
    }
}

} // verus!
