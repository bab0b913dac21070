//! How much of a table is shown.
use vstd::prelude::*;

verus! {

/// How many rows of a table are shown.
#[derive(Debug, Clone, Copy, PartialEq, Eq, Structural)]
pub enum View {
    Full,
    Limited(usize),
}

impl View {
    /// The most rows shown: a hundred when the view is full.
    pub fn limit(self) -> (r: usize)
        ensures
            r == match self {
                View::Full => 100,
                View::Limited(l) => l,
            },
    {
        match self {
            View::Full => 100,
            View::Limited(limit) => limit,
        }
    }
}

/// How the table of a field of hits is shown.
#[derive(Debug, Clone, Copy)]
pub struct Section {
    pub groups_name: &'static str,
    pub group_key: &'static str,
    pub view: View,
    /// Whether tables of changes make sense for it.
    pub changes: bool,
}

} // verus!
