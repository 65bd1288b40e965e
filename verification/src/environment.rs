//! What a resolution call is told of the process it serves.

use vstd::prelude::*;

use crate::path::{views, CandidatePath, PathStyle, PathView};

verus! {

/// The mathematical value of an environment.
pub struct EnvironmentView {
    pub style: PathStyle,
    pub cwd: PathView,
    pub search_path: Seq<PathView>,
    pub home: Option<PathView>,
    pub previous: Option<PathView>,
}

/// The surroundings of one call: read by the caller, never by the resolver.
#[derive(Debug)]
pub struct Environment {
    /// How paths are written on this platform.
    pub style: PathStyle,
    /// The current working directory.
    pub cwd: CandidatePath,
    /// The entries of the search path, in order.
    pub search_path: Vec<CandidatePath>,
    /// The user's home directory, where the environment names one.
    pub home: Option<CandidatePath>,
    /// The directory the shell was in before, where it has told.
    pub previous: Option<CandidatePath>,
}

/// The value of a path that may be missing.
pub open spec fn view_of(path: Option<CandidatePath>) -> Option<PathView> {
    match path {
        Some(p) => Some(p@),
        None => None,
    }
}

impl View for Environment {
    type V = EnvironmentView;

    open spec fn view(&self) -> EnvironmentView {
        EnvironmentView {
            style: self.style,
            cwd: self.cwd@,
            search_path: views(self.search_path@),
            home: view_of(self.home),
            previous: view_of(self.previous),
        }
    }
}

/// The home directory: what the user-profile setting names, and what the
/// home setting names where that one is unset.
pub fn pick_home(user_profile: Option<CandidatePath>, home: Option<CandidatePath>) -> (picked:
    Option<CandidatePath>)
    ensures
        view_of(picked) == match view_of(user_profile) {
            Some(p) => Some(p),
            None => view_of(home),
        },
{
    match user_profile {
        Some(p) => Some(p),
        None => home,
    }
}

/// The query that stands for no query at all: `~`, the home directory.
pub fn query_or_home(query: Option<String>) -> (q: String)
    ensures
        q@ == match query {
            Some(given) => given@,
            None => seq!['~'],
        },
{
    match query {
        Some(given) => given,
        None => {
            let mut q = String::new();
            q.push('~');
            assert(q@ =~= seq!['~']);
            q
        },
    }
}

} // verus!
