//! The ways a resolution fails.

use vstd::prelude::*;

use crate::path::{views, CandidatePath, PathView};

verus! {

/// The mathematical value of an error.
pub enum ErrorView {
    NoMatch(Seq<char>),
    Ambiguous { root: Option<PathView>, candidates: Seq<PathView> },
    EnvironmentMissing(Seq<char>),
    InvalidArgument(Seq<char>),
    Unlisted(PathView),
}

/// Why a query did not resolve to directories.
#[derive(Debug, PartialEq, Eq)]
pub enum NcdError {
    /// Nothing matched; the query is echoed back.
    NoMatch(String),
    /// More than one candidate remained where one was required. `root` is
    /// the search root they were found at, where a single root is at fault.
    Ambiguous { root: Option<CandidatePath>, candidates: Vec<CandidatePath> },
    /// A shorthand needs a setting of the environment that is missing.
    EnvironmentMissing(String),
    /// A flag holds a value that it cannot take.
    InvalidArgument(String),
    /// The directory index holds no answer for this path, which the search
    /// has to consult.
    Unlisted(CandidatePath),
}

impl View for NcdError {
    type V = ErrorView;

    open spec fn view(&self) -> ErrorView {
        match self {
            NcdError::NoMatch(query) => ErrorView::NoMatch(query@),
            NcdError::Ambiguous { root, candidates } => ErrorView::Ambiguous {
                root: match root {
                    Some(r) => Some(r@),
                    None => None,
                },
                candidates: views(candidates@),
            },
            NcdError::EnvironmentMissing(what) => ErrorView::EnvironmentMissing(what@),
            NcdError::InvalidArgument(what) => ErrorView::InvalidArgument(what@),
            NcdError::Unlisted(path) => ErrorView::Unlisted(path@),
        }
    }
}

/// The mathematical value of a resolution's outcome.
pub open spec fn outcome(result: Result<Vec<CandidatePath>, NcdError>) -> Result<
    Seq<PathView>,
    ErrorView,
> {
    match result {
        Ok(paths) => Ok(views(paths@)),
        Err(error) => Err(error@),
    }
}

} // verus!
