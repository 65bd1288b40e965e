//! The entry point: a query in, the directories to change into out.

use vstd::prelude::*;

use crate::classify::{classified, classify_query, Query, QueryView};
use crate::config::{ConfigView, SearchConfiguration};
use crate::environment::{Environment, EnvironmentView};
use crate::error::{outcome, ErrorView, NcdError};
use crate::index::{DirectoryIndex, Probe, ProbeView};
use crate::path::{
    is_component, keep_components, views, Anchor, CandidatePath, PathStyle, PathView,
};
use crate::walker::{walk, walk_segments};

verus! {

/// The anchor that a query's anchor stands for. In Windows style a leading
/// separator means the root of the drive that the current directory is on.
pub open spec fn resolved_anchor(anchor: Anchor, env: EnvironmentView) -> Anchor {
    if anchor == Anchor::Root && env.style == PathStyle::Windows && env.cwd.anchor is Drive {
        env.cwd.anchor
    } else {
        anchor
    }
}

/// The path that is `anchor` alone.
pub open spec fn anchor_root(anchor: Anchor) -> PathView {
    PathView { anchor, components: Seq::empty() }
}

/// The path that an anchored query spells out, taken as it is written.
pub open spec fn literal_path(anchor: Anchor, fragments: Seq<Seq<char>>) -> PathView {
    PathView {
        anchor,
        components: fragments.filter(|piece: Seq<char>| is_component(piece)),
    }
}

/// What the arbiter makes of a walk's outcome: no candidate is a failure
/// to match, several candidates without the list flag are an ambiguity
/// that names them all, and anything else stands.
pub open spec fn arbitrated(
    walked: Result<Seq<PathView>, ErrorView>,
    query: Seq<char>,
    config: ConfigView,
) -> Result<Seq<PathView>, ErrorView> {
    match walked {
        Err(error) => Err(error),
        Ok(candidates) => if candidates.len() == 0 {
            Err(ErrorView::NoMatch(query))
        } else if candidates.len() > 1 && !config.list {
            Err(ErrorView::Ambiguous { root: None, candidates })
        } else {
            Ok(candidates)
        },
    }
}

/// What the shorthand for a directory of the environment resolves to.
pub open spec fn from_environment(path: Option<PathView>, what: Seq<char>) -> Result<
    Seq<PathView>,
    ErrorView,
> {
    match path {
        Some(p) => Ok(seq![p]),
        None => Err(ErrorView::EnvironmentMissing(what)),
    }
}

/// The outcome of resolving `query`.
///
/// The shorthands resolve at once. An anchored query that spells out a
/// directory of the index resolves to it; otherwise its fragments are
/// walked from the anchor's root. A relative query is walked from the
/// current directory, its first search across the configured roots. The
/// arbiter judges what a walk ends with.
pub open spec fn resolution(
    query: Seq<char>,
    config: ConfigView,
    env: EnvironmentView,
    index: Map<PathView, ProbeView>,
) -> Result<Seq<PathView>, ErrorView> {
    match classified(query, env.style) {
        QueryView::Current => Ok(seq![env.cwd]),
        QueryView::Parent => Ok(seq![env.cwd.parent()]),
        QueryView::Previous => from_environment(env.previous, "previous directory"@),
        QueryView::Home => from_environment(env.home, "home directory"@),
        QueryView::BareAnchor(anchor) => Ok(seq![anchor_root(resolved_anchor(anchor, env))]),
        QueryView::Anchored { anchor, fragments } => {
            let start = resolved_anchor(anchor, env);
            let literal = literal_path(start, fragments);
            if !index.contains_key(literal) {
                Err(ErrorView::Unlisted(literal))
            } else if index[literal] is Directory {
                Ok(seq![literal])
            } else {
                arbitrated(
                    walk(seq![anchor_root(start)], fragments, false, config, env, index),
                    query,
                    config,
                )
            }
        },
        QueryView::Relative { fragments } => arbitrated(
            walk(seq![env.cwd], fragments, true, config, env, index),
            query,
            config,
        ),
    }
}

/// The list that holds `path` alone.
pub fn only(path: CandidatePath) -> (list: Vec<CandidatePath>)
    ensures
        views(list@) == seq![path@],
{
    let mut list: Vec<CandidatePath> = Vec::new();
    list.push(path);
    assert(views(list@) =~= seq![path@]);
    list
}

/// Judges the outcome of a walk for `query`.
pub fn arbitrate(
    walked: Result<Vec<CandidatePath>, NcdError>,
    query: &str,
    config: &SearchConfiguration,
) -> (result: Result<Vec<CandidatePath>, NcdError>)
    ensures
        outcome(result) == arbitrated(outcome(walked), query@, config@),
{
    match walked {
        Err(error) => Err(error),
        Ok(candidates) => {
            if candidates.len() == 0 {
                Err(NcdError::NoMatch(query.to_owned()))
            } else if candidates.len() > 1 && !config.list {
                Err(NcdError::Ambiguous { root: None, candidates })
            } else {
                Ok(candidates)
            }
        },
    }
}

/// The anchor that a query's anchor stands for in `env`.
fn resolve_anchor(anchor: Anchor, env: &Environment) -> (resolved: Anchor)
    ensures
        resolved == resolved_anchor(anchor, env@),
{
    match (anchor, env.style, env.cwd.anchor) {
        (Anchor::Root, PathStyle::Windows, Anchor::Drive(letter)) => Anchor::Drive(letter),
        _ => anchor,
    }
}

/// Resolves a shorthand for a directory of the environment.
fn resolve_from_environment(path: &Option<CandidatePath>, what: &str) -> (result: Result<
    Vec<CandidatePath>,
    NcdError,
>)
    ensures
        outcome(result) == from_environment(crate::environment::view_of(*path), what@),
{
    match path {
        Some(p) => Ok(only(p.clone())),
        None => Err(NcdError::EnvironmentMissing(what.to_owned())),
    }
}

/// Resolves `query` to the directories that the shell should change into.
pub fn evaluate_jump(
    query: &str,
    config: &SearchConfiguration,
    env: &Environment,
    index: &DirectoryIndex,
) -> (result: Result<Vec<CandidatePath>, NcdError>)
    ensures
        outcome(result) == resolution(query@, config@, env@, index@),
{
    match classify_query(query, env.style) {
        Query::Current => Ok(only(env.cwd.clone())),
        Query::Parent => Ok(only(env.cwd.parent())),
        Query::Previous => resolve_from_environment(&env.previous, "previous directory"),
        Query::Home => resolve_from_environment(&env.home, "home directory"),
        Query::BareAnchor(anchor) => Ok(only(CandidatePath::at(resolve_anchor(anchor, env)))),
        Query::Anchored { anchor, fragments } => {
            let start = resolve_anchor(anchor, env);
            let literal = CandidatePath { anchor: start, components: keep_components(&fragments) };
            match index.lookup(&literal) {
                None => Err(NcdError::Unlisted(literal)),
                Some(Probe::Directory(_)) => Ok(only(literal)),
                Some(Probe::Absent) => {
                    let walked = walk_segments(
                        only(CandidatePath::at(start)),
                        &fragments,
                        false,
                        config,
                        env,
                        index,
                    );
                    arbitrate(walked, query, config)
                },
            }
        },
        Query::Relative { fragments } => {
            let walked = walk_segments(
                only(env.cwd.clone()),
                &fragments,
                true,
                config,
                env,
                index,
            );
            arbitrate(walked, query, config)
        },
    }
}

} // verus!
