//! The segment walker: a query's fragments, one generation of candidates
//! after another.
//!
//! A blank fragment or a single dot changes nothing. An ellipsis takes
//! every candidate up. Any other fragment is searched: the first search of
//! a relative query across the default roots, every later one below each
//! candidate in turn, which is how one fragment fans out into many
//! directories and each of them is followed on its own.

use vstd::prelude::*;

use crate::config::{ConfigView, SearchConfiguration};
use crate::ellipsis::{classify_fragment, ellipsis_hops, is_ellipsis, is_noop, FragmentKind};
use crate::environment::{Environment, EnvironmentView};
use crate::error::{outcome, ErrorView, NcdError};
use crate::index::{DirectoryIndex, ProbeView};
use crate::path::{is_among, texts, views, CandidatePath, PathView};
use crate::pattern::{MatcherView, PatternMatcher};
use crate::roots::{enumerate_roots, search_roots};
use crate::search::{matcher_for, search, search_with};

verus! {

/// Every candidate, taken `hops` levels up.
pub open spec fn ascended(candidates: Seq<PathView>, hops: nat) -> Seq<PathView> {
    candidates.map_values(|c: PathView| c.ancestor(hops))
}

/// `found`, and after it those of `more` that are not in the list yet.
pub open spec fn merged(found: Seq<PathView>, more: Seq<PathView>) -> Seq<PathView>
    decreases more.len(),
{
    if more.len() == 0 {
        found
    } else {
        let before = merged(found, more.drop_last());
        if before.contains(more.last()) {
            before
        } else {
            before.push(more.last())
        }
    }
}

/// The searches below the candidates from `position` on, each with the
/// candidate as its one root, merged in order into `found`. The first
/// search that fails is the outcome.
pub open spec fn fan_out_from(
    m: MatcherView,
    config: ConfigView,
    candidates: Seq<PathView>,
    index: Map<PathView, ProbeView>,
    position: int,
    found: Seq<PathView>,
) -> Result<Seq<PathView>, ErrorView>
    decreases candidates.len() - position,
{
    if position < 0 || position >= candidates.len() {
        Ok(found)
    } else {
        match search(m, config, true, seq![candidates[position]], index) {
            Err(error) => Err(error),
            Ok(matches) => fan_out_from(
                m,
                config,
                candidates,
                index,
                position + 1,
                merged(found, matches),
            ),
        }
    }
}

/// The next generation of candidates for a fragment that is searched.
/// While the walk is `unscoped` the search goes across the roots of the
/// configuration; after that it goes below each candidate.
pub open spec fn next_generation(
    fragment: Seq<char>,
    candidates: Seq<PathView>,
    unscoped: bool,
    config: ConfigView,
    env: EnvironmentView,
    index: Map<PathView, ProbeView>,
) -> Result<Seq<PathView>, ErrorView> {
    let m = matcher_for(fragment, config);
    if unscoped {
        search(
            m,
            config,
            config.scope_override.is_some(),
            search_roots(config, env.cwd, env.search_path),
            index,
        )
    } else {
        fan_out_from(m, config, candidates, index, 0, Seq::empty())
    }
}

/// The walk over the fragments from `position` on. It ends with the
/// candidates it has when the fragments or the candidates run out.
pub open spec fn walk_from(
    candidates: Seq<PathView>,
    fragments: Seq<Seq<char>>,
    position: int,
    unscoped: bool,
    config: ConfigView,
    env: EnvironmentView,
    index: Map<PathView, ProbeView>,
) -> Result<Seq<PathView>, ErrorView>
    decreases fragments.len() - position,
{
    if position < 0 || position >= fragments.len() || candidates.len() == 0 {
        Ok(candidates)
    } else {
        let fragment = fragments[position];
        if is_noop(fragment) {
            walk_from(candidates, fragments, position + 1, unscoped, config, env, index)
        } else if is_ellipsis(fragment) {
            walk_from(
                ascended(candidates, ellipsis_hops(fragment)),
                fragments,
                position + 1,
                false,
                config,
                env,
                index,
            )
        } else {
            match next_generation(fragment, candidates, unscoped, config, env, index) {
                Err(error) => Err(error),
                Ok(next) => walk_from(next, fragments, position + 1, false, config, env, index),
            }
        }
    }
}

/// The outcome of walking `fragments` from the candidates `start`.
pub open spec fn walk(
    start: Seq<PathView>,
    fragments: Seq<Seq<char>>,
    unscoped: bool,
    config: ConfigView,
    env: EnvironmentView,
    index: Map<PathView, ProbeView>,
) -> Result<Seq<PathView>, ErrorView> {
    walk_from(start, fragments, 0, unscoped, config, env, index)
}

/// Every candidate, taken `hops` levels up.
pub fn ascend_all(candidates: &Vec<CandidatePath>, hops: usize) -> (risen: Vec<CandidatePath>)
    ensures
        views(risen@) == ascended(views(candidates@), hops as nat),
{
    let mut risen: Vec<CandidatePath> = Vec::new();
    let mut i: usize = 0;
    while i < candidates.len()
        invariant
            i <= candidates.len(),
            risen.len() == i,
            forall|j: int| 0 <= j < i ==> (#[trigger] risen@[j])@ == candidates@[j]@.ancestor(hops as nat),
        decreases candidates.len() - i,
    {
        risen.push(candidates[i].ancestor(hops));
        i += 1;
    }
    assert(views(risen@) =~= ascended(views(candidates@), hops as nat));
    risen
}

/// Appends to `found` those of `more` that it does not hold yet.
pub fn merge_into(found: &mut Vec<CandidatePath>, more: Vec<CandidatePath>)
    ensures
        views(final(found)@) == merged(views(old(found)@), views(more@)),
{
    let ghost start = views(found@);
    let mut i: usize = 0;
    assert(views(more@).take(0) =~= Seq::<PathView>::empty());
    while i < more.len()
        invariant
            i <= more.len(),
            views(found@) == merged(start, views(more@).take(i as int)),
        decreases more.len() - i,
    {
        let ghost before = views(found@);
        proof {
            let next = views(more@).take(i + 1);
            assert(next.drop_last() =~= views(more@).take(i as int));
            assert(next.last() == more@[i as int]@);
            assert(views(found@).take(found.len() as int) =~= views(found@));
        }
        if !is_among(&more[i], found, found.len()) {
            found.push(more[i].clone());
            assert(views(found@) =~= before.push(more@[i as int]@));
        }
        i += 1;
    }
    assert(views(more@).take(more.len() as int) =~= views(more@));
}

/// Searches below each candidate in turn and merges what is found.
pub fn fan_out(
    matcher: &PatternMatcher,
    config: &SearchConfiguration,
    candidates: &Vec<CandidatePath>,
    index: &DirectoryIndex,
) -> (result: Result<Vec<CandidatePath>, NcdError>)
    ensures
        outcome(result) == fan_out_from(
            matcher@,
            config@,
            views(candidates@),
            index@,
            0,
            Seq::empty(),
        ),
{
    let mut found: Vec<CandidatePath> = Vec::new();
    assert(views(found@) =~= Seq::<PathView>::empty());
    let mut i: usize = 0;
    while i < candidates.len()
        invariant
            i <= candidates.len(),
            fan_out_from(matcher@, config@, views(candidates@), index@, 0, Seq::empty())
                == fan_out_from(
                matcher@,
                config@,
                views(candidates@),
                index@,
                i as int,
                views(found@),
            ),
        decreases candidates.len() - i,
    {
        let mut roots: Vec<CandidatePath> = Vec::new();
        roots.push(candidates[i].clone());
        assert(views(roots@) =~= seq![views(candidates@)[i as int]]);
        match search_with(matcher, config, &roots, true, index) {
            Err(error) => {
                return Err(error);
            },
            Ok(matches) => {
                merge_into(&mut found, matches);
            },
        }
        i += 1;
    }
    Ok(found)
}

/// Walks `fragments` from the candidates `start`. `unscoped` says that no
/// search has been scoped yet: the first fragment that is searched goes
/// across the roots of the configuration.
pub fn walk_segments(
    start: Vec<CandidatePath>,
    fragments: &Vec<String>,
    unscoped: bool,
    config: &SearchConfiguration,
    env: &Environment,
    index: &DirectoryIndex,
) -> (result: Result<Vec<CandidatePath>, NcdError>)
    ensures
        outcome(result) == walk(
            views(start@),
            texts(fragments@),
            unscoped,
            config@,
            env@,
            index@,
        ),
{
    let ghost goal = walk(views(start@), texts(fragments@), unscoped, config@, env@, index@);
    let ghost origin = views(start@);
    let mut candidates = start;
    let mut free = unscoped;
    let mut i: usize = 0;
    while i < fragments.len() && candidates.len() > 0
        invariant
            i <= fragments.len(),
            origin == views(start@),
            goal == walk(origin, texts(fragments@), unscoped, config@, env@, index@),
            goal == walk_from(
                views(candidates@),
                texts(fragments@),
                i as int,
                free,
                config@,
                env@,
                index@,
            ),
        decreases fragments.len() - i,
    {
        let fragment = fragments[i].as_str();
        assert(texts(fragments@)[i as int] == fragment@);
        match classify_fragment(fragment) {
            FragmentKind::Skip => {},
            FragmentKind::Ascend(hops) => {
                candidates = ascend_all(&candidates, hops);
                free = false;
            },
            FragmentKind::Search => {
                let matcher = PatternMatcher::new(fragment, config.exact);
                let next = if free {
                    let roots = enumerate_roots(config, &env.cwd, &env.search_path);
                    search_with(&matcher, config, &roots, config.scope_override.is_some(), index)
                } else {
                    fan_out(&matcher, config, &candidates, index)
                };
                assert(outcome(next) == next_generation(
                    fragment@,
                    views(candidates@),
                    free,
                    config@,
                    env@,
                    index@,
                ));
                match next {
                    Err(error) => {
                        return Err(error);
                    },
                    Ok(generation) => {
                        candidates = generation;
                        free = false;
                    },
                }
            },
        }
        i += 1;
    }
    Ok(candidates)
}

} // verus!
