//! Laws of whole resolutions: existing paths and ambiguous wildcards.

use vstd::prelude::*;

use crate::classify::{classified, QueryView};
use crate::config::ConfigView;
use crate::ellipsis::{ellipsis_hops, is_ellipsis, is_noop, only_dots_and_spaces};
use crate::environment::EnvironmentView;
use crate::error::ErrorView;
use crate::index::{stored_as, ProbeView, RecordView};
use crate::laws::search::{
    is_passed_over, is_plain_name, lemma_direct_child_ends_the_search,
    lemma_list_search_keeps_what_it_found, lemma_search_passes_over,
    lemma_search_stops_only_where_the_index_is_silent,
};
use crate::path::PathView;
use crate::pattern::{has_wildcard, MatcherView};
use crate::resolve::{anchor_root, arbitrated, resolution, resolved_anchor};
use crate::roots::search_roots;
use crate::search::{matcher_for, root_matches, search};
use crate::walker::{ascended, fan_out_from, merged, next_generation, walk, walk_from};

verus! {

/// The path `names.len()` levels below `base`, through `names`.
pub open spec fn descended(base: PathView, names: Seq<Seq<char>>) -> PathView {
    PathView { anchor: base.anchor, components: base.components + names }
}

/// Whether the index shows the chain of directories from `base` down
/// through `names`, each stored under the name given for it where `exact`
/// asks for that.
pub open spec fn exists_below(
    index: Map<PathView, ProbeView>,
    base: PathView,
    names: Seq<Seq<char>>,
    exact: bool,
) -> bool {
    &&& index.contains_key(base) && index[base] is Directory
    &&& forall|k: int|
        #![trigger names[k]]
        0 <= k < names.len() ==> {
            let step = descended(base, names.take(k + 1));
            &&& is_plain_name(names[k])
            &&& index.contains_key(step)
            &&& index[step] is Directory
            &&& exact ==> stored_as(index, step, names[k])
        }
}

/// The walk down a chain of existing directories, from its `position`.
proof fn lemma_walk_follows_existing_path(
    names: Seq<Seq<char>>,
    position: int,
    config: ConfigView,
    env: EnvironmentView,
    index: Map<PathView, ProbeView>,
)
    requires
        0 <= position <= names.len(),
        config.scope_override.is_none(),
        exists_below(index, env.cwd, names, config.exact),
    ensures
        walk_from(
            seq![descended(env.cwd, names.take(position))],
            names,
            position,
            position == 0,
            config,
            env,
            index,
        ) == Ok::<Seq<PathView>, ErrorView>(seq![descended(env.cwd, names)]),
    decreases names.len() - position,
{
    let here = descended(env.cwd, names.take(position));
    if position == names.len() {
        assert(names.take(position) =~= names);
    } else {
        let fragment = names[position];
        let there = descended(env.cwd, names.take(position + 1));
        assert(is_plain_name(fragment));
        assert(names.take(position + 1) =~= names.take(position).push(fragment));
        assert(there.components =~= here.child(fragment).components);
        assert(there == here.child(fragment));
        if position == 0 {
            assert(names.take(0) =~= Seq::<Seq<char>>::empty());
            assert(here.components =~= env.cwd.components);
            assert(here == env.cwd);
        } else {
            assert(names.take(position - 1 + 1) =~= names.take(position));
            assert(index.contains_key(here) && index[here] is Directory) by {
                let _ = names[position - 1];
            }
        }
        let m = matcher_for(fragment, config);
        let next: Seq<PathView> = seq![there];
        if position == 0 {
            let roots = search_roots(config, env.cwd, env.search_path);
            assert(roots[0] == here);
            lemma_direct_child_ends_the_search(fragment, config, false, roots, index);
        } else {
            lemma_direct_child_ends_the_search(fragment, config, true, seq![here], index);
            assert(search(m, config, true, seq![here], index) == Ok::<Seq<PathView>, ErrorView>(
                next,
            ));
            assert(next.drop_last() =~= Seq::<PathView>::empty());
            assert(merged(Seq::empty(), Seq::<PathView>::empty()) =~= Seq::<PathView>::empty());
            assert(merged(Seq::empty(), next) =~= next);
            assert(fan_out_from(m, config, seq![here], index, 1, next) == Ok::<
                Seq<PathView>,
                ErrorView,
            >(next));
        }
        assert(next_generation(fragment, seq![here], position == 0, config, env, index) == Ok::<
            Seq<PathView>,
            ErrorView,
        >(next));
        lemma_walk_follows_existing_path(names, position + 1, config, env, index);
    }
}

/// A query that spells out an existing relative path, one plain name
/// after another, resolves to that path and to nothing else: each name is
/// found as a direct child, whatever else the listings and the search
/// path hold under the same name.
pub proof fn law_existing_relative_path_resolves_directly(
    query: Seq<char>,
    names: Seq<Seq<char>>,
    config: ConfigView,
    env: EnvironmentView,
    index: Map<PathView, ProbeView>,
)
    requires
        classified(query, env.style) == (QueryView::Relative { fragments: names }),
        names.len() >= 1,
        config.scope_override.is_none(),
        exists_below(index, env.cwd, names, config.exact),
    ensures
        walk(seq![env.cwd], names, true, config, env, index) == Ok::<Seq<PathView>, ErrorView>(
            seq![descended(env.cwd, names)],
        ),
        resolution(query, config, env, index) == Ok::<Seq<PathView>, ErrorView>(
            seq![descended(env.cwd, names)],
        ),
{
    assert(names.take(0) =~= Seq::<Seq<char>>::empty());
    assert(descended(env.cwd, names.take(0)).components =~= env.cwd.components);
    lemma_walk_follows_existing_path(names, 0, config, env, index);
}

/// A wildcard that matches two or more directories at a root is never
/// resolved by a guess. Where the roots before that root are passed over,
/// the query fails without the list flag as ambiguous, and the error names
/// all of the root's matches. With the list flag the outcome, where every
/// later root is in the index, is a list that begins with them.
pub proof fn law_several_wildcard_matches_are_ambiguous(
    query: Seq<char>,
    fragment: Seq<char>,
    config: ConfigView,
    env: EnvironmentView,
    index: Map<PathView, ProbeView>,
    position: int,
    record: RecordView,
)
    requires
        classified(query, env.style) == (QueryView::Relative { fragments: seq![fragment] }),
        has_wildcard(fragment),
        0 <= position < search_roots(config, env.cwd, env.search_path).len(),
        forall|j: int|
            0 <= j < position ==> #[trigger] is_passed_over(
                matcher_for(fragment, config),
                config,
                config.scope_override.is_some(),
                search_roots(config, env.cwd, env.search_path),
                index,
                j,
            ),
        index.contains_key(search_roots(config, env.cwd, env.search_path)[position]),
        index[search_roots(config, env.cwd, env.search_path)[position]] == ProbeView::Directory(
            record,
        ),
        root_matches(
            matcher_for(fragment, config),
            config,
            position,
            config.scope_override.is_some(),
            search_roots(config, env.cwd, env.search_path)[position],
            record,
        ).len() >= 2,
    ensures
        ({
            let m = matcher_for(fragment, config);
            let root = search_roots(config, env.cwd, env.search_path)[position];
            let scoped = config.scope_override.is_some();
            let found = root_matches(m, config, position, scoped, root, record);
            &&& !config.list ==> resolution(query, config, env, index) == Err::<
                Seq<PathView>,
                ErrorView,
            >(ErrorView::Ambiguous { root: None, candidates: found })
            &&& config.list ==> match resolution(query, config, env, index) {
                Ok(all) => found.is_prefix_of(all),
                Err(error) => error is Unlisted,
            }
        }),
{
    let m = matcher_for(fragment, config);
    let roots = search_roots(config, env.cwd, env.search_path);
    let root = roots[position];
    let scoped = config.scope_override.is_some();
    let found = root_matches(m, config, position, scoped, root, record);
    assert(!only_dots_and_spaces(fragment)) by {
        if fragment.contains('*') {
            let i = choose|i: int| 0 <= i < fragment.len() && fragment[i] == '*';
            assert(fragment[i] == '*');
        } else {
            let i = choose|i: int| 0 <= i < fragment.len() && fragment[i] == '?';
            assert(fragment[i] == '?');
        }
    }
    let searched = search(m, config, scoped, roots, index);
    lemma_search_passes_over(m, config, scoped, roots, index, 0, position, Seq::empty());
    assert(searched == next_generation(fragment, seq![env.cwd], true, config, env, index));
    let walked = walk(seq![env.cwd], seq![fragment], true, config, env, index);
    assert(walked == match searched {
        Err(error) => Err::<Seq<PathView>, ErrorView>(error),
        Ok(next) => walk_from(next, seq![fragment], 1, false, config, env, index),
    });
    if config.list {
        lemma_list_search_keeps_what_it_found(
            m,
            config,
            scoped,
            roots,
            index,
            position + 1,
            Seq::empty() + found,
        );
        assert(Seq::<PathView>::empty() + found =~= found);
    } else {
        assert(searched == Ok::<Seq<PathView>, ErrorView>(found));
    }
}

/// What the arbiter lets through is one candidate, or several under the
/// list flag, and never none.
pub proof fn law_the_arbiter_never_guesses(
    walked: Result<Seq<PathView>, ErrorView>,
    query: Seq<char>,
    config: ConfigView,
)
    ensures
        arbitrated(walked, query, config) matches Ok(candidates) ==> walked == Ok::<
            Seq<PathView>,
            ErrorView,
        >(candidates) && candidates.len() >= 1 && (config.list || candidates.len() == 1),
        walked matches Ok(candidates) ==> (candidates.len() >= 2 && !config.list ==> arbitrated(
            walked,
            query,
            config,
        ) == Err::<Seq<PathView>, ErrorView>(ErrorView::Ambiguous { root: None, candidates })),
        walked matches Ok(candidates) ==> (candidates.len() == 0 ==> arbitrated(
            walked,
            query,
            config,
        ) == Err::<Seq<PathView>, ErrorView>(ErrorView::NoMatch(query))),
{
}

/// No jump is ever guessed: a query resolves to one directory, or to
/// several under the list flag, and never to none.
pub proof fn law_a_jump_is_never_guessed(
    query: Seq<char>,
    config: ConfigView,
    env: EnvironmentView,
    index: Map<PathView, ProbeView>,
)
    ensures
        resolution(query, config, env, index) matches Ok(found) ==> found.len() >= 1 && (
        config.list || found.len() == 1),
{
}

/// A query that is one ellipsis resolves to the current directory taken
/// as many levels up as the ellipsis has dots after its first, and no
/// further than its root, whatever the index holds.
pub proof fn law_an_ellipsis_goes_up_from_the_current_directory(
    query: Seq<char>,
    fragment: Seq<char>,
    config: ConfigView,
    env: EnvironmentView,
    index: Map<PathView, ProbeView>,
)
    requires
        classified(query, env.style) == (QueryView::Relative { fragments: seq![fragment] }),
        is_ellipsis(fragment),
    ensures
        resolution(query, config, env, index) == Ok::<Seq<PathView>, ErrorView>(
            seq![env.cwd.ancestor(ellipsis_hops(fragment))],
        ),
{
    let risen = ascended(seq![env.cwd], ellipsis_hops(fragment));
    assert(risen =~= seq![env.cwd.ancestor(ellipsis_hops(fragment))]);
    assert(walk(seq![env.cwd], seq![fragment], true, config, env, index) == walk_from(
        risen,
        seq![fragment],
        1,
        false,
        config,
        env,
        index,
    ));
}

/// The searches below the candidates stop for want of an answer only at a
/// path that the index holds no answer for.
proof fn lemma_fan_out_stops_only_where_the_index_is_silent(
    m: MatcherView,
    config: ConfigView,
    candidates: Seq<PathView>,
    index: Map<PathView, ProbeView>,
    position: int,
    found: Seq<PathView>,
)
    requires
        0 <= position <= candidates.len(),
    ensures
        fan_out_from(m, config, candidates, index, position, found) matches Err(
            ErrorView::Unlisted(path),
        ) ==> !index.contains_key(path),
    decreases candidates.len() - position,
{
    if position < candidates.len() {
        let roots: Seq<PathView> = seq![candidates[position]];
        lemma_search_stops_only_where_the_index_is_silent(
            m,
            config,
            true,
            roots,
            index,
            0,
            Seq::empty(),
        );
        match search(m, config, true, roots, index) {
            Err(error) => {},
            Ok(matches) => {
                lemma_fan_out_stops_only_where_the_index_is_silent(
                    m,
                    config,
                    candidates,
                    index,
                    position + 1,
                    merged(found, matches),
                );
            },
        }
    }
}

/// A walk stops for want of an answer only at a path that the index holds
/// no answer for.
proof fn lemma_walk_stops_only_where_the_index_is_silent(
    candidates: Seq<PathView>,
    fragments: Seq<Seq<char>>,
    position: int,
    unscoped: bool,
    config: ConfigView,
    env: EnvironmentView,
    index: Map<PathView, ProbeView>,
)
    requires
        0 <= position <= fragments.len(),
    ensures
        walk_from(candidates, fragments, position, unscoped, config, env, index) matches Err(
            ErrorView::Unlisted(path),
        ) ==> !index.contains_key(path),
    decreases fragments.len() - position,
{
    if position < fragments.len() && candidates.len() > 0 {
        let fragment = fragments[position];
        if is_noop(fragment) {
            lemma_walk_stops_only_where_the_index_is_silent(
                candidates,
                fragments,
                position + 1,
                unscoped,
                config,
                env,
                index,
            );
        } else if is_ellipsis(fragment) {
            lemma_walk_stops_only_where_the_index_is_silent(
                ascended(candidates, ellipsis_hops(fragment)),
                fragments,
                position + 1,
                false,
                config,
                env,
                index,
            );
        } else {
            let m = matcher_for(fragment, config);
            if unscoped {
                lemma_search_stops_only_where_the_index_is_silent(
                    m,
                    config,
                    config.scope_override.is_some(),
                    search_roots(config, env.cwd, env.search_path),
                    index,
                    0,
                    Seq::empty(),
                );
            } else {
                lemma_fan_out_stops_only_where_the_index_is_silent(
                    m,
                    config,
                    candidates,
                    index,
                    0,
                    Seq::empty(),
                );
            }
            match next_generation(fragment, candidates, unscoped, config, env, index) {
                Err(error) => {},
                Ok(next) => {
                    lemma_walk_stops_only_where_the_index_is_silent(
                        next,
                        fragments,
                        position + 1,
                        false,
                        config,
                        env,
                        index,
                    );
                },
            }
        }
    }
}

/// A resolution that stops for want of an answer names a path that the
/// index holds no answer for: a caller that records an answer for that
/// path and resolves again is never asked for it twice.
pub proof fn law_an_unlisted_path_is_new_to_the_index(
    query: Seq<char>,
    config: ConfigView,
    env: EnvironmentView,
    index: Map<PathView, ProbeView>,
)
    ensures
        resolution(query, config, env, index) matches Err(ErrorView::Unlisted(path))
            ==> !index.contains_key(path),
{
    match classified(query, env.style) {
        QueryView::Anchored { anchor, fragments } => {
            let start = resolved_anchor(anchor, env);
            lemma_walk_stops_only_where_the_index_is_silent(
                seq![anchor_root(start)],
                fragments,
                0,
                false,
                config,
                env,
                index,
            );
        },
        QueryView::Relative { fragments } => {
            lemma_walk_stops_only_where_the_index_is_silent(
                seq![env.cwd],
                fragments,
                0,
                true,
                config,
                env,
                index,
            );
        },
        _ => {},
    }
}

} // verus!
