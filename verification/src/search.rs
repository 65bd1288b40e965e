//! The phased search: one fragment against an ordered list of roots.
//!
//! At each root that is a directory the phases run in order. A direct child
//! ends the whole search at once. Otherwise a wildcard scan (first root
//! only), a match of the root by its own name, and a scan of its contents
//! collect the root's matches, and the list flag and the number of matches
//! decide whether the search goes on, ends, or fails as ambiguous.

use vstd::prelude::*;

use crate::config::{CdMode, ConfigView, SearchConfiguration};
use crate::error::{outcome, ErrorView, NcdError};
use crate::index::{DirRecord, DirectoryIndex, Probe, ProbeView, RecordView};
use crate::path::{texts, views, CandidatePath, PathView};
use crate::pattern::{MatcherView, PatternMatcher};
use crate::roots::{enumerate_roots, search_roots};

verus! {

/// The matcher that a search makes for its fragment.
pub open spec fn matcher_for(fragment: Seq<char>, config: ConfigView) -> MatcherView {
    MatcherView { fragment, exact: config.exact }
}

/// The children of `root` that a contents scan collects, as paths, in
/// listing order.
pub open spec fn scanned(
    m: MatcherView,
    config: ConfigView,
    root: PathView,
    children: Seq<Seq<char>>,
) -> Seq<PathView> {
    children.filter(|name: Seq<char>| m.accepts_in_scan(config.dir_match, name)).map_values(
        |name: Seq<char>| root.child(name),
    )
}

/// What the direct-child phase finds at `root`: for a plain, non-empty
/// fragment, the directory of that name in `root` if the index shows one
/// and, in exact mode, the disk stores it under the fragment's spelling.
/// The index must hold an answer for that path.
pub open spec fn direct_child(m: MatcherView, root: PathView, index: Map<PathView, ProbeView>)
    -> Result<Option<PathView>, ErrorView> {
    let direct = root.child(m.fragment);
    if m.is_wildcard() || m.fragment.len() == 0 {
        Ok(None)
    } else if !index.contains_key(direct) {
        Err(ErrorView::Unlisted(direct))
    } else {
        match index[direct] {
            ProbeView::Absent => Ok(None),
            ProbeView::Directory(record) => if !m.exact || record.stored_name == m.fragment {
                Ok(Some(direct))
            } else {
                Ok(None)
            },
        }
    }
}

/// Whether the root itself is matched by its own name: at every root after
/// the first, and at the first too under a scope override, unless the mode
/// is `Origin`.
pub open spec fn root_is_target(
    m: MatcherView,
    config: ConfigView,
    position: int,
    scoped: bool,
    root: PathView,
) -> bool {
    &&& position > 0 || scoped
    &&& config.mode != CdMode::Origin
    &&& root.name() matches Some(name) && m.accepts(name)
}

/// The matches that the phases after the direct child collect at the root
/// in `position`: the contents for a wildcard at the first root, then the
/// root itself where it is a target, then the contents in every other case
/// unless the mode is `Target` or, past the first root, the root itself
/// has matched.
pub open spec fn root_matches(
    m: MatcherView,
    config: ConfigView,
    position: int,
    scoped: bool,
    root: PathView,
    record: RecordView,
) -> Seq<PathView> {
    let contents = scanned(m, config, root, record.children);
    let wildcard_first = m.is_wildcard() && position == 0;
    let target = root_is_target(m, config, position, scoped, root);
    let scan_last = !wildcard_first && config.mode != CdMode::Target && (position == 0 || !target);
    (if wildcard_first {
        contents
    } else {
        Seq::empty()
    }) + (if target {
        seq![root]
    } else {
        Seq::empty()
    }) + (if scan_last {
        contents
    } else {
        Seq::empty()
    })
}

/// The search from the root in `position` on, with `found` collected at
/// the roots before it.
pub open spec fn search_from(
    m: MatcherView,
    config: ConfigView,
    scoped: bool,
    roots: Seq<PathView>,
    index: Map<PathView, ProbeView>,
    position: int,
    found: Seq<PathView>,
) -> Result<Seq<PathView>, ErrorView>
    decreases roots.len() - position,
{
    if position < 0 || position >= roots.len() {
        Ok(found)
    } else {
        let root = roots[position];
        if !index.contains_key(root) {
            Err(ErrorView::Unlisted(root))
        } else {
            match index[root] {
                ProbeView::Absent => search_from(
                    m,
                    config,
                    scoped,
                    roots,
                    index,
                    position + 1,
                    found,
                ),
                ProbeView::Directory(record) => match direct_child(m, root, index) {
                    Err(error) => Err(error),
                    Ok(Some(direct)) => Ok(seq![direct]),
                    Ok(None) => {
                        let matches = root_matches(m, config, position, scoped, root, record);
                        if matches.len() == 0 {
                            search_from(m, config, scoped, roots, index, position + 1, found)
                        } else if config.list {
                            search_from(
                                m,
                                config,
                                scoped,
                                roots,
                                index,
                                position + 1,
                                found + matches,
                            )
                        } else if matches.len() == 1 || m.is_wildcard() {
                            Ok(matches)
                        } else {
                            Err(ErrorView::Ambiguous { root: Some(root), candidates: matches })
                        }
                    },
                },
            }
        }
    }
}

/// The outcome of searching `roots` in order for the fragment of `m`.
///
/// A root that is no directory is passed over. A direct child, at the
/// first root that has one, is the whole result, whatever was collected
/// before. In list mode every root's matches are collected. Otherwise the
/// first root with a match decides: a single match is the result, several
/// matches of a wildcard are the result together, and several matches of a
/// plain fragment are an ambiguity at that root. A root or a direct child
/// that the index holds no answer for stops the search.
pub open spec fn search(
    m: MatcherView,
    config: ConfigView,
    scoped: bool,
    roots: Seq<PathView>,
    index: Map<PathView, ProbeView>,
) -> Result<Seq<PathView>, ErrorView> {
    search_from(m, config, scoped, roots, index, 0, Seq::empty())
}

/// The direct child of `root` for the matcher's fragment, if the phase
/// applies and finds one.
fn find_direct_child(matcher: &PatternMatcher, root: &CandidatePath, index: &DirectoryIndex) -> (found:
    Result<Option<CandidatePath>, NcdError>)
    ensures
        match found {
            Ok(Some(path)) => direct_child(matcher@, root@, index@) == Ok::<
                Option<PathView>,
                ErrorView,
            >(Some(path@)),
            Ok(None) => direct_child(matcher@, root@, index@) == Ok::<Option<PathView>, ErrorView>(
                None,
            ),
            Err(error) => direct_child(matcher@, root@, index@) == Err::<
                Option<PathView>,
                ErrorView,
            >(error@),
        },
{
    if matcher.is_wildcard() || matcher.fragment().unicode_len() == 0 {
        return Ok(None);
    }
    let direct = root.child(matcher.fragment());
    match index.lookup(&direct) {
        None => Err(NcdError::Unlisted(direct)),
        Some(Probe::Absent) => Ok(None),
        Some(Probe::Directory(record)) => {
            if !matcher.is_exact() || record.stored_name.as_str().to_owned()
                == matcher.fragment().to_owned() {
                Ok(Some(direct))
            } else {
                Ok(None)
            }
        },
    }
}

/// Appends to `matches` the children that a contents scan of `root`
/// collects.
fn scan_contents(
    matcher: &PatternMatcher,
    config: &SearchConfiguration,
    root: &CandidatePath,
    children: &Vec<String>,
    matches: &mut Vec<CandidatePath>,
)
    ensures
        views(final(matches)@) == views(old(matches)@) + scanned(
            matcher@,
            config@,
            root@,
            texts(children@),
        ),
{
    let ghost before = views(matches@);
    let ghost names = texts(children@);
    let ghost accept = |name: Seq<char>| matcher@.accepts_in_scan(config@.dir_match, name);
    let ghost place = |name: Seq<char>| root@.child(name);
    let mut i: usize = 0;
    assert(names.take(0).filter(accept).map_values(place) =~= Seq::<PathView>::empty()) by {
        reveal(Seq::filter);
    }
    assert(views(matches@) =~= before + names.take(0).filter(accept).map_values(place));
    while i < children.len()
        invariant
            i <= children.len(),
            names == texts(children@),
            accept == |name: Seq<char>| matcher@.accepts_in_scan(config@.dir_match, name),
            place == |name: Seq<char>| root@.child(name),
            views(matches@) == before + names.take(i as int).filter(accept).map_values(place),
        decreases children.len() - i,
    {
        let ghost collected = views(matches@);
        let ghost seen = names.take(i as int);
        proof {
            assert(names.take(i + 1) =~= seen.push(names[i as int]));
            seen.lemma_filter_push(names[i as int], accept);
        }
        if matcher.matches_in_scan(config.dir_match, children[i].as_str()) {
            matches.push(root.child(children[i].as_str()));
            proof {
                assert(views(matches@) =~= collected.push(root@.child(names[i as int])));
                seen.filter(accept).lemma_push_map_commute(place, names[i as int]);
                assert(views(matches@) =~= before + names.take(i + 1).filter(accept).map_values(
                    place,
                ));
            }
        }
        i += 1;
    }
    assert(names.take(children.len() as int) =~= names);
}

/// The matches of the phases after the direct child at one root.
fn collect_at_root(
    matcher: &PatternMatcher,
    config: &SearchConfiguration,
    position: usize,
    scoped: bool,
    root: &CandidatePath,
    record: &DirRecord,
) -> (matches: Vec<CandidatePath>)
    ensures
        views(matches@) == root_matches(
            matcher@,
            config@,
            position as int,
            scoped,
            root@,
            record@,
        ),
{
    let mut matches: Vec<CandidatePath> = Vec::new();
    assert(views(matches@) =~= Seq::<PathView>::empty());
    let wildcard_first = matcher.is_wildcard() && position == 0;
    if wildcard_first {
        scan_contents(matcher, config, root, &record.children, &mut matches);
    }
    let mut target = false;
    if (position > 0 || scoped) && config.mode != CdMode::Origin {
        match root.name() {
            Some(name) => {
                if matcher.matches_directory_name(name.as_str()) {
                    let ghost before = views(matches@);
                    matches.push(root.clone());
                    assert(views(matches@) =~= before + seq![root@]);
                    target = true;
                }
            },
            None => {},
        }
    }
    assert(target == root_is_target(matcher@, config@, position as int, scoped, root@));
    if !wildcard_first && config.mode != CdMode::Target && (position == 0 || !target) {
        scan_contents(matcher, config, root, &record.children, &mut matches);
    }
    assert(views(matches@) =~= root_matches(
        matcher@,
        config@,
        position as int,
        scoped,
        root@,
        record@,
    ));
    matches
}

/// Searches `roots`, in order, with a matcher already made.
pub fn search_with(
    matcher: &PatternMatcher,
    config: &SearchConfiguration,
    roots: &Vec<CandidatePath>,
    scoped: bool,
    index: &DirectoryIndex,
) -> (result: Result<Vec<CandidatePath>, NcdError>)
    ensures
        outcome(result) == search(matcher@, config@, scoped, views(roots@), index@),
{
    let mut found: Vec<CandidatePath> = Vec::new();
    assert(views(found@) =~= Seq::<PathView>::empty());
    let mut i: usize = 0;
    while i < roots.len()
        invariant
            i <= roots.len(),
            search(matcher@, config@, scoped, views(roots@), index@) == search_from(
                matcher@,
                config@,
                scoped,
                views(roots@),
                index@,
                i as int,
                views(found@),
            ),
        decreases roots.len() - i,
    {
        let root = &roots[i];
        assert(views(roots@)[i as int] == root@);
        match index.lookup(root) {
            None => {
                return Err(NcdError::Unlisted(root.clone()));
            },
            Some(Probe::Absent) => {},
            Some(Probe::Directory(record)) => {
                match find_direct_child(matcher, root, index) {
                    Err(error) => {
                        return Err(error);
                    },
                    Ok(Some(direct)) => {
                        let mut only: Vec<CandidatePath> = Vec::new();
                        only.push(direct);
                        assert(views(only@) =~= seq![direct@]);
                        return Ok(only);
                    },
                    Ok(None) => {
                        let mut matches = collect_at_root(
                            matcher,
                            config,
                            i,
                            scoped,
                            root,
                            record,
                        );
                        if matches.len() > 0 {
                            if config.list {
                                let ghost before = views(found@);
                                let ghost added = views(matches@);
                                found.append(&mut matches);
                                assert(views(found@) =~= before + added);
                            } else if matches.len() == 1 || matcher.is_wildcard() {
                                return Ok(matches);
                            } else {
                                return Err(
                                    NcdError::Ambiguous {
                                        root: Some(root.clone()),
                                        candidates: matches,
                                    },
                                );
                            }
                        }
                    },
                }
            },
        }
        i += 1;
    }
    Ok(found)
}

/// Searches `roots`, in order, for `fragment`. `scoped` says that the
/// roots stand for a scope override, so that the first root too can be
/// matched by its own name.
pub fn search_across_roots(
    fragment: &str,
    config: &SearchConfiguration,
    roots: &Vec<CandidatePath>,
    scoped: bool,
    index: &DirectoryIndex,
) -> (result: Result<Vec<CandidatePath>, NcdError>)
    ensures
        outcome(result) == search(
            matcher_for(fragment@, config@),
            config@,
            scoped,
            views(roots@),
            index@,
        ),
{
    let matcher = PatternMatcher::new(fragment, config.exact);
    search_with(&matcher, config, roots, scoped, index)
}

/// Searches for `name` as a whole call does: across the scope override of
/// `config` where it has one, else across the current directory and the
/// search path.
pub fn search_cdpath(
    name: &str,
    config: &SearchConfiguration,
    cwd: &CandidatePath,
    search_path: &Vec<CandidatePath>,
    index: &DirectoryIndex,
) -> (result: Result<Vec<CandidatePath>, NcdError>)
    ensures
        outcome(result) == search(
            matcher_for(name@, config@),
            config@,
            config@.scope_override.is_some(),
            search_roots(config@, cwd@, views(search_path@)),
            index@,
        ),
{
    let roots = enumerate_roots(config, cwd, search_path);
    search_across_roots(name, config, &roots, config.scope_override.is_some(), index)
}

} // verus!
